//! Utility functions
pub mod csv;
pub mod iter;
pub mod fs;
pub mod crate_id;
pub mod cargo_toml;

pub use crate_id::{CrateData, CrateId, CrateVersion};
