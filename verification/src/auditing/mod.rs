pub mod util;
pub mod info;
pub mod review;
pub mod audit;
pub mod tree_audit;
pub mod session;
pub mod invalid;
pub mod label;
pub mod pub_fn;
