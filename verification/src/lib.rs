pub mod text;
pub mod path_ops;
pub mod ident;
pub mod util;
pub mod sink;
pub mod effect;
pub mod loc_tracker;
pub mod audit_file;
pub mod scanner;
pub mod auditing;
pub mod attr_parser;
pub mod scan_stats;
pub mod audit_chain;
pub mod download_crate;
pub mod hacky_resolver;
pub mod expr_scan;
pub mod chain_update;
pub mod item_scan;
pub mod syn_tree;
pub mod quick_resolve;
pub mod syn_parse;
