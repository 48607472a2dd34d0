pub mod common;
pub mod interface;
pub mod spec;
pub mod types;
