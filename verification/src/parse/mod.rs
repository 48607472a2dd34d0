pub mod common;
pub mod interface;
pub mod spec_index;
pub mod types;
pub mod snapshot;
pub mod laws;
