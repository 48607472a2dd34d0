pub mod spec;
