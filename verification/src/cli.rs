use vstd::prelude::*;

verus! {

/// The command line: one subcommand.
#[derive(Debug)]
pub struct Args {
    pub command: Command,
}

/// What the program is asked to do.
#[derive(Debug)]
pub enum Command {
    /// Download the reference pages under `root_url` into `out_dir`.
    FetchSpec { root_url: String, out_dir: String },
    /// Read a downloaded snapshot and write the generated code to `output`,
    /// with the settings in `config` where one is given.
    Generate { snapshot_dir: String, output: String, config: Option<String> },
}

} // verus!
