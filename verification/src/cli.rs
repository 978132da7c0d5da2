use vstd::prelude::*;

verus! {

/// The command line: the configuration file to load, and whether to report
/// in detail.
#[derive(Debug, Clone)]
pub struct Cli {
    pub config_file: String,
    pub verbose: bool,
}

} // verus!
