//! Command line interface: the options a caller hands the library after
//! reading the process arguments and environment.
use vstd::prelude::*;

verus! {

/// The resolved command-line options.
#[derive(Debug)]
pub struct Opt {
    /// Verbose mode (-v, -vv, -vvv, etc.)
    pub verbose: u8,
    /// Use minimal format instead of full format
    pub minimal: bool,
    /// Prefix for output
    pub prefix: String,
    /// VCS name or symbol
    pub name: String,
    /// Current branch
    pub branch: String,
    /// Current operation
    pub operation: String,
}

} // verus!
