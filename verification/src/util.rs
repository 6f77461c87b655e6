//! The record in which a caller hands over what an external command
//! printed.
use vstd::prelude::*;

use crate::text::str_eq;

verus! {

/// The captured output of one external command.
#[derive(Debug)]
pub struct CommandOutput {
    pub stdout: String,
    pub stderr: String,
}

impl PartialEq for CommandOutput {
    fn eq(&self, other: &CommandOutput) -> (r: bool) {
        str_eq(self.stdout.as_str(), other.stdout.as_str()) && str_eq(
            self.stderr.as_str(),
            other.stderr.as_str(),
        )
    }
}

impl vstd::std_specs::cmp::PartialEqSpecImpl for CommandOutput {
    open spec fn obeys_eq_spec() -> bool {
        true
    }

    open spec fn eq_spec(&self, other: &CommandOutput) -> bool {
        self.stdout@ == other.stdout@ && self.stderr@ == other.stderr@
    }
}

} // verus!
