//! How results are shown to the user.
use vstd::prelude::*;

verus! {

/// Whether one operation succeeded.
#[derive(PartialEq, Eq, Structural, Debug, Clone, Copy)]
pub enum OperationStatus {
    Success,
    Error,
}

/// How a command reports its progress and results.
#[derive(PartialEq, Eq, Structural, Debug, Clone, Copy)]
pub enum OutputFormat {
    Progress,
    Json,
    Simple,
}

impl Default for OutputFormat {
    fn default() -> (r: Self)
        ensures
            r == OutputFormat::Progress,
    {
        OutputFormat::Progress
    }
}

} // verus!
