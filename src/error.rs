//! The errors of the library.
use vstd::prelude::*;

verus! {

/// What went wrong, with a message for the user.
#[derive(Debug, Clone, PartialEq, Eq)]
pub enum WorkspaceError {
    Io(String),
    Git(String),
    InvalidPath(String),
    CommandFailed(String),
    Repository(String),
    Config(String),
    ThreadPool(String),
    Lockfile(String),
}

} // verus!
