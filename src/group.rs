//! Named groups of repositories.
use crate::repository::Repository;
use vstd::prelude::*;

verus! {

/// A group to add: its name, and the paths that a repository must have for
/// it to belong to the group.
#[derive(Debug)]
pub struct GroupConfig {
    pub name: String,
    pub exists: Vec<String>,
}

/// What to do with groups.
#[derive(Debug)]
pub enum GroupCommand {
    Add(GroupConfig),
    Remove { name: String },
    List,
}

/// A group as it is kept in the lockfile.
#[derive(Debug)]
pub struct Group {
    pub name: String,
    pub repositories: Vec<Repository>,
}

} // verus!
