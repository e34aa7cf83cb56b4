//! Keeps a workspace of git clones in line with a sorted, deduplicated list
//! of repositories gathered from remote sources.

pub mod commands;
pub mod display;
pub mod drift;
pub mod error;
pub mod executor;
pub mod group;
pub mod lockfile;
pub mod order;
pub mod providers;
pub mod repository;
pub mod text;
