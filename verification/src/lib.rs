//! Builds a version-indexed documentation site: one generated tree per selected
//! git reference, gathered into a single output tree with a navigable index.
//!
//! The library holds the decisions of such a build; launching processes and
//! touching the file system is left to its caller.

pub mod config;
pub mod error;
pub mod filter;
pub mod git;
pub mod inject;
pub mod orchestrator;
pub mod refname;
pub mod render;
pub mod state;
pub mod text;
pub mod transition;
pub mod version_index;
