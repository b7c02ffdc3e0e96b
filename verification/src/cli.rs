//! The options of the commands that read the cache.

use vstd::prelude::*;

verus! {

/// The options of `get`.
#[derive(Debug)]
pub struct GetArgs {
    /// Path to `.codeskel/cache.json`.
    pub cache_path: String,
    /// Position in the order array (0-based).
    pub index: Option<usize>,
    /// A file by its path, relative to the project root.
    pub path: Option<String>,
    /// The signatures of the direct dependencies of this file.
    pub deps: Option<String>,
    /// The transitive dependency chain of this file (its length, or with
    /// `index` one of its entries).
    pub chain: Option<String>,
    /// The symbols this file references in its dependencies.
    pub refs: Option<String>,
}

/// The options of `rescan`.
#[derive(Debug)]
pub struct RescanArgs {
    /// Path to `.codeskel/cache.json`.
    pub cache_path: String,
    /// Files to re-parse.
    pub file_paths: Vec<String>,
}

/// The options of `next`.
#[derive(Debug)]
pub struct NextArgs {
    /// Path to `.codeskel/cache.json`.
    pub cache: String,
    /// Restrict the loop to the transitive dependency chain of this file.
    pub target: Option<String>,
    /// How many `field` signatures of a dependency are shown at most.
    pub max_fields: usize,
}

/// The options of `pom`.
#[derive(Debug)]
pub struct PomArgs {
    /// Path to the project root.
    pub project_root: String,
    /// Path hint for multi-module resolution.
    pub controller_path: Option<String>,
}

} // verus!
