//! Failures that callers branch on by their stable code.

use vstd::prelude::*;
use crate::text::owned;

verus! {

broadcast use vstd::string::group_string_axioms;

/// A failure that callers branch on programmatically; the envelope carries
/// its `code` as `error.code`.
#[derive(Debug, Clone)]
pub enum CodeskelError {
    /// Cache file referenced by the caller does not exist (its path).
    CacheNotFound(String),
    /// `session.json` exists but cannot be parsed (its path).
    SessionCorrupt(String),
    /// A command requiring a project root was given a path that doesn't exist.
    ProjectRootMissing(String),
    /// Caller asked about a file that the cache doesn't know about.
    TargetNotInTree(String),
}

impl CodeskelError {
    pub open spec fn spec_code(self) -> Seq<char> {
        match self {
            CodeskelError::CacheNotFound(_) => "CACHE_NOT_FOUND"@,
            CodeskelError::SessionCorrupt(_) => "SESSION_CORRUPT"@,
            CodeskelError::ProjectRootMissing(_) => "PROJECT_ROOT_MISSING"@,
            CodeskelError::TargetNotInTree(_) => "TARGET_NOT_IN_TREE"@,
        }
    }

    pub open spec fn spec_hint(self) -> Option<Seq<char>> {
        match self {
            CodeskelError::CacheNotFound(_) => Some("run `codeskel scan <project_root>` first"@),
            CodeskelError::SessionCorrupt(_) => Some("delete the file and rerun"@),
            CodeskelError::ProjectRootMissing(_) => None,
            CodeskelError::TargetNotInTree(_) => Some("run `codeskel scan` after the file was added"@),
        }
    }

    pub open spec fn spec_message(self) -> Seq<char> {
        match self {
            CodeskelError::CacheNotFound(p) => "cache not found at "@ + p@,
            CodeskelError::SessionCorrupt(p) => "session file at "@ + p@ + " is corrupt"@,
            CodeskelError::ProjectRootMissing(p) => "project root not found: "@ + p@,
            CodeskelError::TargetNotInTree(t) => "'"@ + t@ + "' not found in cache"@,
        }
    }

    /// The stable code of the failure.
    pub fn code(&self) -> (r: &'static str)
        ensures
            r@ == self.spec_code(),
    {
        match self {
            CodeskelError::CacheNotFound(_) => "CACHE_NOT_FOUND",
            CodeskelError::SessionCorrupt(_) => "SESSION_CORRUPT",
            CodeskelError::ProjectRootMissing(_) => "PROJECT_ROOT_MISSING",
            CodeskelError::TargetNotInTree(_) => "TARGET_NOT_IN_TREE",
        }
    }

    /// What the caller can do about it, where there is something.
    pub fn hint(&self) -> (r: Option<&'static str>)
        ensures
            match r {
                Some(h) => self.spec_hint() == Some(h@),
                None => self.spec_hint() is None,
            },
    {
        match self {
            CodeskelError::CacheNotFound(_) => Some("run `codeskel scan <project_root>` first"),
            CodeskelError::SessionCorrupt(_) => Some("delete the file and rerun"),
            CodeskelError::ProjectRootMissing(_) => None,
            CodeskelError::TargetNotInTree(_) => Some("run `codeskel scan` after the file was added"),
        }
    }

    /// The human-readable text of the failure.
    pub fn message(&self) -> (r: String)
        ensures
            r@ == self.spec_message(),
    {
        match self {
            CodeskelError::CacheNotFound(p) => {
                let mut m = owned("cache not found at ");
                m.append(p.as_str());
                m
            },
            CodeskelError::SessionCorrupt(p) => {
                let mut m = owned("session file at ");
                m.append(p.as_str());
                m.append(" is corrupt");
                m
            },
            CodeskelError::ProjectRootMissing(p) => {
                let mut m = owned("project root not found: ");
                m.append(p.as_str());
                m
            },
            CodeskelError::TargetNotInTree(t) => {
                let mut m = owned("'");
                m.append(t.as_str());
                m.append("' not found in cache");
                m
            },
        }
    }
}

} // verus!
