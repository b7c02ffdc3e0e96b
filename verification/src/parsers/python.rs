//! The Python parser: Python files are found and resolved, but no
//! declarations are read from them yet.

use vstd::prelude::*;
use crate::parsers::ParseResult;

verus! {

pub struct PythonParser;

impl PythonParser {
    pub fn new() -> (r: Self) {
        PythonParser
    }

    /// Finds nothing: no imports, no signatures, no package.
    pub fn parse(&self, _source: &str) -> (r: ParseResult)
        ensures
            r.raw_imports@.len() == 0,
            r.signatures@.len() == 0,
            r.documented == 0,
            r.documentable == 0,
            r.package is None,
    {
        ParseResult::empty()
    }
}

} // verus!
