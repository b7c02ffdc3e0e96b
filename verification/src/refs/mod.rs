//! Which symbols of its dependencies a file's body references.

pub mod java;

use vstd::prelude::*;
use crate::models::Language;
use crate::refs::java::JavaRefsAnalyzer;

verus! {

/// Reads a file's source and tells, for each internal dependency, the
/// names of its signatures that the source references.
pub trait RefsAnalyzer {
    /// `import_map`: simple name → dependency path; `dep_sigs`: dependency
    /// path → the names of its signatures. Returns: dependency path → the
    /// names referenced, sorted.
    fn extract_refs(
        &self,
        source: &str,
        import_map: &Vec<(String, String)>,
        dep_sigs: &Vec<(String, Vec<String>)>,
    ) -> Vec<(String, Vec<String>)>;
}

/// The analyzer for a language, where there is one (Java only).
pub fn get_refs_analyzer(lang: &Language) -> (r: Option<JavaRefsAnalyzer>)
    ensures
        r is Some <==> *lang == Language::Java,
{
    match lang {
        Language::Java => Some(JavaRefsAnalyzer::new()),
        _ => None,
    }
}

} // verus!
