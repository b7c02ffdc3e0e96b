//! The data the scanner records: languages, signatures, per-file entries and
//! the cache file.

use vstd::prelude::*;
use crate::text::{str_eq, owned};

verus! {

broadcast use vstd::string::group_string_axioms;

/// Whether a count is zero (fields equal to zero are left out of the JSON).
pub fn is_zero(n: &usize) -> (r: bool)
    ensures
        r == (*n == 0),
{
    *n == 0
}

/// A source language the scanner understands.
#[derive(Debug, Clone, Copy, PartialEq, Eq, Structural, Hash)]
pub enum Language {
    Java,
    Python,
    TypeScript,
    JavaScript,
    Go,
    Rust,
    CSharp,
    Cpp,
    Ruby,
}

impl Language {
    /// The lower-case name used in the cache file.
    pub open spec fn spec_name(self) -> Seq<char> {
        match self {
            Language::Java => "java"@,
            Language::Python => "python"@,
            Language::TypeScript => "typescript"@,
            Language::JavaScript => "javascript"@,
            Language::Go => "go"@,
            Language::Rust => "rust"@,
            Language::CSharp => "csharp"@,
            Language::Cpp => "cpp"@,
            Language::Ruby => "ruby"@,
        }
    }

    pub fn as_str(&self) -> (r: &'static str)
        ensures
            r@ == self.spec_name(),
    {
        match self {
            Language::Java => "java",
            Language::Python => "python",
            Language::TypeScript => "typescript",
            Language::JavaScript => "javascript",
            Language::Go => "go",
            Language::Rust => "rust",
            Language::CSharp => "csharp",
            Language::Cpp => "cpp",
            Language::Ruby => "ruby",
        }
    }

    /// The language a cache-file name denotes (the names `as_str` gives, and
    /// the aliases `cs` and `c++`).
    pub open spec fn spec_from_name(s: Seq<char>) -> Option<Language> {
        if s == "java"@ {
            Some(Language::Java)
        } else if s == "python"@ {
            Some(Language::Python)
        } else if s == "typescript"@ {
            Some(Language::TypeScript)
        } else if s == "javascript"@ {
            Some(Language::JavaScript)
        } else if s == "go"@ {
            Some(Language::Go)
        } else if s == "rust"@ {
            Some(Language::Rust)
        } else if s == "csharp"@ || s == "cs"@ {
            Some(Language::CSharp)
        } else if s == "cpp"@ || s == "c++"@ {
            Some(Language::Cpp)
        } else if s == "ruby"@ {
            Some(Language::Ruby)
        } else {
            None
        }
    }

    /// Parses a cache-file language name; the error text is
    /// `unknown language: <s>`.
    pub fn from_name(s: &str) -> (r: Result<Language, String>)
        ensures
            r is Ok <==> Self::spec_from_name(s@) is Some,
            r matches Ok(l) ==> Self::spec_from_name(s@) == Some(l),
            r matches Err(m) ==> m@ == "unknown language: "@ + s@,
    {
        if str_eq(s, "java") {
            Ok(Language::Java)
        } else if str_eq(s, "python") {
            Ok(Language::Python)
        } else if str_eq(s, "typescript") {
            Ok(Language::TypeScript)
        } else if str_eq(s, "javascript") {
            Ok(Language::JavaScript)
        } else if str_eq(s, "go") {
            Ok(Language::Go)
        } else if str_eq(s, "rust") {
            Ok(Language::Rust)
        } else if str_eq(s, "csharp") || str_eq(s, "cs") {
            Ok(Language::CSharp)
        } else if str_eq(s, "cpp") || str_eq(s, "c++") {
            Ok(Language::Cpp)
        } else if str_eq(s, "ruby") {
            Ok(Language::Ruby)
        } else {
            let mut m = owned("unknown language: ");
            m.append(s);
            Err(m)
        }
    }
}

impl std::str::FromStr for Language {
    type Err = String;

    fn from_str(s: &str) -> (r: Result<Self, Self::Err>)
        ensures
            r is Ok <==> Self::spec_from_name(s@) is Some,
            r matches Ok(l) ==> Self::spec_from_name(s@) == Some(l),
            r matches Err(m) ==> m@ == "unknown language: "@ + s@,
    {
        Language::from_name(s)
    }
}

/// One parameter of a method or constructor.
#[derive(Debug, Clone)]
pub struct Param {
    pub name: String,
    pub type_: String,
}

/// One declaration found in a source file.
#[derive(Debug, Clone)]
pub struct Signature {
    /// class|interface|enum|method|constructor|field|function|struct|trait|type|type_alias
    pub kind: String,
    pub name: String,
    pub modifiers: Vec<String>,
    pub params: Option<Vec<Param>>,
    pub return_type: Option<String>,
    pub throws: Vec<String>,
    pub extends: Option<String>,
    pub implements: Vec<String>,
    pub annotations: Vec<String>,
    pub line: usize,
    pub has_docstring: bool,
    pub existing_word_count: usize,
    pub docstring_text: Option<String>,
}

/// One scanned file, as the cache records it.
#[derive(Debug, Clone)]
pub struct FileEntry {
    /// Path relative to the project root.
    pub path: String,
    pub language: String,
    pub package: Option<String>,
    /// The comment coverage, a number in [0, 1], held as the bits of its
    /// IEEE-754 double (`f64::to_bits`); the library carries it unread.
    pub comment_coverage_bits: u64,
    pub skip: bool,
    pub skip_reason: Option<String>,
    pub cycle_warning: bool,
    /// Resolved relative paths of the internal files this one imports.
    pub internal_imports: Vec<String>,
    pub signatures: Vec<Signature>,
    /// Rescan timestamp (RFC 3339).
    pub scanned_at: Option<String>,
    /// "class", "interface", "abstract_class", "annotation", "enum" or "other".
    pub file_kind: String,
    /// Files that implement, extend or apply this file as an annotation.
    pub reverse_deps: Vec<String>,
}

#[derive(Debug, Clone, Copy, PartialEq, Eq, Structural)]
pub struct Stats {
    pub total_files: usize,
    pub skipped_covered: usize,
    pub skipped_generated: usize,
    pub to_comment: usize,
}

/// The cache file. `files` maps a relative path to its entry; a key occurs
/// at most once (the first occurrence is the one looked up).
#[derive(Debug, Clone)]
pub struct CacheFile {
    pub version: u32,
    /// RFC 3339.
    pub scanned_at: String,
    pub project_root: String,
    pub detected_languages: Vec<String>,
    pub stats: Stats,
    pub min_docstring_words: usize,
    /// Relative paths in dependency order (non-skipped files only).
    pub order: Vec<String>,
    pub files: Vec<(String, FileEntry)>,
}

#[derive(Debug, Clone)]
pub struct ScanSummary {
    pub project_root: String,
    pub detected_languages: Vec<String>,
    pub cache: String,
    pub stats: Stats,
}

/// A copy of a list of strings.
pub fn copy_strings(v: &Vec<String>) -> (r: Vec<String>)
    ensures
        r@ == v@,
{
    let mut r: Vec<String> = Vec::new();
    let mut i: usize = 0;
    while i < v.len()
        invariant
            i <= v@.len(),
            r@ == v@.take(i as int),
        decreases v.len() - i,
    {
        r.push(v[i].clone());
        i += 1;
        assert(r@ =~= v@.take(i as int));
    }
    assert(v@.take(v@.len() as int) =~= v@);
    r
}

/// A copy of an optional string.
pub fn copy_opt_string(o: &Option<String>) -> (r: Option<String>)
    ensures
        r == *o,
{
    match o {
        Some(s) => Some(s.clone()),
        None => None,
    }
}

impl Param {
    pub fn duplicate(&self) -> (r: Param)
        ensures
            r == *self,
    {
        Param { name: self.name.clone(), type_: self.type_.clone() }
    }
}

/// An optional parameter list, as a sequence.
pub open spec fn params_view(p: Option<Vec<Param>>) -> Option<Seq<Param>> {
    match p {
        Some(v) => Some(v@),
        None => None,
    }
}

/// A copy of an optional parameter list.
pub fn copy_params(o: &Option<Vec<Param>>) -> (r: Option<Vec<Param>>)
    ensures
        params_view(r) == params_view(*o),
{
    match o {
        Some(v) => {
            let mut r: Vec<Param> = Vec::new();
            let mut i: usize = 0;
            while i < v.len()
                invariant
                    i <= v@.len(),
                    r@ == v@.take(i as int),
                decreases v.len() - i,
            {
                r.push(v[i].duplicate());
                i += 1;
                assert(r@ =~= v@.take(i as int));
            }
            assert(v@.take(v@.len() as int) =~= v@);
            Some(r)
        },
        None => None,
    }
}

impl Signature {
    /// Two signatures that record the same declaration, field by field.
    pub open spec fn same(self, o: Signature) -> bool {
        &&& self.kind == o.kind
        &&& self.name == o.name
        &&& self.modifiers@ == o.modifiers@
        &&& params_view(self.params) == params_view(o.params)
        &&& self.return_type == o.return_type
        &&& self.throws@ == o.throws@
        &&& self.extends == o.extends
        &&& self.implements@ == o.implements@
        &&& self.annotations@ == o.annotations@
        &&& self.line == o.line
        &&& self.has_docstring == o.has_docstring
        &&& self.existing_word_count == o.existing_word_count
        &&& self.docstring_text == o.docstring_text
    }

    pub fn duplicate(&self) -> (r: Signature)
        ensures
            r.same(*self),
    {
        Signature {
            kind: self.kind.clone(),
            name: self.name.clone(),
            modifiers: copy_strings(&self.modifiers),
            params: copy_params(&self.params),
            return_type: copy_opt_string(&self.return_type),
            throws: copy_strings(&self.throws),
            extends: copy_opt_string(&self.extends),
            implements: copy_strings(&self.implements),
            annotations: copy_strings(&self.annotations),
            line: self.line,
            has_docstring: self.has_docstring,
            existing_word_count: self.existing_word_count,
            docstring_text: copy_opt_string(&self.docstring_text),
        }
    }
}

/// Two signature lists that agree entry by entry.
pub open spec fn same_signatures(a: Seq<Signature>, b: Seq<Signature>) -> bool {
    &&& a.len() == b.len()
    &&& forall|i: int| 0 <= i < a.len() ==> (#[trigger] a[i]).same(b[i])
}

pub proof fn lemma_same_signatures_refl(a: Seq<Signature>)
    ensures
        same_signatures(a, a),
{
}

/// A copy of a list of signatures.
pub fn copy_signatures(v: &Vec<Signature>) -> (r: Vec<Signature>)
    ensures
        same_signatures(r@, v@),
{
    let mut r: Vec<Signature> = Vec::new();
    let mut i: usize = 0;
    while i < v.len()
        invariant
            i <= v@.len(),
            same_signatures(r@, v@.take(i as int)),
        decreases v.len() - i,
    {
        r.push(v[i].duplicate());
        i += 1;
    }
    assert(v@.take(v@.len() as int) =~= v@);
    r
}

/// `i` is the first position of key `k` in `fs`.
pub open spec fn is_first_key(fs: Seq<(String, FileEntry)>, k: Seq<char>, i: int) -> bool {
    &&& 0 <= i < fs.len()
    &&& fs[i].0@ == k
    &&& forall|j: int| 0 <= j < i ==> fs[j].0@ != k
}

pub open spec fn has_key(fs: Seq<(String, FileEntry)>, k: Seq<char>) -> bool {
    exists|i: int| 0 <= i < fs.len() && fs[i].0@ == k
}

/// The position `k` is found at.
pub open spec fn key_index(fs: Seq<(String, FileEntry)>, k: Seq<char>) -> int {
    choose|i: int| is_first_key(fs, k, i)
}

/// The entry recorded under `k`.
pub open spec fn lookup(fs: Seq<(String, FileEntry)>, k: Seq<char>) -> Option<FileEntry> {
    if has_key(fs, k) {
        Some(fs[key_index(fs, k)].1)
    } else {
        None
    }
}

pub proof fn lemma_first_key(fs: Seq<(String, FileEntry)>, k: Seq<char>, i: int)
    requires
        is_first_key(fs, k, i),
    ensures
        has_key(fs, k),
        key_index(fs, k) == i,
        lookup(fs, k) == Some(fs[i].1),
{
    let j = key_index(fs, k);
    assert(is_first_key(fs, k, j));
    if j < i {
        assert(fs[j].0@ != k);
    }
    if i < j {
        assert(fs[i].0@ != k);
    }
}

proof fn lemma_first_from(fs: Seq<(String, FileEntry)>, k: Seq<char>, j: int)
    requires
        0 <= j < fs.len(),
        fs[j].0@ == k,
    ensures
        exists|i: int| is_first_key(fs, k, i),
    decreases j,
{
    if exists|i: int| 0 <= i < j && fs[i].0@ == k {
        let i = choose|i: int| 0 <= i < j && fs[i].0@ == k;
        lemma_first_from(fs, k, i);
    } else {
        assert(is_first_key(fs, k, j));
    }
}

/// Where a key occurs, `key_index` is its first position.
pub proof fn lemma_key_index(fs: Seq<(String, FileEntry)>, k: Seq<char>)
    requires
        has_key(fs, k),
    ensures
        is_first_key(fs, k, key_index(fs, k)),
{
    let j = choose|j: int| 0 <= j < fs.len() && fs[j].0@ == k;
    lemma_first_from(fs, k, j);
}

/// Position of the entry recorded under `key`.
pub fn find_file(files: &Vec<(String, FileEntry)>, key: &str) -> (r: Option<usize>)
    ensures
        r matches Some(i) ==> is_first_key(files@, key@, i as int) && lookup(files@, key@) == Some(
            files@[i as int].1,
        ),
        r is None ==> !has_key(files@, key@) && lookup(files@, key@) is None,
{
    let mut i: usize = 0;
    while i < files.len()
        invariant
            i <= files.len(),
            forall|j: int| 0 <= j < i ==> files@[j].0@ != key@,
        decreases files.len() - i,
    {
        if str_eq(files[i].0.as_str(), key) {
            proof {
                lemma_first_key(files@, key@, i as int);
            }
            return Some(i);
        }
        i += 1;
    }
    None
}

impl CacheFile {
    /// No path is recorded twice (the entries form a map by path).
    pub open spec fn keys_distinct(self) -> bool {
        forall|i: int, j: int| 0 <= i < j < self.files@.len() ==> #[trigger] self.files@[i].0@ != #[trigger] self.files@[j].0@
    }

    /// The entry recorded under `key`.
    pub open spec fn entry(self, key: Seq<char>) -> Option<FileEntry> {
        lookup(self.files@, key)
    }

    /// Whether the cache holds an entry under `key`.
    pub fn contains(&self, key: &str) -> (r: bool)
        ensures
            r == self.entry(key@) is Some,
    {
        find_file(&self.files, key).is_some()
    }

    /// The entry recorded under `key`.
    pub fn get(&self, key: &str) -> (r: Option<&FileEntry>)
        ensures
            r matches Some(e) ==> self.entry(key@) == Some(*e),
            r is None ==> self.entry(key@) is None,
    {
        match find_file(&self.files, key) {
            Some(i) => Some(&self.files[i].1),
            None => None,
        }
    }
}

} // verus!
