//! Which files of a project are scanned: the exclude and include globs, and
//! the language of each file.

use vstd::prelude::*;
use crate::models::Language;
use crate::lang::{detect_language, language_of_path};
use crate::paths::{path_strip_prefix, stripped};
use crate::text::string_views;
use crate::text::owned;

verus! {

broadcast use vstd::string::group_string_axioms;

/// What to walk.
#[derive(Debug)]
pub struct WalkConfig {
    /// Every file is taken to be in this language, where given.
    pub forced_lang: Option<Language>,
    pub include_globs: Vec<String>,
    pub exclude_globs: Vec<String>,
}

/// A file the walk keeps.
#[derive(Debug)]
pub struct DiscoveredFile {
    pub abs_path: String,
    pub rel_path: String,
    pub language: Language,
}

#[verifier::external_type_specification]
#[verifier::external_body]
pub struct ExGlob(globset::Glob);

#[verifier::external_type_specification]
#[verifier::external_body]
pub struct ExGlobSetBuilder(globset::GlobSetBuilder);

#[verifier::external_type_specification]
#[verifier::external_body]
pub struct ExGlobSet(globset::GlobSet);

/// The pattern a compiled glob was made from (its `glob` field).
pub uninterp spec fn glob_source(g: globset::Glob) -> Seq<char>;

/// The patterns added to a builder so far, in order (its `pats`).
pub uninterp spec fn builder_globs(b: globset::GlobSetBuilder) -> Seq<Seq<char>>;

/// The patterns a glob set was built from.
pub uninterp spec fn set_globs(s: globset::GlobSet) -> Seq<Seq<char>>;

/// Whether `path` matches one of the glob `patterns` (`GlobSet::is_match`).
pub uninterp spec fn glob_matches(patterns: Seq<Seq<char>>, path: Seq<char>) -> bool;

/// The text of the error `Glob::new` gives for the pattern `p`, where it
/// does not compile.
pub uninterp spec fn glob_error(p: Seq<char>) -> Option<Seq<char>>;

/// The text of the error `GlobSetBuilder::build` gives for a builder of the
/// patterns `ps`, where it fails.
pub uninterp spec fn glob_set_error(ps: Seq<Seq<char>>) -> Option<Seq<char>>;

/// `Glob::new`: the glob compiled from `p` (it keeps `p` as its source), or
/// the text of the error.
#[verifier::external_body]
fn glob_new(p: &str) -> (r: Result<globset::Glob, String>)
    ensures
        r is Err <==> glob_error(p@) is Some,
        r matches Err(e) ==> glob_error(p@) == Some(e@),
        r matches Ok(g) ==> glob_source(g) == p@,
{
    globset::Glob::new(p).map_err(|e| e.to_string())
}

/// `GlobSetBuilder::new`: a builder with no patterns.
#[verifier::external_body]
fn glob_builder() -> (r: globset::GlobSetBuilder)
    ensures
        builder_globs(r) == Seq::<Seq<char>>::empty(),
{
    globset::GlobSetBuilder::new()
}

/// `GlobSetBuilder::add`: appends the glob to the builder's patterns.
#[verifier::external_body]
fn glob_builder_add(b: &mut globset::GlobSetBuilder, g: globset::Glob)
    ensures
        builder_globs(*final(b)) == builder_globs(*old(b)).push(glob_source(g)),
{
    b.add(g);
}

/// `GlobSetBuilder::build`: the set of the builder's patterns, or the text
/// of the error.
#[verifier::external_body]
fn glob_builder_build(b: &globset::GlobSetBuilder) -> (r: Result<globset::GlobSet, String>)
    ensures
        r is Err <==> glob_set_error(builder_globs(*b)) is Some,
        r matches Err(e) ==> glob_set_error(builder_globs(*b)) == Some(e@),
        r matches Ok(s) ==> set_globs(s) == builder_globs(*b),
{
    b.build().map_err(|e| e.to_string())
}

/// `GlobSet::is_match`.
#[verifier::external_body]
fn glob_set_is_match(s: &globset::GlobSet, path: &str) -> (r: bool)
    ensures
        r == glob_matches(set_globs(*s), path@),
{
    s.is_match(path)
}

/// A compiled set of glob patterns.
pub struct GlobMatcher {
    set: globset::GlobSet,
}

impl GlobMatcher {
    /// The patterns the set was compiled from.
    pub closed spec fn patterns(self) -> Seq<Seq<char>> {
        set_globs(self.set)
    }
}

/// The first of `ps` from `i` on that does not compile.
pub open spec fn first_bad_glob(ps: Seq<Seq<char>>, i: int) -> Option<int>
    decreases ps.len() - i,
{
    if i < 0 || i >= ps.len() {
        None
    } else if glob_error(ps[i]) is Some {
        Some(i)
    } else {
        first_bad_glob(ps, i + 1)
    }
}

pub open spec fn invalid_glob_message(p: Seq<char>) -> Seq<char> {
    "invalid glob pattern: "@ + p + ": "@ + glob_error(p)->0
}

/// Compiles the patterns into one set. Where a pattern does not compile,
/// the error names the first such (with the reason after it).
pub fn build_glob_set(patterns: &Vec<String>) -> (r: Result<GlobMatcher, String>)
    ensures
        ({
            let ps = string_views(patterns@);
            match first_bad_glob(ps, 0) {
                Some(i) => r matches Err(m) && m@ == invalid_glob_message(ps[i]),
                None => match glob_set_error(ps) {
                    Some(e) => r matches Err(m) && m@ == e,
                    None => r matches Ok(g) && g.patterns() == ps,
                },
            }
        }),
{
    let mut builder = glob_builder();
    let ghost ps = string_views(patterns@);
    let mut i: usize = 0;
    while i < patterns.len()
        invariant
            ps == string_views(patterns@),
            i <= patterns@.len(),
            builder_globs(builder) == string_views(patterns@.take(i as int)),
            first_bad_glob(ps, 0) == first_bad_glob(ps, i as int),
        decreases patterns.len() - i,
    {
        match glob_new(patterns[i].as_str()) {
            Ok(g) => {
                glob_builder_add(&mut builder, g);
                assert(string_views(patterns@.take(i + 1)) =~= string_views(patterns@.take(i as int)).push(patterns@[i as int]@));
            },
            Err(e) => {
                let mut m = owned("invalid glob pattern: ");
                m.append(patterns[i].as_str());
                m.append(": ");
                m.append(e.as_str());
                assert(ps[i as int] == patterns@[i as int]@);
                assert(m@ =~= invalid_glob_message(ps[i as int]));
                return Err(m);
            },
        }
        i += 1;
    }
    assert(patterns@.take(patterns@.len() as int) =~= patterns@);
    assert(first_bad_glob(ps, patterns@.len() as int) is None);
    match glob_builder_build(&builder) {
        Ok(set) => Ok(GlobMatcher { set }),
        Err(e) => Err(e),
    }
}

/// Whether `path` matches one of the set's patterns.
pub fn glob_is_match(g: &GlobMatcher, path: &str) -> (r: bool)
    ensures
        r == glob_matches(g.patterns(), path@),
{
    glob_set_is_match(&g.set, path)
}

/// The patterns always excluded: tests, dependencies, VCS data and build
/// output.
pub open spec fn default_excludes() -> Seq<Seq<char>> {
    seq![
        "**/test/**"@,
        "**/tests/**"@,
        "**/*Test.java"@,
        "**/node_modules/**"@,
        "**/vendor/**"@,
        "**/.git/**"@,
        "**/target/**"@,
        "**/build/**"@,
        "**/dist/**"@,
    ]
}

/// The exclude patterns of a walk: the defaults, then the user's.
pub fn exclude_patterns(user: &Vec<String>) -> (r: Vec<String>)
    ensures
        string_views(r@) == default_excludes() + string_views(user@),
{
    let mut r: Vec<String> = Vec::new();
    r.push(owned("**/test/**"));
    assert(string_views(r@) =~= default_excludes().take(1));
    r.push(owned("**/tests/**"));
    assert(string_views(r@) =~= default_excludes().take(2));
    r.push(owned("**/*Test.java"));
    assert(string_views(r@) =~= default_excludes().take(3));
    r.push(owned("**/node_modules/**"));
    assert(string_views(r@) =~= default_excludes().take(4));
    r.push(owned("**/vendor/**"));
    assert(string_views(r@) =~= default_excludes().take(5));
    r.push(owned("**/.git/**"));
    assert(string_views(r@) =~= default_excludes().take(6));
    r.push(owned("**/target/**"));
    assert(string_views(r@) =~= default_excludes().take(7));
    r.push(owned("**/build/**"));
    assert(string_views(r@) =~= default_excludes().take(8));
    r.push(owned("**/dist/**"));
    assert(string_views(r@) =~= default_excludes().take(9));
    assert(default_excludes().take(9) =~= default_excludes());
    assert(string_views(r@) =~= default_excludes());
    let mut i: usize = 0;
    while i < user.len()
        invariant
            i <= user@.len(),
            string_views(r@) == default_excludes() + string_views(user@.take(i as int)),
        decreases user.len() - i,
    {
        let ghost before = string_views(r@);
        r.push(user[i].clone());
        assert(string_views(r@) =~= before.push(user@[i as int]@));
        assert(string_views(user@.take(i + 1)) =~= string_views(user@.take(i as int)).push(user@[i as int]@));
        i += 1;
        assert(string_views(r@) =~= default_excludes() + string_views(user@.take(i as int)));
    }
    assert(user@.take(user@.len() as int) =~= user@);
    r
}

/// A file's path relative to the root (empty where it is not under it).
pub open spec fn rel_under(abs: Seq<char>, root: Seq<char>) -> Seq<char> {
    match stripped(abs, root) {
        Some(r) => r,
        None => Seq::empty(),
    }
}

/// The language a walk gives the file at `abs`, if it keeps it: not
/// excluded, included where there are include globs, and of the forced
/// language or one its extension names.
pub open spec fn walk_keeps(
    abs: Seq<char>,
    root: Seq<char>,
    forced: Option<Language>,
    excludes: Seq<Seq<char>>,
    includes: Option<Seq<Seq<char>>>,
) -> Option<Language> {
    let rel = rel_under(abs, root);
    if glob_matches(excludes, rel) {
        None
    } else if includes matches Some(inc) && !glob_matches(inc, rel) {
        None
    } else {
        match forced {
            Some(l) => Some(l),
            None => language_of_path(abs),
        }
    }
}

/// Decides whether the walk keeps the file at `abs` (found under `root`).
pub fn select_file(
    abs: &str,
    root: &str,
    forced_lang: Option<Language>,
    excludes: &GlobMatcher,
    includes: Option<&GlobMatcher>,
) -> (r: Option<DiscoveredFile>)
    ensures
        match walk_keeps(abs@, root@, forced_lang, excludes.patterns(), match includes {
            Some(g) => Some(g.patterns()),
            None => None,
        }) {
            Some(l) => r matches Some(f) && f.abs_path@ == abs@ && f.rel_path@ == rel_under(abs@, root@) && f.language == l,
            None => r is None,
        },
{
    let rel = match path_strip_prefix(abs, root) {
        Some(r) => r,
        None => String::new(),
    };
    if glob_is_match(excludes, rel.as_str()) {
        return None;
    }
    match includes {
        Some(inc) => if !glob_is_match(inc, rel.as_str()) {
            return None;
        },
        None => {},
    }
    let language = match forced_lang {
        Some(l) => l,
        None => match detect_language(abs) {
            Some(l) => l,
            None => return None,
        },
    };
    Some(DiscoveredFile { abs_path: owned(abs), rel_path: rel, language })
}

} // verus!
