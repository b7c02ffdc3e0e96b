//! Maps raw import strings to relative project file paths, per language.

use vstd::prelude::*;
use crate::models::Language;
use crate::paths::{
    extension_of, file_name_of, file_stem_of, joined, parent_of, path_extension, path_file_name,
    path_file_stem, path_join, path_parent,
};
use crate::text::{
    chars_eq, chars_lt, chars_of, concat_chars, ends_with, ends_with_chars, join, join_chars,
    opt_view, replace_char, replace_char_chars, seq_lt, slice_chars, split_chars, split_on,
    starts_with, starts_with_chars, str_eq, string_of, trim_end_matches, trim_end_matches_chars,
    trim_start_matches, trim_start_matches_chars, views, string_views,
};

verus! {

broadcast use vstd::string::group_string_axioms;

// ─── key specs ──────────────────────────────────────────────────────────────

/// "a/b/c.ts" → "a/b/c"; "c.ts" → "c": the parent joined to the file stem.
pub open spec fn extensionless(p: Seq<char>) -> Seq<char> {
    match (parent_of(p), file_stem_of(p)) {
        (Some(parent), Some(stem)) => if parent.len() > 0 {
            parent + "/"@ + stem
        } else {
            stem
        },
        (None, Some(stem)) => stem,
        (_, None) => p,
    }
}

/// One step of path normalisation: `..` pops, `.` and empty pieces are dropped.
pub open spec fn norm_step(stack: Seq<Seq<char>>, c: Seq<char>) -> Seq<Seq<char>> {
    if c == ".."@ {
        if stack.len() > 0 {
            stack.drop_last()
        } else {
            stack
        }
    } else if c == "."@ || c.len() == 0 {
        stack
    } else {
        stack.push(c)
    }
}

pub open spec fn norm_parts(parts: Seq<Seq<char>>) -> Seq<Seq<char>>
    decreases parts.len(),
{
    if parts.len() == 0 {
        Seq::empty()
    } else {
        norm_step(norm_parts(parts.drop_last()), parts.last())
    }
}

/// The `/`-separated components with `.` and empty ones dropped and each
/// `..` cancelling the component before it.
pub open spec fn normalized(p: Seq<char>) -> Seq<char> {
    join(norm_parts(split_on(p, '/')), "/"@)
}

/// A component a normalised path keeps: not empty, not `.` or `..`, and
/// without `/`.
pub open spec fn plain_component(c: Seq<char>) -> bool {
    c.len() > 0 && c != "."@ && c != ".."@ && !c.contains('/')
}

/// Normalising components none of which holds `/` keeps only plain ones.
pub proof fn lemma_norm_parts_plain(parts: Seq<Seq<char>>)
    requires
        forall|i: int| 0 <= i < parts.len() ==> !(#[trigger] parts[i]).contains('/'),
    ensures
        forall|k: int| 0 <= k < norm_parts(parts).len() ==> plain_component(#[trigger] norm_parts(parts)[k]),
    decreases parts.len(),
{
    if parts.len() > 0 {
        let p0 = parts.drop_last();
        assert forall|i: int| 0 <= i < p0.len() implies !(#[trigger] p0[i]).contains('/') by {
            assert(p0[i] == parts[i]);
        }
        lemma_norm_parts_plain(p0);
        let st = norm_parts(p0);
        let c = parts.last();
        assert(!parts[parts.len() - 1].contains('/'));
        let r = norm_parts(parts);
        assert forall|k: int| 0 <= k < r.len() implies plain_component(#[trigger] r[k]) by {
            if k < st.len() {
                assert(r[k] == st[k]);
            }
        }
    }
}

/// Plain components normalise to themselves.
pub proof fn lemma_norm_parts_plain_fixed(cs: Seq<Seq<char>>)
    requires
        forall|i: int| 0 <= i < cs.len() ==> plain_component(#[trigger] cs[i]),
    ensures
        norm_parts(cs) == cs,
    decreases cs.len(),
{
    if cs.len() > 0 {
        let c0 = cs.drop_last();
        assert forall|i: int| 0 <= i < c0.len() implies plain_component(#[trigger] c0[i]) by {
            assert(c0[i] == cs[i]);
        }
        lemma_norm_parts_plain_fixed(c0);
        assert(plain_component(cs[cs.len() - 1]));
        assert(c0.push(cs.last()) =~= cs);
    }
}

/// Replacing a character in two joined texts replaces it in each.
pub proof fn lemma_replace_concat(a: Seq<char>, b: Seq<char>, from: char, to: Seq<char>)
    ensures
        replace_char(a + b, from, to) == replace_char(a, from, to) + replace_char(b, from, to),
    decreases b.len(),
{
    if b.len() == 0 {
        assert(a + b =~= a);
        assert(replace_char(a, from, to) + replace_char(b, from, to) =~= replace_char(a, from, to));
    } else {
        lemma_replace_concat(a, b.drop_last(), from, to);
        assert((a + b).drop_last() =~= a + b.drop_last());
        assert((a + b).last() == b.last());
        assert(replace_char(a + b, from, to) =~= replace_char(a, from, to) + replace_char(b, from, to));
    }
}

/// The name without the first Java source root prefix it starts with
/// (`src/main/java/`, `src/java/`, `main/java/`, `src/`, with `.` for `/`).
pub open spec fn strip_java_root(s: Seq<char>) -> Seq<char> {
    if starts_with(s, "src.main.java."@) {
        s.skip("src.main.java."@.len() as int)
    } else if starts_with(s, "src.java."@) {
        s.skip("src.java."@.len() as int)
    } else if starts_with(s, "main.java."@) {
        s.skip("main.java."@.len() as int)
    } else if starts_with(s, "src."@) {
        s.skip("src."@.len() as int)
    } else {
        s
    }
}

/// "src/main/java/com/example/model/User.java" → "com.example.model.User"
pub open spec fn java_fqn(p: Seq<char>) -> Option<Seq<char>> {
    if extension_of(p) != Some("java"@) {
        None
    } else {
        let s = replace_char(p, '/', "."@);
        let s2 = if ends_with(s, ".java"@) {
            s.take(s.len() - ".java"@.len())
        } else {
            s
        };
        Some(strip_java_root(s2))
    }
}

/// "myapp/models.py" → "myapp.models"; "myapp/models/__init__.py" → "myapp.models"
pub open spec fn python_module(p: Seq<char>) -> Seq<char> {
    let s = if ends_with(p, "/__init__.py"@) {
        trim_end_matches(p, "/__init__.py"@)
    } else {
        trim_end_matches(p, ".py"@)
    };
    replace_char(s, '/', "."@)
}

/// "src/models/user.rs" → "crate::models::user"; "src/models.rs" → "crate::models"
pub open spec fn rust_module(p: Seq<char>) -> Seq<char> {
    let s = trim_end_matches(trim_end_matches(trim_start_matches(p, "src/"@), "/mod.rs"@), ".rs"@);
    "crate::"@ + replace_char(s, '/', "::"@)
}

/// "pkg/models/user.go" → "pkg/models"
pub open spec fn go_package(p: Seq<char>) -> Seq<char> {
    match parent_of(p) {
        Some(d) => d,
        None => Seq::empty(),
    }
}

/// The import path of the package holding `p`, under module `m`.
pub open spec fn go_import(m: Seq<char>, p: Seq<char>) -> Seq<char> {
    trim_end_matches(m, "/"@) + "/"@ + go_package(p)
}

/// "Models/UserService.cs" → Some("Models.UserService")
pub open spec fn csharp_namespace(p: Seq<char>) -> Option<Seq<char>> {
    match (file_stem_of(p), parent_of(p)) {
        (Some(stem), Some(parent)) => {
            let dir = replace_char(parent, '/', "."@);
            Some(if dir.len() == 0 { stem } else { dir + "."@ + stem })
        },
        _ => None,
    }
}

/// How the index changes for one more file `p`.
pub open spec fn index_step(
    lang: Language,
    go_module: Option<Seq<char>>,
    m: Map<Seq<char>, Seq<char>>,
    p: Seq<char>,
) -> Map<Seq<char>, Seq<char>> {
    match lang {
        Language::Java => match java_fqn(p) {
            Some(k) => m.insert(k, p),
            None => m,
        },
        Language::Python => m.insert(python_module(p), p),
        Language::TypeScript | Language::JavaScript | Language::Ruby => m.insert(extensionless(p), p).insert(p, p),
        Language::Go => match go_module {
            // each package maps to its first file by name
            Some(md) => if go_package(p).len() > 0 {
                let k = go_import(md, p);
                if !m.contains_key(k) || seq_lt(p, m[k]) {
                    m.insert(k, p)
                } else {
                    m
                }
            } else {
                m
            },
            // Without go.mod, all Go imports are external — index nothing
            None => m,
        },
        Language::Rust => m.insert(rust_module(p), p),
        Language::CSharp => match csharp_namespace(p) {
            Some(k) => m.insert(k, p),
            None => m,
        },
        Language::Cpp => {
            let m1 = m.insert(p, p);
            match file_name_of(p) {
                Some(name) => if m1.contains_key(name) {
                    m1
                } else {
                    m1.insert(name, p)
                },
                None => m1,
            }
        },
    }
}

/// The index built from the files in order.
pub open spec fn build_index(lang: Language, go_module: Option<Seq<char>>, paths: Seq<Seq<char>>) -> Map<Seq<char>, Seq<char>>
    decreases paths.len(),
{
    if paths.len() == 0 {
        Map::empty()
    } else {
        index_step(lang, go_module, build_index(lang, go_module, paths.drop_last()), paths.last())
    }
}

/// The file an import resolves to: by direct lookup, else (for a `./` or
/// `../` import with a known importer directory) by the normalised joined path.
pub open spec fn resolved(idx: Map<Seq<char>, Seq<char>>, raw: Seq<char>, dir: Option<Seq<char>>) -> Option<Seq<char>> {
    if idx.contains_key(raw) {
        Some(idx[raw])
    } else {
        match dir {
            Some(d) => if starts_with(raw, "./"@) || starts_with(raw, "../"@) {
                let k = normalized(joined(d, raw));
                if idx.contains_key(k) {
                    Some(idx[k])
                } else {
                    None
                }
            } else {
                None
            },
            None => None,
        }
    }
}

// ─── the key helpers ────────────────────────────────────────────────────────

fn strip_extension(p: &str) -> (r: String)
    ensures
        r@ == extensionless(p@),
{
    let parent = path_parent(p);
    let stem = path_file_stem(p);
    match (parent, stem) {
        (Some(parent), Some(stem)) => {
            if !parent.as_str().is_empty() {
                let mut r = parent;
                proof {
                    assert(r@.len() > 0);
                }
                r.append("/");
                r.append(stem.as_str());
                r
            } else {
                proof {
                    assert(parent@.len() == 0);
                }
                stem
            }
        },
        (None, Some(stem)) => stem,
        (_, None) => p.to_owned(),
    }
}

fn normalize_path(p: &str) -> (r: String)
    ensures
        r@ == normalized(p@),
{
    let chars = chars_of(p);
    let parts = split_chars(chars.as_slice(), '/');
    let ghost pv = split_on(p@, '/');
    let dd = chars_of("..");
    let d = chars_of(".");
    let mut stack: Vec<Vec<char>> = Vec::new();
    let mut i: usize = 0;
    assert(views(parts@) =~= pv);
    while i < parts.len()
        invariant
            i <= parts@.len(),
            views(parts@) == pv,
            views(stack@) == norm_parts(pv.take(i as int)),
            dd@ == ".."@,
            d@ == "."@,
        decreases parts.len() - i,
    {
        let ghost st = stack@;
        let c = &parts[i];
        proof {
            assert(pv.take(i + 1).drop_last() =~= pv.take(i as int));
            assert(pv.take(i + 1).last() == c@);
        }
        if chars_eq(c.as_slice(), dd.as_slice()) {
            if stack.len() > 0 {
                stack.pop();
                assert(views(stack@) =~= views(st).drop_last());
            }
        } else if chars_eq(c.as_slice(), d.as_slice()) || c.len() == 0 {
        } else {
            let copy = slice_chars(c.as_slice(), 0, c.len());
            assert(copy@ =~= c@);
            stack.push(copy);
            assert(views(stack@) =~= views(st).push(c@));
        }
        i += 1;
    }
    assert(pv.take(parts@.len() as int) =~= pv);
    let sep = chars_of("/");
    let joined_chars = join_chars(&stack, sep.as_slice());
    string_of(joined_chars.as_slice())
}

/// "src/main/java/com/example/model/User.java" → "com.example.model.User"
fn java_path_to_fqn(rel_path: &str) -> (r: Option<String>)
    ensures
        opt_view(r) == java_fqn(rel_path@),
{
    match path_extension(rel_path) {
        Some(e) => {
            if !str_eq(e.as_str(), "java") {
                return None;
            }
        },
        None => {
            return None;
        },
    }
    let pc = chars_of(rel_path);
    let dot = chars_of(".");
    let s = replace_char_chars(pc.as_slice(), '/', dot.as_slice());
    let suffix = chars_of(".java");
    let s2 = if ends_with_chars(s.as_slice(), suffix.as_slice()) {
        slice_chars(s.as_slice(), 0, s.len() - suffix.len())
    } else {
        slice_chars(s.as_slice(), 0, s.len())
    };
    proof {
        assert(s@.subrange(0, s@.len() as int) =~= s@);
        assert(s@.subrange(0, s@.len() - suffix@.len()) =~= s@.take(s@.len() - ".java"@.len()));
    }
    let p0 = chars_of("src.main.java.");
    let p1 = chars_of("src.java.");
    let p2 = chars_of("main.java.");
    let p3 = chars_of("src.");
    let rest = if starts_with_chars(s2.as_slice(), p0.as_slice()) {
        slice_chars(s2.as_slice(), p0.len(), s2.len())
    } else if starts_with_chars(s2.as_slice(), p1.as_slice()) {
        slice_chars(s2.as_slice(), p1.len(), s2.len())
    } else if starts_with_chars(s2.as_slice(), p2.as_slice()) {
        slice_chars(s2.as_slice(), p2.len(), s2.len())
    } else if starts_with_chars(s2.as_slice(), p3.as_slice()) {
        slice_chars(s2.as_slice(), p3.len(), s2.len())
    } else {
        slice_chars(s2.as_slice(), 0, s2.len())
    };
    proof {
        assert(s2@.subrange(0, s2@.len() as int) =~= s2@);
        assert(s2@.subrange(p0@.len() as int, s2@.len() as int) =~= s2@.skip(p0@.len() as int));
        assert(s2@.subrange(p1@.len() as int, s2@.len() as int) =~= s2@.skip(p1@.len() as int));
        assert(s2@.subrange(p2@.len() as int, s2@.len() as int) =~= s2@.skip(p2@.len() as int));
        assert(s2@.subrange(p3@.len() as int, s2@.len() as int) =~= s2@.skip(p3@.len() as int));
    }
    Some(string_of(rest.as_slice()))
}

/// "myapp/models.py" → "myapp.models"
/// "myapp/models/__init__.py" → "myapp.models"
fn python_path_to_module(rel_path: &str) -> (r: String)
    ensures
        r@ == python_module(rel_path@),
{
    let pc = chars_of(rel_path);
    let init = chars_of("/__init__.py");
    let py = chars_of(".py");
    proof {
        reveal_strlit("/__init__.py");
        reveal_strlit(".py");
    }
    let s = if ends_with_chars(pc.as_slice(), init.as_slice()) {
        trim_end_matches_chars(pc.as_slice(), init.as_slice())
    } else {
        trim_end_matches_chars(pc.as_slice(), py.as_slice())
    };
    let dot = chars_of(".");
    let r = replace_char_chars(s.as_slice(), '/', dot.as_slice());
    string_of(r.as_slice())
}

/// "src/models/user.rs" → "crate::models::user"
/// "src/models.rs" → "crate::models"
fn rust_path_to_module(rel_path: &str) -> (r: String)
    ensures
        r@ == rust_module(rel_path@),
{
    let pc = chars_of(rel_path);
    let src = chars_of("src/");
    let modrs = chars_of("/mod.rs");
    let rs = chars_of(".rs");
    proof {
        reveal_strlit("src/");
        reveal_strlit("/mod.rs");
        reveal_strlit(".rs");
    }
    let a = trim_start_matches_chars(pc.as_slice(), src.as_slice());
    let b = trim_end_matches_chars(a.as_slice(), modrs.as_slice());
    let c = trim_end_matches_chars(b.as_slice(), rs.as_slice());
    let colons = chars_of("::");
    let body = replace_char_chars(c.as_slice(), '/', colons.as_slice());
    let head = chars_of("crate::");
    let r = concat_chars(head.as_slice(), body.as_slice());
    string_of(r.as_slice())
}

/// Get the package directory path from a Go file path
/// "pkg/models/user.go" → "pkg/models"
fn go_pkg_path(rel_path: &str) -> (r: String)
    ensures
        r@ == go_package(rel_path@),
{
    match path_parent(rel_path) {
        Some(d) => d,
        None => String::new(),
    }
}

/// "Models/UserService.cs" → Some("Models.UserService")
fn csharp_path_to_namespace(rel_path: &str) -> (r: Option<String>)
    ensures
        opt_view(r) == csharp_namespace(rel_path@),
{
    let stem = match path_file_stem(rel_path) {
        Some(s) => s,
        None => {
            return None;
        },
    };
    let parent = match path_parent(rel_path) {
        Some(s) => s,
        None => {
            return None;
        },
    };
    let pc = chars_of(parent.as_str());
    let dot = chars_of(".");
    let dir = replace_char_chars(pc.as_slice(), '/', dot.as_slice());
    if dir.len() == 0 {
        Some(stem)
    } else {
        let sc = chars_of(stem.as_str());
        let a = concat_chars(dir.as_slice(), dot.as_slice());
        let r = concat_chars(a.as_slice(), sc.as_slice());
        Some(string_of(r.as_slice()))
    }
}

// ─── the index ──────────────────────────────────────────────────────────────

/// The map of key/value pairs, later pairs overriding earlier ones.
pub open spec fn pairs_map(v: Seq<(String, String)>) -> Map<Seq<char>, Seq<char>>
    decreases v.len(),
{
    if v.len() == 0 {
        Map::empty()
    } else {
        pairs_map(v.drop_last()).insert(v.last().0@, v.last().1@)
    }
}

proof fn lemma_pairs_push(v: Seq<(String, String)>, x: (String, String))
    ensures
        pairs_map(v.push(x)) == pairs_map(v).insert(x.0@, x.1@),
{
    assert(v.push(x).drop_last() =~= v);
}

/// The value under `key`, searching from the most recent pair.
fn index_get(v: &Vec<(String, String)>, key: &str) -> (r: Option<String>)
    ensures
        opt_view(r) == (if pairs_map(v@).contains_key(key@) { Some(pairs_map(v@)[key@]) } else { None }),
{
    let mut i: usize = v.len();
    assert(v@.take(i as int) =~= v@);
    while i > 0
        invariant
            i <= v@.len(),
            pairs_map(v@).contains_key(key@) == pairs_map(v@.take(i as int)).contains_key(key@),
            pairs_map(v@).contains_key(key@) ==> pairs_map(v@)[key@] == pairs_map(v@.take(i as int))[key@],
        decreases i,
    {
        proof {
            assert(v@.take(i as int).drop_last() =~= v@.take(i - 1));
        }
        if str_eq(v[i - 1].0.as_str(), key) {
            return Some(v[i - 1].1.clone());
        }
        i -= 1;
    }
    assert(v@.take(0) =~= Seq::<(String, String)>::empty());
    None
}

pub struct Resolver {
    /// lookup key → relative path (later pairs override earlier ones)
    file_index: Vec<(String, String)>,
}

impl Resolver {
    /// The lookup key → relative path map.
    pub closed spec fn index(self) -> Map<Seq<char>, Seq<char>> {
        pairs_map(self.file_index@)
    }

    pub fn new(lang: &Language, rel_paths: &[String], _project_root: &str, go_module: Option<&str>) -> (r: Self)
        ensures
            r.index() == build_index(
                *lang,
                match go_module {
                    Some(m) => Some(m@),
                    None => None,
                },
                string_views(rel_paths@),
            ),
    {
        let ghost gm = match go_module {
            Some(m) => Some(m@),
            None => None,
        };
        let ghost paths = string_views(rel_paths@);
        let mut idx: Vec<(String, String)> = Vec::new();
        let mut i: usize = 0;
        while i < rel_paths.len()
            invariant
                i <= rel_paths@.len(),
                paths == string_views(rel_paths@),
                gm == match go_module {
                    Some(m) => Some(m@),
                    None => None,
                },
                pairs_map(idx@) == build_index(*lang, gm, paths.take(i as int)),
            decreases rel_paths.len() - i,
        {
            let p = &rel_paths[i];
            let ghost before = pairs_map(idx@);
            proof {
                assert(paths.take(i + 1).drop_last() =~= paths.take(i as int));
                assert(paths.take(i + 1).last() == p@);
            }
            match lang {
                Language::Java => {
                    if let Some(key) = java_path_to_fqn(p.as_str()) {
                        let ghost i0 = idx@;
                        idx.push((key, p.clone()));
                        proof { lemma_pairs_push(i0, (key, *p)); }
                    }
                },
                Language::Python => {
                    let key = python_path_to_module(p.as_str());
                    let ghost i0 = idx@;
                    idx.push((key, p.clone()));
                    proof { lemma_pairs_push(i0, (key, *p)); }
                },
                Language::TypeScript | Language::JavaScript | Language::Ruby => {
                    let without_ext = strip_extension(p.as_str());
                    let ghost i0 = idx@;
                    idx.push((without_ext, p.clone()));
                    let ghost i1 = idx@;
                    idx.push((p.clone(), p.clone()));
                    proof {
                        lemma_pairs_push(i0, (without_ext, *p));
                        lemma_pairs_push(i1, (*p, *p));
                    }
                },
                Language::Go => {
                    if let Some(module) = go_module {
                        let pkg_path = go_pkg_path(p.as_str());
                        if !pkg_path.as_str().is_empty() {
                            let mc = chars_of(module);
                            let slash = chars_of("/");
                            proof {
                                reveal_strlit("/");
                            }
                            let base = trim_end_matches_chars(mc.as_slice(), slash.as_slice());
                            let a = concat_chars(base.as_slice(), slash.as_slice());
                            let kc = chars_of(pkg_path.as_str());
                            let key_chars = concat_chars(a.as_slice(), kc.as_slice());
                            let key = string_of(key_chars.as_slice());
                            proof {
                                assert(pkg_path@.len() > 0);
                            }
                            let ghost i0 = idx@;
                            proof {
                                assert(key@ == go_import(module@, p@));
                            }
                            match index_get(&idx, key.as_str()) {
                                None => {
                                    idx.push((key, p.clone()));
                                    proof { lemma_pairs_push(i0, (key, *p)); }
                                },
                                Some(cur) => {
                                    let pcs = chars_of(p.as_str());
                                    let ccs = chars_of(cur.as_str());
                                    if chars_lt(pcs.as_slice(), ccs.as_slice()) {
                                        idx.push((key, p.clone()));
                                        proof { lemma_pairs_push(i0, (key, *p)); }
                                    }
                                },
                            }
                        } else {
                            proof {
                                assert(pkg_path@.len() == 0);
                            }
                        }
                    }
                },
                Language::Rust => {
                    let key = rust_path_to_module(p.as_str());
                    let ghost i0 = idx@;
                    idx.push((key, p.clone()));
                    proof { lemma_pairs_push(i0, (key, *p)); }
                },
                Language::CSharp => {
                    if let Some(key) = csharp_path_to_namespace(p.as_str()) {
                        let ghost i0 = idx@;
                        idx.push((key, p.clone()));
                        proof { lemma_pairs_push(i0, (key, *p)); }
                    }
                },
                Language::Cpp => {
                    let ghost i0 = idx@;
                    idx.push((p.clone(), p.clone()));
                    proof { lemma_pairs_push(i0, (*p, *p)); }
                    if let Some(name) = path_file_name(p.as_str()) {
                        if index_get(&idx, name.as_str()).is_none() {
                            let ghost i1 = idx@;
                            idx.push((name, p.clone()));
                            proof { lemma_pairs_push(i1, (name, *p)); }
                        }
                    }
                },
            }
            proof {
                assert(pairs_map(idx@) =~= index_step(*lang, gm, before, p@));
            }
            i += 1;
        }
        proof {
            assert(paths.take(rel_paths@.len() as int) =~= paths);
        }
        Resolver { file_index: idx }
    }

    /// Resolve a raw import to a relative file path.
    /// `importer_dir`: directory of the importing file (for relative TS/JS/Ruby imports)
    pub fn resolve(&self, raw: &str, importer_dir: Option<&str>) -> (r: Option<String>)
        ensures
            opt_view(r) == resolved(
                self.index(),
                raw@,
                match importer_dir {
                    Some(d) => Some(d@),
                    None => None,
                },
            ),
    {
        // Direct lookup
        if let Some(v) = index_get(&self.file_index, raw) {
            return Some(v);
        }
        // Relative TS/JS/Ruby imports: join with importer dir and normalize
        if let Some(dir) = importer_dir {
            let rc = chars_of(raw);
            if starts_with_chars(rc.as_slice(), chars_of("./").as_slice())
                || starts_with_chars(rc.as_slice(), chars_of("../").as_slice()) {
                let joined_path = path_join(dir, raw);
                let normalized_path = normalize_path(joined_path.as_str());
                return index_get(&self.file_index, normalized_path.as_str());
            }
        }
        None
    }
}

} // verus!
