//! The C/C++ parser: the quoted includes and the functions, classes and
//! structs of a file.

use vstd::prelude::*;
use crate::models::Signature;
use crate::syntax::{parsed_from, Grammar, SyntaxTree, parse_syntax, as_ints};
use crate::text::{str_eq, owned, opt_view, starts_with, chars_of, starts_with_str, trim_char, trim_char_exec};
use crate::text::string_views;
use crate::parsers::{ParseResult, documented_count, line_of, line_exec, count_documented};

verus! {

broadcast use vstd::string::group_string_axioms;

pub struct CppParser;

impl CppParser {
    pub fn new() -> (r: Self) {
        CppParser
    }

    /// Parses C/C++ source: see `cpp_extract`.
    pub fn parse(&self, source: &str) -> (r: ParseResult)
        ensures
            exists|t: SyntaxTree| parsed_from(t, Grammar::Cpp, source@) && #[trigger] cpp_result(r, t),
    {
        let t = parse_syntax(Grammar::Cpp, source);
        cpp_extract(&t)
    }
}

/// The quoted paths among the children of an include.
pub open spec fn include_paths(t: SyntaxTree, kids: Seq<int>) -> Seq<Seq<char>>
    decreases kids.len(),
{
    if kids.len() == 0 {
        Seq::empty()
    } else {
        let r = include_paths(t, kids.drop_last());
        let c = kids.last();
        if t.kind(c) == "string_literal"@ && trim_char(t.text(c), '"').len() > 0 {
            r.push(trim_char(t.text(c), '"'))
        } else {
            r
        }
    }
}

/// The name a declarator chain ends in.
pub open spec fn declarator_name(t: SyntaxTree, i: int) -> Option<Seq<char>>
    decreases t.len() - i,
{
    if i < 0 || i >= t.len() {
        None
    } else {
        let k = t.kind(i);
        if k == "function_declarator"@ || k == "pointer_declarator"@ || k == "reference_declarator"@ {
            match t.field_child(i, "declarator"@) {
                Some(d) => if i < d < t.len() { declarator_name(t, d) } else { None },
                None => None,
            }
        } else if k == "identifier"@ || k == "qualified_identifier"@ || k == "destructor_name"@ || k == "operator_name"@ {
            Some(t.text(i))
        } else {
            None
        }
    }
}

/// The name of function definition `i`.
pub open spec fn function_name(t: SyntaxTree, i: int) -> Option<Seq<char>> {
    match t.field_child(i, "declarator"@) {
        Some(d) => declarator_name(t, d),
        None => None,
    }
}

/// The doc comment of `i`: a `/**` or `/*!` comment right before it.
pub open spec fn cpp_doc_from(t: SyntaxTree, s: int) -> Option<Seq<char>>
    decreases s + 1,
{
    if s < 0 || s >= t.len() {
        None
    } else if t.kind(s) == "comment"@ {
        if starts_with(t.text(s), "/**"@) || starts_with(t.text(s), "/*!"@) { Some(t.text(s)) } else { None }
    } else if t.nodes@[s].extra {
        match t.prev_sibling(s) {
            Some(p) => if 0 <= p < s { cpp_doc_from(t, p) } else { None },
            None => None,
        }
    } else {
        None
    }
}

pub open spec fn cpp_doc(t: SyntaxTree, i: int) -> Option<Seq<char>> {
    match t.prev_sibling(i) {
        Some(s) => cpp_doc_from(t, s),
        None => None,
    }
}

pub type CppFound = (Seq<Seq<char>>, Seq<(int, int, int)>);

/// The walk from node `i`: includes read; named functions (0), classes (1)
/// and structs (2) recorded; other nodes walk their children.
pub open spec fn cwalk(t: SyntaxTree, i: int, st: CppFound) -> CppFound
    decreases t.len() - i, 1int,
{
    if i < 0 || i >= t.len() {
        st
    } else {
        let k = t.kind(i);
        if k == "preproc_include"@ {
            (st.0 + include_paths(t, t.children(i)), st.1)
        } else if k == "function_definition"@ {
            if function_name(t, i) is Some { (st.0, st.1.push((0, i, 0))) } else { st }
        } else if k == "class_specifier"@ || k == "struct_specifier"@ {
            if t.field_child(i, "name"@) is Some {
                (st.0, st.1.push((if k == "class_specifier"@ { 1int } else { 2int }, i, 0)))
            } else {
                st
            }
        } else {
            cwalk_from(t, i, i + 1, st)
        }
    }
}

pub open spec fn cwalk_from(t: SyntaxTree, p: int, k: int, st: CppFound) -> CppFound
    decreases t.len() - k, 2int,
{
    if k <= p || k >= t.len() || t.depth(k) <= t.depth(p) {
        st
    } else if t.depth(k) == t.depth(p) + 1 {
        cwalk_from(t, p, k + 1, cwalk(t, k, st))
    } else {
        cwalk_from(t, p, k + 1, st)
    }
}

pub open spec fn cpp_found(t: SyntaxTree) -> CppFound {
    if t.len() > 0 { cwalk(t, 0, (Seq::empty(), Seq::empty())) } else { (Seq::empty(), Seq::empty()) }
}

/// `s` is the signature recorded from `src`.
pub open spec fn cpp_sig(s: Signature, t: SyntaxTree, src: (int, int, int)) -> bool {
    let (tag, i, _j) = src;
    let doc = cpp_doc(t, i);
    &&& s.kind@ == (if tag == 0 { "function"@ } else if tag == 1 { "class"@ } else { "struct"@ })
    &&& (if tag == 0 { function_name(t, i) == Some(s.name@) } else { s.name@ == t.field_text(i, "name"@) })
    &&& s.modifiers@.len() == 0
    &&& s.line == line_of(t.nodes@[i].row)
    &&& s.has_docstring == doc is Some
    &&& opt_view(s.docstring_text) == doc
    &&& s.existing_word_count == 0
    &&& s.params is None
    &&& s.return_type is None
    &&& s.throws@.len() == 0
    &&& s.extends is None
    &&& s.implements@.len() == 0
    &&& s.annotations@.len() == 0
}

/// `r` is what the C/C++ parser gives for the tree `t`.
pub open spec fn cpp_result(r: ParseResult, t: SyntaxTree) -> bool {
    let f = cpp_found(t);
    &&& r.package is None
    &&& string_views(r.raw_imports@) == f.0
    &&& r.signatures@.len() == f.1.len()
    &&& forall|k: int| 0 <= k < f.1.len() ==> cpp_sig(#[trigger] r.signatures@[k], t, f.1[k])
    &&& r.documented == documented_count(r.signatures@)
    &&& r.documentable == r.signatures@.len()
}

// ─── running it ─────────────────────────────────────────────────────────────

fn include_paths_exec(t: &SyntaxTree, i: usize, out: &mut Vec<String>)
    requires
        t.wf(),
        i < t.nodes@.len(),
    ensures
        string_views(final(out)@) == string_views(old(out)@) + include_paths(*t, t.children(i as int)),
{
    let kids = t.child_indices(i);
    let ghost ks = t.children(i as int);
    let ghost start = string_views(out@);
    let mut j: usize = 0;
    while j < kids.len()
        invariant
            as_ints(kids@) == ks,
            forall|k: int| 0 <= k < kids@.len() ==> i < #[trigger] kids@[k] < t.nodes@.len(),
            j <= kids@.len(),
            string_views(out@) == start + include_paths(*t, ks.take(j as int)),
        decreases kids.len() - j,
    {
        let x = kids[j];
        assert(ks.take(j + 1).drop_last() =~= ks.take(j as int));
        assert(ks.take(j + 1).last() == x as int);
        let ghost before = string_views(out@);
        if str_eq(t.nodes[x].kind.as_str(), "string_literal") {
            let p = trim_char_exec(t.nodes[x].text.as_str(), '"');
            if !p.as_str().is_empty() {
                let ghost pv = p@;
                out.push(p);
                assert(string_views(out@) =~= before.push(pv));
            }
        }
        j += 1;
    }
    assert(ks.take(kids@.len() as int) =~= ks);
}

fn declarator_name_exec(t: &SyntaxTree, i: usize) -> (r: Option<String>)
    requires
        t.wf(),
        i < t.nodes@.len(),
    ensures
        opt_view(r) == declarator_name(*t, i as int),
    decreases t.nodes@.len() - i,
{
    let k = t.nodes[i].kind.as_str();
    if str_eq(k, "function_declarator") || str_eq(k, "pointer_declarator") || str_eq(k, "reference_declarator") {
        match t.field_child_index(i, "declarator") {
            Some(d) => declarator_name_exec(t, d),
            None => None,
        }
    } else if str_eq(k, "identifier") || str_eq(k, "qualified_identifier") || str_eq(k, "destructor_name")
        || str_eq(k, "operator_name") {
        Some(t.nodes[i].text.clone())
    } else {
        None
    }
}

fn function_name_exec(t: &SyntaxTree, i: usize) -> (r: Option<String>)
    requires
        t.wf(),
        i < t.nodes@.len(),
    ensures
        opt_view(r) == function_name(*t, i as int),
{
    match t.field_child_index(i, "declarator") {
        Some(d) => declarator_name_exec(t, d),
        None => None,
    }
}

fn cpp_doc_from_exec(t: &SyntaxTree, s: usize) -> (r: Option<String>)
    requires
        t.wf(),
        s < t.nodes@.len(),
    ensures
        opt_view(r) == cpp_doc_from(*t, s as int),
    decreases s,
{
    if str_eq(t.nodes[s].kind.as_str(), "comment") {
        let cs = chars_of(t.nodes[s].text.as_str());
        if starts_with_str(cs.as_slice(), "/**") || starts_with_str(cs.as_slice(), "/*!") {
            Some(t.nodes[s].text.clone())
        } else {
            None
        }
    } else if t.nodes[s].extra {
        match t.prev_sibling_index(s) {
            Some(p) => cpp_doc_from_exec(t, p),
            None => None,
        }
    } else {
        None
    }
}

fn cpp_doc_exec(t: &SyntaxTree, i: usize) -> (r: Option<String>)
    requires
        t.wf(),
        i < t.nodes@.len(),
    ensures
        opt_view(r) == cpp_doc(*t, i as int),
{
    match t.prev_sibling_index(i) {
        Some(s) => cpp_doc_from_exec(t, s),
        None => None,
    }
}

pub open spec fn triples(v: Seq<(usize, usize, usize)>) -> Seq<(int, int, int)> {
    v.map_values(|x: (usize, usize, usize)| (x.0 as int, x.1 as int, x.2 as int))
}

/// Every recorded node is in the tree, and a function's name is found.
pub open spec fn in_tree(v: Seq<(usize, usize, usize)>, t: SyntaxTree) -> bool {
    forall|k: int| 0 <= k < v.len() ==> (#[trigger] v[k]).1 < t.nodes@.len()
        && (v[k].0 == 0 ==> function_name(t, v[k].1 as int) is Some)
}

pub struct CppState {
    pub imports: Vec<String>,
    pub sources: Vec<(usize, usize, usize)>,
}

pub open spec fn cstate(s: CppState) -> CppFound {
    (string_views(s.imports@), triples(s.sources@))
}

fn cwalk_exec(t: &SyntaxTree, i: usize, st: &mut CppState)
    requires
        t.wf(),
        i < t.nodes@.len(),
        in_tree(old(st).sources@, *t),
    ensures
        cstate(*final(st)) == cwalk(*t, i as int, cstate(*old(st))),
        in_tree(final(st).sources@, *t),
    decreases t.nodes@.len() - i, 1int,
{
    let k = t.nodes[i].kind.as_str();
    if str_eq(k, "preproc_include") {
        include_paths_exec(t, i, &mut st.imports);
    } else if str_eq(k, "function_definition") {
        if function_name_exec(t, i).is_some() {
            let ghost before = triples(st.sources@);
            st.sources.push((0, i, 0));
            assert(triples(st.sources@) =~= before.push((0, i as int, 0)));
        }
    } else if str_eq(k, "class_specifier") || str_eq(k, "struct_specifier") {
        if t.field_child_index(i, "name").is_some() {
            let tag: usize = if str_eq(k, "class_specifier") { 1 } else { 2 };
            let ghost before = triples(st.sources@);
            st.sources.push((tag, i, 0));
            assert(triples(st.sources@) =~= before.push((tag as int, i as int, 0)));
        }
    } else {
        cwalk_children(t, i, st);
    }
}

fn cwalk_children(t: &SyntaxTree, p: usize, st: &mut CppState)
    requires
        t.wf(),
        p < t.nodes@.len(),
        in_tree(old(st).sources@, *t),
    ensures
        cstate(*final(st)) == cwalk_from(*t, p as int, p as int + 1, cstate(*old(st))),
        in_tree(final(st).sources@, *t),
    decreases t.nodes@.len() - p, 0int,
{
    let n = t.nodes.len();
    let mut k: usize = p + 1;
    while k < t.nodes.len() && t.nodes[k].depth > t.nodes[p].depth
        invariant
            t.wf(),
            n == t.nodes@.len(),
            p < k <= t.nodes@.len(),
            in_tree(st.sources@, *t),
            cwalk_from(*t, p as int, p as int + 1, cstate(*old(st))) == cwalk_from(*t, p as int, k as int, cstate(*st)),
        decreases t.nodes.len() - k,
    {
        if t.nodes[k].depth == t.nodes[p].depth + 1 {
            cwalk_exec(t, k, st);
        }
        k += 1;
    }
}

fn cpp_signature(t: &SyntaxTree, src: (usize, usize, usize)) -> (r: Signature)
    requires
        t.wf(),
        src.1 < t.nodes@.len(),
        src.0 == 0 ==> function_name(*t, src.1 as int) is Some,
    ensures
        cpp_sig(r, *t, (src.0 as int, src.1 as int, src.2 as int)),
{
    let (tag, i, _j) = src;
    let doc = cpp_doc_exec(t, i);
    let has_docstring = doc.is_some();
    let name = if tag == 0 {
        match function_name_exec(t, i) {
            Some(n) => n,
            None => String::new(),
        }
    } else {
        t.field_text_of(i, "name")
    };
    Signature {
        kind: if tag == 0 {
            owned("function")
        } else if tag == 1 {
            owned("class")
        } else {
            owned("struct")
        },
        name,
        modifiers: Vec::new(),
        params: None,
        return_type: None,
        throws: Vec::new(),
        extends: None,
        implements: Vec::new(),
        annotations: Vec::new(),
        line: line_exec(t.nodes[i].row),
        has_docstring,
        existing_word_count: 0,
        docstring_text: doc,
    }
}

/// What the C/C++ parser finds in the syntax tree `t` (see `cpp_result`).
pub fn cpp_extract(t: &SyntaxTree) -> (r: ParseResult)
    requires
        t.wf(),
    ensures
        cpp_result(r, *t),
{
    let mut st = CppState { imports: Vec::new(), sources: Vec::new() };
    proof {
        assert(string_views(st.imports@) =~= Seq::<Seq<char>>::empty());
        assert(triples(st.sources@) =~= Seq::<(int, int, int)>::empty());
    }
    if t.nodes.len() > 0 {
        cwalk_exec(t, 0, &mut st);
    }
    let ghost f = cpp_found(*t);
    let mut sigs: Vec<Signature> = Vec::new();
    let mut k: usize = 0;
    while k < st.sources.len()
        invariant
            t.wf(),
            in_tree(st.sources@, *t),
            cstate(st) == f,
            k <= st.sources@.len(),
            sigs@.len() == k,
            forall|x: int| 0 <= x < k ==> cpp_sig(#[trigger] sigs@[x], *t, f.1[x]),
        decreases st.sources.len() - k,
    {
        let src = st.sources[k];
        assert(f.1[k as int] == (src.0 as int, src.1 as int, src.2 as int));
        sigs.push(cpp_signature(t, src));
        k += 1;
    }
    let documented = count_documented(&sigs);
    let documentable = sigs.len();
    ParseResult { raw_imports: st.imports, signatures: sigs, package: None, documented, documentable }
}

} // verus!
