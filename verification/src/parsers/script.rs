//! What the TypeScript and JavaScript parsers share: JSDoc comments,
//! relative import paths, and classes with their methods.

use vstd::prelude::*;
use crate::models::Signature;
use crate::syntax::{SyntaxTree, as_ints};
use crate::text::{str_eq, owned, opt_view, starts_with, chars_of, starts_with_str, trim_char, trim_char_exec};
use crate::text::string_views;
use crate::parsers::{ParseResult, documented_count, count_documented, line_of, line_exec};

verus! {

broadcast use vstd::string::group_string_axioms;

/// The JSDoc found looking back from sibling `s`: the first comment, if it
/// starts with `/**` (extras before it passed over).
pub open spec fn js_doc_from(t: SyntaxTree, s: int) -> Option<Seq<char>>
    decreases s + 1,
{
    if s < 0 || s >= t.len() {
        None
    } else if t.kind(s) == "comment"@ {
        if starts_with(t.text(s), "/**"@) { Some(t.text(s)) } else { None }
    } else if t.nodes@[s].extra {
        match t.prev_sibling(s) {
            Some(p) => if 0 <= p < s { js_doc_from(t, p) } else { None },
            None => None,
        }
    } else {
        None
    }
}

/// The JSDoc right before `i`.
pub open spec fn js_doc(t: SyntaxTree, i: int) -> Option<Seq<char>> {
    match t.prev_sibling(i) {
        Some(s) => js_doc_from(t, s),
        None => None,
    }
}

/// A string, unquoted, where it is a relative path (`./` or `../`).
pub open spec fn relative_path(raw: Seq<char>) -> Option<Seq<char>> {
    let p = trim_char(trim_char(trim_char(raw, '"'), '\''), '`');
    if starts_with(p, "./"@) || starts_with(p, "../"@) { Some(p) } else { None }
}

/// The relative path an import statement's source names.
pub open spec fn import_source(t: SyntaxTree, i: int) -> Seq<Seq<char>> {
    match t.field_child(i, "source"@) {
        Some(s) => match relative_path(t.text(s)) {
            Some(p) => seq![p],
            None => Seq::empty(),
        },
        None => Seq::empty(),
    }
}

/// The methods among `kids`, constructors left out.
pub open spec fn method_sources(t: SyntaxTree, kids: Seq<int>) -> Seq<(int, int, int)>
    decreases kids.len(),
{
    if kids.len() == 0 {
        Seq::empty()
    } else {
        let r = method_sources(t, kids.drop_last());
        let c = kids.last();
        if t.kind(c) == "method_definition"@ && t.field_text(c, "name"@) != "constructor"@ {
            r.push((4, c, 0))
        } else {
            r
        }
    }
}

/// A class (`tag` 0, or 1 with its export statement `parent`) and the
/// methods of its body.
pub open spec fn class_sources(t: SyntaxTree, i: int, tag: int, parent: int) -> Seq<(int, int, int)> {
    seq![(tag, i, parent)] + match t.field_child(i, "body"@) {
        Some(b) => method_sources(t, t.children(b)),
        None => Seq::empty(),
    }
}

/// The doc comment a source gives: the node's own JSDoc, or for an exported
/// declaration that of its export statement first.
pub open spec fn source_doc(t: SyntaxTree, src: (int, int, int)) -> Option<Seq<char>> {
    let (tag, i, j) = src;
    if tag == 1 || tag == 3 {
        match js_doc(t, j) {
            Some(d) => Some(d),
            None => js_doc(t, i),
        }
    } else {
        js_doc(t, i)
    }
}

pub open spec fn source_kind(tag: int) -> Seq<char> {
    if tag == 0 || tag == 1 { "class"@ } else if tag == 2 || tag == 3 { "function"@ } else { "method"@ }
}

/// `s` is the signature recorded from `src`, its doc comment's text kept
/// (`with_text`) or not.
pub open spec fn script_sig(s: Signature, t: SyntaxTree, src: (int, int, int), with_text: bool) -> bool {
    let (tag, i, _j) = src;
    let doc = source_doc(t, src);
    &&& s.kind@ == source_kind(tag)
    &&& s.name@ == t.field_text(i, "name"@)
    &&& s.modifiers@.len() == 0
    &&& s.line == line_of(t.nodes@[i].row)
    &&& s.has_docstring == doc is Some
    &&& opt_view(s.docstring_text) == (if with_text { doc } else { None })
    &&& s.existing_word_count == 0
    &&& s.params is None
    &&& s.return_type is None
    &&& s.throws@.len() == 0
    &&& s.extends is None
    &&& s.implements@.len() == 0
    &&& s.annotations@.len() == 0
}

pub open spec fn triples(v: Seq<(usize, usize, usize)>) -> Seq<(int, int, int)> {
    v.map_values(|x: (usize, usize, usize)| (x.0 as int, x.1 as int, x.2 as int))
}

pub open spec fn in_tree(v: Seq<(usize, usize, usize)>, t: SyntaxTree) -> bool {
    forall|k: int| 0 <= k < v.len() ==> (#[trigger] v[k]).1 < t.nodes@.len() && v[k].2 < t.nodes@.len()
}

// ─── running it ─────────────────────────────────────────────────────────────

fn js_doc_from_exec(t: &SyntaxTree, s: usize) -> (r: Option<String>)
    requires
        t.wf(),
        s < t.nodes@.len(),
    ensures
        opt_view(r) == js_doc_from(*t, s as int),
    decreases s,
{
    if str_eq(t.nodes[s].kind.as_str(), "comment") {
        let cs = chars_of(t.nodes[s].text.as_str());
        if starts_with_str(cs.as_slice(), "/**") { Some(t.nodes[s].text.clone()) } else { None }
    } else if t.nodes[s].extra {
        match t.prev_sibling_index(s) {
            Some(p) => js_doc_from_exec(t, p),
            None => None,
        }
    } else {
        None
    }
}

pub fn js_doc_exec(t: &SyntaxTree, i: usize) -> (r: Option<String>)
    requires
        t.wf(),
        i < t.nodes@.len(),
    ensures
        opt_view(r) == js_doc(*t, i as int),
{
    match t.prev_sibling_index(i) {
        Some(s) => js_doc_from_exec(t, s),
        None => None,
    }
}

pub fn relative_path_exec(raw: &str) -> (r: Option<String>)
    ensures
        opt_view(r) == relative_path(raw@),
{
    let a = trim_char_exec(raw, '"');
    let b = trim_char_exec(a.as_str(), '\'');
    let p = trim_char_exec(b.as_str(), '`');
    let cs = chars_of(p.as_str());
    if starts_with_str(cs.as_slice(), "./") || starts_with_str(cs.as_slice(), "../") { Some(p) } else { None }
}

pub fn import_source_exec(t: &SyntaxTree, i: usize, out: &mut Vec<String>)
    requires
        t.wf(),
        i < t.nodes@.len(),
    ensures
        string_views(final(out)@) == string_views(old(out)@) + import_source(*t, i as int),
{
    let ghost start = string_views(out@);
    assert(start + Seq::<Seq<char>>::empty() =~= start);
    match t.field_child_index(i, "source") {
        Some(s) => match relative_path_exec(t.nodes[s].text.as_str()) {
            Some(p) => {
                let ghost pv = p@;
                out.push(p);
                assert(string_views(out@) =~= start + seq![pv]);
            },
            None => {},
        },
        None => {},
    }
}

fn method_sources_exec(t: &SyntaxTree, c: usize, out: &mut Vec<(usize, usize, usize)>)
    requires
        t.wf(),
        c < t.nodes@.len(),
        in_tree(old(out)@, *t),
    ensures
        triples(final(out)@) == triples(old(out)@) + method_sources(*t, t.children(c as int)),
        in_tree(final(out)@, *t),
{
    let kids = t.child_indices(c);
    let ghost ks = t.children(c as int);
    let ghost start = triples(out@);
    let mut j: usize = 0;
    while j < kids.len()
        invariant
            t.wf(),
            as_ints(kids@) == ks,
            forall|k: int| 0 <= k < kids@.len() ==> c < #[trigger] kids@[k] < t.nodes@.len(),
            j <= kids@.len(),
            triples(out@) == start + method_sources(*t, ks.take(j as int)),
            in_tree(out@, *t),
        decreases kids.len() - j,
    {
        let x = kids[j];
        assert(ks.take(j + 1).drop_last() =~= ks.take(j as int));
        assert(ks.take(j + 1).last() == x as int);
        let ghost before = triples(out@);
        if str_eq(t.nodes[x].kind.as_str(), "method_definition") {
            let name = t.field_text_of(x, "name");
            if !str_eq(name.as_str(), "constructor") {
                out.push((4, x, 0));
                assert(triples(out@) =~= before.push((4, x as int, 0)));
                assert(start + method_sources(*t, ks.take(j + 1)) =~= before.push((4, x as int, 0)));
            }
        }
        j += 1;
    }
    assert(ks.take(kids@.len() as int) =~= ks);
}

pub fn class_sources_exec(t: &SyntaxTree, i: usize, tag: usize, parent: usize, out: &mut Vec<(usize, usize, usize)>)
    requires
        t.wf(),
        i < t.nodes@.len(),
        parent < t.nodes@.len(),
        in_tree(old(out)@, *t),
    ensures
        triples(final(out)@) == triples(old(out)@) + class_sources(*t, i as int, tag as int, parent as int),
        in_tree(final(out)@, *t),
{
    let ghost start = triples(out@);
    out.push((tag, i, parent));
    let ghost mid = triples(out@);
    assert(mid =~= start.push((tag as int, i as int, parent as int)));
    match t.field_child_index(i, "body") {
        Some(b) => {
            method_sources_exec(t, b, out);
            assert(start + (seq![(tag as int, i as int, parent as int)] + method_sources(*t, t.children(b as int)))
                =~= mid + method_sources(*t, t.children(b as int)));
        },
        None => {
            assert(start + (seq![(tag as int, i as int, parent as int)] + Seq::<(int, int, int)>::empty()) =~= mid);
        },
    }
}

/// The signature recorded from `src`.
pub fn script_signature(t: &SyntaxTree, src: (usize, usize, usize), with_text: bool) -> (r: Signature)
    requires
        t.wf(),
        src.1 < t.nodes@.len(),
        src.2 < t.nodes@.len(),
    ensures
        script_sig(r, *t, (src.0 as int, src.1 as int, src.2 as int), with_text),
{
    let (tag, i, j) = src;
    let doc = if tag == 1 || tag == 3 {
        match js_doc_exec(t, j) {
            Some(d) => Some(d),
            None => js_doc_exec(t, i),
        }
    } else {
        js_doc_exec(t, i)
    };
    let has_docstring = doc.is_some();
    Signature {
        kind: if tag == 0 || tag == 1 {
            owned("class")
        } else if tag == 2 || tag == 3 {
            owned("function")
        } else {
            owned("method")
        },
        name: t.field_text_of(i, "name"),
        modifiers: Vec::new(),
        params: None,
        return_type: None,
        throws: Vec::new(),
        extends: None,
        implements: Vec::new(),
        annotations: Vec::new(),
        line: line_exec(t.nodes[i].row),
        has_docstring,
        existing_word_count: 0,
        docstring_text: if with_text { doc } else { None },
    }
}

/// What a walk has found so far: import paths, and the sources of the
/// signatures in the order they are recorded.
pub type ScriptFound = (Seq<Seq<char>>, Seq<(int, int, int)>);

pub struct ScriptState {
    pub imports: Vec<String>,
    pub sources: Vec<(usize, usize, usize)>,
}

pub open spec fn script_state(s: ScriptState) -> ScriptFound {
    (string_views(s.imports@), triples(s.sources@))
}

/// `r` is the parse result that the walk's findings `f` give.
pub open spec fn script_result(r: ParseResult, t: SyntaxTree, f: ScriptFound, with_text: bool) -> bool {
    &&& r.package is None
    &&& string_views(r.raw_imports@) == f.0
    &&& r.signatures@.len() == f.1.len()
    &&& forall|k: int| 0 <= k < f.1.len() ==> script_sig(#[trigger] r.signatures@[k], t, f.1[k], with_text)
    &&& r.documented == documented_count(r.signatures@)
    &&& r.documentable == r.signatures@.len()
}

pub fn empty_state() -> (r: ScriptState)
    ensures
        script_state(r) == (Seq::<Seq<char>>::empty(), Seq::<(int, int, int)>::empty()),
        r.sources@.len() == 0,
{
    let st = ScriptState { imports: Vec::new(), sources: Vec::new() };
    assert(string_views(st.imports@) =~= Seq::<Seq<char>>::empty());
    assert(triples(st.sources@) =~= Seq::<(int, int, int)>::empty());
    st
}

/// The parse result from what a walk found.
pub fn script_finish(t: &SyntaxTree, st: ScriptState, with_text: bool) -> (r: ParseResult)
    requires
        t.wf(),
        in_tree(st.sources@, *t),
    ensures
        script_result(r, *t, script_state(st), with_text),
{
    let ghost f = script_state(st);
    let mut sigs: Vec<Signature> = Vec::new();
    let mut k: usize = 0;
    while k < st.sources.len()
        invariant
            t.wf(),
            in_tree(st.sources@, *t),
            script_state(st) == f,
            k <= st.sources@.len(),
            sigs@.len() == k,
            forall|x: int| 0 <= x < k ==> script_sig(#[trigger] sigs@[x], *t, f.1[x], with_text),
        decreases st.sources.len() - k,
    {
        let src = st.sources[k];
        assert(f.1[k as int] == (src.0 as int, src.1 as int, src.2 as int));
        sigs.push(script_signature(t, src, with_text));
        k += 1;
    }
    let documented = count_documented(&sigs);
    let documentable = sigs.len();
    ParseResult { raw_imports: st.imports, signatures: sigs, package: None, documented, documentable }
}

} // verus!
