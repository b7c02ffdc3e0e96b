//! The Rust parser: the crate-internal `use` paths and the public items of
//! a Rust file.

use vstd::prelude::*;
use crate::models::Signature;
use crate::syntax::{parsed_from, Grammar, SyntaxTree, parse_syntax, first_kind2, as_ints};
use crate::text::{str_eq, owned, opt_view, join, join_strings, string_views, starts_with, trim, trim_end_matches,
    chars_of, string_of, starts_with_str, trim_chars, trim_end_matches_chars, slice_chars};
use crate::parsers::{ParseResult, documented_count, line_of, line_exec, count_documented};

verus! {

broadcast use vstd::string::group_string_axioms;

pub struct RustParser;

impl RustParser {
    pub fn new() -> (r: Self) {
        RustParser
    }

    /// Parses Rust source: see `rust_extract`.
    pub fn parse(&self, source: &str) -> (r: ParseResult)
        ensures
            exists|t: SyntaxTree| parsed_from(t, Grammar::Rust, source@) && #[trigger] rust_result(r, t),
    {
        let t = parse_syntax(Grammar::Rust, source);
        rust_extract(&t)
    }
}

/// The path a `use` declaration names: its text without `use ` and the
/// final `;`, trimmed.
pub open spec fn use_path(full: Seq<char>) -> Seq<char> {
    let a = trim(full);
    let b = if starts_with(a, "use "@) { a.skip(4) } else { full };
    trim(trim_end_matches(b, ";"@))
}

/// A `use` of the crate's own modules (`crate::` or `super::`).
pub open spec fn use_import(t: SyntaxTree, i: int) -> Seq<Seq<char>> {
    let p = use_path(t.text(i));
    if starts_with(p, "crate::"@) || starts_with(p, "super::"@) { seq![p] } else { Seq::empty() }
}

/// The item's visibility starts with `pub`.
pub open spec fn is_pub(t: SyntaxTree, i: int) -> bool {
    match first_kind2(t, t.children(i), "visibility_modifier"@, "visibility_modifier"@) {
        Some(v) => starts_with(t.text(v), "pub"@),
        None => false,
    }
}

/// The item's name: its first identifier child.
pub open spec fn item_name(t: SyntaxTree, i: int) -> Option<int> {
    first_kind2(t, t.children(i), "type_identifier"@, "identifier"@)
}

/// The item at `i` is recorded as `tag` when it is public and named.
pub open spec fn item_source(t: SyntaxTree, i: int, tag: int) -> Seq<(int, int, int)> {
    if is_pub(t, i) && item_name(t, i) is Some { seq![(tag, i, 0)] } else { Seq::empty() }
}

/// The public functions among `kids`.
pub open spec fn fn_sources(t: SyntaxTree, kids: Seq<int>) -> Seq<(int, int, int)>
    decreases kids.len(),
{
    if kids.len() == 0 {
        Seq::empty()
    } else {
        let r = fn_sources(t, kids.drop_last());
        if t.kind(kids.last()) == "function_item"@ { r + item_source(t, kids.last(), 0) } else { r }
    }
}

/// The public functions of an impl block: those of its body, else of its
/// first declaration list.
pub open spec fn impl_sources(t: SyntaxTree, i: int) -> Seq<(int, int, int)> {
    match t.field_child(i, "body"@) {
        Some(b) => fn_sources(t, t.children(b)),
        None => match first_kind2(t, t.children(i), "declaration_list"@, "declaration_list"@) {
            Some(d) => fn_sources(t, t.children(d)),
            None => Seq::empty(),
        },
    }
}

pub type RustFound = (Seq<Seq<char>>, Seq<(int, int, int)>);

/// The walk from node `i`: `use` declarations read; public functions (0),
/// structs (1), traits (2), enums (3) and the public functions of impl
/// blocks recorded; other nodes walk their children.
pub open spec fn rwalk(t: SyntaxTree, i: int, st: RustFound) -> RustFound
    decreases t.len() - i, 1int,
{
    if i < 0 || i >= t.len() {
        st
    } else {
        let k = t.kind(i);
        if k == "use_declaration"@ {
            (st.0 + use_import(t, i), st.1)
        } else if k == "function_item"@ {
            (st.0, st.1 + item_source(t, i, 0))
        } else if k == "struct_item"@ {
            (st.0, st.1 + item_source(t, i, 1))
        } else if k == "trait_item"@ {
            (st.0, st.1 + item_source(t, i, 2))
        } else if k == "enum_item"@ {
            (st.0, st.1 + item_source(t, i, 3))
        } else if k == "impl_item"@ {
            (st.0, st.1 + impl_sources(t, i))
        } else {
            rwalk_from(t, i, i + 1, st)
        }
    }
}

pub open spec fn rwalk_from(t: SyntaxTree, p: int, k: int, st: RustFound) -> RustFound
    decreases t.len() - k, 2int,
{
    if k <= p || k >= t.len() || t.depth(k) <= t.depth(p) {
        st
    } else if t.depth(k) == t.depth(p) + 1 {
        rwalk_from(t, p, k + 1, rwalk(t, k, st))
    } else {
        rwalk_from(t, p, k + 1, st)
    }
}

pub open spec fn rust_found(t: SyntaxTree) -> RustFound {
    if t.len() > 0 { rwalk(t, 0, (Seq::empty(), Seq::empty())) } else { (Seq::empty(), Seq::empty()) }
}

pub open spec fn finish_doc(acc: Seq<Seq<char>>) -> Option<Seq<char>> {
    if acc.len() == 0 { None } else { Some(join(acc, "\n"@)) }
}

/// The doc comment found looking back from sibling `s`, with the `///`
/// lines `acc` already found after it: more `///` lines are gathered, a
/// `/**` block comment is the doc comment itself, extras are passed over.
pub open spec fn rust_doc_from(t: SyntaxTree, s: int, acc: Seq<Seq<char>>) -> Option<Seq<char>>
    decreases s + 1,
{
    if s < 0 || s >= t.len() {
        finish_doc(acc)
    } else if t.kind(s) == "line_comment"@ {
        if starts_with(t.text(s), "///"@) {
            let acc2 = seq![t.text(s)] + acc;
            match t.prev_sibling(s) {
                Some(p) => if 0 <= p < s { rust_doc_from(t, p, acc2) } else { finish_doc(acc2) },
                None => finish_doc(acc2),
            }
        } else {
            finish_doc(acc)
        }
    } else if t.kind(s) == "block_comment"@ {
        if starts_with(t.text(s), "/**"@) { Some(t.text(s)) } else { None }
    } else if t.nodes@[s].extra {
        match t.prev_sibling(s) {
            Some(p) => if 0 <= p < s { rust_doc_from(t, p, acc) } else { finish_doc(acc) },
            None => finish_doc(acc),
        }
    } else {
        finish_doc(acc)
    }
}

pub open spec fn rust_doc(t: SyntaxTree, i: int) -> Option<Seq<char>> {
    match t.prev_sibling(i) {
        Some(s) => rust_doc_from(t, s, Seq::empty()),
        None => None,
    }
}

pub open spec fn rust_kind(tag: int) -> Seq<char> {
    if tag == 0 { "function"@ } else if tag == 1 { "struct"@ } else if tag == 2 { "trait"@ } else { "enum"@ }
}

/// `s` is the signature recorded from `src`.
pub open spec fn rust_sig(s: Signature, t: SyntaxTree, src: (int, int, int)) -> bool {
    let (tag, i, _j) = src;
    let doc = rust_doc(t, i);
    &&& s.kind@ == rust_kind(tag)
    &&& (match item_name(t, i) {
        Some(n) => s.name@ == t.text(n),
        None => false,
    })
    &&& string_views(s.modifiers@) == seq!["pub"@]
    &&& s.line == line_of(t.nodes@[i].row)
    &&& s.has_docstring == doc is Some
    &&& opt_view(s.docstring_text) == doc
    &&& s.existing_word_count == 0
    &&& s.params is None
    &&& s.return_type is None
    &&& s.throws@.len() == 0
    &&& s.extends is None
    &&& s.implements@.len() == 0
    &&& s.annotations@.len() == 0
}

/// `r` is what the Rust parser gives for the tree `t`.
pub open spec fn rust_result(r: ParseResult, t: SyntaxTree) -> bool {
    let f = rust_found(t);
    &&& r.package is None
    &&& string_views(r.raw_imports@) == f.0
    &&& r.signatures@.len() == f.1.len()
    &&& forall|k: int| 0 <= k < f.1.len() ==> rust_sig(#[trigger] r.signatures@[k], t, f.1[k])
    &&& r.documented == documented_count(r.signatures@)
    &&& r.documentable == r.signatures@.len()
}

// ─── running it ─────────────────────────────────────────────────────────────

fn use_import_exec(t: &SyntaxTree, i: usize, out: &mut Vec<String>)
    requires
        t.wf(),
        i < t.nodes@.len(),
    ensures
        string_views(final(out)@) == string_views(old(out)@) + use_import(*t, i as int),
{
    let ghost start = string_views(out@);
    let full = chars_of(t.nodes[i].text.as_str());
    let a = trim_chars(full.as_slice());
    proof {
        reveal_strlit("use ");
        reveal_strlit(";");
    }
    let b = if starts_with_str(a.as_slice(), "use ") {
        assert(a@.subrange(4, a@.len() as int) =~= a@.skip(4));
        slice_chars(a.as_slice(), 4, a.len())
    } else {
        assert(full@.subrange(0, full@.len() as int) =~= full@);
        slice_chars(full.as_slice(), 0, full.len())
    };
    let semi = chars_of(";");
    let c = trim_end_matches_chars(b.as_slice(), semi.as_slice());
    let d = trim_chars(c.as_slice());
    let p = string_of(d.as_slice());
    if starts_with_str(d.as_slice(), "crate::") || starts_with_str(d.as_slice(), "super::") {
        let ghost pv = p@;
        out.push(p);
        assert(string_views(out@) =~= start + seq![pv]);
    } else {
        assert(start + Seq::<Seq<char>>::empty() =~= start);
    }
}

fn is_pub_exec(t: &SyntaxTree, i: usize) -> (r: bool)
    requires
        t.wf(),
        i < t.nodes@.len(),
    ensures
        r == is_pub(*t, i as int),
{
    match t.first_child_kind2(i, "visibility_modifier", "visibility_modifier") {
        Some(v) => {
            let cs = chars_of(t.nodes[v].text.as_str());
            starts_with_str(cs.as_slice(), "pub")
        },
        None => false,
    }
}

pub open spec fn triples(v: Seq<(usize, usize, usize)>) -> Seq<(int, int, int)> {
    v.map_values(|x: (usize, usize, usize)| (x.0 as int, x.1 as int, x.2 as int))
}

pub open spec fn in_tree(v: Seq<(usize, usize, usize)>, t: SyntaxTree) -> bool {
    forall|k: int| 0 <= k < v.len() ==> (#[trigger] v[k]).1 < t.nodes@.len() && v[k].2 < t.nodes@.len()
}

fn item_source_exec(t: &SyntaxTree, i: usize, tag: usize, out: &mut Vec<(usize, usize, usize)>)
    requires
        t.wf(),
        i < t.nodes@.len(),
        in_tree(old(out)@, *t),
    ensures
        triples(final(out)@) == triples(old(out)@) + item_source(*t, i as int, tag as int),
        in_tree(final(out)@, *t),
{
    let ghost start = triples(out@);
    if is_pub_exec(t, i) && t.first_child_kind2(i, "type_identifier", "identifier").is_some() {
        out.push((tag, i, 0));
        assert(triples(out@) =~= start + seq![(tag as int, i as int, 0int)]);
    } else {
        assert(start + Seq::<(int, int, int)>::empty() =~= start);
    }
}

fn fn_sources_exec(t: &SyntaxTree, c: usize, out: &mut Vec<(usize, usize, usize)>)
    requires
        t.wf(),
        c < t.nodes@.len(),
        in_tree(old(out)@, *t),
    ensures
        triples(final(out)@) == triples(old(out)@) + fn_sources(*t, t.children(c as int)),
        in_tree(final(out)@, *t),
{
    let kids = t.child_indices(c);
    let ghost ks = t.children(c as int);
    let ghost start = triples(out@);
    let mut j: usize = 0;
    while j < kids.len()
        invariant
            t.wf(),
            as_ints(kids@) == ks,
            forall|k: int| 0 <= k < kids@.len() ==> c < #[trigger] kids@[k] < t.nodes@.len(),
            j <= kids@.len(),
            triples(out@) == start + fn_sources(*t, ks.take(j as int)),
            in_tree(out@, *t),
        decreases kids.len() - j,
    {
        let x = kids[j];
        assert(ks.take(j + 1).drop_last() =~= ks.take(j as int));
        assert(ks.take(j + 1).last() == x as int);
        let ghost before = triples(out@);
        if str_eq(t.nodes[x].kind.as_str(), "function_item") {
            item_source_exec(t, x, 0, out);
            assert(start + fn_sources(*t, ks.take(j + 1)) =~= before + item_source(*t, x as int, 0));
        }
        j += 1;
    }
    assert(ks.take(kids@.len() as int) =~= ks);
}

fn impl_sources_exec(t: &SyntaxTree, i: usize, out: &mut Vec<(usize, usize, usize)>)
    requires
        t.wf(),
        i < t.nodes@.len(),
        in_tree(old(out)@, *t),
    ensures
        triples(final(out)@) == triples(old(out)@) + impl_sources(*t, i as int),
        in_tree(final(out)@, *t),
{
    match t.field_child_index(i, "body") {
        Some(b) => fn_sources_exec(t, b, out),
        None => match t.first_child_kind2(i, "declaration_list", "declaration_list") {
            Some(d) => fn_sources_exec(t, d, out),
            None => {
                assert(triples(out@) + Seq::<(int, int, int)>::empty() =~= triples(out@));
            },
        },
    }
}

pub struct RustState {
    pub imports: Vec<String>,
    pub sources: Vec<(usize, usize, usize)>,
}

pub open spec fn rstate(s: RustState) -> RustFound {
    (string_views(s.imports@), triples(s.sources@))
}

fn rwalk_exec(t: &SyntaxTree, i: usize, st: &mut RustState)
    requires
        t.wf(),
        i < t.nodes@.len(),
        in_tree(old(st).sources@, *t),
    ensures
        rstate(*final(st)) == rwalk(*t, i as int, rstate(*old(st))),
        in_tree(final(st).sources@, *t),
    decreases t.nodes@.len() - i, 1int,
{
    let k = t.nodes[i].kind.as_str();
    if str_eq(k, "use_declaration") {
        use_import_exec(t, i, &mut st.imports);
    } else if str_eq(k, "function_item") {
        item_source_exec(t, i, 0, &mut st.sources);
    } else if str_eq(k, "struct_item") {
        item_source_exec(t, i, 1, &mut st.sources);
    } else if str_eq(k, "trait_item") {
        item_source_exec(t, i, 2, &mut st.sources);
    } else if str_eq(k, "enum_item") {
        item_source_exec(t, i, 3, &mut st.sources);
    } else if str_eq(k, "impl_item") {
        impl_sources_exec(t, i, &mut st.sources);
    } else {
        rwalk_children(t, i, st);
    }
}

fn rwalk_children(t: &SyntaxTree, p: usize, st: &mut RustState)
    requires
        t.wf(),
        p < t.nodes@.len(),
        in_tree(old(st).sources@, *t),
    ensures
        rstate(*final(st)) == rwalk_from(*t, p as int, p as int + 1, rstate(*old(st))),
        in_tree(final(st).sources@, *t),
    decreases t.nodes@.len() - p, 0int,
{
    let n = t.nodes.len();
    let mut k: usize = p + 1;
    while k < t.nodes.len() && t.nodes[k].depth > t.nodes[p].depth
        invariant
            t.wf(),
            n == t.nodes@.len(),
            p < k <= t.nodes@.len(),
            in_tree(st.sources@, *t),
            rwalk_from(*t, p as int, p as int + 1, rstate(*old(st))) == rwalk_from(*t, p as int, k as int, rstate(*st)),
        decreases t.nodes.len() - k,
    {
        if t.nodes[k].depth == t.nodes[p].depth + 1 {
            rwalk_exec(t, k, st);
        }
        k += 1;
    }
}

fn finish_doc_exec(acc: &Vec<String>) -> (r: Option<String>)
    ensures
        opt_view(r) == finish_doc(string_views(acc@)),
{
    if acc.len() == 0 {
        None
    } else {
        assert(string_views(acc@) =~= string_views(acc@));
        Some(join_strings(acc, "\n"))
    }
}

fn rust_doc_from_exec(t: &SyntaxTree, s: usize, acc: Vec<String>) -> (r: Option<String>)
    requires
        t.wf(),
        s < t.nodes@.len(),
    ensures
        opt_view(r) == rust_doc_from(*t, s as int, string_views(acc@)),
    decreases s,
{
    let k = t.nodes[s].kind.as_str();
    if str_eq(k, "line_comment") {
        let cs = chars_of(t.nodes[s].text.as_str());
        if starts_with_str(cs.as_slice(), "///") {
            let mut acc2 = acc;
            let ghost before = string_views(acc2@);
            acc2.insert(0, t.nodes[s].text.clone());
            assert(string_views(acc2@) =~= seq![t.text(s as int)] + before);
            match t.prev_sibling_index(s) {
                Some(p) => rust_doc_from_exec(t, p, acc2),
                None => finish_doc_exec(&acc2),
            }
        } else {
            finish_doc_exec(&acc)
        }
    } else if str_eq(k, "block_comment") {
        let cs = chars_of(t.nodes[s].text.as_str());
        if starts_with_str(cs.as_slice(), "/**") {
            Some(t.nodes[s].text.clone())
        } else {
            None
        }
    } else if t.nodes[s].extra {
        match t.prev_sibling_index(s) {
            Some(p) => rust_doc_from_exec(t, p, acc),
            None => finish_doc_exec(&acc),
        }
    } else {
        finish_doc_exec(&acc)
    }
}

fn rust_doc_exec(t: &SyntaxTree, i: usize) -> (r: Option<String>)
    requires
        t.wf(),
        i < t.nodes@.len(),
    ensures
        opt_view(r) == rust_doc(*t, i as int),
{
    match t.prev_sibling_index(i) {
        Some(s) => {
            let acc: Vec<String> = Vec::new();
            assert(string_views(acc@) =~= Seq::<Seq<char>>::empty());
            rust_doc_from_exec(t, s, acc)
        },
        None => None,
    }
}

fn rust_signature(t: &SyntaxTree, src: (usize, usize, usize)) -> (r: Signature)
    requires
        t.wf(),
        src.1 < t.nodes@.len(),
        src.0 < 4,
        item_name(*t, src.1 as int) is Some,
    ensures
        rust_sig(r, *t, (src.0 as int, src.1 as int, src.2 as int)),
{
    let (tag, i, _j) = src;
    let doc = rust_doc_exec(t, i);
    let has_docstring = doc.is_some();
    let name = match t.first_child_kind2(i, "type_identifier", "identifier") {
        Some(n) => t.nodes[n].text.clone(),
        None => String::new(),
    };
    let mut modifiers: Vec<String> = Vec::new();
    modifiers.push(owned("pub"));
    assert(string_views(modifiers@) =~= seq!["pub"@]);
    Signature {
        kind: if tag == 0 {
            owned("function")
        } else if tag == 1 {
            owned("struct")
        } else if tag == 2 {
            owned("trait")
        } else {
            owned("enum")
        },
        name,
        modifiers,
        params: None,
        return_type: None,
        throws: Vec::new(),
        extends: None,
        implements: Vec::new(),
        annotations: Vec::new(),
        line: line_exec(t.nodes[i].row),
        has_docstring,
        existing_word_count: 0,
        docstring_text: doc,
    }
}

/// Every recorded item is named and tagged 0 to 3.
pub open spec fn sources_named(t: SyntaxTree, v: Seq<(int, int, int)>) -> bool {
    forall|k: int| 0 <= k < v.len() ==> 0 <= (#[trigger] v[k]).0 < 4 && item_name(t, v[k].1) is Some
}

proof fn lemma_item_source_named(t: SyntaxTree, i: int, tag: int)
    requires
        0 <= tag < 4,
    ensures
        sources_named(t, item_source(t, i, tag)),
{
}

proof fn lemma_named_concat(t: SyntaxTree, a: Seq<(int, int, int)>, b: Seq<(int, int, int)>)
    requires
        sources_named(t, a),
        sources_named(t, b),
    ensures
        sources_named(t, a + b),
{
    assert forall|k: int| 0 <= k < (a + b).len() implies 0 <= (#[trigger] (a + b)[k]).0 < 4 && item_name(t, (a + b)[k].1) is Some by {
        if k < a.len() {
            assert((a + b)[k] == a[k]);
        } else {
            assert((a + b)[k] == b[k - a.len()]);
        }
    }
}

proof fn lemma_fn_sources_named(t: SyntaxTree, kids: Seq<int>)
    ensures
        sources_named(t, fn_sources(t, kids)),
    decreases kids.len(),
{
    if kids.len() > 0 {
        lemma_fn_sources_named(t, kids.drop_last());
        lemma_item_source_named(t, kids.last(), 0);
        lemma_named_concat(t, fn_sources(t, kids.drop_last()), item_source(t, kids.last(), 0));
    }
}

proof fn lemma_rwalk_named(t: SyntaxTree, i: int, st: RustFound)
    requires
        sources_named(t, st.1),
    ensures
        sources_named(t, rwalk(t, i, st).1),
    decreases t.len() - i, 1int,
{
    if 0 <= i < t.len() {
        let k = t.kind(i);
        if k == "use_declaration"@ {
        } else if k == "function_item"@ || k == "struct_item"@ || k == "trait_item"@ || k == "enum_item"@ {
            let tag: int = if k == "function_item"@ { 0 } else if k == "struct_item"@ { 1 } else if k == "trait_item"@ { 2 } else { 3 };
            lemma_item_source_named(t, i, tag);
            lemma_named_concat(t, st.1, item_source(t, i, tag));
        } else if k == "impl_item"@ {
            match t.field_child(i, "body"@) {
                Some(b) => lemma_fn_sources_named(t, t.children(b)),
                None => match first_kind2(t, t.children(i), "declaration_list"@, "declaration_list"@) {
                    Some(d) => lemma_fn_sources_named(t, t.children(d)),
                    None => {},
                },
            }
            lemma_named_concat(t, st.1, impl_sources(t, i));
        } else {
            lemma_rwalk_from_named(t, i, i + 1, st);
        }
    }
}

proof fn lemma_rwalk_from_named(t: SyntaxTree, p: int, k: int, st: RustFound)
    requires
        sources_named(t, st.1),
    ensures
        sources_named(t, rwalk_from(t, p, k, st).1),
    decreases t.len() - k, 2int,
{
    if k <= p || k >= t.len() || t.depth(k) <= t.depth(p) {
    } else if t.depth(k) == t.depth(p) + 1 {
        lemma_rwalk_named(t, k, st);
        lemma_rwalk_from_named(t, p, k + 1, rwalk(t, k, st));
    } else {
        lemma_rwalk_from_named(t, p, k + 1, st);
    }
}

/// What the Rust parser finds in the syntax tree `t` (see `rust_result`).
pub fn rust_extract(t: &SyntaxTree) -> (r: ParseResult)
    requires
        t.wf(),
    ensures
        rust_result(r, *t),
{
    let mut st = RustState { imports: Vec::new(), sources: Vec::new() };
    proof {
        assert(string_views(st.imports@) =~= Seq::<Seq<char>>::empty());
        assert(triples(st.sources@) =~= Seq::<(int, int, int)>::empty());
    }
    if t.nodes.len() > 0 {
        rwalk_exec(t, 0, &mut st);
        proof {
            lemma_rwalk_named(*t, 0, (Seq::empty(), Seq::empty()));
        }
    }
    let ghost f = rust_found(*t);
    let mut sigs: Vec<Signature> = Vec::new();
    let mut k: usize = 0;
    while k < st.sources.len()
        invariant
            t.wf(),
            in_tree(st.sources@, *t),
            rstate(st) == f,
            sources_named(*t, f.1),
            k <= st.sources@.len(),
            sigs@.len() == k,
            forall|x: int| 0 <= x < k ==> rust_sig(#[trigger] sigs@[x], *t, f.1[x]),
        decreases st.sources.len() - k,
    {
        let src = st.sources[k];
        assert(f.1[k as int] == (src.0 as int, src.1 as int, src.2 as int));
        sigs.push(rust_signature(t, src));
        k += 1;
    }
    let documented = count_documented(&sigs);
    let documentable = sigs.len();
    ParseResult { raw_imports: st.imports, signatures: sigs, package: None, documented, documentable }
}

} // verus!
