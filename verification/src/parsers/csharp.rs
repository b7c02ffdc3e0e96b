//! The C# parser: the project namespaces a file uses and its public
//! classes, interfaces and methods.

use vstd::prelude::*;
use crate::models::Signature;
use crate::syntax::{parsed_from, Grammar, SyntaxTree, parse_syntax, first_kind2, as_ints};
use crate::text::{str_eq, owned, opt_view, join, join_strings, string_views, starts_with, trim, trim_end_matches,
    trim_start_matches, has_infix, chars_of, string_of, starts_with_str, trim_chars, trim_end_matches_chars,
    trim_start_matches_chars, slice_chars, contains_chars};
use crate::parsers::{ParseResult, documented_count, line_of, line_exec, count_documented};

verus! {

broadcast use vstd::string::group_string_axioms;

pub struct CSharpParser;

impl CSharpParser {
    pub fn new() -> (r: Self) {
        CSharpParser
    }

    /// Parses C# source: see `csharp_extract`.
    pub fn parse(&self, source: &str) -> (r: ParseResult)
        ensures
            exists|t: SyntaxTree| parsed_from(t, Grammar::CSharp, source@) && #[trigger] csharp_result(r, t),
    {
        let t = parse_syntax(Grammar::CSharp, source);
        csharp_extract(&t)
    }
}

/// The namespace a `using` directive names, where it is a project one:
/// aliases (`=`) are left out, a `static ` is dropped, and `System*` and
/// `Microsoft*` are left out.
pub open spec fn using_import(full: Seq<char>) -> Seq<Seq<char>> {
    let a = trim(full);
    let b = if starts_with(a, "using "@) { a.skip(6) } else { Seq::empty() };
    let ns = trim(trim_end_matches(b, ";"@));
    if has_infix(ns, "="@) {
        Seq::empty()
    } else {
        let ns2 = trim(trim_start_matches(ns, "static "@));
        if starts_with(ns2, "System"@) || starts_with(ns2, "Microsoft"@) || ns2.len() == 0 {
            Seq::empty()
        } else {
            seq![ns2]
        }
    }
}

/// Node `c` is a `public` or `protected` modifier.
pub open spec fn public_modifier(t: SyntaxTree, c: int) -> bool {
    t.kind(c) == "modifier"@ && (t.text(c) == "public"@ || t.text(c) == "protected"@)
}

/// Some child among `kids` is a `public` or `protected` modifier.
pub open spec fn public_among(t: SyntaxTree, kids: Seq<int>) -> bool {
    exists|k: int| 0 <= k < kids.len() && #[trigger] public_modifier(t, kids[k])
}

pub open spec fn is_public(t: SyntaxTree, i: int) -> bool {
    public_among(t, t.children(i))
}

/// The public methods and constructors among `kids`.
pub open spec fn method_sources(t: SyntaxTree, kids: Seq<int>) -> Seq<(int, int, int)>
    decreases kids.len(),
{
    if kids.len() == 0 {
        Seq::empty()
    } else {
        let r = method_sources(t, kids.drop_last());
        let c = kids.last();
        if (t.kind(c) == "method_declaration"@ || t.kind(c) == "constructor_declaration"@) && is_public(t, c)
            && t.field_child(c, "name"@) is Some {
            r.push((2, c, 0))
        } else {
            r
        }
    }
}

/// A public, named class (0) or interface (1) and its public methods.
pub open spec fn class_sources(t: SyntaxTree, i: int, tag: int) -> Seq<(int, int, int)> {
    if is_public(t, i) && t.field_child(i, "name"@) is Some {
        seq![(tag, i, 0)] + match t.field_child(i, "body"@) {
            Some(b) => method_sources(t, t.children(b)),
            None => Seq::empty(),
        }
    } else {
        Seq::empty()
    }
}

/// The classes and interfaces among the children of a namespace without
/// a body.
pub open spec fn ns_sources(t: SyntaxTree, kids: Seq<int>) -> Seq<(int, int, int)>
    decreases kids.len(),
{
    if kids.len() == 0 {
        Seq::empty()
    } else {
        let r = ns_sources(t, kids.drop_last());
        let c = kids.last();
        if t.kind(c) == "class_declaration"@ {
            r + class_sources(t, c, 0)
        } else if t.kind(c) == "interface_declaration"@ {
            r + class_sources(t, c, 1)
        } else {
            r
        }
    }
}

pub type CsFound = (Seq<Seq<char>>, Seq<(int, int, int)>);

/// The walk from node `i`.
pub open spec fn cswalk(t: SyntaxTree, i: int, st: CsFound) -> CsFound
    decreases t.len() - i, 1int,
{
    if i < 0 || i >= t.len() {
        st
    } else {
        let k = t.kind(i);
        if k == "using_directive"@ {
            (st.0 + using_import(t.text(i)), st.1)
        } else if k == "class_declaration"@ {
            (st.0, st.1 + class_sources(t, i, 0))
        } else if k == "interface_declaration"@ {
            (st.0, st.1 + class_sources(t, i, 1))
        } else if k == "namespace_declaration"@ || k == "file_scoped_namespace_declaration"@ {
            match t.field_child(i, "body"@) {
                Some(b) => if i < b < t.len() { cswalk_from(t, b, b + 1, st) } else { st },
                None => (st.0, st.1 + ns_sources(t, t.children(i))),
            }
        } else {
            cswalk_from(t, i, i + 1, st)
        }
    }
}

pub open spec fn cswalk_from(t: SyntaxTree, p: int, k: int, st: CsFound) -> CsFound
    decreases t.len() - k, 2int,
{
    if k <= p || k >= t.len() || t.depth(k) <= t.depth(p) {
        st
    } else if t.depth(k) == t.depth(p) + 1 {
        cswalk_from(t, p, k + 1, cswalk(t, k, st))
    } else {
        cswalk_from(t, p, k + 1, st)
    }
}

pub open spec fn csharp_found(t: SyntaxTree) -> CsFound {
    if t.len() > 0 { cswalk(t, 0, (Seq::empty(), Seq::empty())) } else { (Seq::empty(), Seq::empty()) }
}

/// The `///` or `/**` comments right before sibling `s` and `s` itself, in
/// source order.
pub open spec fn cs_comments_back(t: SyntaxTree, s: int) -> Seq<Seq<char>>
    decreases s + 1,
{
    if s < 0 || s >= t.len() {
        Seq::empty()
    } else {
        let before = match t.prev_sibling(s) {
            Some(p) => if 0 <= p < s { cs_comments_back(t, p) } else { Seq::empty() },
            None => Seq::empty(),
        };
        if t.kind(s) == "comment"@ {
            if starts_with(t.text(s), "///"@) || starts_with(t.text(s), "/**"@) { before.push(t.text(s)) } else { Seq::empty() }
        } else if t.nodes@[s].extra {
            before
        } else {
            Seq::empty()
        }
    }
}

/// A `/**` block comment found looking back from sibling `s`.
pub open spec fn cs_block_from(t: SyntaxTree, s: int) -> Option<Seq<char>>
    decreases s + 1,
{
    if s < 0 || s >= t.len() {
        None
    } else if t.kind(s) == "block_comment"@ {
        if starts_with(t.text(s), "/**"@) { Some(t.text(s)) } else { None }
    } else if t.nodes@[s].extra {
        match t.prev_sibling(s) {
            Some(p) => if 0 <= p < s { cs_block_from(t, p) } else { None },
            None => None,
        }
    } else {
        None
    }
}

/// The doc comment of `i`: its doc comment lines joined, else a `/**`
/// block comment.
pub open spec fn cs_doc(t: SyntaxTree, i: int) -> Option<Seq<char>> {
    match t.prev_sibling(i) {
        Some(s) => {
            let cs = cs_comments_back(t, s);
            if cs.len() > 0 { Some(join(cs, "\n"@)) } else { cs_block_from(t, s) }
        },
        None => None,
    }
}

pub open spec fn cs_kind(tag: int) -> Seq<char> {
    if tag == 0 { "class"@ } else if tag == 1 { "interface"@ } else { "method"@ }
}

/// `s` is the signature recorded from `src`.
pub open spec fn cs_sig(s: Signature, t: SyntaxTree, src: (int, int, int)) -> bool {
    let (tag, i, _j) = src;
    let doc = cs_doc(t, i);
    &&& s.kind@ == cs_kind(tag)
    &&& s.name@ == t.field_text(i, "name"@)
    &&& string_views(s.modifiers@) == seq!["public"@]
    &&& s.line == line_of(t.nodes@[i].row)
    &&& s.has_docstring == doc is Some
    &&& opt_view(s.docstring_text) == doc
    &&& s.existing_word_count == 0
    &&& s.params is None
    &&& s.return_type is None
    &&& s.throws@.len() == 0
    &&& s.extends is None
    &&& s.implements@.len() == 0
    &&& s.annotations@.len() == 0
}

/// `r` is what the C# parser gives for the tree `t`.
pub open spec fn csharp_result(r: ParseResult, t: SyntaxTree) -> bool {
    let f = csharp_found(t);
    &&& r.package is None
    &&& string_views(r.raw_imports@) == f.0
    &&& r.signatures@.len() == f.1.len()
    &&& forall|k: int| 0 <= k < f.1.len() ==> cs_sig(#[trigger] r.signatures@[k], t, f.1[k])
    &&& r.documented == documented_count(r.signatures@)
    &&& r.documentable == r.signatures@.len()
}

// ─── running it ─────────────────────────────────────────────────────────────

fn using_import_exec(t: &SyntaxTree, i: usize, out: &mut Vec<String>)
    requires
        t.wf(),
        i < t.nodes@.len(),
    ensures
        string_views(final(out)@) == string_views(old(out)@) + using_import(t.text(i as int)),
{
    let ghost start = string_views(out@);
    proof {
        reveal_strlit("using ");
        reveal_strlit(";");
        reveal_strlit("static ");
    }
    let full = chars_of(t.nodes[i].text.as_str());
    let a = trim_chars(full.as_slice());
    let b = if starts_with_str(a.as_slice(), "using ") {
        assert(a@.subrange(6, a@.len() as int) =~= a@.skip(6));
        slice_chars(a.as_slice(), 6, a.len())
    } else {
        let v: Vec<char> = Vec::new();
        assert(v@ =~= Seq::<char>::empty());
        v
    };
    let semi = chars_of(";");
    let c = trim_end_matches_chars(b.as_slice(), semi.as_slice());
    let ns = trim_chars(c.as_slice());
    let eq = chars_of("=");
    if contains_chars(ns.as_slice(), eq.as_slice()) {
        assert(start + Seq::<Seq<char>>::empty() =~= start);
        return;
    }
    let st = chars_of("static ");
    let d = trim_start_matches_chars(ns.as_slice(), st.as_slice());
    let ns2 = trim_chars(d.as_slice());
    if starts_with_str(ns2.as_slice(), "System") || starts_with_str(ns2.as_slice(), "Microsoft") || ns2.len() == 0 {
        assert(start + Seq::<Seq<char>>::empty() =~= start);
        return;
    }
    let p = string_of(ns2.as_slice());
    let ghost pv = p@;
    out.push(p);
    assert(string_views(out@) =~= start + seq![pv]);
}

fn is_public_exec(t: &SyntaxTree, i: usize) -> (r: bool)
    requires
        t.wf(),
        i < t.nodes@.len(),
    ensures
        r == is_public(*t, i as int),
{
    let kids = t.child_indices(i);
    let ghost ks = t.children(i as int);
    let mut j: usize = 0;
    while j < kids.len()
        invariant
            as_ints(kids@) == ks,
            forall|k: int| 0 <= k < kids@.len() ==> i < #[trigger] kids@[k] < t.nodes@.len(),
            j <= kids@.len(),
            ks == t.children(i as int),
            forall|k: int| 0 <= k < j ==> !#[trigger] public_modifier(*t, ks[k]),
        decreases kids.len() - j,
    {
        let x = kids[j];
        assert(ks[j as int] == x as int);
        if str_eq(t.nodes[x].kind.as_str(), "modifier") {
            let tx = t.nodes[x].text.as_str();
            if str_eq(tx, "public") || str_eq(tx, "protected") {
                assert(public_modifier(*t, ks[j as int]));
                return true;
            }
        }
        j += 1;
    }
    false
}

pub open spec fn triples(v: Seq<(usize, usize, usize)>) -> Seq<(int, int, int)> {
    v.map_values(|x: (usize, usize, usize)| (x.0 as int, x.1 as int, x.2 as int))
}

pub open spec fn in_tree(v: Seq<(usize, usize, usize)>, t: SyntaxTree) -> bool {
    forall|k: int| 0 <= k < v.len() ==> (#[trigger] v[k]).1 < t.nodes@.len() && v[k].0 < 3
}

fn method_sources_exec(t: &SyntaxTree, c: usize, out: &mut Vec<(usize, usize, usize)>)
    requires
        t.wf(),
        c < t.nodes@.len(),
        in_tree(old(out)@, *t),
    ensures
        triples(final(out)@) == triples(old(out)@) + method_sources(*t, t.children(c as int)),
        in_tree(final(out)@, *t),
{
    let kids = t.child_indices(c);
    let ghost ks = t.children(c as int);
    let ghost start = triples(out@);
    let mut j: usize = 0;
    while j < kids.len()
        invariant
            t.wf(),
            as_ints(kids@) == ks,
            forall|k: int| 0 <= k < kids@.len() ==> c < #[trigger] kids@[k] < t.nodes@.len(),
            j <= kids@.len(),
            triples(out@) == start + method_sources(*t, ks.take(j as int)),
            in_tree(out@, *t),
        decreases kids.len() - j,
    {
        let x = kids[j];
        assert(ks.take(j + 1).drop_last() =~= ks.take(j as int));
        assert(ks.take(j + 1).last() == x as int);
        let ghost before = triples(out@);
        let k = t.nodes[x].kind.as_str();
        if (str_eq(k, "method_declaration") || str_eq(k, "constructor_declaration")) && is_public_exec(t, x)
            && t.field_child_index(x, "name").is_some() {
            out.push((2, x, 0));
            assert(triples(out@) =~= before.push((2, x as int, 0)));
            assert(start + method_sources(*t, ks.take(j + 1)) =~= before.push((2, x as int, 0)));
        }
        j += 1;
    }
    assert(ks.take(kids@.len() as int) =~= ks);
}

fn class_sources_exec(t: &SyntaxTree, i: usize, tag: usize, out: &mut Vec<(usize, usize, usize)>)
    requires
        t.wf(),
        i < t.nodes@.len(),
        tag < 2,
        in_tree(old(out)@, *t),
    ensures
        triples(final(out)@) == triples(old(out)@) + class_sources(*t, i as int, tag as int),
        in_tree(final(out)@, *t),
{
    let ghost start = triples(out@);
    if is_public_exec(t, i) && t.field_child_index(i, "name").is_some() {
        out.push((tag, i, 0));
        let ghost mid = triples(out@);
        assert(mid =~= start.push((tag as int, i as int, 0)));
        match t.field_child_index(i, "body") {
            Some(b) => {
                method_sources_exec(t, b, out);
                assert(start + (seq![(tag as int, i as int, 0int)] + method_sources(*t, t.children(b as int)))
                    =~= mid + method_sources(*t, t.children(b as int)));
            },
            None => {
                assert(start + (seq![(tag as int, i as int, 0int)] + Seq::<(int, int, int)>::empty()) =~= mid);
            },
        }
    } else {
        assert(start + Seq::<(int, int, int)>::empty() =~= start);
    }
}

fn ns_sources_exec(t: &SyntaxTree, i: usize, out: &mut Vec<(usize, usize, usize)>)
    requires
        t.wf(),
        i < t.nodes@.len(),
        in_tree(old(out)@, *t),
    ensures
        triples(final(out)@) == triples(old(out)@) + ns_sources(*t, t.children(i as int)),
        in_tree(final(out)@, *t),
{
    let kids = t.child_indices(i);
    let ghost ks = t.children(i as int);
    let ghost start = triples(out@);
    let mut j: usize = 0;
    while j < kids.len()
        invariant
            t.wf(),
            as_ints(kids@) == ks,
            forall|k: int| 0 <= k < kids@.len() ==> i < #[trigger] kids@[k] < t.nodes@.len(),
            j <= kids@.len(),
            triples(out@) == start + ns_sources(*t, ks.take(j as int)),
            in_tree(out@, *t),
        decreases kids.len() - j,
    {
        let x = kids[j];
        assert(ks.take(j + 1).drop_last() =~= ks.take(j as int));
        assert(ks.take(j + 1).last() == x as int);
        let ghost before = triples(out@);
        let k = t.nodes[x].kind.as_str();
        if str_eq(k, "class_declaration") {
            class_sources_exec(t, x, 0, out);
            assert(start + ns_sources(*t, ks.take(j + 1)) =~= before + class_sources(*t, x as int, 0));
        } else if str_eq(k, "interface_declaration") {
            class_sources_exec(t, x, 1, out);
            assert(start + ns_sources(*t, ks.take(j + 1)) =~= before + class_sources(*t, x as int, 1));
        }
        j += 1;
    }
    assert(ks.take(kids@.len() as int) =~= ks);
}

pub struct CsState {
    pub imports: Vec<String>,
    pub sources: Vec<(usize, usize, usize)>,
}

pub open spec fn cstate(s: CsState) -> CsFound {
    (string_views(s.imports@), triples(s.sources@))
}

fn cswalk_exec(t: &SyntaxTree, i: usize, st: &mut CsState)
    requires
        t.wf(),
        i < t.nodes@.len(),
        in_tree(old(st).sources@, *t),
    ensures
        cstate(*final(st)) == cswalk(*t, i as int, cstate(*old(st))),
        in_tree(final(st).sources@, *t),
    decreases t.nodes@.len() - i, 1int,
{
    let k = t.nodes[i].kind.as_str();
    if str_eq(k, "using_directive") {
        using_import_exec(t, i, &mut st.imports);
    } else if str_eq(k, "class_declaration") {
        class_sources_exec(t, i, 0, &mut st.sources);
    } else if str_eq(k, "interface_declaration") {
        class_sources_exec(t, i, 1, &mut st.sources);
    } else if str_eq(k, "namespace_declaration") || str_eq(k, "file_scoped_namespace_declaration") {
        match t.field_child_index(i, "body") {
            Some(b) => cswalk_children(t, b, st),
            None => ns_sources_exec(t, i, &mut st.sources),
        }
    } else {
        cswalk_children(t, i, st);
    }
}

fn cswalk_children(t: &SyntaxTree, p: usize, st: &mut CsState)
    requires
        t.wf(),
        p < t.nodes@.len(),
        in_tree(old(st).sources@, *t),
    ensures
        cstate(*final(st)) == cswalk_from(*t, p as int, p as int + 1, cstate(*old(st))),
        in_tree(final(st).sources@, *t),
    decreases t.nodes@.len() - p, 0int,
{
    let n = t.nodes.len();
    let mut k: usize = p + 1;
    while k < t.nodes.len() && t.nodes[k].depth > t.nodes[p].depth
        invariant
            t.wf(),
            n == t.nodes@.len(),
            p < k <= t.nodes@.len(),
            in_tree(st.sources@, *t),
            cswalk_from(*t, p as int, p as int + 1, cstate(*old(st))) == cswalk_from(*t, p as int, k as int, cstate(*st)),
        decreases t.nodes.len() - k,
    {
        if t.nodes[k].depth == t.nodes[p].depth + 1 {
            cswalk_exec(t, k, st);
        }
        k += 1;
    }
}

fn cs_comments_back_exec(t: &SyntaxTree, s: usize) -> (r: Vec<String>)
    requires
        t.wf(),
        s < t.nodes@.len(),
    ensures
        string_views(r@) == cs_comments_back(*t, s as int),
    decreases s,
{
    let k = t.nodes[s].kind.as_str();
    let is_comment = str_eq(k, "comment");
    let keep = if is_comment {
        let cs = chars_of(t.nodes[s].text.as_str());
        starts_with_str(cs.as_slice(), "///") || starts_with_str(cs.as_slice(), "/**")
    } else {
        t.nodes[s].extra
    };
    if !keep {
        let v: Vec<String> = Vec::new();
        assert(string_views(v@) =~= Seq::<Seq<char>>::empty());
        return v;
    }
    let mut before = match t.prev_sibling_index(s) {
        Some(p) => cs_comments_back_exec(t, p),
        None => {
            let v: Vec<String> = Vec::new();
            assert(string_views(v@) =~= Seq::<Seq<char>>::empty());
            v
        },
    };
    if is_comment {
        let ghost b = string_views(before@);
        before.push(t.nodes[s].text.clone());
        assert(string_views(before@) =~= b.push(t.text(s as int)));
    }
    before
}

fn cs_block_from_exec(t: &SyntaxTree, s: usize) -> (r: Option<String>)
    requires
        t.wf(),
        s < t.nodes@.len(),
    ensures
        opt_view(r) == cs_block_from(*t, s as int),
    decreases s,
{
    if str_eq(t.nodes[s].kind.as_str(), "block_comment") {
        let cs = chars_of(t.nodes[s].text.as_str());
        if starts_with_str(cs.as_slice(), "/**") { Some(t.nodes[s].text.clone()) } else { None }
    } else if t.nodes[s].extra {
        match t.prev_sibling_index(s) {
            Some(p) => cs_block_from_exec(t, p),
            None => None,
        }
    } else {
        None
    }
}

fn cs_doc_exec(t: &SyntaxTree, i: usize) -> (r: Option<String>)
    requires
        t.wf(),
        i < t.nodes@.len(),
    ensures
        opt_view(r) == cs_doc(*t, i as int),
{
    match t.prev_sibling_index(i) {
        Some(s) => {
            let parts = cs_comments_back_exec(t, s);
            if parts.len() > 0 {
                assert(string_views(parts@) =~= string_views(parts@));
                Some(join_strings(&parts, "\n"))
            } else {
                cs_block_from_exec(t, s)
            }
        },
        None => None,
    }
}

fn cs_signature(t: &SyntaxTree, src: (usize, usize, usize)) -> (r: Signature)
    requires
        t.wf(),
        src.1 < t.nodes@.len(),
    ensures
        cs_sig(r, *t, (src.0 as int, src.1 as int, src.2 as int)),
{
    let (tag, i, _j) = src;
    let doc = cs_doc_exec(t, i);
    let has_docstring = doc.is_some();
    let mut modifiers: Vec<String> = Vec::new();
    modifiers.push(owned("public"));
    assert(string_views(modifiers@) =~= seq!["public"@]);
    Signature {
        kind: if tag == 0 {
            owned("class")
        } else if tag == 1 {
            owned("interface")
        } else {
            owned("method")
        },
        name: t.field_text_of(i, "name"),
        modifiers,
        params: None,
        return_type: None,
        throws: Vec::new(),
        extends: None,
        implements: Vec::new(),
        annotations: Vec::new(),
        line: line_exec(t.nodes[i].row),
        has_docstring,
        existing_word_count: 0,
        docstring_text: doc,
    }
}

/// What the C# parser finds in the syntax tree `t` (see `csharp_result`).
pub fn csharp_extract(t: &SyntaxTree) -> (r: ParseResult)
    requires
        t.wf(),
    ensures
        csharp_result(r, *t),
{
    let mut st = CsState { imports: Vec::new(), sources: Vec::new() };
    proof {
        assert(string_views(st.imports@) =~= Seq::<Seq<char>>::empty());
        assert(triples(st.sources@) =~= Seq::<(int, int, int)>::empty());
    }
    if t.nodes.len() > 0 {
        cswalk_exec(t, 0, &mut st);
    }
    let ghost f = csharp_found(*t);
    let mut sigs: Vec<Signature> = Vec::new();
    let mut k: usize = 0;
    while k < st.sources.len()
        invariant
            t.wf(),
            in_tree(st.sources@, *t),
            cstate(st) == f,
            k <= st.sources@.len(),
            sigs@.len() == k,
            forall|x: int| 0 <= x < k ==> cs_sig(#[trigger] sigs@[x], *t, f.1[x]),
        decreases st.sources.len() - k,
    {
        let src = st.sources[k];
        assert(f.1[k as int] == (src.0 as int, src.1 as int, src.2 as int));
        sigs.push(cs_signature(t, src));
        k += 1;
    }
    let documented = count_documented(&sigs);
    let documentable = sigs.len();
    ParseResult { raw_imports: st.imports, signatures: sigs, package: None, documented, documentable }
}

} // verus!
