//! The Go parser: the imports and the exported declarations of a Go file.

use vstd::prelude::*;
use crate::models::Signature;
use crate::syntax::{parsed_from, Grammar, SyntaxTree, parse_syntax, first_kind2, as_ints};
use crate::text::{str_eq, owned, opt_view, join, join_strings, string_views, starts_upper, starts_upper_exec,
    trim_char, trim_char_exec};
use crate::parsers::{ParseResult, documented_count, line_of, line_exec, count_documented};

verus! {

broadcast use vstd::string::group_string_axioms;

pub struct GoParser;

impl GoParser {
    pub fn new() -> (r: Self) {
        GoParser
    }

    /// Parses Go source: see `go_extract`.
    pub fn parse(&self, source: &str) -> (r: ParseResult)
        ensures
            exists|t: SyntaxTree| parsed_from(t, Grammar::Go, source@) && #[trigger] go_result(r, t),
    {
        let t = parse_syntax(Grammar::Go, source);
        go_extract(&t)
    }
}

/// The comments right before sibling `s` and `s` itself when it is one, in
/// source order (extras passed over, anything else ends them).
pub open spec fn go_comments_back(t: SyntaxTree, s: int) -> Seq<Seq<char>>
    decreases s + 1,
{
    if s < 0 || s >= t.len() {
        Seq::empty()
    } else if t.kind(s) == "comment"@ || t.nodes@[s].extra {
        let before = match t.prev_sibling(s) {
            Some(p) => if 0 <= p < s { go_comments_back(t, p) } else { Seq::empty() },
            None => Seq::empty(),
        };
        if t.kind(s) == "comment"@ { before.push(t.text(s)) } else { before }
    } else {
        Seq::empty()
    }
}

/// The doc comment of `i`: the comment lines right before it, joined.
pub open spec fn go_doc(t: SyntaxTree, i: int) -> Option<Seq<char>> {
    let cs = match t.prev_sibling(i) {
        Some(s) => go_comments_back(t, s),
        None => Seq::empty(),
    };
    if cs.len() == 0 { None } else { Some(join(cs, "\n"@)) }
}

/// The path an import spec names: its first string literal, unquoted.
pub open spec fn spec_import(t: SyntaxTree, c: int) -> Seq<Seq<char>> {
    match first_kind2(t, t.children(c), "interpreted_string_literal"@, "raw_string_literal"@) {
        Some(l) => {
            let p = trim_char(trim_char(t.text(l), '"'), '`');
            if p.len() > 0 { seq![p] } else { Seq::empty() }
        },
        None => Seq::empty(),
    }
}

/// The paths of the import specs among `kids`.
pub open spec fn specs_imports(t: SyntaxTree, kids: Seq<int>) -> Seq<Seq<char>>
    decreases kids.len(),
{
    if kids.len() == 0 {
        Seq::empty()
    } else {
        let r = specs_imports(t, kids.drop_last());
        if t.kind(kids.last()) == "import_spec"@ { r + spec_import(t, kids.last()) } else { r }
    }
}

/// The paths an import declaration's children give: single specs and lists.
pub open spec fn decl_imports(t: SyntaxTree, kids: Seq<int>) -> Seq<Seq<char>>
    decreases kids.len(),
{
    if kids.len() == 0 {
        Seq::empty()
    } else {
        let r = decl_imports(t, kids.drop_last());
        let c = kids.last();
        if t.kind(c) == "import_spec"@ {
            r + spec_import(t, c)
        } else if t.kind(c) == "import_spec_list"@ {
            r + specs_imports(t, t.children(c))
        } else {
            r
        }
    }
}

/// The exported type specs among `kids` of type declaration `i`.
pub open spec fn type_specs(t: SyntaxTree, i: int, kids: Seq<int>) -> Seq<(int, int, int)>
    decreases kids.len(),
{
    if kids.len() == 0 {
        Seq::empty()
    } else {
        let r = type_specs(t, i, kids.drop_last());
        let c = kids.last();
        if t.kind(c) == "type_spec"@ && t.field_child(c, "name"@) is Some && starts_upper(t.field_text(c, "name"@)) {
            r.push((0, i, c))
        } else {
            r
        }
    }
}

pub open spec fn exported_decl(t: SyntaxTree, i: int) -> bool {
    t.field_child(i, "name"@) is Some && starts_upper(t.field_text(i, "name"@))
}

pub type GoFound = (Seq<Seq<char>>, Seq<(int, int, int)>);

/// The walk from node `i`: imports read, exported types (0), functions (1)
/// and methods (2) recorded, other nodes walking their children.
pub open spec fn gwalk(t: SyntaxTree, i: int, st: GoFound) -> GoFound
    decreases t.len() - i, 1int,
{
    if i < 0 || i >= t.len() {
        st
    } else {
        let k = t.kind(i);
        if k == "import_declaration"@ {
            (st.0 + decl_imports(t, t.children(i)), st.1)
        } else if k == "type_declaration"@ {
            (st.0, st.1 + type_specs(t, i, t.children(i)))
        } else if k == "function_declaration"@ || k == "method_declaration"@ {
            if exported_decl(t, i) {
                (st.0, st.1.push((if k == "function_declaration"@ { 1int } else { 2int }, i, 0)))
            } else {
                st
            }
        } else {
            gwalk_from(t, i, i + 1, st)
        }
    }
}

pub open spec fn gwalk_from(t: SyntaxTree, p: int, k: int, st: GoFound) -> GoFound
    decreases t.len() - k, 2int,
{
    if k <= p || k >= t.len() || t.depth(k) <= t.depth(p) {
        st
    } else if t.depth(k) == t.depth(p) + 1 {
        gwalk_from(t, p, k + 1, gwalk(t, k, st))
    } else {
        gwalk_from(t, p, k + 1, st)
    }
}

pub open spec fn go_found(t: SyntaxTree) -> GoFound {
    if t.len() > 0 { gwalk(t, 0, (Seq::empty(), Seq::empty())) } else { (Seq::empty(), Seq::empty()) }
}

/// `s` is the signature recorded from `src`: a type spec `j` of declaration
/// `i` (a `struct`, `interface` or other `type`), or a function or method.
pub open spec fn go_sig(s: Signature, t: SyntaxTree, src: (int, int, int)) -> bool {
    let (tag, i, j) = src;
    let doc = go_doc(t, i);
    &&& s.has_docstring == doc is Some
    &&& opt_view(s.docstring_text) == doc
    &&& s.existing_word_count == 0
    &&& s.modifiers@.len() == 0
    &&& s.params is None
    &&& s.return_type is None
    &&& s.throws@.len() == 0
    &&& s.extends is None
    &&& s.implements@.len() == 0
    &&& s.annotations@.len() == 0
    &&& if tag == 0 {
        &&& s.name@ == t.field_text(j, "name"@)
        &&& s.line == line_of(t.nodes@[j].row)
        &&& s.kind@ == match t.field_child(j, "type"@) {
            Some(ty) => if t.kind(ty) == "struct_type"@ {
                "struct"@
            } else if t.kind(ty) == "interface_type"@ {
                "interface"@
            } else {
                "type"@
            },
            None => "type"@,
        }
    } else {
        &&& s.name@ == t.field_text(i, "name"@)
        &&& s.line == line_of(t.nodes@[i].row)
        &&& s.kind@ == (if tag == 1 { "function"@ } else { "method"@ })
    }
}

/// `r` is what the Go parser gives for the tree `t`.
pub open spec fn go_result(r: ParseResult, t: SyntaxTree) -> bool {
    let f = go_found(t);
    &&& r.package is None
    &&& string_views(r.raw_imports@) == f.0
    &&& r.signatures@.len() == f.1.len()
    &&& forall|k: int| 0 <= k < f.1.len() ==> go_sig(#[trigger] r.signatures@[k], t, f.1[k])
    &&& r.documented == documented_count(r.signatures@)
    &&& r.documentable == r.signatures@.len()
}

// ─── running it ─────────────────────────────────────────────────────────────

fn comments_back_exec(t: &SyntaxTree, s: usize) -> (r: Vec<String>)
    requires
        t.wf(),
        s < t.nodes@.len(),
    ensures
        string_views(r@) == go_comments_back(*t, s as int),
    decreases s,
{
    let k = t.nodes[s].kind.as_str();
    let is_comment = str_eq(k, "comment");
    if is_comment || t.nodes[s].extra {
        let mut before = match t.prev_sibling_index(s) {
            Some(p) => comments_back_exec(t, p),
            None => {
                let v: Vec<String> = Vec::new();
                assert(string_views(v@) =~= Seq::<Seq<char>>::empty());
                v
            },
        };
        if is_comment {
            let ghost b = string_views(before@);
            before.push(t.nodes[s].text.clone());
            assert(string_views(before@) =~= b.push(t.text(s as int)));
        }
        before
    } else {
        let v: Vec<String> = Vec::new();
        assert(string_views(v@) =~= Seq::<Seq<char>>::empty());
        v
    }
}

fn go_doc_exec(t: &SyntaxTree, i: usize) -> (r: Option<String>)
    requires
        t.wf(),
        i < t.nodes@.len(),
    ensures
        opt_view(r) == go_doc(*t, i as int),
{
    let parts = match t.prev_sibling_index(i) {
        Some(s) => comments_back_exec(t, s),
        None => {
            let v: Vec<String> = Vec::new();
            assert(string_views(v@) =~= Seq::<Seq<char>>::empty());
            v
        },
    };
    if parts.len() == 0 {
        None
    } else {
        assert(string_views(parts@) =~= string_views(parts@));
        Some(join_strings(&parts, "\n"))
    }
}

fn spec_import_exec(t: &SyntaxTree, c: usize, out: &mut Vec<String>)
    requires
        t.wf(),
        c < t.nodes@.len(),
    ensures
        string_views(final(out)@) == string_views(old(out)@) + spec_import(*t, c as int),
{
    let ghost start = string_views(out@);
    match t.first_child_kind2(c, "interpreted_string_literal", "raw_string_literal") {
        Some(l) => {
            let a = trim_char_exec(t.nodes[l].text.as_str(), '"');
            let p = trim_char_exec(a.as_str(), '`');
            if !p.as_str().is_empty() {
                let ghost pv = p@;
                out.push(p);
                assert(string_views(out@) =~= start + seq![pv]);
            } else {
                assert(start + Seq::<Seq<char>>::empty() =~= start);
            }
        },
        None => {
            assert(start + Seq::<Seq<char>>::empty() =~= start);
        },
    }
}

fn specs_imports_exec(t: &SyntaxTree, c: usize, out: &mut Vec<String>)
    requires
        t.wf(),
        c < t.nodes@.len(),
    ensures
        string_views(final(out)@) == string_views(old(out)@) + specs_imports(*t, t.children(c as int)),
{
    let kids = t.child_indices(c);
    let ghost ks = t.children(c as int);
    let ghost start = string_views(out@);
    let mut j: usize = 0;
    while j < kids.len()
        invariant
            t.wf(),
            as_ints(kids@) == ks,
            forall|k: int| 0 <= k < kids@.len() ==> c < #[trigger] kids@[k] < t.nodes@.len(),
            j <= kids@.len(),
            string_views(out@) == start + specs_imports(*t, ks.take(j as int)),
        decreases kids.len() - j,
    {
        let x = kids[j];
        assert(ks.take(j + 1).drop_last() =~= ks.take(j as int));
        assert(ks.take(j + 1).last() == x as int);
        let ghost before = string_views(out@);
        if str_eq(t.nodes[x].kind.as_str(), "import_spec") {
            spec_import_exec(t, x, out);
            assert(start + specs_imports(*t, ks.take(j + 1)) =~= before + spec_import(*t, x as int));
        }
        j += 1;
    }
    assert(ks.take(kids@.len() as int) =~= ks);
}

fn decl_imports_exec(t: &SyntaxTree, i: usize, out: &mut Vec<String>)
    requires
        t.wf(),
        i < t.nodes@.len(),
    ensures
        string_views(final(out)@) == string_views(old(out)@) + decl_imports(*t, t.children(i as int)),
{
    let kids = t.child_indices(i);
    let ghost ks = t.children(i as int);
    let ghost start = string_views(out@);
    let mut j: usize = 0;
    while j < kids.len()
        invariant
            t.wf(),
            as_ints(kids@) == ks,
            forall|k: int| 0 <= k < kids@.len() ==> i < #[trigger] kids@[k] < t.nodes@.len(),
            j <= kids@.len(),
            string_views(out@) == start + decl_imports(*t, ks.take(j as int)),
        decreases kids.len() - j,
    {
        let x = kids[j];
        assert(ks.take(j + 1).drop_last() =~= ks.take(j as int));
        assert(ks.take(j + 1).last() == x as int);
        let ghost before = string_views(out@);
        let k = t.nodes[x].kind.as_str();
        if str_eq(k, "import_spec") {
            spec_import_exec(t, x, out);
            assert(start + decl_imports(*t, ks.take(j + 1)) =~= before + spec_import(*t, x as int));
        } else if str_eq(k, "import_spec_list") {
            specs_imports_exec(t, x, out);
            assert(start + decl_imports(*t, ks.take(j + 1)) =~= before + specs_imports(*t, t.children(x as int)));
        }
        j += 1;
    }
    assert(ks.take(kids@.len() as int) =~= ks);
}

pub open spec fn triples(v: Seq<(usize, usize, usize)>) -> Seq<(int, int, int)> {
    v.map_values(|x: (usize, usize, usize)| (x.0 as int, x.1 as int, x.2 as int))
}

pub open spec fn in_tree(v: Seq<(usize, usize, usize)>, t: SyntaxTree) -> bool {
    forall|k: int| 0 <= k < v.len() ==> (#[trigger] v[k]).1 < t.nodes@.len() && v[k].2 < t.nodes@.len()
}

fn type_specs_exec(t: &SyntaxTree, i: usize, out: &mut Vec<(usize, usize, usize)>)
    requires
        t.wf(),
        i < t.nodes@.len(),
        in_tree(old(out)@, *t),
    ensures
        triples(final(out)@) == triples(old(out)@) + type_specs(*t, i as int, t.children(i as int)),
        in_tree(final(out)@, *t),
{
    let kids = t.child_indices(i);
    let ghost ks = t.children(i as int);
    let ghost start = triples(out@);
    let mut j: usize = 0;
    while j < kids.len()
        invariant
            t.wf(),
            as_ints(kids@) == ks,
            forall|k: int| 0 <= k < kids@.len() ==> i < #[trigger] kids@[k] < t.nodes@.len(),
            j <= kids@.len(),
            triples(out@) == start + type_specs(*t, i as int, ks.take(j as int)),
            in_tree(out@, *t),
        decreases kids.len() - j,
    {
        let x = kids[j];
        assert(ks.take(j + 1).drop_last() =~= ks.take(j as int));
        assert(ks.take(j + 1).last() == x as int);
        let ghost before = triples(out@);
        if str_eq(t.nodes[x].kind.as_str(), "type_spec") {
            match t.field_child_index(x, "name") {
                Some(n) => {
                    if starts_upper_exec(&t.nodes[n].text) {
                        out.push((0, i, x));
                        assert(triples(out@) =~= before.push((0, i as int, x as int)));
                        assert(start + type_specs(*t, i as int, ks.take(j + 1)) =~= (start + type_specs(
                            *t,
                            i as int,
                            ks.take(j as int),
                        )).push((0, i as int, x as int)));
                    }
                },
                None => {},
            }
        }
        j += 1;
    }
    assert(ks.take(kids@.len() as int) =~= ks);
}

pub struct GoState {
    pub imports: Vec<String>,
    pub sources: Vec<(usize, usize, usize)>,
}

pub open spec fn gstate(s: GoState) -> GoFound {
    (string_views(s.imports@), triples(s.sources@))
}

fn gwalk_exec(t: &SyntaxTree, i: usize, st: &mut GoState)
    requires
        t.wf(),
        i < t.nodes@.len(),
        in_tree(old(st).sources@, *t),
    ensures
        gstate(*final(st)) == gwalk(*t, i as int, gstate(*old(st))),
        in_tree(final(st).sources@, *t),
    decreases t.nodes@.len() - i, 1int,
{
    let k = t.nodes[i].kind.as_str();
    if str_eq(k, "import_declaration") {
        decl_imports_exec(t, i, &mut st.imports);
    } else if str_eq(k, "type_declaration") {
        type_specs_exec(t, i, &mut st.sources);
    } else if str_eq(k, "function_declaration") || str_eq(k, "method_declaration") {
        match t.field_child_index(i, "name") {
            Some(n) => {
                if starts_upper_exec(&t.nodes[n].text) {
                    let tag: usize = if str_eq(k, "function_declaration") { 1 } else { 2 };
                    let ghost before = triples(st.sources@);
                    st.sources.push((tag, i, 0));
                    assert(triples(st.sources@) =~= before.push((tag as int, i as int, 0)));
                }
            },
            None => {},
        }
    } else {
        gwalk_children(t, i, st);
    }
}

fn gwalk_children(t: &SyntaxTree, p: usize, st: &mut GoState)
    requires
        t.wf(),
        p < t.nodes@.len(),
        in_tree(old(st).sources@, *t),
    ensures
        gstate(*final(st)) == gwalk_from(*t, p as int, p as int + 1, gstate(*old(st))),
        in_tree(final(st).sources@, *t),
    decreases t.nodes@.len() - p, 0int,
{
    let n = t.nodes.len();
    let mut k: usize = p + 1;
    while k < t.nodes.len() && t.nodes[k].depth > t.nodes[p].depth
        invariant
            t.wf(),
            n == t.nodes@.len(),
            p < k <= t.nodes@.len(),
            in_tree(st.sources@, *t),
            gwalk_from(*t, p as int, p as int + 1, gstate(*old(st))) == gwalk_from(*t, p as int, k as int, gstate(*st)),
        decreases t.nodes.len() - k,
    {
        if t.nodes[k].depth == t.nodes[p].depth + 1 {
            gwalk_exec(t, k, st);
        }
        k += 1;
    }
}

fn go_signature(t: &SyntaxTree, src: (usize, usize, usize)) -> (r: Signature)
    requires
        t.wf(),
        src.1 < t.nodes@.len(),
        src.2 < t.nodes@.len(),
    ensures
        go_sig(r, *t, (src.0 as int, src.1 as int, src.2 as int)),
{
    let (tag, i, j) = src;
    let doc = go_doc_exec(t, i);
    let has_docstring = doc.is_some();
    let (kind, name, line) = if tag == 0 {
        let kind = match t.field_child_index(j, "type") {
            Some(ty) => {
                let tk = t.nodes[ty].kind.as_str();
                if str_eq(tk, "struct_type") {
                    owned("struct")
                } else if str_eq(tk, "interface_type") {
                    owned("interface")
                } else {
                    owned("type")
                }
            },
            None => owned("type"),
        };
        (kind, t.field_text_of(j, "name"), line_exec(t.nodes[j].row))
    } else {
        (
            if tag == 1 { owned("function") } else { owned("method") },
            t.field_text_of(i, "name"),
            line_exec(t.nodes[i].row),
        )
    };
    Signature {
        kind,
        name,
        modifiers: Vec::new(),
        params: None,
        return_type: None,
        throws: Vec::new(),
        extends: None,
        implements: Vec::new(),
        annotations: Vec::new(),
        line,
        has_docstring,
        existing_word_count: 0,
        docstring_text: doc,
    }
}

/// What the Go parser finds in the syntax tree `t` (see `go_result`).
pub fn go_extract(t: &SyntaxTree) -> (r: ParseResult)
    requires
        t.wf(),
    ensures
        go_result(r, *t),
{
    let mut st = GoState { imports: Vec::new(), sources: Vec::new() };
    proof {
        assert(string_views(st.imports@) =~= Seq::<Seq<char>>::empty());
        assert(triples(st.sources@) =~= Seq::<(int, int, int)>::empty());
    }
    if t.nodes.len() > 0 {
        gwalk_exec(t, 0, &mut st);
    }
    let ghost f = go_found(*t);
    let mut sigs: Vec<Signature> = Vec::new();
    let mut k: usize = 0;
    while k < st.sources.len()
        invariant
            t.wf(),
            in_tree(st.sources@, *t),
            gstate(st) == f,
            k <= st.sources@.len(),
            sigs@.len() == k,
            forall|x: int| 0 <= x < k ==> go_sig(#[trigger] sigs@[x], *t, f.1[x]),
        decreases st.sources.len() - k,
    {
        let src = st.sources[k];
        assert(f.1[k as int] == (src.0 as int, src.1 as int, src.2 as int));
        sigs.push(go_signature(t, src));
        k += 1;
    }
    let documented = count_documented(&sigs);
    let documentable = sigs.len();
    ParseResult { raw_imports: st.imports, signatures: sigs, package: None, documented, documentable }
}

} // verus!
