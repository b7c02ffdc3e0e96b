//! The Ruby parser: the `require_relative` paths and the classes and
//! methods of a Ruby file.

use vstd::prelude::*;
use crate::models::Signature;
use crate::syntax::{parsed_from, Grammar, SyntaxTree, parse_syntax, first_kind2, as_ints};
use crate::text::{str_eq, owned, opt_view, join, join_strings, string_views, starts_with, chars_of,
    starts_with_str, trim_char, trim_char_exec};
use crate::parsers::{ParseResult, documented_count, line_of, line_exec, count_documented};

verus! {

broadcast use vstd::string::group_string_axioms;

pub struct RubyParser;

impl RubyParser {
    pub fn new() -> (r: Self) {
        RubyParser
    }

    /// Parses Ruby source: see `ruby_extract`.
    pub fn parse(&self, source: &str) -> (r: ParseResult)
        ensures
            exists|t: SyntaxTree| parsed_from(t, Grammar::Ruby, source@) && #[trigger] ruby_result(r, t),
    {
        let t = parse_syntax(Grammar::Ruby, source);
        ruby_extract(&t)
    }
}

/// The path a `require_relative` call at `i` names: the content of its
/// first string argument (else that string unquoted), where not empty.
pub open spec fn ruby_require(t: SyntaxTree, i: int) -> Seq<Seq<char>> {
    match t.field_child(i, "method"@) {
        Some(m) => if t.text(m) == "require_relative"@ {
            match t.field_child(i, "arguments"@) {
                Some(a) => match first_kind2(t, t.children(a), "string"@, "string"@) {
                    Some(s) => match first_kind2(t, t.children(s), "string_content"@, "string_content"@) {
                        Some(c) => if t.text(c).len() > 0 { seq![t.text(c)] } else { Seq::empty() },
                        None => {
                            let p = trim_char(trim_char(t.text(s), '\''), '"');
                            if p.len() > 0 { seq![p] } else { Seq::empty() }
                        },
                    },
                    None => Seq::empty(),
                },
                None => Seq::empty(),
            }
        } else {
            Seq::empty()
        },
        None => Seq::empty(),
    }
}

/// The named methods among `kids`.
pub open spec fn method_sources(t: SyntaxTree, kids: Seq<int>) -> Seq<(int, int, int)>
    decreases kids.len(),
{
    if kids.len() == 0 {
        Seq::empty()
    } else {
        let r = method_sources(t, kids.drop_last());
        let c = kids.last();
        if (t.kind(c) == "method"@ || t.kind(c) == "singleton_method"@) && t.field_child(c, "name"@) is Some {
            r.push((1, c, 0))
        } else {
            r
        }
    }
}

/// A named class (0) and the methods of its body.
pub open spec fn class_sources(t: SyntaxTree, i: int) -> Seq<(int, int, int)> {
    if t.field_child(i, "name"@) is Some {
        seq![(0int, i, 0int)] + match t.field_child(i, "body"@) {
            Some(b) => method_sources(t, t.children(b)),
            None => Seq::empty(),
        }
    } else {
        Seq::empty()
    }
}

pub type RubyFound = (Seq<Seq<char>>, Seq<(int, int, int)>);

/// The walk from node `i`: calls read (not entered), classes and methods
/// recorded, other nodes walk their children.
pub open spec fn rbwalk(t: SyntaxTree, i: int, st: RubyFound) -> RubyFound
    decreases t.len() - i, 1int,
{
    if i < 0 || i >= t.len() {
        st
    } else {
        let k = t.kind(i);
        if k == "call"@ {
            (st.0 + ruby_require(t, i), st.1)
        } else if k == "class"@ {
            (st.0, st.1 + class_sources(t, i))
        } else if k == "method"@ || k == "singleton_method"@ {
            if t.field_child(i, "name"@) is Some { (st.0, st.1.push((1, i, 0))) } else { st }
        } else {
            rbwalk_from(t, i, i + 1, st)
        }
    }
}

pub open spec fn rbwalk_from(t: SyntaxTree, p: int, k: int, st: RubyFound) -> RubyFound
    decreases t.len() - k, 2int,
{
    if k <= p || k >= t.len() || t.depth(k) <= t.depth(p) {
        st
    } else if t.depth(k) == t.depth(p) + 1 {
        rbwalk_from(t, p, k + 1, rbwalk(t, k, st))
    } else {
        rbwalk_from(t, p, k + 1, st)
    }
}

pub open spec fn ruby_found(t: SyntaxTree) -> RubyFound {
    if t.len() > 0 { rbwalk(t, 0, (Seq::empty(), Seq::empty())) } else { (Seq::empty(), Seq::empty()) }
}

/// The `#` comments right before sibling `s` and `s` itself, in source
/// order.
pub open spec fn rb_comments_back(t: SyntaxTree, s: int) -> Seq<Seq<char>>
    decreases s + 1,
{
    if s < 0 || s >= t.len() {
        Seq::empty()
    } else {
        let before = match t.prev_sibling(s) {
            Some(p) => if 0 <= p < s { rb_comments_back(t, p) } else { Seq::empty() },
            None => Seq::empty(),
        };
        if t.kind(s) == "comment"@ {
            if starts_with(t.text(s), "#"@) { before.push(t.text(s)) } else { Seq::empty() }
        } else if t.nodes@[s].extra {
            before
        } else {
            Seq::empty()
        }
    }
}

/// The doc comment of `i`: its comment lines joined.
pub open spec fn ruby_doc(t: SyntaxTree, i: int) -> Option<Seq<char>> {
    let cs = match t.prev_sibling(i) {
        Some(s) => rb_comments_back(t, s),
        None => Seq::empty(),
    };
    if cs.len() > 0 { Some(join(cs, "\n"@)) } else { None }
}

/// `s` is the signature recorded from `src`.
pub open spec fn ruby_sig(s: Signature, t: SyntaxTree, src: (int, int, int)) -> bool {
    let (tag, i, _j) = src;
    let doc = ruby_doc(t, i);
    &&& s.kind@ == (if tag == 0 { "class"@ } else { "method"@ })
    &&& s.name@ == t.field_text(i, "name"@)
    &&& s.modifiers@.len() == 0
    &&& s.line == line_of(t.nodes@[i].row)
    &&& s.has_docstring == doc is Some
    &&& opt_view(s.docstring_text) == doc
    &&& s.existing_word_count == 0
    &&& s.params is None
    &&& s.return_type is None
    &&& s.throws@.len() == 0
    &&& s.extends is None
    &&& s.implements@.len() == 0
    &&& s.annotations@.len() == 0
}

/// `r` is what the Ruby parser gives for the tree `t`.
pub open spec fn ruby_result(r: ParseResult, t: SyntaxTree) -> bool {
    let f = ruby_found(t);
    &&& r.package is None
    &&& string_views(r.raw_imports@) == f.0
    &&& r.signatures@.len() == f.1.len()
    &&& forall|k: int| 0 <= k < f.1.len() ==> ruby_sig(#[trigger] r.signatures@[k], t, f.1[k])
    &&& r.documented == documented_count(r.signatures@)
    &&& r.documentable == r.signatures@.len()
}

// ─── running it ─────────────────────────────────────────────────────────────

fn ruby_require_exec(t: &SyntaxTree, i: usize, out: &mut Vec<String>)
    requires
        t.wf(),
        i < t.nodes@.len(),
    ensures
        string_views(final(out)@) == string_views(old(out)@) + ruby_require(*t, i as int),
{
    let ghost start = string_views(out@);
    assert(start + Seq::<Seq<char>>::empty() =~= start);
    let m = match t.field_child_index(i, "method") {
        Some(m) => m,
        None => return,
    };
    if !str_eq(t.nodes[m].text.as_str(), "require_relative") {
        return;
    }
    let a = match t.field_child_index(i, "arguments") {
        Some(a) => a,
        None => return,
    };
    let s = match t.first_child_kind2(a, "string", "string") {
        Some(s) => s,
        None => return,
    };
    match t.first_child_kind2(s, "string_content", "string_content") {
        Some(c) => {
            if !t.nodes[c].text.as_str().is_empty() {
                out.push(t.nodes[c].text.clone());
                assert(string_views(out@) =~= start + seq![t.text(c as int)]);
            }
        },
        None => {
            let x = trim_char_exec(t.nodes[s].text.as_str(), '\'');
            let p = trim_char_exec(x.as_str(), '"');
            if !p.as_str().is_empty() {
                let ghost pv = p@;
                out.push(p);
                assert(string_views(out@) =~= start + seq![pv]);
            }
        },
    }
}

pub open spec fn triples(v: Seq<(usize, usize, usize)>) -> Seq<(int, int, int)> {
    v.map_values(|x: (usize, usize, usize)| (x.0 as int, x.1 as int, x.2 as int))
}

pub open spec fn in_tree(v: Seq<(usize, usize, usize)>, t: SyntaxTree) -> bool {
    forall|k: int| 0 <= k < v.len() ==> (#[trigger] v[k]).1 < t.nodes@.len()
}

fn method_sources_exec(t: &SyntaxTree, c: usize, out: &mut Vec<(usize, usize, usize)>)
    requires
        t.wf(),
        c < t.nodes@.len(),
        in_tree(old(out)@, *t),
    ensures
        triples(final(out)@) == triples(old(out)@) + method_sources(*t, t.children(c as int)),
        in_tree(final(out)@, *t),
{
    let kids = t.child_indices(c);
    let ghost ks = t.children(c as int);
    let ghost start = triples(out@);
    let mut j: usize = 0;
    while j < kids.len()
        invariant
            t.wf(),
            as_ints(kids@) == ks,
            forall|k: int| 0 <= k < kids@.len() ==> c < #[trigger] kids@[k] < t.nodes@.len(),
            j <= kids@.len(),
            triples(out@) == start + method_sources(*t, ks.take(j as int)),
            in_tree(out@, *t),
        decreases kids.len() - j,
    {
        let x = kids[j];
        assert(ks.take(j + 1).drop_last() =~= ks.take(j as int));
        assert(ks.take(j + 1).last() == x as int);
        let ghost before = triples(out@);
        let k = t.nodes[x].kind.as_str();
        if (str_eq(k, "method") || str_eq(k, "singleton_method")) && t.field_child_index(x, "name").is_some() {
            out.push((1, x, 0));
            assert(triples(out@) =~= before.push((1, x as int, 0)));
            assert(start + method_sources(*t, ks.take(j + 1)) =~= before.push((1, x as int, 0)));
        }
        j += 1;
    }
    assert(ks.take(kids@.len() as int) =~= ks);
}

fn class_sources_exec(t: &SyntaxTree, i: usize, out: &mut Vec<(usize, usize, usize)>)
    requires
        t.wf(),
        i < t.nodes@.len(),
        in_tree(old(out)@, *t),
    ensures
        triples(final(out)@) == triples(old(out)@) + class_sources(*t, i as int),
        in_tree(final(out)@, *t),
{
    let ghost start = triples(out@);
    if t.field_child_index(i, "name").is_some() {
        out.push((0, i, 0));
        let ghost mid = triples(out@);
        assert(mid =~= start.push((0, i as int, 0)));
        match t.field_child_index(i, "body") {
            Some(b) => {
                method_sources_exec(t, b, out);
                assert(start + (seq![(0int, i as int, 0int)] + method_sources(*t, t.children(b as int)))
                    =~= mid + method_sources(*t, t.children(b as int)));
            },
            None => {
                assert(start + (seq![(0int, i as int, 0int)] + Seq::<(int, int, int)>::empty()) =~= mid);
            },
        }
    } else {
        assert(start + Seq::<(int, int, int)>::empty() =~= start);
    }
}

pub struct RubyState {
    pub imports: Vec<String>,
    pub sources: Vec<(usize, usize, usize)>,
}

pub open spec fn rbstate(s: RubyState) -> RubyFound {
    (string_views(s.imports@), triples(s.sources@))
}

fn rbwalk_exec(t: &SyntaxTree, i: usize, st: &mut RubyState)
    requires
        t.wf(),
        i < t.nodes@.len(),
        in_tree(old(st).sources@, *t),
    ensures
        rbstate(*final(st)) == rbwalk(*t, i as int, rbstate(*old(st))),
        in_tree(final(st).sources@, *t),
    decreases t.nodes@.len() - i, 1int,
{
    let k = t.nodes[i].kind.as_str();
    if str_eq(k, "call") {
        ruby_require_exec(t, i, &mut st.imports);
    } else if str_eq(k, "class") {
        class_sources_exec(t, i, &mut st.sources);
    } else if str_eq(k, "method") || str_eq(k, "singleton_method") {
        if t.field_child_index(i, "name").is_some() {
            let ghost before = triples(st.sources@);
            st.sources.push((1, i, 0));
            assert(triples(st.sources@) =~= before.push((1, i as int, 0)));
        }
    } else {
        rbwalk_children(t, i, st);
    }
}

fn rbwalk_children(t: &SyntaxTree, p: usize, st: &mut RubyState)
    requires
        t.wf(),
        p < t.nodes@.len(),
        in_tree(old(st).sources@, *t),
    ensures
        rbstate(*final(st)) == rbwalk_from(*t, p as int, p as int + 1, rbstate(*old(st))),
        in_tree(final(st).sources@, *t),
    decreases t.nodes@.len() - p, 0int,
{
    let n = t.nodes.len();
    let mut k: usize = p + 1;
    while k < t.nodes.len() && t.nodes[k].depth > t.nodes[p].depth
        invariant
            t.wf(),
            n == t.nodes@.len(),
            p < k <= t.nodes@.len(),
            in_tree(st.sources@, *t),
            rbwalk_from(*t, p as int, p as int + 1, rbstate(*old(st))) == rbwalk_from(*t, p as int, k as int, rbstate(*st)),
        decreases t.nodes.len() - k,
    {
        if t.nodes[k].depth == t.nodes[p].depth + 1 {
            rbwalk_exec(t, k, st);
        }
        k += 1;
    }
}

fn rb_comments_back_exec(t: &SyntaxTree, s: usize) -> (r: Vec<String>)
    requires
        t.wf(),
        s < t.nodes@.len(),
    ensures
        string_views(r@) == rb_comments_back(*t, s as int),
    decreases s,
{
    let k = t.nodes[s].kind.as_str();
    let is_comment = str_eq(k, "comment");
    let keep = if is_comment {
        let cs = chars_of(t.nodes[s].text.as_str());
        starts_with_str(cs.as_slice(), "#")
    } else {
        t.nodes[s].extra
    };
    if !keep {
        let v: Vec<String> = Vec::new();
        assert(string_views(v@) =~= Seq::<Seq<char>>::empty());
        return v;
    }
    let mut before = match t.prev_sibling_index(s) {
        Some(p) => rb_comments_back_exec(t, p),
        None => {
            let v: Vec<String> = Vec::new();
            assert(string_views(v@) =~= Seq::<Seq<char>>::empty());
            v
        },
    };
    if is_comment {
        let ghost b = string_views(before@);
        before.push(t.nodes[s].text.clone());
        assert(string_views(before@) =~= b.push(t.text(s as int)));
    }
    before
}

fn ruby_doc_exec(t: &SyntaxTree, i: usize) -> (r: Option<String>)
    requires
        t.wf(),
        i < t.nodes@.len(),
    ensures
        opt_view(r) == ruby_doc(*t, i as int),
{
    let parts = match t.prev_sibling_index(i) {
        Some(s) => rb_comments_back_exec(t, s),
        None => {
            let v: Vec<String> = Vec::new();
            assert(string_views(v@) =~= Seq::<Seq<char>>::empty());
            v
        },
    };
    if parts.len() > 0 {
        assert(string_views(parts@) =~= string_views(parts@));
        Some(join_strings(&parts, "\n"))
    } else {
        None
    }
}

fn ruby_signature(t: &SyntaxTree, src: (usize, usize, usize)) -> (r: Signature)
    requires
        t.wf(),
        src.1 < t.nodes@.len(),
    ensures
        ruby_sig(r, *t, (src.0 as int, src.1 as int, src.2 as int)),
{
    let (tag, i, _j) = src;
    let doc = ruby_doc_exec(t, i);
    let has_docstring = doc.is_some();
    Signature {
        kind: if tag == 0 { owned("class") } else { owned("method") },
        name: t.field_text_of(i, "name"),
        modifiers: Vec::new(),
        params: None,
        return_type: None,
        throws: Vec::new(),
        extends: None,
        implements: Vec::new(),
        annotations: Vec::new(),
        line: line_exec(t.nodes[i].row),
        has_docstring,
        existing_word_count: 0,
        docstring_text: doc,
    }
}

/// What the Ruby parser finds in the syntax tree `t` (see `ruby_result`).
pub fn ruby_extract(t: &SyntaxTree) -> (r: ParseResult)
    requires
        t.wf(),
    ensures
        ruby_result(r, *t),
{
    let mut st = RubyState { imports: Vec::new(), sources: Vec::new() };
    proof {
        assert(string_views(st.imports@) =~= Seq::<Seq<char>>::empty());
        assert(triples(st.sources@) =~= Seq::<(int, int, int)>::empty());
    }
    if t.nodes.len() > 0 {
        rbwalk_exec(t, 0, &mut st);
    }
    let ghost f = ruby_found(*t);
    let mut sigs: Vec<Signature> = Vec::new();
    let mut k: usize = 0;
    while k < st.sources.len()
        invariant
            t.wf(),
            in_tree(st.sources@, *t),
            rbstate(st) == f,
            k <= st.sources@.len(),
            sigs@.len() == k,
            forall|x: int| 0 <= x < k ==> ruby_sig(#[trigger] sigs@[x], *t, f.1[x]),
        decreases st.sources.len() - k,
    {
        let src = st.sources[k];
        assert(f.1[k as int] == (src.0 as int, src.1 as int, src.2 as int));
        sigs.push(ruby_signature(t, src));
        k += 1;
    }
    let documented = count_documented(&sigs);
    let documentable = sigs.len();
    ParseResult { raw_imports: st.imports, signatures: sigs, package: None, documented, documentable }
}

} // verus!
