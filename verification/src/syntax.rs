//! Syntax trees as the parsers read them: the nodes of a tree-sitter parse
//! in document order, each with its depth, and the ways to move about them.

use vstd::prelude::*;
use crate::text::{str_eq, owned, opt_view};

verus! {

broadcast use vstd::string::group_string_axioms;

/// The tree-sitter grammars the parsers use.
#[derive(Debug, Clone, Copy, PartialEq, Eq, Structural)]
pub enum Grammar {
    Java,
    TypeScript,
    Tsx,
    JavaScript,
    Go,
    Rust,
    CSharp,
    Cpp,
    Ruby,
}

#[verifier::external_type_specification]
#[verifier::external_body]
pub struct ExParser(tree_sitter::Parser);

#[verifier::external_type_specification]
#[verifier::external_body]
pub struct ExTree(tree_sitter::Tree);

#[verifier::external_type_specification]
#[verifier::external_body]
pub struct ExTreeCursor<'a>(tree_sitter::TreeCursor<'a>);

/// One node as the cursor shows it.
#[derive(Debug)]
pub struct RawNode {
    pub kind: String,
    /// The field name the node has in its parent, if any.
    pub field: Option<String>,
    /// The source text the node spans.
    pub text: String,
    /// Its first row (0-based).
    pub row: usize,
    /// Whether the grammar marks it as extra (comments).
    pub extra: bool,
}

/// One node of a syntax tree, with its depth below the root.
#[derive(Debug)]
pub struct SyntaxNode {
    pub kind: String,
    pub field: Option<String>,
    pub text: String,
    pub row: usize,
    pub extra: bool,
    pub depth: usize,
}

/// A syntax tree: its nodes in document order (each before its children).
#[derive(Debug)]
pub struct SyntaxTree {
    pub nodes: Vec<SyntaxNode>,
}

/// A node by its views: kind, field name, text, first row, extra.
pub type NodeView = (Seq<char>, Option<Seq<char>>, Seq<char>, usize, bool);

pub open spec fn raw_view(r: RawNode) -> NodeView {
    (r.kind@, opt_view(r.field), r.text@, r.row, r.extra)
}

pub open spec fn node_view(n: SyntaxNode) -> NodeView {
    (n.kind@, opt_view(n.field), n.text@, n.row, n.extra)
}

/// The grammar a parser has been set to, if any (`Parser::language`).
pub uninterp spec fn parser_grammar(p: tree_sitter::Parser) -> Option<Grammar>;

/// The grammar and the text that a tree was parsed from.
pub uninterp spec fn tree_origin(t: tree_sitter::Tree) -> (Grammar, Seq<char>);

/// The node of the tree that `source` parses to under grammar `g`, reached
/// from the root by the child positions `path` (children as a cursor visits
/// them), read as `cursor_node` reads it; `None` where there is no node.
pub uninterp spec fn syntax_node(g: Grammar, source: Seq<char>, path: Seq<int>) -> Option<NodeView>;

/// Whether tree-sitter accepts the grammar's language (its ABI version is
/// one this tree-sitter reads).
pub uninterp spec fn grammar_loads(g: Grammar) -> bool;

/// How many nodes that tree has (`Node::descendant_count` of its root).
pub uninterp spec fn syntax_node_count(g: Grammar, source: Seq<char>) -> usize;

/// The grammar and text of the tree a cursor walks.
pub uninterp spec fn cursor_origin(c: tree_sitter::TreeCursor) -> (Grammar, Seq<char>);

/// The child positions leading from the root to the cursor's node.
pub uninterp spec fn cursor_path(c: tree_sitter::TreeCursor) -> Seq<int>;

/// `tree_sitter::Parser::new`: a parser with no language.
#[verifier::external_body]
fn new_parser() -> (r: tree_sitter::Parser)
    ensures
        parser_grammar(r) is None,
{
    tree_sitter::Parser::new()
}

/// `Parser::set_language` with the grammar crate's `LANGUAGE` constant;
/// whether it was accepted (the language's ABI version is one this
/// tree-sitter reads). A refused language leaves the parser as it was.
#[verifier::external_body]
fn parser_set_grammar(p: &mut tree_sitter::Parser, g: Grammar) -> (r: bool)
    ensures
        r == grammar_loads(g),
        r ==> parser_grammar(*final(p)) == Some(g),
        !r ==> parser_grammar(*final(p)) == parser_grammar(*old(p)),
{
    let language = match g {
        Grammar::Java => tree_sitter_java::LANGUAGE,
        Grammar::TypeScript => tree_sitter_typescript::LANGUAGE_TYPESCRIPT,
        Grammar::Tsx => tree_sitter_typescript::LANGUAGE_TSX,
        Grammar::JavaScript => tree_sitter_javascript::LANGUAGE,
        Grammar::Go => tree_sitter_go::LANGUAGE,
        Grammar::Rust => tree_sitter_rust::LANGUAGE,
        Grammar::CSharp => tree_sitter_c_sharp::LANGUAGE,
        Grammar::Cpp => tree_sitter_cpp::LANGUAGE,
        Grammar::Ruby => tree_sitter_ruby::LANGUAGE,
    };
    p.set_language(&language.into()).is_ok()
}

/// `Parser::parse` of a whole text: the tree of `source` under the parser's
/// language, none without a language (no timeout or cancellation flag is
/// ever set here); the language stays set.
#[verifier::external_body]
fn parser_parse(p: &mut tree_sitter::Parser, source: &str) -> (r: Option<tree_sitter::Tree>)
    ensures
        parser_grammar(*final(p)) == parser_grammar(*old(p)),
        r is Some <==> parser_grammar(*old(p)) is Some,
        r matches Some(t) ==> parser_grammar(*old(p)) matches Some(g) && tree_origin(t) == (g, source@),
{
    p.parse(source, None)
}

/// `Node::descendant_count` of the root: the number of nodes in the tree,
/// the root counted, the nodes being those a cursor visits. So a walk from
/// the root in document order that has visited that many nodes is at the
/// last node.
#[verifier::external_body]
fn tree_node_count(t: &tree_sitter::Tree) -> (r: usize)
    ensures
        r == syntax_node_count(tree_origin(*t).0, tree_origin(*t).1),
        r >= 1,
        forall|paths: Seq<Seq<int>>| #[trigger] in_document_order(tree_origin(*t).0, tree_origin(*t).1, paths)
            && paths.len() == r ==> last_in_order(tree_origin(*t).0, tree_origin(*t).1, paths.last()),
{
    t.root_node().descendant_count()
}

/// `Tree::walk`: a cursor on the root.
#[verifier::external_body]
fn tree_walk<'a>(t: &'a tree_sitter::Tree) -> (r: tree_sitter::TreeCursor<'a>)
    ensures
        cursor_origin(r) == tree_origin(*t),
        cursor_path(r) == Seq::<int>::empty(),
{
    t.walk()
}

/// `TreeCursor::goto_first_child`: moves to the first child, where there is
/// one.
#[verifier::external_body]
fn cursor_first_child(c: &mut tree_sitter::TreeCursor) -> (r: bool)
    ensures
        cursor_origin(*final(c)) == cursor_origin(*old(c)),
        r == (syntax_node(cursor_origin(*old(c)).0, cursor_origin(*old(c)).1, cursor_path(*old(c)).push(0)) is Some),
        cursor_path(*final(c)) == if r { cursor_path(*old(c)).push(0) } else { cursor_path(*old(c)) },
{
    c.goto_first_child()
}

/// The path of the next sibling of the node at `p` (the root has none).
pub open spec fn next_sibling_path(p: Seq<int>) -> Seq<int> {
    if p.len() > 0 { p.drop_last().push(p.last() + 1) } else { p }
}

/// `TreeCursor::goto_next_sibling`: moves to the next sibling, where there
/// is one.
#[verifier::external_body]
fn cursor_next_sibling(c: &mut tree_sitter::TreeCursor) -> (r: bool)
    ensures
        cursor_origin(*final(c)) == cursor_origin(*old(c)),
        r == (cursor_path(*old(c)).len() > 0 && syntax_node(
            cursor_origin(*old(c)).0,
            cursor_origin(*old(c)).1,
            next_sibling_path(cursor_path(*old(c))),
        ) is Some),
        cursor_path(*final(c)) == if r { next_sibling_path(cursor_path(*old(c))) } else { cursor_path(*old(c)) },
{
    c.goto_next_sibling()
}

/// `TreeCursor::goto_parent`: moves to the parent, unless on the root.
#[verifier::external_body]
fn cursor_parent(c: &mut tree_sitter::TreeCursor) -> (r: bool)
    ensures
        cursor_origin(*final(c)) == cursor_origin(*old(c)),
        r == (cursor_path(*old(c)).len() > 0),
        cursor_path(*final(c)) == if r { cursor_path(*old(c)).drop_last() } else { cursor_path(*old(c)) },
{
    c.goto_parent()
}

/// `TreeCursor::node`, converted: its kind, field name, text (empty where
/// the span is not UTF-8), first row and whether it is extra: the node the
/// cursor is on. The text is read from `source`, which must be the text the
/// tree was parsed from (`Node::utf8_text` slices it by the node's span).
#[verifier::external_body]
fn cursor_node(c: &tree_sitter::TreeCursor, source: &str) -> (r: RawNode)
    requires
        source@ == cursor_origin(*c).1,
    ensures
        syntax_node(cursor_origin(*c).0, cursor_origin(*c).1, cursor_path(*c)) == Some(raw_view(r)),
{
    let n = c.node();
    RawNode {
        kind: n.kind().to_string(),
        field: c.field_name().map(|f| f.to_string()),
        text: n.utf8_text(source.as_bytes()).unwrap_or("").to_string(),
        row: n.start_position().row,
        extra: n.is_extra(),
    }
}

impl SyntaxTree {
    /// The nodes come in document order: the root first at depth 0, every
    /// later node below it, and each at most one level below the one before.
    pub open spec fn wf(self) -> bool {
        &&& self.nodes@.len() > 0 ==> self.nodes@[0].depth == 0
        &&& forall|j: int| 0 < j < self.nodes@.len() ==> 1 <= (#[trigger] self.nodes@[j]).depth <= self.nodes@[j - 1].depth + 1
    }

    pub open spec fn len(self) -> int {
        self.nodes@.len() as int
    }

    pub open spec fn depth(self, i: int) -> int {
        self.nodes@[i].depth as int
    }

    pub open spec fn kind(self, i: int) -> Seq<char> {
        self.nodes@[i].kind@
    }

    pub open spec fn text(self, i: int) -> Seq<char> {
        self.nodes@[i].text@
    }

    /// The children of `i` found at positions `k` and after, in order.
    pub open spec fn kids_from(self, i: int, k: int) -> Seq<int>
        decreases self.len() - k,
    {
        if k <= i || k >= self.len() || self.depth(k) <= self.depth(i) {
            Seq::empty()
        } else if self.depth(k) == self.depth(i) + 1 {
            seq![k] + self.kids_from(i, k + 1)
        } else {
            self.kids_from(i, k + 1)
        }
    }

    /// The children of `i`, in order.
    pub open spec fn children(self, i: int) -> Seq<int> {
        self.kids_from(i, i + 1)
    }

    /// The first of `kids` whose field name is `f`.
    pub open spec fn first_with_field(self, kids: Seq<int>, f: Seq<char>) -> Option<int>
        decreases kids.len(),
    {
        if kids.len() == 0 {
            None
        } else if self.nodes@[kids[0]].field matches Some(x) && x@ == f {
            Some(kids[0])
        } else {
            self.first_with_field(kids.drop_first(), f)
        }
    }

    /// The child of `i` with field name `f` (`Node::child_by_field_name`).
    pub open spec fn field_child(self, i: int, f: Seq<char>) -> Option<int> {
        self.first_with_field(self.children(i), f)
    }

    /// The text of the child of `i` with field name `f`, or empty.
    pub open spec fn field_text(self, i: int, f: Seq<char>) -> Seq<char> {
        match self.field_child(i, f) {
            Some(c) => self.text(c),
            None => Seq::empty(),
        }
    }

    /// The first of `kids` whose kind satisfies `p`.
    pub open spec fn first_of_kind(self, kids: Seq<int>, p: spec_fn(Seq<char>) -> bool) -> Option<int>
        decreases kids.len(),
    {
        if kids.len() == 0 {
            None
        } else if p(self.kind(kids[0])) {
            Some(kids[0])
        } else {
            self.first_of_kind(kids.drop_first(), p)
        }
    }

    /// The sibling before `i`, looking back from position `k`.
    pub open spec fn prev_from(self, i: int, k: int) -> Option<int>
        decreases k + 1,
    {
        if k < 0 || k >= i {
            None
        } else if self.depth(k) < self.depth(i) {
            None
        } else if self.depth(k) == self.depth(i) {
            Some(k)
        } else {
            self.prev_from(i, k - 1)
        }
    }

    /// The sibling before `i` (`Node::prev_sibling`).
    pub open spec fn prev_sibling(self, i: int) -> Option<int> {
        self.prev_from(i, i - 1)
    }
}

pub open spec fn has_node(g: Grammar, s: Seq<char>, p: Seq<int>) -> bool {
    syntax_node(g, s, p) is Some
}

/// No node on the way from the node at `p` up to level `d` (the levels
/// below `d`) has a next sibling.
pub open spec fn closed_below(g: Grammar, s: Seq<char>, p: Seq<int>, d: int) -> bool {
    forall|m: int| d < m <= p.len() ==> !has_node(g, s, #[trigger] next_sibling_path(p.take(m)))
}

/// `q` comes right after `p` in document order: the first child of `p`
/// where it has one, else the next sibling of `p` or of its nearest
/// ancestor that has one.
pub open spec fn follows(g: Grammar, s: Seq<char>, p: Seq<int>, q: Seq<int>) -> bool {
    if has_node(g, s, p.push(0)) {
        q == p.push(0)
    } else {
        exists|k: int| 1 <= k <= p.len() && q == #[trigger] next_sibling_path(p.take(k)) && has_node(g, s, q)
            && closed_below(g, s, p, k)
    }
}

/// Nothing comes after `p` in document order.
pub open spec fn last_in_order(g: Grammar, s: Seq<char>, p: Seq<int>) -> bool {
    !has_node(g, s, p.push(0)) && closed_below(g, s, p, 0)
}

/// `paths` start at the root and each comes right after the one before in
/// document order.
pub open spec fn in_document_order(g: Grammar, s: Seq<char>, paths: Seq<Seq<int>>) -> bool {
    &&& paths.len() > 0
    &&& paths[0] == Seq::<int>::empty()
    &&& forall|j: int| 0 <= j < paths.len() - 1 ==> follows(g, s, #[trigger] paths[j], paths[j + 1])
}

/// `paths` are the places of the nodes of `t` in the parse of `s` under
/// `g`: the first is the root, each node is the one at its path (as long as
/// its depth), and each path follows the one before in document order.
pub open spec fn walked(t: SyntaxTree, g: Grammar, s: Seq<char>, paths: Seq<Seq<int>>) -> bool {
    &&& paths.len() == t.nodes@.len()
    &&& paths.len() > 0 ==> paths[0] == Seq::<int>::empty()
    &&& forall|j: int| 0 <= j < paths.len() ==> (#[trigger] paths[j]).len() == t.nodes@[j].depth
        && syntax_node(g, s, paths[j]) == Some(node_view(t.nodes@[j]))
    &&& forall|j: int| 0 <= j < paths.len() - 1 ==> follows(g, s, #[trigger] paths[j], paths[j + 1])
}

/// `t` is the tree that `s` parses to under `g`, its nodes in document
/// order from the root up to the last in that order.
pub open spec fn from_parse(t: SyntaxTree, g: Grammar, s: Seq<char>) -> bool {
    exists|paths: Seq<Seq<int>>| #[trigger] walked(t, g, s, paths) && paths.len() > 0
        && last_in_order(g, s, paths.last())
}

/// `t` is what `parse_syntax` gives for `s` under `g`.
pub open spec fn parsed_from(t: SyntaxTree, g: Grammar, s: Seq<char>) -> bool {
    &&& t.wf()
    &&& grammar_loads(g) <==> t.nodes@.len() > 0
    &&& grammar_loads(g) ==> from_parse(t, g, s)
}

/// The syntax tree of `source` under grammar `g`: its nodes in document
/// order with their depths. Empty where tree-sitter does not accept the
/// grammar.
pub fn parse_syntax(g: Grammar, source: &str) -> (r: SyntaxTree)
    ensures
        parsed_from(r, g, source@),
{
    let mut nodes: Vec<SyntaxNode> = Vec::new();
    let mut parser = new_parser();
    if !parser_set_grammar(&mut parser, g) {
        return SyntaxTree { nodes };
    }
    let tree = match parser_parse(&mut parser, source) {
        Some(t) => t,
        None => return SyntaxTree { nodes },
    };
    let count = tree_node_count(&tree);
    let mut cursor = tree_walk(&tree);
    let ghost src = source@;
    let ghost mut paths: Seq<Seq<int>> = Seq::empty();
    let ghost mut closed = false;
    let mut depth: usize = 0;
    while nodes.len() < count
        invariant_except_break
            nodes@.len() == 0 ==> depth == 0,
            nodes@.len() > 0 ==> 1 <= depth <= nodes@[nodes@.len() - 1].depth + 1,
            nodes@.len() > 0 ==> follows(g, src, paths.last(), cursor_path(cursor)),
            !closed,
        invariant
            src == source@,
            count == syntax_node_count(g, src),
            count >= 1,
            cursor_origin(cursor) == (g, src),
            cursor_path(cursor).len() == depth,
            nodes@.len() == 0 ==> cursor_path(cursor) == Seq::<int>::empty(),
            nodes@.len() <= count,
            nodes@.len() > 0 ==> nodes@[0].depth == 0,
            forall|j: int| 0 < j < nodes@.len() ==> 1 <= (#[trigger] nodes@[j]).depth <= nodes@[j - 1].depth + 1,
            forall|j: int| 0 <= j < nodes@.len() ==> (#[trigger] nodes@[j]).depth <= j,
            depth <= nodes@.len(),
            walked(SyntaxTree { nodes }, g, src, paths),
            closed ==> nodes@.len() > 0 && last_in_order(g, src, paths.last()),
        ensures
            nodes@.len() > 0,
            walked(SyntaxTree { nodes }, g, src, paths),
            nodes@.len() == count || (closed && last_in_order(g, src, paths.last())),
        decreases count - nodes.len(),
    {
        let raw = cursor_node(&cursor, source);
        let ghost here = cursor_path(cursor);
        let ghost before = nodes@;
        nodes.push(SyntaxNode {
            kind: raw.kind,
            field: raw.field,
            text: raw.text,
            row: raw.row,
            extra: raw.extra,
            depth,
        });
        proof {
            paths = paths.push(here);
            assert(node_view(nodes@[nodes@.len() - 1]) == raw_view(raw));
            assert forall|j: int| 0 <= j < paths.len() implies (#[trigger] paths[j]).len() == nodes@[j].depth
                && syntax_node(g, src, paths[j]) == Some(node_view(nodes@[j])) by {
                if j < before.len() {
                    assert(nodes@[j] == before[j]);
                }
            }
            assert(walked(SyntaxTree { nodes }, g, src, paths));
        }
        if cursor_first_child(&mut cursor) {
            depth = depth + 1;
        } else {
            // climb until a next sibling is found, or back at the root
            let ghost p = here;
            let mut found = false;
            while depth > 0 && !found
                invariant
                    p == paths.last(),
                    p.len() == nodes@[nodes@.len() - 1].depth,
                    nodes@.len() > 0,
                    depth <= p.len(),
                    cursor_origin(cursor) == (g, src),
                    !has_node(g, src, p.push(0)),
                    !found ==> cursor_path(cursor) == p.take(depth as int),
                    found ==> depth >= 1 && cursor_path(cursor) == next_sibling_path(p.take(depth as int))
                        && has_node(g, src, cursor_path(cursor)),
                    closed_below(g, src, p, depth as int),
                decreases depth, if found { 0int } else { 1int },
            {
                let ghost at = cursor_path(cursor);
                if cursor_next_sibling(&mut cursor) {
                    found = true;
                } else {
                    assert(p.take(depth as int).len() == depth);
                    let moved = cursor_parent(&mut cursor);
                    assert(moved);
                    assert(p.take(depth as int).drop_last() =~= p.take(depth - 1));
                    depth = depth - 1;
                }
            }
            if !found {
                proof {
                    closed = true;
                    assert(p.take(0) =~= Seq::<int>::empty());
                }
                break;
            }
            proof {
                assert(follows(g, src, p, cursor_path(cursor))) by {
                    let k = depth as int;
                    assert(cursor_path(cursor) == next_sibling_path(p.take(k)));
                }
                assert(next_sibling_path(p.take(depth as int)).len() == depth);
            }
        }
        proof {
            assert(cursor_path(cursor).len() == depth);
        }
    }
    let r = SyntaxTree { nodes };
    proof {
        assert(walked(r, g, src, paths));
        if !(closed && last_in_order(g, src, paths.last())) {
            assert(in_document_order(g, src, paths));
            assert(last_in_order(g, src, paths.last()));
        }
    }
    r
}

pub open spec fn as_ints(v: Seq<usize>) -> Seq<int> {
    v.map_values(|x: usize| x as int)
}

impl SyntaxTree {
    /// The children of node `i`, in order.
    pub fn child_indices(&self, i: usize) -> (r: Vec<usize>)
        requires
            i < self.nodes@.len(),
        ensures
            as_ints(r@) == self.children(i as int),
            forall|k: int| 0 <= k < r@.len() ==> i < #[trigger] r@[k] < self.nodes@.len(),
    {
        let mut r: Vec<usize> = Vec::new();
        let n = self.nodes.len();
        let mut k: usize = i + 1;
        while k < self.nodes.len() && self.nodes[k].depth > self.nodes[i].depth
            invariant
                i < k <= self.nodes@.len(),
                as_ints(r@) + self.kids_from(i as int, k as int) == self.children(i as int),
                forall|t: int| 0 <= t < r@.len() ==> i < #[trigger] r@[t] < self.nodes@.len(),
            decreases self.nodes.len() - k,
        {
            let ghost before = r@;
            if self.nodes[k].depth == self.nodes[i].depth + 1 {
                r.push(k);
                assert(as_ints(r@) =~= as_ints(before) + seq![k as int]);
                assert(as_ints(before) + (seq![k as int] + self.kids_from(i as int, k + 1)) =~= as_ints(r@)
                    + self.kids_from(i as int, k + 1));
            }
            k += 1;
        }
        assert(as_ints(r@) + Seq::<int>::empty() =~= as_ints(r@));
        r
    }

    /// The child of `i` with field name `f`.
    pub fn field_child_index(&self, i: usize, f: &str) -> (r: Option<usize>)
        requires
            i < self.nodes@.len(),
        ensures
            match r {
                Some(c) => self.field_child(i as int, f@) == Some(c as int) && i < c < self.nodes@.len(),
                None => self.field_child(i as int, f@) is None,
            },
    {
        let n = self.nodes.len();
        let mut k: usize = i + 1;
        while k < self.nodes.len() && self.nodes[k].depth > self.nodes[i].depth
            invariant
                i < k <= self.nodes@.len(),
                self.field_child(i as int, f@) == self.first_with_field(self.kids_from(i as int, k as int), f@),
            decreases self.nodes.len() - k,
        {
            if self.nodes[k].depth == self.nodes[i].depth + 1 {
                let ghost ks = self.kids_from(i as int, k as int);
                assert(ks[0] == k as int);
                assert(ks.drop_first() =~= self.kids_from(i as int, k + 1));
                match &self.nodes[k].field {
                    Some(x) => if str_eq(x.as_str(), f) {
                        return Some(k);
                    },
                    None => {},
                }
            }
            k += 1;
        }
        None
    }

    /// The text of the child of `i` with field name `f`, or empty.
    pub fn field_text_of(&self, i: usize, f: &str) -> (r: String)
        requires
            i < self.nodes@.len(),
        ensures
            r@ == self.field_text(i as int, f@),
    {
        match self.field_child_index(i, f) {
            Some(c) => self.nodes[c].text.clone(),
            None => String::new(),
        }
    }

    /// The sibling before `i`.
    pub fn prev_sibling_index(&self, i: usize) -> (r: Option<usize>)
        requires
            i < self.nodes@.len(),
        ensures
            match r {
                Some(p) => self.prev_sibling(i as int) == Some(p as int) && p < i,
                None => self.prev_sibling(i as int) is None,
            },
    {
        let mut k: usize = i;
        while k > 0
            invariant
                k <= i < self.nodes@.len(),
                self.prev_sibling(i as int) == self.prev_from(i as int, k - 1),
            decreases k,
        {
            let d = self.nodes[k - 1].depth;
            if d < self.nodes[i].depth {
                return None;
            }
            if d == self.nodes[i].depth {
                return Some(k - 1);
            }
            k -= 1;
        }
        None
    }
}
/// The first of `kids` whose kind is `a` or `b`.
pub open spec fn first_kind2(t: SyntaxTree, kids: Seq<int>, a: Seq<char>, b: Seq<char>) -> Option<int>
    decreases kids.len(),
{
    if kids.len() == 0 {
        None
    } else if t.kind(kids[0]) == a || t.kind(kids[0]) == b {
        Some(kids[0])
    } else {
        first_kind2(t, kids.drop_first(), a, b)
    }
}

impl SyntaxTree {
    /// The first child of `i` whose kind is `a` or `b`.
    pub fn first_child_kind2(&self, i: usize, a: &str, b: &str) -> (r: Option<usize>)
        requires
            i < self.nodes@.len(),
        ensures
            match r {
                Some(c) => first_kind2(*self, self.children(i as int), a@, b@) == Some(c as int) && i < c < self.nodes@.len(),
                None => first_kind2(*self, self.children(i as int), a@, b@) is None,
            },
    {
        let n = self.nodes.len();
        let mut k: usize = i + 1;
        while k < self.nodes.len() && self.nodes[k].depth > self.nodes[i].depth
            invariant
                n == self.nodes@.len(),
                i < k <= self.nodes@.len(),
                first_kind2(*self, self.children(i as int), a@, b@) == first_kind2(*self, self.kids_from(i as int, k as int), a@, b@),
            decreases self.nodes.len() - k,
        {
            if self.nodes[k].depth == self.nodes[i].depth + 1 {
                let ghost ks = self.kids_from(i as int, k as int);
                assert(ks[0] == k as int);
                assert(ks.drop_first() =~= self.kids_from(i as int, k + 1));
                let kk = self.nodes[k].kind.as_str();
                if str_eq(kk, a) || str_eq(kk, b) {
                    return Some(k);
                }
            }
            k += 1;
        }
        None
    }
}
} // verus!
