//! The TypeScript parser: relative imports (also re-exports), classes,
//! functions and methods, each with its JSDoc comment.

use vstd::prelude::*;
use crate::syntax::{parsed_from, Grammar, SyntaxTree, parse_syntax, as_ints};
use crate::text::str_eq;
use crate::parsers::ParseResult;
use crate::parsers::script::{ScriptFound, ScriptState, script_state, script_result, in_tree, triples,
    import_source, class_sources, import_source_exec, class_sources_exec, empty_state, script_finish};

verus! {

pub struct TypeScriptParser;

impl TypeScriptParser {
    pub fn new() -> (r: Self) {
        TypeScriptParser
    }

    /// Parses TypeScript source: see `typescript_extract`.
    pub fn parse(&self, source: &str) -> (r: ParseResult)
        ensures
            exists|t: SyntaxTree| parsed_from(t, Grammar::TypeScript, source@) && #[trigger] script_result(r, t, ts_found(t), true),
    {
        let t = parse_syntax(Grammar::TypeScript, source);
        typescript_extract(&t)
    }
}

pub open spec fn is_class_kind(k: Seq<char>) -> bool {
    k == "class_declaration"@ || k == "abstract_class_declaration"@
}

/// One child `c` of the export statement `p`: an exported class or function
/// (its JSDoc may stand before the export), or a re-export's source.
pub open spec fn ts_export_child(t: SyntaxTree, p: int, c: int, st: ScriptFound) -> ScriptFound {
    let k = t.kind(c);
    if is_class_kind(k) {
        (st.0, st.1 + class_sources(t, c, 1, p))
    } else if k == "function_declaration"@ {
        (st.0, st.1.push((3, c, p)))
    } else if k == "import_statement"@ {
        (st.0 + import_source(t, c), st.1)
    } else {
        st
    }
}

/// The children `kids` of the export statement `p`, in order.
pub open spec fn ts_export(t: SyntaxTree, p: int, kids: Seq<int>, st: ScriptFound) -> ScriptFound
    decreases kids.len(),
{
    if kids.len() == 0 {
        st
    } else {
        ts_export_child(t, p, kids.last(), ts_export(t, p, kids.drop_last(), st))
    }
}

/// The walk from node `i`: imports and exports read, classes and functions
/// recorded (not entered), other nodes walk their children.
pub open spec fn tswalk(t: SyntaxTree, i: int, st: ScriptFound) -> ScriptFound
    decreases t.len() - i, 1int,
{
    if i < 0 || i >= t.len() {
        st
    } else {
        let k = t.kind(i);
        if k == "import_statement"@ {
            (st.0 + import_source(t, i), st.1)
        } else if k == "export_statement"@ {
            ts_export(t, i, t.children(i), st)
        } else if is_class_kind(k) {
            (st.0, st.1 + class_sources(t, i, 0, i))
        } else if k == "function_declaration"@ {
            (st.0, st.1.push((2, i, i)))
        } else {
            tswalk_from(t, i, i + 1, st)
        }
    }
}

pub open spec fn tswalk_from(t: SyntaxTree, p: int, k: int, st: ScriptFound) -> ScriptFound
    decreases t.len() - k, 2int,
{
    if k <= p || k >= t.len() || t.depth(k) <= t.depth(p) {
        st
    } else if t.depth(k) == t.depth(p) + 1 {
        tswalk_from(t, p, k + 1, tswalk(t, k, st))
    } else {
        tswalk_from(t, p, k + 1, st)
    }
}

pub open spec fn ts_found(t: SyntaxTree) -> ScriptFound {
    if t.len() > 0 { tswalk(t, 0, (Seq::empty(), Seq::empty())) } else { (Seq::empty(), Seq::empty()) }
}

// ─── running it ─────────────────────────────────────────────────────────────

fn ts_export_exec(t: &SyntaxTree, p: usize, st: &mut ScriptState)
    requires
        t.wf(),
        p < t.nodes@.len(),
        in_tree(old(st).sources@, *t),
    ensures
        script_state(*final(st)) == ts_export(*t, p as int, t.children(p as int), script_state(*old(st))),
        in_tree(final(st).sources@, *t),
{
    let kids = t.child_indices(p);
    let ghost ks = t.children(p as int);
    let ghost start = script_state(*st);
    let mut j: usize = 0;
    while j < kids.len()
        invariant
            t.wf(),
            p < t.nodes@.len(),
            as_ints(kids@) == ks,
            forall|k: int| 0 <= k < kids@.len() ==> p < #[trigger] kids@[k] < t.nodes@.len(),
            j <= kids@.len(),
            script_state(*st) == ts_export(*t, p as int, ks.take(j as int), start),
            in_tree(st.sources@, *t),
        decreases kids.len() - j,
    {
        let c = kids[j];
        assert(ks.take(j + 1).drop_last() =~= ks.take(j as int));
        assert(ks.take(j + 1).last() == c as int);
        let ghost before = script_state(*st);
        let k = t.nodes[c].kind.as_str();
        if str_eq(k, "class_declaration") || str_eq(k, "abstract_class_declaration") {
            class_sources_exec(t, c, 1, p, &mut st.sources);
        } else if str_eq(k, "function_declaration") {
            st.sources.push((3, c, p));
            assert(triples(st.sources@) =~= before.1.push((3, c as int, p as int)));
        } else if str_eq(k, "import_statement") {
            import_source_exec(t, c, &mut st.imports);
        }
        j += 1;
    }
    assert(ks.take(kids@.len() as int) =~= ks);
}

fn tswalk_exec(t: &SyntaxTree, i: usize, st: &mut ScriptState)
    requires
        t.wf(),
        i < t.nodes@.len(),
        in_tree(old(st).sources@, *t),
    ensures
        script_state(*final(st)) == tswalk(*t, i as int, script_state(*old(st))),
        in_tree(final(st).sources@, *t),
    decreases t.nodes@.len() - i, 1int,
{
    let k = t.nodes[i].kind.as_str();
    if str_eq(k, "import_statement") {
        import_source_exec(t, i, &mut st.imports);
    } else if str_eq(k, "export_statement") {
        ts_export_exec(t, i, st);
    } else if str_eq(k, "class_declaration") || str_eq(k, "abstract_class_declaration") {
        class_sources_exec(t, i, 0, i, &mut st.sources);
    } else if str_eq(k, "function_declaration") {
        let ghost before = triples(st.sources@);
        st.sources.push((2, i, i));
        assert(triples(st.sources@) =~= before.push((2, i as int, i as int)));
    } else {
        tswalk_children(t, i, st);
    }
}

fn tswalk_children(t: &SyntaxTree, p: usize, st: &mut ScriptState)
    requires
        t.wf(),
        p < t.nodes@.len(),
        in_tree(old(st).sources@, *t),
    ensures
        script_state(*final(st)) == tswalk_from(*t, p as int, p as int + 1, script_state(*old(st))),
        in_tree(final(st).sources@, *t),
    decreases t.nodes@.len() - p, 0int,
{
    let n = t.nodes.len();
    let mut k: usize = p + 1;
    while k < t.nodes.len() && t.nodes[k].depth > t.nodes[p].depth
        invariant
            t.wf(),
            n == t.nodes@.len(),
            p < k <= t.nodes@.len(),
            in_tree(st.sources@, *t),
            tswalk_from(*t, p as int, p as int + 1, script_state(*old(st)))
                == tswalk_from(*t, p as int, k as int, script_state(*st)),
        decreases t.nodes.len() - k,
    {
        if t.nodes[k].depth == t.nodes[p].depth + 1 {
            tswalk_exec(t, k, st);
        }
        k += 1;
    }
}

/// What the TypeScript parser finds in the syntax tree `t`: the walk's
/// findings, each signature keeping its JSDoc text.
pub fn typescript_extract(t: &SyntaxTree) -> (r: ParseResult)
    requires
        t.wf(),
    ensures
        script_result(r, *t, ts_found(*t), true),
{
    let mut st = empty_state();
    if t.nodes.len() > 0 {
        tswalk_exec(t, 0, &mut st);
    }
    script_finish(t, st, true)
}

} // verus!
