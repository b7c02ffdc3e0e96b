//! The JavaScript parser: relative `import`s and `require(..)` calls,
//! classes, functions and methods, each marked by whether a JSDoc comment
//! stands before it.

use vstd::prelude::*;
use crate::syntax::{parsed_from, Grammar, SyntaxTree, parse_syntax, as_ints};
use crate::text::str_eq;
use crate::text::string_views;
use crate::parsers::ParseResult;
use crate::parsers::script::{ScriptFound, ScriptState, script_state, script_result, in_tree, triples,
    import_source, class_sources, relative_path, import_source_exec, class_sources_exec, relative_path_exec,
    empty_state, script_finish};

verus! {

pub struct JavaScriptParser;

impl JavaScriptParser {
    pub fn new() -> (r: Self) {
        JavaScriptParser
    }

    /// Parses JavaScript source: see `javascript_extract`.
    pub fn parse(&self, source: &str) -> (r: ParseResult)
        ensures
            exists|t: SyntaxTree| parsed_from(t, Grammar::JavaScript, source@) && #[trigger] script_result(r, t, js_found(t), false),
    {
        let t = parse_syntax(Grammar::JavaScript, source);
        javascript_extract(&t)
    }
}

/// The relative paths among the string arguments `kids`.
pub open spec fn require_paths(t: SyntaxTree, kids: Seq<int>) -> Seq<Seq<char>>
    decreases kids.len(),
{
    if kids.len() == 0 {
        Seq::empty()
    } else {
        let r = require_paths(t, kids.drop_last());
        let c = kids.last();
        if t.kind(c) == "string"@ {
            match relative_path(t.text(c)) {
                Some(p) => r.push(p),
                None => r,
            }
        } else {
            r
        }
    }
}

/// The paths a call at `i` requires: where the called function is
/// `require`, its relative string arguments.
pub open spec fn js_require(t: SyntaxTree, i: int) -> Seq<Seq<char>> {
    match t.field_child(i, "function"@) {
        Some(f) => if t.text(f) == "require"@ {
            match t.field_child(i, "arguments"@) {
                Some(a) => require_paths(t, t.children(a)),
                None => Seq::empty(),
            }
        } else {
            Seq::empty()
        },
        None => Seq::empty(),
    }
}

/// One child `c` of the export statement `p`: an exported class or function.
pub open spec fn js_export_child(t: SyntaxTree, p: int, c: int, st: ScriptFound) -> ScriptFound {
    let k = t.kind(c);
    if k == "class_declaration"@ {
        (st.0, st.1 + class_sources(t, c, 1, p))
    } else if k == "function_declaration"@ {
        (st.0, st.1.push((3, c, p)))
    } else {
        st
    }
}

pub open spec fn js_export(t: SyntaxTree, p: int, kids: Seq<int>, st: ScriptFound) -> ScriptFound
    decreases kids.len(),
{
    if kids.len() == 0 {
        st
    } else {
        js_export_child(t, p, kids.last(), js_export(t, p, kids.drop_last(), st))
    }
}

/// The walk from node `i`: imports and `require` calls read (a call's
/// children walked as well), exports read, classes and functions recorded
/// (not entered), other nodes walk their children.
pub open spec fn jswalk(t: SyntaxTree, i: int, st: ScriptFound) -> ScriptFound
    decreases t.len() - i, 1int,
{
    if i < 0 || i >= t.len() {
        st
    } else {
        let k = t.kind(i);
        if k == "import_statement"@ {
            (st.0 + import_source(t, i), st.1)
        } else if k == "call_expression"@ {
            jswalk_from(t, i, i + 1, (st.0 + js_require(t, i), st.1))
        } else if k == "export_statement"@ {
            js_export(t, i, t.children(i), st)
        } else if k == "class_declaration"@ {
            (st.0, st.1 + class_sources(t, i, 0, i))
        } else if k == "function_declaration"@ {
            (st.0, st.1.push((2, i, i)))
        } else {
            jswalk_from(t, i, i + 1, st)
        }
    }
}

pub open spec fn jswalk_from(t: SyntaxTree, p: int, k: int, st: ScriptFound) -> ScriptFound
    decreases t.len() - k, 2int,
{
    if k <= p || k >= t.len() || t.depth(k) <= t.depth(p) {
        st
    } else if t.depth(k) == t.depth(p) + 1 {
        jswalk_from(t, p, k + 1, jswalk(t, k, st))
    } else {
        jswalk_from(t, p, k + 1, st)
    }
}

pub open spec fn js_found(t: SyntaxTree) -> ScriptFound {
    if t.len() > 0 { jswalk(t, 0, (Seq::empty(), Seq::empty())) } else { (Seq::empty(), Seq::empty()) }
}

// ─── running it ─────────────────────────────────────────────────────────────

fn js_require_exec(t: &SyntaxTree, i: usize, out: &mut Vec<String>)
    requires
        t.wf(),
        i < t.nodes@.len(),
    ensures
        string_views(final(out)@) == string_views(old(out)@) + js_require(*t, i as int),
{
    let ghost start = string_views(out@);
    assert(start + Seq::<Seq<char>>::empty() =~= start);
    let f = match t.field_child_index(i, "function") {
        Some(f) => f,
        None => return,
    };
    if !str_eq(t.nodes[f].text.as_str(), "require") {
        return;
    }
    let a = match t.field_child_index(i, "arguments") {
        Some(a) => a,
        None => return,
    };
    let kids = t.child_indices(a);
    let ghost ks = t.children(a as int);
    let mut j: usize = 0;
    while j < kids.len()
        invariant
            t.wf(),
            as_ints(kids@) == ks,
            forall|k: int| 0 <= k < kids@.len() ==> a < #[trigger] kids@[k] < t.nodes@.len(),
            j <= kids@.len(),
            string_views(out@) == start + require_paths(*t, ks.take(j as int)),
        decreases kids.len() - j,
    {
        let c = kids[j];
        assert(ks.take(j + 1).drop_last() =~= ks.take(j as int));
        assert(ks.take(j + 1).last() == c as int);
        let ghost before = string_views(out@);
        if str_eq(t.nodes[c].kind.as_str(), "string") {
            match relative_path_exec(t.nodes[c].text.as_str()) {
                Some(p) => {
                    let ghost pv = p@;
                    out.push(p);
                    assert(string_views(out@) =~= before.push(pv));
                },
                None => {},
            }
        }
        j += 1;
    }
    assert(ks.take(kids@.len() as int) =~= ks);
}

fn js_export_exec(t: &SyntaxTree, p: usize, st: &mut ScriptState)
    requires
        t.wf(),
        p < t.nodes@.len(),
        in_tree(old(st).sources@, *t),
    ensures
        script_state(*final(st)) == js_export(*t, p as int, t.children(p as int), script_state(*old(st))),
        in_tree(final(st).sources@, *t),
{
    let kids = t.child_indices(p);
    let ghost ks = t.children(p as int);
    let ghost start = script_state(*st);
    let mut j: usize = 0;
    while j < kids.len()
        invariant
            t.wf(),
            p < t.nodes@.len(),
            as_ints(kids@) == ks,
            forall|k: int| 0 <= k < kids@.len() ==> p < #[trigger] kids@[k] < t.nodes@.len(),
            j <= kids@.len(),
            script_state(*st) == js_export(*t, p as int, ks.take(j as int), start),
            in_tree(st.sources@, *t),
        decreases kids.len() - j,
    {
        let c = kids[j];
        assert(ks.take(j + 1).drop_last() =~= ks.take(j as int));
        assert(ks.take(j + 1).last() == c as int);
        let ghost before = script_state(*st);
        let k = t.nodes[c].kind.as_str();
        if str_eq(k, "class_declaration") {
            class_sources_exec(t, c, 1, p, &mut st.sources);
        } else if str_eq(k, "function_declaration") {
            st.sources.push((3, c, p));
            assert(triples(st.sources@) =~= before.1.push((3, c as int, p as int)));
        }
        j += 1;
    }
    assert(ks.take(kids@.len() as int) =~= ks);
}

fn jswalk_exec(t: &SyntaxTree, i: usize, st: &mut ScriptState)
    requires
        t.wf(),
        i < t.nodes@.len(),
        in_tree(old(st).sources@, *t),
    ensures
        script_state(*final(st)) == jswalk(*t, i as int, script_state(*old(st))),
        in_tree(final(st).sources@, *t),
    decreases t.nodes@.len() - i, 1int,
{
    let k = t.nodes[i].kind.as_str();
    if str_eq(k, "import_statement") {
        import_source_exec(t, i, &mut st.imports);
    } else if str_eq(k, "call_expression") {
        js_require_exec(t, i, &mut st.imports);
        jswalk_children(t, i, st);
    } else if str_eq(k, "export_statement") {
        js_export_exec(t, i, st);
    } else if str_eq(k, "class_declaration") {
        class_sources_exec(t, i, 0, i, &mut st.sources);
    } else if str_eq(k, "function_declaration") {
        let ghost before = triples(st.sources@);
        st.sources.push((2, i, i));
        assert(triples(st.sources@) =~= before.push((2, i as int, i as int)));
    } else {
        jswalk_children(t, i, st);
    }
}

fn jswalk_children(t: &SyntaxTree, p: usize, st: &mut ScriptState)
    requires
        t.wf(),
        p < t.nodes@.len(),
        in_tree(old(st).sources@, *t),
    ensures
        script_state(*final(st)) == jswalk_from(*t, p as int, p as int + 1, script_state(*old(st))),
        in_tree(final(st).sources@, *t),
    decreases t.nodes@.len() - p, 0int,
{
    let n = t.nodes.len();
    let mut k: usize = p + 1;
    while k < t.nodes.len() && t.nodes[k].depth > t.nodes[p].depth
        invariant
            t.wf(),
            n == t.nodes@.len(),
            p < k <= t.nodes@.len(),
            in_tree(st.sources@, *t),
            jswalk_from(*t, p as int, p as int + 1, script_state(*old(st)))
                == jswalk_from(*t, p as int, k as int, script_state(*st)),
        decreases t.nodes.len() - k,
    {
        if t.nodes[k].depth == t.nodes[p].depth + 1 {
            jswalk_exec(t, k, st);
        }
        k += 1;
    }
}

/// What the JavaScript parser finds in the syntax tree `t`: the walk's
/// findings; a signature records whether it has a JSDoc comment, not its
/// text.
pub fn javascript_extract(t: &SyntaxTree) -> (r: ParseResult)
    requires
        t.wf(),
    ensures
        script_result(r, *t, js_found(*t), false),
{
    let mut st = empty_state();
    if t.nodes.len() > 0 {
        jswalk_exec(t, 0, &mut st);
    }
    script_finish(t, st, false)
}

} // verus!
