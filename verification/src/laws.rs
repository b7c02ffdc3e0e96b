//! Properties that hold across the library's operations.

use vstd::prelude::*;
use crate::models::{CacheFile, Language, Signature};
use crate::lang::language_of_flag;
use crate::resolver::{build_index, index_step, resolved};
use crate::scanner::{all_measured, documented, measured};
use crate::commands::get::{reached_in_order, reaches};
use crate::commands::next::{
    Session, project_next, target_chain, selected, omitted, shown_part, shown, is_field, min_nat,
};
use crate::text::string_views;
use crate::envelope::{keys_ascending, unreserved, is_reserved, first_after, place, ok_entries, json_array};
use crate::text::{seq_lt, lemma_seq_lt_total, lemma_seq_lt_trans, lemma_seq_lt_irrefl, holds, strictly_sorted, lemma_sorted_same_members};
use crate::graph::DepGraph;
use crate::docstring::{clean_line, line_words, total_words};
use crate::text::{is_ws, word_count, trim, trim_start, trim_end, trim_start_matches, trim_end_matches, lemma_split_single};
use crate::resolver::python_module;
use crate::parsers::ParseResult;
use crate::parsers::java::{java_result, java_found, javadoc, javadoc_from};
use crate::syntax::SyntaxTree;
use crate::commands::next::{is_reverse_dep_kind, shown_implementers, deps_spec, MAX_REVERSE_DEPS};
use crate::models::{FileEntry, lookup};
use crate::pom::{XmlNode, property, xml_child, xml_text, resolve, is_reference, reference_name};
use crate::paths::extension_of;
use crate::docstring::{prose_words, lemma_total_words_concat};
use crate::text::{ends_with, starts_with, replace_char, split_on, lemma_split_concat, lemma_split_pieces, lemma_split_join, join};
use crate::resolver::{java_fqn, lemma_replace_concat, normalized, norm_parts, plain_component, lemma_norm_parts_plain, lemma_norm_parts_plain_fixed};

verus! {

broadcast use vstd::string::group_string_axioms;

// ─── languages ──────────────────────────────────────────────────────────────

/// The name a language is recorded under in the cache reads back as that
/// language, both as a cache name and as a `--lang` value.
pub proof fn language_names_round_trip(l: Language)
    ensures
        Language::spec_from_name(l.spec_name()) == Some(l),
        language_of_flag(l.spec_name()) == Some(l),
{
    reveal_strlit("java");
    assert("java"@.len() == 4 && "java"@[0] == 'j');
    reveal_strlit("python");
    assert("python"@.len() == 6 && "python"@[0] == 'p');
    reveal_strlit("typescript");
    assert("typescript"@.len() == 10 && "typescript"@[0] == 't');
    reveal_strlit("ts");
    assert("ts"@.len() == 2 && "ts"@[0] == 't');
    reveal_strlit("javascript");
    assert("javascript"@.len() == 10 && "javascript"@[0] == 'j');
    reveal_strlit("js");
    assert("js"@.len() == 2 && "js"@[0] == 'j');
    reveal_strlit("go");
    assert("go"@.len() == 2 && "go"@[0] == 'g');
    reveal_strlit("rust");
    assert("rust"@.len() == 4 && "rust"@[0] == 'r');
    reveal_strlit("csharp");
    assert("csharp"@.len() == 6 && "csharp"@[0] == 'c');
    reveal_strlit("cs");
    assert("cs"@.len() == 2 && "cs"@[0] == 'c');
    reveal_strlit("cpp");
    assert("cpp"@.len() == 3 && "cpp"@[0] == 'c');
    reveal_strlit("c++");
    assert("c++"@.len() == 3 && "c++"@[0] == 'c');
    reveal_strlit("ruby");
    assert("ruby"@.len() == 4 && "ruby"@[0] == 'r');
    assert("cpp"@[1] == 'p' && "c++"@[1] == '+');
    assert("rust"@[2] == 's' && "ruby"@[2] == 'b');
    match l {
        Language::Java => {},
        Language::Python => {},
        Language::TypeScript => {},
        Language::JavaScript => {},
        Language::Go => {},
        Language::Rust => {},
        Language::CSharp => {},
        Language::Cpp => {},
        Language::Ruby => {},
    }
}

// ─── resolving imports ──────────────────────────────────────────────────────

proof fn lemma_index_values(lang: Language, go: Option<Seq<char>>, paths: Seq<Seq<char>>)
    ensures
        forall|k: Seq<char>| #[trigger] build_index(lang, go, paths).contains_key(k)
            ==> paths.contains(build_index(lang, go, paths)[k]),
    decreases paths.len(),
{
    if paths.len() > 0 {
        let prev = paths.drop_last();
        lemma_index_values(lang, go, prev);
        let m = build_index(lang, go, prev);
        assert(build_index(lang, go, paths) == index_step(lang, go, m, paths.last()));
        assert forall|k: Seq<char>| #[trigger] build_index(lang, go, paths).contains_key(k)
            implies paths.contains(build_index(lang, go, paths)[k]) by {
            let v = build_index(lang, go, paths)[k];
            if m.contains_key(k) && v == m[k] {
                let j = choose|j: int| 0 <= j < prev.len() && prev[j] == v;
                assert(paths[j] == v);
            } else {
                assert(paths[paths.len() - 1] == v);
            }
        }
    }
}

/// An import only ever resolves to one of the project files the resolver
/// was built from.
pub proof fn resolves_to_project_file(
    lang: Language,
    go_module: Option<Seq<char>>,
    paths: Seq<Seq<char>>,
    raw: Seq<char>,
    importer_dir: Option<Seq<char>>,
)
    ensures
        resolved(build_index(lang, go_module, paths), raw, importer_dir) matches Some(p) ==> paths.contains(p),
{
    lemma_index_values(lang, go_module, paths);
}

// ─── measuring docstrings ───────────────────────────────────────────────────

/// With no minimum word count, measuring docstrings changes no signature's
/// documented flag, so the documented count stays what the parser found.
pub proof fn no_minimum_keeps_documentation(new: Seq<Signature>, old: Seq<Signature>)
    requires
        all_measured(new, old, 0),
    ensures
        forall|i: int| 0 <= i < old.len() ==> (#[trigger] new[i]).has_docstring == old[i].has_docstring,
        documented(new) == documented(old),
    decreases old.len(),
{
    assert forall|i: int| 0 <= i < old.len() implies (#[trigger] new[i]).has_docstring == old[i].has_docstring by {
        assert(measured(new[i], old[i], 0));
    }
    if old.len() > 0 {
        let (n, o) = (new.drop_last(), old.drop_last());
        assert forall|i: int| 0 <= i < o.len() implies measured(#[trigger] n[i], o[i], 0) by {
            assert(measured(new[i], old[i], 0));
        }
        no_minimum_keeps_documentation(n, o);
        assert(new[old.len() - 1].has_docstring == old[old.len() - 1].has_docstring);
    }
}

// ─── the signatures `next` shows of a dependency ────────────────────────────

proof fn lemma_shown_part(sigs: Seq<Signature>, refd: Option<Seq<String>>, fields: bool)
    ensures
        forall|i: int| 0 <= i < shown_part(sigs, refd, fields).len() ==>
            shown(#[trigger] shown_part(sigs, refd, fields)[i], refd)
            && is_field(shown_part(sigs, refd, fields)[i]) == fields,
    decreases sigs.len(),
{
    if sigs.len() > 0 {
        let rest = shown_part(sigs.drop_last(), refd, fields);
        lemma_shown_part(sigs.drop_last(), refd, fields);
        let all = shown_part(sigs, refd, fields);
        assert forall|i: int| 0 <= i < all.len() implies shown(#[trigger] all[i], refd) && is_field(all[i]) == fields by {
            if i < rest.len() {
                assert(all[i] == rest[i]);
            }
        }
    }
}

/// Of the fields of a dependency that are shown, at most `max` are kept
/// (after all its other shown signatures), and the kept and omitted fields
/// add up to all of them; with `max` zero no field is kept.
pub proof fn fields_capped(sigs: Seq<Signature>, refd: Option<Seq<String>>, max: nat)
    ensures
        ({
            let non_fields = shown_part(sigs, refd, false).len();
            let fields = shown_part(sigs, refd, true).len();
            &&& selected(sigs, refd, max).len() == non_fields + min_nat(max, fields)
            &&& min_nat(max, fields) + omitted(sigs, refd, max) == fields
            &&& forall|i: int| 0 <= i < selected(sigs, refd, max).len() ==>
                shown(#[trigger] selected(sigs, refd, max)[i], refd)
                && (is_field(selected(sigs, refd, max)[i]) <==> i >= non_fields)
        }),
        max == 0 ==> forall|i: int| 0 <= i < selected(sigs, refd, max).len() ==>
            !is_field(#[trigger] selected(sigs, refd, max)[i]),
{
    lemma_shown_part(sigs, refd, false);
    lemma_shown_part(sigs, refd, true);
    let nf = shown_part(sigs, refd, false);
    let f = shown_part(sigs, refd, true);
    let sel = selected(sigs, refd, max);
    assert forall|i: int| 0 <= i < sel.len() implies shown(#[trigger] sel[i], refd)
        && (is_field(sel[i]) <==> i >= nf.len()) by {
        if i < nf.len() {
            assert(sel[i] == nf[i]);
        } else {
            assert(sel[i] == f[i - nf.len()]);
        }
    }
}

// ─── the `get --chain` list and the targeted loop ───────────────────────────

/// The dependency chain of `start` is exactly the files of `order` that
/// `start` reaches through imports, in the order of `order`, `start` left out.
pub proof fn chain_is_reached_files_in_order(c: CacheFile, start: Seq<char>, order: Seq<Seq<char>>)
    ensures
        reached_in_order(c, start, order) == order.filter(|x: Seq<char>| reaches(c, start, x) && x != start),
    decreases order.len(),
{
    reveal(Seq::filter);
    if order.len() > 0 {
        chain_is_reached_files_in_order(c, start, order.drop_last());
    }
}

/// The chain a targeted session walks ends with the target, which appears
/// nowhere before; every file before it is one the target reaches, taken
/// from the cache's order.
pub proof fn targeted_chain_ends_with_target(c: CacheFile, target: Seq<char>)
    ensures
        target_chain(c, target).last() == target,
        forall|i: int| 0 <= i < target_chain(c, target).len() - 1 ==> {
            let x = #[trigger] target_chain(c, target)[i];
            &&& x != target
            &&& reaches(c, target, x)
            &&& string_views(c.order@).contains(x)
        },
{
    let order = string_views(c.order@);
    let pred = |x: Seq<char>| reaches(c, target, x) && x != target;
    chain_is_reached_files_in_order(c, target, order);
    let deps = order.filter(pred);
    assert forall|i: int| 0 <= i < target_chain(c, target).len() - 1 implies {
        let x = #[trigger] target_chain(c, target)[i];
        &&& x != target
        &&& reaches(c, target, x)
        &&& order.contains(x)
    } by {
        assert(target_chain(c, target)[i] == deps[i]);
        order.lemma_filter_pred(pred, i);
        lemma_filter_from(order, pred, i);
    }
}

proof fn lemma_filter_from(s: Seq<Seq<char>>, pred: spec_fn(Seq<char>) -> bool, i: int)
    requires
        0 <= i < s.filter(pred).len(),
    ensures
        s.contains(s.filter(pred)[i]),
    decreases s.len(),
{
    reveal(Seq::filter);
    if s.len() > 0 {
        let rest = s.drop_last().filter(pred);
        if i < rest.len() {
            lemma_filter_from(s.drop_last(), pred, i);
            let j = choose|j: int| 0 <= j < s.drop_last().len() && s.drop_last()[j] == rest[i];
            assert(s[j] == rest[i]);
        } else {
            assert(s[s.len() - 1] == s.filter(pred)[i]);
        }
    }
}

// ─── the success envelope ───────────────────────────────────────────────────

proof fn lemma_unreserved(es: Seq<(Seq<char>, Seq<char>)>, w: bool)
    ensures
        forall|i: int| 0 <= i < unreserved(es, w).len() ==> !is_reserved((#[trigger] unreserved(es, w)[i]).0, w)
            && es.contains(unreserved(es, w)[i]),
        forall|i: int| 0 <= i < es.len() && !is_reserved(es[i].0, w) ==> #[trigger] unreserved(es, w).contains(es[i]),
        keys_ascending(es) ==> keys_ascending(unreserved(es, w)),
    decreases es.len(),
{
    if es.len() > 0 {
        let d = es.drop_last();
        lemma_unreserved(d, w);
        let r = unreserved(d, w);
        let u = unreserved(es, w);
        assert forall|i: int| 0 <= i < u.len() implies !is_reserved(#[trigger] u[i].0, w) && es.contains(u[i]) by {
            if i < r.len() {
                assert(u[i] == r[i]);
                assert(!is_reserved(r[i].0, w) && d.contains(r[i]));
                let j = choose|j: int| 0 <= j < d.len() && d[j] == r[i];
                assert(es[j] == d[j]);
            } else {
                assert(u[i] == es[es.len() - 1]);
            }
        }
        assert forall|i: int| 0 <= i < es.len() && !is_reserved(es[i].0, w) implies #[trigger] u.contains(es[i]) by {
            if i < d.len() {
                assert(d[i] == es[i]);
                assert(r.contains(d[i]));
                let j = choose|j: int| 0 <= j < r.len() && r[j] == d[i];
                assert(u[j] == r[j]);
            } else {
                assert(u[u.len() - 1] == es[i]);
            }
        }
        if keys_ascending(es) {
            assert(keys_ascending(d)) by {
                assert forall|i: int, j: int| 0 <= i < j < d.len() implies seq_lt(#[trigger] d[i].0, #[trigger] d[j].0) by {
                    assert(seq_lt(es[i].0, es[j].0));
                }
            }
            assert forall|i: int, j: int| 0 <= i < j < u.len() implies seq_lt(#[trigger] u[i].0, #[trigger] u[j].0) by {
                if j < r.len() {
                    assert(u[i] == r[i] && u[j] == r[j]);
                } else {
                    assert(u[i] == r[i]);
                    assert(!is_reserved(r[i].0, w) && d.contains(r[i]));
                    let k = choose|k: int| 0 <= k < d.len() && d[k] == r[i];
                    assert(seq_lt(es[k].0, es[es.len() - 1].0));
                }
            }
        }
    }
}

proof fn lemma_first_after(es: Seq<(Seq<char>, Seq<char>)>, k: Seq<char>, i: int)
    requires
        0 <= i <= es.len(),
    ensures
        i <= first_after(es, k, i) <= es.len(),
        forall|j: int| i <= j < first_after(es, k, i) ==> !seq_lt(k, #[trigger] es[j].0),
        first_after(es, k, i) < es.len() ==> seq_lt(k, es[first_after(es, k, i)].0),
    decreases es.len() - i,
{
    if i < es.len() && !seq_lt(k, es[i].0) {
        lemma_first_after(es, k, i + 1);
    }
}

proof fn lemma_place(es: Seq<(Seq<char>, Seq<char>)>, k: Seq<char>, v: Seq<char>)
    requires
        forall|i: int| 0 <= i < es.len() ==> (#[trigger] es[i]).0 != k,
    ensures
        place(es, k, v).len() == es.len() + 1,
        forall|i: int| 0 <= i < place(es, k, v).len() ==> (#[trigger] place(es, k, v)[i] == (k, v)
            || es.contains(place(es, k, v)[i])),
        forall|i: int| 0 <= i < es.len() ==> #[trigger] place(es, k, v).contains(es[i]),
        place(es, k, v).contains((k, v)),
        keys_ascending(es) ==> keys_ascending(place(es, k, v)),
{
    lemma_first_after(es, k, 0);
    let p = first_after(es, k, 0);
    let out = place(es, k, v);
    assert(out[p] == (k, v));
    assert forall|i: int| 0 <= i < out.len() implies (#[trigger] out[i] == (k, v) || es.contains(out[i])) by {
        if i < p {
            assert(out[i] == es[i]);
        } else if i > p {
            assert(out[i] == es[i - 1]);
        }
    }
    assert forall|i: int| 0 <= i < es.len() implies #[trigger] out.contains(es[i]) by {
        if i < p {
            assert(out[i] == es[i]);
        } else {
            assert(out[i + 1] == es[i]);
        }
    }
    if keys_ascending(es) {
        assert forall|i: int, j: int| 0 <= i < j < out.len() implies seq_lt(#[trigger] out[i].0, #[trigger] out[j].0) by {
            if j < p {
                assert(out[i] == es[i] && out[j] == es[j]);
            } else if j == p {
                assert(out[i] == es[i]);
                lemma_seq_lt_total(es[i].0, k);
            } else if i > p {
                assert(out[i] == es[i - 1] && out[j] == es[j - 1]);
            } else if i == p {
                assert(out[j] == es[j - 1]);
                if j - 1 > p {
                    assert(seq_lt(es[p].0, es[j - 1].0));
                    lemma_seq_lt_trans(k, es[p].0, es[j - 1].0);
                }
            } else {
                assert(out[i] == es[i] && out[j] == es[j - 1]);
            }
        }
    }
}

/// A success envelope says `ok: true`, and any `ok` in it says so; where
/// warnings are given it holds them (their JSON array) under `warnings`,
/// replacing any such field; every other field of the command's output is
/// kept (a `warnings` field too, where no warnings are given) and nothing
/// else is added; and where the output's keys strictly ascend, as in a
/// serde_json map, so do the envelope's (so `ok` is there once).
pub proof fn success_envelope_shape(fields: Seq<(Seq<char>, Seq<char>)>, warnings: Option<Seq<Seq<char>>>)
    ensures
        ({
            let e = ok_entries(fields, warnings);
            let w = warnings is Some;
            &&& e.contains(("ok"@, "true"@))
            &&& forall|i: int| 0 <= i < e.len() && (#[trigger] e[i]).0 == "ok"@ ==> e[i].1 == "true"@
            &&& match warnings {
                Some(ws) => e.contains(("warnings"@, json_array(ws)))
                    && forall|i: int| 0 <= i < e.len() && (#[trigger] e[i]).0 == "warnings"@ ==> e[i].1 == json_array(ws),
                None => true,
            }
            &&& forall|i: int| 0 <= i < fields.len() && !is_reserved(fields[i].0, w) ==> e.contains(#[trigger] fields[i])
            &&& forall|i: int| 0 <= i < e.len() && !is_reserved((#[trigger] e[i]).0, w) ==> fields.contains(e[i])
            &&& keys_ascending(fields) ==> keys_ascending(e)
        }),
{
    reveal_strlit("ok");
    reveal_strlit("warnings");
    assert("ok"@ != "warnings"@) by {
        assert("ok"@.len() != "warnings"@.len());
    }
    let w = warnings is Some;
    lemma_unreserved(fields, w);
    let u = unreserved(fields, w);
    lemma_place(u, "ok"@, "true"@);
    let b = place(u, "ok"@, "true"@);
    let e = ok_entries(fields, warnings);
    // each entry of `b` is ("ok", "true") or a field the envelope keeps
    assert forall|i: int| 0 <= i < b.len() implies (#[trigger] b[i] == ("ok"@, "true"@))
        || (!is_reserved(b[i].0, w) && fields.contains(b[i])) by {
        if b[i] != ("ok"@, "true"@) {
            let j = choose|j: int| 0 <= j < u.len() && u[j] == b[i];
            assert(!is_reserved(u[j].0, w));
        }
    }
    match warnings {
        Some(ws) => {
            assert forall|i: int| 0 <= i < b.len() implies (#[trigger] b[i]).0 != "warnings"@ by {
                assert(b[i] == ("ok"@, "true"@) || !is_reserved(b[i].0, w));
            }
            lemma_place(b, "warnings"@, json_array(ws));
            assert forall|i: int| 0 <= i < e.len() implies (#[trigger] e[i] == ("warnings"@, json_array(ws)))
                || e[i] == ("ok"@, "true"@) || (!is_reserved(e[i].0, w) && fields.contains(e[i])) by {
                if e[i] != ("warnings"@, json_array(ws)) {
                    let j = choose|j: int| 0 <= j < b.len() && b[j] == e[i];
                    assert(b[j] == ("ok"@, "true"@) || (!is_reserved(b[j].0, w) && fields.contains(b[j])));
                }
            }
            assert forall|i: int| 0 <= i < fields.len() && !is_reserved(fields[i].0, w) implies e.contains(#[trigger] fields[i]) by {
                assert(u.contains(fields[i]));
                let j = choose|j: int| 0 <= j < u.len() && u[j] == fields[i];
                assert(b.contains(u[j]));
                let l = choose|l: int| 0 <= l < b.len() && b[l] == u[j];
                assert(e.contains(b[l]));
            }
            assert(e.contains(("ok"@, "true"@))) by {
                let j = choose|j: int| 0 <= j < b.len() && b[j] == ("ok"@, "true"@);
                assert(e.contains(b[j]));
            }
        },
        None => {
            assert forall|i: int| 0 <= i < fields.len() && !is_reserved(fields[i].0, w) implies e.contains(#[trigger] fields[i]) by {
                assert(u.contains(fields[i]));
                let j = choose|j: int| 0 <= j < u.len() && u[j] == fields[i];
                assert(b.contains(u[j]));
            }
        },
    }
}

// ─── the project loop ───────────────────────────────────────────────────────

/// In project mode the files are handed out in order: a fresh session (and
/// one left in targeted mode) starts at position 0, each call moves one
/// position on, and past the last file the loop is done.
pub proof fn project_loop_steps(session: Session, len: nat)
    ensures
        session.target is Some ==> project_next(session, len) == (if len > 0 { Some(0nat) } else { None }),
        session.target is None && session.cursor == -1 ==> project_next(session, len) == (if len > 0 {
            Some(0nat)
        } else {
            None
        }),
        session.target is None && session.cursor >= 0 ==> project_next(session, len) == (if session.cursor + 1 < len {
            Some((session.cursor + 1) as nat)
        } else {
            None
        }),
{
}

// ─── the dependency sort ────────────────────────────────────────────────────

/// Two graphs with the same nodes and the same edges, however they were
/// built, sort alike: the same order and the same edges given up.
pub proof fn equal_graphs_sort_alike(g1: DepGraph, g2: DepGraph)
    requires
        g1.wf(),
        g2.wf(),
        forall|s: Seq<char>| g1.has_node(s) <==> g2.has_node(s),
        forall|a: Seq<char>, b: Seq<char>| g1.has_edge(a, b) <==> g2.has_edge(a, b),
    ensures
        g1.topo_spec() == g2.topo_spec(),
{
    assert(strictly_sorted(g1.nodes@));
    assert(strictly_sorted(g2.nodes@));
    assert forall|x: Seq<char>| holds(g1.nodes@, x) <==> holds(g2.nodes@, x) by {
        assert(holds(g1.nodes@, x) == g1.has_node(x));
        assert(holds(g2.nodes@, x) == g2.has_node(x));
    }
    lemma_sorted_same_members(g1.nodes@, g2.nodes@);
    let n = g1.nodes@.len();
    assert(string_views(g1.nodes@).len() == string_views(g2.nodes@).len());
    assert forall|i: int| 0 <= i < n implies #[trigger] g1.nodes@[i]@ == g2.nodes@[i]@ by {
        assert(string_views(g1.nodes@)[i] == string_views(g2.nodes@)[i]);
    }
    assert forall|u: int| 0 <= u < n implies #[trigger] g1.dep_matrix()[u] =~= g2.dep_matrix()[u] by {}
    assert(g1.dep_matrix() =~= g2.dep_matrix());
    assert(g1.topo_spec().0 =~= g2.topo_spec().0);
    assert(g1.topo_spec().1 =~= g2.topo_spec().1);
}

// ─── doc comments ───────────────────────────────────────────────────────────

/// Each line of a doc comment is counted on its own: two texts joined by a
/// line break hold the prose words of both.
pub proof fn prose_words_add_up_over_lines(a: Seq<char>, b: Seq<char>)
    ensures
        prose_words(a + seq!['\n'] + b) == prose_words(a) + prose_words(b),
{
    lemma_split_concat(a, b, '\n');
    lemma_total_words_concat(split_on(a, '\n'), split_on(b, '\n'));
}

// ─── paths ──────────────────────────────────────────────────────────────────

/// A normalised path is empty or made of plain components (none empty,
/// `.` or `..`), and normalising it again changes nothing.
pub proof fn normalized_paths_are_stable(p: Seq<char>)
    ensures
        normalized(normalized(p)) == normalized(p),
        normalized(p).len() > 0 ==> forall|i: int| 0 <= i < split_on(normalized(p), '/').len()
            ==> plain_component(#[trigger] split_on(normalized(p), '/')[i]),
{
    reveal_strlit("/");
    assert("/"@ =~= seq!['/']);
    let cs = norm_parts(split_on(p, '/'));
    lemma_split_pieces(p, '/');
    lemma_norm_parts_plain(split_on(p, '/'));
    let n = normalized(p);
    assert(n == join(cs, seq!['/']));
    if cs.len() == 0 {
        reveal_strlit("..");
        reveal_strlit(".");
        assert(n =~= Seq::<char>::empty());
        assert(split_on(n, '/') =~= seq![Seq::<char>::empty()]);
        let e = seq![Seq::<char>::empty()];
        assert(e.drop_last() =~= Seq::<Seq<char>>::empty());
        assert(e.last() != ".."@);
        assert(norm_parts(e.drop_last()) =~= Seq::<Seq<char>>::empty());
        assert(norm_parts(e) =~= Seq::<Seq<char>>::empty());
        assert(split_on(n, '/') == e);
        assert(norm_parts(split_on(n, '/')) =~= Seq::<Seq<char>>::empty());
        assert(normalized(n) =~= n);
    } else {
        assert forall|i: int| 0 <= i < cs.len() implies !(#[trigger] cs[i]).contains('/') by {
            assert(plain_component(cs[i]));
        }
        lemma_split_join(cs, '/');
        lemma_norm_parts_plain_fixed(cs);
    }
}

/// Only Java files get a Java name; one under `src/main/java/` is named by
/// the rest of its path, dots for slashes and `.java` dropped: the longest
/// source root is stripped whole, not `src.` alone.
pub proof fn java_names_strip_the_longest_root(p: Seq<char>, q: Seq<char>)
    ensures
        java_fqn(p) is Some <==> extension_of(p) == Some("java"@),
        p == "src/main/java/"@ + q && ends_with(q, ".java"@) && extension_of(p) == Some("java"@)
            ==> java_fqn(p) == Some(replace_char(q.take(q.len() - 5), '/', "."@)),
{
    if p == "src/main/java/"@ + q && ends_with(q, ".java"@) && extension_of(p) == Some("java"@) {
        reveal_strlit("src/main/java/");
        reveal_strlit("src.main.java.");
        reveal_strlit(".java");
        reveal_strlit(".");
        let root = "src/main/java/"@;
        let q0 = q.take(q.len() - 5);
        assert(q =~= q0 + ".java"@);
        assert(replace_char(root, '/', "."@) =~= "src.main.java."@) by {
            reveal_with_fuel(replace_char, 15);
        }
        assert(replace_char(".java"@, '/', "."@) =~= ".java"@) by {
            reveal_with_fuel(replace_char, 6);
        }
        lemma_replace_concat(root, q, '/', "."@);
        lemma_replace_concat(q0, ".java"@, '/', "."@);
        let r0 = replace_char(q0, '/', "."@);
        let s = replace_char(p, '/', "."@);
        assert(replace_char(q, '/', "."@) == r0 + ".java"@);
        assert(s == replace_char(root, '/', "."@) + replace_char(q, '/', "."@));
        assert(s =~= "src.main.java."@ + r0 + ".java"@);
        assert(s.skip(s.len() - ".java"@.len()) =~= ".java"@);
        assert(ends_with(s, ".java"@));
        let s2 = s.take(s.len() - ".java"@.len());
        assert(s2 =~= "src.main.java."@ + r0);
        assert(s2.take("src.main.java."@.len() as int) =~= "src.main.java."@);
        assert(starts_with(s2, "src.main.java."@));
        assert(s2.skip("src.main.java."@.len() as int) =~= r0);
    }
}

// ─── prose words of a `//` comment ──────────────────────────────────────────

/// A `//` comment line holds just the words after the marker: the marker
/// itself is never counted as prose.
pub proof fn line_comment_marker_is_not_a_word(w: Seq<char>)
    requires
        w.len() > 0,
        !is_ws(w[0]),
        !is_ws(w.last()),
        w[0] != '@',
        !w.contains('\n'),
    ensures
        prose_words("// "@ + w) == word_count(w),
{
    reveal_strlit("// ");
    reveal_strlit("/**");
    reveal_strlit("*/");
    reveal_strlit("*");
    reveal_strlit("///");
    reveal_strlit("//");
    reveal_strlit("@");
    let s = "// "@ + w;
    assert(s[0] == '/' && s[1] == '/' && s[2] == ' ');
    assert(s.last() == w.last());
    assert(!is_ws('/'));
    // trimming leaves the line as it is
    assert(trim_start(s) == s);
    assert(trim_end(s) == s);
    assert(trim(s) == s);
    // no block-comment delimiter or leading `*` to strip
    assert(!starts_with(s, "/**"@)) by {
        assert(s.take(3)[1] != "/**"@[1]);
    }
    assert(trim_start_matches(s, "/**"@) == s);
    assert(!starts_with(s, "*/"@)) by {
        assert(s.take(2)[0] != "*/"@[0]);
    }
    assert(trim_start_matches(s, "*/"@) == s);
    assert(!starts_with(s, "*"@)) by {
        assert(s.take(1)[0] != "*"@[0]);
    }
    assert(trim_start_matches(s, "*"@) == s);
    assert(!starts_with(s, "///"@)) by {
        assert(s.take(3)[2] != "///"@[2]);
    }
    // the `//` marker goes
    assert(s.take(2) =~= "//"@);
    assert(starts_with(s, "//"@));
    let rest = s.skip(2);
    assert(!starts_with(rest, "//"@)) by {
        assert(rest.take(2)[0] != "//"@[0]);
    }
    assert(trim_start_matches(rest, "//"@) == rest);
    assert(trim_start_matches(s, "//"@) == rest);
    assert(rest.drop_first() =~= w);
    assert(is_ws(rest[0]));
    assert(trim_start(w) == w);
    assert(trim_start(rest) == w);
    assert(trim_end(w) == w);
    assert(clean_line(s) == w);
    assert(!starts_with(w, "@"@)) by {
        assert(w.take(1)[0] != "@"@[0]);
    }
    assert(line_words(s) == word_count(w));
    assert(!s.contains('\n')) by {
        if s.contains('\n') {
            let k = choose|k: int| 0 <= k < s.len() && s[k] == '\n';
            assert(k >= 3);
            assert(w[k - 3] == '\n');
        }
    }
    lemma_split_single(s, '\n');
    let ls = seq![s];
    assert(ls.drop_last() =~= Seq::<Seq<char>>::empty());
    assert(total_words(ls) == total_words(ls.drop_last()) + line_words(s));
}

// ─── Python modules ─────────────────────────────────────────────────────────

proof fn lemma_trim_end_matches_once(d: Seq<char>, suf: Seq<char>)
    requires
        suf.len() > 0,
        !ends_with(d, suf),
    ensures
        trim_end_matches(d + suf, suf) == d,
{
    let p = d + suf;
    assert(p.skip(p.len() - suf.len()) =~= suf);
    assert(p.take(p.len() - suf.len()) =~= d);
    assert(ends_with(p, suf));
    assert(trim_end_matches(d, suf) == d);
    assert(trim_end_matches(p, suf) == trim_end_matches(p.take(p.len() - suf.len()), suf));
}

/// A Python package resolves to its `__init__.py`: the file `d/__init__.py`
/// is found under `d` with dots for slashes, and a module file `d.py` under
/// the same name, whatever files were indexed before it.
pub proof fn python_packages_resolve_to_init(paths: Seq<Seq<char>>, d: Seq<char>)
    ensures
        !ends_with(d, "/__init__.py"@) ==> ({
            let f = d + "/__init__.py"@;
            resolved(build_index(Language::Python, None, paths.push(f)), replace_char(d, '/', "."@), None) == Some(f)
        }),
        !ends_with(d, ".py"@) && !ends_with(d + ".py"@, "/__init__.py"@) ==> ({
            let f = d + ".py"@;
            resolved(build_index(Language::Python, None, paths.push(f)), replace_char(d, '/', "."@), None) == Some(f)
        }),
{
    reveal_strlit("/__init__.py");
    reveal_strlit(".py");
    let init = "/__init__.py"@;
    let py = ".py"@;
    if !ends_with(d, init) {
        let f = d + init;
        lemma_trim_end_matches_once(d, init);
        assert(f.skip(f.len() - init.len()) =~= init);
        assert(ends_with(f, init));
        assert(python_module(f) == replace_char(d, '/', "."@));
        assert(paths.push(f).drop_last() =~= paths);
    }
    if !ends_with(d, py) && !ends_with(d + py, init) {
        let f = d + py;
        lemma_trim_end_matches_once(d, py);
        assert(python_module(f) == replace_char(d, '/', "."@));
        assert(paths.push(f).drop_last() =~= paths);
    }
}

// ─── Javadoc ────────────────────────────────────────────────────────────────

proof fn lemma_javadoc_from_is_javadoc(t: SyntaxTree, k: int)
    ensures
        javadoc_from(t, k) matches Some(d) ==> starts_with(d, "/**"@),
    decreases k + 1,
{
    if 0 <= k < t.len() && t.kind(k) != "block_comment"@ {
        match t.prev_sibling(k) {
            Some(q) => if 0 <= q < k {
                lemma_javadoc_from_is_javadoc(t, q);
            },
            None => {},
        }
    }
}

/// A Java declaration's docstring is a `/**` comment: every signature the
/// parser records has a docstring exactly when it has a docstring text, that
/// text starts with `/**`, and a declaration right after a plain `/* ... */`
/// block comment has none.
pub proof fn java_docstrings_are_javadoc(r: ParseResult, t: SyntaxTree)
    requires
        java_result(r, t),
    ensures
        forall|k: int| 0 <= k < r.signatures@.len() ==> ((#[trigger] r.signatures@[k]).has_docstring
            <==> r.signatures@[k].docstring_text is Some),
        forall|k: int| 0 <= k < r.signatures@.len() ==> ((#[trigger] r.signatures@[k]).docstring_text matches Some(d)
            ==> starts_with(d@, "/**"@)),
        forall|k: int| 0 <= k < r.signatures@.len() && (t.prev_sibling(java_found(t).2[k].1) matches Some(c)
            && t.kind(c) == "block_comment"@ && !starts_with(t.text(c), "/**"@))
            ==> !(#[trigger] r.signatures@[k]).has_docstring,
{
    let f = java_found(t);
    assert forall|k: int| 0 <= k < r.signatures@.len() implies ((#[trigger] r.signatures@[k]).docstring_text matches Some(d)
        ==> starts_with(d@, "/**"@)) by {
        let i = f.2[k].1;
        assert(crate::parsers::java::java_sig(r.signatures@[k], t, f.2[k]));
        match t.prev_sibling(i) {
            Some(c) => lemma_javadoc_from_is_javadoc(t, c),
            None => {},
        }
    }
    assert forall|k: int| 0 <= k < r.signatures@.len() implies ((#[trigger] r.signatures@[k]).has_docstring
        <==> r.signatures@[k].docstring_text is Some) by {
        assert(crate::parsers::java::java_sig(r.signatures@[k], t, f.2[k]));
    }
    assert forall|k: int| 0 <= k < r.signatures@.len() && (t.prev_sibling(java_found(t).2[k].1) matches Some(c)
        && t.kind(c) == "block_comment"@ && !starts_with(t.text(c), "/**"@))
        implies !(#[trigger] r.signatures@[k]).has_docstring by {
        assert(crate::parsers::java::java_sig(r.signatures@[k], t, f.2[k]));
    }
}

// ─── implementers ───────────────────────────────────────────────────────────

proof fn lemma_deps_spec_len(files: Seq<(String, FileEntry)>, paths: Seq<String>, refs: Seq<(String, Vec<String>)>, max: nat)
    ensures
        deps_spec(files, paths, refs, max).len() <= paths.len(),
    decreases paths.len(),
{
    if paths.len() > 0 {
        lemma_deps_spec_len(files, paths.drop_last(), refs, max);
    }
}

proof fn lemma_deps_spec_first(files: Seq<(String, FileEntry)>, paths: Seq<String>, max: nat, x: FileEntry)
    requires
        paths.len() > 0,
        lookup(files, paths[0]@) == Some(x),
        selected(x.signatures@, None, max).len() > 0,
    ensures
        deps_spec(files, paths, Seq::empty(), max).len() > 0,
        deps_spec(files, paths, Seq::empty(), max)[0]
            == (x.path@, omitted(x.signatures@, None, max), selected(x.signatures@, None, max)),
    decreases paths.len(),
{
    let none: Seq<(String, Vec<String>)> = Seq::empty();
    assert(crate::commands::next::refs_for(none, paths[0]@) is None);
    let rest = deps_spec(files, paths.drop_last(), none, max);
    let r = deps_spec(files, paths, none, max);
    if paths.len() == 1 {
        assert(paths.drop_last().len() == 0);
        assert(rest.len() == 0);
        assert(paths.last() == paths[0]);
        assert(r == rest.push((x.path@, omitted(x.signatures@, None, max), selected(x.signatures@, None, max))));
    } else {
        let d = paths.drop_last();
        assert(d[0] == paths[0]);
        lemma_deps_spec_first(files, d, max, x);
        assert(r[0] == rest[0]);
    }
}

/// Interfaces, abstract classes and annotations show their implementers:
/// the first reverse dependency found in the cache comes first, with its
/// signatures, and at most five are shown; any other kind shows none.
pub proof fn abstract_kinds_show_their_implementers(files: Seq<(String, FileEntry)>, e: FileEntry, max: nat, x: FileEntry)
    ensures
        shown_implementers(files, e, max).len() <= MAX_REVERSE_DEPS,
        (e.file_kind@ == "interface"@ || e.file_kind@ == "abstract_class"@ || e.file_kind@ == "annotation"@)
            && e.reverse_deps@.len() > 0 && lookup(files, e.reverse_deps@[0]@) == Some(x)
            && selected(x.signatures@, None, max).len() > 0
            ==> shown_implementers(files, e, max).len() > 0 && shown_implementers(files, e, max)[0]
                == (x.path@, omitted(x.signatures@, None, max), selected(x.signatures@, None, max)),
        !(e.file_kind@ == "interface"@ || e.file_kind@ == "abstract_class"@ || e.file_kind@ == "annotation"@)
            ==> shown_implementers(files, e, max).len() == 0,
{
    let n = min_nat(MAX_REVERSE_DEPS as nat, e.reverse_deps@.len());
    let first = e.reverse_deps@.take(n as int);
    lemma_deps_spec_len(files, first, Seq::empty(), max);
    if (e.file_kind@ == "interface"@ || e.file_kind@ == "abstract_class"@ || e.file_kind@ == "annotation"@)
        && e.reverse_deps@.len() > 0 && lookup(files, e.reverse_deps@[0]@) == Some(x)
        && selected(x.signatures@, None, max).len() > 0 {
        assert(first[0] == e.reverse_deps@[0]);
        lemma_deps_spec_first(files, first, max, x);
    }
}

// ─── Maven properties ───────────────────────────────────────────────────────

/// A `${name}` reference is looked up in the module first: where the
/// module's `<properties>` defines `name`, that value is the one used,
/// whatever the parent defines; the parent's value counts only where the
/// module has none.
pub proof fn module_properties_come_first(
    m: Seq<XmlNode>,
    mi: int,
    p: Option<(Seq<XmlNode>, int)>,
    name: Seq<char>,
)
    ensures
        (xml_child(m, mi, "properties"@) matches Some(props) && xml_text(m, props, name) is Some)
            ==> property(m, mi, p, name) == xml_text(m, xml_child(m, mi, "properties"@)->0, name),
        (match xml_child(m, mi, "properties"@) {
            Some(props) => xml_text(m, props, name) is None,
            None => true,
        }) ==> property(m, mi, p, name) == match p {
            Some((pd, pi)) => match xml_child(pd, pi, "properties"@) {
                Some(pp) => xml_text(pd, pp, name),
                None => None,
            },
            None => None,
        },
        (xml_child(m, mi, "properties"@) matches Some(props) && xml_text(m, props, name) matches Some(v)
            && !is_reference(v)) ==> forall|fuel: nat| fuel > 0 ==> #[trigger] resolve("${"@ + name + "}"@, m, mi, p, fuel)
                == xml_text(m, xml_child(m, mi, "properties"@)->0, name)->0,
{
    reveal_strlit("${");
    reveal_strlit("}");
    let r = "${"@ + name + "}"@;
    assert(r.take(2) =~= "${"@);
    assert(r.last() == '}');
    assert(is_reference(r));
    assert(reference_name(r) =~= name);
    match xml_child(m, mi, "properties"@) {
        Some(props) => match xml_text(m, props, name) {
            Some(v) => if !is_reference(v) {
                assert(property(m, mi, p, name) == Some(v));
                assert forall|fuel: nat| fuel > 0 implies #[trigger] resolve(r, m, mi, p, fuel) == v by {
                    assert(resolve(r, m, mi, p, fuel) == resolve(v, m, mi, p, (fuel - 1) as nat));
                    assert(resolve(v, m, mi, p, (fuel - 1) as nat) == v);
                }
            },
            None => {},
        },
        None => {},
    }
}

} // verus!
