//! References of a Java file into its dependencies: the declared types of
//! its variables, the types and members it names, and which of those its
//! dependencies declare.

use vstd::prelude::*;
use crate::syntax::{parsed_from, Grammar, SyntaxTree, parse_syntax, first_kind2, as_ints};
use crate::text::{str_eq, owned, chars_of, strictly_sorted, holds, insert_sorted, starts_upper, starts_upper_exec};
use crate::refs::RefsAnalyzer;
use crate::text::string_views;

verus! {

broadcast use vstd::string::group_string_axioms;

pub struct JavaRefsAnalyzer;

impl JavaRefsAnalyzer {
    pub fn new() -> (r: Self) {
        JavaRefsAnalyzer
    }
}

// ─── phase 1: the declared type of each variable ────────────────────────────

/// The simple name of a type node: a type identifier's text, the first type
/// identifier of a generic type, else empty.
pub open spec fn simple_type(t: SyntaxTree, i: int) -> Seq<char> {
    if t.kind(i) == "type_identifier"@ {
        t.text(i)
    } else if t.kind(i) == "generic_type"@ {
        match first_kind2(t, t.children(i), "type_identifier"@, "type_identifier"@) {
            Some(c) => t.text(c),
            None => Seq::empty(),
        }
    } else {
        Seq::empty()
    }
}

/// (variable, type) for each child of kind `kind` among `kids` whose name
/// field is non-empty.
pub open spec fn named_vars(t: SyntaxTree, kids: Seq<int>, kind: Seq<char>, ty: Seq<char>) -> Seq<(Seq<char>, Seq<char>)>
    decreases kids.len(),
{
    if kids.len() == 0 {
        Seq::empty()
    } else {
        let r = named_vars(t, kids.drop_last(), kind, ty);
        let c = kids.last();
        if t.kind(c) == kind && t.field_text(c, "name"@).len() > 0 && t.field_child(c, "name"@) is Some {
            r.push((t.field_text(c, "name"@), ty))
        } else {
            r
        }
    }
}

/// The (variable, type) pairs node `i` declares: each declarator of a local
/// variable or field declaration, or a formal parameter (by its name, else
/// by its declarator id), with a named type.
pub open spec fn declared_at(t: SyntaxTree, i: int) -> Seq<(Seq<char>, Seq<char>)> {
    let k = t.kind(i);
    match t.field_child(i, "type"@) {
        Some(ty) => {
            let tn = simple_type(t, ty);
            if tn.len() == 0 {
                Seq::empty()
            } else if k == "local_variable_declaration"@ || k == "field_declaration"@ {
                named_vars(t, t.children(i), "variable_declarator"@, tn)
            } else if k == "formal_parameter"@ {
                match t.field_child(i, "name"@) {
                    Some(n) => if t.text(n).len() > 0 { seq![(t.text(n), tn)] } else { Seq::empty() },
                    None => named_vars(t, t.children(i), "variable_declarator_id"@, tn),
                }
            } else {
                Seq::empty()
            }
        },
        None => Seq::empty(),
    }
}

/// The declarations of the first `n` nodes, in document order.
pub open spec fn declared_upto(t: SyntaxTree, n: int) -> Seq<(Seq<char>, Seq<char>)>
    decreases n,
{
    if n <= 0 {
        Seq::empty()
    } else {
        declared_upto(t, n - 1) + declared_at(t, n - 1)
    }
}

/// The value of the last pair for `key`.
pub open spec fn lookup_last(ps: Seq<(Seq<char>, Seq<char>)>, key: Seq<char>) -> Option<Seq<char>>
    decreases ps.len(),
{
    if ps.len() == 0 {
        None
    } else if ps.last().0 == key {
        Some(ps.last().1)
    } else {
        lookup_last(ps.drop_last(), key)
    }
}

// ─── phase 2: the candidates ────────────────────────────────────────────────

pub type Candidate = (Seq<char>, Option<Seq<char>>);


/// The type a receiver text stands for: a variable's declared type, or an
/// upper-case name taken as a class.
pub open spec fn receiver_type(tm: Seq<(Seq<char>, Seq<char>)>, obj: Seq<char>) -> Option<Seq<char>> {
    match lookup_last(tm, obj) {
        Some(ty) => Some(ty),
        None => if starts_upper(obj) { Some(obj) } else { None },
    }
}

/// The candidates a method invocation or field access at `i` names (its
/// receiver resolved; `member` is the field holding the member's name;
/// `class_too` adds the class of a static call).
pub open spec fn member_candidates(
    t: SyntaxTree,
    tm: Seq<(Seq<char>, Seq<char>)>,
    i: int,
    member: Seq<char>,
    class_too: bool,
) -> Seq<Candidate> {
    match t.field_child(i, "object"@) {
        Some(o) => {
            let ot = t.text(o);
            match receiver_type(tm, ot) {
                Some(recv) => {
                    let first: Seq<Candidate> = if class_too && starts_upper(ot) && lookup_last(tm, ot) is None {
                        seq![(recv, None)]
                    } else {
                        Seq::empty()
                    };
                    let m = t.field_text(i, member);
                    first + if m.len() > 0 { seq![(recv, Some(m))] } else { Seq::empty() }
                },
                None => Seq::empty(),
            }
        },
        None => Seq::empty(),
    }
}

/// The candidates found from node `i` on: type identifiers, the types of
/// `new` expressions, and the members of method calls and field accesses on
/// a known receiver; import and package declarations are passed over.
pub open spec fn cwalk(t: SyntaxTree, tm: Seq<(Seq<char>, Seq<char>)>, i: int, acc: Seq<Candidate>) -> Seq<Candidate>
    decreases t.len() - i, 1int,
{
    if i < 0 || i >= t.len() {
        acc
    } else {
        let k = t.kind(i);
        if k == "import_declaration"@ || k == "package_declaration"@ {
            acc
        } else if k == "type_identifier"@ {
            if t.text(i).len() > 0 { acc.push((t.text(i), None)) } else { acc }
        } else if k == "object_creation_expression"@ {
            let acc2 = match t.field_child(i, "type"@) {
                Some(ty) => if simple_type(t, ty).len() > 0 { acc.push((simple_type(t, ty), None)) } else { acc },
                None => acc,
            };
            cwalk_from(t, tm, i, i + 1, acc2)
        } else if k == "method_invocation"@ {
            cwalk_from(t, tm, i, i + 1, acc + member_candidates(t, tm, i, "name"@, true))
        } else if k == "field_access"@ {
            cwalk_from(t, tm, i, i + 1, acc + member_candidates(t, tm, i, "field"@, false))
        } else {
            cwalk_from(t, tm, i, i + 1, acc)
        }
    }
}

pub open spec fn cwalk_from(t: SyntaxTree, tm: Seq<(Seq<char>, Seq<char>)>, p: int, k: int, acc: Seq<Candidate>) -> Seq<Candidate>
    decreases t.len() - k, 2int,
{
    if k <= p || k >= t.len() || t.depth(k) <= t.depth(p) {
        acc
    } else if t.depth(k) == t.depth(p) + 1 {
        cwalk_from(t, tm, p, k + 1, cwalk(t, tm, k, acc))
    } else {
        cwalk_from(t, tm, p, k + 1, acc)
    }
}

/// Every candidate of the file, in document order.
pub open spec fn candidates(t: SyntaxTree) -> Seq<Candidate> {
    if t.len() > 0 {
        cwalk(t, declared_upto(t, t.len()), 0, Seq::empty())
    } else {
        Seq::empty()
    }
}

// ─── phase 3: the references ────────────────────────────────────────────────

pub open spec fn names_lookup(ps: Seq<(Seq<char>, Seq<Seq<char>>)>, key: Seq<char>) -> Option<Seq<Seq<char>>>
    decreases ps.len(),
{
    if ps.len() == 0 {
        None
    } else if ps.last().0 == key {
        Some(ps.last().1)
    } else {
        names_lookup(ps.drop_last(), key)
    }
}

/// The (dependency, name) a candidate references, if any: the dependency
/// its type is imported from, and the member (or else the type) among the
/// names that dependency declares.
pub open spec fn reference_of(
    c: Candidate,
    imports: Seq<(Seq<char>, Seq<char>)>,
    deps: Seq<(Seq<char>, Seq<Seq<char>>)>,
) -> Option<(Seq<char>, Seq<char>)> {
    match lookup_last(imports, c.0) {
        Some(dep) => match names_lookup(deps, dep) {
            Some(names) => {
                let n = match c.1 {
                    Some(m) => m,
                    None => c.0,
                };
                if names.contains(n) { Some((dep, n)) } else { None }
            },
            None => None,
        },
        None => None,
    }
}

/// The references of the candidates, in order.
pub open spec fn references(
    cs: Seq<Candidate>,
    imports: Seq<(Seq<char>, Seq<char>)>,
    deps: Seq<(Seq<char>, Seq<Seq<char>>)>,
) -> Seq<(Seq<char>, Seq<char>)>
    decreases cs.len(),
{
    if cs.len() == 0 {
        Seq::empty()
    } else {
        let r = references(cs.drop_last(), imports, deps);
        match reference_of(cs.last(), imports, deps) {
            Some(x) => r.push(x),
            None => r,
        }
    }
}

/// `r` groups the references `refs` by dependency: each referenced
/// dependency once, with the names referenced in it (never none) sorted and
/// each once.
pub open spec fn grouped(r: Seq<(String, Vec<String>)>, refs: Seq<(Seq<char>, Seq<char>)>) -> bool {
    &&& forall|a: int, b: int| 0 <= a < b < r.len() ==> (#[trigger] r[a]).0@ != (#[trigger] r[b]).0@
    &&& forall|a: int| 0 <= a < r.len() ==> strictly_sorted((#[trigger] r[a]).1@)
    &&& forall|a: int| 0 <= a < r.len() ==> (#[trigger] r[a]).1@.len() > 0
    &&& forall|a: int, x: Seq<char>| 0 <= a < r.len() ==> (#[trigger] holds(r[a].1@, x) <==> refs.contains((r[a].0@, x)))
    &&& forall|p: (Seq<char>, Seq<char>)| #[trigger] refs.contains(p) ==> exists|a: int| 0 <= a < r.len() && r[a].0@ == p.0
}

pub open spec fn pair_views(v: Seq<(String, String)>) -> Seq<(Seq<char>, Seq<char>)> {
    v.map_values(|p: (String, String)| (p.0@, p.1@))
}

pub open spec fn names_views(v: Seq<(String, Vec<String>)>) -> Seq<(Seq<char>, Seq<Seq<char>>)> {
    v.map_values(|p: (String, Vec<String>)| (p.0@, string_views(p.1@)))
}

/// What the analysis gives for the syntax tree `t`.
pub open spec fn refs_result(
    r: Seq<(String, Vec<String>)>,
    t: SyntaxTree,
    imports: Seq<(String, String)>,
    deps: Seq<(String, Vec<String>)>,
) -> bool {
    grouped(r, references(candidates(t), pair_views(imports), names_views(deps)))
}

// ─── running the phases ─────────────────────────────────────────────────────

fn simple_type_exec(t: &SyntaxTree, i: usize) -> (r: String)
    requires
        t.wf(),
        i < t.nodes@.len(),
    ensures
        r@ == simple_type(*t, i as int),
{
    let k = t.nodes[i].kind.as_str();
    if str_eq(k, "type_identifier") {
        t.nodes[i].text.clone()
    } else if str_eq(k, "generic_type") {
        match t.first_child_kind2(i, "type_identifier", "type_identifier") {
            Some(c) => t.nodes[c].text.clone(),
            None => String::new(),
        }
    } else {
        String::new()
    }
}

pub open spec fn str_pair_views(v: Seq<(String, String)>) -> Seq<(Seq<char>, Seq<char>)> {
    v.map_values(|p: (String, String)| (p.0@, p.1@))
}

fn named_vars_exec(t: &SyntaxTree, i: usize, kind: &str, ty: &String, out: &mut Vec<(String, String)>)
    requires
        t.wf(),
        i < t.nodes@.len(),
    ensures
        str_pair_views(final(out)@) == str_pair_views(old(out)@) + named_vars(*t, t.children(i as int), kind@, ty@),
{
    let kids = t.child_indices(i);
    let ghost ks = t.children(i as int);
    let ghost start = str_pair_views(out@);
    let mut j: usize = 0;
    while j < kids.len()
        invariant
            t.wf(),
            as_ints(kids@) == ks,
            forall|k: int| 0 <= k < kids@.len() ==> i < #[trigger] kids@[k] < t.nodes@.len(),
            j <= kids@.len(),
            str_pair_views(out@) == start + named_vars(*t, ks.take(j as int), kind@, ty@),
        decreases kids.len() - j,
    {
        let c = kids[j];
        assert(ks.take(j + 1).drop_last() =~= ks.take(j as int));
        assert(ks.take(j + 1).last() == c as int);
        let ghost before = str_pair_views(out@);
        if str_eq(t.nodes[c].kind.as_str(), kind) {
            match t.field_child_index(c, "name") {
                Some(n) => {
                    if !t.nodes[n].text.as_str().is_empty() {
                        out.push((t.nodes[n].text.clone(), ty.clone()));
                        assert(str_pair_views(out@) =~= before.push((t.text(n as int), ty@)));
                        assert(start + named_vars(*t, ks.take(j + 1), kind@, ty@) =~= (start + named_vars(
                            *t,
                            ks.take(j as int),
                            kind@,
                            ty@,
                        )).push((t.text(n as int), ty@)));
                    }
                },
                None => {},
            }
        }
        j += 1;
    }
    assert(ks.take(kids@.len() as int) =~= ks);
}

fn declared_at_exec(t: &SyntaxTree, i: usize, out: &mut Vec<(String, String)>)
    requires
        t.wf(),
        i < t.nodes@.len(),
    ensures
        str_pair_views(final(out)@) == str_pair_views(old(out)@) + declared_at(*t, i as int),
{
    let ghost start = str_pair_views(out@);
    let ty = match t.field_child_index(i, "type") {
        Some(ty) => ty,
        None => {
            assert(start + Seq::<(Seq<char>, Seq<char>)>::empty() =~= start);
            return;
        },
    };
    let tn = simple_type_exec(t, ty);
    if tn.as_str().is_empty() {
        assert(start + Seq::<(Seq<char>, Seq<char>)>::empty() =~= start);
        return;
    }
    let k = t.nodes[i].kind.as_str();
    if str_eq(k, "local_variable_declaration") || str_eq(k, "field_declaration") {
        named_vars_exec(t, i, "variable_declarator", &tn, out);
    } else if str_eq(k, "formal_parameter") {
        match t.field_child_index(i, "name") {
            Some(n) => {
                if !t.nodes[n].text.as_str().is_empty() {
                    out.push((t.nodes[n].text.clone(), tn));
                    assert(str_pair_views(out@) =~= start + seq![(t.text(n as int), simple_type(*t, ty as int))]);
                } else {
                    assert(start + Seq::<(Seq<char>, Seq<char>)>::empty() =~= start);
                }
            },
            None => {
                named_vars_exec(t, i, "variable_declarator_id", &tn, out);
            },
        }
    } else {
        assert(start + Seq::<(Seq<char>, Seq<char>)>::empty() =~= start);
    }
}

/// Phase 1: every (variable, declared type) of the tree, in document order;
/// a later declaration of a name overrides an earlier one.
pub fn build_type_map(t: &SyntaxTree) -> (r: Vec<(String, String)>)
    requires
        t.wf(),
    ensures
        str_pair_views(r@) == declared_upto(*t, t.len()),
{
    let mut r: Vec<(String, String)> = Vec::new();
    let mut i: usize = 0;
    assert(str_pair_views(r@) =~= declared_upto(*t, 0));
    while i < t.nodes.len()
        invariant
            t.wf(),
            i <= t.nodes@.len(),
            str_pair_views(r@) == declared_upto(*t, i as int),
        decreases t.nodes.len() - i,
    {
        declared_at_exec(t, i, &mut r);
        i += 1;
    }
    r
}

fn lookup_last_exec(ps: &Vec<(String, String)>, key: &str) -> (r: Option<String>)
    ensures
        match r {
            Some(v) => lookup_last(str_pair_views(ps@), key@) == Some(v@),
            None => lookup_last(str_pair_views(ps@), key@) is None,
        },
{
    let mut i: usize = ps.len();
    assert(ps@.take(ps@.len() as int) =~= ps@);
    while i > 0
        invariant
            i <= ps@.len(),
            lookup_last(str_pair_views(ps@), key@) == lookup_last(str_pair_views(ps@.take(i as int)), key@),
        decreases i,
    {
        let ghost pre = str_pair_views(ps@.take(i as int));
        assert(pre.last() == (ps@[i - 1].0@, ps@[i - 1].1@));
        assert(pre.drop_last() =~= str_pair_views(ps@.take(i - 1)));
        if str_eq(ps[i - 1].0.as_str(), key) {
            return Some(ps[i - 1].1.clone());
        }
        i -= 1;
    }
    None
}


pub open spec fn cand_views(v: Seq<(String, Option<String>)>) -> Seq<Candidate> {
    v.map_values(|c: (String, Option<String>)| (c.0@, match c.1 {
        Some(m) => Some(m@),
        None => None,
    }))
}

fn member_candidates_exec(
    t: &SyntaxTree,
    tm: &Vec<(String, String)>,
    i: usize,
    member: &str,
    class_too: bool,
    out: &mut Vec<(String, Option<String>)>,
)
    requires
        t.wf(),
        i < t.nodes@.len(),
    ensures
        cand_views(final(out)@) == cand_views(old(out)@) + member_candidates(*t, str_pair_views(tm@), i as int, member@, class_too),
{
    let ghost start = cand_views(out@);
    let ghost tmv = str_pair_views(tm@);
    let o = match t.field_child_index(i, "object") {
        Some(o) => o,
        None => {
            assert(start + Seq::<Candidate>::empty() =~= start);
            return;
        },
    };
    let ot = &t.nodes[o].text;
    let declared = lookup_last_exec(tm, ot.as_str());
    let upper = starts_upper_exec(ot);
    let recv = match &declared {
        Some(ty) => ty.clone(),
        None => if upper {
            ot.clone()
        } else {
            assert(start + Seq::<Candidate>::empty() =~= start);
            return;
        },
    };
    let ghost rv = recv@;
    if class_too && upper && declared.is_none() {
        out.push((recv.clone(), None));
    }
    let ghost mid = cand_views(out@);
    let ghost first: Seq<Candidate> = if class_too && starts_upper(ot@) && lookup_last(tmv, ot@) is None {
        seq![(rv, None)]
    } else {
        Seq::empty()
    };
    assert(mid =~= start + first);
    let m = t.field_text_of(i, member);
    if !m.as_str().is_empty() {
        let ghost mv = m@;
        out.push((recv, Some(m)));
        assert(cand_views(out@) =~= mid.push((rv, Some(mv))));
        assert(start + (first + seq![(rv, Some(mv))]) =~= mid.push((rv, Some(mv))));
    } else {
        assert(start + (first + Seq::<Candidate>::empty()) =~= mid);
    }
}

fn cwalk_exec(t: &SyntaxTree, tm: &Vec<(String, String)>, i: usize, out: &mut Vec<(String, Option<String>)>)
    requires
        t.wf(),
        i < t.nodes@.len(),
    ensures
        cand_views(final(out)@) == cwalk(*t, str_pair_views(tm@), i as int, cand_views(old(out)@)),
    decreases t.nodes@.len() - i, 1int,
{
    let k = t.nodes[i].kind.as_str();
    if str_eq(k, "import_declaration") || str_eq(k, "package_declaration") {
        return;
    }
    if str_eq(k, "type_identifier") {
        if !t.nodes[i].text.as_str().is_empty() {
            let ghost before = cand_views(out@);
            out.push((t.nodes[i].text.clone(), None));
            assert(cand_views(out@) =~= before.push((t.text(i as int), None)));
        }
        return;
    }
    if str_eq(k, "object_creation_expression") {
        match t.field_child_index(i, "type") {
            Some(ty) => {
                let name = simple_type_exec(t, ty);
                if !name.as_str().is_empty() {
                    let ghost before = cand_views(out@);
                    let ghost nv = name@;
                    out.push((name, None));
                    assert(cand_views(out@) =~= before.push((nv, None)));
                }
            },
            None => {},
        }
    } else if str_eq(k, "method_invocation") {
        member_candidates_exec(t, tm, i, "name", true, out);
    } else if str_eq(k, "field_access") {
        member_candidates_exec(t, tm, i, "field", false, out);
    }
    cwalk_children(t, tm, i, out);
}

fn cwalk_children(t: &SyntaxTree, tm: &Vec<(String, String)>, p: usize, out: &mut Vec<(String, Option<String>)>)
    requires
        t.wf(),
        p < t.nodes@.len(),
    ensures
        cand_views(final(out)@) == cwalk_from(*t, str_pair_views(tm@), p as int, p as int + 1, cand_views(old(out)@)),
    decreases t.nodes@.len() - p, 0int,
{
    let n = t.nodes.len();
    let mut k: usize = p + 1;
    while k < t.nodes.len() && t.nodes[k].depth > t.nodes[p].depth
        invariant
            t.wf(),
            n == t.nodes@.len(),
            p < k <= t.nodes@.len(),
            cwalk_from(*t, str_pair_views(tm@), p as int, p as int + 1, cand_views(old(out)@))
                == cwalk_from(*t, str_pair_views(tm@), p as int, k as int, cand_views(out@)),
        decreases t.nodes.len() - k,
    {
        if t.nodes[k].depth == t.nodes[p].depth + 1 {
            cwalk_exec(t, tm, k, out);
        }
        k += 1;
    }
}

/// Phase 2: the (type, member) candidates of the whole tree.
pub fn collect_candidates(t: &SyntaxTree, tm: &Vec<(String, String)>) -> (r: Vec<(String, Option<String>)>)
    requires
        t.wf(),
    ensures
        t.len() > 0 ==> cand_views(r@) == cwalk(*t, str_pair_views(tm@), 0, Seq::empty()),
        t.len() == 0 ==> r@.len() == 0,
{
    let mut r: Vec<(String, Option<String>)> = Vec::new();
    assert(cand_views(r@) =~= Seq::<Candidate>::empty());
    if t.nodes.len() > 0 {
        cwalk_exec(t, tm, 0, &mut r);
    }
    r
}

fn names_lookup_exec<'a>(ps: &'a Vec<(String, Vec<String>)>, key: &str) -> (r: Option<&'a Vec<String>>)
    ensures
        match r {
            Some(v) => names_lookup(names_views(ps@), key@) == Some(string_views(v@)),
            None => names_lookup(names_views(ps@), key@) is None,
        },
{
    let mut i: usize = ps.len();
    assert(ps@.take(ps@.len() as int) =~= ps@);
    while i > 0
        invariant
            i <= ps@.len(),
            names_lookup(names_views(ps@), key@) == names_lookup(names_views(ps@.take(i as int)), key@),
        decreases i,
    {
        let ghost pre = names_views(ps@.take(i as int));
        assert(pre.drop_last() =~= names_views(ps@.take(i - 1)));
        if str_eq(ps[i - 1].0.as_str(), key) {
            return Some(&ps[i - 1].1);
        }
        i -= 1;
    }
    None
}

fn names_contain(v: &Vec<String>, s: &str) -> (r: bool)
    ensures
        r == string_views(v@).contains(s@),
{
    let mut i: usize = 0;
    while i < v.len()
        invariant
            i <= v@.len(),
            forall|j: int| 0 <= j < i ==> v@[j]@ != s@,
        decreases v.len() - i,
    {
        if str_eq(v[i].as_str(), s) {
            assert(string_views(v@)[i as int] == s@);
            return true;
        }
        i += 1;
    }
    assert forall|j: int| 0 <= j < string_views(v@).len() implies #[trigger] string_views(v@)[j] != s@ by {
        assert(string_views(v@)[j] == v@[j]@);
    }
    false
}

proof fn lemma_push_contains(s: Seq<(Seq<char>, Seq<char>)>, e: (Seq<char>, Seq<char>))
    ensures
        forall|p: (Seq<char>, Seq<char>)| #[trigger] s.push(e).contains(p) <==> (s.contains(p) || p == e),
{
    let t = s.push(e);
    assert forall|p: (Seq<char>, Seq<char>)| #[trigger] t.contains(p) <==> (s.contains(p) || p == e) by {
        if t.contains(p) {
            let j = choose|j: int| 0 <= j < t.len() && t[j] == p;
            if j < s.len() {
                assert(s[j] == p);
            }
        }
        if s.contains(p) {
            let j = choose|j: int| 0 <= j < s.len() && s[j] == p;
            assert(t[j] == p);
        }
        if p == e {
            assert(t[s.len() as int] == p);
        }
    }
}

/// Records reference `(dep, name)` in the grouping.
fn add_reference(out: &mut Vec<(String, Vec<String>)>, dep: &str, name: &str, refs: Ghost<Seq<(Seq<char>, Seq<char>)>>)
    requires
        grouped(old(out)@, refs@),
    ensures
        grouped(final(out)@, refs@.push((dep@, name@))),
{
    let ghost rs = refs@.push((dep@, name@));
    proof {
        lemma_push_contains(refs@, (dep@, name@));
    }
    let mut a: usize = 0;
    while a < out.len() && !str_eq(out[a].0.as_str(), dep)
        invariant
            a <= out@.len(),
            forall|b: int| 0 <= b < a ==> out@[b].0@ != dep@,
        decreases out.len() - a,
    {
        a += 1;
    }
    let ghost old_out = out@;
    if a < out.len() {
        let mut names = out[a].1.clone();
        let ghost old_names = out@[a as int].1@;
        proof {
            assert(names@ == old_names);
        }
        insert_sorted(&mut names, name);
        let key = out[a].0.clone();
        out.set(a, (key, names));
        proof {
            assert(holds(out@[a as int].1@, name@));
            assert forall|b: int| 0 <= b < out@.len() implies (#[trigger] out@[b]).1@.len() > 0 by {
                if b != a {
                    assert(out@[b] == old_out[b]);
                }
            }
            assert forall|p: (Seq<char>, Seq<char>)| #[trigger] rs.contains(p) implies exists|b: int| 0 <= b < out@.len() && out@[b].0@ == p.0 by {
                if refs@.contains(p) {
                    let b = choose|b: int| 0 <= b < old_out.len() && old_out[b].0@ == p.0;
                    assert(out@[b].0@ == p.0);
                } else {
                    assert(p == (dep@, name@));
                    assert(out@[a as int].0@ == p.0);
                }
            }
            assert forall|b: int, x: Seq<char>| 0 <= b < out@.len() implies (#[trigger] holds(out@[b].1@, x) <==> rs.contains((out@[b].0@, x))) by {
                if b == a {
                    assert(holds(old_out[b].1@, x) <==> refs@.contains((old_out[b].0@, x)));
                    if rs.contains((out@[b].0@, x)) && !refs@.contains((out@[b].0@, x)) {
                        assert((out@[b].0@, x) == (dep@, name@));
                    }
                    if x == name@ {
                        assert(rs[rs.len() - 1] == (dep@, name@));
                    }
                    if refs@.contains((old_out[b].0@, x)) {
                        let j = choose|j: int| 0 <= j < refs@.len() && refs@[j] == (old_out[b].0@, x);
                        assert(rs[j] == refs@[j]);
                    }
                } else {
                    assert(out@[b] == old_out[b]);
                    assert(holds(old_out[b].1@, x) <==> refs@.contains((old_out[b].0@, x)));
                    if rs.contains((out@[b].0@, x)) && !refs@.contains((out@[b].0@, x)) {
                        assert((out@[b].0@, x) == (dep@, name@));
                        assert(old_out[b].0@ != dep@ || b == a);
                    }
                    if refs@.contains((old_out[b].0@, x)) {
                        let j = choose|j: int| 0 <= j < refs@.len() && refs@[j] == (old_out[b].0@, x);
                        assert(rs[j] == refs@[j]);
                    }
                }
            }
            assert forall|b: int, c: int| 0 <= b < c < out@.len() implies (#[trigger] out@[b]).0@ != (#[trigger] out@[c]).0@ by {
                assert(old_out[b].0@ != old_out[c].0@);
            }
        }
    } else {
        let mut names: Vec<String> = Vec::new();
        insert_sorted(&mut names, name);
        out.push((owned(dep), names));
        proof {
            assert(holds(names@, name@));
            assert forall|b: int| 0 <= b < out@.len() implies (#[trigger] out@[b]).1@.len() > 0 by {
                if b < old_out.len() {
                    assert(out@[b] == old_out[b]);
                }
            }
            assert forall|p: (Seq<char>, Seq<char>)| #[trigger] rs.contains(p) implies exists|b: int| 0 <= b < out@.len() && out@[b].0@ == p.0 by {
                if refs@.contains(p) {
                    let b = choose|b: int| 0 <= b < old_out.len() && old_out[b].0@ == p.0;
                    assert(out@[b].0@ == p.0);
                } else {
                    assert(p == (dep@, name@));
                    assert(out@[old_out.len() as int].0@ == p.0);
                }
            }
            assert forall|b: int, x: Seq<char>| 0 <= b < out@.len() implies (#[trigger] holds(out@[b].1@, x) <==> rs.contains((out@[b].0@, x))) by {
                if b == old_out.len() {
                    if refs@.contains((dep@, x)) {
                        let j = choose|j: int| 0 <= j < refs@.len() && refs@[j] == (dep@, x);
                        let c = choose|c: int| 0 <= c < old_out.len() && old_out[c].0@ == dep@;
                        assert(false);
                    }
                    if x == name@ {
                        assert(rs[rs.len() - 1] == (dep@, name@));
                    }
                    if rs.contains((dep@, x)) {
                        let j = choose|j: int| 0 <= j < rs.len() && rs[j] == (dep@, x);
                        if j < refs@.len() {
                            assert(refs@[j] == (dep@, x));
                            assert(refs@.contains((dep@, x)));
                        }
                    }
                } else {
                    assert(out@[b] == old_out[b]);
                    assert(holds(old_out[b].1@, x) <==> refs@.contains((old_out[b].0@, x)));
                    if refs@.contains((old_out[b].0@, x)) {
                        let j = choose|j: int| 0 <= j < refs@.len() && refs@[j] == (old_out[b].0@, x);
                        assert(rs[j] == refs@[j]);
                    }
                    if rs.contains((old_out[b].0@, x)) && !refs@.contains((old_out[b].0@, x)) {
                        let j = choose|j: int| 0 <= j < rs.len() && rs[j] == (old_out[b].0@, x);
                        if j < refs@.len() {
                            assert(refs@[j] == rs[j]);
                        } else {
                            assert(old_out[b].0@ == dep@);
                        }
                    }
                }
            }
            assert forall|b: int, c: int| 0 <= b < c < out@.len() implies (#[trigger] out@[b]).0@ != (#[trigger] out@[c]).0@ by {
                if c < old_out.len() {
                    assert(old_out[b].0@ != old_out[c].0@);
                } else {
                    assert(old_out[b].0@ != dep@);
                }
            }
        }
    }
}

/// Phase 3: the references of the candidates, grouped by dependency.
pub fn cross_reference(
    cands: &Vec<(String, Option<String>)>,
    import_map: &Vec<(String, String)>,
    dep_sigs: &Vec<(String, Vec<String>)>,
) -> (r: Vec<(String, Vec<String>)>)
    ensures
        grouped(r@, references(cand_views(cands@), pair_views(import_map@), names_views(dep_sigs@))),
{
    let ghost iv = pair_views(import_map@);
    let ghost dv = names_views(dep_sigs@);
    let ghost cv = cand_views(cands@);
    let mut out: Vec<(String, Vec<String>)> = Vec::new();
    let mut i: usize = 0;
    assert(references(cv.take(0), iv, dv) =~= Seq::<(Seq<char>, Seq<char>)>::empty());
    while i < cands.len()
        invariant
            iv == pair_views(import_map@),
            dv == names_views(dep_sigs@),
            cv == cand_views(cands@),
            i <= cands@.len(),
            grouped(out@, references(cv.take(i as int), iv, dv)),
        decreases cands.len() - i,
    {
        assert(cv.take(i + 1).drop_last() =~= cv.take(i as int));
        let (ty, member) = (&cands[i].0, &cands[i].1);
        assert(cv.take(i + 1).last() == cv[i as int]);
        assert(str_pair_views(import_map@) == iv);
        match lookup_last_exec(import_map, ty.as_str()) {
            Some(dep) => match names_lookup_exec(dep_sigs, dep.as_str()) {
                Some(names) => {
                    let n: &str = match member {
                        Some(m) => m.as_str(),
                        None => ty.as_str(),
                    };
                    if names_contain(names, n) {
                        add_reference(&mut out, dep.as_str(), n, Ghost(references(cv.take(i as int), iv, dv)));
                    }
                },
                None => {},
            },
            None => {},
        }
        i += 1;
    }
    assert(cv.take(cands@.len() as int) =~= cv);
    out
}

impl RefsAnalyzer for JavaRefsAnalyzer {
    fn extract_refs(
        &self,
        source: &str,
        import_map: &Vec<(String, String)>,
        dep_sigs: &Vec<(String, Vec<String>)>,
    ) -> (r: Vec<(String, Vec<String>)>)
        ensures
            exists|t: SyntaxTree| parsed_from(t, Grammar::Java, source@) && #[trigger] refs_result(r@, t, import_map@, dep_sigs@),
    {
        let t = parse_syntax(Grammar::Java, source);
        analyze(&t, import_map, dep_sigs)
    }
}

/// The references of the Java syntax tree `t` into its dependencies.
pub fn analyze(
    t: &SyntaxTree,
    import_map: &Vec<(String, String)>,
    dep_sigs: &Vec<(String, Vec<String>)>,
) -> (r: Vec<(String, Vec<String>)>)
    requires
        t.wf(),
    ensures
        refs_result(r@, *t, import_map@, dep_sigs@),
{
    let tm = build_type_map(t);
    let cands = collect_candidates(t, &tm);
    proof {
        if t.len() == 0 {
            assert(cand_views(cands@) =~= candidates(*t));
        }
    }
    cross_reference(&cands, import_map, dep_sigs)
}

} // verus!
