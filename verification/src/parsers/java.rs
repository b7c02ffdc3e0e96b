//! The Java parser: the package, the imports and the declarations of a
//! Java file, from its syntax tree.

use vstd::prelude::*;
use crate::models::{Param, Signature};
use crate::syntax::{parsed_from, Grammar, SyntaxTree, parse_syntax, first_kind2, as_ints};
use crate::text::{str_eq, owned, opt_view, starts_with, starts_with_str, chars_of};
use crate::text::string_views;
use crate::parsers::{ParseResult, documented_count, line_of, line_exec};

verus! {

broadcast use vstd::string::group_string_axioms;

pub struct JavaParser;

impl JavaParser {
    pub fn new() -> (r: Self) {
        JavaParser
    }

    /// Parses Java source: see `java_extract`.
    pub fn parse(&self, source: &str) -> (r: ParseResult)
        ensures
            exists|t: SyntaxTree| parsed_from(t, Grammar::Java, source@) && #[trigger] java_result(r, t),
    {
        let t = parse_syntax(Grammar::Java, source);
        java_extract(&t)
    }
}

// ─── what the parser reads off a node ───────────────────────────────────────

pub open spec fn is_java_modifier(k: Seq<char>) -> bool {
    ||| k == "public"@
    ||| k == "private"@
    ||| k == "protected"@
    ||| k == "static"@
    ||| k == "final"@
    ||| k == "abstract"@
    ||| k == "synchronized"@
    ||| k == "native"@
    ||| k == "transient"@
    ||| k == "volatile"@
    ||| k == "strictfp"@
}

/// The texts of the modifier keywords among `kids`.
pub open spec fn modifier_texts(t: SyntaxTree, kids: Seq<int>) -> Seq<Seq<char>>
    decreases kids.len(),
{
    if kids.len() == 0 {
        Seq::empty()
    } else {
        let r = modifier_texts(t, kids.drop_last());
        if is_java_modifier(t.kind(kids.last())) {
            r.push(t.text(kids.last()))
        } else {
            r
        }
    }
}

/// The modifiers of declaration `i`: the keywords in its `modifiers` child.
pub open spec fn java_modifiers(t: SyntaxTree, i: int) -> Seq<Seq<char>> {
    match first_kind2(t, t.children(i), "modifiers"@, "modifiers"@) {
        Some(m) => modifier_texts(t, t.children(m)),
        None => Seq::empty(),
    }
}

/// The Javadoc found looking back from sibling `s`: a `/**` block comment,
/// past line comments and extras.
pub open spec fn javadoc_from(t: SyntaxTree, s: int) -> Option<Seq<char>>
    decreases s + 1,
{
    if s < 0 || s >= t.len() {
        None
    } else if t.kind(s) == "block_comment"@ {
        if starts_with(t.text(s), "/**"@) { Some(t.text(s)) } else { None }
    } else if t.kind(s) == "line_comment"@ || t.nodes@[s].extra {
        match t.prev_sibling(s) {
            Some(p) => if 0 <= p < s { javadoc_from(t, p) } else { None },
            None => None,
        }
    } else {
        None
    }
}

/// The Javadoc of declaration `i`.
pub open spec fn javadoc(t: SyntaxTree, i: int) -> Option<Seq<char>> {
    match t.prev_sibling(i) {
        Some(s) => javadoc_from(t, s),
        None => None,
    }
}

pub open spec fn is_param_type_kind(k: Seq<char>) -> bool {
    ||| k == "type_identifier"@
    ||| k == "generic_type"@
    ||| k == "array_type"@
    ||| k == "integral_type"@
    ||| k == "floating_point_type"@
    ||| k == "boolean_type"@
    ||| k == "void_type"@
    ||| k == "scoped_type_identifier"@
}

/// The (type, name) a parameter's children give; a later one wins.
pub open spec fn param_parts(t: SyntaxTree, kids: Seq<int>) -> (Seq<char>, Seq<char>)
    decreases kids.len(),
{
    if kids.len() == 0 {
        (Seq::empty(), Seq::empty())
    } else {
        let (ty, nm) = param_parts(t, kids.drop_last());
        let c = kids.last();
        let k = t.kind(c);
        if is_param_type_kind(k) {
            (t.text(c), nm)
        } else if k == "variable_declarator_id"@ {
            (ty, match t.field_child(c, "name"@) {
                Some(id) => t.text(id),
                None => t.text(c),
            })
        } else if k == "identifier"@ {
            (ty, t.text(c))
        } else {
            (ty, nm)
        }
    }
}

/// The (name, type) of each parameter among `kids` that has either.
pub open spec fn params_of(t: SyntaxTree, kids: Seq<int>) -> Seq<(Seq<char>, Seq<char>)>
    decreases kids.len(),
{
    if kids.len() == 0 {
        Seq::empty()
    } else {
        let r = params_of(t, kids.drop_last());
        let c = kids.last();
        if t.kind(c) == "formal_parameter"@ || t.kind(c) == "spread_parameter"@ {
            let (ty, nm) = param_parts(t, t.children(c));
            if nm.len() > 0 || ty.len() > 0 { r.push((nm, ty)) } else { r }
        } else {
            r
        }
    }
}

/// The parameters of method or constructor `i`.
pub open spec fn java_params(t: SyntaxTree, i: int) -> Seq<(Seq<char>, Seq<char>)> {
    match t.field_child(i, "parameters"@) {
        Some(p) => params_of(t, t.children(p)),
        None => Seq::empty(),
    }
}

/// The non-empty type names among `kids`.
pub open spec fn throw_types(t: SyntaxTree, kids: Seq<int>) -> Seq<Seq<char>>
    decreases kids.len(),
{
    if kids.len() == 0 {
        Seq::empty()
    } else {
        let r = throw_types(t, kids.drop_last());
        let c = kids.last();
        if (t.kind(c) == "type_identifier"@ || t.kind(c) == "scoped_type_identifier"@) && t.text(c).len() > 0 {
            r.push(t.text(c))
        } else {
            r
        }
    }
}

/// The types of the `throws` clauses among `kids`.
pub open spec fn throws_over(t: SyntaxTree, kids: Seq<int>) -> Seq<Seq<char>>
    decreases kids.len(),
{
    if kids.len() == 0 {
        Seq::empty()
    } else {
        let r = throws_over(t, kids.drop_last());
        if t.kind(kids.last()) == "throws"@ {
            r + throw_types(t, t.children(kids.last()))
        } else {
            r
        }
    }
}

/// The superclass among `kids` (the last `superclass` clause naming one).
pub open spec fn extends_over(t: SyntaxTree, kids: Seq<int>) -> Option<Seq<char>>
    decreases kids.len(),
{
    if kids.len() == 0 {
        None
    } else {
        let r = extends_over(t, kids.drop_last());
        let c = kids.last();
        if t.kind(c) == "superclass"@ {
            match first_kind2(t, t.children(c), "type_identifier"@, "generic_type"@) {
                Some(x) => Some(t.text(x)),
                None => r,
            }
        } else {
            r
        }
    }
}

/// The texts of the (possibly generic) type names among `kids`.
pub open spec fn type_texts(t: SyntaxTree, kids: Seq<int>) -> Seq<Seq<char>>
    decreases kids.len(),
{
    if kids.len() == 0 {
        Seq::empty()
    } else {
        let r = type_texts(t, kids.drop_last());
        let c = kids.last();
        if t.kind(c) == "type_identifier"@ || t.kind(c) == "generic_type"@ { r.push(t.text(c)) } else { r }
    }
}

/// The types of the type lists among `kids`.
pub open spec fn type_lists(t: SyntaxTree, kids: Seq<int>) -> Seq<Seq<char>>
    decreases kids.len(),
{
    if kids.len() == 0 {
        Seq::empty()
    } else {
        let r = type_lists(t, kids.drop_last());
        let c = kids.last();
        if t.kind(c) == "type_list"@ || t.kind(c) == "interface_type_list"@ {
            r + type_texts(t, t.children(c))
        } else {
            r
        }
    }
}

/// The interfaces named by the `super_interfaces` clauses among `kids`.
pub open spec fn implements_over(t: SyntaxTree, kids: Seq<int>) -> Seq<Seq<char>>
    decreases kids.len(),
{
    if kids.len() == 0 {
        Seq::empty()
    } else {
        let r = implements_over(t, kids.drop_last());
        let c = kids.last();
        if t.kind(c) == "super_interfaces"@ { r + type_lists(t, t.children(c)) } else { r }
    }
}

/// The declarators of field `i` among `kids` that name a field.
pub open spec fn field_sources(t: SyntaxTree, i: int, kids: Seq<int>) -> Seq<(int, int, int)>
    decreases kids.len(),
{
    if kids.len() == 0 {
        Seq::empty()
    } else {
        let r = field_sources(t, i, kids.drop_last());
        let c = kids.last();
        if t.kind(c) == "variable_declarator"@ && t.field_text(c, "name"@).len() > 0 {
            r.push((5, i, c))
        } else {
            r
        }
    }
}

pub open spec fn is_public_or_protected(mods: Seq<Seq<char>>) -> bool {
    mods.contains("public"@) || mods.contains("protected"@)
}

// ─── the walk ───────────────────────────────────────────────────────────────

/// What the walk has found: the package, the imports, and where each
/// signature comes from (a tag — class 0, interface 1, enum 2, method 3,
/// constructor 4, field 5 — the declaration, and for a field its
/// declarator).
pub type JavaFound = (Option<Seq<char>>, Seq<Seq<char>>, Seq<(int, int, int)>);

/// The walk from node `i`: package and import declarations are read, the
/// declarations recorded (classes, interfaces and enums then walk their
/// body), and any other node walks its children.
pub open spec fn jwalk(t: SyntaxTree, i: int, st: JavaFound) -> JavaFound
    decreases t.len() - i, 1int,
{
    if i < 0 || i >= t.len() {
        st
    } else {
        let k = t.kind(i);
        if k == "package_declaration"@ {
            match first_kind2(t, t.children(i), "scoped_identifier"@, "identifier"@) {
                Some(c) => (Some(t.text(c)), st.1, st.2),
                None => st,
            }
        } else if k == "import_declaration"@ {
            match first_kind2(t, t.children(i), "scoped_identifier"@, "identifier"@) {
                Some(c) => (st.0, st.1.push(t.text(c)), st.2),
                None => st,
            }
        } else if k == "class_declaration"@ || k == "interface_declaration"@ || k == "enum_declaration"@ {
            let tag: int = if k == "class_declaration"@ { 0 } else if k == "interface_declaration"@ { 1 } else { 2 };
            let st2 = (st.0, st.1, st.2.push((tag, i, 0)));
            match t.field_child(i, "body"@) {
                Some(b) => if i < b < t.len() { jwalk_from(t, b, b + 1, st2) } else { st2 },
                None => st2,
            }
        } else if k == "method_declaration"@ {
            (st.0, st.1, st.2.push((3, i, 0)))
        } else if k == "constructor_declaration"@ {
            (st.0, st.1, st.2.push((4, i, 0)))
        } else if k == "field_declaration"@ {
            if is_public_or_protected(java_modifiers(t, i)) {
                (st.0, st.1, st.2 + field_sources(t, i, t.children(i)))
            } else {
                st
            }
        } else {
            jwalk_from(t, i, i + 1, st)
        }
    }
}

/// The walk of the children of `p` found at positions `k` and after.
pub open spec fn jwalk_from(t: SyntaxTree, p: int, k: int, st: JavaFound) -> JavaFound
    decreases t.len() - k, 2int,
{
    if k <= p || k >= t.len() || t.depth(k) <= t.depth(p) {
        st
    } else if t.depth(k) == t.depth(p) + 1 {
        jwalk_from(t, p, k + 1, jwalk(t, k, st))
    } else {
        jwalk_from(t, p, k + 1, st)
    }
}

/// What the walk of the whole tree finds.
pub open spec fn java_found(t: SyntaxTree) -> JavaFound {
    if t.len() > 0 {
        jwalk(t, 0, (None, Seq::empty(), Seq::empty()))
    } else {
        (None, Seq::empty(), Seq::empty())
    }
}

pub open spec fn param_views(v: Seq<Param>) -> Seq<(Seq<char>, Seq<char>)> {
    v.map_values(|p: Param| (p.name@, p.type_@))
}

/// `s` is the signature recorded from `src`.
pub open spec fn java_sig(s: Signature, t: SyntaxTree, src: (int, int, int)) -> bool {
    let (tag, i, j) = src;
    let doc = javadoc(t, i);
    &&& s.line == line_of(t.nodes@[i].row)
    &&& s.has_docstring == doc is Some
    &&& opt_view(s.docstring_text) == doc
    &&& s.existing_word_count == 0
    &&& s.annotations@.len() == 0
    &&& string_views(s.modifiers@) == java_modifiers(t, i)
    &&& if tag == 5 {
        &&& s.kind@ == "field"@
        &&& s.name@ == t.field_text(j, "name"@)
        &&& s.params is None
        &&& opt_view(s.return_type) == Some(t.field_text(i, "type"@))
        &&& s.throws@.len() == 0
        &&& s.extends is None
        &&& s.implements@.len() == 0
    } else if tag == 3 || tag == 4 {
        &&& s.kind@ == (if tag == 3 { "method"@ } else { "constructor"@ })
        &&& s.name@ == t.field_text(i, "name"@)
        &&& s.params matches Some(ps) && param_views(ps@) == java_params(t, i)
        &&& opt_view(s.return_type) == (if tag == 3 {
            match t.field_child(i, "type"@) {
                Some(c) => Some(t.text(c)),
                None => None,
            }
        } else {
            None
        })
        &&& string_views(s.throws@) == throws_over(t, t.children(i))
        &&& s.extends is None
        &&& s.implements@.len() == 0
    } else {
        &&& s.kind@ == (if tag == 0 { "class"@ } else if tag == 1 { "interface"@ } else { "enum"@ })
        &&& s.name@ == t.field_text(i, "name"@)
        &&& s.params is None
        &&& s.return_type is None
        &&& s.throws@.len() == 0
        &&& opt_view(s.extends) == (if tag == 0 { extends_over(t, t.children(i)) } else { None })
        &&& string_views(s.implements@) == (if tag == 0 { implements_over(t, t.children(i)) } else { Seq::empty() })
    }
}

/// `r` is what the Java parser gives for the tree `t`: the last package
/// declaration, the imports in order, a signature for each declaration in
/// document order, and the documented count out of all of them.
pub open spec fn java_result(r: ParseResult, t: SyntaxTree) -> bool {
    let f = java_found(t);
    &&& opt_view(r.package) == f.0
    &&& string_views(r.raw_imports@) == f.1
    &&& r.signatures@.len() == f.2.len()
    &&& forall|k: int| 0 <= k < f.2.len() ==> java_sig(#[trigger] r.signatures@[k], t, f.2[k])
    &&& r.documented == documented_count(r.signatures@)
    &&& r.documentable == r.signatures@.len()
}

// ─── reading a node ─────────────────────────────────────────────────────────

fn is_modifier_kind(k: &str) -> (r: bool)
    ensures
        r == is_java_modifier(k@),
{
    str_eq(k, "public") || str_eq(k, "private") || str_eq(k, "protected") || str_eq(k, "static")
        || str_eq(k, "final") || str_eq(k, "abstract") || str_eq(k, "synchronized") || str_eq(k, "native")
        || str_eq(k, "transient") || str_eq(k, "volatile") || str_eq(k, "strictfp")
}

fn modifiers_exec(t: &SyntaxTree, i: usize) -> (r: Vec<String>)
    requires
        t.wf(),
        i < t.nodes@.len(),
    ensures
        string_views(r@) == java_modifiers(*t, i as int),
{
    let mut r: Vec<String> = Vec::new();
    let m = match t.first_child_kind2(i, "modifiers", "modifiers") {
        Some(m) => m,
        None => {
            assert(string_views(r@) =~= Seq::<Seq<char>>::empty());
            return r;
        },
    };
    let kids = t.child_indices(m);
    let ghost ks = t.children(m as int);
    let mut j: usize = 0;
    while j < kids.len()
        invariant
            as_ints(kids@) == ks,
            forall|k: int| 0 <= k < kids@.len() ==> m < #[trigger] kids@[k] < t.nodes@.len(),
            j <= kids@.len(),
            string_views(r@) == modifier_texts(*t, ks.take(j as int)),
        decreases kids.len() - j,
    {
        let c = kids[j];
        assert(ks.take(j + 1).drop_last() =~= ks.take(j as int));
        assert(ks.take(j + 1).last() == c as int);
        let ghost before = string_views(r@);
        if is_modifier_kind(t.nodes[c].kind.as_str()) {
            r.push(t.nodes[c].text.clone());
            assert(string_views(r@) =~= before.push(t.text(c as int)));
        }
        j += 1;
    }
    assert(ks.take(kids@.len() as int) =~= ks);
    r
}

fn javadoc_exec(t: &SyntaxTree, i: usize) -> (r: Option<String>)
    requires
        t.wf(),
        i < t.nodes@.len(),
    ensures
        opt_view(r) == javadoc(*t, i as int),
{
    let mut s = match t.prev_sibling_index(i) {
        Some(s) => s,
        None => return None,
    };
    loop
        invariant
            s < t.nodes@.len(),
            javadoc(*t, i as int) == javadoc_from(*t, s as int),
        decreases s,
    {
        let k = t.nodes[s].kind.as_str();
        if str_eq(k, "block_comment") {
            let text = &t.nodes[s].text;
            let cs = chars_of(text.as_str());
            if starts_with_str(cs.as_slice(), "/**") {
                return Some(text.clone());
            }
            return None;
        } else if str_eq(k, "line_comment") || t.nodes[s].extra {
            match t.prev_sibling_index(s) {
                Some(p) => {
                    s = p;
                },
                None => return None,
            }
        } else {
            return None;
        }
    }
}

fn is_param_type(k: &str) -> (r: bool)
    ensures
        r == is_param_type_kind(k@),
{
    str_eq(k, "type_identifier") || str_eq(k, "generic_type") || str_eq(k, "array_type") || str_eq(k, "integral_type")
        || str_eq(k, "floating_point_type") || str_eq(k, "boolean_type") || str_eq(k, "void_type")
        || str_eq(k, "scoped_type_identifier")
}

fn param_exec(t: &SyntaxTree, c: usize) -> (r: (String, String))
    requires
        t.wf(),
        c < t.nodes@.len(),
    ensures
        (r.0@, r.1@) == param_parts(*t, t.children(c as int)),
{
    let kids = t.child_indices(c);
    let ghost ks = t.children(c as int);
    let mut ty = String::new();
    let mut nm = String::new();
    let mut j: usize = 0;
    while j < kids.len()
        invariant
            as_ints(kids@) == ks,
            forall|k: int| 0 <= k < kids@.len() ==> c < #[trigger] kids@[k] < t.nodes@.len(),
            j <= kids@.len(),
            (ty@, nm@) == param_parts(*t, ks.take(j as int)),
        decreases kids.len() - j,
    {
        let x = kids[j];
        assert(ks.take(j + 1).drop_last() =~= ks.take(j as int));
        assert(ks.take(j + 1).last() == x as int);
        let k = t.nodes[x].kind.as_str();
        if is_param_type(k) {
            ty = t.nodes[x].text.clone();
        } else if str_eq(k, "variable_declarator_id") {
            nm = match t.field_child_index(x, "name") {
                Some(id) => t.nodes[id].text.clone(),
                None => t.nodes[x].text.clone(),
            };
        } else if str_eq(k, "identifier") {
            nm = t.nodes[x].text.clone();
        }
        j += 1;
    }
    assert(ks.take(kids@.len() as int) =~= ks);
    (ty, nm)
}

fn params_exec(t: &SyntaxTree, i: usize) -> (r: Vec<Param>)
    requires
        t.wf(),
        i < t.nodes@.len(),
    ensures
        param_views(r@) == java_params(*t, i as int),
{
    let mut r: Vec<Param> = Vec::new();
    let p = match t.field_child_index(i, "parameters") {
        Some(p) => p,
        None => {
            assert(param_views(r@) =~= Seq::<(Seq<char>, Seq<char>)>::empty());
            return r;
        },
    };
    let kids = t.child_indices(p);
    let ghost ks = t.children(p as int);
    let mut j: usize = 0;
    while j < kids.len()
        invariant
            t.wf(),
            as_ints(kids@) == ks,
            forall|k: int| 0 <= k < kids@.len() ==> p < #[trigger] kids@[k] < t.nodes@.len(),
            j <= kids@.len(),
            param_views(r@) == params_of(*t, ks.take(j as int)),
        decreases kids.len() - j,
    {
        let c = kids[j];
        assert(ks.take(j + 1).drop_last() =~= ks.take(j as int));
        assert(ks.take(j + 1).last() == c as int);
        let k = t.nodes[c].kind.as_str();
        if str_eq(k, "formal_parameter") || str_eq(k, "spread_parameter") {
            let (ty, nm) = param_exec(t, c);
            if !nm.as_str().is_empty() || !ty.as_str().is_empty() {
                let ghost before = param_views(r@);
                r.push(Param { name: nm, type_: ty });
                assert(param_views(r@) =~= before.push((r@.last().name@, r@.last().type_@)));
            }
        }
        j += 1;
    }
    assert(ks.take(kids@.len() as int) =~= ks);
    r
}

fn throw_types_exec(t: &SyntaxTree, c: usize, out: &mut Vec<String>)
    requires
        t.wf(),
        c < t.nodes@.len(),
    ensures
        string_views(final(out)@) == string_views(old(out)@) + throw_types(*t, t.children(c as int)),
{
    let kids = t.child_indices(c);
    let ghost ks = t.children(c as int);
    let ghost start = string_views(out@);
    let mut j: usize = 0;
    while j < kids.len()
        invariant
            as_ints(kids@) == ks,
            forall|k: int| 0 <= k < kids@.len() ==> c < #[trigger] kids@[k] < t.nodes@.len(),
            j <= kids@.len(),
            string_views(out@) == start + throw_types(*t, ks.take(j as int)),
        decreases kids.len() - j,
    {
        let x = kids[j];
        assert(ks.take(j + 1).drop_last() =~= ks.take(j as int));
        assert(ks.take(j + 1).last() == x as int);
        let k = t.nodes[x].kind.as_str();
        let ghost before = string_views(out@);
        if (str_eq(k, "type_identifier") || str_eq(k, "scoped_type_identifier")) && !t.nodes[x].text.as_str().is_empty() {
            out.push(t.nodes[x].text.clone());
            assert(string_views(out@) =~= before.push(t.text(x as int)));
        }
        j += 1;
    }
    assert(ks.take(kids@.len() as int) =~= ks);
}

fn throws_exec(t: &SyntaxTree, i: usize) -> (r: Vec<String>)
    requires
        t.wf(),
        i < t.nodes@.len(),
    ensures
        string_views(r@) == throws_over(*t, t.children(i as int)),
{
    let kids = t.child_indices(i);
    let ghost ks = t.children(i as int);
    let mut r: Vec<String> = Vec::new();
    let mut j: usize = 0;
    while j < kids.len()
        invariant
            t.wf(),
            as_ints(kids@) == ks,
            forall|k: int| 0 <= k < kids@.len() ==> i < #[trigger] kids@[k] < t.nodes@.len(),
            j <= kids@.len(),
            string_views(r@) == throws_over(*t, ks.take(j as int)),
        decreases kids.len() - j,
    {
        let x = kids[j];
        assert(ks.take(j + 1).drop_last() =~= ks.take(j as int));
        assert(ks.take(j + 1).last() == x as int);
        if str_eq(t.nodes[x].kind.as_str(), "throws") {
            throw_types_exec(t, x, &mut r);
        }
        j += 1;
    }
    assert(ks.take(kids@.len() as int) =~= ks);
    r
}

fn type_texts_exec(t: &SyntaxTree, c: usize, out: &mut Vec<String>)
    requires
        t.wf(),
        c < t.nodes@.len(),
    ensures
        string_views(final(out)@) == string_views(old(out)@) + type_texts(*t, t.children(c as int)),
{
    let kids = t.child_indices(c);
    let ghost ks = t.children(c as int);
    let ghost start = string_views(out@);
    let mut j: usize = 0;
    while j < kids.len()
        invariant
            as_ints(kids@) == ks,
            forall|k: int| 0 <= k < kids@.len() ==> c < #[trigger] kids@[k] < t.nodes@.len(),
            j <= kids@.len(),
            string_views(out@) == start + type_texts(*t, ks.take(j as int)),
        decreases kids.len() - j,
    {
        let x = kids[j];
        assert(ks.take(j + 1).drop_last() =~= ks.take(j as int));
        assert(ks.take(j + 1).last() == x as int);
        let k = t.nodes[x].kind.as_str();
        let ghost before = string_views(out@);
        if str_eq(k, "type_identifier") || str_eq(k, "generic_type") {
            out.push(t.nodes[x].text.clone());
            assert(string_views(out@) =~= before.push(t.text(x as int)));
        }
        j += 1;
    }
    assert(ks.take(kids@.len() as int) =~= ks);
}

fn type_lists_exec(t: &SyntaxTree, c: usize, out: &mut Vec<String>)
    requires
        t.wf(),
        c < t.nodes@.len(),
    ensures
        string_views(final(out)@) == string_views(old(out)@) + type_lists(*t, t.children(c as int)),
{
    let kids = t.child_indices(c);
    let ghost ks = t.children(c as int);
    let ghost start = string_views(out@);
    let mut j: usize = 0;
    while j < kids.len()
        invariant
            t.wf(),
            as_ints(kids@) == ks,
            forall|k: int| 0 <= k < kids@.len() ==> c < #[trigger] kids@[k] < t.nodes@.len(),
            j <= kids@.len(),
            string_views(out@) == start + type_lists(*t, ks.take(j as int)),
        decreases kids.len() - j,
    {
        let x = kids[j];
        assert(ks.take(j + 1).drop_last() =~= ks.take(j as int));
        assert(ks.take(j + 1).last() == x as int);
        let k = t.nodes[x].kind.as_str();
        let ghost before = string_views(out@);
        if str_eq(k, "type_list") || str_eq(k, "interface_type_list") {
            type_texts_exec(t, x, out);
            assert(start + type_lists(*t, ks.take(j + 1)) =~= before + type_texts(*t, t.children(x as int)));
        }
        j += 1;
    }
    assert(ks.take(kids@.len() as int) =~= ks);
}

fn extends_exec(t: &SyntaxTree, i: usize) -> (r: Option<String>)
    requires
        t.wf(),
        i < t.nodes@.len(),
    ensures
        opt_view(r) == extends_over(*t, t.children(i as int)),
{
    let kids = t.child_indices(i);
    let ghost ks = t.children(i as int);
    let mut ext: Option<String> = None;
    let mut j: usize = 0;
    while j < kids.len()
        invariant
            t.wf(),
            as_ints(kids@) == ks,
            forall|k: int| 0 <= k < kids@.len() ==> i < #[trigger] kids@[k] < t.nodes@.len(),
            j <= kids@.len(),
            opt_view(ext) == extends_over(*t, ks.take(j as int)),
        decreases kids.len() - j,
    {
        let x = kids[j];
        assert(ks.take(j + 1).drop_last() =~= ks.take(j as int));
        assert(ks.take(j + 1).last() == x as int);
        if str_eq(t.nodes[x].kind.as_str(), "superclass") {
            match t.first_child_kind2(x, "type_identifier", "generic_type") {
                Some(y) => {
                    ext = Some(t.nodes[y].text.clone());
                },
                None => {},
            }
        }
        j += 1;
    }
    assert(ks.take(kids@.len() as int) =~= ks);
    ext
}

fn implements_exec(t: &SyntaxTree, i: usize) -> (r: Vec<String>)
    requires
        t.wf(),
        i < t.nodes@.len(),
    ensures
        string_views(r@) == implements_over(*t, t.children(i as int)),
{
    let kids = t.child_indices(i);
    let ghost ks = t.children(i as int);
    let mut imps: Vec<String> = Vec::new();
    let mut j: usize = 0;
    while j < kids.len()
        invariant
            t.wf(),
            as_ints(kids@) == ks,
            forall|k: int| 0 <= k < kids@.len() ==> i < #[trigger] kids@[k] < t.nodes@.len(),
            j <= kids@.len(),
            string_views(imps@) == implements_over(*t, ks.take(j as int)),
        decreases kids.len() - j,
    {
        let x = kids[j];
        assert(ks.take(j + 1).drop_last() =~= ks.take(j as int));
        assert(ks.take(j + 1).last() == x as int);
        if str_eq(t.nodes[x].kind.as_str(), "super_interfaces") {
            type_lists_exec(t, x, &mut imps);
        }
        j += 1;
    }
    assert(ks.take(kids@.len() as int) =~= ks);
    imps
}

fn field_sources_exec(t: &SyntaxTree, i: usize, out: &mut Vec<(usize, usize, usize)>)
    requires
        t.wf(),
        i < t.nodes@.len(),
        forall|k: int| 0 <= k < old(out)@.len() ==> (#[trigger] old(out)@[k]).1 < t.nodes@.len()
            && old(out)@[k].2 < t.nodes@.len(),
    ensures
        triples(final(out)@) == triples(old(out)@) + field_sources(*t, i as int, t.children(i as int)),
        forall|k: int| 0 <= k < final(out)@.len() ==> (#[trigger] final(out)@[k]).1 < t.nodes@.len()
            && final(out)@[k].2 < t.nodes@.len(),
{
    let kids = t.child_indices(i);
    let ghost ks = t.children(i as int);
    let ghost start = triples(out@);
    let mut j: usize = 0;
    while j < kids.len()
        invariant
            t.wf(),
            as_ints(kids@) == ks,
            forall|k: int| 0 <= k < kids@.len() ==> i < #[trigger] kids@[k] < t.nodes@.len(),
            j <= kids@.len(),
            triples(out@) == start + field_sources(*t, i as int, ks.take(j as int)),
            forall|k: int| 0 <= k < out@.len() ==> (#[trigger] out@[k]).1 < t.nodes@.len() && out@[k].2 < t.nodes@.len(),
        decreases kids.len() - j,
    {
        let x = kids[j];
        assert(ks.take(j + 1).drop_last() =~= ks.take(j as int));
        assert(ks.take(j + 1).last() == x as int);
        let ghost before = triples(out@);
        if str_eq(t.nodes[x].kind.as_str(), "variable_declarator") {
            let name = t.field_text_of(x, "name");
            if !name.as_str().is_empty() {
                out.push((5, i, x));
                assert(triples(out@) =~= before.push((5, i as int, x as int)));
                assert(start + field_sources(*t, i as int, ks.take(j + 1)) =~= (start + field_sources(
                    *t,
                    i as int,
                    ks.take(j as int),
                )).push((5, i as int, x as int)));
            }
        }
        j += 1;
    }
    assert(ks.take(kids@.len() as int) =~= ks);
}

pub open spec fn triples(v: Seq<(usize, usize, usize)>) -> Seq<(int, int, int)> {
    v.map_values(|x: (usize, usize, usize)| (x.0 as int, x.1 as int, x.2 as int))
}

fn contains_text(v: &Vec<String>, s: &str) -> (r: bool)
    ensures
        r == string_views(v@).contains(s@),
{
    crate::scanner::contains_str(v, s)
}

// ─── the walk, run ──────────────────────────────────────────────────────────

/// What the walk has found so far, as the walk holds it.
pub struct JavaState {
    pub package: Option<String>,
    pub imports: Vec<String>,
    pub sources: Vec<(usize, usize, usize)>,
}

pub open spec fn state_view(s: JavaState) -> JavaFound {
    (opt_view(s.package), string_views(s.imports@), triples(s.sources@))
}

/// Every recorded source points into the tree.
pub open spec fn sources_ok(s: JavaState, t: SyntaxTree) -> bool {
    forall|k: int| 0 <= k < s.sources@.len() ==> (#[trigger] s.sources@[k]).1 < t.nodes@.len()
        && s.sources@[k].2 < t.nodes@.len()
}

fn jwalk_exec(t: &SyntaxTree, i: usize, st: &mut JavaState)
    requires
        t.wf(),
        i < t.nodes@.len(),
        sources_ok(*old(st), *t),
    ensures
        state_view(*final(st)) == jwalk(*t, i as int, state_view(*old(st))),
        sources_ok(*final(st), *t),
    decreases t.nodes@.len() - i,
{
    let k = t.nodes[i].kind.as_str();
    if str_eq(k, "package_declaration") {
        match t.first_child_kind2(i, "scoped_identifier", "identifier") {
            Some(c) => {
                st.package = Some(t.nodes[c].text.clone());
            },
            None => {},
        }
    } else if str_eq(k, "import_declaration") {
        match t.first_child_kind2(i, "scoped_identifier", "identifier") {
            Some(c) => {
                let ghost before = string_views(st.imports@);
                st.imports.push(t.nodes[c].text.clone());
                assert(string_views(st.imports@) =~= before.push(t.text(c as int)));
            },
            None => {},
        }
    } else if str_eq(k, "class_declaration") || str_eq(k, "interface_declaration") || str_eq(k, "enum_declaration") {
        let tag: usize = if str_eq(k, "class_declaration") {
            0
        } else if str_eq(k, "interface_declaration") {
            1
        } else {
            2
        };
        let ghost before = triples(st.sources@);
        st.sources.push((tag, i, 0));
        assert(triples(st.sources@) =~= before.push((tag as int, i as int, 0)));
        match t.field_child_index(i, "body") {
            Some(b) => {
                jwalk_children(t, b, st);
            },
            None => {},
        }
    } else if str_eq(k, "method_declaration") || str_eq(k, "constructor_declaration") {
        let tag: usize = if str_eq(k, "method_declaration") { 3 } else { 4 };
        let ghost before = triples(st.sources@);
        st.sources.push((tag, i, 0));
        assert(triples(st.sources@) =~= before.push((tag as int, i as int, 0)));
    } else if str_eq(k, "field_declaration") {
        let mods = modifiers_exec(t, i);
        if contains_text(&mods, "public") || contains_text(&mods, "protected") {
            field_sources_exec(t, i, &mut st.sources);
        }
    } else {
        jwalk_children(t, i, st);
    }
}

fn jwalk_children(t: &SyntaxTree, p: usize, st: &mut JavaState)
    requires
        t.wf(),
        p < t.nodes@.len(),
        sources_ok(*old(st), *t),
    ensures
        state_view(*final(st)) == jwalk_from(*t, p as int, p as int + 1, state_view(*old(st))),
        sources_ok(*final(st), *t),
    decreases t.nodes@.len() - p, 0int,
{
    let n = t.nodes.len();
    let mut k: usize = p + 1;
    while k < t.nodes.len() && t.nodes[k].depth > t.nodes[p].depth
        invariant
            t.wf(),
            n == t.nodes@.len(),
            p < k <= t.nodes@.len(),
            sources_ok(*st, *t),
            jwalk_from(*t, p as int, p as int + 1, state_view(*old(st))) == jwalk_from(*t, p as int, k as int, state_view(*st)),
        decreases t.nodes.len() - k,
    {
        if t.nodes[k].depth == t.nodes[p].depth + 1 {
            jwalk_exec(t, k, st);
        }
        k += 1;
    }
}

// ─── the signatures ─────────────────────────────────────────────────────────

fn java_signature(t: &SyntaxTree, src: (usize, usize, usize)) -> (r: Signature)
    requires
        t.wf(),
        src.1 < t.nodes@.len(),
        src.2 < t.nodes@.len(),
    ensures
        java_sig(r, *t, (src.0 as int, src.1 as int, src.2 as int)),
{
    let (tag, i, j) = src;
    let doc = javadoc_exec(t, i);
    let line = line_exec(t.nodes[i].row);
    let modifiers = modifiers_exec(t, i);
    let has_docstring = doc.is_some();
    if tag == 5 {
        Signature {
            kind: owned("field"),
            name: t.field_text_of(j, "name"),
            modifiers,
            params: None,
            return_type: Some(t.field_text_of(i, "type")),
            throws: Vec::new(),
            extends: None,
            implements: Vec::new(),
            annotations: Vec::new(),
            line,
            has_docstring,
            existing_word_count: 0,
            docstring_text: doc,
        }
    } else if tag == 3 || tag == 4 {
        let return_type = if tag == 3 {
            match t.field_child_index(i, "type") {
                Some(c) => Some(t.nodes[c].text.clone()),
                None => None,
            }
        } else {
            None
        };
        Signature {
            kind: if tag == 3 { owned("method") } else { owned("constructor") },
            name: t.field_text_of(i, "name"),
            modifiers,
            params: Some(params_exec(t, i)),
            return_type,
            throws: throws_exec(t, i),
            extends: None,
            implements: Vec::new(),
            annotations: Vec::new(),
            line,
            has_docstring,
            existing_word_count: 0,
            docstring_text: doc,
        }
    } else {
        let (extends, implements) = if tag == 0 {
            (extends_exec(t, i), implements_exec(t, i))
        } else {
            let v: Vec<String> = Vec::new();
            assert(string_views(v@) =~= Seq::<Seq<char>>::empty());
            (None, v)
        };
        Signature {
            kind: if tag == 0 { owned("class") } else if tag == 1 { owned("interface") } else { owned("enum") },
            name: t.field_text_of(i, "name"),
            modifiers,
            params: None,
            return_type: None,
            throws: Vec::new(),
            extends,
            implements,
            annotations: Vec::new(),
            line,
            has_docstring,
            existing_word_count: 0,
            docstring_text: doc,
        }
    }
}

/// What the Java parser finds in the syntax tree `t` (see `java_result`).
pub fn java_extract(t: &SyntaxTree) -> (r: ParseResult)
    requires
        t.wf(),
    ensures
        java_result(r, *t),
{
    let mut st = JavaState { package: None, imports: Vec::new(), sources: Vec::new() };
    proof {
        assert(string_views(st.imports@) =~= Seq::<Seq<char>>::empty());
        assert(triples(st.sources@) =~= Seq::<(int, int, int)>::empty());
    }
    if t.nodes.len() > 0 {
        jwalk_exec(t, 0, &mut st);
    }
    let ghost f = java_found(*t);
    let mut sigs: Vec<Signature> = Vec::new();
    let mut k: usize = 0;
    while k < st.sources.len()
        invariant
            t.wf(),
            sources_ok(st, *t),
            state_view(st) == f,
            k <= st.sources@.len(),
            sigs@.len() == k,
            forall|x: int| 0 <= x < k ==> java_sig(#[trigger] sigs@[x], *t, f.2[x]),
        decreases st.sources.len() - k,
    {
        let src = st.sources[k];
        assert(f.2[k as int] == (src.0 as int, src.1 as int, src.2 as int));
        sigs.push(java_signature(t, src));
        k += 1;
    }
    let documented = crate::parsers::count_documented(&sigs);
    let documentable = sigs.len();
    ParseResult { raw_imports: st.imports, signatures: sigs, package: st.package, documented, documentable }
}

} // verus!
