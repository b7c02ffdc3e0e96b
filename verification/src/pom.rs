//! Maven project metadata from `pom.xml`: the service's coordinates, its
//! version with `${property}` references resolved, and its internal SDK
//! dependencies.

use vstd::prelude::*;
use crate::text::{owned, str_eq, chars_of, string_of, trim, trim_chars, starts_with, ends_with,
    starts_with_str, ends_with_str, slice_chars};

verus! {

broadcast use vstd::string::group_string_axioms;

/// One node of an XML document, in document order.
#[derive(Debug)]
pub struct XmlNode {
    pub element: bool,
    /// The tag's local name (empty for other nodes).
    pub name: String,
    /// `Node::text`: an element's first text child, a text node's text.
    pub text: Option<String>,
    /// The number of its ancestors, itself included (the document root: 1).
    pub depth: usize,
}

#[verifier::external_type_specification]
#[verifier::external_body]
pub struct ExXmlDocument<'input>(roxmltree::Document<'input>);

#[verifier::external_type_specification]
#[verifier::external_body]
pub struct ExXmlNode<'a, 'input: 'a>(roxmltree::Node<'a, 'input>);

/// The message `roxmltree::Document::parse` gives for `content`, where it
/// does not parse.
pub uninterp spec fn xml_error(content: Seq<char>) -> Option<Seq<char>>;

/// The node of the document parsed from `content` reached from the
/// document root by the child positions `path`: whether it is an element,
/// its tag's local name, its text (`Node::text`); `None` where there is no
/// node.
pub uninterp spec fn xml_node_at(content: Seq<char>, path: Seq<int>) -> Option<(bool, Seq<char>, Option<Seq<char>>)>;

/// How many nodes that document has, its root counted.
pub uninterp spec fn xml_node_count(content: Seq<char>) -> usize;

/// The text a document was parsed from (it keeps it).
pub uninterp spec fn doc_text(d: roxmltree::Document) -> Seq<char>;

/// The text of the document a node belongs to.
pub uninterp spec fn node_origin(n: roxmltree::Node) -> Seq<char>;

/// The child positions leading from the document root to a node.
pub uninterp spec fn node_path(n: roxmltree::Node) -> Seq<int>;

/// `roxmltree::Document::parse`, its error as text.
#[verifier::external_body]
fn xml_parse(content: &str) -> (r: Result<roxmltree::Document<'_>, String>)
    ensures
        r is Err <==> xml_error(content@) is Some,
        r matches Err(m) ==> xml_error(content@) == Some(m@),
        r matches Ok(d) ==> doc_text(d) == content@,
{
    roxmltree::Document::parse(content).map_err(|e| e.to_string())
}

/// `Document::descendants().count()`: the number of nodes, the root counted.
#[verifier::external_body]
fn xml_count<'input>(d: &roxmltree::Document<'input>) -> (r: usize)
    ensures
        r == xml_node_count(doc_text(*d)),
        r >= 1,
{
    d.descendants().count()
}

/// `Document::root`: the document's root node.
#[verifier::external_body]
fn xml_root<'a, 'input>(d: &'a roxmltree::Document<'input>) -> (r: roxmltree::Node<'a, 'input>)
    ensures
        node_origin(r) == doc_text(*d),
        node_path(r) == Seq::<int>::empty(),
{
    d.root()
}

/// `Node::first_child`.
#[verifier::external_body]
fn xml_first_child<'a, 'input>(n: roxmltree::Node<'a, 'input>) -> (r: Option<roxmltree::Node<'a, 'input>>)
    ensures
        r is Some <==> xml_node_at(node_origin(n), node_path(n).push(0)) is Some,
        r matches Some(c) ==> node_origin(c) == node_origin(n) && node_path(c) == node_path(n).push(0),
{
    n.first_child()
}

/// The path of the next sibling of the node at `p` (the root has none).
pub open spec fn next_sibling_of(p: Seq<int>) -> Seq<int> {
    if p.len() > 0 { p.drop_last().push(p.last() + 1) } else { p }
}

/// `Node::next_sibling`.
#[verifier::external_body]
fn xml_next_sibling<'a, 'input>(n: roxmltree::Node<'a, 'input>) -> (r: Option<roxmltree::Node<'a, 'input>>)
    ensures
        r is Some <==> (0 < node_path(n).len() && xml_node_at(node_origin(n), next_sibling_of(node_path(n))) is Some),
        r matches Some(c) ==> node_origin(c) == node_origin(n) && node_path(c) == next_sibling_of(node_path(n)),
{
    n.next_sibling()
}

/// `Node::parent`.
#[verifier::external_body]
fn xml_parent<'a, 'input>(n: roxmltree::Node<'a, 'input>) -> (r: Option<roxmltree::Node<'a, 'input>>)
    ensures
        r is Some <==> 0 < node_path(n).len(),
        r matches Some(c) ==> node_origin(c) == node_origin(n) && node_path(c) == node_path(n).drop_last(),
{
    n.parent()
}

/// `Node::is_element`, `Node::tag_name().name()` and `Node::text`.
#[verifier::external_body]
fn xml_info<'a, 'input>(n: roxmltree::Node<'a, 'input>) -> (r: (bool, String, Option<String>))
    ensures
        xml_node_at(node_origin(n), node_path(n)) == Some((r.0, r.1@, crate::text::opt_view(r.2))),
{
    (n.is_element(), n.tag_name().name().to_string(), n.text().map(|t| t.to_string()))
}

pub open spec fn xml_has(s: Seq<char>, p: Seq<int>) -> bool {
    xml_node_at(s, p) is Some
}

/// No node on the way from the node at `p` up to level `d` has a next
/// sibling.
pub open spec fn xml_closed_below(s: Seq<char>, p: Seq<int>, d: int) -> bool {
    forall|m: int| d < m <= p.len() ==> !xml_has(s, #[trigger] next_sibling_of(p.take(m)))
}

/// `q` comes right after `p` in document order.
pub open spec fn xml_follows(s: Seq<char>, p: Seq<int>, q: Seq<int>) -> bool {
    if xml_has(s, p.push(0)) {
        q == p.push(0)
    } else {
        exists|k: int| 1 <= k <= p.len() && q == #[trigger] next_sibling_of(p.take(k)) && xml_has(s, q)
            && xml_closed_below(s, p, k)
    }
}

pub open spec fn xml_view(n: XmlNode) -> (bool, Seq<char>, Option<Seq<char>>) {
    (n.element, n.name@, crate::text::opt_view(n.text))
}

/// `paths` are the places of the nodes `d` in the document parsed from
/// `s`: the first is the root, each node is the one at its path (its depth
/// one more than the path's length), each path follows the one before in
/// document order, and the walk ends with the document's last node.
pub open spec fn xml_walked(d: Seq<XmlNode>, s: Seq<char>, paths: Seq<Seq<int>>) -> bool {
    &&& xml_prefix(d, s, paths)
    &&& paths.len() > 0
    &&& d.len() == xml_node_count(s) || xml_last(s, paths.last())
}

/// The first nodes of such a walk.
pub open spec fn xml_prefix(d: Seq<XmlNode>, s: Seq<char>, paths: Seq<Seq<int>>) -> bool {
    &&& paths.len() == d.len()
    &&& paths.len() > 0 ==> paths[0] == Seq::<int>::empty()
    &&& forall|j: int| 0 <= j < paths.len() ==> (#[trigger] paths[j]).len() + 1 == d[j].depth
        && xml_node_at(s, paths[j]) == Some(xml_view(d[j]))
    &&& forall|j: int| 0 <= j < paths.len() - 1 ==> xml_follows(s, #[trigger] paths[j], paths[j + 1])
}

/// Nothing comes after `p` in document order.
pub open spec fn xml_last(s: Seq<char>, p: Seq<int>) -> bool {
    !xml_has(s, p.push(0)) && xml_closed_below(s, p, 0)
}

/// `d` is the document parsed from `s`: its nodes in document order from
/// the root (`Document::descendants`).
pub open spec fn xml_doc(d: Seq<XmlNode>, s: Seq<char>) -> bool {
    exists|paths: Seq<Seq<int>>| #[trigger] xml_walked(d, s, paths)
}

/// Parses `content` and lists its nodes in document order (see `xml_doc`);
/// a text that does not parse gives the parser's message.
fn xml_nodes(content: &str) -> (r: Result<Vec<XmlNode>, String>)
    ensures
        match xml_error(content@) {
            Some(e) => r matches Err(m) && m@ == e,
            None => r matches Ok(v) && xml_doc(v@, content@),
        },
{
    let doc = match xml_parse(content) {
        Ok(d) => d,
        Err(e) => return Err(e),
    };
    let count = xml_count(&doc);
    let ghost src = content@;
    let mut node = xml_root(&doc);
    let mut nodes: Vec<XmlNode> = Vec::new();
    let ghost mut paths: Seq<Seq<int>> = Seq::empty();
    let ghost mut closed = false;
    let mut level: usize = 0;
    while nodes.len() < count
        invariant_except_break
            nodes@.len() > 0 ==> xml_follows(src, paths.last(), node_path(node)),
            !closed,
        invariant
            src == content@,
            count == xml_node_count(src),
            count >= 1,
            node_origin(node) == src,
            node_path(node).len() == level,
            level <= nodes@.len(),
            nodes@.len() == 0 ==> node_path(node) == Seq::<int>::empty(),
            nodes@.len() <= count,
            xml_prefix(nodes@, src, paths),
            closed ==> nodes@.len() > 0 && xml_last(src, paths.last()),
        ensures
            nodes@.len() > 0,
            xml_prefix(nodes@, src, paths),
            nodes@.len() == count || (closed && xml_last(src, paths.last())),
        decreases count - nodes.len(),
    {
        let (element, name, text) = xml_info(node);
        let ghost here = node_path(node);
        let ghost before = nodes@;
        nodes.push(XmlNode { element, name, text, depth: level + 1 });
        proof {
            paths = paths.push(here);
            assert forall|j: int| 0 <= j < paths.len() implies (#[trigger] paths[j]).len() + 1 == nodes@[j].depth
                && xml_node_at(src, paths[j]) == Some(xml_view(nodes@[j])) by {
                if j < before.len() {
                    assert(nodes@[j] == before[j]);
                }
            }
            assert(xml_prefix(nodes@, src, paths));
        }
        match xml_first_child(node) {
            Some(c) => {
                node = c;
                level = level + 1;
            },
            None => {
                // climb until a next sibling is found, or back at the root
                let ghost p = here;
                let mut found = false;
                while level > 0 && !found
                    invariant
                        p == paths.last(),
                        paths.len() > 0,
                        nodes@.len() > 0,
                        level <= p.len(),
                        node_origin(node) == src,
                        !xml_has(src, p.push(0)),
                        !found ==> node_path(node) == p.take(level as int),
                        found ==> level >= 1 && node_path(node) == next_sibling_of(p.take(level as int))
                            && xml_has(src, node_path(node)),
                        xml_closed_below(src, p, level as int),
                    decreases level, if found { 0int } else { 1int },
                {
                    match xml_next_sibling(node) {
                        Some(n) => {
                            node = n;
                            found = true;
                        },
                        None => {
                            assert(p.take(level as int).len() == level);
                            match xml_parent(node) {
                                Some(n) => {
                                    node = n;
                                    assert(p.take(level as int).drop_last() =~= p.take(level - 1));
                                    level = level - 1;
                                },
                                None => {
                                    assert(false);
                                },
                            }
                        },
                    }
                }
                if !found {
                    proof {
                        closed = true;
                        assert(p.take(0) =~= Seq::<int>::empty());
                    }
                    break;
                }
                proof {
                    assert(xml_follows(src, p, node_path(node))) by {
                        let k = level as int;
                        assert(node_path(node) == next_sibling_of(p.take(k)));
                    }
                    assert(next_sibling_of(p.take(level as int)).len() == level);
                }
            },
        }
    }
    proof {
        assert(xml_walked(nodes@, src, paths));
    }
    Ok(nodes)
}

/// The SDK dependency a POM declares.
#[derive(Debug)]
pub struct SdkDep {
    pub artifact_id: String,
    pub group_id: String,
    pub version: String,
}

/// What `pom` prints.
#[derive(Debug)]
pub struct PomOutput {
    pub service_name: String,
    pub group_id: String,
    pub version: String,
    pub pom_path: String,
    pub is_multi_module: bool,
    pub internal_sdk_deps: Vec<SdkDep>,
    pub existing_skill_path: Option<String>,
}

/// What a POM (with its parent's) gives.
#[derive(Debug)]
pub struct PomFields {
    pub service_name: String,
    pub group_id: String,
    pub version: String,
    pub internal_sdk_deps: Vec<SdkDep>,
}

// ─── moving about the document ──────────────────────────────────────────────

/// The children of `i` found at positions `k` and after.
pub open spec fn xkids_from(d: Seq<XmlNode>, i: int, k: int) -> Seq<int>
    decreases d.len() - k,
{
    if k <= i || k >= d.len() || d[k].depth <= d[i].depth {
        Seq::empty()
    } else if d[k].depth == d[i].depth + 1 {
        seq![k] + xkids_from(d, i, k + 1)
    } else {
        xkids_from(d, i, k + 1)
    }
}

pub open spec fn xchildren(d: Seq<XmlNode>, i: int) -> Seq<int> {
    xkids_from(d, i, i + 1)
}

pub open spec fn is_tag(d: Seq<XmlNode>, k: int, tag: Seq<char>) -> bool {
    d[k].element && d[k].name@ == tag
}

/// The first of `ks` that is an element named `tag`.
pub open spec fn first_tag(d: Seq<XmlNode>, ks: Seq<int>, tag: Seq<char>) -> Option<int>
    decreases ks.len(),
{
    if ks.len() == 0 {
        None
    } else if is_tag(d, ks[0], tag) {
        Some(ks[0])
    } else {
        first_tag(d, ks.drop_first(), tag)
    }
}

/// The first child element of `i` named `tag`.
pub open spec fn xml_child(d: Seq<XmlNode>, i: int, tag: Seq<char>) -> Option<int> {
    first_tag(d, xchildren(d, i), tag)
}

/// The text, trimmed, of the first of `ks` that is an element named `tag`
/// and has text.
pub open spec fn first_tag_text(d: Seq<XmlNode>, ks: Seq<int>, tag: Seq<char>) -> Option<Seq<char>>
    decreases ks.len(),
{
    if ks.len() == 0 {
        None
    } else if is_tag(d, ks[0], tag) && d[ks[0]].text is Some {
        Some(trim(d[ks[0]].text->0@))
    } else {
        first_tag_text(d, ks.drop_first(), tag)
    }
}

/// The trimmed text of `i`'s first child element named `tag` that has text.
pub open spec fn xml_text(d: Seq<XmlNode>, i: int, tag: Seq<char>) -> Option<Seq<char>> {
    first_tag_text(d, xchildren(d, i), tag)
}

fn trimmed(s: &String) -> (r: String)
    ensures
        r@ == trim(s@),
{
    let cs = chars_of(s.as_str());
    let t = trim_chars(cs.as_slice());
    string_of(t.as_slice())
}

fn xml_child_exec(d: &Vec<XmlNode>, i: usize, tag: &str) -> (r: Option<usize>)
    requires
        i < d@.len(),
    ensures
        match r {
            Some(c) => xml_child(d@, i as int, tag@) == Some(c as int) && c < d@.len(),
            None => xml_child(d@, i as int, tag@) is None,
        },
{
    let n = d.len();
    let mut k: usize = i + 1;
    while k < d.len() && d[k].depth > d[i].depth
        invariant
            n == d@.len(),
            i < k <= d@.len(),
            xml_child(d@, i as int, tag@) == first_tag(d@, xkids_from(d@, i as int, k as int), tag@),
        decreases d.len() - k,
    {
        if d[k].depth == d[i].depth + 1 {
            let ghost ks = xkids_from(d@, i as int, k as int);
            assert(ks[0] == k as int);
            assert(ks.drop_first() =~= xkids_from(d@, i as int, k + 1));
            if d[k].element && str_eq(d[k].name.as_str(), tag) {
                return Some(k);
            }
        }
        k += 1;
    }
    None
}

fn xml_text_exec(d: &Vec<XmlNode>, i: usize, tag: &str) -> (r: Option<String>)
    requires
        i < d@.len(),
    ensures
        match r {
            Some(t) => xml_text(d@, i as int, tag@) == Some(t@),
            None => xml_text(d@, i as int, tag@) is None,
        },
{
    let n = d.len();
    let mut k: usize = i + 1;
    while k < d.len() && d[k].depth > d[i].depth
        invariant
            n == d@.len(),
            i < k <= d@.len(),
            xml_text(d@, i as int, tag@) == first_tag_text(d@, xkids_from(d@, i as int, k as int), tag@),
        decreases d.len() - k,
    {
        if d[k].depth == d[i].depth + 1 {
            let ghost ks = xkids_from(d@, i as int, k as int);
            assert(ks[0] == k as int);
            assert(ks.drop_first() =~= xkids_from(d@, i as int, k + 1));
            if d[k].element && str_eq(d[k].name.as_str(), tag) {
                match &d[k].text {
                    Some(t) => return Some(trimmed(t)),
                    None => {},
                }
            }
        }
        k += 1;
    }
    None
}

/// The children of `i` that are elements named `tag`, in order.
pub open spec fn tagged_children(d: Seq<XmlNode>, ks: Seq<int>, tag: Seq<char>) -> Seq<int>
    decreases ks.len(),
{
    if ks.len() == 0 {
        Seq::empty()
    } else {
        let rest = tagged_children(d, ks.drop_first(), tag);
        if is_tag(d, ks[0], tag) {
            seq![ks[0]] + rest
        } else {
            rest
        }
    }
}

fn tagged_children_exec(d: &Vec<XmlNode>, i: usize, tag: &str) -> (r: Vec<usize>)
    requires
        i < d@.len(),
    ensures
        r@.map_values(|x: usize| x as int) == tagged_children(d@, xchildren(d@, i as int), tag@),
        forall|k: int| 0 <= k < r@.len() ==> #[trigger] r@[k] < d@.len(),
{
    let n = d.len();
    let mut r: Vec<usize> = Vec::new();
    let mut k: usize = i + 1;
    while k < d.len() && d[k].depth > d[i].depth
        invariant
            n == d@.len(),
            i < k <= d@.len(),
            r@.map_values(|x: usize| x as int) + tagged_children(d@, xkids_from(d@, i as int, k as int), tag@)
                == tagged_children(d@, xchildren(d@, i as int), tag@),
            forall|t: int| 0 <= t < r@.len() ==> #[trigger] r@[t] < d@.len(),
        decreases d.len() - k,
    {
        if d[k].depth == d[i].depth + 1 {
            let ghost ks = xkids_from(d@, i as int, k as int);
            assert(ks[0] == k as int);
            assert(ks.drop_first() =~= xkids_from(d@, i as int, k + 1));
            if d[k].element && str_eq(d[k].name.as_str(), tag) {
                let ghost before = r@.map_values(|x: usize| x as int);
                r.push(k);
                assert(r@.map_values(|x: usize| x as int) =~= before.push(k as int));
                assert(before + (seq![k as int] + tagged_children(d@, xkids_from(d@, i as int, k + 1), tag@))
                    =~= before.push(k as int) + tagged_children(d@, xkids_from(d@, i as int, k + 1), tag@));
            }
        }
        k += 1;
    }
    assert(r@.map_values(|x: usize| x as int) + Seq::<int>::empty() =~= r@.map_values(|x: usize| x as int));
    r
}

// ─── properties ─────────────────────────────────────────────────────────────

/// `v` is a `${name}` reference.
pub open spec fn is_reference(v: Seq<char>) -> bool {
    starts_with(v, "${"@) && v.len() >= 3 && v.last() == '}'
}

pub open spec fn reference_name(v: Seq<char>) -> Seq<char> {
    v.subrange(2, v.len() - 1)
}

/// The value of property `name`: the module's `<properties>` first, then
/// the parent's.
pub open spec fn property(m: Seq<XmlNode>, mi: int, p: Option<(Seq<XmlNode>, int)>, name: Seq<char>) -> Option<Seq<char>> {
    let from_module = match xml_child(m, mi, "properties"@) {
        Some(props) => xml_text(m, props, name),
        None => None,
    };
    if from_module is Some {
        from_module
    } else {
        match p {
            Some((pd, pi)) => match xml_child(pd, pi, "properties"@) {
                Some(props) => xml_text(pd, props, name),
                None => None,
            },
            None => None,
        }
    }
}

/// `v` with `${name}` references resolved in turn, at most `fuel` times (a
/// reference that leads back to itself is left as found then); an unknown
/// property is left as written.
pub open spec fn resolve(v: Seq<char>, m: Seq<XmlNode>, mi: int, p: Option<(Seq<XmlNode>, int)>, fuel: nat) -> Seq<char>
    decreases fuel,
{
    if fuel > 0 && is_reference(v) {
        match property(m, mi, p, reference_name(v)) {
            Some(val) => resolve(val, m, mi, p, (fuel - 1) as nat),
            None => v,
        }
    } else {
        v
    }
}

pub open spec fn parent_view(p: Option<(&Vec<XmlNode>, usize)>) -> Option<(Seq<XmlNode>, int)> {
    match p {
        Some((d, i)) => Some((d@, i as int)),
        None => None,
    }
}

pub open spec fn parent_ok(p: Option<(&Vec<XmlNode>, usize)>) -> bool {
    match p {
        Some((d, i)) => i < d@.len(),
        None => true,
    }
}

fn property_exec(m: &Vec<XmlNode>, mi: usize, p: Option<(&Vec<XmlNode>, usize)>, name: &str) -> (r: Option<String>)
    requires
        mi < m@.len(),
        parent_ok(p),
    ensures
        match r {
            Some(t) => property(m@, mi as int, parent_view(p), name@) == Some(t@),
            None => property(m@, mi as int, parent_view(p), name@) is None,
        },
{
    match xml_child_exec(m, mi, "properties") {
        Some(props) => match xml_text_exec(m, props, name) {
            Some(t) => return Some(t),
            None => {},
        },
        None => {},
    }
    match p {
        Some((pd, pi)) => match xml_child_exec(pd, pi, "properties") {
            Some(props) => xml_text_exec(pd, props, name),
            None => None,
        },
        None => None,
    }
}

fn resolve_exec(v: String, m: &Vec<XmlNode>, mi: usize, p: Option<(&Vec<XmlNode>, usize)>, fuel: usize) -> (r: String)
    requires
        mi < m@.len(),
        parent_ok(p),
    ensures
        r@ == resolve(v@, m@, mi as int, parent_view(p), fuel as nat),
    decreases fuel,
{
    if fuel == 0 {
        return v;
    }
    let cs = chars_of(v.as_str());
    if !(starts_with_str(cs.as_slice(), "${") && cs.len() >= 3 && cs[cs.len() - 1] == '}') {
        return v;
    }
    let name = string_of(slice_chars(cs.as_slice(), 2, cs.len() - 1).as_slice());
    match property_exec(m, mi, p, name.as_str()) {
        Some(val) => resolve_exec(val, m, mi, p, fuel - 1),
        None => v,
    }
}

/// How many times references are followed at most: as many as the two
/// documents have nodes (a chain of distinct properties is never longer).
pub open spec fn resolve_fuel(m: Seq<XmlNode>, p: Option<(Seq<XmlNode>, int)>) -> nat {
    let n = m.len() + match p {
        Some((pd, _)) => pd.len(),
        None => 0nat,
    };
    if n > usize::MAX { usize::MAX as nat } else { n }
}

// ─── SDK dependencies ───────────────────────────────────────────────────────

/// The `<dependency>` elements of `<dependencies>` under `i`.
pub open spec fn dependency_nodes(d: Seq<XmlNode>, i: int) -> Seq<int> {
    match xml_child(d, i, "dependencies"@) {
        Some(ds) => tagged_children(d, xchildren(d, ds), "dependency"@),
        None => Seq::empty(),
    }
}

/// An internal SDK: an artifact named `*-api` or `*-sdk` of a group under
/// the service's own group.
pub open spec fn is_internal_sdk(artifact: Seq<char>, group: Seq<char>, root_group: Seq<char>) -> bool {
    (ends_with(artifact, "-api"@) || ends_with(artifact, "-sdk"@)) && starts_with(group, root_group)
}

/// The SDK dependency declared at node `k` of `d` (with artifact and group
/// ids), if it is internal.
pub open spec fn sdk_dep_at(
    d: Seq<XmlNode>,
    k: int,
    m: Seq<XmlNode>,
    mi: int,
    p: Option<(Seq<XmlNode>, int)>,
    root_group: Seq<char>,
) -> Option<(Seq<char>, Seq<char>, Seq<char>)> {
    match (xml_text(d, k, "artifactId"@), xml_text(d, k, "groupId"@)) {
        (Some(a), Some(g)) => if is_internal_sdk(a, g, root_group) {
            Some((a, g, match xml_text(d, k, "version"@) {
                Some(v) => resolve(v, m, mi, p, resolve_fuel(m, p)),
                None => Seq::empty(),
            }))
        } else {
            None
        },
        _ => None,
    }
}

/// The internal SDK dependencies among the dependency nodes `ks` of `d`.
pub open spec fn sdk_deps_of(
    d: Seq<XmlNode>,
    ks: Seq<int>,
    m: Seq<XmlNode>,
    mi: int,
    p: Option<(Seq<XmlNode>, int)>,
    root_group: Seq<char>,
) -> Seq<(Seq<char>, Seq<char>, Seq<char>)>
    decreases ks.len(),
{
    if ks.len() == 0 {
        Seq::empty()
    } else {
        let rest = sdk_deps_of(d, ks.drop_last(), m, mi, p, root_group);
        match sdk_dep_at(d, ks.last(), m, mi, p, root_group) {
            Some(x) => rest.push(x),
            None => rest,
        }
    }
}

/// The internal SDK dependencies: the module's, then the parent's.
pub open spec fn sdk_deps(m: Seq<XmlNode>, mi: int, p: Option<(Seq<XmlNode>, int)>, root_group: Seq<char>) -> Seq<
    (Seq<char>, Seq<char>, Seq<char>),
> {
    sdk_deps_of(m, dependency_nodes(m, mi), m, mi, p, root_group) + match p {
        Some((pd, pi)) => sdk_deps_of(pd, dependency_nodes(pd, pi), m, mi, p, root_group),
        None => Seq::empty(),
    }
}

pub open spec fn dep_view(d: SdkDep) -> (Seq<char>, Seq<char>, Seq<char>) {
    (d.artifact_id@, d.group_id@, d.version@)
}

fn dependency_indices(d: &Vec<XmlNode>, i: usize) -> (r: Vec<usize>)
    requires
        i < d@.len(),
    ensures
        r@.map_values(|x: usize| x as int) == dependency_nodes(d@, i as int),
        forall|k: int| 0 <= k < r@.len() ==> #[trigger] r@[k] < d@.len(),
{
    match xml_child_exec(d, i, "dependencies") {
        Some(ds) => tagged_children_exec(d, ds, "dependency"),
        None => {
            let r: Vec<usize> = Vec::new();
            assert(r@.map_values(|x: usize| x as int) =~= Seq::<int>::empty());
            r
        },
    }
}

fn internal_sdk(artifact: &String, group: &String, root_group: &str) -> (r: bool)
    ensures
        r == is_internal_sdk(artifact@, group@, root_group@),
{
    let a = chars_of(artifact.as_str());
    let g = chars_of(group.as_str());
    let rg = chars_of(root_group);
    (ends_with_str(a.as_slice(), "-api") || ends_with_str(a.as_slice(), "-sdk"))
        && crate::text::starts_with_chars(g.as_slice(), rg.as_slice())
}

fn push_sdk_deps(
    out: &mut Vec<SdkDep>,
    d: &Vec<XmlNode>,
    ks: &Vec<usize>,
    m: &Vec<XmlNode>,
    mi: usize,
    p: Option<(&Vec<XmlNode>, usize)>,
    root_group: &str,
    fuel: usize,
)
    requires
        mi < m@.len(),
        parent_ok(p),
        fuel == resolve_fuel(m@, parent_view(p)),
        forall|k: int| 0 <= k < ks@.len() ==> #[trigger] ks@[k] < d@.len(),
    ensures
        final(out)@.map_values(|x: SdkDep| dep_view(x)) == old(out)@.map_values(|x: SdkDep| dep_view(x))
            + sdk_deps_of(d@, ks@.map_values(|x: usize| x as int), m@, mi as int, parent_view(p), root_group@),
{
    let ghost start = out@.map_values(|x: SdkDep| dep_view(x));
    let ghost ki = ks@.map_values(|x: usize| x as int);
    let mut j: usize = 0;
    while j < ks.len()
        invariant
            mi < m@.len(),
            parent_ok(p),
            fuel == resolve_fuel(m@, parent_view(p)),
            forall|k: int| 0 <= k < ks@.len() ==> #[trigger] ks@[k] < d@.len(),
            ki == ks@.map_values(|x: usize| x as int),
            j <= ks@.len(),
            out@.map_values(|x: SdkDep| dep_view(x)) == start + sdk_deps_of(d@, ki.take(j as int), m@, mi as int, parent_view(p), root_group@),
        decreases ks.len() - j,
    {
        let k = ks[j];
        assert(ki.take(j + 1).drop_last() =~= ki.take(j as int));
        assert(ki.take(j + 1).last() == k as int);
        let ghost before = out@.map_values(|x: SdkDep| dep_view(x));
        match (xml_text_exec(d, k, "artifactId"), xml_text_exec(d, k, "groupId")) {
            (Some(a), Some(g)) => {
                if internal_sdk(&a, &g, root_group) {
                    let version = match xml_text_exec(d, k, "version") {
                        Some(v) => resolve_exec(v, m, mi, p, fuel),
                        None => String::new(),
                    };
                    out.push(SdkDep { artifact_id: a, group_id: g, version });
                    assert(out@.map_values(|x: SdkDep| dep_view(x)) =~= before.push(dep_view(out@.last())));
                }
            },
            _ => {},
        }
        j += 1;
    }
    assert(ki.take(ks@.len() as int) =~= ki);
}

// ─── the whole ──────────────────────────────────────────────────────────────

/// The root element of a document: the first child of its root.
pub open spec fn root_element(d: Seq<XmlNode>) -> Option<int> {
    if d.len() > 0 && xchildren(d, 0).len() > 0 {
        Some(xchildren(d, 0)[0])
    } else {
        None
    }
}

fn root_element_exec(d: &Vec<XmlNode>) -> (r: Option<usize>)
    ensures
        match r {
            Some(i) => root_element(d@) == Some(i as int) && i < d@.len(),
            None => root_element(d@) is None,
        },
{
    if d.len() == 0 {
        return None;
    }
    let n = d.len();
    let mut k: usize = 1;
    while k < d.len() && d[k].depth > d[0].depth
        invariant
            n == d@.len(),
            0 < k <= d@.len(),
            xchildren(d@, 0).len() > 0 ==> xkids_from(d@, 0, k as int).len() > 0 && xchildren(d@, 0)[0]
                == xkids_from(d@, 0, k as int)[0],
            xchildren(d@, 0).len() == 0 ==> xkids_from(d@, 0, k as int).len() == 0,
        decreases d.len() - k,
    {
        if d[k].depth == d[0].depth + 1 {
            let ghost ks = xkids_from(d@, 0, k as int);
            assert(ks[0] == k as int);
            return Some(k);
        }
        k += 1;
    }
    None
}

/// What a POM gives, from the module's document and its parent's (when
/// the module belongs to a multi-module project): the service name
/// (`artifactId`, required), the group (module, then parent, required), the
/// version (module, then parent, else `0.0.1-SNAPSHOT`, references
/// resolved) and the internal SDK dependencies.
pub open spec fn pom_spec(m: Seq<XmlNode>, pd: Option<Seq<XmlNode>>) -> Result<
    (Seq<char>, Seq<char>, Seq<char>, Seq<(Seq<char>, Seq<char>, Seq<char>)>),
    Seq<char>,
> {
    let p: Option<(Seq<XmlNode>, int)> = match pd {
        Some(d) => match root_element(d) {
            Some(pi) => Some((d, pi)),
            None => None,
        },
        None => None,
    };
    match root_element(m) {
        None => Err("No root element in pom.xml"@),
        Some(mi) => match xml_text(m, mi, "artifactId"@) {
            None => Err("<artifactId> not found in pom.xml"@),
            Some(artifact) => {
                let group = match xml_text(m, mi, "groupId"@) {
                    Some(g) => Some(g),
                    None => match p {
                        Some((d, pi)) => xml_text(d, pi, "groupId"@),
                        None => None,
                    },
                };
                match group {
                    None => Err("<groupId> not found in pom.xml or parent"@),
                    Some(g) => {
                        let version = match xml_text(m, mi, "version"@) {
                            Some(v) => v,
                            None => match (match p {
                                Some((d, pi)) => xml_text(d, pi, "version"@),
                                None => None,
                            }) {
                                Some(v) => v,
                                None => "0.0.1-SNAPSHOT"@,
                            },
                        };
                        Ok((artifact, g, resolve(version, m, mi, p, resolve_fuel(m, p)), sdk_deps(m, mi, p, g)))
                    },
                }
            },
        },
    }
}

pub open spec fn fields_view(f: PomFields) -> (Seq<char>, Seq<char>, Seq<char>, Seq<(Seq<char>, Seq<char>, Seq<char>)>) {
    (f.service_name@, f.group_id@, f.version@, f.internal_sdk_deps@.map_values(|x: SdkDep| dep_view(x)))
}

/// What the module document `module` and its parent's give (see `pom_spec`).
pub fn pom_fields(module: &Vec<XmlNode>, parent: Option<&Vec<XmlNode>>) -> (r: Result<PomFields, String>)
    ensures
        match pom_spec(module@, match parent {
            Some(d) => Some(d@),
            None => None,
        }) {
            Ok(v) => r matches Ok(f) && fields_view(f) == v,
            Err(m) => r matches Err(e) && e@ == m,
        },
{
    let p: Option<(&Vec<XmlNode>, usize)> = match parent {
        Some(d) => match root_element_exec(d) {
            Some(pi) => Some((d, pi)),
            None => None,
        },
        None => None,
    };
    let mi = match root_element_exec(module) {
        Some(i) => i,
        None => return Err(owned("No root element in pom.xml")),
    };
    let artifact = match xml_text_exec(module, mi, "artifactId") {
        Some(a) => a,
        None => return Err(owned("<artifactId> not found in pom.xml")),
    };
    let group = match xml_text_exec(module, mi, "groupId") {
        Some(g) => g,
        None => match p {
            Some((d, pi)) => match xml_text_exec(d, pi, "groupId") {
                Some(g) => g,
                None => return Err(owned("<groupId> not found in pom.xml or parent")),
            },
            None => return Err(owned("<groupId> not found in pom.xml or parent")),
        },
    };
    let version = match xml_text_exec(module, mi, "version") {
        Some(v) => v,
        None => match p {
            Some((d, pi)) => match xml_text_exec(d, pi, "version") {
                Some(v) => v,
                None => owned("0.0.1-SNAPSHOT"),
            },
            None => owned("0.0.1-SNAPSHOT"),
        },
    };
    let fuel: usize = match p {
        Some((d, _)) => {
            if module.len() > usize::MAX - d.len() {
                usize::MAX
            } else {
                module.len() + d.len()
            }
        },
        None => module.len(),
    };
    let resolved = resolve_exec(version, module, mi, p, fuel);
    let mut deps: Vec<SdkDep> = Vec::new();
    let own = dependency_indices(module, mi);
    push_sdk_deps(&mut deps, module, &own, module, mi, p, group.as_str(), fuel);
    match p {
        Some((d, pi)) => {
            let theirs = dependency_indices(d, pi);
            push_sdk_deps(&mut deps, d, &theirs, module, mi, p, group.as_str(), fuel);
        },
        None => {},
    }
    Ok(PomFields { service_name: artifact, group_id: group, version: resolved, internal_sdk_deps: deps })
}

pub open spec fn pom_result_matches(r: Result<PomFields, String>, s: Result<
    (Seq<char>, Seq<char>, Seq<char>, Seq<(Seq<char>, Seq<char>, Seq<char>)>),
    Seq<char>,
>) -> bool {
    match s {
        Ok(v) => r matches Ok(f) && fields_view(f) == v,
        Err(m) => r matches Err(e) && e@ == m,
    }
}

/// Parses the POM `content` (and its parent's, for a module) and reads it:
/// a document that does not parse gives the parser's message.
pub fn extract_pom(content: &str, parent_content: Option<&str>) -> (r: Result<PomFields, String>)
    ensures
        match xml_error(content@) {
            Some(e) => r matches Err(m) && m@ == e,
            None => match parent_content {
                None => exists|d: Seq<XmlNode>| #[trigger] xml_doc(d, content@) && pom_result_matches(r, pom_spec(d, None)),
                Some(pc) => match xml_error(pc@) {
                    Some(e) => r matches Err(m) && m@ == e,
                    None => exists|d: Seq<XmlNode>, pd: Seq<XmlNode>| #[trigger] xml_doc(d, content@)
                        && #[trigger] xml_doc(pd, pc@) && pom_result_matches(r, pom_spec(d, Some(pd))),
                },
            },
        },
{
    let doc = match xml_nodes(content) {
        Ok(d) => d,
        Err(e) => return Err(e),
    };
    match parent_content {
        None => pom_fields(&doc, None),
        Some(pc) => match xml_nodes(pc) {
            Ok(pd) => pom_fields(&doc, Some(&pd)),
            Err(e) => Err(e),
        },
    }
}

/// The texts, trimmed, of the `<module>` elements among `ks`, empty ones
/// left out.
pub open spec fn module_names_of(d: Seq<XmlNode>, ks: Seq<int>) -> Seq<Seq<char>>
    decreases ks.len(),
{
    if ks.len() == 0 {
        Seq::empty()
    } else {
        let rest = module_names_of(d, ks.drop_last());
        let name = match d[ks.last()].text {
            Some(t) => trim(t@),
            None => Seq::empty(),
        };
        if name.len() > 0 { rest.push(name) } else { rest }
    }
}

/// The modules a root POM lists: `None` for a project of one module.
pub open spec fn pom_modules(d: Seq<XmlNode>) -> Result<Option<Seq<Seq<char>>>, Seq<char>> {
    match root_element(d) {
        None => Err("No root element in pom.xml"@),
        Some(ri) => match xml_child(d, ri, "modules"@) {
            None => Ok(None),
            Some(mi) => Ok(Some(module_names_of(d, tagged_children(d, xchildren(d, mi), "module"@)))),
        },
    }
}

/// The modules the root POM `content` lists (see `pom_modules`).
pub fn modules_of(content: &str) -> (r: Result<Option<Vec<String>>, String>)
    ensures
        match xml_error(content@) {
            Some(e) => r matches Err(m) && m@ == e,
            None => exists|d: Seq<XmlNode>| #[trigger] xml_doc(d, content@) && match pom_modules(d) {
                Err(e) => r matches Err(m) && m@ == e,
                Ok(None) => r matches Ok(None),
                Ok(Some(names)) => r matches Ok(Some(v)) && crate::text::string_views(v@) == names,
            },
        },
{
    let d = match xml_nodes(content) {
        Ok(d) => d,
        Err(e) => return Err(e),
    };
    let ri = match root_element_exec(&d) {
        Some(i) => i,
        None => return Err(owned("No root element in pom.xml")),
    };
    let mi = match xml_child_exec(&d, ri, "modules") {
        Some(m) => m,
        None => return Ok(None),
    };
    let ks = tagged_children_exec(&d, mi, "module");
    let ghost ki = ks@.map_values(|x: usize| x as int);
    let mut names: Vec<String> = Vec::new();
    let mut j: usize = 0;
    while j < ks.len()
        invariant
            forall|k: int| 0 <= k < ks@.len() ==> #[trigger] ks@[k] < d@.len(),
            ki == ks@.map_values(|x: usize| x as int),
            j <= ks@.len(),
            crate::text::string_views(names@) == module_names_of(d@, ki.take(j as int)),
        decreases ks.len() - j,
    {
        assert(ki.take(j + 1).drop_last() =~= ki.take(j as int));
        assert(ki.take(j + 1).last() == ks@[j as int] as int);
        let name = match &d[ks[j]].text {
            Some(t) => trimmed(t),
            None => String::new(),
        };
        let ghost before = crate::text::string_views(names@);
        if name.as_str().is_empty() == false {
            assert(name@.len() > 0);
            names.push(name);
            assert(crate::text::string_views(names@) =~= before.push(names@.last()@));
        } else {
            assert(name@.len() == 0);
        }
        j += 1;
    }
    assert(ki.take(ks@.len() as int) =~= ki);
    Ok(Some(names))
}
} // verus!
