//! The dependency graph between files and its topological order.

use vstd::prelude::*;
use crate::text::{string_views, seq_lt, str_eq, str_lt, lemma_seq_lt_irrefl, lemma_seq_lt_trans, lemma_seq_lt_total, lemma_seq_lt_asym, owned};

verus! {

broadcast use vstd::string::group_string_axioms;

/// Directed graph where edge A → B means "A depends on B" (A imports B).
///
/// `nodes` is kept in ascending order of name (so each name occurs once);
/// `edges` holds each (from, to) pair once, both ends being nodes.
#[derive(Debug)]
pub struct DepGraph {
    pub nodes: Vec<String>,
    pub edges: Vec<(String, String)>,
}

/// The pairs by their names.
pub open spec fn cycle_views(v: Seq<(String, String)>) -> Seq<(Seq<char>, Seq<char>)> {
    v.map_values(|p: (String, String)| (p.0@, p.1@))
}

/// Whether `(a, b)` is among the pairs.
pub open spec fn pair_listed(pairs: Seq<(String, String)>, a: Seq<char>, b: Seq<char>) -> bool {
    exists|k: int| 0 <= k < pairs.len() && pairs[k].0@ == a && pairs[k].1@ == b
}

impl DepGraph {
    pub open spec fn has_node(self, s: Seq<char>) -> bool {
        exists|i: int| 0 <= i < self.nodes@.len() && self.nodes@[i]@ == s
    }

    pub open spec fn has_edge(self, a: Seq<char>, b: Seq<char>) -> bool {
        pair_listed(self.edges@, a, b)
    }

    pub open spec fn wf(self) -> bool {
        &&& forall|i: int, j: int|
            0 <= i < j < self.nodes@.len() ==> seq_lt(#[trigger] self.nodes@[i]@, #[trigger] self.nodes@[j]@)
        &&& forall|i: int, j: int|
            0 <= i < j < self.edges@.len() ==> !(#[trigger] self.edges@[i].0@ == self.edges@[j].0@ && #[trigger] self.edges@[j].1@ == self.edges@[i].1@)
        &&& forall|k: int|
            0 <= k < self.edges@.len() ==> self.has_node(#[trigger] self.edges@[k].0@) && self.has_node(self.edges@[k].1@)
    }

    /// There is a numbering of the nodes under which every edge goes from a
    /// higher number to a lower one, i.e. the graph has no cycle.
    pub open spec fn acyclic(self) -> bool {
        exists|rank: spec_fn(Seq<char>) -> int| #[trigger] self.is_ranking(rank)
    }

    /// Every edge goes from a higher rank to a lower one.
    pub open spec fn is_ranking(self, rank: spec_fn(Seq<char>) -> int) -> bool {
        forall|a: Seq<char>, b: Seq<char>| #[trigger] self.has_edge(a, b) ==> rank(b) < rank(a)
    }

    /// `order` lists each node once, after the dependencies it keeps, and
    /// `cycles` lists, each once, the edges given up to break cycles (none
    /// when the graph has no cycle).
    pub open spec fn is_topo_result(self, order: Seq<String>, cycles: Seq<(String, String)>) -> bool {
        &&& order.len() == self.nodes@.len()
        &&& forall|s: Seq<char>| self.has_node(s) <==> exists|i: int| 0 <= i < order.len() && #[trigger] order[i]@ == s
        &&& forall|i: int, j: int| 0 <= i < j < order.len() ==> #[trigger] order[i]@ != #[trigger] order[j]@
        &&& forall|k: int| 0 <= k < cycles.len() ==> self.has_edge(#[trigger] cycles[k].0@, cycles[k].1@)
        &&& forall|k: int, l: int| 0 <= k < l < cycles.len() ==>
                !(#[trigger] cycles[k].0@ == #[trigger] cycles[l].0@ && cycles[k].1@ == cycles[l].1@)
        &&& forall|a: Seq<char>, b: Seq<char>, i: int, j: int|
                #[trigger] self.has_edge(a, b) && !pair_listed(cycles, a, b) && 0 <= i < order.len() && 0 <= j < order.len()
                && #[trigger] order[i]@ == b && #[trigger] order[j]@ == a ==> i < j
        &&& self.acyclic() ==> cycles.len() == 0
    }

    /// The graph as a matrix over node positions: row `u` marks what node
    /// `u` depends on.
    pub open spec fn dep_matrix(self) -> Seq<Seq<bool>> {
        Seq::new(self.nodes@.len(), |u: int| Seq::new(self.nodes@.len(), |w: int|
            self.has_edge(self.nodes@[u]@, self.nodes@[w]@)))
    }

    /// The order `topo_sort` gives and the edges it gives up, by name: the
    /// end of the sort of `dep_matrix` (see `sort_step`), positions read as
    /// the nodes' names.
    pub open spec fn topo_spec(self) -> (Seq<Seq<char>>, Seq<(Seq<char>, Seq<char>)>) {
        let e = sort_end(self.dep_matrix());
        let names = string_views(self.nodes@);
        (
            e.order.map_values(|i: usize| names[i as int]),
            e.cyc.map_values(|p: (usize, usize)| (names[p.0 as int], names[p.1 as int])),
        )
    }

    pub fn new() -> (r: Self)
        ensures
            r.wf(),
            r.nodes@.len() == 0,
            r.edges@.len() == 0,
    {
        DepGraph { nodes: Vec::new(), edges: Vec::new() }
    }

    /// Position of the node named `id`, if there is one.
    fn find_node(&self, id: &str) -> (r: Option<usize>)
        requires
            self.wf(),
        ensures
            r matches Some(i) ==> i < self.nodes@.len() && self.nodes@[i as int]@ == id@,
            r is None ==> !self.has_node(id@),
    {
        let mut i: usize = 0;
        while i < self.nodes.len()
            invariant
                i <= self.nodes@.len(),
                forall|j: int| 0 <= j < i ==> self.nodes@[j]@ != id@,
            decreases self.nodes.len() - i,
        {
            if str_eq(self.nodes[i].as_str(), id) {
                return Some(i);
            }
            i += 1;
        }
        None
    }

    pub fn add_node(&mut self, id: &str)
        requires
            old(self).wf(),
        ensures
            final(self).wf(),
            forall|s: Seq<char>| final(self).has_node(s) <==> (old(self).has_node(s) || s == id@),
            final(self).edges@ == old(self).edges@,
    {
        let mut i: usize = 0;
        while i < self.nodes.len() && str_lt(self.nodes[i].as_str(), id)
            invariant
                i <= self.nodes@.len(),
                forall|j: int| 0 <= j < i ==> seq_lt(#[trigger] self.nodes@[j]@, id@),
                self.wf(),
            decreases self.nodes.len() - i,
        {
            i += 1;
        }
        if i < self.nodes.len() && str_eq(self.nodes[i].as_str(), id) {
            return;
        }
        let ghost old_nodes = self.nodes@;
        let ghost old_self = *self;
        proof {
            if i < old_nodes.len() {
                lemma_seq_lt_total(old_nodes[i as int]@, id@);
            }
        }
        self.nodes.insert(i, owned(id));
        proof {
            let nn = self.nodes@;
            assert forall|a: int, b: int| 0 <= a < b < nn.len() implies seq_lt(#[trigger] nn[a]@, #[trigger] nn[b]@) by {
                if b < i {
                } else if a < i && b == i {
                } else if a < i && b > i {
                    assert(seq_lt(old_nodes[a]@, id@));
                    assert(seq_lt(id@, old_nodes[i as int]@));
                    if b - 1 > i {
                        assert(seq_lt(old_nodes[i as int]@, old_nodes[b - 1]@));
                        lemma_seq_lt_trans(id@, old_nodes[i as int]@, old_nodes[b - 1]@);
                    }
                    lemma_seq_lt_trans(old_nodes[a]@, id@, old_nodes[b - 1]@);
                } else if a == i {
                    if b - 1 > i {
                        assert(seq_lt(old_nodes[i as int]@, old_nodes[b - 1]@));
                        lemma_seq_lt_trans(id@, old_nodes[i as int]@, old_nodes[b - 1]@);
                    }
                } else {
                    assert(seq_lt(old_nodes[a - 1]@, old_nodes[b - 1]@));
                }
            }
            assert forall|s: Seq<char>| self.has_node(s) <==> (old_self.has_node(s) || s == id@) by {
                if old_self.has_node(s) {
                    let j = choose|j: int| 0 <= j < old_nodes.len() && old_nodes[j]@ == s;
                    if j < i {
                        assert(nn[j] == old_nodes[j]);
                    } else {
                        assert(nn[j + 1] == old_nodes[j]);
                    }
                }
                if s == id@ {
                    assert(nn[i as int]@ == id@);
                }
                if self.has_node(s) {
                    let j = choose|j: int| 0 <= j < nn.len() && nn[j]@ == s;
                    if j < i {
                        assert(old_nodes[j] == nn[j]);
                    } else if j > i {
                        assert(old_nodes[j - 1] == nn[j]);
                    }
                }
            }
            assert forall|k: int| 0 <= k < self.edges@.len() implies self.has_node(#[trigger] self.edges@[k].0@)
                && self.has_node(self.edges@[k].1@) by {
                assert(old_self.has_node(self.edges@[k].0@));
                assert(old_self.has_node(self.edges@[k].1@));
            }
        }
    }

    /// Add directed edge: `from` depends on `to` (both become nodes).
    pub fn add_edge(&mut self, from: &str, to: &str)
        requires
            old(self).wf(),
        ensures
            final(self).wf(),
            forall|s: Seq<char>| final(self).has_node(s) <==> (old(self).has_node(s) || s == from@ || s == to@),
            forall|a: Seq<char>, b: Seq<char>| final(self).has_edge(a, b) <==> (old(self).has_edge(a, b) || (a == from@ && b == to@)),
    {
        let ghost orig = *old(self);
        self.add_node(from);
        self.add_node(to);
        let ghost mid = *self;
        assert(mid.edges@ == orig.edges@);
        assert(mid.wf());
        assert(forall|s: Seq<char>| mid.has_node(s) <==> (orig.has_node(s) || s == from@ || s == to@));
        assert(forall|a: Seq<char>, b: Seq<char>| mid.has_edge(a, b) <==> orig.has_edge(a, b));
        let mut k: usize = 0;
        let mut found = false;
        while k < self.edges.len() && !found
            invariant
                *self == mid,
                k <= self.edges@.len(),
                found ==> k < self.edges@.len() && self.edges@[k as int].0@ == from@ && self.edges@[k as int].1@ == to@,
                !found ==> forall|j: int| 0 <= j < k ==> !(self.edges@[j].0@ == from@ && self.edges@[j].1@ == to@),
            decreases self.edges.len() - k, if found { 0int } else { 1int },
        {
            if str_eq(self.edges[k].0.as_str(), from) && str_eq(self.edges[k].1.as_str(), to) {
                found = true;
            } else {
                k += 1;
            }
        }
        if found {
            proof {
                assert(pair_listed(mid.edges@, from@, to@));
                assert forall|a: Seq<char>, b: Seq<char>| mid.has_edge(a, b) <==> (orig.has_edge(a, b) || (a == from@ && b == to@)) by {
                    if a == from@ && b == to@ {
                        assert(pair_listed(mid.edges@, a, b));
                    }
                }
            }
            return;
        }
        let ghost before = *self;
        self.edges.push((owned(from), owned(to)));
        proof {
            assert(self.nodes@ == mid.nodes@);
            assert(forall|s: Seq<char>| self.has_node(s) <==> mid.has_node(s));
            assert(mid.has_node(from@));
            assert(mid.has_node(to@));
            let ee = self.edges@;
            assert forall|k: int| 0 <= k < ee.len() implies self.has_node(#[trigger] ee[k].0@) && self.has_node(ee[k].1@) by {
                if k < before.edges@.len() {
                    assert(before.has_node(ee[k].0@));
                    assert(before.has_node(ee[k].1@));
                }
            }
            assert(before == mid);
            assert forall|a: Seq<char>, b: Seq<char>| self.has_edge(a, b) <==> (orig.has_edge(a, b) || (a == from@ && b == to@)) by {
                assert(before.has_edge(a, b) == orig.has_edge(a, b));
                if before.has_edge(a, b) {
                    let j = choose|j: int| 0 <= j < before.edges@.len() && before.edges@[j].0@ == a && before.edges@[j].1@ == b;
                    assert(ee[j] == before.edges@[j]);
                }
                if a == from@ && b == to@ {
                    assert(ee[ee.len() - 1].0@ == a && ee[ee.len() - 1].1@ == b);
                    assert(pair_listed(ee, a, b));
                }
                if self.has_edge(a, b) {
                    let j = choose|j: int| 0 <= j < ee.len() && ee[j].0@ == a && ee[j].1@ == b;
                    if j < before.edges@.len() {
                        assert(before.edges@[j] == ee[j]);
                    }
                }
            }
            assert(*old(self) == orig);
            assert(forall|a: Seq<char>, b: Seq<char>| self.has_edge(a, b) <==> (orig.has_edge(a, b) || (a == from@ && b == to@)));
            assert(forall|a: Seq<char>, b: Seq<char>| self.has_edge(a, b) <==> (old(self).has_edge(a, b) || (a == from@ && b == to@)));
        }
    }
}

impl DepGraph {
    proof fn lemma_nodes_distinct(self, i: int, j: int)
        requires
            self.wf(),
            0 <= i < self.nodes@.len(),
            0 <= j < self.nodes@.len(),
            self.nodes@[i]@ == self.nodes@[j]@,
        ensures
            i == j,
    {
        if i < j {
            lemma_seq_lt_irrefl(self.nodes@[i]@);
        } else if j < i {
            lemma_seq_lt_irrefl(self.nodes@[j]@);
        }
    }

    /// The adjacency matrix of the graph over node positions.
    fn matrix(&self) -> (a: Vec<Vec<bool>>)
        requires
            self.wf(),
        ensures
            a@.len() == self.nodes@.len(),
            forall|u: int| 0 <= u < a@.len() ==> (#[trigger] a@[u])@.len() == a@.len(),
            forall|u: int, w: int| 0 <= u < a@.len() && 0 <= w < a@.len() ==>
                (#[trigger] rows(a@)[u][w] <==> self.has_edge(self.nodes@[u]@, self.nodes@[w]@)),
    {
        let n = self.nodes.len();
        let mut a: Vec<Vec<bool>> = Vec::new();
        let mut u: usize = 0;
        while u < n
            invariant
                n == self.nodes@.len(),
                u <= n,
                a@.len() == u,
                forall|x: int| 0 <= x < u ==> (#[trigger] a@[x])@.len() == n,
                forall|x: int, y: int| 0 <= x < u && 0 <= y < n ==> !(#[trigger] a@[x]@[y]),
            decreases n - u,
        {
            let mut row: Vec<bool> = Vec::new();
            let mut w: usize = 0;
            while w < n
                invariant
                    w <= n,
                    row@.len() == w,
                    forall|y: int| 0 <= y < w ==> !(#[trigger] row@[y]),
                decreases n - w,
            {
                row.push(false);
                w += 1;
            }
            a.push(row);
            u += 1;
        }
        let mut k: usize = 0;
        while k < self.edges.len()
            invariant
                self.wf(),
                n == self.nodes@.len(),
                a@.len() == n,
                k <= self.edges@.len(),
                forall|x: int| 0 <= x < n ==> (#[trigger] a@[x])@.len() == n,
                forall|x: int, y: int| 0 <= x < n && 0 <= y < n ==> (#[trigger] a@[x]@[y] <==>
                    pair_listed(self.edges@.take(k as int), self.nodes@[x]@, self.nodes@[y]@)),
            decreases self.edges.len() - k,
        {
            let ghost a_prev = a@;
            let fu = self.find_node(self.edges[k].0.as_str());
            let tu = self.find_node(self.edges[k].1.as_str());
            assert(self.has_node(self.edges@[k as int].0@));
            assert(self.has_node(self.edges@[k as int].1@));
            let fu = fu.unwrap();
            let tu = tu.unwrap();
            let mut row: Vec<bool> = Vec::new();
            a.set_and_swap(fu, &mut row);
            row.set(tu, true);
            a.set_and_swap(fu, &mut row);
            proof {
                let ek = self.edges@.take(k + 1);
                assert forall|x: int, y: int| 0 <= x < n && 0 <= y < n implies (#[trigger] a@[x]@[y] <==>
                    pair_listed(ek, self.nodes@[x]@, self.nodes@[y]@)) by {
                    if pair_listed(ek, self.nodes@[x]@, self.nodes@[y]@) {
                        let j = choose|j: int| 0 <= j < ek.len() && ek[j].0@ == self.nodes@[x]@ && ek[j].1@ == self.nodes@[y]@;
                        if j == k {
                            self.lemma_nodes_distinct(x, fu as int);
                            self.lemma_nodes_distinct(y, tu as int);
                        } else {
                            assert(self.edges@.take(k as int)[j] == ek[j]);
                        }
                    }
                    if x == fu && y == tu {
                        assert(ek[k as int].0@ == self.nodes@[x]@ && ek[k as int].1@ == self.nodes@[y]@);
                    } else if a_prev[x]@[y] {
                        let j = choose|j: int| 0 <= j < k && self.edges@.take(k as int)[j].0@ == self.nodes@[x]@
                            && self.edges@.take(k as int)[j].1@ == self.nodes@[y]@;
                        assert(ek[j] == self.edges@.take(k as int)[j]);
                    }
                }
            }
            k += 1;
        }
        proof {
            assert(self.edges@.take(self.edges@.len() as int) =~= self.edges@);
            assert forall|x: int, y: int| 0 <= x < n && 0 <= y < n implies
                (#[trigger] rows(a@)[x][y] <==> self.has_edge(self.nodes@[x]@, self.nodes@[y]@)) by {
                assert(rows(a@)[x] == a@[x]@);
            }
        }
        a
    }

    /// Topological sort using Kahn's algorithm.
    /// Returns (order, cycle_pairs) where:
    /// - `order` has each node appearing AFTER all its dependencies
    /// - `cycle_pairs` are (from, to) edges that were removed to break cycles
    ///
    /// Ties are broken by name: among nodes ready at the same time the
    /// smaller name goes first, and a cycle is broken at the unvisited node
    /// with most pending dependencies (the last such by name), dropping its
    /// edge to the smallest pending dependency.
    pub fn topo_sort(&self) -> (r: (Vec<String>, Vec<(String, String)>))
        requires
            self.wf(),
        ensures
            r.0@.len() == self.nodes@.len(),
            forall|s: Seq<char>| self.has_node(s) <==> exists|i: int| 0 <= i < r.0@.len() && #[trigger] r.0@[i]@ == s,
            forall|i: int, j: int| 0 <= i < j < r.0@.len() ==> #[trigger] r.0@[i]@ != #[trigger] r.0@[j]@,
            forall|k: int| 0 <= k < r.1@.len() ==> self.has_edge(#[trigger] r.1@[k].0@, r.1@[k].1@),
            forall|k: int, l: int| 0 <= k < l < r.1@.len() ==>
                !(#[trigger] r.1@[k].0@ == #[trigger] r.1@[l].0@ && r.1@[k].1@ == r.1@[l].1@),
            forall|a: Seq<char>, b: Seq<char>, i: int, j: int|
                #[trigger] self.has_edge(a, b) && !pair_listed(r.1@, a, b) && 0 <= i < r.0@.len() && 0 <= j < r.0@.len()
                && #[trigger] r.0@[i]@ == b && #[trigger] r.0@[j]@ == a ==> i < j,
            self.acyclic() ==> r.1@.len() == 0,
            self.is_topo_result(r.0@, r.1@),
            string_views(r.0@) == self.topo_spec().0,
            cycle_views(r.1@) == self.topo_spec().1,
    {
        let a = self.matrix();
        let ghost ga = rows(a@);
        let n = self.nodes.len();
        let (oi, ci) = kahn(a);
        let mut order: Vec<String> = Vec::new();
        let mut i: usize = 0;
        while i < oi.len()
            invariant
                self.wf(),
                n == self.nodes@.len(),
                oi@.len() == n,
                forall|x: int| 0 <= x < oi@.len() ==> (#[trigger] oi@[x]) < n,
                i <= oi@.len(),
                order@.len() == i,
                forall|x: int| 0 <= x < i ==> (#[trigger] order@[x])@ == self.nodes@[oi@[x] as int]@,
            decreases oi.len() - i,
        {
            order.push(self.nodes[oi[i]].clone());
            i += 1;
        }
        let mut cycles: Vec<(String, String)> = Vec::new();
        let mut k: usize = 0;
        while k < ci.len()
            invariant
                self.wf(),
                n == self.nodes@.len(),
                forall|x: int| 0 <= x < ci@.len() ==> (#[trigger] ci@[x]).0 < n && ci@[x].1 < n,
                k <= ci@.len(),
                cycles@.len() == k,
                forall|x: int| 0 <= x < k ==> (#[trigger] cycles@[x]).0@ == self.nodes@[ci@[x].0 as int]@
                    && cycles@[x].1@ == self.nodes@[ci@[x].1 as int]@,
            decreases ci.len() - k,
        {
            cycles.push((self.nodes[ci[k].0].clone(), self.nodes[ci[k].1].clone()));
            k += 1;
        }
        proof {
            assert forall|s: Seq<char>| self.has_node(s) implies exists|x: int| 0 <= x < order@.len() && #[trigger] order@[x]@ == s by {
                let v = choose|v: int| 0 <= v < n && self.nodes@[v]@ == s;
                assert(index_listed(oi@, v));
                let x = choose|x: int| 0 <= x < oi@.len() && oi@[x] == v;
                assert(order@[x]@ == s);
            }
            assert forall|s: Seq<char>| (exists|x: int| 0 <= x < order@.len() && #[trigger] order@[x]@ == s) implies self.has_node(s) by {
                let x = choose|x: int| 0 <= x < order@.len() && #[trigger] order@[x]@ == s;
                assert(self.nodes@[oi@[x] as int]@ == s);
            }
            assert forall|x: int, y: int| 0 <= x < y < order@.len() implies #[trigger] order@[x]@ != #[trigger] order@[y]@ by {
                if order@[x]@ == order@[y]@ {
                    self.lemma_nodes_distinct(oi@[x] as int, oi@[y] as int);
                }
            }
            assert forall|x: int| 0 <= x < cycles@.len() implies self.has_edge(#[trigger] cycles@[x].0@, cycles@[x].1@) by {
                assert(ga[ci@[x].0 as int][ci@[x].1 as int]);
            }
            assert forall|x: int, y: int| 0 <= x < y < cycles@.len() implies
                !(#[trigger] cycles@[x].0@ == #[trigger] cycles@[y].0@ && cycles@[x].1@ == cycles@[y].1@) by {
                if cycles@[x].0@ == cycles@[y].0@ && cycles@[x].1@ == cycles@[y].1@ {
                    self.lemma_nodes_distinct(ci@[x].0 as int, ci@[y].0 as int);
                    self.lemma_nodes_distinct(ci@[x].1 as int, ci@[y].1 as int);
                    assert(ci@[x] == ci@[y]);
                }
            }
            assert forall|sa: Seq<char>, sb: Seq<char>, x: int, y: int|
                #[trigger] self.has_edge(sa, sb) && !pair_listed(cycles@, sa, sb) && 0 <= x < order@.len() && 0 <= y < order@.len()
                && #[trigger] order@[x]@ == sb && #[trigger] order@[y]@ == sa implies x < y by {
                let w = oi@[x] as int;
                let u = oi@[y] as int;
                assert(ga[u][w]);
                if cycle_listed(ci@, u, w) {
                    let c = choose|c: int| 0 <= c < ci@.len() && ci@[c].0 == u && ci@[c].1 == w;
                    assert(cycles@[c].0@ == sa && cycles@[c].1@ == sb);
                }
            }
            assert forall|u: int| 0 <= u < n implies #[trigger] ga[u] =~= self.dep_matrix()[u] by {}
            assert(ga =~= self.dep_matrix());
            assert(string_views(order@) =~= self.topo_spec().0);
            assert(cycle_views(cycles@) =~= self.topo_spec().1);
            if self.acyclic() {
                let rank = choose|rank: spec_fn(Seq<char>) -> int| #[trigger] self.is_ranking(rank);
                let ri = |x: int| rank(self.nodes@[x]@);
                assert forall|x: int, y: int| 0 <= x < n && 0 <= y < n && #[trigger] ga[x][y] implies ri(y) < ri(x) by {
                    assert(self.has_edge(self.nodes@[x]@, self.nodes@[y]@));
                }
                assert(matrix_ranking(ga, n as int, ri));
            }
        }
        (order, cycles)
    }
}

// ─── counting over boolean rows ─────────────────────────────────────────────

/// Number of positions below `k` set in `row`.
pub open spec fn row_count(row: Seq<bool>, k: int) -> nat
    decreases k,
{
    if k <= 0 {
        0
    } else {
        row_count(row, k - 1) + if row[k - 1] { 1nat } else { 0nat }
    }
}

/// Number of positions below `k` set in `row` whose node is not yet visited.
pub open spec fn pending(row: Seq<bool>, vis: Seq<bool>, k: int) -> nat
    decreases k,
{
    if k <= 0 {
        0
    } else {
        pending(row, vis, k - 1) + if row[k - 1] && !vis[k - 1] { 1nat } else { 0nat }
    }
}

/// Set entries in the first `k` rows.
pub open spec fn matrix_count(m: Seq<Seq<bool>>, k: int) -> nat
    decreases k,
{
    if k <= 0 {
        0
    } else {
        matrix_count(m, k - 1) + row_count(m[k - 1], m[k - 1].len() as int)
    }
}

proof fn lemma_row_count_le(row: Seq<bool>, k: int)
    requires
        0 <= k,
    ensures
        row_count(row, k) <= k,
    decreases k,
{
    if k > 0 {
        lemma_row_count_le(row, k - 1);
    }
}

proof fn lemma_row_count_full(row: Seq<bool>, k: int)
    requires
        0 <= k <= row.len(),
        row_count(row, k) == k,
    ensures
        forall|j: int| 0 <= j < k ==> row[j],
    decreases k,
{
    if k > 0 {
        lemma_row_count_le(row, k - 1);
        lemma_row_count_full(row, k - 1);
    }
}

proof fn lemma_row_count_not_full(row: Seq<bool>, k: int)
    requires
        0 <= k <= row.len(),
        row_count(row, k) < k,
    ensures
        exists|j: int| 0 <= j < k && !row[j],
    decreases k,
{
    if k > 0 {
        if row[k - 1] {
            lemma_row_count_not_full(row, k - 1);
            let j = choose|j: int| 0 <= j < k - 1 && !row[j];
            assert(0 <= j < k && !row[j]);
        } else {
            assert(!row[k - 1]);
        }
    }
}

proof fn lemma_row_count_set(row: Seq<bool>, w: int, v: bool, k: int)
    requires
        0 <= w < row.len(),
        0 <= k <= row.len(),
    ensures
        row_count(row.update(w, v), k) + (if w < k && row[w] { 1int } else { 0int })
            == row_count(row, k) + (if w < k && v { 1int } else { 0int }),
    decreases k,
{
    if k > 0 {
        lemma_row_count_set(row, w, v, k - 1);
    }
}

proof fn lemma_pending_vis(row: Seq<bool>, vis: Seq<bool>, w: int, k: int)
    requires
        0 <= w < vis.len(),
        0 <= k <= vis.len(),
        vis.len() == row.len(),
        !vis[w],
    ensures
        pending(row, vis.update(w, true), k) + (if w < k && row[w] { 1int } else { 0int }) == pending(row, vis, k),
    decreases k,
{
    if k > 0 {
        lemma_pending_vis(row, vis, w, k - 1);
    }
}

proof fn lemma_pending_row(row: Seq<bool>, vis: Seq<bool>, w: int, k: int)
    requires
        0 <= w < vis.len(),
        0 <= k <= vis.len(),
        vis.len() == row.len(),
        row[w],
        !vis[w],
    ensures
        pending(row.update(w, false), vis, k) + (if w < k { 1int } else { 0int }) == pending(row, vis, k),
    decreases k,
{
    if k > 0 {
        lemma_pending_row(row, vis, w, k - 1);
    }
}

proof fn lemma_pending_zero(row: Seq<bool>, vis: Seq<bool>, k: int)
    requires
        0 <= k <= vis.len(),
        vis.len() == row.len(),
    ensures
        pending(row, vis, k) == 0 <==> forall|j: int| 0 <= j < k ==> (row[j] ==> vis[j]),
    decreases k,
{
    if k > 0 {
        lemma_pending_zero(row, vis, k - 1);
    }
}

proof fn lemma_pending_ext(row: Seq<bool>, vis1: Seq<bool>, vis2: Seq<bool>, k: int)
    requires
        0 <= k <= vis1.len(),
        vis1.len() == vis2.len(),
        forall|j: int| 0 <= j < k ==> vis1[j] == vis2[j],
    ensures
        pending(row, vis1, k) == pending(row, vis2, k),
    decreases k,
{
    if k > 0 {
        lemma_pending_ext(row, vis1, vis2, k - 1);
    }
}

proof fn lemma_matrix_set(m: Seq<Seq<bool>>, u: int, r: Seq<bool>, k: int)
    requires
        0 <= u < m.len(),
        0 <= k <= m.len(),
    ensures
        matrix_count(m.update(u, r), k) + (if u < k { row_count(m[u], m[u].len() as int) as int } else { 0int })
            == matrix_count(m, k) + (if u < k { row_count(r, r.len() as int) as int } else { 0int }),
    decreases k,
{
    if k > 0 {
        lemma_matrix_set(m, u, r, k - 1);
    }
}

/// Among the unvisited positions below `k`, one of least rank.
proof fn lemma_min_rank(vis: Seq<bool>, rank: spec_fn(int) -> int, k: int) -> (m: int)
    requires
        0 <= k <= vis.len(),
        exists|j: int| 0 <= j < k && !vis[j],
    ensures
        0 <= m < k,
        !vis[m],
        forall|j: int| 0 <= j < k && !vis[j] ==> rank(m) <= rank(j),
    decreases k,
{
    if exists|j: int| 0 <= j < k - 1 && !vis[j] {
        let m0 = lemma_min_rank(vis, rank, k - 1);
        if !vis[k - 1] && rank(k - 1) < rank(m0) {
            k - 1
        } else {
            m0
        }
    } else {
        k - 1
    }
}

/// Every set entry `m[x][y]` goes from a higher rank to a lower one.
pub open spec fn matrix_ranking(m: Seq<Seq<bool>>, n: int, rank: spec_fn(int) -> int) -> bool {
    forall|x: int, y: int| 0 <= x < n && 0 <= y < n && #[trigger] m[x][y] ==> rank(y) < rank(x)
}

/// `v` occurs in `s`.
pub open spec fn index_listed(s: Seq<usize>, v: int) -> bool {
    exists|i: int| 0 <= i < s.len() && s[i] == v
}

/// The queue positions from `qh` on hold `v`.
pub open spec fn queued(queue: Seq<usize>, qh: int, v: int) -> bool {
    exists|q: int| qh <= q < queue.len() && queue[q] == v
}

pub open spec fn cycle_listed(cyc: Seq<(usize, usize)>, u: int, w: int) -> bool {
    exists|k: int| 0 <= k < cyc.len() && cyc[k].0 == u && cyc[k].1 == w
}

/// Rows of a boolean matrix as sequences.
pub open spec fn rows(m: Seq<Vec<bool>>) -> Seq<Seq<bool>> {
    m.map_values(|r: Vec<bool>| r@)
}

/// The state of the sort loop over node indices `0..n`.
pub open spec fn sort_state(
    n: int,
    a0: Seq<Seq<bool>>,
    adj: Seq<Seq<bool>>,
    deg: Seq<usize>,
    vis: Seq<bool>,
    order: Seq<usize>,
    queue: Seq<usize>,
    qh: int,
    cyc: Seq<(usize, usize)>,
) -> bool {
    &&& a0.len() == n && adj.len() == n && deg.len() == n && vis.len() == n
    &&& forall|u: int| 0 <= u < n ==> (#[trigger] a0[u]).len() == n
    &&& forall|u: int| 0 <= u < n ==> (#[trigger] adj[u]).len() == n
    &&& forall|u: int, w: int| 0 <= u < n && 0 <= w < n ==> (#[trigger] adj[u][w] <==> (a0[u][w] && !cycle_listed(cyc, u, w)))
    &&& forall|k: int| 0 <= k < cyc.len() ==> (#[trigger] cyc[k]).0 < n && cyc[k].1 < n && a0[cyc[k].0 as int][cyc[k].1 as int]
    &&& forall|k: int, l: int| 0 <= k < l < cyc.len() ==> #[trigger] cyc[k] != #[trigger] cyc[l]
    &&& forall|i: int| 0 <= i < order.len() ==> (#[trigger] order[i]) < n && vis[order[i] as int]
    &&& forall|i: int, j: int| 0 <= i < j < order.len() ==> #[trigger] order[i] != #[trigger] order[j]
    &&& forall|v: int| 0 <= v < n && #[trigger] vis[v] ==> exists|i: int| 0 <= i < order.len() && order[i] == v
    &&& row_count(vis, n) == order.len()
    &&& forall|j: int, w: int| 0 <= j < order.len() && 0 <= w < n && #[trigger] adj[order[j] as int][w] ==> vis[w]
        && forall|i: int| 0 <= i < order.len() && #[trigger] order[i] == w ==> i < j
    &&& forall|v: int| 0 <= v < n && !vis[v] ==> #[trigger] deg[v] == pending(adj[v], vis, n)
    &&& 0 <= qh <= queue.len()
    &&& forall|q: int| qh <= q < queue.len() ==> (#[trigger] queue[q]) < n && deg[queue[q] as int] == 0
    &&& forall|v: int| 0 <= v < n && !vis[v] && #[trigger] deg[v] == 0 ==> queued(queue, qh, v)
}

/// Where the sort stands: the edges still in force, the pending-dependency
/// counts, the placed nodes (in `vis` and, in order, in `order`), the queue
/// with its head, and the edges given up so far. Nodes are positions in the
/// name order.
#[verifier::ext_equal]
pub ghost struct SortState {
    pub adj: Seq<Seq<bool>>,
    pub deg: Seq<usize>,
    pub vis: Seq<bool>,
    pub order: Seq<usize>,
    pub queue: Seq<usize>,
    pub qh: int,
    pub cyc: Seq<(usize, usize)>,
}

/// How many dependencies each node has at the start.
pub open spec fn initial_degrees(a: Seq<Seq<bool>>) -> Seq<usize> {
    Seq::new(a.len(), |u: int| row_count(a[u], a.len() as int) as usize)
}

/// The positions below `k` with no dependency, in increasing order.
pub open spec fn ready_queue(deg: Seq<usize>, k: int) -> Seq<usize>
    decreases k,
{
    if k <= 0 {
        Seq::empty()
    } else if deg[k - 1] == 0 {
        ready_queue(deg, k - 1).push((k - 1) as usize)
    } else {
        ready_queue(deg, k - 1)
    }
}

/// The sort before its first step: every node unplaced, the queue seeded
/// with the nodes that depend on nothing, in name order.
pub open spec fn sort_start(a: Seq<Seq<bool>>) -> SortState {
    SortState {
        adj: a,
        deg: initial_degrees(a),
        vis: Seq::new(a.len(), |u: int| false),
        order: Seq::empty(),
        queue: ready_queue(initial_degrees(a), a.len() as int),
        qh: 0,
        cyc: Seq::empty(),
    }
}

/// Placing `node` (already marked in `vis`): each unplaced node from
/// position `d` on that depends on it, in name order, has one dependency
/// fewer and joins the queue when none is left. The counts and the queue
/// after that.
pub open spec fn release(
    adj: Seq<Seq<bool>>,
    node: int,
    vis: Seq<bool>,
    deg: Seq<usize>,
    queue: Seq<usize>,
    d: int,
    n: int,
) -> (Seq<usize>, Seq<usize>)
    decreases n - d,
{
    if d >= n {
        (deg, queue)
    } else if adj[d][node] && !vis[d] {
        let deg2 = if deg[d] > 0 { deg.update(d, (deg[d] - 1) as usize) } else { deg };
        let queue2 = if deg2[d] == 0 { queue.push(d as usize) } else { queue };
        release(adj, node, vis, deg2, queue2, d + 1, n)
    } else {
        release(adj, node, vis, deg, queue, d + 1, n)
    }
}

/// The cycle breaker among the positions from `x` on, given the best so far
/// (`n` for none): the unplaced node with the most pending dependencies, the
/// last such in name order.
pub open spec fn pick_breaker(adj: Seq<Seq<bool>>, vis: Seq<bool>, x: int, n: int, breaker: int, best: int) -> int
    decreases n - x,
{
    if x >= n {
        breaker
    } else if !vis[x] && (breaker == n || pending(adj[x], vis, n) >= best) {
        pick_breaker(adj, vis, x + 1, n, x, pending(adj[x], vis, n) as int)
    } else {
        pick_breaker(adj, vis, x + 1, n, breaker, best)
    }
}

/// The first position from `w` on that `row` depends on and is unplaced,
/// `n` where there is none.
pub open spec fn first_pending(row: Seq<bool>, vis: Seq<bool>, w: int, n: int) -> int
    decreases n - w,
{
    if w >= n {
        n
    } else if row[w] && !vis[w] {
        w
    } else {
        first_pending(row, vis, w + 1, n)
    }
}

/// One step of the sort. While nodes are left: take the queue's head and,
/// unless already placed, place it and release its dependents; with the
/// queue empty, give up the breaker's edge to its first pending dependency
/// (the breaker joins the queue when that was its last). Once every node is
/// placed, nothing changes.
pub open spec fn sort_step(s: SortState) -> SortState {
    let n = s.adj.len() as int;
    if s.order.len() >= n {
        s
    } else if s.qh < s.queue.len() {
        let node = s.queue[s.qh] as int;
        if s.vis[node] {
            SortState { qh: s.qh + 1, ..s }
        } else {
            let vis = s.vis.update(node, true);
            let dq = release(s.adj, node, vis, s.deg, s.queue, 0, n);
            SortState { deg: dq.0, vis: vis, order: s.order.push(node as usize), queue: dq.1, qh: s.qh + 1, ..s }
        }
    } else {
        let b = pick_breaker(s.adj, s.vis, 0, n, n, 0);
        let t = first_pending(s.adj[b], s.vis, 0, n);
        if t < n {
            let deg = if s.deg[b] > 0 { s.deg.update(b, (s.deg[b] - 1) as usize) } else { s.deg };
            SortState {
                adj: s.adj.update(b, s.adj[b].update(t, false)),
                deg: deg,
                queue: if deg[b] == 0 && !s.vis[b] { s.queue.push(b as usize) } else { s.queue },
                cyc: s.cyc.push((b as usize, t as usize)),
                ..s
            }
        } else {
            SortState { vis: s.vis.update(b, true), order: s.order.push(b as usize), ..s }
        }
    }
}

/// `k` steps of the sort from `s`.
pub open spec fn sort_steps(s: SortState, k: nat) -> SortState
    decreases k,
{
    if k == 0 {
        s
    } else {
        sort_steps(sort_step(s), (k - 1) as nat)
    }
}

/// Every node is placed.
pub open spec fn sort_done(s: SortState) -> bool {
    s.order.len() >= s.adj.len()
}

/// Where the sort of the matrix `a` ends: the state after as many steps as
/// it takes to place every node (steps past that change nothing).
pub open spec fn sort_end(a: Seq<Seq<bool>>) -> SortState {
    sort_steps(sort_start(a), choose|k: nat| sort_done(#[trigger] sort_steps(sort_start(a), k)))
}

proof fn lemma_steps_last(s: SortState, k: nat)
    ensures
        sort_steps(s, k + 1) == sort_step(sort_steps(s, k)),
    decreases k,
{
    if k > 0 {
        lemma_steps_last(sort_step(s), (k - 1) as nat);
        assert(((k + 1) - 1) as nat == (k - 1) as nat + 1);
    } else {
        assert(sort_steps(sort_step(s), 0) == sort_step(s));
    }
}

proof fn lemma_steps_done(s: SortState, k: nat)
    requires
        sort_done(s),
    ensures
        sort_steps(s, k) == s,
    decreases k,
{
    if k > 0 {
        lemma_steps_done(sort_step(s), (k - 1) as nat);
    }
}

proof fn lemma_steps_split(s: SortState, j: nat, k: nat)
    ensures
        sort_steps(s, j + k) == sort_steps(sort_steps(s, j), k),
    decreases j,
{
    if j > 0 {
        lemma_steps_split(sort_step(s), (j - 1) as nat, k);
        assert((j + k - 1) as nat == (j - 1) as nat + k);
    }
}

/// Once the sort has placed every node after `k` steps, that is its end.
proof fn lemma_sort_end(a: Seq<Seq<bool>>, k: nat)
    requires
        sort_done(sort_steps(sort_start(a), k)),
    ensures
        sort_end(a) == sort_steps(sort_start(a), k),
{
    let s = sort_start(a);
    let j = choose|j: nat| sort_done(#[trigger] sort_steps(s, j));
    if j <= k {
        lemma_steps_split(s, j, (k - j) as nat);
        lemma_steps_done(sort_steps(s, j), (k - j) as nat);
        assert(j + (k - j) as nat == k);
    } else {
        lemma_steps_split(s, k, (j - k) as nat);
        lemma_steps_done(sort_steps(s, k), (j - k) as nat);
        assert(k + (j - k) as nat == j);
    }
}

/// The sort state that the running loop's variables hold.
pub open spec fn state_of(
    adj: Seq<Vec<bool>>,
    deg: Seq<usize>,
    vis: Seq<bool>,
    order: Seq<usize>,
    queue: Seq<usize>,
    qh: usize,
    cyc: Seq<(usize, usize)>,
) -> SortState {
    SortState { adj: rows(adj), deg: deg, vis: vis, order: order, queue: queue, qh: qh as int, cyc: cyc }
}

/// Kahn's algorithm over node indices `0..n`, on the adjacency matrix `a`
/// (`a[u][w]`: `u` depends on `w`). Index order is the order of names, so
/// every "sorted" choice below takes the lowest index.
///
/// Returns the emitted order and the removed (cycle-breaking) edges.
fn kahn(a: Vec<Vec<bool>>) -> (r: (Vec<usize>, Vec<(usize, usize)>))
    requires
        forall|u: int| 0 <= u < a@.len() ==> (#[trigger] a@[u])@.len() == a@.len(),
    ensures
        r.0@.len() == a@.len(),
        forall|i: int| 0 <= i < r.0@.len() ==> (#[trigger] r.0@[i]) < a@.len(),
        forall|v: int| 0 <= v < a@.len() ==> #[trigger] index_listed(r.0@, v),
        forall|i: int, j: int| 0 <= i < j < r.0@.len() ==> #[trigger] r.0@[i] != #[trigger] r.0@[j],
        forall|k: int| 0 <= k < r.1@.len() ==> (#[trigger] r.1@[k]).0 < a@.len() && r.1@[k].1 < a@.len()
            && rows(a@)[r.1@[k].0 as int][r.1@[k].1 as int],
        forall|k: int, l: int| 0 <= k < l < r.1@.len() ==> #[trigger] r.1@[k] != #[trigger] r.1@[l],
        forall|u: int, w: int, i: int, j: int|
            0 <= u < a@.len() && 0 <= w < a@.len() && #[trigger] rows(a@)[u][w] && !cycle_listed(r.1@, u, w)
            && 0 <= i < r.0@.len() && 0 <= j < r.0@.len() && #[trigger] r.0@[i] == w && #[trigger] r.0@[j] == u ==> i < j,
        (exists|rank: spec_fn(int) -> int| #[trigger] matrix_ranking(rows(a@), a@.len() as int, rank)) ==> r.1@.len() == 0,
        r.0@ == sort_end(rows(a@)).order,
        r.1@ == sort_end(rows(a@)).cyc,
{
    let n = a.len();
    let ghost a0 = rows(a@);
    let mut adj = a;
    let mut deg: Vec<usize> = Vec::new();
    let mut vis: Vec<bool> = Vec::new();
    let mut v: usize = 0;
    while v < n
        invariant
            n == adj@.len(),
            rows(adj@) == a0,
            forall|u: int| 0 <= u < n ==> (#[trigger] a0[u]).len() == n,
            v <= n,
            deg@.len() == v,
            vis@.len() == v,
            forall|u: int| 0 <= u < v ==> !(#[trigger] vis@[u]),
            forall|u: int| 0 <= u < v ==> #[trigger] deg@[u] == row_count(a0[u], n as int),
        decreases n - v,
    {
        let mut c: usize = 0;
        let mut w: usize = 0;
        while w < n
            invariant
                n == adj@.len(),
                rows(adj@) == a0,
                v < n,
                a0[v as int].len() == n,
                w <= n,
                c == row_count(a0[v as int], w as int),
                c <= w,
            decreases n - w,
        {
            if adj[v][w] {
                c += 1;
            }
            w += 1;
        }
        deg.push(c);
        vis.push(false);
        v += 1;
    }
    let mut queue: Vec<usize> = Vec::new();
    let mut u: usize = 0;
    while u < n
        invariant
            n == deg@.len(),
            u <= n,
            forall|q: int| 0 <= q < queue@.len() ==> (#[trigger] queue@[q]) < n && deg@[queue@[q] as int] == 0,
            forall|x: int| 0 <= x < u && #[trigger] deg@[x] == 0 ==> queued(queue@, 0, x),
            queue@ == ready_queue(deg@, u as int),
        decreases n - u,
    {
        let ghost q0 = queue@;
        if deg[u] == 0 {
            queue.push(u);
            assert(queue@[queue@.len() - 1] == u);
        }
        proof {
            assert forall|x: int| 0 <= x < u + 1 && #[trigger] deg@[x] == 0 implies queued(queue@, 0, x) by {
                if x < u {
                    let q = choose|q: int| 0 <= q < q0.len() && q0[q] == x;
                    assert(queue@[q] == x);
                } else {
                    assert(queue@[queue@.len() - 1] == x);
                }
            }
        }
        u += 1;
    }
    let mut qh: usize = 0;
    let mut order: Vec<usize> = Vec::new();
    let mut cyc: Vec<(usize, usize)> = Vec::new();
    let ghost start = sort_start(a0);
    let ghost mut steps: nat = 0;
    proof {
        assert(deg@ =~= initial_degrees(a0));
        assert(vis@ =~= Seq::new(a0.len(), |x: int| false));
        assert(state_of(adj@, deg@, vis@, order@, queue@, qh, cyc@) =~= start);
        assert(sort_steps(start, 0) == start);
        assert forall|x: int| 0 <= x < n implies #[trigger] deg@[x] == pending(rows(adj@)[x], vis@, n as int) by {
            lemma_pending_all_unvisited(rows(adj@)[x], vis@, n as int);
        }
        assert(row_count(vis@, n as int) == 0) by {
            lemma_row_count_none(vis@, n as int);
        }
        assert forall|x: int, y: int| 0 <= x < n && 0 <= y < n implies
            (#[trigger] rows(adj@)[x][y] <==> (a0[x][y] && !cycle_listed(cyc@, x, y))) by {}
    }
    while order.len() < n
        invariant
            n == adj@.len(),
            sort_state(n as int, a0, rows(adj@), deg@, vis@, order@, queue@, qh as int, cyc@),
            (exists|rank: spec_fn(int) -> int| #[trigger] matrix_ranking(a0, n as int, rank)) ==> cyc@.len() == 0,
            start == sort_start(a0),
            sort_steps(start, steps) == state_of(adj@, deg@, vis@, order@, queue@, qh, cyc@),
        decreases n - order@.len(), matrix_count(rows(adj@), n as int), queue@.len() - qh,
    {
        let ghost g_state = state_of(adj@, deg@, vis@, order@, queue@, qh, cyc@);
        proof {
            lemma_steps_last(start, steps);
            steps = steps + 1;
        }
        let ghost g_adj = rows(adj@);
        let ghost g_vis = vis@;
        let ghost g_deg = deg@;
        let ghost g_order = order@;
        let ghost g_queue = queue@;
        let ghost g_qh = qh as int;
        let ghost g_cyc = cyc@;
        if qh < queue.len() {
            let node = queue[qh];
            qh += 1;
            if vis[node] {
                assert(state_of(adj@, deg@, vis@, order@, queue@, qh, cyc@) == sort_step(g_state));
                continue;
            }
            proof {
                lemma_pending_zero(g_adj[node as int], g_vis, n as int);
            }
            order.push(node);
            vis.set(node, true);
            proof {
                lemma_row_count_set(g_vis, node as int, true, n as int);
                assert forall|x: int| 0 <= x < n && !vis@[x] implies
                    #[trigger] pending(g_adj[x], g_vis, n as int) == pending(g_adj[x], vis@, n as int)
                        + (if g_adj[x][node as int] { 1int } else { 0int }) by {
                    lemma_pending_vis(g_adj[x], g_vis, node as int, n as int);
                }
            }
            let mut d: usize = 0;
            while d < n
                invariant
                    n == adj@.len(),
                    rows(adj@) == g_adj,
                    d <= n,
                    node < n,
                    vis@ == g_vis.update(node as int, true),
                    !g_vis[node as int],
                    deg@.len() == n,
                    sort_state(n as int, a0, g_adj, g_deg, g_vis, g_order, g_queue, g_qh, cyc@),
                    order@ == g_order.push(node),
                    g_qh < qh <= queue@.len(),
                    queue@.len() >= g_queue.len(),
                    forall|q: int| 0 <= q < g_queue.len() ==> #[trigger] queue@[q] == g_queue[q],
                    qh == g_qh + 1,
                    g_queue[g_qh] == node,
                    forall|x: int| 0 <= x < n && !vis@[x] ==> #[trigger] pending(g_adj[x], g_vis, n as int)
                        == pending(g_adj[x], vis@, n as int) + (if g_adj[x][node as int] { 1int } else { 0int }),
                    forall|x: int| 0 <= x < n && !vis@[x] ==> #[trigger] deg@[x]
                        == pending(g_adj[x], vis@, n as int) + (if x >= d && g_adj[x][node as int] { 1int } else { 0int }),
                    forall|x: int| 0 <= x < n && vis@[x] ==> #[trigger] deg@[x] == g_deg[x],
                    forall|q: int| qh <= q < queue@.len() ==> (#[trigger] queue@[q]) < n && deg@[queue@[q] as int] == 0,
                    forall|x: int| 0 <= x < n && !vis@[x] && #[trigger] deg@[x] == 0 ==> queued(queue@, qh as int, x),
                    queue@.len() - qh <= g_queue.len() - g_qh - 1 + d,
                    release(g_adj, node as int, vis@, deg@, queue@, d as int, n as int)
                        == release(g_adj, node as int, vis@, g_deg, g_queue, 0, n as int),
                decreases n - d,
            {
                assert(adj@[d as int]@.len() == n) by {
                    assert(rows(adj@)[d as int] == adj@[d as int]@);
                }
                if adj[d][node] && !vis[d] {
                    let ghost q0 = queue@;
                    if deg[d] > 0 {
                        deg.set(d, deg[d] - 1);
                    }
                    if deg[d] == 0 {
                        queue.push(d);
                    }
                    proof {
                        assert forall|x: int| 0 <= x < n && !vis@[x] && #[trigger] deg@[x] == 0 implies queued(queue@, qh as int, x) by {
                            if x == d {
                                assert(queue@[queue@.len() - 1] == d);
                            } else {
                                let q = choose|q: int| qh <= q < q0.len() && q0[q] == x;
                                assert(queue@[q] == x);
                            }
                        }
                        assert forall|q: int| qh <= q < queue@.len() implies (#[trigger] queue@[q]) < n && deg@[queue@[q] as int] == 0 by {
                            if q < q0.len() {
                                assert(queue@[q] == q0[q]);
                            }
                        }
                    }
                }
                d += 1;
            }
            proof {
                let ga = rows(adj@);
                assert(ga == g_adj);
                assert(state_of(adj@, deg@, vis@, order@, queue@, qh, cyc@) == sort_step(g_state));
                assert forall|j: int, w: int| 0 <= j < order@.len() && 0 <= w < n && #[trigger] ga[order@[j] as int][w] implies vis@[w]
                    && forall|i: int| 0 <= i < order@.len() && #[trigger] order@[i] == w ==> i < j by {
                    if j < g_order.len() {
                        assert(order@[j] == g_order[j]);
                        assert(g_vis[w]);
                        assert forall|i: int| 0 <= i < order@.len() && #[trigger] order@[i] == w implies i < j by {
                            if i == g_order.len() {
                                assert(g_vis[node as int] == false);
                            } else {
                                assert(order@[i] == g_order[i]);
                            }
                        }
                    } else {
                        assert(order@[j] == node);
                        assert(g_adj[node as int][w] ==> g_vis[w]);
                        assert(w != node);
                        assert forall|i: int| 0 <= i < order@.len() && #[trigger] order@[i] == w implies i < j by {
                            if i == j {
                            }
                        }
                    }
                }
                assert forall|x: int| 0 <= x < n && #[trigger] vis@[x] implies exists|i: int| 0 <= i < order@.len() && order@[i] == x by {
                    if x == node {
                        assert(order@[g_order.len() as int] == x);
                    } else {
                        assert(g_vis[x]);
                        let i = choose|i: int| 0 <= i < g_order.len() && g_order[i] == x;
                        assert(order@[i] == x);
                    }
                }
                assert forall|i: int| 0 <= i < order@.len() implies (#[trigger] order@[i]) < n && vis@[order@[i] as int] by {
                    if i < g_order.len() {
                        assert(order@[i] == g_order[i]);
                    }
                }
                assert forall|i: int, j: int| 0 <= i < j < order@.len() implies #[trigger] order@[i] != #[trigger] order@[j] by {
                    if j == g_order.len() {
                        assert(order@[i] == g_order[i]);
                        assert(g_vis[g_order[i] as int]);
                    } else {
                        assert(order@[i] == g_order[i]);
                        assert(order@[j] == g_order[j]);
                    }
                }
            }
        } else {
            // Queue empty but not all nodes visited: a cycle exists.
            proof {
                lemma_row_count_not_full(vis@, n as int);
            }
            let mut breaker: usize = n;
            let mut best: usize = 0;
            let mut x: usize = 0;
            while x < n
                invariant
                    n == adj@.len(),
                    rows(adj@) == g_adj,
                    vis@ == g_vis,
                    vis@.len() == n,
                    x <= n,
                    breaker == n || (breaker < x && !vis@[breaker as int]),
                    breaker == n ==> forall|y: int| 0 <= y < x ==> vis@[y],
                    forall|u: int| 0 <= u < n ==> (#[trigger] g_adj[u]).len() == n,
                    pick_breaker(g_adj, g_vis, x as int, n as int, breaker as int, best as int)
                        == pick_breaker(g_adj, g_vis, 0, n as int, n as int, 0),
                decreases n - x,
            {
                if !vis[x] {
                    let mut c: usize = 0;
                    let mut w: usize = 0;
                    while w < n
                        invariant
                            n == adj@.len(),
                            rows(adj@) == g_adj,
                            vis@ == g_vis,
                            vis@.len() == n,
                            x < n,
                            g_adj[x as int].len() == n,
                            w <= n,
                            c == pending(g_adj[x as int], g_vis, w as int),
                            c <= w,
                        decreases n - w,
                    {
                        if adj[x][w] && !vis[w] {
                            c += 1;
                        }
                        w += 1;
                    }
                    if breaker == n || c >= best {
                        breaker = x;
                        best = c;
                    }
                }
                x += 1;
            }
            assert(breaker < n);
            let mut target: usize = n;
            let mut w: usize = 0;
            while w < n
                invariant
                    n == adj@.len(),
                    rows(adj@) == g_adj,
                    vis@ == g_vis,
                    vis@.len() == n,
                    breaker < n,
                    g_adj[breaker as int].len() == n,
                    w <= n,
                    target <= n,
                    target == n ==> forall|y: int| 0 <= y < w ==> !(g_adj[breaker as int][y] && !g_vis[y]),
                    target < n ==> g_adj[breaker as int][target as int] && !g_vis[target as int],
                    target == n ==> first_pending(g_adj[breaker as int], g_vis, w as int, n as int)
                        == first_pending(g_adj[breaker as int], g_vis, 0, n as int),
                    target < n ==> target == first_pending(g_adj[breaker as int], g_vis, 0, n as int),
                decreases n - w,
            {
                if target == n && adj[breaker][w] && !vis[w] {
                    target = w;
                }
                w += 1;
            }
            if target < n {
                proof {
                    assert(!cycle_listed(cyc@, breaker as int, target as int));
                    lemma_pending_row(g_adj[breaker as int], g_vis, target as int, n as int);
                    lemma_row_count_set(g_adj[breaker as int], target as int, false, n as int);
                    lemma_row_count_le(g_adj[breaker as int], n as int);
                    if exists|rank: spec_fn(int) -> int| #[trigger] matrix_ranking(a0, n as int, rank) {
                        let rank = choose|rank: spec_fn(int) -> int| #[trigger] matrix_ranking(a0, n as int, rank);
                        let m = lemma_min_rank(g_vis, rank, n as int);
                        assert forall|y: int| 0 <= y < n && g_adj[m][y] implies g_vis[y] by {
                            if !g_vis[y] {
                                assert(a0[m][y]);
                                assert(rank(y) < rank(m));
                            }
                        }
                        lemma_pending_zero(g_adj[m], g_vis, n as int);
                        assert(deg@[m] == 0);
                        assert(queued(queue@, qh as int, m));
                        assert(false);
                    }
                }
                cyc.push((breaker, target));
                let mut row: Vec<bool> = Vec::new();
                adj.set_and_swap(breaker, &mut row);
                row.set(target, false);
                adj.set_and_swap(breaker, &mut row);
                if deg[breaker] > 0 {
                    deg.set(breaker, deg[breaker] - 1);
                }
                if deg[breaker] == 0 && !vis[breaker] {
                    queue.push(breaker);
                }
                proof {
                    let na = rows(adj@);
                    assert(na =~= g_adj.update(breaker as int, g_adj[breaker as int].update(target as int, false)));
                    lemma_matrix_set(g_adj, breaker as int, na[breaker as int], n as int);
                    assert forall|p: int, q: int| 0 <= p < n && 0 <= q < n implies
                        (#[trigger] na[p][q] <==> (a0[p][q] && !cycle_listed(cyc@, p, q))) by {
                        if p == breaker && q == target {
                            assert(cyc@[cyc@.len() - 1] == (breaker, target));
                        } else {
                            assert(na[p][q] == g_adj[p][q]);
                            if cycle_listed(cyc@, p, q) {
                                let k = choose|k: int| 0 <= k < cyc@.len() && cyc@[k].0 == p && cyc@[k].1 == q;
                                assert(k < g_cyc.len());
                                assert(g_cyc[k] == cyc@[k]);
                                assert(cycle_listed(g_cyc, p, q));
                            }
                            if cycle_listed(g_cyc, p, q) {
                                let k = choose|k: int| 0 <= k < g_cyc.len() && g_cyc[k].0 == p && g_cyc[k].1 == q;
                                assert(cyc@[k] == g_cyc[k]);
                            }
                        }
                    }
                    assert forall|k: int, l: int| 0 <= k < l < cyc@.len() implies #[trigger] cyc@[k] != #[trigger] cyc@[l] by {
                        if l == cyc@.len() - 1 && cyc@[k] == cyc@[l] {
                            assert(g_cyc[k] == cyc@[k]);
                            assert(cycle_listed(g_cyc, breaker as int, target as int));
                        }
                    }
                    assert forall|j: int, y: int| 0 <= j < order@.len() && 0 <= y < n && #[trigger] na[order@[j] as int][y] implies vis@[y]
                        && forall|i: int| 0 <= i < order@.len() && #[trigger] order@[i] == y ==> i < j by {
                        assert(order@[j] != breaker);
                        assert(na[order@[j] as int] == g_adj[order@[j] as int]);
                    }
                    assert forall|xx: int| 0 <= xx < n && !vis@[xx] implies #[trigger] deg@[xx] == pending(na[xx], vis@, n as int) by {
                        if xx != breaker {
                            assert(na[xx] == g_adj[xx]);
                        }
                    }
                    assert forall|xx: int| 0 <= xx < n && !vis@[xx] && #[trigger] deg@[xx] == 0 implies queued(queue@, qh as int, xx) by {
                        if xx == breaker {
                            assert(queue@[queue@.len() - 1] == breaker);
                        } else {
                            let q = choose|q: int| g_qh <= q < g_queue.len() && g_queue[q] == xx;
                            assert(queue@[q] == xx);
                        }
                    }
                    assert forall|q: int| qh <= q < queue@.len() implies (#[trigger] queue@[q]) < n && deg@[queue@[q] as int] == 0 by {
                        if q < g_queue.len() {
                            assert(queue@[q] == g_queue[q]);
                        }
                    }
                    assert forall|u: int| 0 <= u < n implies (#[trigger] a0[u]).len() == n && na[u].len() == n by {}
                    assert(breaker == pick_breaker(g_adj, g_vis, 0, n as int, n as int, 0));
                    assert(state_of(adj@, deg@, vis@, order@, queue@, qh, cyc@) =~= sort_step(g_state));
                }
            } else {
                // The breaker has no pending dependency: it would have been queued.
                proof {
                    assert forall|y: int| 0 <= y < n && g_adj[breaker as int][y] implies g_vis[y] by {
                        assert(!(g_adj[breaker as int][y] && !g_vis[y]));
                    }
                    lemma_pending_zero(g_adj[breaker as int], g_vis, n as int);
                    assert(pending(g_adj[breaker as int], g_vis, n as int) == 0);
                    assert(!g_vis[breaker as int]);
                    assert(deg@[breaker as int] == 0);
                    assert(queued(queue@, qh as int, breaker as int));
                    assert(false);
                }
                order.push(breaker);
                vis.set(breaker, true);
            }
        }
    }
    proof {
        lemma_row_count_le(vis@, n as int);
        lemma_row_count_full(vis@, n as int);
        let fa = rows(adj@);
        assert(rows(a@) == a0);
        assert forall|v: int| 0 <= v < n implies #[trigger] index_listed(order@, v) by {
            assert(vis@[v]);
        }
        assert forall|uu: int, ww: int, i: int, j: int|
            0 <= uu < n && 0 <= ww < n && #[trigger] a0[uu][ww] && !cycle_listed(cyc@, uu, ww)
            && 0 <= i < order@.len() && 0 <= j < order@.len() && #[trigger] order@[i] == ww && #[trigger] order@[j] == uu implies i < j by {
            assert(fa[order@[j] as int][ww]);
        }
        lemma_sort_end(a0, steps);
    }
    (order, cyc)
}

proof fn lemma_pending_all_unvisited(row: Seq<bool>, vis: Seq<bool>, k: int)
    requires
        0 <= k <= vis.len(),
        forall|j: int| 0 <= j < k ==> !vis[j],
    ensures
        pending(row, vis, k) == row_count(row, k),
    decreases k,
{
    if k > 0 {
        lemma_pending_all_unvisited(row, vis, k - 1);
    }
}

proof fn lemma_row_count_none(row: Seq<bool>, k: int)
    requires
        0 <= k <= row.len(),
        forall|j: int| 0 <= j < k ==> !row[j],
    ensures
        row_count(row, k) == 0,
    decreases k,
{
    if k > 0 {
        lemma_row_count_none(row, k - 1);
    }
}

} // verus!
