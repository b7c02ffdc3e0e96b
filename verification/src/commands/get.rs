//! Queries over the cache: dependency chains and which files to show.

use vstd::prelude::*;
use crate::models::{CacheFile, FileEntry, lookup};
use crate::text::string_views;
use crate::text::{owned, str_eq, decimal, decimal_string};
use crate::models::{Signature, copy_signatures, same_signatures};
use crate::commands::next::{is_reverse_dep_kind, MAX_REVERSE_DEPS, min_nat};
use crate::paths::{path_file_stem, file_stem_of};
use crate::cli::GetArgs;
use crate::models::Language;
use crate::refs::RefsAnalyzer;
use crate::refs::java::{JavaRefsAnalyzer, pair_views, names_views, refs_result, grouped, references, candidates};
use crate::syntax::{SyntaxTree, Grammar, parsed_from};

verus! {

broadcast use vstd::string::group_string_axioms;

/// The internal imports recorded for `p` (none when the cache lacks `p`).
pub open spec fn imports_of(c: CacheFile, p: Seq<char>) -> Seq<Seq<char>> {
    match c.entry(p) {
        Some(e) => string_views(e.internal_imports@),
        None => Seq::empty(),
    }
}

/// `w` follows import edges of the cache.
pub open spec fn is_walk(c: CacheFile, w: Seq<Seq<char>>) -> bool {
    &&& w.len() >= 1
    &&& forall|i: int| 0 <= i < w.len() - 1 ==> #[trigger] imports_of(c, w[i]).contains(w[i + 1])
}

/// `b` is reached from `a` by one or more import edges.
pub open spec fn reaches(c: CacheFile, a: Seq<char>, b: Seq<char>) -> bool {
    exists|w: Seq<Seq<char>>| #[trigger] is_walk(c, w) && w.len() >= 2 && w[0] == a && w.last() == b
}

/// The files of `order` (in that order) that `start` reaches, `start` excluded.
pub open spec fn reached_in_order(c: CacheFile, start: Seq<char>, order: Seq<Seq<char>>) -> Seq<Seq<char>>
    decreases order.len(),
{
    if order.len() == 0 {
        Seq::empty()
    } else {
        let rest = reached_in_order(c, start, order.drop_last());
        if reaches(c, start, order.last()) && order.last() != start {
            rest.push(order.last())
        } else {
            rest
        }
    }
}

/// Every import string the cache records, in one sequence.
pub open spec fn all_imports(c: CacheFile) -> Seq<Seq<char>> {
    c.files@.map_values(|f: (String, FileEntry)| string_views(f.1.internal_imports@)).flatten()
}

pub open spec fn not_found_message(p: Seq<char>) -> Seq<char> {
    "Path '"@ + p + "' not found in cache"@
}

proof fn lemma_flatten_contains(ss: Seq<Seq<Seq<char>>>, i: int, j: int)
    requires
        0 <= i < ss.len(),
        0 <= j < ss[i].len(),
    ensures
        ss.flatten().contains(ss[i][j]),
    decreases ss.len(),
{
    if i == 0 {
        assert(ss.flatten() == ss.first() + ss.drop_first().flatten());
        assert(ss.flatten()[j] == ss[i][j]);
    } else {
        lemma_flatten_contains(ss.drop_first(), i - 1, j);
        let rest = ss.drop_first().flatten();
        let k = choose|k: int| 0 <= k < rest.len() && rest[k] == ss[i][j];
        assert(ss.flatten() == ss.first() + rest);
        assert(ss.flatten()[ss.first().len() + k] == ss[i][j]);
    }
}

/// An import recorded for a file in the cache is among `all_imports`.
proof fn lemma_import_in_all(c: CacheFile, p: Seq<char>, d: Seq<char>)
    requires
        imports_of(c, p).contains(d),
    ensures
        all_imports(c).contains(d),
{
    let fs = c.files@;
    crate::models::lemma_key_index(fs, p);
    let i = crate::models::key_index(fs, p);
    let ss = fs.map_values(|f: (String, FileEntry)| string_views(f.1.internal_imports@));
    let j = choose|j: int| 0 <= j < imports_of(c, p).len() && imports_of(c, p)[j] == d;
    assert(ss[i] == imports_of(c, p));
    lemma_flatten_contains(ss, i, j);
}

/// Whether `x` is among `v`.
fn listed(v: &Vec<String>, x: &str) -> (r: bool)
    ensures
        r == string_views(v@).contains(x@),
{
    let mut i: usize = 0;
    while i < v.len()
        invariant
            i <= v@.len(),
            forall|j: int| 0 <= j < i ==> v@[j]@ != x@,
        decreases v.len() - i,
    {
        if str_eq(v[i].as_str(), x) {
            assert(string_views(v@)[i as int] == x@);
            return true;
        }
        i += 1;
    }
    proof {
        if string_views(v@).contains(x@) {
            let j = choose|j: int| 0 <= j < string_views(v@).len() && string_views(v@)[j] == x@;
            assert(v@[j]@ == x@);
        }
    }
    false
}

/// Every import of the start file is in `seen`.
pub open spec fn seeded(c: CacheFile, start: Seq<char>, seen: Seq<Seq<char>>) -> bool {
    forall|d: Seq<char>| #[trigger] imports_of(c, start).contains(d) ==> seen.contains(d)
}

/// The set of files `seen` is closed under imports up to position `head`.
pub open spec fn bfs_state(c: CacheFile, start: Seq<char>, seen: Seq<Seq<char>>, head: int) -> bool {
    &&& 0 <= head <= seen.len()
    &&& seen.no_duplicates()
    &&& forall|x: int| 0 <= x < seen.len() ==> reaches(c, start, #[trigger] seen[x])
    &&& forall|x: int| 0 <= x < seen.len() ==> all_imports(c).contains(#[trigger] seen[x])
    &&& forall|x: int, d: Seq<char>| 0 <= x < head && #[trigger] imports_of(c, seen[x]).contains(d) ==> seen.contains(d)
}

proof fn lemma_seen_bound(c: CacheFile, seen: Seq<Seq<char>>)
    requires
        seen.no_duplicates(),
        forall|x: int| 0 <= x < seen.len() ==> all_imports(c).contains(#[trigger] seen[x]),
    ensures
        seen.len() <= all_imports(c).len(),
{
    seen.unique_seq_to_set();
    all_imports(c).lemma_cardinality_of_set();
    assert(seen.to_set().subset_of(all_imports(c).to_set()));
    vstd::set_lib::lemma_len_subset(seen.to_set(), all_imports(c).to_set());
}

/// Extend a walk by one import edge.
proof fn lemma_reach_step(c: CacheFile, a: Seq<char>, b: Seq<char>, d: Seq<char>)
    requires
        reaches(c, a, b) || a == b,
        imports_of(c, b).contains(d),
    ensures
        reaches(c, a, d),
{
    if a == b {
        let w = seq![a, d];
        assert(w[0int + 1] == d);
        assert(is_walk(c, w));
    } else {
        let w = choose|w: Seq<Seq<char>>| #[trigger] is_walk(c, w) && w.len() >= 2 && w[0] == a && w.last() == b;
        let w2 = w.push(d);
        assert forall|i: int| 0 <= i < w2.len() - 1 implies #[trigger] imports_of(c, w2[i]).contains(w2[i + 1]) by {
            if i < w.len() - 1 {
                assert(w2[i] == w[i] && w2[i + 1] == w[i + 1]);
            }
        }
        assert(is_walk(c, w2));
    }
}

proof fn lemma_walk_seen(c: CacheFile, start: Seq<char>, seen: Seq<Seq<char>>, w: Seq<Seq<char>>, i: int)
    requires
        bfs_state(c, start, seen, seen.len() as int),
        seeded(c, start, seen),
        is_walk(c, w),
        w[0] == start,
        1 <= i < w.len(),
    ensures
        seen.contains(w[i]),
    decreases i,
{
    assert(imports_of(c, w[i - 1]).contains(w[(i - 1) + 1]));
    if i > 1 {
        lemma_walk_seen(c, start, seen, w, i - 1);
        let k = choose|k: int| 0 <= k < seen.len() && seen[k] == w[i - 1];
        assert(imports_of(c, seen[k]).contains(w[i]));
    }
}

/// Once the search is closed, every reached file is in `seen`.
proof fn lemma_complete(c: CacheFile, start: Seq<char>, seen: Seq<Seq<char>>, x: Seq<char>)
    requires
        bfs_state(c, start, seen, seen.len() as int),
        seeded(c, start, seen),
        reaches(c, start, x),
    ensures
        seen.contains(x),
{
    let w = choose|w: Seq<Seq<char>>| #[trigger] is_walk(c, w) && w.len() >= 2 && w[0] == start && w.last() == x;
    lemma_walk_seen(c, start, seen, w, w.len() - 1);
}

/// Returns the transitive dependency list for `file_path`, in the same order as `cache.order`
/// (leaves/files-with-no-deps first). `file_path` itself is excluded from the result.
///
/// Only includes files present in `cache.order` (non-skipped files). Transitive deps that were
/// skipped by the scanner (e.g., already well-commented) are silently excluded — this matches
/// `cache.order` semantics and means `count` reflects only the files that need commenting.
pub fn chain_order(cache: &CacheFile, file_path: &str) -> (r: Result<Vec<String>, String>)
    ensures
        r is Err <==> cache.entry(file_path@) is None,
        r matches Err(m) ==> m@ == not_found_message(file_path@),
        r matches Ok(v) ==> string_views(v@) == reached_in_order(*cache, file_path@, string_views(cache.order@)),
{
    let entry = match cache.get(file_path) {
        Some(e) => e,
        None => {
            let mut m = owned("Path '");
            m.append(file_path);
            m.append("' not found in cache");
            return Err(m);
        },
    };
    let ghost c = *cache;
    let ghost start = file_path@;
    // Breadth-first search from file_path's imports — file_path itself is not seeded
    let mut seen: Vec<String> = Vec::new();
    let mut k: usize = 0;
    while k < entry.internal_imports.len()
        invariant
            c == *cache,
            start == file_path@,
            cache.entry(file_path@) == Some(*entry),
            k <= entry.internal_imports@.len(),
            bfs_state(c, start, string_views(seen@), 0),
            forall|j: int| 0 <= j < k ==> string_views(seen@).contains(#[trigger] entry.internal_imports@[j]@),
            forall|x: int| 0 <= x < string_views(seen@).len() ==> #[trigger] imports_of(c, start).contains(string_views(seen@)[x]),
        decreases entry.internal_imports.len() - k,
    {
        let dep = &entry.internal_imports[k];
        let ghost sv = string_views(seen@);
        proof {
            assert(imports_of(c, start)[k as int] == dep@);
        }
        if !listed(&seen, dep.as_str()) {
            seen.push(dep.clone());
            proof {
                let nv = string_views(seen@);
                assert(nv =~= sv.push(dep@));
                lemma_reach_step(c, start, start, dep@);
                lemma_import_in_all(c, start, dep@);
                assert forall|j: int| 0 <= j < k + 1 implies nv.contains(#[trigger] entry.internal_imports@[j]@) by {
                    if j < k {
                        let t = choose|t: int| 0 <= t < sv.len() && sv[t] == entry.internal_imports@[j]@;
                        assert(nv[t] == sv[t]);
                    } else {
                        assert(nv[nv.len() - 1] == dep@);
                    }
                }
            }
        }
        k += 1;
    }
    proof {
        let sv = string_views(seen@);
        assert forall|d: Seq<char>| #[trigger] imports_of(c, start).contains(d) implies sv.contains(d) by {
            let j = choose|j: int| 0 <= j < imports_of(c, start).len() && imports_of(c, start)[j] == d;
            assert(entry.internal_imports@[j]@ == d);
        }
        assert(seeded(c, start, sv));
    }
    let mut head: usize = 0;
    while head < seen.len()
        invariant
            c == *cache,
            start == file_path@,
            bfs_state(c, start, string_views(seen@), head as int),
            seeded(c, start, string_views(seen@)),
        decreases all_imports(c).len() - head,
    {
        proof {
            lemma_seen_bound(c, string_views(seen@));
        }
        let cur = seen[head].clone();
        let ghost g_head = head;
        head += 1;
        if let Some(dep_entry) = cache.get(cur.as_str()) {
            let mut k: usize = 0;
            while k < dep_entry.internal_imports.len()
                invariant
                    c == *cache,
                    start == file_path@,
                    cache.entry(cur@) == Some(*dep_entry),
                    head == g_head + 1,
                    g_head < string_views(seen@).len(),
                    string_views(seen@)[g_head as int] == cur@,
                    bfs_state(c, start, string_views(seen@), g_head as int),
                    seeded(c, start, string_views(seen@)),
                    k <= dep_entry.internal_imports@.len(),
                    forall|j: int| 0 <= j < k ==> string_views(seen@).contains(#[trigger] dep_entry.internal_imports@[j]@),
                decreases dep_entry.internal_imports.len() - k,
            {
                let dep = &dep_entry.internal_imports[k];
                let ghost sv = string_views(seen@);
                proof {
                    assert(imports_of(c, cur@)[k as int] == dep@);
                }
                if !listed(&seen, dep.as_str()) {
                    seen.push(dep.clone());
                    proof {
                        let nv = string_views(seen@);
                        assert(nv =~= sv.push(dep@));
                        assert(reaches(c, start, sv[g_head as int]));
                        lemma_reach_step(c, start, cur@, dep@);
                        lemma_import_in_all(c, cur@, dep@);
                        assert forall|j: int| 0 <= j < k + 1 implies nv.contains(#[trigger] dep_entry.internal_imports@[j]@) by {
                            if j < k {
                                let t = choose|t: int| 0 <= t < sv.len() && sv[t] == dep_entry.internal_imports@[j]@;
                                assert(nv[t] == sv[t]);
                            } else {
                                assert(nv[nv.len() - 1] == dep@);
                            }
                        }
                        assert forall|d: Seq<char>| #[trigger] imports_of(c, start).contains(d) implies nv.contains(d) by {
                            let t = choose|t: int| 0 <= t < sv.len() && sv[t] == d;
                            assert(nv[t] == sv[t]);
                        }
                        assert(seeded(c, start, nv));
                        assert forall|x: int, d: Seq<char>| 0 <= x < g_head && #[trigger] imports_of(c, nv[x]).contains(d) implies nv.contains(d) by {
                            assert(nv[x] == sv[x]);
                            let t = choose|t: int| 0 <= t < sv.len() && sv[t] == d;
                            assert(nv[t] == sv[t]);
                        }
                        assert forall|x: int| 0 <= x < nv.len() implies reaches(c, start, #[trigger] nv[x]) by {
                            if x < sv.len() {
                                assert(nv[x] == sv[x]);
                            }
                        }
                        assert forall|x: int| 0 <= x < nv.len() implies all_imports(c).contains(#[trigger] nv[x]) by {
                            if x < sv.len() {
                                assert(nv[x] == sv[x]);
                            }
                        }
                    }
                }
                k += 1;
            }
            proof {
                let sv = string_views(seen@);
                assert forall|x: int, d: Seq<char>| 0 <= x < head && #[trigger] imports_of(c, sv[x]).contains(d) implies sv.contains(d) by {
                    if x == g_head {
                        let j = choose|j: int| 0 <= j < imports_of(c, cur@).len() && imports_of(c, cur@)[j] == d;
                        assert(dep_entry.internal_imports@[j]@ == d);
                    }
                }
            }
        } else {
            proof {
                let sv = string_views(seen@);
                assert(imports_of(c, cur@) =~= Seq::<Seq<char>>::empty());
                assert forall|x: int, d: Seq<char>| 0 <= x < head && #[trigger] imports_of(c, sv[x]).contains(d) implies sv.contains(d) by {
                    if x == g_head {
                        assert(sv[x] == cur@);
                    }
                }
            }
        }
    }
    // Filter cache.order (already topo-sorted, leaves first) to the reached set
    let ghost ov = string_views(cache.order@);
    let mut chain: Vec<String> = Vec::new();
    let mut i: usize = 0;
    while i < cache.order.len()
        invariant
            c == *cache,
            start == file_path@,
            ov == string_views(cache.order@),
            bfs_state(c, start, string_views(seen@), string_views(seen@).len() as int),
            seeded(c, start, string_views(seen@)),
            i <= cache.order@.len(),
            string_views(chain@) == reached_in_order(c, start, ov.take(i as int)),
        decreases cache.order.len() - i,
    {
        let p = &cache.order[i];
        proof {
            assert(ov.take(i + 1).drop_last() =~= ov.take(i as int));
            assert(ov.take(i + 1).last() == p@);
            if reaches(c, start, p@) {
                lemma_complete(c, start, string_views(seen@), p@);
            }
        }
        let ghost before = string_views(chain@);
        if listed(&seen, p.as_str()) && !str_eq(p.as_str(), file_path) {
            chain.push(p.clone());
            assert(string_views(chain@) =~= before.push(p@));
        }
        i += 1;
    }
    assert(ov.take(cache.order@.len() as int) =~= ov);
    Ok(chain)
}

// ─── the `get` command ──────────────────────────────────────────────────────

/// What a `get` call asks for.
#[derive(Debug)]
pub enum GetMode {
    ChainCount(String),
    ChainEntry(String, usize),
    Refs(String),
    Deps(String),
    Index(usize),
    Path(String),
}

pub open spec fn chain_conflict_message() -> Seq<char> {
    "--chain cannot be combined with --path, --deps, or --refs"@
}

pub open spec fn refs_conflict_message() -> Seq<char> {
    "--refs cannot be combined with --chain, --index, --path, or --deps"@
}

pub open spec fn no_mode_message() -> Seq<char> {
    "One of --index, --path, --deps, --chain, or --refs is required"@
}

pub open spec fn many_modes_message() -> Seq<char> {
    "Only one of --index, --path, or --deps may be used at a time"@
}

pub open spec fn count_some(a: bool, b: bool, c: bool) -> nat {
    (if a { 1nat } else { 0nat }) + (if b { 1nat } else { 0nat }) + (if c { 1nat } else { 0nat })
}

/// Which query the options select, or why they are refused: `--chain`
/// (with `--index` for one entry) and `--refs` stand alone; otherwise
/// exactly one of `--index`, `--path` and `--deps` is given.
pub fn get_mode(args: &GetArgs) -> (r: Result<GetMode, String>)
    ensures
        args.chain matches Some(c) ==> if args.path is Some || args.deps is Some || args.refs is Some {
            r matches Err(m) && m@ == chain_conflict_message()
        } else {
            match args.index {
                Some(i) => r matches Ok(GetMode::ChainEntry(p, j)) && p@ == c@ && j == i,
                None => r matches Ok(GetMode::ChainCount(p)) && p@ == c@,
            }
        },
        args.chain is None && args.refs is Some ==> if args.index is Some || args.path is Some || args.deps is Some {
            r matches Err(m) && m@ == refs_conflict_message()
        } else {
            r matches Ok(GetMode::Refs(p)) && p@ == args.refs->0@
        },
        args.chain is None && args.refs is None ==> {
            let n = count_some(args.index is Some, args.path is Some, args.deps is Some);
            if n == 0 {
                r matches Err(m) && m@ == no_mode_message()
            } else if n > 1 {
                r matches Err(m) && m@ == many_modes_message()
            } else {
                match (args.index, args.path, args.deps) {
                    (Some(i), _, _) => r matches Ok(GetMode::Index(j)) && j == i,
                    (_, Some(p), _) => r matches Ok(GetMode::Path(q)) && q@ == p@,
                    (_, _, Some(d)) => r matches Ok(GetMode::Deps(q)) && q@ == d@,
                    _ => false,
                }
            }
        },
{
    if let Some(c) = &args.chain {
        if args.path.is_some() || args.deps.is_some() || args.refs.is_some() {
            return Err(owned("--chain cannot be combined with --path, --deps, or --refs"));
        }
        return match args.index {
            Some(i) => Ok(GetMode::ChainEntry(c.clone(), i)),
            None => Ok(GetMode::ChainCount(c.clone())),
        };
    }
    if let Some(p) = &args.refs {
        if args.index.is_some() || args.path.is_some() || args.deps.is_some() {
            return Err(owned("--refs cannot be combined with --chain, --index, --path, or --deps"));
        }
        return Ok(GetMode::Refs(p.clone()));
    }
    let n: u8 = (if args.index.is_some() { 1u8 } else { 0u8 }) + (if args.path.is_some() { 1u8 } else { 0u8 })
        + (if args.deps.is_some() { 1u8 } else { 0u8 });
    if n == 0 {
        return Err(owned("One of --index, --path, --deps, --chain, or --refs is required"));
    }
    if n > 1 {
        return Err(owned("Only one of --index, --path, or --deps may be used at a time"));
    }
    if let Some(d) = &args.deps {
        return Ok(GetMode::Deps(d.clone()));
    }
    match args.index {
        Some(i) => Ok(GetMode::Index(i)),
        None => match &args.path {
            Some(p) => Ok(GetMode::Path(p.clone())),
            None => Err(owned("One of --index, --path, --deps, --chain, or --refs is required")),
        },
    }
}

pub open spec fn index_out_of_range_message(i: nat, n: nat) -> Seq<char> {
    "Index "@ + decimal(i) + " out of range (cache has "@ + decimal(n) + " items in order)"@
}

/// The entry at position `index` of the order.
pub fn entry_at_index(cache: &CacheFile, index: usize) -> (r: Result<&FileEntry, String>)
    ensures
        index >= cache.order@.len() ==> (r matches Err(m) && m@ == index_out_of_range_message(index as nat, cache.order@.len())),
        index < cache.order@.len() ==> match cache.entry(cache.order@[index as int]@) {
            Some(e) => r matches Ok(x) && *x == e,
            None => r matches Err(m) && m@ == "File "@ + cache.order@[index as int]@ + " not in cache"@,
        },
{
    if index >= cache.order.len() {
        let mut m = owned("Index ");
        m.append(decimal_string(index).as_str());
        m.append(" out of range (cache has ");
        m.append(decimal_string(cache.order.len()).as_str());
        m.append(" items in order)");
        return Err(m);
    }
    let rel = &cache.order[index];
    match cache.get(rel.as_str()) {
        Some(e) => Ok(e),
        None => {
            let mut m = owned("File ");
            m.append(rel.as_str());
            m.append(" not in cache");
            Err(m)
        },
    }
}

/// The entry recorded under `path`.
pub fn entry_at_path<'a>(cache: &'a CacheFile, path: &str) -> (r: Result<&'a FileEntry, String>)
    ensures
        match cache.entry(path@) {
            Some(e) => r matches Ok(x) && *x == e,
            None => r matches Err(m) && m@ == not_found_message(path@),
        },
{
    match cache.get(path) {
        Some(e) => Ok(e),
        None => {
            let mut m = owned("Path '");
            m.append(path);
            m.append("' not found in cache");
            Err(m)
        },
    }
}

/// Every path of the order has an entry.
pub open spec fn order_known(c: CacheFile) -> bool {
    forall|i: int| 0 <= i < c.order@.len() ==> (#[trigger] c.entry(c.order@[i]@)) is Some
}

/// Whether every path of the order has an entry.
pub fn check_order_known(cache: &CacheFile) -> (r: bool)
    ensures
        r == order_known(*cache),
{
    let mut i: usize = 0;
    while i < cache.order.len()
        invariant
            i <= cache.order@.len(),
            forall|j: int| 0 <= j < i ==> (#[trigger] cache.entry(cache.order@[j]@)) is Some,
        decreases cache.order.len() - i,
    {
        if !cache.contains(cache.order[i].as_str()) {
            return false;
        }
        i += 1;
    }
    true
}

pub open spec fn chain_index_message(i: nat, n: nat, p: Seq<char>) -> Seq<char> {
    "Index "@ + decimal(i) + " out of range (chain has "@ + decimal(n) + " entries for '"@ + p + "')"@
}

/// The length of the dependency chain of `path`.
pub fn chain_count(cache: &CacheFile, path: &str) -> (r: Result<usize, String>)
    ensures
        match cache.entry(path@) {
            None => r matches Err(m) && m@ == not_found_message(path@),
            Some(_) => r matches Ok(n) && n == reached_in_order(*cache, path@, string_views(cache.order@)).len(),
        },
{
    match chain_order(cache, path) {
        Ok(v) => {
            assert(string_views(v@).len() == v@.len());
            Ok(v.len())
        },
        Err(m) => Err(m),
    }
}

/// The entry at position `index` of the dependency chain of `path`.
pub fn chain_entry<'a>(cache: &'a CacheFile, path: &str, index: usize) -> (r: Result<&'a FileEntry, String>)
    requires
        order_known(*cache),
    ensures
        ({
            let ch = reached_in_order(*cache, path@, string_views(cache.order@));
            match cache.entry(path@) {
                None => r matches Err(m) && m@ == not_found_message(path@),
                Some(_) => if index < ch.len() {
                    r matches Ok(x) && cache.entry(ch[index as int]) == Some(*x)
                } else {
                    r matches Err(m) && m@ == chain_index_message(index as nat, ch.len(), path@)
                },
            }
        }),
{
    let chain = match chain_order(cache, path) {
        Ok(v) => v,
        Err(m) => return Err(m),
    };
    proof {
        lemma_reached_in_order_sub(*cache, path@, string_views(cache.order@));
    }
    if index >= chain.len() {
        let mut m = owned("Index ");
        m.append(decimal_string(index).as_str());
        m.append(" out of range (chain has ");
        m.append(decimal_string(chain.len()).as_str());
        m.append(" entries for '");
        m.append(path);
        m.append("')");
        return Err(m);
    }
    let dep = &chain[index];
    assert(string_views(chain@)[index as int] == dep@);
    match cache.get(dep.as_str()) {
        Some(e) => Ok(e),
        None => {
            // every chain entry comes from the order, whose paths all have entries
            proof {
                let ov = string_views(cache.order@);
                assert(ov.contains(dep@));
                let k = choose|k: int| 0 <= k < ov.len() && ov[k] == dep@;
                assert(cache.entry(cache.order@[k]@) is Some);
                assert(false);
            }
            Err(owned(""))
        },
    }
}

proof fn lemma_reached_in_order_sub(c: CacheFile, start: Seq<char>, order: Seq<Seq<char>>)
    ensures
        forall|x: int| 0 <= x < reached_in_order(c, start, order).len() ==> order.contains(
            #[trigger] reached_in_order(c, start, order)[x],
        ),
    decreases order.len(),
{
    if order.len() > 0 {
        lemma_reached_in_order_sub(c, start, order.drop_last());
        let r = reached_in_order(c, start, order);
        let rest = reached_in_order(c, start, order.drop_last());
        assert forall|x: int| 0 <= x < r.len() implies order.contains(#[trigger] r[x]) by {
            if x < rest.len() {
                assert(r[x] == rest[x]);
                let k = choose|k: int| 0 <= k < order.drop_last().len() && order.drop_last()[k] == rest[x];
                assert(order[k] == r[x]);
            } else {
                assert(r[x] == order.last());
                assert(order[order.len() - 1] == r[x]);
            }
        }
    }
}

/// What the cache holds of each path of `paths` it knows, in order.
pub open spec fn known_entries(files: Seq<(String, FileEntry)>, paths: Seq<String>) -> Seq<FileEntry>
    decreases paths.len(),
{
    if paths.len() == 0 {
        Seq::empty()
    } else {
        let rest = known_entries(files, paths.drop_last());
        match lookup(files, paths.last()@) {
            Some(e) => rest.push(e),
            None => rest,
        }
    }
}

/// A path and signatures: what `get --deps` shows of one file.
#[derive(Debug)]
pub struct DepSignatures {
    pub path: String,
    pub signatures: Vec<Signature>,
}

pub open spec fn shows_entries(ds: Seq<DepSignatures>, es: Seq<FileEntry>) -> bool {
    &&& ds.len() == es.len()
    &&& forall|k: int| 0 <= k < ds.len() ==> (#[trigger] ds[k]).path == es[k].path && same_signatures(ds[k].signatures@, es[k].signatures@)
}

fn signatures_of(cache: &CacheFile, paths: &Vec<String>) -> (r: Vec<DepSignatures>)
    ensures
        shows_entries(r@, known_entries(cache.files@, paths@)),
{
    let mut out: Vec<DepSignatures> = Vec::new();
    let mut i: usize = 0;
    while i < paths.len()
        invariant
            i <= paths@.len(),
            shows_entries(out@, known_entries(cache.files@, paths@.take(i as int))),
        decreases paths.len() - i,
    {
        assert(paths@.take(i + 1).drop_last() =~= paths@.take(i as int));
        match cache.get(paths[i].as_str()) {
            Some(e) => {
                out.push(DepSignatures { path: e.path.clone(), signatures: copy_signatures(&e.signatures) });
            },
            None => {},
        }
        i += 1;
    }
    assert(paths@.take(paths@.len() as int) =~= paths@);
    out
}

/// What `get --deps` shows of `path`: every signature of each direct
/// dependency the cache knows, and for an interface, abstract class or
/// annotation the same of its first implementers.
pub fn direct_deps(cache: &CacheFile, path: &str) -> (r: Result<(Vec<DepSignatures>, Option<Vec<DepSignatures>>), String>)
    ensures
        match cache.entry(path@) {
            None => r matches Err(m) && m@ == not_found_message(path@),
            Some(e) => r matches Ok((deps, rev)) && shows_entries(deps@, known_entries(cache.files@, e.internal_imports@))
                && if is_reverse_dep_kind(e.file_kind@) {
                    rev matches Some(v) && shows_entries(v@, known_entries(
                        cache.files@,
                        e.reverse_deps@.take(min_nat(MAX_REVERSE_DEPS as nat, e.reverse_deps@.len()) as int),
                    ))
                } else {
                    rev is None
                },
        },
{
    let entry = match entry_at_path(cache, path) {
        Ok(e) => e,
        Err(m) => return Err(m),
    };
    let deps = signatures_of(cache, &entry.internal_imports);
    let k = entry.file_kind.as_str();
    if str_eq(k, "interface") || str_eq(k, "abstract_class") || str_eq(k, "annotation") {
        let n = if entry.reverse_deps.len() < MAX_REVERSE_DEPS { entry.reverse_deps.len() } else { MAX_REVERSE_DEPS };
        let mut first: Vec<String> = Vec::new();
        let mut i: usize = 0;
        while i < n
            invariant
                n <= entry.reverse_deps@.len(),
                i <= n,
                first@ == entry.reverse_deps@.take(i as int),
            decreases n - i,
        {
            first.push(entry.reverse_deps[i].clone());
            i += 1;
            assert(first@ =~= entry.reverse_deps@.take(i as int));
        }
        let rev = signatures_of(cache, &first);
        Ok((deps, Some(rev)))
    } else {
        Ok((deps, None))
    }
}
// ─── what the references analysis is given ──────────────────────────────────

/// Each internal import by its file stem (the simple name of a Java class),
/// in order; where two share a stem the later one counts.
pub open spec fn import_pairs(imports: Seq<String>) -> Seq<(Seq<char>, Seq<char>)>
    decreases imports.len(),
{
    if imports.len() == 0 {
        Seq::empty()
    } else {
        let rest = import_pairs(imports.drop_last());
        match file_stem_of(imports.last()@) {
            Some(st) => rest.push((st, imports.last()@)),
            None => rest,
        }
    }
}

/// The names of a file's signatures, all kinds.
pub open spec fn sig_names(sigs: Seq<Signature>) -> Seq<Seq<char>> {
    sigs.map_values(|s: Signature| s.name@)
}

/// Each internal import the cache knows, with the names of its signatures.
pub open spec fn dep_name_pairs(files: Seq<(String, FileEntry)>, imports: Seq<String>) -> Seq<(Seq<char>, Seq<Seq<char>>)>
    decreases imports.len(),
{
    if imports.len() == 0 {
        Seq::empty()
    } else {
        let rest = dep_name_pairs(files, imports.drop_last());
        match lookup(files, imports.last()@) {
            Some(e) => rest.push((imports.last()@, sig_names(e.signatures@))),
            None => rest,
        }
    }
}

/// What the references analysis of a file is given.
#[derive(Debug)]
pub struct RefsInput {
    /// simple name → dependency path
    pub import_map: Vec<(String, String)>,
    /// dependency path → the names of its signatures
    pub dep_sigs: Vec<(String, Vec<String>)>,
}

fn names_of(sigs: &Vec<Signature>) -> (r: Vec<String>)
    ensures
        string_views(r@) == sig_names(sigs@),
{
    let mut r: Vec<String> = Vec::new();
    let mut i: usize = 0;
    while i < sigs.len()
        invariant
            i <= sigs@.len(),
            string_views(r@) == sig_names(sigs@.take(i as int)),
        decreases sigs.len() - i,
    {
        let ghost before = string_views(r@);
        r.push(sigs[i].name.clone());
        assert(string_views(r@) =~= before.push(sigs@[i as int].name@));
        assert(sig_names(sigs@.take(i + 1)) =~= sig_names(sigs@.take(i as int)).push(sigs@[i as int].name@));
        i += 1;
    }
    assert(sigs@.take(sigs@.len() as int) =~= sigs@);
    r
}

/// What the references analysis of `path` is given: its imports by simple
/// name, and the signature names of those the cache knows.
pub fn refs_input(cache: &CacheFile, path: &str) -> (r: Result<RefsInput, String>)
    ensures
        match cache.entry(path@) {
            None => r matches Err(m) && m@ == not_found_message(path@),
            Some(e) => r matches Ok(ri) && pair_views(ri.import_map@) == import_pairs(e.internal_imports@)
                && names_views(ri.dep_sigs@) == dep_name_pairs(cache.files@, e.internal_imports@),
        },
{
    let entry = match entry_at_path(cache, path) {
        Ok(e) => e,
        Err(m) => return Err(m),
    };
    let imports = &entry.internal_imports;
    let mut import_map: Vec<(String, String)> = Vec::new();
    let mut dep_sigs: Vec<(String, Vec<String>)> = Vec::new();
    let mut i: usize = 0;
    while i < imports.len()
        invariant
            i <= imports@.len(),
            pair_views(import_map@) == import_pairs(imports@.take(i as int)),
            names_views(dep_sigs@) == dep_name_pairs(cache.files@, imports@.take(i as int)),
        decreases imports.len() - i,
    {
        let dep = &imports[i];
        assert(imports@.take(i + 1).drop_last() =~= imports@.take(i as int));
        assert(imports@.take(i + 1).last() == dep);
        let ghost b1 = pair_views(import_map@);
        let ghost b2 = names_views(dep_sigs@);
        match path_file_stem(dep.as_str()) {
            Some(st) => {
                import_map.push((st, dep.clone()));
                assert(pair_views(import_map@) =~= b1.push((import_map@.last().0@, dep@)));
            },
            None => {},
        }
        match cache.get(dep.as_str()) {
            Some(e) => {
                let names = names_of(&e.signatures);
                dep_sigs.push((dep.clone(), names));
                assert(names_views(dep_sigs@) =~= b2.push((dep@, sig_names(e.signatures@))));
            },
            None => {},
        }
        i += 1;
    }
    assert(imports@.take(imports@.len() as int) =~= imports@);
    Ok(RefsInput { import_map, dep_sigs })
}
pub open spec fn unknown_language_message(l: Seq<char>) -> Seq<char> {
    "Unknown language '"@ + l + "': "@ + ("unknown language: "@ + l)
}

/// `v` is what the Java analysis gives for the syntax tree of `source`, with the dependencies known by `imports` (simple name, path) and their
/// signature names `deps`.
pub open spec fn java_refs_of(
    v: Seq<(String, Vec<String>)>,
    source: Seq<char>,
    imports: Seq<(Seq<char>, Seq<char>)>,
    deps: Seq<(Seq<char>, Seq<Seq<char>>)>,
) -> bool {
    exists|t: SyntaxTree| parsed_from(t, Grammar::Java, source) && #[trigger] grouped(v, references(candidates(t), imports, deps))
}

fn java_refs(analyzer: &JavaRefsAnalyzer, source: &str, input: &RefsInput) -> (v: Vec<(String, Vec<String>)>)
    ensures
        java_refs_of(v@, source@, pair_views(input.import_map@), names_views(input.dep_sigs@)),
{
    let v = analyzer.extract_refs(source, &input.import_map, &input.dep_sigs);
    proof {
        let t = choose|t: SyntaxTree| parsed_from(t, Grammar::Java, source@) && #[trigger] refs_result(v@, t, input.import_map@, input.dep_sigs@);
        assert(grouped(v@, references(candidates(t), pair_views(input.import_map@), names_views(input.dep_sigs@))));
    }
    v
}

/// The symbols that the source of `file_path` (its text `source`) references
/// in each of its internal dependencies: dependency path → names, sorted.
/// Only Java is analysed: for another language, or a file without internal
/// dependencies (known by a file stem), the list is empty.
pub fn compute_refs(cache: &CacheFile, file_path: &str, source: &str) -> (r: Result<Vec<(String, Vec<String>)>, String>)
    ensures
        match cache.entry(file_path@) {
            None => r matches Err(m) && m@ == not_found_message(file_path@),
            Some(e) => if import_pairs(e.internal_imports@).len() == 0 {
                r matches Ok(v) && v@.len() == 0
            } else {
                match Language::spec_from_name(e.language@) {
                    None => r matches Err(m) && m@ == unknown_language_message(e.language@),
                    Some(l) => if l == Language::Java {
                        r matches Ok(v) && java_refs_of(v@, source@, import_pairs(e.internal_imports@),
                            dep_name_pairs(cache.files@, e.internal_imports@))
                    } else {
                        r matches Ok(v) && v@.len() == 0
                    },
                }
            },
        },
{
    let input = match refs_input(cache, file_path) {
        Ok(i) => i,
        Err(m) => return Err(m),
    };
    let entry = match cache.get(file_path) {
        Some(e) => e,
        None => return Err(owned("")),
    };
    if input.import_map.len() == 0 {
        return Ok(Vec::new());
    }
    let lang = match Language::from_name(entry.language.as_str()) {
        Ok(l) => l,
        Err(e) => {
            let mut m = owned("Unknown language '");
            m.append(entry.language.as_str());
            m.append("': ");
            m.append(e.as_str());
            return Err(m);
        },
    };
    match crate::refs::get_refs_analyzer(&lang) {
        Some(analyzer) => Ok(java_refs(&analyzer, source, &input)),
        None => Ok(Vec::new()),
    }
}

} // verus!
