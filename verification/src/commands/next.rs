//! The `next` loop: which file to hand out next, and the signatures of the
//! files around it that go with it.

use vstd::prelude::*;
use crate::models::{
    CacheFile, FileEntry, Param, Signature, params_view, copy_strings, copy_params,
    copy_opt_string, copy_signatures, same_signatures, lookup,
};
use crate::text::{str_eq, owned, opt_view};
use crate::error::CodeskelError;
use crate::text::string_views;
use crate::commands::get::{chain_order, reached_in_order};

verus! {

broadcast use vstd::string::group_string_axioms;

/// A signature as shown for a dependency: without `has_docstring` and
/// `line`, which only matter for the file being documented.
#[derive(Debug)]
pub struct DepSignature {
    pub kind: String,
    pub name: String,
    pub modifiers: Vec<String>,
    pub params: Option<Vec<Param>>,
    pub return_type: Option<String>,
    pub throws: Vec<String>,
    pub extends: Option<String>,
    pub implements: Vec<String>,
    pub annotations: Vec<String>,
    pub docstring_text: Option<String>,
    pub existing_word_count: usize,
}

impl DepSignature {
    /// `self` shows `s`.
    pub open spec fn of(self, s: Signature) -> bool {
        &&& self.kind == s.kind
        &&& self.name == s.name
        &&& self.modifiers@ == s.modifiers@
        &&& params_view(self.params) == params_view(s.params)
        &&& self.return_type == s.return_type
        &&& self.throws@ == s.throws@
        &&& self.extends == s.extends
        &&& self.implements@ == s.implements@
        &&& self.annotations@ == s.annotations@
        &&& self.docstring_text == s.docstring_text
        &&& self.existing_word_count == s.existing_word_count
    }

    pub fn from_signature(sig: &Signature) -> (r: DepSignature)
        ensures
            r.of(*sig),
    {
        DepSignature {
            kind: sig.kind.clone(),
            name: sig.name.clone(),
            modifiers: copy_strings(&sig.modifiers),
            params: copy_params(&sig.params),
            return_type: copy_opt_string(&sig.return_type),
            throws: copy_strings(&sig.throws),
            extends: copy_opt_string(&sig.extends),
            implements: copy_strings(&sig.implements),
            annotations: copy_strings(&sig.annotations),
            docstring_text: copy_opt_string(&sig.docstring_text),
            existing_word_count: sig.existing_word_count,
        }
    }
}

/// One dependency handed out by `next`: its path and the signatures shown.
#[derive(Debug)]
pub struct DepEntry {
    pub path: String,
    /// How many `field` signatures were left out for the limit.
    pub fields_omitted: usize,
    pub signatures: Vec<DepSignature>,
}

/// Kinds that are always shown, whatever the file references.
pub open spec fn is_top_level_kind(k: Seq<char>) -> bool {
    ||| k == "class"@
    ||| k == "interface"@
    ||| k == "enum"@
    ||| k == "struct"@
    ||| k == "trait"@
    ||| k == "type"@
    ||| k == "type_alias"@
}

/// File kinds whose implementers are shown alongside them.
pub open spec fn is_reverse_dep_kind(k: Seq<char>) -> bool {
    ||| k == "interface"@
    ||| k == "abstract_class"@
    ||| k == "annotation"@
}

/// How many implementers are shown at most.
pub const MAX_REVERSE_DEPS: usize = 5;

pub open spec fn names_contain(names: Seq<String>, n: Seq<char>) -> bool {
    exists|i: int| 0 <= i < names.len() && names[i]@ == n
}

/// Whether `sig` is shown for a dependency of which the file references
/// `refd` (no list, or an empty one, shows everything).
pub open spec fn shown(sig: Signature, refd: Option<Seq<String>>) -> bool {
    ||| is_top_level_kind(sig.kind@)
    ||| match refd {
        Some(ns) => ns.len() == 0 || names_contain(ns, sig.name@),
        None => true,
    }
}

pub open spec fn is_field(sig: Signature) -> bool {
    sig.kind@ == "field"@
}

/// The shown signatures that are fields (`fields`) or are not (`!fields`),
/// in their order.
pub open spec fn shown_part(sigs: Seq<Signature>, refd: Option<Seq<String>>, fields: bool) -> Seq<Signature>
    decreases sigs.len(),
{
    if sigs.len() == 0 {
        Seq::empty()
    } else {
        let rest = shown_part(sigs.drop_last(), refd, fields);
        if shown(sigs.last(), refd) && is_field(sigs.last()) == fields {
            rest.push(sigs.last())
        } else {
            rest
        }
    }
}

pub open spec fn min_nat(a: nat, b: nat) -> nat {
    if a <= b { a } else { b }
}

/// The signatures shown: the non-fields, then at most `max` fields.
pub open spec fn selected(sigs: Seq<Signature>, refd: Option<Seq<String>>, max: nat) -> Seq<Signature> {
    let f = shown_part(sigs, refd, true);
    shown_part(sigs, refd, false) + f.take(min_nat(max, f.len()) as int)
}

/// The number of shown fields beyond `max`.
pub open spec fn omitted(sigs: Seq<Signature>, refd: Option<Seq<String>>, max: nat) -> nat {
    let n = shown_part(sigs, refd, true).len();
    if n > max { (n - max) as nat } else { 0 }
}

/// The names referenced in the dependency `key`, first match.
pub open spec fn refs_for(refs: Seq<(String, Vec<String>)>, key: Seq<char>) -> Option<Seq<String>>
    decreases refs.len(),
{
    if refs.len() == 0 {
        None
    } else if refs[0].0@ == key {
        Some(refs[0].1@)
    } else {
        refs_for(refs.drop_first(), key)
    }
}

/// What is shown of each listed file found in the cache: its path, the
/// number of fields left out and the signatures; files with nothing to show
/// are left out.
pub open spec fn deps_spec(
    files: Seq<(String, FileEntry)>,
    paths: Seq<String>,
    refs: Seq<(String, Vec<String>)>,
    max: nat,
) -> Seq<(Seq<char>, nat, Seq<Signature>)>
    decreases paths.len(),
{
    if paths.len() == 0 {
        Seq::empty()
    } else {
        let rest = deps_spec(files, paths.drop_last(), refs, max);
        let key = paths.last()@;
        match lookup(files, key) {
            Some(e) => {
                let refd = refs_for(refs, key);
                let sel = selected(e.signatures@, refd, max);
                if sel.len() > 0 {
                    rest.push((e.path@, omitted(e.signatures@, refd, max), sel))
                } else {
                    rest
                }
            },
            None => rest,
        }
    }
}

pub open spec fn dep_sigs_match(ds: Seq<DepSignature>, ss: Seq<Signature>) -> bool {
    &&& ds.len() == ss.len()
    &&& forall|i: int| 0 <= i < ds.len() ==> (#[trigger] ds[i]).of(ss[i])
}

pub open spec fn entry_matches(d: DepEntry, m: (Seq<char>, nat, Seq<Signature>)) -> bool {
    &&& d.path@ == m.0
    &&& d.fields_omitted == m.1
    &&& dep_sigs_match(d.signatures@, m.2)
}

/// What is shown of the implementers of `e`: for an interface, abstract
/// class or annotation, its first (at most `MAX_REVERSE_DEPS`) reverse
/// dependencies found in the cache, each with its signatures (at most `max`
/// fields); for any other kind, nothing.
pub open spec fn shown_implementers(
    files: Seq<(String, FileEntry)>,
    e: FileEntry,
    max: nat,
) -> Seq<(Seq<char>, nat, Seq<Signature>)> {
    if is_reverse_dep_kind(e.file_kind@) {
        deps_spec(
            files,
            e.reverse_deps@.take(min_nat(MAX_REVERSE_DEPS as nat, e.reverse_deps@.len()) as int),
            Seq::empty(),
            max,
        )
    } else {
        Seq::empty()
    }
}

pub open spec fn entries_match(ds: Seq<DepEntry>, ms: Seq<(Seq<char>, nat, Seq<Signature>)>) -> bool {
    &&& ds.len() == ms.len()
    &&& forall|i: int| 0 <= i < ds.len() ==> entry_matches(#[trigger] ds[i], ms[i])
}

pub open spec fn opt_names(o: Option<&Vec<String>>) -> Option<Seq<String>> {
    match o {
        Some(v) => Some(v@),
        None => None,
    }
}

fn contains_name(names: &Vec<String>, n: &str) -> (r: bool)
    ensures
        r == names_contain(names@, n@),
{
    let mut i: usize = 0;
    while i < names.len()
        invariant
            i <= names@.len(),
            forall|j: int| 0 <= j < i ==> names@[j]@ != n@,
        decreases names.len() - i,
    {
        if str_eq(names[i].as_str(), n) {
            return true;
        }
        i += 1;
    }
    false
}

fn is_top_level(k: &str) -> (r: bool)
    ensures
        r == is_top_level_kind(k@),
{
    str_eq(k, "class") || str_eq(k, "interface") || str_eq(k, "enum") || str_eq(k, "struct")
        || str_eq(k, "trait") || str_eq(k, "type") || str_eq(k, "type_alias")
}

fn is_shown(sig: &Signature, refd: Option<&Vec<String>>) -> (r: bool)
    ensures
        r == shown(*sig, opt_names(refd)),
{
    if is_top_level(sig.kind.as_str()) {
        return true;
    }
    match refd {
        Some(names) => names.len() == 0 || contains_name(names, sig.name.as_str()),
        None => true,
    }
}

/// The signatures of `sigs` shown for a dependency of which the file
/// references `refd`, with at most `max` fields, and how many fields were
/// left out.
pub fn select_signatures(sigs: &Vec<Signature>, refd: Option<&Vec<String>>, max: usize) -> (r: (
    Vec<DepSignature>,
    usize,
))
    ensures
        dep_sigs_match(r.0@, selected(sigs@, opt_names(refd), max as nat)),
        r.1 == omitted(sigs@, opt_names(refd), max as nat),
{
    let ghost rd = opt_names(refd);
    let mut non_fields: Vec<DepSignature> = Vec::new();
    // positions in `sigs` of the shown fields
    let mut fields: Vec<usize> = Vec::new();
    let mut i: usize = 0;
    while i < sigs.len()
        invariant
            i <= sigs@.len(),
            rd == opt_names(refd),
            dep_sigs_match(non_fields@, shown_part(sigs@.take(i as int), rd, false)),
            fields@.len() == shown_part(sigs@.take(i as int), rd, true).len(),
            forall|k: int| 0 <= k < fields@.len() ==> #[trigger] fields@[k] < sigs@.len()
                && sigs@[fields@[k] as int] == shown_part(sigs@.take(i as int), rd, true)[k],
        decreases sigs.len() - i,
    {
        let sig = &sigs[i];
        assert(sigs@.take(i + 1).drop_last() =~= sigs@.take(i as int));
        assert(sigs@.take(i + 1).last() == sigs@[i as int]);
        if is_shown(sig, refd) {
            if str_eq(sig.kind.as_str(), "field") {
                fields.push(i);
            } else {
                non_fields.push(DepSignature::from_signature(sig));
            }
        }
        i += 1;
    }
    assert(sigs@.take(sigs@.len() as int) =~= sigs@);
    let total = fields.len();
    let keep = if max < total { max } else { total };
    let ghost nf = shown_part(sigs@, rd, false);
    let ghost f = shown_part(sigs@, rd, true);
    let mut out = non_fields;
    let mut j: usize = 0;
    while j < keep
        invariant
            keep <= fields@.len(),
            j <= keep,
            fields@.len() == f.len(),
            forall|k: int| 0 <= k < fields@.len() ==> #[trigger] fields@[k] < sigs@.len()
                && sigs@[fields@[k] as int] == f[k],
            dep_sigs_match(out@, nf + f.take(j as int)),
        decreases keep - j,
    {
        let d = DepSignature::from_signature(&sigs[fields[j]]);
        assert((nf + f.take(j + 1)) =~= (nf + f.take(j as int)).push(f[j as int]));
        out.push(d);
        j += 1;
    }
    (out, total - keep)
}


fn find_refs<'a>(refs: &'a Vec<(String, Vec<String>)>, key: &str) -> (r: Option<&'a Vec<String>>)
    ensures
        opt_names(r) == refs_for(refs@, key@),
{
    assert(refs@.skip(0) =~= refs@);
    let mut i: usize = 0;
    while i < refs.len()
        invariant
            i <= refs@.len(),
            refs_for(refs@, key@) == refs_for(refs@.skip(i as int), key@),
        decreases refs.len() - i,
    {
        assert(refs@.skip(i as int).drop_first() =~= refs@.skip(i + 1));
        if str_eq(refs[i].0.as_str(), key) {
            return Some(&refs[i].1);
        }
        i += 1;
    }
    None
}

/// What is shown of each file of `paths` found in the cache, in that order;
/// `refs` lists, per dependency, the names the file references.
pub fn dep_entries(
    cache: &CacheFile,
    paths: &Vec<String>,
    refs: &Vec<(String, Vec<String>)>,
    max_fields: usize,
) -> (r: Vec<DepEntry>)
    ensures
        entries_match(r@, deps_spec(cache.files@, paths@, refs@, max_fields as nat)),
{
    let mut out: Vec<DepEntry> = Vec::new();
    let mut i: usize = 0;
    while i < paths.len()
        invariant
            i <= paths@.len(),
            entries_match(out@, deps_spec(cache.files@, paths@.take(i as int), refs@, max_fields as nat)),
        decreases paths.len() - i,
    {
        let dep = &paths[i];
        assert(paths@.take(i + 1).drop_last() =~= paths@.take(i as int));
        assert(paths@.take(i + 1).last() == paths@[i as int]);
        match cache.get(dep.as_str()) {
            Some(dep_entry) => {
                let referenced = find_refs(refs, dep.as_str());
                let (signatures, fields_omitted) = select_signatures(&dep_entry.signatures, referenced, max_fields);
                if signatures.len() > 0 {
                    out.push(DepEntry { path: dep_entry.path.clone(), fields_omitted, signatures });
                }
            },
            None => {},
        }
        i += 1;
    }
    assert(paths@.take(paths@.len() as int) =~= paths@);
    out
}

/// The dependencies shown with `file_entry`, and, where it is an interface,
/// abstract class or annotation, the first implementers (with every
/// signature). `refs` lists, per dependency, the names the file references
/// (empty when the analysis failed or does not apply).
pub fn build_deps_with_reverse(
    cache: &CacheFile,
    file_entry: &FileEntry,
    refs: &Vec<(String, Vec<String>)>,
    max_fields: usize,
) -> (r: (Vec<DepEntry>, Vec<DepEntry>))
    ensures
        entries_match(r.0@, deps_spec(cache.files@, file_entry.internal_imports@, refs@, max_fields as nat)),
        is_reverse_dep_kind(file_entry.file_kind@) ==> entries_match(
            r.1@,
            deps_spec(
                cache.files@,
                file_entry.reverse_deps@.take(min_nat(MAX_REVERSE_DEPS as nat, file_entry.reverse_deps@.len()) as int),
                Seq::empty(),
                max_fields as nat,
            ),
        ),
        !is_reverse_dep_kind(file_entry.file_kind@) ==> r.1@.len() == 0,
        entries_match(r.1@, shown_implementers(cache.files@, *file_entry, max_fields as nat)),
{
    let deps = dep_entries(cache, &file_entry.internal_imports, refs, max_fields);
    let k = file_entry.file_kind.as_str();
    if str_eq(k, "interface") || str_eq(k, "abstract_class") || str_eq(k, "annotation") {
        let n = if file_entry.reverse_deps.len() < MAX_REVERSE_DEPS {
            file_entry.reverse_deps.len()
        } else {
            MAX_REVERSE_DEPS
        };
        let mut first: Vec<String> = Vec::new();
        let mut i: usize = 0;
        while i < n
            invariant
                n <= file_entry.reverse_deps@.len(),
                i <= n,
                first@ == file_entry.reverse_deps@.take(i as int),
            decreases n - i,
        {
            first.push(file_entry.reverse_deps[i].clone());
            i += 1;
            assert(first@ =~= file_entry.reverse_deps@.take(i as int));
        }
        let no_refs: Vec<(String, Vec<String>)> = Vec::new();
        assert(no_refs@ =~= Seq::<(String, Vec<String>)>::empty());
        let reverse = dep_entries(cache, &first, &no_refs, max_fields);
        (deps, reverse)
    } else {
        (deps, Vec::new())
    }
}


/// The file handed out by `next`: what the one documenting it needs.
#[derive(Debug)]
pub struct NextFileEntry {
    pub path: String,
    pub language: String,
    pub package: Option<String>,
    /// The comment coverage as the bits of its IEEE-754 double.
    pub comment_coverage_bits: u64,
    pub cycle_warning: bool,
    pub signatures: Vec<Signature>,
}

impl NextFileEntry {
    /// `self` shows the cache entry `e`.
    pub open spec fn shows(self, e: FileEntry) -> bool {
        &&& self.path == e.path
        &&& self.language == e.language
        &&& self.package == e.package
        &&& self.comment_coverage_bits == e.comment_coverage_bits
        &&& self.cycle_warning == e.cycle_warning
        &&& same_signatures(self.signatures@, e.signatures@)
    }

    pub fn from_entry(e: &FileEntry) -> (r: NextFileEntry)
        ensures
            r.shows(*e),
    {
        NextFileEntry {
            path: e.path.clone(),
            language: e.language.clone(),
            package: copy_opt_string(&e.package),
            comment_coverage_bits: e.comment_coverage_bits,
            cycle_warning: e.cycle_warning,
            signatures: copy_signatures(&e.signatures),
        }
    }
}

/// What one `next` call answers.
#[derive(Debug)]
pub struct NextOutput {
    pub done: bool,
    /// "project" or "targeted".
    pub mode: String,
    pub index: Option<usize>,
    pub remaining: usize,
    pub file: Option<NextFileEntry>,
    pub deps: Vec<DepEntry>,
    pub reverse_deps: Vec<DepEntry>,
}

/// Where the `next` loop stands between calls.
#[derive(Debug)]
pub struct Session {
    /// Position of the file handed out last; -1 when not started or done.
    pub cursor: i64,
    pub current_file: Option<String>,
    /// The file whose chain is walked, in targeted mode.
    pub target: Option<String>,
    /// The chain walked in targeted mode: its dependencies, then the target.
    pub chain: Option<Vec<String>>,
}

impl Default for Session {
    fn default() -> (r: Self)
        ensures
            r.cursor == -1,
            r.current_file is None,
            r.target is None,
            r.chain is None,
    {
        Session { cursor: -1, current_file: None, target: None, chain: None }
    }
}

/// A `next` call that cannot go on.
#[derive(Debug)]
pub enum NextError {
    Coded(CodeskelError),
    Message(String),
}

pub open spec fn mode_name(targeted: bool) -> Seq<char> {
    if targeted { "targeted"@ } else { "project"@ }
}

/// The answer once every file has been handed out.
pub fn done_output(targeted: bool) -> (r: NextOutput)
    ensures
        r.done,
        r.mode@ == mode_name(targeted),
        r.index is None,
        r.remaining == 0,
        r.file is None,
        r.deps@.len() == 0,
        r.reverse_deps@.len() == 0,
{
    NextOutput {
        done: true,
        mode: if targeted { owned("targeted") } else { owned("project") },
        index: None,
        remaining: 0,
        file: None,
        deps: Vec::new(),
        reverse_deps: Vec::new(),
    }
}

pub open spec fn missing_entry_message(path: Seq<char>, targeted: bool) -> Seq<char> {
    "File "@ + path + (if targeted { " in chain"@ } else { " in order"@ }) + " but missing from files map"@
}

/// The answer that hands out `path`, found at `index` of a list of `len`
/// files; `refs` lists, per dependency, the names it references.
pub fn visit_output(
    cache: &CacheFile,
    targeted: bool,
    index: usize,
    len: usize,
    path: &str,
    refs: &Vec<(String, Vec<String>)>,
    max_fields: usize,
) -> (r: Result<NextOutput, String>)
    requires
        index < len,
    ensures
        r is Err <==> cache.entry(path@) is None,
        r matches Err(m) ==> m@ == missing_entry_message(path@, targeted),
        r matches Ok(o) ==> {
            let e = cache.entry(path@)->0;
            &&& !o.done
            &&& o.mode@ == mode_name(targeted)
            &&& o.index == Some(index)
            &&& o.remaining == len - index - 1
            &&& o.file matches Some(f) && f.shows(e)
            &&& entries_match(o.deps@, deps_spec(cache.files@, e.internal_imports@, refs@, max_fields as nat))
            &&& is_reverse_dep_kind(e.file_kind@) ==> entries_match(
                o.reverse_deps@,
                deps_spec(
                    cache.files@,
                    e.reverse_deps@.take(min_nat(MAX_REVERSE_DEPS as nat, e.reverse_deps@.len()) as int),
                    Seq::empty(),
                    max_fields as nat,
                ),
            )
            &&& !is_reverse_dep_kind(e.file_kind@) ==> o.reverse_deps@.len() == 0
            &&& entries_match(o.reverse_deps@, shown_implementers(cache.files@, e, max_fields as nat))
        },
{
    let entry = match cache.get(path) {
        Some(e) => e,
        None => {
            let mut m = owned("File ");
            m.append(path);
            if targeted {
                m.append(" in chain");
            } else {
                m.append(" in order");
            }
            m.append(" but missing from files map");
            return Err(m);
        },
    };
    let (deps, reverse_deps) = build_deps_with_reverse(cache, entry, refs, max_fields);
    Ok(NextOutput {
        done: false,
        mode: if targeted { owned("targeted") } else { owned("project") },
        index: Some(index),
        remaining: len - index - 1,
        file: Some(NextFileEntry::from_entry(entry)),
        deps,
        reverse_deps,
    })
}

// ─── project mode ───────────────────────────────────────────────────────────

/// What the project loop does before it moves on.
#[derive(Debug)]
pub struct ProjectStart {
    /// The session was in targeted mode: project mode starts over.
    pub was_targeted: bool,
    /// The file handed out last, to be rescanned.
    pub rescan: Option<String>,
    /// The session has a position but no file to rescan.
    pub no_current_file: bool,
    /// The file to rescan is not the one at the recorded position of `order`.
    pub mismatch: bool,
}

pub open spec fn order_at(order: Seq<String>, cursor: i64) -> Option<Seq<char>> {
    if 0 <= cursor < order.len() { Some(order[cursor as int]@) } else { None }
}

pub fn project_start(order: &Vec<String>, session: &Session) -> (r: ProjectStart)
    ensures
        r.was_targeted == session.target is Some,
        r.rescan == (if session.cursor >= 0 && session.target is None { session.current_file } else { None }),
        r.no_current_file == (session.cursor >= 0 && session.target is None && session.current_file is None),
        r.mismatch == (r.rescan is Some && order_at(order@, session.cursor) != opt_view(r.rescan)),
{
    let was_targeted = session.target.is_some();
    if session.cursor >= 0 && !was_targeted {
        match &session.current_file {
            Some(prev) => {
                let expected_matches = if (session.cursor as u64) < (order.len() as u64) {
                    str_eq(order[session.cursor as usize].as_str(), prev.as_str())
                } else {
                    false
                };
                ProjectStart {
                    was_targeted,
                    rescan: Some(prev.clone()),
                    no_current_file: false,
                    mismatch: !expected_matches,
                }
            },
            None => ProjectStart { was_targeted, rescan: None, no_current_file: true, mismatch: false },
        }
    } else {
        ProjectStart { was_targeted, rescan: None, no_current_file: false, mismatch: false }
    }
}

/// The position project mode hands out next: the first after a targeted
/// session, else the one after the recorded position; `None` when done.
pub open spec fn project_next(session: Session, len: nat) -> Option<nat> {
    let n: int = if session.target is Some { 0 } else { session.cursor + 1 };
    if 0 <= n < len { Some(n as nat) } else { None }
}

pub fn project_next_index(session: &Session, len: usize) -> (r: Option<usize>)
    ensures
        match r {
            Some(i) => project_next(*session, len as nat) == Some(i as nat),
            None => project_next(*session, len as nat) is None,
        },
{
    if session.target.is_some() {
        if 0 < len { Some(0) } else { None }
    } else if session.cursor < -1 {
        None
    } else {
        // here -1 <= cursor, so cursor + 1 fits in a u64
        let n: u64 = (session.cursor as i128 + 1) as u64;
        if n < len as u64 { Some(n as usize) } else { None }
    }
}

// ─── targeted mode ──────────────────────────────────────────────────────────

/// How a targeted call starts.
#[derive(Debug)]
pub enum TargetedStart {
    /// Start on the chain of the target: hand out its first file.
    /// `restart` says a different session was under way.
    Bootstrap { chain: Vec<String>, restart: bool },
    /// Go on along the recorded chain from `cursor`, after rescanning
    /// `rescan`; `stale` names a recorded file no longer in the cache.
    Continue { chain: Vec<String>, cursor: i64, rescan: Option<String>, stale: Option<String> },
}

/// The chain of a target: the files of `order` it reaches, then itself.
pub open spec fn target_chain(c: CacheFile, target: Seq<char>) -> Seq<Seq<char>> {
    reached_in_order(c, target, string_views(c.order@)).push(target)
}

pub open spec fn same_target(session: Session, target: Seq<char>) -> bool {
    opt_view(session.target) == Some(target)
}

pub fn targeted_start(cache: &CacheFile, target: &str, session: &Session) -> (r: Result<TargetedStart, NextError>)
    ensures
        cache.entry(target@) is None ==> (r matches Err(NextError::Coded(CodeskelError::TargetNotInTree(t))) && t@ == target@),
        cache.entry(target@) is Some && (!same_target(*session, target@) || session.cursor < 0) ==> (r matches Ok(
            TargetedStart::Bootstrap { chain, restart },
        ) && string_views(chain@) == target_chain(*cache, target@) && restart == (!same_target(*session, target@) && session.cursor >= 0)),
        cache.entry(target@) is Some && same_target(*session, target@) && session.cursor >= 0 ==> match session.chain {
            None => (r matches Err(NextError::Message(m)) && m@ == "session.chain missing in targeted mode"@),
            Some(sc) => (r matches Ok(TargetedStart::Continue { chain, cursor, rescan, stale }) && chain@ == sc@
                && cursor == session.cursor
                && rescan == (match session.current_file {
                    Some(p) => if cache.entry(p@) is Some { Some(p) } else { None },
                    None => None,
                })
                && stale == (match session.current_file {
                    Some(p) => if cache.entry(p@) is Some { None } else { Some(p) },
                    None => None,
                })),
        },
{
    if !cache.contains(target) {
        return Err(NextError::Coded(CodeskelError::TargetNotInTree(owned(target))));
    }
    let same = match &session.target {
        Some(t) => str_eq(t.as_str(), target),
        None => false,
    };
    if !same || session.cursor < 0 {
        let mut chain = match chain_order(cache, target) {
            Ok(v) => v,
            Err(m) => return Err(NextError::Message(m)),
        };
        let ghost before = chain@;
        chain.push(owned(target));
        proof {
            assert(string_views(chain@) =~= string_views(before).push(target@));
        }
        return Ok(TargetedStart::Bootstrap { chain, restart: !same && session.cursor >= 0 });
    }
    let chain = match &session.chain {
        Some(c) => copy_strings(c),
        None => return Err(NextError::Message(owned("session.chain missing in targeted mode"))),
    };
    let (rescan, stale) = match &session.current_file {
        Some(p) => if cache.contains(p.as_str()) {
            (Some(p.clone()), None)
        } else {
            (None, Some(p.clone()))
        },
        None => (None, None),
    };
    Ok(TargetedStart::Continue { chain, cursor: session.cursor, rescan, stale })
}

/// The first position after `cursor` whose file is still in the cache.
pub fn targeted_next_index(cache: &CacheFile, chain: &Vec<String>, cursor: i64) -> (r: Option<usize>)
    requires
        cursor >= 0,
    ensures
        match r {
            Some(i) => cursor + 1 <= i < chain@.len() && cache.entry(chain@[i as int]@) is Some
                && forall|j: int| cursor + 1 <= j < i ==> cache.entry(#[trigger] chain@[j]@) is None,
            None => forall|j: int| cursor + 1 <= j < chain@.len() ==> cache.entry(#[trigger] chain@[j]@) is None,
        },
{
    if (cursor as u64) >= (chain.len() as u64) {
        return None;
    }
    let mut i: usize = (cursor as usize) + 1;
    while i < chain.len()
        invariant
            cursor + 1 <= i,
            forall|j: int| cursor + 1 <= j < i ==> cache.entry(#[trigger] chain@[j]@) is None,
        decreases chain.len() - i,
    {
        if cache.contains(chain[i].as_str()) {
            return Some(i);
        }
        i += 1;
    }
    None
}

} // verus!
