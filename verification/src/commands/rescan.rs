//! Updating the cache after files were edited: a file's new signatures, and
//! the statistics over all files.

use vstd::prelude::*;
use crate::models::{CacheFile, FileEntry, Signature, Stats, lookup, find_file, is_first_key, same_signatures};
use crate::scanner::{apply_min_docstring_words, measured, documented, is_generated, is_generated_content, consistent,
    open_count, unskipped, used_positions, lemma_used_positions, lemma_positions_le_open};
use crate::parsers::{ParseResult, get_parser, parsed_as};
use crate::lang::{detect_language, language_of_path};
use crate::text::{str_eq, owned, opt_view};
use crate::text::string_views;
use crate::paths::{path_is_absolute, path_strip_prefix, is_absolute_path, stripped};

verus! {

broadcast use vstd::string::group_string_axioms;

/// How many entries carry the skip reason `reason`.
pub open spec fn count_reason(files: Seq<(String, FileEntry)>, reason: Seq<char>) -> nat
    decreases files.len(),
{
    if files.len() == 0 {
        0
    } else {
        count_reason(files.drop_last(), reason) + if opt_view(files.last().1.skip_reason) == Some(reason) {
            1nat
        } else {
            0nat
        }
    }
}

/// How many paths of `order` have an entry that is not skipped.
pub open spec fn count_to_comment(files: Seq<(String, FileEntry)>, order: Seq<String>) -> nat
    decreases order.len(),
{
    if order.len() == 0 {
        0
    } else {
        count_to_comment(files, order.drop_last()) + match lookup(files, order.last()@) {
            Some(e) => if e.skip { 0nat } else { 1nat },
            None => 0nat,
        }
    }
}

/// The statistics of a cache: its files, those skipped as covered or as
/// generated, and the files of `order` still to comment.
pub open spec fn stats_of(c: CacheFile) -> Stats {
    Stats {
        total_files: c.files@.len() as usize,
        skipped_covered: count_reason(c.files@, "sufficient_coverage"@) as usize,
        skipped_generated: count_reason(c.files@, "generated"@) as usize,
        to_comment: count_to_comment(c.files@, c.order@) as usize,
    }
}

proof fn lemma_count_reason_le(files: Seq<(String, FileEntry)>, reason: Seq<char>)
    ensures
        count_reason(files, reason) <= files.len(),
    decreases files.len(),
{
    if files.len() > 0 {
        lemma_count_reason_le(files.drop_last(), reason);
    }
}

proof fn lemma_count_to_comment_le(files: Seq<(String, FileEntry)>, order: Seq<String>)
    ensures
        count_to_comment(files, order) <= order.len(),
    decreases order.len(),
{
    if order.len() > 0 {
        lemma_count_to_comment_le(files, order.drop_last());
    }
}

fn has_reason(e: &FileEntry, reason: &str) -> (r: bool)
    ensures
        r == (opt_view(e.skip_reason) == Some(reason@)),
{
    match &e.skip_reason {
        Some(s) => str_eq(s.as_str(), reason),
        None => false,
    }
}

fn count_with_reason(files: &Vec<(String, FileEntry)>, reason: &str) -> (r: usize)
    ensures
        r == count_reason(files@, reason@),
{
    let mut n: usize = 0;
    let mut i: usize = 0;
    while i < files.len()
        invariant
            i <= files@.len(),
            n == count_reason(files@.take(i as int), reason@),
        decreases files.len() - i,
    {
        proof {
            assert(files@.take(i + 1).drop_last() =~= files@.take(i as int));
            lemma_count_reason_le(files@.take(i as int), reason@);
        }
        if has_reason(&files[i].1, reason) {
            n = n + 1;
        }
        i += 1;
    }
    assert(files@.take(files@.len() as int) =~= files@);
    n
}

/// Recomputes `cache.stats` from its files and order; nothing else changes.
pub fn recompute_stats(cache: &mut CacheFile)
    ensures
        final(cache).stats == stats_of(*old(cache)),
        consistent(*old(cache)) ==> final(cache).stats.to_comment + final(cache).stats.skipped_covered
            + final(cache).stats.skipped_generated <= final(cache).stats.total_files,
        final(cache).files == old(cache).files,
        final(cache).order == old(cache).order,
        final(cache).version == old(cache).version,
        final(cache).scanned_at == old(cache).scanned_at,
        final(cache).project_root == old(cache).project_root,
        final(cache).detected_languages == old(cache).detected_languages,
        final(cache).min_docstring_words == old(cache).min_docstring_words,
{
    let total = cache.files.len();
    let skipped_covered = count_with_reason(&cache.files, "sufficient_coverage");
    let skipped_generated = count_with_reason(&cache.files, "generated");
    let mut to_comment: usize = 0;
    let mut i: usize = 0;
    while i < cache.order.len()
        invariant
            i <= cache.order@.len(),
            to_comment == count_to_comment(cache.files@, cache.order@.take(i as int)),
        decreases cache.order.len() - i,
    {
        proof {
            assert(cache.order@.take(i + 1).drop_last() =~= cache.order@.take(i as int));
            lemma_count_to_comment_le(cache.files@, cache.order@.take(i as int));
        }
        match cache.get(cache.order[i].as_str()) {
            Some(e) => if !e.skip {
                to_comment = to_comment + 1;
            },
            None => {},
        }
        i += 1;
    }
    assert(cache.order@.take(cache.order@.len() as int) =~= cache.order@);
    proof {
        if consistent(*cache) {
            lemma_stats_of_bounded(*cache);
        }
    }
    cache.stats = Stats { total_files: total, skipped_covered, skipped_generated, to_comment };
}

proof fn lemma_to_comment_unskipped(files: Seq<(String, FileEntry)>, order: Seq<String>)
    ensures
        count_to_comment(files, order) == unskipped(order, files).len(),
    decreases order.len(),
{
    if order.len() > 0 {
        lemma_to_comment_unskipped(files, order.drop_last());
    }
}

proof fn lemma_reasons_partition(files: Seq<(String, FileEntry)>)
    requires
        forall|i: int| 0 <= i < files.len() ==> ((#[trigger] files[i]).1.skip_reason is Some ==> files[i].1.skip),
    ensures
        open_count(files) + count_reason(files, "sufficient_coverage"@) + count_reason(files, "generated"@) <= files.len(),
    decreases files.len(),
{
    reveal_strlit("sufficient_coverage");
    reveal_strlit("generated");
    assert("sufficient_coverage"@ != "generated"@) by {
        assert("sufficient_coverage"@.len() != "generated"@.len());
    }
    if files.len() > 0 {
        let d = files.drop_last();
        assert forall|i: int| 0 <= i < d.len() implies ((#[trigger] d[i]).1.skip_reason is Some ==> d[i].1.skip) by {
            assert(files[i] == d[i]);
        }
        lemma_reasons_partition(d);
        assert(files[files.len() - 1] == files.last());
    }
}

/// Under a consistent cache, the statistics add up: the files to comment
/// and those skipped as covered or generated are at most all the files.
proof fn lemma_stats_of_bounded(c: CacheFile)
    requires
        consistent(c),
    ensures
        count_to_comment(c.files@, c.order@) + count_reason(c.files@, "sufficient_coverage"@)
            + count_reason(c.files@, "generated"@) <= c.files@.len(),
{
    lemma_to_comment_unskipped(c.files@, c.order@);
    lemma_used_positions(c.order@, c.files@);
    lemma_positions_le_open(c.files@, used_positions(c.order@, c.files@), c.files@.len() as int);
    assert(c.files@.take(c.files@.len() as int) =~= c.files@);
    lemma_reasons_partition(c.files@);
}

/// `new` is the entry `old` after a rescan that found `parsed`, at time
/// `at`: the parsed signatures measured against `min` words, the timestamp,
/// and, for a generated file, the skip; the coverage is set apart.
pub open spec fn rescanned(
    new: FileEntry,
    old: FileEntry,
    parsed: Seq<Signature>,
    generated: bool,
    at: Seq<char>,
    min: nat,
) -> bool {
    &&& new.path == old.path
    &&& new.language == old.language
    &&& new.package == old.package
    &&& new.comment_coverage_bits == old.comment_coverage_bits
    &&& new.skip == (old.skip || generated)
    &&& opt_view(new.skip_reason) == if generated { Some("generated"@) } else { opt_view(old.skip_reason) }
    &&& new.cycle_warning == old.cycle_warning
    &&& new.internal_imports@ == old.internal_imports@
    &&& new.signatures@.len() == parsed.len()
    &&& forall|i: int| 0 <= i < parsed.len() ==> measured(#[trigger] new.signatures@[i], parsed[i], min)
    &&& opt_view(new.scanned_at) == Some(at)
    &&& new.file_kind == old.file_kind
    &&& new.reverse_deps@ == old.reverse_deps@
}

/// `new` is `old` after the rescan of `rel` recorded in its first entry
/// under that key (see `rescanned`), with `counts` the documented and total
/// signatures; nothing else changes.
pub open spec fn entry_rescanned(
    new: CacheFile,
    old: CacheFile,
    rel: Seq<char>,
    parsed: Seq<Signature>,
    generated: bool,
    at: Seq<char>,
    counts: (usize, usize),
) -> bool {
    let i = choose|i: int| is_first_key(old.files@, rel, i);
    &&& is_first_key(old.files@, rel, i)
    &&& new.files@.len() == old.files@.len()
    &&& forall|j: int| 0 <= j < old.files@.len() && j != i ==> #[trigger] new.files@[j] == old.files@[j]
    &&& new.files@[i].0 == old.files@[i].0
    &&& rescanned(new.files@[i].1, old.files@[i].1, parsed, generated, at, old.min_docstring_words as nat)
    &&& counts.0 == documented(new.files@[i].1.signatures@)
    &&& counts.1 == parsed.len()
    &&& new.order == old.order
    &&& new.stats == old.stats
    &&& new.version == old.version
    &&& new.scanned_at == old.scanned_at
    &&& new.project_root == old.project_root
    &&& new.detected_languages == old.detected_languages
    &&& new.min_docstring_words == old.min_docstring_words
}

/// Records a rescan of `rel`: the signatures the parser found now, measured
/// against the cache's minimum word count, the time `scanned_at`, and the
/// skip of a generated file. Returns how many signatures count as
/// documented and how many there are, or `None` (cache unchanged) where the
/// cache has no entry for `rel`.
pub fn rescan_entry(
    cache: &mut CacheFile,
    rel: &str,
    parsed: Vec<Signature>,
    generated: bool,
    scanned_at: &str,
) -> (r: Option<(usize, usize)>)
    ensures
        r is None <==> old(cache).entry(rel@) is None,
        r is None ==> *final(cache) == *old(cache),
        r matches Some(c) ==> entry_rescanned(*final(cache), *old(cache), rel@, parsed@, generated, scanned_at@, c),
        consistent(*old(cache)) ==> consistent(*final(cache)),
        old(cache).keys_distinct() ==> final(cache).keys_distinct(),
{
    let i = match find_file(&cache.files, rel) {
        Some(i) => i,
        None => return None,
    };
    proof {
        let j = choose|j: int| is_first_key(old(cache).files@, rel@, j);
        assert(is_first_key(old(cache).files@, rel@, i as int));
        if j < i {
            assert(old(cache).files@[j].0@ != rel@);
        }
        if i < j {
            assert(old(cache).files@[i as int].0@ != rel@);
        }
    }
    let mut sigs = parsed;
    let counts = apply_min_docstring_words(&mut sigs, cache.min_docstring_words);
    let old_entry = &cache.files[i].1;
    let new_entry = FileEntry {
        path: old_entry.path.clone(),
        language: old_entry.language.clone(),
        package: crate::models::copy_opt_string(&old_entry.package),
        comment_coverage_bits: old_entry.comment_coverage_bits,
        skip: old_entry.skip || generated,
        skip_reason: if generated {
            Some(owned("generated"))
        } else {
            crate::models::copy_opt_string(&old_entry.skip_reason)
        },
        cycle_warning: old_entry.cycle_warning,
        internal_imports: crate::models::copy_strings(&old_entry.internal_imports),
        signatures: sigs,
        scanned_at: Some(owned(scanned_at)),
        file_kind: old_entry.file_kind.clone(),
        reverse_deps: crate::models::copy_strings(&old_entry.reverse_deps),
    };
    let key = cache.files[i].0.clone();
    cache.files.set(i, (key, new_entry));
    proof {
        if consistent(*old(cache)) {
            assert forall|j: int| 0 <= j < cache.files@.len() implies ((#[trigger] cache.files@[j]).1.skip_reason is Some
                ==> cache.files@[j].1.skip) by {
                if j != i {
                    assert(cache.files@[j] == old(cache).files@[j]);
                } else {
                    assert(old(cache).files@[j].1.skip_reason is Some ==> old(cache).files@[j].1.skip);
                }
            }
        }
    }
    Some(counts)
}

/// What rescanning one file came to.
#[derive(Debug)]
pub enum RescanOne {
    /// No language is known for the file's extension.
    UnknownLanguage,
    /// The cache has no entry for the file.
    NotInCache,
    /// The entry was updated (see `rescan_entry`): how many signatures count
    /// as documented, out of how many.
    Rescanned { documented: usize, total: usize },
}

/// Rescans `rel`, whose text is now `content`: its language comes from its
/// extension, its parser runs, and its entry is updated with what was found
/// (see `rescan_entry`), at time `scanned_at`.
pub fn rescan_one(cache: &mut CacheFile, rel: &str, content: &str, scanned_at: &str) -> (r: RescanOne)
    ensures
        r is UnknownLanguage <==> language_of_path(rel@) is None,
        r is NotInCache <==> language_of_path(rel@) is Some && old(cache).entry(rel@) is None,
        !(r is Rescanned) ==> *final(cache) == *old(cache),
        consistent(*old(cache)) ==> consistent(*final(cache)),
        old(cache).keys_distinct() ==> final(cache).keys_distinct(),
        r matches RescanOne::Rescanned { documented: d, total } ==> exists|p: ParseResult|
            #[trigger] parsed_as(p, language_of_path(rel@)->0, content@)
            && entry_rescanned(*final(cache), *old(cache), rel@, p.signatures@,
                is_generated_content(content@), scanned_at@, (d, total)),
{
    let lang = match detect_language(rel) {
        Some(l) => l,
        None => return RescanOne::UnknownLanguage,
    };
    let generated = is_generated(rel, content);
    let pr = get_parser(&lang).parse(content);
    let ghost p = pr;
    match rescan_entry(cache, rel, pr.signatures, generated, scanned_at) {
        Some((d, total)) => {
            assert(parsed_as(p, language_of_path(rel@)->0, content@));
            RescanOne::Rescanned { documented: d, total }
        },
        None => RescanOne::NotInCache,
    }
}

/// `new` is `old` with at most its comment coverage changed.
pub open spec fn recovered(new: FileEntry, old: FileEntry) -> bool {
    &&& new.path == old.path
    &&& new.language == old.language
    &&& new.package == old.package
    &&& new.skip == old.skip
    &&& new.skip_reason == old.skip_reason
    &&& new.cycle_warning == old.cycle_warning
    &&& new.internal_imports@ == old.internal_imports@
    &&& same_signatures(new.signatures@, old.signatures@)
    &&& new.scanned_at == old.scanned_at
    &&& new.file_kind == old.file_kind
    &&& new.reverse_deps@ == old.reverse_deps@
}

/// Sets the comment coverage (the bits of its IEEE-754 double) of the entry
/// recorded under `rel`; returns whether there is one.
pub fn set_coverage(cache: &mut CacheFile, rel: &str, bits: u64) -> (r: bool)
    ensures
        r <==> old(cache).entry(rel@) is Some,
        !r ==> *final(cache) == *old(cache),
        r ==> (final(cache).entry(rel@) matches Some(e) && e.comment_coverage_bits == bits),
        final(cache).files@.len() == old(cache).files@.len(),
        forall|j: int| 0 <= j < old(cache).files@.len() ==> (#[trigger] final(cache).files@[j]).0 == old(cache).files@[j].0,
        forall|j: int| 0 <= j < old(cache).files@.len() ==> recovered(#[trigger] final(cache).files@[j].1, old(cache).files@[j].1),
        final(cache).order == old(cache).order,
        final(cache).stats == old(cache).stats,
        final(cache).version == old(cache).version,
        final(cache).scanned_at == old(cache).scanned_at,
        final(cache).project_root == old(cache).project_root,
        final(cache).detected_languages == old(cache).detected_languages,
        final(cache).min_docstring_words == old(cache).min_docstring_words,
        consistent(*old(cache)) ==> consistent(*final(cache)),
        old(cache).keys_distinct() ==> final(cache).keys_distinct(),
{
    let i = match find_file(&cache.files, rel) {
        Some(i) => i,
        None => return false,
    };
    let old_entry = &cache.files[i].1;
    let new_entry = FileEntry {
        path: old_entry.path.clone(),
        language: old_entry.language.clone(),
        package: crate::models::copy_opt_string(&old_entry.package),
        comment_coverage_bits: bits,
        skip: old_entry.skip,
        skip_reason: crate::models::copy_opt_string(&old_entry.skip_reason),
        cycle_warning: old_entry.cycle_warning,
        internal_imports: crate::models::copy_strings(&old_entry.internal_imports),
        signatures: crate::models::copy_signatures(&old_entry.signatures),
        scanned_at: crate::models::copy_opt_string(&old_entry.scanned_at),
        file_kind: old_entry.file_kind.clone(),
        reverse_deps: crate::models::copy_strings(&old_entry.reverse_deps),
    };
    let key = cache.files[i].0.clone();
    cache.files.set(i, (key, new_entry));
    proof {
        crate::models::lemma_first_key(cache.files@, rel@, i as int);
        assert forall|j: int| 0 <= j < old(cache).files@.len() implies recovered(#[trigger] cache.files@[j].1, old(cache).files@[j].1) by {
            if j != i {
                assert(cache.files@[j] == old(cache).files@[j]);
                crate::models::lemma_same_signatures_refl(old(cache).files@[j].1.signatures@);
            }
        }
        if consistent(*old(cache)) {
            assert forall|j: int| 0 <= j < cache.files@.len() implies ((#[trigger] cache.files@[j]).1.skip_reason is Some
                ==> cache.files@[j].1.skip) by {
                assert(recovered(cache.files@[j].1, old(cache).files@[j].1));
                assert(old(cache).files@[j].1.skip_reason is Some ==> old(cache).files@[j].1.skip);
            }
        }
    }
    true
}

/// The path a rescan is asked for, relative to the project root: an
/// absolute path under the root loses the root, any other path is kept.
pub open spec fn relative_to_root(p: Seq<char>, root: Seq<char>) -> Seq<char> {
    if is_absolute_path(p) {
        match stripped(p, root) {
            Some(r) => r,
            None => p,
        }
    } else {
        p
    }
}

pub fn relative_path(p: &str, root: &str) -> (r: String)
    ensures
        r@ == relative_to_root(p@, root@),
{
    if path_is_absolute(p) {
        match path_strip_prefix(p, root) {
            Some(r) => r,
            None => owned(p),
        }
    } else {
        owned(p)
    }
}

} // verus!
