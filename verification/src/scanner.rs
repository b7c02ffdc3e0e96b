//! Putting a scan together: measuring docstrings, and building the cache
//! from what the walk and the parsers found.

use vstd::prelude::*;
use crate::models::{
    CacheFile, FileEntry, Language, Signature, Stats, params_view, lookup, find_file, copy_signatures,
    copy_strings, copy_opt_string, same_signatures, key_index, lemma_key_index,
};
use crate::graph::{DepGraph, cycle_views};
use crate::resolver::{Resolver, build_index, resolved};
use crate::text::string_views;
use crate::paths::{path_parent, parent_of};
use crate::text::{opt_view, owned, str_eq, string_of, slice_chars, starts_with, trim, trim_start_matches,
    starts_with_chars, trim_chars, trim_start_matches_chars};
use crate::docstring::{count_prose_words, prose_words};
use crate::text::{chars_of, split_chars, split_on, has_infix, contains_chars};
use crate::parsers::{ParseResult, get_parser, parsed_as};

verus! {

broadcast use vstd::string::group_string_axioms;

/// `new` is `old` with its docstring measured: the prose word count of its
/// docstring text is recorded, and where `min` is not zero a docstring of
/// fewer words no longer counts. Nothing else changes.
pub open spec fn measured(new: Signature, old: Signature, min: nat) -> bool {
    &&& new.kind == old.kind
    &&& new.name == old.name
    &&& new.modifiers@ == old.modifiers@
    &&& params_view(new.params) == params_view(old.params)
    &&& new.return_type == old.return_type
    &&& new.throws@ == old.throws@
    &&& new.extends == old.extends
    &&& new.implements@ == old.implements@
    &&& new.annotations@ == old.annotations@
    &&& new.line == old.line
    &&& new.docstring_text == old.docstring_text
    &&& new.existing_word_count == match old.docstring_text {
        Some(t) => prose_words(t@),
        None => old.existing_word_count as nat,
    }
    &&& new.has_docstring == (old.has_docstring && !(old.docstring_text is Some && min > 0
        && new.existing_word_count < min))
}

/// The number of signatures that count as documented.
pub open spec fn documented(sigs: Seq<Signature>) -> nat
    decreases sigs.len(),
{
    if sigs.len() == 0 {
        0
    } else {
        documented(sigs.drop_last()) + if sigs.last().has_docstring { 1nat } else { 0nat }
    }
}

proof fn lemma_documented_le(sigs: Seq<Signature>)
    ensures
        documented(sigs) <= sigs.len(),
    decreases sigs.len(),
{
    if sigs.len() > 0 {
        lemma_documented_le(sigs.drop_last());
    }
}

/// Measures every docstring against `min_words` (see `measured`) and
/// returns how many signatures count as documented, and how many there are:
/// the comment coverage is their ratio (1 where there are none).
pub fn apply_min_docstring_words(sigs: &mut Vec<Signature>, min_words: usize) -> (r: (usize, usize))
    ensures
        final(sigs)@.len() == old(sigs)@.len(),
        forall|i: int| 0 <= i < old(sigs)@.len() ==> measured(
            #[trigger] final(sigs)@[i],
            old(sigs)@[i],
            min_words as nat,
        ),
        r.0 == documented(final(sigs)@),
        r.1 == final(sigs)@.len(),
{
    let mut out: Vec<Signature> = Vec::new();
    let mut count: usize = 0;
    let mut i: usize = 0;
    while i < sigs.len()
        invariant
            i <= sigs@.len(),
            out@.len() == i,
            forall|k: int| 0 <= k < i ==> measured(#[trigger] out@[k], sigs@[k], min_words as nat),
            count == documented(out@),
        decreases sigs.len() - i,
    {
        let sig = &sigs[i];
        let mut d = sig.duplicate();
        match &sig.docstring_text {
            Some(text) => {
                let wc = count_prose_words(text.as_str());
                d.existing_word_count = wc;
                if min_words > 0 && wc < min_words {
                    d.has_docstring = false;
                }
            },
            None => {},
        }
        let ghost before = out@;
        proof {
            lemma_documented_le(before);
        }
        if d.has_docstring {
            count = count + 1;
        }
        out.push(d);
        assert(out@.drop_last() =~= before);
        i += 1;
    }
    *sigs = out;
    (count, i)
}

/// How many lines at the head of a file are searched for a marker.
pub const GENERATED_HEAD_LINES: usize = 5;

/// A line that marks its file as written by a tool.
pub open spec fn generated_marker(line: Seq<char>) -> bool {
    ||| has_infix(line, "@generated"@)
    ||| has_infix(line, "DO NOT EDIT"@)
    ||| has_infix(line, "auto-generated"@)
}

/// A file is generated when one of its first lines carries a marker.
pub open spec fn is_generated_content(content: Seq<char>) -> bool {
    let lines = split_on(content, '\n');
    exists|i: int| 0 <= i < lines.len() && i < GENERATED_HEAD_LINES && generated_marker(#[trigger] lines[i])
}

/// Whether the file at `_rel_path` with text `content` was written by a
/// tool (and is left out of the files to comment).
pub fn is_generated(_rel_path: &str, content: &str) -> (r: bool)
    ensures
        r == is_generated_content(content@),
{
    let chars = chars_of(content);
    let lines = split_chars(chars.as_slice(), '\n');
    let m1 = chars_of("@generated");
    let m2 = chars_of("DO NOT EDIT");
    let m3 = chars_of("auto-generated");
    let ghost ls = split_on(content@, '\n');
    let mut i: usize = 0;
    while i < lines.len() && i < GENERATED_HEAD_LINES
        invariant
            chars@ == content@,
            ls == split_on(content@, '\n'),
            lines@.len() == ls.len(),
            forall|k: int| 0 <= k < lines@.len() ==> #[trigger] lines@[k]@ == ls[k],
            m1@ == "@generated"@,
            m2@ == "DO NOT EDIT"@,
            m3@ == "auto-generated"@,
            i <= lines@.len(),
            forall|k: int| 0 <= k < i ==> !generated_marker(#[trigger] ls[k]),
        decreases lines.len() - i,
    {
        let line = lines[i].as_slice();
        if contains_chars(line, m1.as_slice()) || contains_chars(line, m2.as_slice())
            || contains_chars(line, m3.as_slice()) {
            assert(generated_marker(ls[i as int]));
            return true;
        }
        i += 1;
    }
    false
}

/// The module path declared by the first line of `lines` from `i` on that
/// starts with `module `.
pub open spec fn module_line(lines: Seq<Seq<char>>, i: int) -> Option<Seq<char>>
    decreases lines.len() - i,
{
    if i < 0 || i >= lines.len() {
        None
    } else if starts_with(lines[i], "module "@) {
        Some(trim(trim_start_matches(lines[i], "module "@)))
    } else {
        module_line(lines, i + 1)
    }
}

/// The module path a `go.mod` file with text `content` declares.
pub open spec fn go_module_of(content: Seq<char>) -> Option<Seq<char>> {
    module_line(split_on(content, '\n'), 0)
}

/// Reads the module path out of the text of a `go.mod` file: the first
/// `module` line, the keyword and surrounding blanks taken off.
pub fn go_module_from(content: &str) -> (r: Option<String>)
    ensures
        opt_view(r) == go_module_of(content@),
{
    let chars = chars_of(content);
    let lines = split_chars(chars.as_slice(), '\n');
    let kw = chars_of("module ");
    proof {
        reveal_strlit("module ");
    }
    let ghost ls = split_on(content@, '\n');
    let mut i: usize = 0;
    while i < lines.len()
        invariant
            chars@ == content@,
            ls == split_on(content@, '\n'),
            lines@.len() == ls.len(),
            forall|k: int| 0 <= k < lines@.len() ==> #[trigger] lines@[k]@ == ls[k],
            kw@ == "module "@,
            kw@.len() == 7,
            i <= lines@.len(),
            module_line(ls, 0) == module_line(ls, i as int),
        decreases lines.len() - i,
    {
        let line = lines[i].as_slice();
        if starts_with_chars(line, kw.as_slice()) {
            let rest = trim_start_matches_chars(line, kw.as_slice());
            let m = trim_chars(rest.as_slice());
            return Some(string_of(m.as_slice()));
        }
        i += 1;
    }
    None
}

/// What parsing one readable file gave for the scan.
#[derive(Debug)]
pub enum FileParse {
    /// The file carries a generated marker.
    Generated,
    /// What the parser found, the signatures measured: how many count as
    /// documented, out of how many.
    Parsed {
        documented: usize,
        total: usize,
        signatures: Vec<Signature>,
        raw_imports: Vec<String>,
        package: Option<String>,
    },
}

/// `sigs` are the signatures of `raw` measured against `min` words.
pub open spec fn all_measured(sigs: Seq<Signature>, raw: Seq<Signature>, min: nat) -> bool {
    &&& sigs.len() == raw.len()
    &&& forall|i: int| 0 <= i < raw.len() ==> measured(#[trigger] sigs[i], raw[i], min)
}

/// Reads the text `content` of a file of `language`: a generated file is
/// left alone; otherwise the parser of its language runs and the docstrings
/// it found are measured against `min_docstring_words`.
pub fn parse_file(language: &Language, rel_path: &str, content: &str, min_docstring_words: usize) -> (r: FileParse)
    ensures
        r is Generated <==> is_generated_content(content@),
        r matches FileParse::Parsed { documented: d, total, signatures, raw_imports, package } ==> {
            &&& d == documented(signatures@)
            &&& total == signatures@.len()
            &&& exists|p: ParseResult| #[trigger] parsed_as(p, *language, content@)
                && all_measured(signatures@, p.signatures@, min_docstring_words as nat)
                && raw_imports@ == p.raw_imports@ && package == p.package
        },
{
    if is_generated(rel_path, content) {
        return FileParse::Generated;
    }
    let pr = get_parser(language).parse(content);
    let ghost p = pr;
    let ParseResult { raw_imports, signatures, package, .. } = pr;
    let mut sigs = signatures;
    let (d, total) = apply_min_docstring_words(&mut sigs, min_docstring_words);
    assert(all_measured(sigs@, p.signatures@, min_docstring_words as nat));
    FileParse::Parsed { documented: d, total, signatures: sigs, raw_imports, package }
}

// ─── assembling the cache ───────────────────────────────────────────────────

/// What reading and parsing one discovered file gave.
#[derive(Debug)]
pub enum Outcome {
    /// The file could not be read.
    Unreadable,
    /// The file carries a generated marker.
    Generated,
    /// What the parser found, the signatures already measured; the coverage
    /// (the bits of its IEEE-754 double) and whether it reaches the
    /// threshold (`sufficient`, never with a zero threshold) were computed
    /// from them.
    Parsed {
        coverage_bits: u64,
        sufficient: bool,
        signatures: Vec<Signature>,
        raw_imports: Vec<String>,
        package: Option<String>,
    },
}

/// One discovered file and what became of it.
#[derive(Debug)]
pub struct ScannedFile {
    pub rel_path: String,
    pub language: Language,
    pub outcome: Outcome,
}

/// No two scanned files share a path.
pub open spec fn paths_distinct(files: Seq<ScannedFile>) -> bool {
    forall|i: int, j: int| 0 <= i < j < files.len() ==> #[trigger] files[i].rel_path@ != #[trigger] files[j].rel_path@
}

pub open spec fn raw_imports_of(f: ScannedFile) -> Seq<String> {
    match f.outcome {
        Outcome::Parsed { raw_imports, .. } => raw_imports@,
        _ => Seq::empty(),
    }
}

pub open spec fn sigs_of(f: ScannedFile) -> Seq<Signature> {
    match f.outcome {
        Outcome::Parsed { signatures, .. } => signatures@,
        _ => Seq::empty(),
    }
}

/// The paths of the files of language `l`, in the order found.
pub open spec fn paths_of_language(files: Seq<ScannedFile>, l: Language) -> Seq<Seq<char>>
    decreases files.len(),
{
    if files.len() == 0 {
        Seq::empty()
    } else {
        let rest = paths_of_language(files.drop_last(), l);
        if files.last().language == l {
            rest.push(files.last().rel_path@)
        } else {
            rest
        }
    }
}

/// The raw imports that resolve, resolved, in order.
pub open spec fn resolve_all(idx: Map<Seq<char>, Seq<char>>, raws: Seq<String>, dir: Option<Seq<char>>) -> Seq<Seq<char>>
    decreases raws.len(),
{
    if raws.len() == 0 {
        Seq::empty()
    } else {
        let rest = resolve_all(idx, raws.drop_last(), dir);
        match resolved(idx, raws.last()@, dir) {
            Some(p) => rest.push(p),
            None => rest,
        }
    }
}

/// The internal imports of `f`: its raw imports resolved against the files
/// of its language, relative ones from its directory.
pub open spec fn scan_imports(files: Seq<ScannedFile>, f: ScannedFile, go: Option<Seq<char>>) -> Seq<Seq<char>> {
    resolve_all(
        build_index(f.language, go, paths_of_language(files, f.language)),
        raw_imports_of(f),
        parent_of(f.rel_path@),
    )
}

pub open spec fn in_cycle(cycles: Seq<(String, String)>, p: Seq<char>) -> bool {
    exists|k: int| 0 <= k < cycles.len() && (cycles[k].0@ == p || cycles[k].1@ == p)
}

pub open spec fn is_declaration_kind(k: Seq<char>) -> bool {
    k == "class"@ || k == "interface"@ || k == "enum"@ || k == "annotation"@
}

/// Position of the first class, interface, enum or annotation from `i` on.
pub open spec fn primary_from(sigs: Seq<Signature>, i: int) -> Option<int>
    decreases sigs.len() - i,
{
    if i < 0 || i >= sigs.len() {
        None
    } else if is_declaration_kind(sigs[i].kind@) {
        Some(i)
    } else {
        primary_from(sigs, i + 1)
    }
}

pub open spec fn has_modifier_spec(mods: Seq<String>, m: Seq<char>) -> bool {
    exists|j: int| 0 <= j < mods.len() && mods[j]@ == m
}

/// The kind of a file's main declaration: its first class (an abstract one
/// as `abstract_class`), interface, enum or annotation; `other` without one.
pub open spec fn primary_kind(sigs: Seq<Signature>) -> Seq<char> {
    match primary_from(sigs, 0) {
        Some(i) => if sigs[i].kind@ == "class"@ && has_modifier_spec(sigs[i].modifiers@, "abstract"@) {
            "abstract_class"@
        } else {
            sigs[i].kind@
        },
        None => "other"@,
    }
}

/// A type's name without its type arguments (the text before `<`).
pub open spec fn type_base(t: Seq<char>) -> Seq<char>
    decreases t.len(),
{
    if t.len() == 0 {
        t
    } else if t[0] == '<' {
        Seq::empty()
    } else {
        seq![t[0]] + type_base(t.drop_first())
    }
}

/// `sig` extends or implements the type named `n`.
pub open spec fn names_type(sig: Signature, n: Seq<char>) -> bool {
    ||| (sig.extends matches Some(x) && type_base(x@) == n)
    ||| exists|j: int| 0 <= j < sig.implements@.len() && type_base(#[trigger] sig.implements@[j]@) == n
}

/// Some signature extends or implements the type named `n`.
pub open spec fn derives_from(sigs: Seq<Signature>, n: Seq<char>) -> bool {
    exists|k: int| 0 <= k < sigs.len() && names_type(#[trigger] sigs[k], n)
}

/// Among the first `n` files, those other than `p` that import it and
/// extend or implement its main type `name`, in order.
pub open spec fn reverse_deps_spec(
    files: Seq<ScannedFile>,
    go: Option<Seq<char>>,
    n: int,
    p: Seq<char>,
    name: Seq<char>,
) -> Seq<Seq<char>>
    decreases n,
{
    if n <= 0 || n > files.len() {
        Seq::empty()
    } else {
        let rest = reverse_deps_spec(files, go, n - 1, p, name);
        let g = files[n - 1];
        if g.rel_path@ != p && scan_imports(files, g, go).contains(p) && derives_from(sigs_of(g), name) {
            rest.push(g.rel_path@)
        } else {
            rest
        }
    }
}

/// The files that build on `f`'s main type.
pub open spec fn scan_reverse_deps(files: Seq<ScannedFile>, f: ScannedFile, go: Option<Seq<char>>) -> Seq<Seq<char>> {
    match primary_from(sigs_of(f), 0) {
        Some(i) => reverse_deps_spec(files, go, files.len() as int, f.rel_path@, sigs_of(f)[i].name@),
        None => Seq::empty(),
    }
}

/// `e` is the cache entry made for the scanned file `f`.
pub open spec fn scanned_entry(
    e: FileEntry,
    f: ScannedFile,
    imports: Seq<Seq<char>>,
    reverse: Seq<Seq<char>>,
    cyc: bool,
) -> bool {
    &&& e.path == f.rel_path
    &&& e.language@ == f.language.spec_name()
    &&& e.cycle_warning == cyc
    &&& string_views(e.internal_imports@) == imports
    &&& e.scanned_at is None
    &&& e.file_kind@ == primary_kind(sigs_of(f))
    &&& string_views(e.reverse_deps@) == reverse
    &&& same_signatures(e.signatures@, sigs_of(f))
    &&& match f.outcome {
        Outcome::Unreadable => e.skip && opt_view(e.skip_reason) == Some("unreadable"@)
            && e.comment_coverage_bits == 0 && e.package is None,
        Outcome::Generated => e.skip && opt_view(e.skip_reason) == Some("generated"@)
            && e.comment_coverage_bits == 0 && e.package is None,
        Outcome::Parsed { coverage_bits, sufficient, package, .. } => e.skip == sufficient
            && opt_view(e.skip_reason) == (if sufficient { Some("sufficient_coverage"@) } else { None })
            && e.comment_coverage_bits == coverage_bits && e.package == package,
    }
}

/// How many files were generated (`generated`), or parsed and sufficiently
/// covered (`!generated`).
pub open spec fn count_skipped(files: Seq<ScannedFile>, generated: bool) -> nat
    decreases files.len(),
{
    if files.len() == 0 {
        0
    } else {
        count_skipped(files.drop_last(), generated) + match files.last().outcome {
            Outcome::Generated => if generated { 1nat } else { 0nat },
            Outcome::Parsed { sufficient, .. } => if !generated && sufficient { 1nat } else { 0nat },
            Outcome::Unreadable => 0nat,
        }
    }
}

/// The paths of `order` whose entry is not skipped.
pub open spec fn unskipped(order: Seq<String>, entries: Seq<(String, FileEntry)>) -> Seq<Seq<char>>
    decreases order.len(),
{
    if order.len() == 0 {
        Seq::empty()
    } else {
        let rest = unskipped(order.drop_last(), entries);
        match lookup(entries, order.last()@) {
            Some(e) => if !e.skip { rest.push(order.last()@) } else { rest },
            None => rest,
        }
    }
}

/// The languages in the order of their names.
pub open spec fn languages_by_name() -> Seq<Language> {
    seq![
        Language::Cpp,
        Language::CSharp,
        Language::Go,
        Language::Java,
        Language::JavaScript,
        Language::Python,
        Language::Ruby,
        Language::Rust,
        Language::TypeScript,
    ]
}

pub open spec fn language_present(files: Seq<ScannedFile>, l: Language) -> bool {
    exists|i: int| 0 <= i < files.len() && files[i].language == l
}

/// The names of the languages found among the first `k` of `languages_by_name`.
pub open spec fn detected_upto(files: Seq<ScannedFile>, k: int) -> Seq<Seq<char>>
    decreases k,
{
    if k <= 0 || k > 9 {
        Seq::empty()
    } else {
        let rest = detected_upto(files, k - 1);
        let l = languages_by_name()[k - 1];
        if language_present(files, l) {
            rest.push(l.spec_name())
        } else {
            rest
        }
    }
}

/// The names of the languages found, sorted.
pub open spec fn detected_languages(files: Seq<ScannedFile>) -> Seq<Seq<char>> {
    detected_upto(files, 9)
}

/// The cache a scan writes, with the graph it was ordered by and the
/// import edges given up to break cycles.
#[derive(Debug)]
pub struct ScanParts {
    pub cache: CacheFile,
    pub graph: DepGraph,
    /// Every node of the graph in dependency order.
    pub full_order: Vec<String>,
    pub cycles: Vec<(String, String)>,
}

fn slot(l: Language) -> (r: usize)
    ensures
        r < 9,
        languages_by_name()[r as int] == l,
{
    match l {
        Language::Cpp => 0,
        Language::CSharp => 1,
        Language::Go => 2,
        Language::Java => 3,
        Language::JavaScript => 4,
        Language::Python => 5,
        Language::Ruby => 6,
        Language::Rust => 7,
        Language::TypeScript => 8,
    }
}

fn language_at(k: usize) -> (r: Language)
    requires
        k < 9,
    ensures
        r == languages_by_name()[k as int],
{
    if k == 0 {
        Language::Cpp
    } else if k == 1 {
        Language::CSharp
    } else if k == 2 {
        Language::Go
    } else if k == 3 {
        Language::Java
    } else if k == 4 {
        Language::JavaScript
    } else if k == 5 {
        Language::Python
    } else if k == 6 {
        Language::Ruby
    } else if k == 7 {
        Language::Rust
    } else {
        Language::TypeScript
    }
}

fn language_paths(files: &Vec<ScannedFile>, l: Language) -> (r: Vec<String>)
    ensures
        string_views(r@) == paths_of_language(files@, l),
{
    let mut r: Vec<String> = Vec::new();
    let mut i: usize = 0;
    while i < files.len()
        invariant
            i <= files@.len(),
            string_views(r@) == paths_of_language(files@.take(i as int), l),
        decreases files.len() - i,
    {
        assert(files@.take(i + 1).drop_last() =~= files@.take(i as int));
        let ghost before = r@;
        if files[i].language == l {
            r.push(files[i].rel_path.clone());
            assert(string_views(r@) =~= string_views(before).push(files@[i as int].rel_path@));
        }
        i += 1;
    }
    assert(files@.take(files@.len() as int) =~= files@);
    r
}

fn resolve_imports(resolver: &Resolver, raws: &Vec<String>, dir: Option<&str>) -> (r: Vec<String>)
    ensures
        string_views(r@) == resolve_all(resolver.index(), raws@, match dir {
            Some(d) => Some(d@),
            None => None,
        }),
{
    let ghost d = match dir {
        Some(d) => Some(d@),
        None => None,
    };
    let mut r: Vec<String> = Vec::new();
    let mut i: usize = 0;
    while i < raws.len()
        invariant
            i <= raws@.len(),
            d == match dir {
                Some(x) => Some(x@),
                None => None::<Seq<char>>,
            },
            string_views(r@) == resolve_all(resolver.index(), raws@.take(i as int), d),
        decreases raws.len() - i,
    {
        assert(raws@.take(i + 1).drop_last() =~= raws@.take(i as int));
        let ghost before = r@;
        match resolver.resolve(raws[i].as_str(), dir) {
            Some(p) => {
                r.push(p);
                assert(string_views(r@) =~= string_views(before).push(r@.last()@));
            },
            None => {},
        }
        i += 1;
    }
    assert(raws@.take(raws@.len() as int) =~= raws@);
    r
}

pub fn contains_str(v: &Vec<String>, s: &str) -> (r: bool)
    ensures
        r == string_views(v@).contains(s@),
{
    let mut i: usize = 0;
    while i < v.len()
        invariant
            i <= v@.len(),
            forall|j: int| 0 <= j < i ==> v@[j]@ != s@,
        decreases v.len() - i,
    {
        if str_eq(v[i].as_str(), s) {
            assert(string_views(v@)[i as int] == s@);
            return true;
        }
        i += 1;
    }
    assert forall|j: int| 0 <= j < string_views(v@).len() implies string_views(v@)[j] != s@ by {
        assert(string_views(v@)[j] == v@[j]@);
    }
    false
}

fn empty_sigs() -> (r: Vec<Signature>)
    ensures
        r@.len() == 0,
{
    Vec::new()
}

fn outcome_sigs(f: &ScannedFile) -> (r: Vec<Signature>)
    ensures
        same_signatures(r@, sigs_of(*f)),
{
    match &f.outcome {
        Outcome::Parsed { signatures, .. } => copy_signatures(signatures),
        _ => {
            let r = empty_sigs();
            assert(same_signatures(r@, sigs_of(*f)));
            r
        },
    }
}
proof fn lemma_type_base_skip(t: Seq<char>, i: int)
    requires
        0 <= i <= t.len(),
        forall|j: int| 0 <= j < i ==> t[j] != '<',
    ensures
        type_base(t) == t.take(i) + type_base(t.skip(i)),
    decreases i,
{
    if i == 0 {
        assert(t.skip(0) =~= t);
        assert(t.take(0) + type_base(t) =~= type_base(t));
    } else {
        lemma_type_base_skip(t, i - 1);
        let u = t.skip(i - 1);
        assert(u[0] == t[i - 1]);
        assert(u.drop_first() =~= t.skip(i));
        assert(t.take(i - 1) + (seq![t[i - 1]] + type_base(t.skip(i))) =~= t.take(i) + type_base(t.skip(i)));
    }
}

/// A type's name without its type arguments.
pub fn type_base_of(t: &str) -> (r: String)
    ensures
        r@ == type_base(t@),
{
    let cs = chars_of(t);
    let mut i: usize = 0;
    while i < cs.len() && cs[i] != '<'
        invariant
            cs@ == t@,
            i <= cs@.len(),
            forall|j: int| 0 <= j < i ==> cs@[j] != '<',
        decreases cs.len() - i,
    {
        i += 1;
    }
    proof {
        lemma_type_base_skip(t@, i as int);
        if i < cs.len() {
            assert(t@.skip(i as int)[0] == '<');
        } else {
            assert(t@.skip(i as int).len() == 0);
        }
        assert(t@.take(i as int) + Seq::<char>::empty() =~= t@.take(i as int));
    }
    let part = slice_chars(cs.as_slice(), 0, i);
    assert(part@ =~= t@.take(i as int));
    string_of(part.as_slice())
}

fn primary_index(sigs: &Vec<Signature>) -> (r: Option<usize>)
    ensures
        match r {
            Some(i) => i < sigs@.len() && primary_from(sigs@, 0) == Some(i as int),
            None => primary_from(sigs@, 0) is None,
        },
{
    let mut i: usize = 0;
    while i < sigs.len()
        invariant
            i <= sigs@.len(),
            primary_from(sigs@, 0) == primary_from(sigs@, i as int),
        decreases sigs.len() - i,
    {
        let k = sigs[i].kind.as_str();
        if str_eq(k, "class") || str_eq(k, "interface") || str_eq(k, "enum") || str_eq(k, "annotation") {
            return Some(i);
        }
        i += 1;
    }
    None
}

fn has_modifier_named(mods: &Vec<String>, m: &str) -> (r: bool)
    ensures
        r == has_modifier_spec(mods@, m@),
{
    let mut i: usize = 0;
    while i < mods.len()
        invariant
            i <= mods@.len(),
            forall|j: int| 0 <= j < i ==> mods@[j]@ != m@,
        decreases mods.len() - i,
    {
        if str_eq(mods[i].as_str(), m) {
            return true;
        }
        i += 1;
    }
    false
}

/// The kind of a file's main declaration (see `primary_kind`).
pub fn file_kind_of(sigs: &Vec<Signature>) -> (r: String)
    ensures
        r@ == primary_kind(sigs@),
{
    match primary_index(sigs) {
        Some(i) => {
            if str_eq(sigs[i].kind.as_str(), "class") && has_modifier_named(&sigs[i].modifiers, "abstract") {
                owned("abstract_class")
            } else {
                sigs[i].kind.clone()
            }
        },
        None => owned("other"),
    }
}

fn names_type_exec(sig: &Signature, n: &str) -> (r: bool)
    ensures
        r == names_type(*sig, n@),
{
    match &sig.extends {
        Some(x) => {
            let b = type_base_of(x.as_str());
            if str_eq(b.as_str(), n) {
                return true;
            }
        },
        None => {},
    }
    let mut j: usize = 0;
    while j < sig.implements.len()
        invariant
            j <= sig.implements@.len(),
            !(sig.extends matches Some(x) && type_base(x@) == n@),
            forall|t: int| 0 <= t < j ==> type_base(#[trigger] sig.implements@[t]@) != n@,
        decreases sig.implements.len() - j,
    {
        let b = type_base_of(sig.implements[j].as_str());
        if str_eq(b.as_str(), n) {
            return true;
        }
        j += 1;
    }
    false
}

fn derives_exec(sigs: &Vec<Signature>, n: &str) -> (r: bool)
    ensures
        r == derives_from(sigs@, n@),
{
    let mut k: usize = 0;
    while k < sigs.len()
        invariant
            k <= sigs@.len(),
            forall|t: int| 0 <= t < k ==> !names_type(#[trigger] sigs@[t], n@),
        decreases sigs.len() - k,
    {
        if names_type_exec(&sigs[k], n) {
            return true;
        }
        k += 1;
    }
    false
}

fn outcome_derives(f: &ScannedFile, n: &str) -> (r: bool)
    ensures
        r == derives_from(sigs_of(*f), n@),
{
    match &f.outcome {
        Outcome::Parsed { signatures, .. } => derives_exec(signatures, n),
        _ => false,
    }
}

fn in_cycle_exec(cycles: &Vec<(String, String)>, p: &str) -> (r: bool)
    ensures
        r == in_cycle(cycles@, p@),
{
    let mut k: usize = 0;
    while k < cycles.len()
        invariant
            k <= cycles@.len(),
            forall|t: int| 0 <= t < k ==> !((#[trigger] cycles@[t]).0@ == p@ || cycles@[t].1@ == p@),
        decreases cycles.len() - k,
    {
        if str_eq(cycles[k].0.as_str(), p) || str_eq(cycles[k].1.as_str(), p) {
            return true;
        }
        k += 1;
    }
    false
}
/// `s` is the path of the `i`th file or one it imports.
pub open spec fn file_node(files: Seq<ScannedFile>, go: Option<Seq<char>>, i: int, s: Seq<char>) -> bool {
    files[i].rel_path@ == s || scan_imports(files, files[i], go).contains(s)
}

/// The `i`th file is `a` and imports `b`.
pub open spec fn file_edge(files: Seq<ScannedFile>, go: Option<Seq<char>>, i: int, a: Seq<char>, b: Seq<char>) -> bool {
    files[i].rel_path@ == a && scan_imports(files, files[i], go).contains(b)
}

/// The graph holds, of the first `n` files, each path and what it
/// imports, and the import edges.
pub open spec fn scan_graph_upto(g: DepGraph, files: Seq<ScannedFile>, go: Option<Seq<char>>, n: int) -> bool {
    &&& g.wf()
    &&& forall|s: Seq<char>| #[trigger] g.has_node(s) <==> exists|i: int| 0 <= i < n && #[trigger] file_node(files, go, i, s)
    &&& forall|a: Seq<char>, b: Seq<char>| #[trigger] g.has_edge(a, b) <==> exists|i: int| 0 <= i < n
        && #[trigger] file_edge(files, go, i, a, b)
}

proof fn lemma_take_push_contains(si: Seq<Seq<char>>, k: int)
    requires
        0 <= k < si.len(),
    ensures
        forall|s: Seq<char>| #[trigger] si.take(k + 1).contains(s) <==> (si.take(k).contains(s) || s == si[k]),
{
    let t0 = si.take(k);
    let t1 = si.take(k + 1);
    assert forall|s: Seq<char>| #[trigger] t1.contains(s) <==> (t0.contains(s) || s == si[k]) by {
        if t1.contains(s) {
            let j = choose|j: int| 0 <= j < t1.len() && t1[j] == s;
            if j < k {
                assert(t0[j] == s);
            }
        }
        if t0.contains(s) {
            let j = choose|j: int| 0 <= j < t0.len() && t0[j] == s;
            assert(t1[j] == s);
        }
        if s == si[k] {
            assert(t1[k] == s);
        }
    }
}

pub open spec fn opt_str_view(o: Option<&str>) -> Option<Seq<char>> {
    match o {
        Some(d) => Some(d@),
        None => None,
    }
}

/// Builds, for every language, the resolver over the files of that
/// language.
fn build_resolvers(files: &Vec<ScannedFile>, go_module: Option<&str>) -> (r: Vec<Resolver>)
    ensures
        r@.len() == 9,
        forall|k: int| 0 <= k < 9 ==> (#[trigger] r@[k]).index() == build_index(
            languages_by_name()[k],
            opt_str_view(go_module),
            paths_of_language(files@, languages_by_name()[k]),
        ),
{
    let mut r: Vec<Resolver> = Vec::new();
    let mut k: usize = 0;
    while k < 9
        invariant
            k <= 9,
            r@.len() == k,
            forall|t: int| 0 <= t < k ==> (#[trigger] r@[t]).index() == build_index(
                languages_by_name()[t],
                opt_str_view(go_module),
                paths_of_language(files@, languages_by_name()[t]),
            ),
        decreases 9 - k,
    {
        let l = language_at(k);
        let paths = language_paths(files, l);
        r.push(Resolver::new(&l, paths.as_slice(), "", go_module));
        k += 1;
    }
    r
}

/// The internal imports of the `i`th file.
fn file_imports(files: &Vec<ScannedFile>, i: usize, resolvers: &Vec<Resolver>, go_module: Option<&str>) -> (r: Vec<String>)
    requires
        i < files@.len(),
        resolvers@.len() == 9,
        forall|k: int| 0 <= k < 9 ==> (#[trigger] resolvers@[k]).index() == build_index(
            languages_by_name()[k],
            opt_str_view(go_module),
            paths_of_language(files@, languages_by_name()[k]),
        ),
    ensures
        string_views(r@) == scan_imports(files@, files@[i as int], opt_str_view(go_module)),
{
    let f = &files[i];
    let resolver = &resolvers[slot(f.language)];
    let dir = path_parent(f.rel_path.as_str());
    let d: Option<&str> = match &dir {
        Some(x) => Some(x.as_str()),
        None => None,
    };
    assert(opt_str_view(d) == parent_of(f.rel_path@));
    match &f.outcome {
        Outcome::Parsed { raw_imports, .. } => resolve_imports(resolver, raw_imports, d),
        _ => {
            let r: Vec<String> = Vec::new();
            assert(string_views(r@) =~= Seq::<Seq<char>>::empty());
            r
        },
    }
}

/// The graph over the files and their imports, and each file's imports.
fn build_graph(files: &Vec<ScannedFile>, resolvers: &Vec<Resolver>, go_module: Option<&str>) -> (r: (
    DepGraph,
    Vec<Vec<String>>,
))
    requires
        resolvers@.len() == 9,
        forall|k: int| 0 <= k < 9 ==> (#[trigger] resolvers@[k]).index() == build_index(
            languages_by_name()[k],
            opt_str_view(go_module),
            paths_of_language(files@, languages_by_name()[k]),
        ),
    ensures
        scan_graph_upto(r.0, files@, opt_str_view(go_module), files@.len() as int),
        r.1@.len() == files@.len(),
        forall|i: int| 0 <= i < files@.len() ==> string_views((#[trigger] r.1@[i])@) == scan_imports(
            files@,
            files@[i],
            opt_str_view(go_module),
        ),
{
    let ghost go = opt_str_view(go_module);
    let ghost fs = files@;
    let mut g = DepGraph::new();
    let mut imports: Vec<Vec<String>> = Vec::new();
    let mut i: usize = 0;
    while i < files.len()
        invariant
            fs == files@,
            go == opt_str_view(go_module),
            resolvers@.len() == 9,
            forall|k: int| 0 <= k < 9 ==> (#[trigger] resolvers@[k]).index() == build_index(
                languages_by_name()[k],
                go,
                paths_of_language(fs, languages_by_name()[k]),
            ),
            i <= fs.len(),
            scan_graph_upto(g, fs, go, i as int),
            imports@.len() == i,
            forall|t: int| 0 <= t < i ==> string_views((#[trigger] imports@[t])@) == scan_imports(fs, fs[t], go),
        decreases files.len() - i,
    {
        let rel = files[i].rel_path.as_str();
        let imps = file_imports(files, i, resolvers, go_module);
        let ghost si = scan_imports(fs, fs[i as int], go);
        let ghost g0 = g;
        g.add_node(rel);
        assert(si.take(0) =~= Seq::<Seq<char>>::empty());
        let mut k: usize = 0;
        while k < imps.len()
            invariant
                fs == files@,
                i < fs.len(),
                rel@ == fs[i as int].rel_path@,
                string_views(imps@) == si,
                g.wf(),
                k <= imps@.len(),
                forall|s: Seq<char>| #[trigger] g.has_node(s) <==> (g0.has_node(s) || s == rel@
                    || si.take(k as int).contains(s)),
                forall|a: Seq<char>, b: Seq<char>| #[trigger] g.has_edge(a, b) <==> (g0.has_edge(a, b)
                    || (a == rel@ && si.take(k as int).contains(b))),
            decreases imps.len() - k,
        {
            proof {
                lemma_take_push_contains(si, k as int);
                assert(si[k as int] == imps@[k as int]@);
            }
            g.add_edge(rel, imps[k].as_str());
            k += 1;
        }
        proof {
            assert(si.take(imps@.len() as int) =~= si);
            let n = i as int;
            assert forall|s: Seq<char>| #[trigger] g.has_node(s) <==> exists|t: int| 0 <= t < n + 1
                && #[trigger] file_node(fs, go, t, s) by {
                if g.has_node(s) && !g0.has_node(s) {
                    assert(file_node(fs, go, n, s));
                }
                if exists|t: int| 0 <= t < n + 1 && #[trigger] file_node(fs, go, t, s) {
                    let t = choose|t: int| 0 <= t < n + 1 && #[trigger] file_node(fs, go, t, s);
                    if t < n {
                        assert(g0.has_node(s));
                    }
                }
            }
            assert forall|a: Seq<char>, b: Seq<char>| #[trigger] g.has_edge(a, b) <==> exists|t: int| 0 <= t < n + 1
                && #[trigger] file_edge(fs, go, t, a, b) by {
                if g.has_edge(a, b) && !g0.has_edge(a, b) {
                    assert(file_edge(fs, go, n, a, b));
                }
                if exists|t: int| 0 <= t < n + 1 && #[trigger] file_edge(fs, go, t, a, b) {
                    let t = choose|t: int| 0 <= t < n + 1 && #[trigger] file_edge(fs, go, t, a, b);
                    if t < n {
                        assert(g0.has_edge(a, b));
                    }
                }
            }
        }
        imports.push(imps);
        i += 1;
    }
    (g, imports)
}
proof fn lemma_count_skipped_le(files: Seq<ScannedFile>, generated: bool)
    ensures
        count_skipped(files, generated) <= files.len(),
    decreases files.len(),
{
    if files.len() > 0 {
        lemma_count_skipped_le(files.drop_last(), generated);
    }
}

fn reverse_deps_exec(
    files: &Vec<ScannedFile>,
    imports: &Vec<Vec<String>>,
    go: Ghost<Option<Seq<char>>>,
    p: &str,
    name: &str,
) -> (r: Vec<String>)
    requires
        imports@.len() == files@.len(),
        forall|t: int| 0 <= t < files@.len() ==> string_views((#[trigger] imports@[t])@) == scan_imports(files@, files@[t], go@),
    ensures
        string_views(r@) == reverse_deps_spec(files@, go@, files@.len() as int, p@, name@),
{
    let mut r: Vec<String> = Vec::new();
    let mut j: usize = 0;
    while j < files.len()
        invariant
            imports@.len() == files@.len(),
            forall|t: int| 0 <= t < files@.len() ==> string_views((#[trigger] imports@[t])@) == scan_imports(files@, files@[t], go@),
            j <= files@.len(),
            string_views(r@) == reverse_deps_spec(files@, go@, j as int, p@, name@),
        decreases files.len() - j,
    {
        let g = &files[j];
        let ghost before = r@;
        if !str_eq(g.rel_path.as_str(), p) && contains_str(&imports[j], p) && outcome_derives(g, name) {
            r.push(g.rel_path.clone());
            assert(string_views(r@) =~= string_views(before).push(files@[j as int].rel_path@));
        }
        j += 1;
    }
    r
}

fn file_kind_of_outcome(f: &ScannedFile) -> (r: String)
    ensures
        r@ == primary_kind(sigs_of(*f)),
{
    match &f.outcome {
        Outcome::Parsed { signatures, .. } => file_kind_of(signatures),
        _ => owned("other"),
    }
}

fn reverse_deps_of_outcome(
    files: &Vec<ScannedFile>,
    imports: &Vec<Vec<String>>,
    go: Ghost<Option<Seq<char>>>,
    i: usize,
) -> (r: Vec<String>)
    requires
        i < files@.len(),
        imports@.len() == files@.len(),
        forall|t: int| 0 <= t < files@.len() ==> string_views((#[trigger] imports@[t])@) == scan_imports(files@, files@[t], go@),
    ensures
        string_views(r@) == scan_reverse_deps(files@, files@[i as int], go@),
{
    let f = &files[i];
    match &f.outcome {
        Outcome::Parsed { signatures, .. } => match primary_index(signatures) {
            Some(pi) => reverse_deps_exec(files, imports, go, f.rel_path.as_str(), signatures[pi].name.as_str()),
            None => {
                let r: Vec<String> = Vec::new();
                assert(string_views(r@) =~= Seq::<Seq<char>>::empty());
                r
            },
        },
        _ => {
            let r: Vec<String> = Vec::new();
            assert(string_views(r@) =~= Seq::<Seq<char>>::empty());
            r
        },
    }
}

// ─── the statistics add up ──────────────────────────────────────────────────

/// How many entries are not skipped.
pub open spec fn open_count(entries: Seq<(String, FileEntry)>) -> nat
    decreases entries.len(),
{
    if entries.len() == 0 {
        0
    } else {
        open_count(entries.drop_last()) + if !entries.last().1.skip { 1nat } else { 0nat }
    }
}

/// The skip flag of `e` agrees with what became of `f`.
pub open spec fn skip_agrees(e: FileEntry, f: ScannedFile) -> bool {
    match f.outcome {
        Outcome::Parsed { sufficient, .. } => e.skip == sufficient,
        _ => e.skip,
    }
}

proof fn lemma_skip_partition(entries: Seq<(String, FileEntry)>, files: Seq<ScannedFile>)
    requires
        entries.len() == files.len(),
        forall|i: int| 0 <= i < files.len() ==> skip_agrees(#[trigger] entries[i].1, files[i]),
    ensures
        open_count(entries) + count_skipped(files, false) + count_skipped(files, true) <= files.len(),
    decreases files.len(),
{
    if files.len() > 0 {
        let (e, f) = (entries.drop_last(), files.drop_last());
        assert forall|i: int| 0 <= i < f.len() implies skip_agrees(#[trigger] e[i].1, f[i]) by {
            assert(skip_agrees(entries[i].1, files[i]));
        }
        lemma_skip_partition(e, f);
        assert(skip_agrees(entries[files.len() - 1].1, files[files.len() - 1]));
    }
}

/// The entry positions that the unskipped paths of `order` are found at.
pub(crate) open spec fn used_positions(order: Seq<String>, entries: Seq<(String, FileEntry)>) -> Set<int>
    decreases order.len(),
{
    if order.len() == 0 {
        Set::empty()
    } else {
        let rest = used_positions(order.drop_last(), entries);
        match lookup(entries, order.last()@) {
            Some(e) => if !e.skip { rest.insert(key_index(entries, order.last()@)) } else { rest },
            None => rest,
        }
    }
}

pub(crate) proof fn lemma_used_positions(order: Seq<String>, entries: Seq<(String, FileEntry)>)
    requires
        forall|i: int, j: int| 0 <= i < j < order.len() ==> #[trigger] order[i]@ != #[trigger] order[j]@,
    ensures
        used_positions(order, entries).finite(),
        used_positions(order, entries).len() == unskipped(order, entries).len(),
        forall|p: int| #[trigger] used_positions(order, entries).contains(p) ==> 0 <= p < entries.len()
            && !entries[p].1.skip
            && exists|k: int| 0 <= k < order.len() && entries[p].0@ == #[trigger] order[k]@,
    decreases order.len(),
{
    if order.len() > 0 {
        let o = order.drop_last();
        assert forall|i: int, j: int| 0 <= i < j < o.len() implies #[trigger] o[i]@ != #[trigger] o[j]@ by {
            assert(order[i]@ != order[j]@);
        }
        lemma_used_positions(o, entries);
        let rest = used_positions(o, entries);
        let name = order.last()@;
        match lookup(entries, name) {
            Some(e) => {
                lemma_key_index(entries, name);
                let idx = key_index(entries, name);
                if !e.skip {
                    if rest.contains(idx) {
                        let k = choose|k: int| 0 <= k < o.len() && entries[idx].0@ == #[trigger] o[k]@;
                        assert(order[k]@ != order[order.len() - 1]@);
                    }
                }
                assert forall|p: int| #[trigger] used_positions(order, entries).contains(p) implies 0 <= p < entries.len()
                    && !entries[p].1.skip
                    && exists|k: int| 0 <= k < order.len() && entries[p].0@ == #[trigger] order[k]@ by {
                    if rest.contains(p) {
                        let k = choose|k: int| 0 <= k < o.len() && entries[p].0@ == #[trigger] o[k]@;
                        assert(order[k] == o[k]);
                    } else {
                        assert(entries[p].0@ == order[order.len() - 1]@);
                    }
                }
            },
            None => {
                assert forall|p: int| #[trigger] used_positions(order, entries).contains(p) implies 0 <= p < entries.len()
                    && !entries[p].1.skip
                    && exists|k: int| 0 <= k < order.len() && entries[p].0@ == #[trigger] order[k]@ by {
                    let k = choose|k: int| 0 <= k < o.len() && entries[p].0@ == #[trigger] o[k]@;
                    assert(order[k] == o[k]);
                }
            },
        }
    }
}

pub(crate) proof fn lemma_positions_le_open(entries: Seq<(String, FileEntry)>, u: Set<int>, n: int)
    requires
        0 <= n <= entries.len(),
        u.finite(),
        forall|p: int| #[trigger] u.contains(p) ==> 0 <= p < n && !entries[p].1.skip,
    ensures
        u.len() <= open_count(entries.take(n)),
    decreases n,
{
    if n == 0 {
        assert(u =~= Set::<int>::empty());
    } else {
        let v = u.remove(n - 1);
        lemma_positions_le_open(entries, v, n - 1);
        assert(entries.take(n).drop_last() =~= entries.take(n - 1));
        if !u.contains(n - 1) {
            assert(v =~= u);
        }
    }
}

/// A cache is consistent: every entry that records a skip reason is
/// skipped, and its order names each path once.
pub open spec fn consistent(c: CacheFile) -> bool {
    &&& forall|i: int| 0 <= i < c.files@.len() ==> ((#[trigger] c.files@[i]).1.skip_reason is Some ==> c.files@[i].1.skip)
    &&& forall|i: int, j: int| 0 <= i < j < c.order@.len() ==> #[trigger] c.order@[i]@ != #[trigger] c.order@[j]@
}

proof fn lemma_unskipped_distinct(order: Seq<String>, entries: Seq<(String, FileEntry)>)
    requires
        forall|i: int, j: int| 0 <= i < j < order.len() ==> #[trigger] order[i]@ != #[trigger] order[j]@,
    ensures
        forall|i: int, j: int| 0 <= i < j < unskipped(order, entries).len()
            ==> #[trigger] unskipped(order, entries)[i] != #[trigger] unskipped(order, entries)[j],
        forall|i: int| 0 <= i < unskipped(order, entries).len() ==> exists|k: int| 0 <= k < order.len()
            && #[trigger] unskipped(order, entries)[i] == order[k]@,
    decreases order.len(),
{
    if order.len() > 0 {
        let o = order.drop_last();
        assert forall|i: int, j: int| 0 <= i < j < o.len() implies #[trigger] o[i]@ != #[trigger] o[j]@ by {
            assert(order[i]@ != order[j]@);
        }
        lemma_unskipped_distinct(o, entries);
        let r = unskipped(o, entries);
        let u = unskipped(order, entries);
        assert forall|i: int| 0 <= i < u.len() implies exists|k: int| 0 <= k < order.len()
            && #[trigger] u[i] == order[k]@ by {
            if i < r.len() {
                assert(u[i] == r[i]);
                let k = choose|k: int| 0 <= k < o.len() && r[i] == o[k]@;
                assert(order[k] == o[k]);
            } else {
                assert(u[i] == order[order.len() - 1]@);
            }
        }
        assert forall|i: int, j: int| 0 <= i < j < u.len() implies #[trigger] u[i] != #[trigger] u[j] by {
            if j < r.len() {
                assert(u[i] == r[i] && u[j] == r[j]);
            } else {
                assert(u[i] == r[i]);
                let k = choose|k: int| 0 <= k < o.len() && r[i] == o[k]@;
                assert(order[k]@ != order[order.len() - 1]@);
            }
        }
    }
}

proof fn lemma_stats_bound(files: Seq<ScannedFile>, entries: Seq<(String, FileEntry)>, order: Seq<String>)
    requires
        entries.len() == files.len(),
        forall|i: int| 0 <= i < files.len() ==> skip_agrees(#[trigger] entries[i].1, files[i]),
        forall|i: int, j: int| 0 <= i < j < order.len() ==> #[trigger] order[i]@ != #[trigger] order[j]@,
    ensures
        unskipped(order, entries).len() + count_skipped(files, false) + count_skipped(files, true) <= files.len(),
{
    lemma_skip_partition(entries, files);
    lemma_used_positions(order, entries);
    lemma_positions_le_open(entries, used_positions(order, entries), entries.len() as int);
    assert(entries.take(entries.len() as int) =~= entries);
}

/// Builds the cache of a scan from the files the walk found, in its order
/// (each path once), and what reading and parsing each gave: one entry per
/// file with its imports resolved against the files of its language, the
/// files in dependency order (cycles broken, their files marked), the order
/// restricted to the files not skipped, the statistics and the languages
/// found.
pub fn assemble_scan(
    files: &Vec<ScannedFile>,
    go_module: Option<&str>,
    project_root: &str,
    scanned_at: &str,
    min_docstring_words: usize,
) -> (r: ScanParts)
    ensures
        r.cache.version == 1,
        r.cache.scanned_at@ == scanned_at@,
        r.cache.project_root@ == project_root@,
        r.cache.min_docstring_words == min_docstring_words,
        r.cache.files@.len() == files@.len(),
        forall|i: int| 0 <= i < files@.len() ==> (#[trigger] r.cache.files@[i]).0@ == files@[i].rel_path@
            && scanned_entry(
                r.cache.files@[i].1,
                files@[i],
                scan_imports(files@, files@[i], opt_str_view(go_module)),
                scan_reverse_deps(files@, files@[i], opt_str_view(go_module)),
                in_cycle(r.cycles@, files@[i].rel_path@),
            ),
        scan_graph_upto(r.graph, files@, opt_str_view(go_module), files@.len() as int),
        r.graph.is_topo_result(r.full_order@, r.cycles@),
        string_views(r.full_order@) == r.graph.topo_spec().0,
        cycle_views(r.cycles@) == r.graph.topo_spec().1,
        string_views(r.cache.order@) == unskipped(r.full_order@, r.cache.files@),
        r.cache.stats.total_files == files@.len(),
        r.cache.stats.skipped_covered == count_skipped(files@, false),
        r.cache.stats.skipped_generated == count_skipped(files@, true),
        r.cache.stats.to_comment == r.cache.order@.len(),
        r.cache.stats.to_comment + r.cache.stats.skipped_covered + r.cache.stats.skipped_generated
            <= r.cache.stats.total_files,
        consistent(r.cache),
        paths_distinct(files@) ==> r.cache.keys_distinct(),
        string_views(r.cache.detected_languages@) == detected_languages(files@),
{
    let ghost go = opt_str_view(go_module);
    let ghost fs = files@;
    let resolvers = build_resolvers(files, go_module);
    let (graph, imports) = build_graph(files, &resolvers, go_module);
    let (full_order, cycles) = graph.topo_sort();

    // one entry per file
    let mut entries: Vec<(String, FileEntry)> = Vec::new();
    let mut skipped_covered: usize = 0;
    let mut skipped_generated: usize = 0;
    let mut i: usize = 0;
    while i < files.len()
        invariant
            fs == files@,
            go == opt_str_view(go_module),
            imports@.len() == fs.len(),
            forall|t: int| 0 <= t < fs.len() ==> string_views((#[trigger] imports@[t])@) == scan_imports(fs, fs[t], go),
            i <= fs.len(),
            entries@.len() == i,
            forall|t: int| 0 <= t < i ==> (#[trigger] entries@[t]).0@ == fs[t].rel_path@ && scanned_entry(
                entries@[t].1,
                fs[t],
                scan_imports(fs, fs[t], go),
                scan_reverse_deps(fs, fs[t], go),
                in_cycle(cycles@, fs[t].rel_path@),
            ),
            skipped_covered == count_skipped(fs.take(i as int), false),
            skipped_generated == count_skipped(fs.take(i as int), true),
        decreases files.len() - i,
    {
        let f = &files[i];
        proof {
            assert(fs.take(i + 1).drop_last() =~= fs.take(i as int));
            lemma_count_skipped_le(fs.take(i as int), false);
            lemma_count_skipped_le(fs.take(i as int), true);
        }
        let (skip, skip_reason, bits, package) = match &f.outcome {
            Outcome::Unreadable => (true, Some(owned("unreadable")), 0u64, None),
            Outcome::Generated => {
                skipped_generated = skipped_generated + 1;
                (true, Some(owned("generated")), 0u64, None)
            },
            Outcome::Parsed { coverage_bits, sufficient, package, .. } => {
                if *sufficient {
                    skipped_covered = skipped_covered + 1;
                }
                (
                    *sufficient,
                    if *sufficient { Some(owned("sufficient_coverage")) } else { None },
                    *coverage_bits,
                    copy_opt_string(package),
                )
            },
        };
        let entry = FileEntry {
            path: f.rel_path.clone(),
            language: owned(f.language.as_str()),
            package,
            comment_coverage_bits: bits,
            skip,
            skip_reason,
            cycle_warning: in_cycle_exec(&cycles, f.rel_path.as_str()),
            internal_imports: copy_strings(&imports[i]),
            signatures: outcome_sigs(f),
            scanned_at: None,
            file_kind: file_kind_of_outcome(f),
            reverse_deps: reverse_deps_of_outcome(files, &imports, Ghost(go), i),
        };
        entries.push((f.rel_path.clone(), entry));
        i += 1;
    }
    assert(fs.take(fs.len() as int) =~= fs);

    // the dependency order, without the skipped files
    let mut order: Vec<String> = Vec::new();
    let mut k: usize = 0;
    while k < full_order.len()
        invariant
            k <= full_order@.len(),
            string_views(order@) == unskipped(full_order@.take(k as int), entries@),
        decreases full_order.len() - k,
    {
        assert(full_order@.take(k + 1).drop_last() =~= full_order@.take(k as int));
        let ghost before = order@;
        match find_file(&entries, full_order[k].as_str()) {
            Some(idx) => if !entries[idx].1.skip {
                order.push(full_order[k].clone());
                assert(string_views(order@) =~= string_views(before).push(full_order@[k as int]@));
            },
            None => {},
        }
        k += 1;
    }
    assert(full_order@.take(full_order@.len() as int) =~= full_order@);

    // the languages found, by name
    let mut present: Vec<bool> = vec![false, false, false, false, false, false, false, false, false];
    let mut j: usize = 0;
    while j < files.len()
        invariant
            fs == files@,
            j <= fs.len(),
            present@.len() == 9,
            forall|t: int| 0 <= t < 9 ==> #[trigger] present@[t] == exists|x: int| 0 <= x < j && fs[x].language == languages_by_name()[t],
        decreases files.len() - j,
    {
        let sl = slot(files[j].language);
        present.set(sl, true);
        proof {
            assert forall|t: int| 0 <= t < 9 implies #[trigger] present@[t] == exists|x: int| 0 <= x < j + 1 && fs[x].language == languages_by_name()[t] by {
                if t == sl {
                    assert(fs[j as int].language == languages_by_name()[t]);
                } else {
                    if exists|x: int| 0 <= x < j + 1 && fs[x].language == languages_by_name()[t] {
                        let x = choose|x: int| 0 <= x < j + 1 && fs[x].language == languages_by_name()[t];
                        assert(x < j);
                    }
                }
            }
        }
        j += 1;
    }
    let mut detected: Vec<String> = Vec::new();
    let mut t: usize = 0;
    while t < 9
        invariant
            t <= 9,
            present@.len() == 9,
            forall|x: int| 0 <= x < 9 ==> #[trigger] present@[x] == language_present(fs, languages_by_name()[x]),
            string_views(detected@) == detected_upto(fs, t as int),
        decreases 9 - t,
    {
        let ghost before = detected@;
        if present[t] {
            let l = language_at(t);
            detected.push(owned(l.as_str()));
            assert(string_views(detected@) =~= string_views(before).push(l.spec_name()));
        }
        t += 1;
    }

    let to_comment = order.len();
    proof {
        assert forall|i: int| 0 <= i < fs.len() implies skip_agrees(#[trigger] entries@[i].1, fs[i]) by {
            assert(scanned_entry(entries@[i].1, fs[i], scan_imports(fs, fs[i], go),
                scan_reverse_deps(fs, fs[i], go), in_cycle(cycles@, fs[i].rel_path@)));
        }
        lemma_stats_bound(fs, entries@, full_order@);
        assert(string_views(order@).len() == order@.len());
        assert forall|i: int| 0 <= i < entries@.len() implies ((#[trigger] entries@[i]).1.skip_reason is Some
            ==> entries@[i].1.skip) by {
            assert(scanned_entry(entries@[i].1, fs[i], scan_imports(fs, fs[i], go),
                scan_reverse_deps(fs, fs[i], go), in_cycle(cycles@, fs[i].rel_path@)));
        }
        lemma_unskipped_distinct(full_order@, entries@);
        assert forall|i: int, j: int| 0 <= i < j < order@.len() implies #[trigger] order@[i]@ != #[trigger] order@[j]@ by {
            assert(string_views(order@)[i] == order@[i]@);
            assert(string_views(order@)[j] == order@[j]@);
        }
    }
    let stats = Stats { total_files: files.len(), skipped_covered, skipped_generated, to_comment };
    let cache = CacheFile {
        version: 1,
        scanned_at: owned(scanned_at),
        project_root: owned(project_root),
        detected_languages: detected,
        stats,
        min_docstring_words,
        order,
        files: entries,
    };
    ScanParts { cache, graph, full_order, cycles }
}
} // verus!
