//! Character-sequence helpers shared by the library: conversions between
//! `str`/`String` and `Vec<char>`, and the trimming, prefix and splitting
//! operations the scanner performs, each with a spec over `Seq<char>`.

use vstd::prelude::*;

verus! {

broadcast use vstd::string::group_string_axioms;

// ─── specs ───────────────────────────────────────────────────────────────────

/// Unicode `White_Space`, the property that `char::is_whitespace` tests.
pub open spec fn is_ws(c: char) -> bool {
    ('\u{9}' <= c && c <= '\u{D}') || c == ' ' || c == '\u{85}' || c == '\u{A0}' || c == '\u{1680}'
        || ('\u{2000}' <= c && c <= '\u{200A}') || c == '\u{2028}' || c == '\u{2029}'
        || c == '\u{202F}' || c == '\u{205F}' || c == '\u{3000}'
}

pub open spec fn starts_with(s: Seq<char>, p: Seq<char>) -> bool {
    p.len() <= s.len() && s.take(p.len() as int) == p
}

pub open spec fn ends_with(s: Seq<char>, p: Seq<char>) -> bool {
    p.len() <= s.len() && s.skip(s.len() - p.len()) == p
}

/// `str::trim_start`.
pub open spec fn trim_start(s: Seq<char>) -> Seq<char>
    decreases s.len(),
{
    if s.len() > 0 && is_ws(s[0]) {
        trim_start(s.drop_first())
    } else {
        s
    }
}

/// `str::trim_end`.
pub open spec fn trim_end(s: Seq<char>) -> Seq<char>
    decreases s.len(),
{
    if s.len() > 0 && is_ws(s.last()) {
        trim_end(s.drop_last())
    } else {
        s
    }
}

/// `str::trim`.
pub open spec fn trim(s: Seq<char>) -> Seq<char> {
    trim_end(trim_start(s))
}

/// `str::trim_start_matches` with a string pattern: removes every leading
/// repetition of `p` (nothing for an empty `p`).
pub open spec fn trim_start_matches(s: Seq<char>, p: Seq<char>) -> Seq<char>
    decreases s.len(),
{
    if p.len() > 0 && starts_with(s, p) {
        trim_start_matches(s.skip(p.len() as int), p)
    } else {
        s
    }
}

/// `str::trim_end_matches` with a string pattern (nothing for an empty `p`).
pub open spec fn trim_end_matches(s: Seq<char>, p: Seq<char>) -> Seq<char>
    decreases s.len(),
{
    if p.len() > 0 && ends_with(s, p) {
        trim_end_matches(s.take(s.len() - p.len()), p)
    } else {
        s
    }
}

/// Number of maximal runs of non-whitespace characters (`split_whitespace().count()`).
pub open spec fn word_count(s: Seq<char>) -> nat
    decreases s.len(),
{
    if s.len() == 0 {
        0
    } else {
        word_count(s.drop_last()) + if !is_ws(s.last()) && (s.len() == 1 || is_ws(s[s.len() - 2])) {
            1nat
        } else {
            0nat
        }
    }
}

/// The pieces of `s` between occurrences of `sep` (`str::split` with a char).
pub open spec fn split_on(s: Seq<char>, sep: char) -> Seq<Seq<char>>
    decreases s.len(),
{
    if s.len() == 0 {
        seq![Seq::empty()]
    } else {
        let rest = split_on(s.drop_last(), sep);
        if s.last() == sep {
            rest.push(Seq::empty())
        } else {
            rest.update(rest.len() - 1, rest.last().push(s.last()))
        }
    }
}

/// `s` with every `from` replaced by the sequence `to`.
pub open spec fn replace_char(s: Seq<char>, from: char, to: Seq<char>) -> Seq<char>
    decreases s.len(),
{
    if s.len() == 0 {
        Seq::empty()
    } else {
        replace_char(s.drop_last(), from, to) + if s.last() == from {
            to
        } else {
            seq![s.last()]
        }
    }
}

/// Pieces joined with `sep` between them.
pub open spec fn join(parts: Seq<Seq<char>>, sep: Seq<char>) -> Seq<char>
    decreases parts.len(),
{
    if parts.len() == 0 {
        Seq::empty()
    } else if parts.len() == 1 {
        parts[0]
    } else {
        join(parts.drop_last(), sep) + sep + parts.last()
    }
}

/// Lexicographic order on code points, which is the order of `str`/`String`
/// (byte order of UTF-8 agrees with code-point order).
pub open spec fn seq_lt(a: Seq<char>, b: Seq<char>) -> bool
    decreases a.len(),
{
    if a.len() == 0 {
        b.len() > 0
    } else if b.len() == 0 {
        false
    } else if a[0] != b[0] {
        a[0] < b[0]
    } else {
        seq_lt(a.drop_first(), b.drop_first())
    }
}

pub open spec fn opt_view(o: Option<String>) -> Option<Seq<char>> {
    match o {
        Some(s) => Some(s@),
        None => None,
    }
}

pub open spec fn string_views(v: Seq<String>) -> Seq<Seq<char>> {
    v.map_values(|s: String| s@)
}

// ─── lemmas ─────────────────────────────────────────────────────────────────

pub proof fn lemma_seq_lt_irrefl(a: Seq<char>)
    ensures
        !seq_lt(a, a),
    decreases a.len(),
{
    if a.len() > 0 {
        assert(a.drop_first() == a.drop_first());
        lemma_seq_lt_irrefl(a.drop_first());
    }
}

pub proof fn lemma_seq_lt_trans(a: Seq<char>, b: Seq<char>, c: Seq<char>)
    requires
        seq_lt(a, b),
        seq_lt(b, c),
    ensures
        seq_lt(a, c),
    decreases a.len(),
{
    if a.len() > 0 && b.len() > 0 && c.len() > 0 && a[0] == b[0] && b[0] == c[0] {
        lemma_seq_lt_trans(a.drop_first(), b.drop_first(), c.drop_first());
    }
}

pub proof fn lemma_seq_lt_total(a: Seq<char>, b: Seq<char>)
    ensures
        a == b || seq_lt(a, b) || seq_lt(b, a),
    decreases a.len(),
{
    if a.len() > 0 && b.len() > 0 {
        if a[0] == b[0] {
            lemma_seq_lt_total(a.drop_first(), b.drop_first());
            if a.drop_first() == b.drop_first() {
                assert(a =~= seq![a[0]] + a.drop_first());
                assert(b =~= seq![b[0]] + b.drop_first());
            }
        } else {
            assert(a[0] != b[0]);
        }
    } else if a.len() == 0 && b.len() == 0 {
        assert(a =~= b);
    }
}

pub proof fn lemma_seq_lt_asym(a: Seq<char>, b: Seq<char>)
    requires
        seq_lt(a, b),
    ensures
        !seq_lt(b, a),
{
    if seq_lt(b, a) {
        lemma_seq_lt_trans(a, b, a);
        lemma_seq_lt_irrefl(a);
    }
}

pub open spec fn sum_lens(parts: Seq<Seq<char>>) -> nat
    decreases parts.len(),
{
    if parts.len() == 0 {
        0
    } else {
        sum_lens(parts.drop_last()) + parts.last().len()
    }
}

pub proof fn lemma_trim_start_len(s: Seq<char>)
    ensures
        trim_start(s).len() <= s.len(),
    decreases s.len(),
{
    if s.len() > 0 && is_ws(s[0]) {
        lemma_trim_start_len(s.drop_first());
    }
}

pub proof fn lemma_trim_end_len(s: Seq<char>)
    ensures
        trim_end(s).len() <= s.len(),
    decreases s.len(),
{
    if s.len() > 0 && is_ws(s.last()) {
        lemma_trim_end_len(s.drop_last());
    }
}

pub proof fn lemma_trim_len(s: Seq<char>)
    ensures
        trim(s).len() <= s.len(),
{
    lemma_trim_start_len(s);
    lemma_trim_end_len(trim_start(s));
}

pub proof fn lemma_trim_start_matches_len(s: Seq<char>, p: Seq<char>)
    ensures
        trim_start_matches(s, p).len() <= s.len(),
    decreases s.len(),
{
    if p.len() > 0 && starts_with(s, p) {
        lemma_trim_start_matches_len(s.skip(p.len() as int), p);
    }
}

pub proof fn lemma_trim_end_matches_len(s: Seq<char>, p: Seq<char>)
    ensures
        trim_end_matches(s, p).len() <= s.len(),
    decreases s.len(),
{
    if p.len() > 0 && ends_with(s, p) {
        lemma_trim_end_matches_len(s.take(s.len() - p.len()), p);
    }
}

pub proof fn lemma_word_count_le(s: Seq<char>)
    ensures
        word_count(s) <= s.len(),
    decreases s.len(),
{
    if s.len() > 0 {
        lemma_word_count_le(s.drop_last());
    }
}

pub proof fn lemma_split_lens(s: Seq<char>, sep: char)
    ensures
        sum_lens(split_on(s, sep)) <= s.len(),
        split_on(s, sep).len() >= 1,
    decreases s.len(),
{
    if s.len() == 0 {
        assert(split_on(s, sep).drop_last() =~= Seq::<Seq<char>>::empty());
        assert(sum_lens(split_on(s, sep)) == sum_lens(Seq::<Seq<char>>::empty()) + 0);
    } else {
        lemma_split_lens(s.drop_last(), sep);
        let rest = split_on(s.drop_last(), sep);
        if s.last() == sep {
            let pushed = rest.push(Seq::<char>::empty());
            assert(pushed.drop_last() =~= rest);
            assert(sum_lens(pushed) == sum_lens(rest) + 0);
        } else {
            let upd = rest.update(rest.len() - 1, rest.last().push(s.last()));
            assert(upd.drop_last() =~= rest.drop_last());
            assert(sum_lens(rest) == sum_lens(rest.drop_last()) + rest.last().len());
            assert(sum_lens(upd) == sum_lens(upd.drop_last()) + upd.last().len());
        }
    }
}

/// Splitting text made of two parts joined by the separator gives the
/// pieces of the first part, then those of the second.
pub proof fn lemma_split_concat(a: Seq<char>, b: Seq<char>, sep: char)
    ensures
        split_on(a + seq![sep] + b, sep) == split_on(a, sep) + split_on(b, sep),
    decreases b.len(),
{
    let s = a + seq![sep] + b;
    if b.len() == 0 {
        assert(s =~= a.push(sep));
        assert(s.drop_last() =~= a);
        assert(split_on(b, sep) =~= seq![Seq::<char>::empty()]);
        assert(split_on(s, sep) =~= split_on(a, sep) + split_on(b, sep));
    } else {
        let b0 = b.drop_last();
        lemma_split_concat(a, b0, sep);
        lemma_split_lens(b0, sep);
        assert(s.drop_last() =~= a + seq![sep] + b0);
        assert(s.last() == b.last());
        let ra = split_on(a, sep);
        let rb = split_on(b0, sep);
        if b.last() == sep {
            assert(split_on(s, sep) =~= ra + rb.push(Seq::<char>::empty()));
        } else {
            let rest = ra + rb;
            assert(rest.last() == rb.last());
            assert(split_on(s, sep) =~= ra + rb.update(rb.len() - 1, rb.last().push(b.last())));
        }
    }
}

/// No piece of a split holds the separator.
pub proof fn lemma_split_pieces(s: Seq<char>, sep: char)
    ensures
        forall|i: int| 0 <= i < split_on(s, sep).len() ==> !(#[trigger] split_on(s, sep)[i]).contains(sep),
    decreases s.len(),
{
    if s.len() > 0 {
        lemma_split_pieces(s.drop_last(), sep);
        lemma_split_lens(s.drop_last(), sep);
        let rest = split_on(s.drop_last(), sep);
        if s.last() != sep {
            let r = split_on(s, sep);
            assert forall|i: int| 0 <= i < r.len() implies !(#[trigger] r[i]).contains(sep) by {
                if i == rest.len() - 1 {
                    let l = rest.last().push(s.last());
                    assert(r[i] == l);
                    if l.contains(sep) {
                        let k = choose|k: int| 0 <= k < l.len() && l[k] == sep;
                        assert(rest.last()[k] == sep);
                        assert(rest[rest.len() - 1].contains(sep));
                    }
                } else {
                    assert(r[i] == rest[i]);
                }
            }
        } else {
            let r = split_on(s, sep);
            assert forall|i: int| 0 <= i < r.len() implies !(#[trigger] r[i]).contains(sep) by {
                if i < rest.len() {
                    assert(r[i] == rest[i]);
                }
            }
        }
    }
}

/// Text without the separator is a single piece.
pub proof fn lemma_split_single(c: Seq<char>, sep: char)
    requires
        !c.contains(sep),
    ensures
        split_on(c, sep) == seq![c],
    decreases c.len(),
{
    if c.len() == 0 {
        assert(c =~= Seq::<char>::empty());
        assert(split_on(c, sep) =~= seq![c]);
    } else {
        let c0 = c.drop_last();
        assert(!c0.contains(sep)) by {
            if c0.contains(sep) {
                let k = choose|k: int| 0 <= k < c0.len() && c0[k] == sep;
                assert(c[k] == sep);
            }
        }
        lemma_split_single(c0, sep);
        assert(c.last() != sep) by {
            assert(c[c.len() - 1] == c.last());
        }
        assert(c0.push(c.last()) =~= c);
        assert(split_on(c, sep) =~= seq![c]);
    }
}

/// Splitting pieces joined by the separator gives the pieces back, where
/// none holds the separator.
pub proof fn lemma_split_join(cs: Seq<Seq<char>>, sep: char)
    requires
        cs.len() >= 1,
        forall|i: int| 0 <= i < cs.len() ==> !(#[trigger] cs[i]).contains(sep),
    ensures
        split_on(join(cs, seq![sep]), sep) == cs,
    decreases cs.len(),
{
    if cs.len() == 1 {
        lemma_split_single(cs[0], sep);
        assert(seq![cs[0]] =~= cs);
    } else {
        let c0 = cs.drop_last();
        assert forall|i: int| 0 <= i < c0.len() implies !(#[trigger] c0[i]).contains(sep) by {
            assert(c0[i] == cs[i]);
        }
        lemma_split_join(c0, sep);
        lemma_split_concat(join(c0, seq![sep]), cs.last(), sep);
        assert(!cs[cs.len() - 1].contains(sep));
        lemma_split_single(cs.last(), sep);
        assert(cs =~= c0 + seq![cs.last()]);
    }
}

// ─── conversions ─────────────────────────────────────────────────────────────

/// The characters of `s`, in order.
pub fn chars_of(s: &str) -> (r: Vec<char>)
    ensures
        r@ == s@,
{
    let mut r: Vec<char> = Vec::new();
    for c in it: s.chars()
        invariant
            r.len() == it.index(),
            it.seq() == s@,
            forall|i: int| 0 <= i < r.len() ==> r@[i] == s@[i],
    {
        r.push(c);
    }
    assert(r@ =~= s@);
    r
}

/// Appends one character (`String::push`).
#[verifier::external_body]
fn push_char(s: &mut String, c: char)
    ensures
        final(s)@ == old(s)@.push(c),
{
    s.push(c)
}

/// The string made of the characters of `v`.
pub fn string_of(v: &[char]) -> (r: String)
    ensures
        r@ == v@,
{
    let mut r = String::new();
    let mut i: usize = 0;
    while i < v.len()
        invariant
            i <= v.len(),
            r@ == v@.take(i as int),
        decreases v.len() - i,
    {
        push_char(&mut r, v[i]);
        i += 1;
        assert(r@ =~= v@.take(i as int));
    }
    assert(v@.take(v.len() as int) =~= v@);
    r
}

/// Copy of a `str` as an owned `String`.
pub fn owned(s: &str) -> (r: String)
    ensures
        r@ == s@,
{
    s.to_owned()
}

/// String equality (`<str as PartialEq>::eq`).
#[verifier::external_body]
pub(crate) fn str_eq(a: &str, b: &str) -> (r: bool)
    ensures
        r == (a@ == b@),
{
    a == b
}

/// Character-sequence equality.
pub fn chars_eq(a: &[char], b: &[char]) -> (r: bool)
    ensures
        r == (a@ == b@),
{
    if a.len() != b.len() {
        return false;
    }
    let mut i: usize = 0;
    while i < a.len()
        invariant
            a.len() == b.len(),
            i <= a.len(),
            forall|j: int| 0 <= j < i ==> a@[j] == b@[j],
        decreases a.len() - i,
    {
        if a[i] != b[i] {
            return false;
        }
        i += 1;
    }
    assert(a@ =~= b@);
    true
}

/// `a < b` in the order of `str`.
pub fn chars_lt(a: &[char], b: &[char]) -> (r: bool)
    ensures
        r == seq_lt(a@, b@),
{
    let mut i: usize = 0;
    assert(a@.skip(0) =~= a@);
    assert(b@.skip(0) =~= b@);
    while i < a.len() && i < b.len()
        invariant
            i <= a.len(),
            i <= b.len(),
            a@.take(i as int) == b@.take(i as int),
            seq_lt(a@, b@) == seq_lt(a@.skip(i as int), b@.skip(i as int)),
        decreases a.len() - i,
    {
        if a[i] != b[i] {
            let r = a[i] < b[i];
            proof {
                let sa = a@.skip(i as int);
                let sb = b@.skip(i as int);
                assert(sa[0] == a@[i as int]);
                assert(sb[0] == b@[i as int]);
                assert(sa.len() > 0 && sb.len() > 0);
                assert(seq_lt(sa, sb) == (sa[0] < sb[0]));
            }
            return r;
        }
        assert(a@.skip(i as int).drop_first() =~= a@.skip(i + 1));
        assert(b@.skip(i as int).drop_first() =~= b@.skip(i + 1));
        assert(a@.take(i + 1) =~= a@.take(i as int).push(a@[i as int]));
        assert(b@.take(i + 1) =~= b@.take(i as int).push(b@[i as int]));
        i += 1;
    }
    i < b.len()
}

/// `a < b` in the order of `str`.
pub fn str_lt(a: &str, b: &str) -> (r: bool)
    ensures
        r == seq_lt(a@, b@),
{
    let ca = chars_of(a);
    let cb = chars_of(b);
    chars_lt(ca.as_slice(), cb.as_slice())
}

/// Unicode `Uppercase` property (`char::is_uppercase`).
pub uninterp spec fn char_is_uppercase(c: char) -> bool;

/// `char::is_uppercase`; the contract names its result.
#[verifier::external_body]
pub(crate) fn is_uppercase(c: char) -> (r: bool)
    ensures
        r == char_is_uppercase(c),
{
    c.is_uppercase()
}

/// `char::is_whitespace`.
pub fn is_whitespace(c: char) -> (r: bool)
    ensures
        r == is_ws(c),
{
    ('\u{9}' <= c && c <= '\u{D}') || c == ' ' || c == '\u{85}' || c == '\u{A0}' || c == '\u{1680}'
        || ('\u{2000}' <= c && c <= '\u{200A}') || c == '\u{2028}' || c == '\u{2029}'
        || c == '\u{202F}' || c == '\u{205F}' || c == '\u{3000}'
}

// ─── operations on character vectors ────────────────────────────────────────

/// `v[from..to]` as a new vector.
pub fn slice_chars(v: &[char], from: usize, to: usize) -> (r: Vec<char>)
    requires
        from <= to <= v.len(),
    ensures
        r@ == v@.subrange(from as int, to as int),
{
    let mut r: Vec<char> = Vec::new();
    let mut i = from;
    while i < to
        invariant
            from <= i <= to <= v.len(),
            r@ == v@.subrange(from as int, i as int),
        decreases to - i,
    {
        r.push(v[i]);
        i += 1;
        assert(r@ =~= v@.subrange(from as int, i as int));
    }
    r
}

pub fn starts_with_chars(s: &[char], p: &[char]) -> (r: bool)
    ensures
        r == starts_with(s@, p@),
{
    if p.len() > s.len() {
        return false;
    }
    let mut i: usize = 0;
    while i < p.len()
        invariant
            p.len() <= s.len(),
            i <= p.len(),
            forall|j: int| 0 <= j < i ==> s@[j] == p@[j],
        decreases p.len() - i,
    {
        if s[i] != p[i] {
            assert(s@.take(p.len() as int)[i as int] != p@[i as int]);
            return false;
        }
        i += 1;
    }
    assert(s@.take(p.len() as int) =~= p@);
    true
}

pub fn ends_with_chars(s: &[char], p: &[char]) -> (r: bool)
    ensures
        r == ends_with(s@, p@),
{
    if p.len() > s.len() {
        return false;
    }
    let off = s.len() - p.len();
    let mut i: usize = 0;
    while i < p.len()
        invariant
            p.len() <= s.len(),
            off == s.len() - p.len(),
            i <= p.len(),
            forall|j: int| 0 <= j < i ==> s@[off + j] == p@[j],
        decreases p.len() - i,
    {
        if s[off + i] != p[i] {
            assert(s@.skip(off as int)[i as int] != p@[i as int]);
            return false;
        }
        i += 1;
    }
    assert(s@.skip(off as int) =~= p@);
    true
}

pub fn starts_with_str(s: &[char], p: &str) -> (r: bool)
    ensures
        r == starts_with(s@, p@),
{
    let pc = chars_of(p);
    starts_with_chars(s, pc.as_slice())
}

pub fn ends_with_str(s: &[char], p: &str) -> (r: bool)
    ensures
        r == ends_with(s@, p@),
{
    let pc = chars_of(p);
    ends_with_chars(s, pc.as_slice())
}

proof fn lemma_trim_start_skip(s: Seq<char>, i: int)
    requires
        0 <= i <= s.len(),
        forall|j: int| 0 <= j < i ==> is_ws(s[j]),
    ensures
        trim_start(s) == trim_start(s.skip(i)),
    decreases i,
{
    if i > 0 {
        assert(s.drop_first().skip(i - 1) =~= s.skip(i));
        lemma_trim_start_skip(s.drop_first(), i - 1);
    } else {
        assert(s.skip(0) =~= s);
    }
}

proof fn lemma_trim_end_take(s: Seq<char>, i: int)
    requires
        0 <= i <= s.len(),
        forall|j: int| i <= j < s.len() ==> is_ws(s[j]),
    ensures
        trim_end(s) == trim_end(s.take(i)),
    decreases s.len() - i,
{
    if i < s.len() {
        assert(s.drop_last().take(i) =~= s.take(i));
        lemma_trim_end_take(s.drop_last(), i);
    } else {
        assert(s.take(i) =~= s);
    }
}

/// `str::trim` on characters.
pub fn trim_chars(s: &[char]) -> (r: Vec<char>)
    ensures
        r@ == trim(s@),
{
    let mut a: usize = 0;
    while a < s.len() && is_whitespace(s[a])
        invariant
            a <= s.len(),
            forall|j: int| 0 <= j < a ==> is_ws(s@[j]),
        decreases s.len() - a,
    {
        a += 1;
    }
    proof {
        lemma_trim_start_skip(s@, a as int);
    }
    let mut b: usize = s.len();
    while b > a && is_whitespace(s[b - 1])
        invariant
            a <= b <= s.len(),
            forall|j: int| b <= j < s.len() ==> is_ws(s@[j]),
        decreases b,
    {
        b -= 1;
    }
    let ghost t = s@.skip(a as int);
    proof {
        if a < s.len() {
            assert(!is_ws(t[0]));
        }
        assert(trim_start(t) == t);
        assert forall|j: int| b - a <= j < t.len() implies is_ws(t[j]) by {}
        lemma_trim_end_take(t, b - a);
        assert(t.take(b - a) =~= s@.subrange(a as int, b as int));
        let u = s@.subrange(a as int, b as int);
        if u.len() > 0 {
            assert(!is_ws(u.last()));
        }
    }
    slice_chars(s, a, b)
}

/// `str::trim_start_matches` on characters (an empty pattern removes nothing).
pub fn trim_start_matches_chars(s: &[char], p: &[char]) -> (r: Vec<char>)
    ensures
        r@ == trim_start_matches(s@, p@),
{
    let mut cur: Vec<char> = slice_chars(s, 0, s.len());
    assert(cur@ =~= s@);
    if p.len() == 0 {
        return cur;
    }
    loop
        invariant
            p.len() > 0,
            trim_start_matches(cur@, p@) == trim_start_matches(s@, p@),
        decreases cur.len(),
    {
        if starts_with_chars(cur.as_slice(), p) {
            let next = slice_chars(cur.as_slice(), p.len(), cur.len());
            assert(next@ =~= cur@.skip(p.len() as int));
            cur = next;
        } else {
            return cur;
        }
    }
}

/// `str::trim_end_matches` on characters (an empty pattern removes nothing).
pub fn trim_end_matches_chars(s: &[char], p: &[char]) -> (r: Vec<char>)
    ensures
        r@ == trim_end_matches(s@, p@),
{
    let mut cur: Vec<char> = slice_chars(s, 0, s.len());
    assert(cur@ =~= s@);
    if p.len() == 0 {
        return cur;
    }
    loop
        invariant
            p.len() > 0,
            trim_end_matches(cur@, p@) == trim_end_matches(s@, p@),
        decreases cur.len(),
    {
        if ends_with_chars(cur.as_slice(), p) {
            let next = slice_chars(cur.as_slice(), 0, cur.len() - p.len());
            assert(next@ =~= cur@.take(cur.len() - p.len()));
            cur = next;
        } else {
            return cur;
        }
    }
}

/// `split_whitespace().count()` on characters.
pub fn count_words(s: &[char]) -> (r: usize)
    ensures
        r == word_count(s@),
{
    let mut n: usize = 0;
    let mut i: usize = 0;
    while i < s.len()
        invariant
            i <= s.len(),
            n == word_count(s@.take(i as int)),
            n <= i,
        decreases s.len() - i,
    {
        let starts = !is_whitespace(s[i]) && (i == 0 || is_whitespace(s[i - 1]));
        proof {
            let t = s@.take(i + 1);
            assert(t.drop_last() =~= s@.take(i as int));
            assert(t.last() == s@[i as int]);
            if i > 0 {
                assert(t[t.len() - 2] == s@[i - 1]);
            }
        }
        if starts {
            n += 1;
        }
        i += 1;
    }
    assert(s@.take(s.len() as int) =~= s@);
    n
}

/// Pieces of `s` between occurrences of `sep`.
pub fn split_chars(s: &[char], sep: char) -> (r: Vec<Vec<char>>)
    ensures
        r@.len() == split_on(s@, sep).len(),
        forall|i: int| 0 <= i < r@.len() ==> #[trigger] r@[i]@ == split_on(s@, sep)[i],
{
    let mut r: Vec<Vec<char>> = Vec::new();
    let mut cur: Vec<char> = Vec::new();
    let mut i: usize = 0;
    while i < s.len()
        invariant
            i <= s.len(),
            r@.len() + 1 == split_on(s@.take(i as int), sep).len(),
            forall|k: int| 0 <= k < r@.len() ==> #[trigger] r@[k]@ == split_on(s@.take(i as int), sep)[k],
            cur@ == split_on(s@.take(i as int), sep).last(),
        decreases s.len() - i,
    {
        let ghost prev = split_on(s@.take(i as int), sep);
        let ghost r0 = r@;
        proof {
            assert(s@.take(i + 1).drop_last() =~= s@.take(i as int));
        }
        if s[i] == sep {
            r.push(cur);
            cur = Vec::new();
        } else {
            cur.push(s[i]);
        }
        i += 1;
        proof {
            let next = split_on(s@.take(i as int), sep);
            assert forall|k: int| 0 <= k < r@.len() implies #[trigger] r@[k]@ == next[k] by {
                if k < prev.len() - 1 {
                    assert(r@[k] == r0[k]);
                }
            }
        }
    }
    r.push(cur);
    assert(s@.take(s.len() as int) =~= s@);
    r
}

/// Views of a vector of character vectors.
pub open spec fn views(v: Seq<Vec<char>>) -> Seq<Seq<char>> {
    v.map_values(|x: Vec<char>| x@)
}

/// Pieces joined with `sep` between them.
pub fn join_chars(parts: &Vec<Vec<char>>, sep: &[char]) -> (r: Vec<char>)
    ensures
        r@ == join(views(parts@), sep@),
{
    let mut r: Vec<char> = Vec::new();
    let mut i: usize = 0;
    while i < parts.len()
        invariant
            i <= parts@.len(),
            r@ == join(views(parts@).take(i as int), sep@),
        decreases parts.len() - i,
    {
        let ghost before = r@;
        if i > 0 {
            r.extend_from_slice(sep);
        }
        r.extend_from_slice(parts[i].as_slice());
        proof {
            let t = views(parts@).take(i + 1);
            assert(t.drop_last() =~= views(parts@).take(i as int));
            assert(t.last() == parts@[i as int]@);
            if i == 0 {
                assert(t.len() == 1);
                assert(r@ =~= t[0]);
            } else {
                assert(r@ =~= before + sep@ + t.last());
            }
        }
        i += 1;
    }
    assert(views(parts@).take(parts@.len() as int) =~= views(parts@));
    r
}

/// `s` with every `from` replaced by `to`.
pub fn replace_char_chars(s: &[char], from: char, to: &[char]) -> (r: Vec<char>)
    ensures
        r@ == replace_char(s@, from, to@),
{
    let mut r: Vec<char> = Vec::new();
    let mut i: usize = 0;
    while i < s.len()
        invariant
            i <= s.len(),
            r@ == replace_char(s@.take(i as int), from, to@),
        decreases s.len() - i,
    {
        if s[i] == from {
            r.extend_from_slice(to);
        } else {
            r.push(s[i]);
        }
        proof {
            assert(s@.take(i + 1).drop_last() =~= s@.take(i as int));
            assert(s@.take(i + 1).last() == s@[i as int]);
        }
        i += 1;
        assert(r@ =~= replace_char(s@.take(i as int), from, to@));
    }
    assert(s@.take(s.len() as int) =~= s@);
    r
}

/// `a` followed by `b`.
pub fn concat_chars(a: &[char], b: &[char]) -> (r: Vec<char>)
    ensures
        r@ == a@ + b@,
{
    let mut r: Vec<char> = Vec::new();
    r.extend_from_slice(a);
    r.extend_from_slice(b);
    assert(r@ =~= a@ + b@);
    r
}

/// `m` occurs in `s` at position `k`.
pub open spec fn occurs_at(s: Seq<char>, m: Seq<char>, k: int) -> bool {
    0 <= k && k + m.len() <= s.len() && s.subrange(k, k + m.len()) == m
}

/// `m` occurs somewhere in `s` (`str::contains`).
pub open spec fn has_infix(s: Seq<char>, m: Seq<char>) -> bool {
    exists|k: int| occurs_at(s, m, k)
}

/// Whether `m` occurs in `s`.
pub fn contains_chars(s: &[char], m: &[char]) -> (r: bool)
    ensures
        r == has_infix(s@, m@),
{
    if m.len() > s.len() {
        assert forall|k: int| !occurs_at(s@, m@, k) by {}
        return false;
    }
    if m.len() == 0 {
        assert(s@.subrange(0, 0) =~= m@);
        assert(occurs_at(s@, m@, 0));
        return true;
    }
    let limit = s.len() - m.len();
    let mut k: usize = 0;
    while k <= limit
        invariant
            limit + m@.len() == s@.len(),
            m@.len() > 0,
            forall|j: int| 0 <= j < k ==> !occurs_at(s@, m@, j),
        decreases limit + 1 - k,
    {
        let mut same = true;
        let mut j: usize = 0;
        while j < m.len()
            invariant
                k + m@.len() <= s@.len(),
                s@.len() == s.len(),
                m@.len() == m.len(),
                j <= m@.len(),
                same == (forall|t: int| 0 <= t < j ==> s@[k + t] == m@[t]),
            decreases m.len() - j,
        {
            if s[k + j] != m[j] {
                same = false;
            }
            j += 1;
        }
        if same {
            assert(s@.subrange(k as int, k + m@.len()) =~= m@);
            assert(occurs_at(s@, m@, k as int));
            return true;
        }
        proof {
            if occurs_at(s@, m@, k as int) {
                assert forall|t: int| 0 <= t < m@.len() implies s@[k + t] == m@[t] by {
                    assert(s@.subrange(k as int, k + m@.len())[t] == s@[k + t]);
                }
            }
        }
        k += 1;
    }
    proof {
        assert forall|j: int| !occurs_at(s@, m@, j) by {
            if 0 <= j && j + m@.len() <= s@.len() {
                assert(j < k);
            }
        }
    }
    false
}

/// The decimal digits of `n`, as `{}` prints it.
pub open spec fn decimal(n: nat) -> Seq<char>
    decreases n,
{
    if n < 10 {
        seq![digit_char(n)]
    } else {
        decimal(n / 10).push(digit_char(n % 10))
    }
}

pub open spec fn digit_char(d: nat) -> char {
    if d == 0 { '0' } else if d == 1 { '1' } else if d == 2 { '2' } else if d == 3 { '3' } else if d == 4 { '4' }
    else if d == 5 { '5' } else if d == 6 { '6' } else if d == 7 { '7' } else if d == 8 { '8' } else { '9' }
}

fn digit(d: usize) -> (r: char)
    requires
        d < 10,
    ensures
        r == digit_char(d as nat),
{
    if d == 0 { '0' } else if d == 1 { '1' } else if d == 2 { '2' } else if d == 3 { '3' } else if d == 4 { '4' }
    else if d == 5 { '5' } else if d == 6 { '6' } else if d == 7 { '7' } else if d == 8 { '8' } else { '9' }
}

/// `n` in decimal.
pub fn decimal_string(n: usize) -> (r: String)
    ensures
        r@ == decimal(n as nat),
    decreases n,
{
    if n < 10 {
        let mut r = String::new();
        push_char(&mut r, digit(n));
        assert(r@ =~= seq![digit_char(n as nat)]);
        r
    } else {
        let mut r = decimal_string(n / 10);
        push_char(&mut r, digit(n % 10));
        r
    }
}

/// The strings are in strictly increasing order.
pub open spec fn strictly_sorted(v: Seq<String>) -> bool {
    forall|a: int, b: int| 0 <= a < b < v.len() ==> seq_lt(#[trigger] v[a]@, #[trigger] v[b]@)
}

pub open spec fn holds(v: Seq<String>, s: Seq<char>) -> bool {
    exists|j: int| 0 <= j < v.len() && v[j]@ == s
}

/// Two strictly increasing lists holding the same strings are the same list.
pub proof fn lemma_sorted_same_members(v1: Seq<String>, v2: Seq<String>)
    requires
        strictly_sorted(v1),
        strictly_sorted(v2),
        forall|x: Seq<char>| holds(v1, x) <==> holds(v2, x),
    ensures
        string_views(v1) == string_views(v2),
    decreases v1.len(),
{
    if v1.len() == 0 {
        if v2.len() > 0 {
            assert(holds(v2, v2[0]@));
        }
        assert(string_views(v1) =~= string_views(v2));
    } else {
        assert(holds(v1, v1[0]@));
        let j = choose|j: int| 0 <= j < v2.len() && v2[j]@ == v1[0]@;
        assert(holds(v2, v2[0]@));
        let i = choose|i: int| 0 <= i < v1.len() && v1[i]@ == v2[0]@;
        if j > 0 {
            assert(seq_lt(v2[0]@, v2[j]@));
            if i > 0 {
                assert(seq_lt(v1[0]@, v1[i]@));
                lemma_seq_lt_asym(v1[0]@, v2[0]@);
            } else {
                lemma_seq_lt_irrefl(v1[0]@);
            }
        }
        assert(v1[0]@ == v2[0]@);
        let t1 = v1.drop_first();
        let t2 = v2.drop_first();
        assert forall|x: Seq<char>| holds(t1, x) <==> holds(t2, x) by {
            if holds(t1, x) {
                let a = choose|a: int| 0 <= a < t1.len() && t1[a]@ == x;
                assert(v1[a + 1]@ == x);
                assert(holds(v1, x));
                let b = choose|b: int| 0 <= b < v2.len() && v2[b]@ == x;
                if b == 0 {
                    assert(seq_lt(v1[0]@, v1[a + 1]@));
                    lemma_seq_lt_irrefl(x);
                }
                assert(t2[b - 1]@ == x);
            }
            if holds(t2, x) {
                let a = choose|a: int| 0 <= a < t2.len() && t2[a]@ == x;
                assert(v2[a + 1]@ == x);
                assert(holds(v2, x));
                let b = choose|b: int| 0 <= b < v1.len() && v1[b]@ == x;
                if b == 0 {
                    assert(seq_lt(v2[0]@, v2[a + 1]@));
                    lemma_seq_lt_irrefl(x);
                }
                assert(t1[b - 1]@ == x);
            }
        }
        assert(strictly_sorted(t1)) by {
            assert forall|a: int, b: int| 0 <= a < b < t1.len() implies seq_lt(#[trigger] t1[a]@, #[trigger] t1[b]@) by {
                assert(t1[a] == v1[a + 1] && t1[b] == v1[b + 1]);
            }
        }
        assert(strictly_sorted(t2)) by {
            assert forall|a: int, b: int| 0 <= a < b < t2.len() implies seq_lt(#[trigger] t2[a]@, #[trigger] t2[b]@) by {
                assert(t2[a] == v2[a + 1] && t2[b] == v2[b + 1]);
            }
        }
        lemma_sorted_same_members(t1, t2);
        assert(string_views(t1).len() == string_views(t2).len());
        assert forall|k: int| 0 <= k < v1.len() implies #[trigger] string_views(v1)[k] == string_views(v2)[k] by {
            if k > 0 {
                assert(string_views(t1)[k - 1] == string_views(t2)[k - 1]);
            }
        }
        assert(string_views(v1) =~= string_views(v2));
    }
}

/// Adds `s` to a strictly increasing list of strings, where it is missing.
pub fn insert_sorted(v: &mut Vec<String>, s: &str)
    requires
        strictly_sorted(old(v)@),
    ensures
        strictly_sorted(final(v)@),
        forall|x: Seq<char>| holds(final(v)@, x) <==> (holds(old(v)@, x) || x == s@),
{
    let mut i: usize = 0;
    while i < v.len() && str_lt(v[i].as_str(), s)
        invariant
            i <= v@.len(),
            forall|j: int| 0 <= j < i ==> seq_lt(#[trigger] v@[j]@, s@),
            strictly_sorted(v@),
        decreases v.len() - i,
    {
        i += 1;
    }
    if i < v.len() && str_eq(v[i].as_str(), s) {
        return;
    }
    let ghost old_v = v@;
    proof {
        if i < old_v.len() {
            lemma_seq_lt_total(old_v[i as int]@, s@);
        }
    }
    v.insert(i, owned(s));
    proof {
        let nn = v@;
        assert forall|a: int, b: int| 0 <= a < b < nn.len() implies seq_lt(#[trigger] nn[a]@, #[trigger] nn[b]@) by {
            if b < i {
            } else if a < i && b == i {
            } else if a < i && b > i {
                assert(seq_lt(old_v[a]@, s@));
                assert(seq_lt(s@, old_v[i as int]@));
                if b - 1 > i {
                    assert(seq_lt(old_v[i as int]@, old_v[b - 1]@));
                    lemma_seq_lt_trans(s@, old_v[i as int]@, old_v[b - 1]@);
                }
                lemma_seq_lt_trans(old_v[a]@, s@, old_v[b - 1]@);
            } else if a == i {
                if b - 1 > i {
                    assert(seq_lt(old_v[i as int]@, old_v[b - 1]@));
                    lemma_seq_lt_trans(s@, old_v[i as int]@, old_v[b - 1]@);
                }
            } else {
                assert(seq_lt(old_v[a - 1]@, old_v[b - 1]@));
            }
        }
        assert forall|x: Seq<char>| holds(nn, x) <==> (holds(old_v, x) || x == s@) by {
            if holds(old_v, x) {
                let j = choose|j: int| 0 <= j < old_v.len() && old_v[j]@ == x;
                if j < i {
                    assert(nn[j] == old_v[j]);
                } else {
                    assert(nn[j + 1] == old_v[j]);
                }
            }
            if x == s@ {
                assert(nn[i as int]@ == s@);
            }
            if holds(nn, x) {
                let j = choose|j: int| 0 <= j < nn.len() && nn[j]@ == x;
                if j < i {
                    assert(old_v[j] == nn[j]);
                } else if j > i {
                    assert(old_v[j - 1] == nn[j]);
                }
            }
        }
    }
}

/// The text starts with an upper-case letter (`char::is_uppercase`).
pub open spec fn starts_upper(s: Seq<char>) -> bool {
    s.len() > 0 && char_is_uppercase(s[0])
}

pub fn starts_upper_exec(s: &String) -> (r: bool)
    ensures
        r == starts_upper(s@),
{
    let cs = chars_of(s.as_str());
    cs.len() > 0 && is_uppercase(cs[0])
}

/// The strings joined with `sep` between them (`[String]::join`).
pub fn join_strings(parts: &Vec<String>, sep: &str) -> (r: String)
    ensures
        r@ == join(string_views(parts@), sep@),
{
    let mut cs: Vec<Vec<char>> = Vec::new();
    let mut i: usize = 0;
    while i < parts.len()
        invariant
            i <= parts@.len(),
            views(cs@) == string_views(parts@.take(i as int)),
        decreases parts.len() - i,
    {
        let ghost before = views(cs@);
        cs.push(chars_of(parts[i].as_str()));
        assert(views(cs@) =~= before.push(parts@[i as int]@));
        assert(string_views(parts@.take(i + 1)) =~= string_views(parts@.take(i as int)).push(parts@[i as int]@));
        i += 1;
    }
    assert(parts@.take(parts@.len() as int) =~= parts@);
    let sc = chars_of(sep);
    let j = join_chars(&cs, sc.as_slice());
    string_of(j.as_slice())
}

/// `str::trim_matches` with a character: every leading and trailing `c`
/// removed.
pub open spec fn trim_char(s: Seq<char>, c: char) -> Seq<char> {
    trim_end_matches(trim_start_matches(s, seq![c]), seq![c])
}

pub fn trim_char_exec(s: &str, c: char) -> (r: String)
    ensures
        r@ == trim_char(s@, c),
{
    let cs = chars_of(s);
    let mut p: Vec<char> = Vec::new();
    p.push(c);
    assert(p@ =~= seq![c]);
    let a = trim_start_matches_chars(cs.as_slice(), p.as_slice());
    let b = trim_end_matches_chars(a.as_slice(), p.as_slice());
    string_of(b.as_slice())
}

} // verus!
