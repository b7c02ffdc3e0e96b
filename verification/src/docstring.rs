//! How many words of prose a doc comment holds.

use vstd::prelude::*;
use crate::text::{
    chars_of, count_words, is_ws, lemma_split_lens, lemma_trim_len, lemma_trim_start_matches_len,
    lemma_word_count_le, split_chars, split_on, starts_with, starts_with_chars, sum_lens, trim,
    trim_chars, trim_start_matches, trim_start_matches_chars, word_count,
};

verus! {

broadcast use vstd::string::group_string_axioms;

/// A line with comment decoration removed: the line trimmed, then with the
/// leading `/**`, `*/` and `*` delimiters and a `///` or `//` prefix removed,
/// trimming after each step.
pub open spec fn clean_line(line: Seq<char>) -> Seq<char> {
    let l1 = trim(line);
    let l2 = trim(trim_start_matches(l1, "/**"@));
    let l3 = trim(trim_start_matches(l2, "*/"@));
    let l4 = trim(trim_start_matches(l3, "*"@));
    if starts_with(l4, "///"@) {
        trim(trim_start_matches(l4, "///"@))
    } else if starts_with(l4, "//"@) {
        trim(trim_start_matches(l4, "//"@))
    } else {
        l4
    }
}

/// Prose words on one line: none on a tag line (one that starts with `@`
/// once cleaned), else its whitespace-separated words.
pub open spec fn line_words(line: Seq<char>) -> nat {
    let c = clean_line(line);
    if starts_with(c, "@"@) {
        0
    } else {
        word_count(c)
    }
}

/// Sum of `line_words` over the given lines.
pub open spec fn total_words(lines: Seq<Seq<char>>) -> nat
    decreases lines.len(),
{
    if lines.len() == 0 {
        0
    } else {
        total_words(lines.drop_last()) + line_words(lines.last())
    }
}

/// The prose words of a doc comment, line by line. The lines are the pieces
/// between `\n`s; a `\r` before a `\n`, and an empty last piece, hold no words.
pub open spec fn prose_words(text: Seq<char>) -> nat {
    total_words(split_on(text, '\n'))
}

/// The words of two runs of lines add up.
pub proof fn lemma_total_words_concat(x: Seq<Seq<char>>, y: Seq<Seq<char>>)
    ensures
        total_words(x + y) == total_words(x) + total_words(y),
    decreases y.len(),
{
    if y.len() == 0 {
        assert(x + y =~= x);
    } else {
        lemma_total_words_concat(x, y.drop_last());
        assert((x + y).drop_last() =~= x + y.drop_last());
        assert((x + y).last() == y.last());
    }
}

proof fn lemma_clean_line_len(line: Seq<char>)
    ensures
        clean_line(line).len() <= line.len(),
{
    let l1 = trim(line);
    lemma_trim_len(line);
    lemma_trim_start_matches_len(l1, "/**"@);
    let l2 = trim(trim_start_matches(l1, "/**"@));
    lemma_trim_len(trim_start_matches(l1, "/**"@));
    lemma_trim_start_matches_len(l2, "*/"@);
    let l3 = trim(trim_start_matches(l2, "*/"@));
    lemma_trim_len(trim_start_matches(l2, "*/"@));
    lemma_trim_start_matches_len(l3, "*"@);
    let l4 = trim(trim_start_matches(l3, "*"@));
    lemma_trim_len(trim_start_matches(l3, "*"@));
    lemma_trim_start_matches_len(l4, "///"@);
    lemma_trim_len(trim_start_matches(l4, "///"@));
    lemma_trim_start_matches_len(l4, "//"@);
    lemma_trim_len(trim_start_matches(l4, "//"@));
}

proof fn lemma_sum_lens_prefix(parts: Seq<Seq<char>>, i: int)
    requires
        0 <= i <= parts.len(),
    ensures
        sum_lens(parts.take(i)) <= sum_lens(parts),
    decreases parts.len() - i,
{
    if i < parts.len() {
        lemma_sum_lens_prefix(parts.drop_last(), i);
        assert(parts.drop_last().take(i) =~= parts.take(i));
    } else {
        assert(parts.take(i) =~= parts);
    }
}

fn clean_line_exec(line: &[char]) -> (r: Vec<char>)
    ensures
        r@ == clean_line(line@),
{
    let p1 = chars_of("/**");
    let p2 = chars_of("*/");
    let p3 = chars_of("*");
    let p4 = chars_of("///");
    let p5 = chars_of("//");
    proof {
        reveal_strlit("/**");
        reveal_strlit("*/");
        reveal_strlit("*");
        reveal_strlit("///");
        reveal_strlit("//");
    }
    let l1 = trim_chars(line);
    let t = trim_start_matches_chars(l1.as_slice(), p1.as_slice());
    let l2 = trim_chars(t.as_slice());
    let t = trim_start_matches_chars(l2.as_slice(), p2.as_slice());
    let l3 = trim_chars(t.as_slice());
    let t = trim_start_matches_chars(l3.as_slice(), p3.as_slice());
    let l4 = trim_chars(t.as_slice());
    if starts_with_chars(l4.as_slice(), p4.as_slice()) {
        let t = trim_start_matches_chars(l4.as_slice(), p4.as_slice());
        trim_chars(t.as_slice())
    } else if starts_with_chars(l4.as_slice(), p5.as_slice()) {
        let t = trim_start_matches_chars(l4.as_slice(), p5.as_slice());
        trim_chars(t.as_slice())
    } else {
        l4
    }
}

/// Count words in the prose portion of a docstring, ignoring `@tag` lines.
///
/// Strips block-comment delimiters (`/**`, `*/`, leading `*`), removes lines
/// that begin with a Javadoc/JSDoc/rustdoc tag (`@param`, `@return`, …),
/// and counts whitespace-separated words in whatever remains.
pub fn count_prose_words(text: &str) -> (r: usize)
    ensures
        r == prose_words(text@),
{
    let chars = chars_of(text);
    let lines = split_chars(chars.as_slice(), '\n');
    let ghost pieces = split_on(text@, '\n');
    proof {
        lemma_split_lens(text@, '\n');
        assert(chars.len() == text@.len());
    }
    let at = chars_of("@");
    let mut total: usize = 0;
    let mut i: usize = 0;
    while i < lines.len()
        invariant
            i <= lines.len(),
            lines@.len() == pieces.len(),
            forall|k: int| 0 <= k < lines@.len() ==> #[trigger] lines@[k]@ == pieces[k],
            total == total_words(pieces.take(i as int)),
            total <= sum_lens(pieces.take(i as int)),
            sum_lens(pieces) <= text@.len(),
            chars@ == text@,
            at@ == "@"@,
        decreases lines.len() - i,
    {
        let c = clean_line_exec(lines[i].as_slice());
        let n = if starts_with_chars(c.as_slice(), at.as_slice()) {
            0
        } else {
            count_words(c.as_slice())
        };
        proof {
            assert(pieces.take(i + 1).drop_last() =~= pieces.take(i as int));
            assert(pieces.take(i + 1).last() == lines@[i as int]@);
            lemma_clean_line_len(lines@[i as int]@);
            lemma_word_count_le(c@);
            lemma_sum_lens_prefix(pieces, i as int + 1);
            assert(sum_lens(pieces.take(i + 1)) == sum_lens(pieces.take(i as int)) + pieces[i as int].len());
            assert(n <= pieces[i as int].len());
            assert(total + n <= sum_lens(pieces));
            assert(sum_lens(pieces) <= chars.len());
        }
        total = total + n;
        i += 1;
    }
    assert(pieces.take(lines.len() as int) =~= pieces);
    total
}

} // verus!
