use codeskel::docstring::count_prose_words;

#[test]
fn empty_string_is_zero() {
    assert_eq!(count_prose_words(""), 0);
}

#[test]
fn trivial_one_liner_counts_correctly() {
    // Raw extracted text after stripping /** and */
    assert_eq!(count_prose_words("Gets the user."), 3);
}

#[test]
fn tag_only_line_is_zero() {
    assert_eq!(count_prose_words("@param id the user id"), 0);
}

#[test]
fn prose_with_tags_counts_only_prose() {
    let text = "Returns the user.\n@param id the id\n@return Optional<User>";
    assert_eq!(count_prose_words(text), 3);
}

#[test]
fn multiline_prose_accumulates() {
    let text = "Validates the email address format.\nThrows if null or empty.";
    assert_eq!(count_prose_words(text), 10);
}

#[test]
fn block_comment_delimiters_are_stripped() {
    // As it comes out of the raw block comment
    let text = "/**\n * Gets the user.\n * @param id the id\n */";
    assert_eq!(count_prose_words(text), 3);
}

#[test]
fn rust_triple_slash_prefix_stripped() {
    let text = "/// Validates input.\n/// Throws if null.";
    assert_eq!(count_prose_words(text), 5);
}

#[test]
fn whitespace_only_is_zero() {
    assert_eq!(count_prose_words("   \n  \t  "), 0);
}

#[test]
fn prose_words_add_up_over_joined_lines() {
    let a = "/** Gets the user.\n * @param id the id";
    let b = " * Throws if missing. */";
    let joined = format!("{}\n{}", a, b);
    assert_eq!(count_prose_words(a), 3);
    assert_eq!(count_prose_words(b), 4);
    assert_eq!(count_prose_words(&joined), count_prose_words(a) + count_prose_words(b));
}
