use mfp::count_words;

#[test]
fn test_word_counting() {
    assert_eq!(count_words("Hello world!"), 2);
    assert_eq!(count_words("emoji test: ğŸŒŸ ğŸ’» ğŸš€"), 5);
    assert_eq!(count_words("ã“ã‚“ã«ã¡ã¯ world !"), 3);
    assert_eq!(count_words("CafÃ© and rÃ©sumÃ©"), 3);
    assert_eq!(count_words("  multiple   spaces  "), 2);
    assert_eq!(count_words("hyphenated-word"), 1);
    assert_eq!(count_words("!@#$ symbols"), 2);
}

#[test]
fn test_empty_line_has_no_words() {
    assert_eq!(count_words(""), 0);
}

#[test]
fn test_all_whitespace_line_has_no_words() {
    assert_eq!(count_words("   "), 0);
    assert_eq!(count_words("\t\t"), 0);
    assert_eq!(count_words(" \t \u{3000} "), 0);
}

#[test]
fn test_single_word_surrounded_by_whitespace() {
    assert_eq!(count_words("  word  "), 1);
    assert_eq!(count_words("word"), 1);
}

#[test]
fn test_unicode_whitespace_separates_words() {
    assert_eq!(count_words("one\u{3000}two"), 2);
    assert_eq!(count_words("one\u{00A0}two three"), 3);
}
