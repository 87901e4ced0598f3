use odt_sentences::wrap::{split_words, wrap_text};

#[test]
fn words_are_maximal_nonspace_runs() {
    assert_eq!(split_words("  one  two\tthree "), vec!["one", "two", "three"]);
    assert_eq!(split_words("solo"), vec!["solo"]);
    assert!(split_words("   ").is_empty());
    assert!(split_words("").is_empty());
}

#[test]
fn short_text_stays_on_one_line() {
    assert_eq!(wrap_text("hello world", 59), vec!["hello world"]);
}

#[test]
fn lines_break_at_word_boundaries() {
    assert_eq!(
        wrap_text("the quick brown fox jumps", 10),
        vec!["the quick", "brown fox", "jumps"]
    );
}

#[test]
fn a_word_longer_than_the_width_is_broken_at_the_width() {
    assert_eq!(
        wrap_text("abcdefghij", 4),
        vec!["abcd", "efghij"]
    );
    assert_eq!(wrap_text("ab cdefgh", 5), vec!["ab", "cdefg", "h"]);
}

#[test]
fn empty_text_wraps_to_one_empty_line() {
    assert_eq!(wrap_text("", 59), vec![""]);
    assert_eq!(wrap_text(" \t ", 10), vec![""]);
}

#[test]
fn a_word_exactly_as_wide_as_the_box_fills_its_line() {
    assert_eq!(wrap_text("abcde xy", 5), vec!["abcde", "xy"]);
}
