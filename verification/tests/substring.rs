use linegrep::slicing::{cut_line, is_sliceable};
use linegrep::substring::find;
use linegrep::text::same_text;

#[test]
fn find_gives_the_leftmost_offset() {
    assert_eq!(find(b"ababab", b"ab"), Some(0));
    assert_eq!(find(b"xxabab", b"ab"), Some(2));
    assert_eq!(find(b"aaab", b"ab"), Some(2));
    assert_eq!(find(b"hello world", b"world"), Some(6));
}

#[test]
fn find_gives_nothing_where_the_needle_is_absent() {
    assert_eq!(find(b"hello", b"world"), None);
    assert_eq!(find(b"ab", b"abc"), None);
    assert_eq!(find(b"", b"a"), None);
    assert_eq!(find(b"abab", b"abb"), None);
}

#[test]
fn find_takes_an_empty_needle_to_occur_at_the_start() {
    assert_eq!(find(b"abc", b""), Some(0));
    assert_eq!(find(b"", b""), Some(0));
}

#[test]
fn find_matches_the_whole_haystack() {
    assert_eq!(find(b"abc", b"abc"), Some(0));
}

#[test]
fn same_text_compares_contents() {
    assert!(same_text("-i", "-i"));
    assert!(same_text("", ""));
    assert!(!same_text("-i", "-n"));
    assert!(!same_text("-i", "-in"));
    assert!(!same_text("-in", "-i"));
    assert!(same_text("café", "café"));
}

#[test]
fn is_sliceable_asks_for_character_boundaries_within_the_line() {
    assert!(is_sliceable("hello", 0, 5));
    assert!(is_sliceable("hello", 5, 0));
    assert!(is_sliceable("hello", 1, 3));
    assert!(!is_sliceable("hello", 3, 3));
    assert!(!is_sliceable("hello", 6, 0));
    assert!(!is_sliceable("hello", 1, usize::MAX));
    // "é" takes bytes 1 and 2.
    assert!(is_sliceable("héllo", 1, 2));
    assert!(!is_sliceable("héllo", 2, 1));
    assert!(!is_sliceable("héllo", 1, 1));
    assert!(is_sliceable("héllo", 3, 3));
}

#[test]
fn cut_line_gives_the_three_pieces() {
    assert_eq!(cut_line("hello world", 6, 5), vec!["hello ", "world", ""]);
    assert_eq!(cut_line("hello world", 0, 0), vec!["", "", "hello world"]);
    assert_eq!(cut_line("héllo", 1, 2), vec!["h", "é", "llo"]);
    assert_eq!(cut_line("", 0, 0), vec!["", "", ""]);
}
