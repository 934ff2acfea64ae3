use linegrep::config::Config;
use linegrep::content::Content;
use linegrep::matcher::{evaluate, evaluate_with, MatchError};

fn config(pattern: &str) -> Config {
    Config {
        search_term: pattern.to_string(),
        file_paths: vec!["a.txt".to_string()],
        case_insensitive: false,
        invert: false,
        recursive: false,
        show_filename: false,
        show_line_number: false,
        colorize: false,
    }
}

fn pieces(outcome: Result<Option<Content>, MatchError>) -> Vec<String> {
    outcome.unwrap().unwrap().line_vec
}

#[test]
fn match_is_cut_into_three_pieces_that_rebuild_the_line() {
    let line = "say hello to the world";
    let found = evaluate(line, 7, "notes.txt", &config("hello")).unwrap().unwrap();
    assert_eq!(found.line_vec, vec!["say ", "hello", " to the world"]);
    assert_eq!(found.line_vec.concat(), line);
    assert_eq!(found.line_number, Some(7));
    assert_eq!(found.file_path, Some("notes.txt".to_string()));
}

#[test]
fn line_without_the_pattern_is_not_reported() {
    assert_eq!(evaluate("say hello", 1, "a.txt", &config("world")), Ok(None));
}

#[test]
fn inverted_search_reports_lines_without_the_pattern_whole() {
    let mut options = config("apple");
    options.invert = true;
    let kept = evaluate("banana", 2, "a.txt", &options).unwrap().unwrap();
    assert_eq!(kept.line_vec, vec!["banana"]);
    assert_eq!(kept.line_number, Some(2));
    assert_eq!(kept.file_path, Some("a.txt".to_string()));
    assert_eq!(evaluate("one apple", 1, "a.txt", &options), Ok(None));
}

#[test]
fn inverted_search_follows_the_case_rule() {
    let mut options = config("apple");
    options.invert = true;
    assert_eq!(pieces(evaluate("Apple pie", 3, "a.txt", &options)), vec!["Apple pie"]);
    options.case_insensitive = true;
    assert_eq!(evaluate("Apple pie", 3, "a.txt", &options), Ok(None));
    assert_eq!(pieces(evaluate("banana", 2, "a.txt", &options)), vec!["banana"]);
}

#[test]
fn case_insensitive_search_matches_other_casing() {
    let mut options = config("hello");
    options.case_insensitive = true;
    let found = evaluate("Hello World", 1, "a.txt", &options).unwrap().unwrap();
    assert_eq!(found.line_vec, vec!["", "Hello", " World"]);
}

#[test]
fn case_sensitive_search_does_not_match_other_casing() {
    assert_eq!(evaluate("Hello World", 1, "a.txt", &config("hello")), Ok(None));
}

#[test]
fn case_insensitive_search_lowers_the_pattern_too() {
    let mut options = config("WORLD");
    options.case_insensitive = true;
    assert_eq!(pieces(evaluate("Hello World", 1, "a.txt", &options)), vec!["Hello ", "World", ""]);
}

#[test]
fn only_the_first_occurrence_is_cut_out() {
    assert_eq!(pieces(evaluate("ababab", 1, "a.txt", &config("ab"))), vec!["", "ab", "abab"]);
}

#[test]
fn match_at_the_end_leaves_an_empty_last_piece() {
    assert_eq!(pieces(evaluate("hello world", 1, "a.txt", &config("world"))), vec!["hello ", "world", ""]);
}

#[test]
fn whole_line_match_has_empty_outer_pieces() {
    assert_eq!(pieces(evaluate("apple", 1, "a.txt", &config("apple"))), vec!["", "apple", ""]);
}

#[test]
fn empty_line_never_matches() {
    assert_eq!(evaluate("", 1, "a.txt", &config("a")), Ok(None));
    let mut options = config("a");
    options.invert = true;
    assert_eq!(pieces(evaluate("", 1, "a.txt", &options)), vec![""]);
}

#[test]
fn pattern_longer_than_the_line_does_not_match() {
    assert_eq!(evaluate("ab", 1, "a.txt", &config("abc")), Ok(None));
}

#[test]
fn empty_pattern_occurs_at_the_start_of_every_line() {
    assert_eq!(pieces(evaluate("abc", 1, "a.txt", &config(""))), vec!["", "", "abc"]);
    assert_eq!(pieces(evaluate("", 1, "a.txt", &config(""))), vec!["", "", ""]);
}

#[test]
fn text_outside_ascii_is_cut_between_characters() {
    let found = evaluate("un café crème", 1, "a.txt", &config("café")).unwrap().unwrap();
    assert_eq!(found.line_vec, vec!["un ", "café", " crème"]);
    let found = evaluate("日本語のテキスト", 1, "a.txt", &config("の")).unwrap().unwrap();
    assert_eq!(found.line_vec, vec!["日本語", "の", "テキスト"]);
}

#[test]
fn case_insensitive_search_keeps_the_casing_of_text_outside_ascii() {
    let mut options = config("école");
    options.case_insensitive = true;
    assert_eq!(pieces(evaluate("Une ÉCOLE ici", 1, "a.txt", &options)), vec!["Une ", "ÉCOLE", " ici"]);
}

#[test]
fn occurrence_past_the_end_of_the_line_is_misaligned() {
    // Lower-casing "İ" gives three bytes for two, so "x" is found at byte 3
    // of the lower-cased line, where the line itself has ended.
    let mut options = config("x");
    options.case_insensitive = true;
    assert_eq!(evaluate("İx", 1, "a.txt", &options), Err(MatchError::Misaligned));
}

#[test]
fn occurrence_inside_a_character_is_misaligned() {
    // Lower-casing the Kelvin sign gives one byte for three, so "b" is found
    // at byte 2 of the lower-cased line, inside the sign of the line itself.
    let mut options = config("b");
    options.case_insensitive = true;
    assert_eq!(evaluate("\u{212A}ab", 1, "a.txt", &options), Err(MatchError::Misaligned));
}

#[test]
fn moved_bytes_that_fall_between_characters_are_cut_where_they_lie() {
    // "abc" is found at byte 3 of "kkkabc"; bytes 3 to 6 of the line itself
    // are its second Kelvin sign.
    let mut options = config("abc");
    options.case_insensitive = true;
    let found = evaluate("\u{212A}\u{212A}\u{212A}abc", 1, "a.txt", &options).unwrap().unwrap();
    assert_eq!(found.line_vec, vec!["\u{212A}", "\u{212A}", "\u{212A}abc"]);
}

#[test]
fn misalignment_does_not_touch_an_inverted_search() {
    let mut options = config("x");
    options.case_insensitive = true;
    options.invert = true;
    assert_eq!(evaluate("İx", 1, "a.txt", &options), Ok(None));
    assert_eq!(pieces(evaluate("İy", 1, "a.txt", &options)), vec!["İy"]);
}

#[test]
fn evaluate_with_searches_the_given_forms() {
    let options = config("HEL");
    let found = evaluate_with("Hello", 4, "b.txt", &options, "hello", "hel").unwrap().unwrap();
    assert_eq!(found.line_vec, vec!["", "Hel", "lo"]);
    assert_eq!(found.line_number, Some(4));
    assert_eq!(found.file_path, Some("b.txt".to_string()));
    assert_eq!(evaluate_with("Hello", 4, "b.txt", &options, "hello", "HEL"), Ok(None));
}

#[test]
fn evaluate_with_cuts_as_many_bytes_as_the_pattern_has() {
    let options = config("abcd");
    let found = evaluate_with("xxabcdyy", 1, "a.txt", &options, "xxabcdyy", "ab").unwrap().unwrap();
    assert_eq!(found.line_vec, vec!["xx", "abcd", "yy"]);
    assert_eq!(
        evaluate_with("xxab", 1, "a.txt", &options, "xxab", "ab"),
        Err(MatchError::Misaligned)
    );
}

#[test]
fn content_new_keeps_its_parts() {
    let content = Content::new(Some(3), vec!["a".to_string(), "b".to_string()], None);
    assert_eq!(content.line_number, Some(3));
    assert_eq!(content.line_vec, vec!["a", "b"]);
    assert_eq!(content.file_path, None);
}
