use linegrep::config::{parse_args, Config, Invocation};
use linegrep::matcher::MatchError;
use linegrep::render::render;
use linegrep::search::{search, search_file, SourceFile};

fn file(path: &str, lines: &[&str]) -> SourceFile {
    SourceFile { path: path.to_string(), lines: lines.iter().map(|l| l.to_string()).collect() }
}

fn config(list: &[&str]) -> Config {
    let args: Vec<String> = list.iter().map(|arg| arg.to_string()).collect();
    match parse_args(&args) {
        Ok(Invocation::Search(config)) => config,
        other => panic!("not a search: {:?}", other),
    }
}

fn fruit() -> SourceFile {
    file("a.txt", &["apple", "banana", "Apple pie"])
}

fn output(files: &Vec<SourceFile>, config: &Config) -> String {
    render(&search(files, config).unwrap(), config).concat()
}

#[test]
fn results_follow_the_files_and_then_the_lines() {
    let files = vec![file("F1", &["foo", "bar"]), file("F2", &["foobar"])];
    let found = search(&files, &config(&["grep", "foo", "F1", "F2"])).unwrap();
    let places: Vec<(Option<String>, Option<usize>)> =
        found.iter().map(|c| (c.file_path.clone(), c.line_number)).collect();
    assert_eq!(
        places,
        vec![(Some("F1".to_string()), Some(1)), (Some("F2".to_string()), Some(1))]
    );
    assert_eq!(found[0].line_vec, vec!["", "foo", ""]);
    assert_eq!(found[1].line_vec, vec!["", "foo", "bar"]);
}

#[test]
fn results_of_one_file_stand_in_line_order() {
    let lines = file("f", &["a1", "b", "a2", "", "xa3", "c"]);
    let found = search_file(&lines, &config(&["grep", "a", "f"])).unwrap();
    let numbers: Vec<Option<usize>> = found.iter().map(|c| c.line_number).collect();
    assert_eq!(numbers, vec![Some(1), Some(3), Some(5)]);
    assert_eq!(found[2].line_vec, vec!["x", "a", "3"]);
    assert!(found.iter().all(|c| c.file_path == Some("f".to_string())));
}

#[test]
fn a_file_named_twice_is_searched_twice() {
    let files = vec![file("f", &["a"]), file("g", &["b"]), file("f", &["a"])];
    let found = search(&files, &config(&["grep", "a", "f"])).unwrap();
    let paths: Vec<Option<String>> = found.iter().map(|c| c.file_path.clone()).collect();
    assert_eq!(paths, vec![Some("f".to_string()), Some("f".to_string())]);
}

#[test]
fn search_of_no_files_or_empty_files_finds_nothing() {
    let options = config(&["grep", "a", "f"]);
    assert_eq!(search(&Vec::new(), &options), Ok(Vec::new()));
    assert_eq!(search(&vec![file("f", &[]), file("g", &[])], &options), Ok(Vec::new()));
    assert_eq!(search_file(&file("f", &[]), &options), Ok(Vec::new()));
}

#[test]
fn a_misaligned_line_fails_the_whole_search() {
    let options = config(&["grep", "x", "f", "-i"]);
    let files = vec![file("f", &["x marks the spot"]), file("g", &["fine", "İx"])];
    assert_eq!(search(&files, &options), Err(MatchError::Misaligned));
    assert_eq!(search_file(&files[1], &options), Err(MatchError::Misaligned));
    assert!(search_file(&files[0], &options).is_ok());
}

#[test]
fn numbered_search_is_case_sensitive() {
    let options = config(&["search", "apple", "a.txt", "-n"]);
    assert_eq!(output(&vec![fruit()], &options), "1: apple\n");
}

#[test]
fn numbered_case_insensitive_search_finds_both_casings() {
    let options = config(&["search", "apple", "a.txt", "-i", "-n"]);
    assert_eq!(output(&vec![fruit()], &options), "1: apple\n3: Apple pie\n");
}

#[test]
fn inverted_search_prints_the_other_lines_bare() {
    let options = config(&["search", "apple", "a.txt", "-v"]);
    assert_eq!(output(&vec![fruit()], &options), "banana\nApple pie\n");
    let options = config(&["search", "apple", "a.txt", "-v", "-i"]);
    assert_eq!(output(&vec![fruit()], &options), "banana\n");
}

#[test]
fn file_names_and_numbers_decorate_every_line() {
    let files = vec![file("F1", &["foo", "bar"]), file("F2", &["foobar"])];
    let options = config(&["grep", "foo", "F1", "F2", "-f", "-n"]);
    assert_eq!(output(&files, &options), "F1| 1: foo\nF2| 1: foobar\n");
    let options = config(&["grep", "foo", "F1", "F2", "-f"]);
    assert_eq!(output(&files, &options), "F1| foo\nF2| foobar\n");
}

#[test]
fn unread_lines_are_left_out_and_not_counted() {
    let reads = vec![Some("one".to_string()), None, Some("two".to_string()), None];
    let read = SourceFile::from_reads("f".to_string(), &reads);
    assert_eq!(read, file("f", &["one", "two"]));
    let found = search_file(&read, &config(&["grep", "two", "f"])).unwrap();
    assert_eq!(found[0].line_number, Some(2));
}

#[test]
fn from_reads_keeps_a_file_that_was_read_whole() {
    let reads = vec![Some("a".to_string()), Some("".to_string()), Some("b".to_string())];
    assert_eq!(SourceFile::from_reads("p".to_string(), &reads), file("p", &["a", "", "b"]));
    assert_eq!(SourceFile::from_reads("p".to_string(), &Vec::new()), file("p", &[]));
}
