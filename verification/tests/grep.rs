use threadpool::grep::Config;
use threadpool::grep::contains_substr;
use threadpool::grep::search;
use threadpool::grep::search_insensitive;
use threadpool::grep::split_lines;

#[test]
fn case_sensitive() {
    let query = "duct";
    let contents = "\
Rust:
safe, fast, productive.
Pick three.";

    assert_eq!(vec!["safe, fast, productive."], search(query, contents));
}

#[test]
fn case_insensitive() {
    let query = "rUsT";
    let contents = "\
Rust:
safe, fast, productive.
Pick three.
Trust me.";

    assert_eq!(vec!["Rust:", "Trust me."], search_insensitive(query, contents))
}

#[test]
fn empty_query_matches_every_line() {
    let lines = search("", "one\ntwo\nthree");
    assert_eq!(vec!["one", "two", "three"], lines);
}

#[test]
fn no_match_yields_nothing() {
    let lines = search("zebra", "one\ntwo\nthree");
    assert!(lines.is_empty());
    let lines = search_insensitive("zebra", "one\ntwo\nthree");
    assert!(lines.is_empty());
}

#[test]
fn empty_contents_yield_nothing() {
    assert!(search("a", "").is_empty());
    assert!(search_insensitive("a", "").is_empty());
}

#[test]
fn trailing_newline_opens_no_extra_line() {
    assert_eq!(vec!["a"], search("a", "a\n"));
    assert_eq!(vec!["a", "a"], search("a", "a\na\n"));
}

#[test]
fn split_lines_strips_carriage_return_before_line_feed() {
    assert_eq!(vec!["one", "two"], split_lines("one\r\ntwo"));
    assert_eq!(vec!["one", "two"], split_lines("one\r\ntwo\r\n"));
}

#[test]
fn split_lines_keeps_lone_trailing_carriage_return() {
    assert_eq!(vec!["tail\r"], split_lines("tail\r"));
}

#[test]
fn split_lines_keeps_empty_lines() {
    assert_eq!(vec!["", "mid", ""], split_lines("\nmid\n\n"));
    assert!(split_lines("").is_empty());
}

#[test]
fn contains_substr_finds_needles() {
    assert!(contains_substr("hello", "ell"));
    assert!(contains_substr("hello", "hello"));
    assert!(contains_substr("hello", ""));
    assert!(contains_substr("", ""));
    assert!(!contains_substr("", "a"));
    assert!(!contains_substr("abc", "abcd"));
    assert!(!contains_substr("abc", "cb"));
}

#[test]
fn insensitive_search_ignores_case_both_sides() {
    let lines = search_insensitive("HeLLo", "say hello\nGoodbye\nHELLO THERE");
    assert_eq!(vec!["say hello", "HELLO THERE"], lines);
}

#[test]
fn config_build_needs_three_arguments() {
    let args = vec![String::from("prog"), String::from("query")];
    assert_eq!(Err("Not enough arguments"), Config::build(&args, false).map(|_| ()));
}

#[test]
fn config_build_reads_query_and_path() {
    let args = vec![
        String::from("prog"),
        String::from("needle"),
        String::from("haystack.txt"),
    ];
    let config = Config::build(&args, true).unwrap();
    assert_eq!("needle", config.query);
    assert_eq!("haystack.txt", config.file_path);
    assert!(config.ignore_case);
    let config = Config::build(&args, false).unwrap();
    assert!(!config.ignore_case);
}
