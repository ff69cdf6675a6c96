use minigrep::search;
use minigrep::search_case_insensitive;

#[test]
fn one_result() {
    let query = "duct";
    let contents = "\
Rust:
safe, fast, productive.
Pick three.
Duct tape.";

    assert_eq!(vec!["safe, fast, productive."], search(query, contents));
}

#[test]
fn case_insensitive() {
    let query = "rUsT";
    let contents = "\
Rust:
safe, fast, productive.
Pick three.
Trust me.";

    assert_eq!(vec!["Rust:", "Trust me."], search_case_insensitive(query, contents));
}

#[test]
fn empty_query_returns_all_lines() {
    let contents = "Rust:\nsafe, fast, productive.\nPick three.";
    assert_eq!(
        vec!["Rust:", "safe, fast, productive.", "Pick three."],
        search("", contents)
    );
}

#[test]
fn empty_query_on_empty_contents() {
    let empty: Vec<&str> = Vec::new();
    assert_eq!(empty, search("", ""));
}

#[test]
fn absent_query_returns_nothing() {
    let empty: Vec<&str> = Vec::new();
    assert_eq!(empty, search("zebra", "Rust:\nsafe, fast, productive."));
}

#[test]
fn result_is_ordered_subsequence_of_matching_lines() {
    let contents = "abc\nxyz\nbca\nno";
    let results = search("a", contents);
    assert_eq!(vec!["abc", "bca"], results);
    for line in &results {
        assert!(line.contains("a"));
    }
}

#[test]
fn case_insensitive_result_is_superset_of_case_sensitive() {
    let contents = "Rust:\nsafe, fast, productive.\nTrust me.\nRUST FOREVER";
    let sensitive = search("Rust", contents);
    let insensitive = search_case_insensitive("Rust", contents);
    assert_eq!(vec!["Rust:"], sensitive);
    assert_eq!(vec!["Rust:", "Trust me.", "RUST FOREVER"], insensitive);
    for line in &sensitive {
        assert!(insensitive.contains(line));
    }
}

#[test]
fn search_is_idempotent() {
    let contents = "one\ntwo\nthree\ntwenty-two";
    let first = search("tw", contents);
    let second = search("tw", contents);
    assert_eq!(first, second);
    assert_eq!(vec!["two", "twenty-two"], first);
}

#[test]
fn crlf_line_breaks_are_stripped() {
    let contents = "alpha\r\nbeta\r\ngamma";
    assert_eq!(vec!["alpha", "beta", "gamma"], search("", contents));
}

#[test]
fn lone_carriage_return_stays_in_its_line() {
    let contents = "al\rpha\nbeta";
    assert_eq!(vec!["al\rpha", "beta"], search("", contents));
}

#[test]
fn trailing_newline_adds_no_empty_line() {
    let contents = "alpha\nbeta\n";
    assert_eq!(vec!["alpha", "beta"], search("", contents));
}

#[test]
fn blank_lines_are_kept() {
    let contents = "alpha\n\nbeta";
    assert_eq!(vec!["alpha", "", "beta"], search("", contents));
}

#[test]
fn match_can_span_any_position_in_line() {
    let contents = "prefix middle suffix\nnothing here";
    assert_eq!(vec!["prefix middle suffix"], search("suffix", contents));
}

#[test]
fn case_insensitive_handles_non_ascii_letters() {
    let contents = "Öl und Wasser\nnichts";
    assert_eq!(vec!["Öl und Wasser"], search_case_insensitive("öL", contents));
}
