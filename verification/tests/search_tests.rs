use minigrep::search;
use minigrep::search_case_insensitive;
use minigrep::split_lines;

#[test]
fn one_result() {
    let query = "duct";
    let contents = "\
Rust:
safe, fast, productive.
Pick three.
Duct tape.";

    assert_eq!(vec!["safe, fast, productive."], search(query, contents));
}

#[test]
fn case_insensitive() {
    let query = "rUsT";
    let contents = "\
Rust:
safe, fast, productive.
Pick three.
Trust me.";
    assert_eq!(vec!["Rust:", "Trust me."], search_case_insensitive(query, contents));
}

#[test]
fn empty_query_returns_every_line() {
    let contents = "alpha\nBeta\n\ngamma";
    let all = vec!["alpha", "Beta", "", "gamma"];
    assert_eq!(all, search("", contents));
    assert_eq!(all, search_case_insensitive("", contents));
}

#[test]
fn sensitive_result_within_insensitive() {
    let query = "Rust";
    let contents = "Rust:\nsafe, fast, productive.\nPick three.\nTrust me.";
    let exact = search(query, contents);
    let folded = search_case_insensitive(query, contents);
    assert_eq!(vec!["Rust:"], exact);
    assert_eq!(vec!["Rust:", "Trust me."], folded);
    for line in &exact {
        assert!(folded.contains(line));
    }
}

#[test]
fn matcher_is_deterministic() {
    let query = "three";
    let contents = "Rust:\nsafe, fast, productive.\nPick three.\nTrust me.";
    assert_eq!(search(query, contents), search(query, contents));
    assert_eq!(
        search_case_insensitive(query, contents),
        search_case_insensitive(query, contents)
    );
}

#[test]
fn results_keep_file_order() {
    let query = "a";
    let contents = "aa\nbb\nca\nab";
    assert_eq!(vec!["aa", "ca", "ab"], search(query, contents));
}

#[test]
fn no_match_gives_empty_result() {
    let contents = "Rust:\nsafe, fast, productive.";
    assert_eq!(Vec::<&str>::new(), search("zzz", contents));
    assert_eq!(Vec::<&str>::new(), search_case_insensitive("zzz", contents));
}

#[test]
fn empty_contents_has_no_lines() {
    assert_eq!(Vec::<&str>::new(), search("", ""));
    assert_eq!(Vec::<&str>::new(), search_case_insensitive("a", ""));
}

#[test]
fn lines_split_at_crlf_and_lf() {
    assert_eq!(vec!["one", "two"], split_lines("one\r\ntwo"));
    assert_eq!(vec!["one", "two"], split_lines("one\ntwo\n"));
    assert_eq!(Vec::<&str>::new(), split_lines(""));
    assert_eq!(vec!["one\r"], split_lines("one\r"));
    assert_eq!(vec!["", ""], split_lines("\n\n"));
}

#[test]
fn query_spanning_line_break_does_not_match() {
    assert_eq!(Vec::<&str>::new(), search("ab", "a\nb"));
}

#[test]
fn line_with_two_occurrences_appears_once() {
    assert_eq!(vec!["duct duct"], search("duct", "duct duct\nnone"));
}
