use kratogrep::search;
use kratogrep::search_case_insensitive;

#[test]
fn case_sensitive() {
    let query = "duct";
    let contents = "\
Rust:
safe, fast, productive.
Pick three.
Duct tape.";

    assert_eq!(vec!["safe, fast, productive."], search(query, contents));
}

#[test]
fn case_insensitive() {
    let query = "rUsT";
    let contents = "\
Rust:
safe, fast, productive.
Pick three.
Trust me.";

    assert_eq!(
        vec!["Rust:", "Trust me."],
        search_case_insensitive(query, contents)
    );
}

#[test]
fn empty_query_matches_every_line() {
    let contents = "alpha\nbeta\ngamma";
    let all = vec!["alpha", "beta", "gamma"];
    assert_eq!(all, search("", contents));
    assert_eq!(all, search_case_insensitive("", contents));
}

#[test]
fn empty_text_has_no_lines() {
    assert!(search("x", "").is_empty());
    assert!(search_case_insensitive("x", "").is_empty());
    assert!(search("", "").is_empty());
    assert!(search_case_insensitive("", "").is_empty());
}

#[test]
fn search_is_a_pure_function() {
    let contents = "one\ntwo\nthree";
    assert_eq!(search("o", contents), search("o", contents));
    assert_eq!(
        search_case_insensitive("O", contents),
        search_case_insensitive("O", contents)
    );
}

#[test]
fn line_equal_to_query_matches() {
    assert_eq!(vec!["duct"], search("duct", "duct"));
}

#[test]
fn repeated_occurrences_yield_the_line_once() {
    assert_eq!(vec!["abcabcabc"], search("abc", "abcabcabc\nxyz"));
}

#[test]
fn no_occurrence_gives_empty_result() {
    assert!(search("zzz", "a\nb").is_empty());
}

#[test]
fn sensitive_comparison_is_exact() {
    assert!(search("Rust", "rust only").is_empty());
}

#[test]
fn lowercasing_applies_to_query_and_lines() {
    // Both directions fail if the lowercase conversion handed its input
    // back unchanged.
    assert_eq!(vec!["GREP"], search_case_insensitive("grep", "GREP"));
    assert_eq!(vec!["grep"], search_case_insensitive("GREP", "grep"));
}

#[test]
fn insensitive_result_keeps_original_casing() {
    assert_eq!(
        vec!["MiXeD case"],
        search_case_insensitive("mixed", "MiXeD case\nplain")
    );
}

#[test]
fn carriage_return_breaks_match_cleanly() {
    // The matched line must not keep the carriage return of its break.
    assert_eq!(vec!["safe"], search("safe", "safe\r\nfast"));
}

#[test]
fn empty_lines_are_kept_by_empty_query() {
    assert_eq!(vec!["a", "", "b"], search("", "a\n\nb"));
}
