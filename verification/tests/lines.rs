use kratogrep::contains_str;
use kratogrep::split_lines;

#[test]
fn splitting_follows_line_feeds() {
    assert_eq!(vec!["a", "b"], split_lines("a\nb"));
}

#[test]
fn final_terminator_opens_no_line() {
    assert_eq!(vec!["a", "b"], split_lines("a\nb\n"));
}

#[test]
fn carriage_return_before_line_feed_is_dropped() {
    assert_eq!(vec!["one", "two"], split_lines("one\r\ntwo"));
}

#[test]
fn lone_final_carriage_return_is_kept() {
    assert_eq!(vec!["one\r"], split_lines("one\r"));
}

#[test]
fn empty_text_splits_into_nothing() {
    assert!(split_lines("").is_empty());
}

#[test]
fn inner_empty_lines_are_kept() {
    assert_eq!(vec!["a", "", "b"], split_lines("a\n\nb"));
}

#[test]
fn substring_occurrence_is_found() {
    assert!(contains_str("productive", "duct"));
    assert!(!contains_str("productive", "Duct"));
    assert!(contains_str("anything", ""));
    assert!(!contains_str("", "a"));
    assert!(contains_str("edge", "ge"));
    assert!(contains_str("edge", "ed"));
}
