use kratogrep::format_line;

#[test]
fn question_mark_cuts_the_line() {
    assert_eq!("Are we there yet BOY???", format_line("Are we there yet? No."));
}

#[test]
fn exclamation_mark_cuts_the_line() {
    assert_eq!("Pick three BOY!!!", format_line("Pick three! now"));
}

#[test]
fn full_stop_cuts_the_line() {
    assert_eq!("safe, fast, productive BOY!!!", format_line("safe, fast, productive."));
}

#[test]
fn plain_line_is_kept_whole() {
    assert_eq!("Rust: BOY!!!", format_line("Rust:"));
}

#[test]
fn question_mark_wins_over_earlier_stops() {
    assert_eq!("no! really BOY???", format_line("no! really?"));
}

#[test]
fn empty_line_still_gets_a_tag() {
    assert_eq!(" BOY!!!", format_line(""));
}
