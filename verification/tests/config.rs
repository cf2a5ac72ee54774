use kratogrep::help_requested;
use kratogrep::Config;

fn args_of(words: &[&str]) -> Vec<String> {
    words.iter().map(|w| w.to_string()).collect()
}

#[test]
fn missing_positionals_are_a_configuration_error() {
    let none = args_of(&["kratogrep"]);
    assert_eq!(
        Err("not enough arguments, see --help"),
        Config::new(&none, false).map(|c| c.query)
    );
    let one = args_of(&["kratogrep", "query"]);
    assert!(Config::new(&one, false).is_err());
}

#[test]
fn positionals_are_taken_in_order() {
    let args = args_of(&["kratogrep", "needle", "notes.txt"]);
    let config = Config::new(&args, false).unwrap();
    assert_eq!("needle", config.query);
    assert_eq!("notes.txt", config.filename);
    assert!(config.case_sensitive);
}

#[test]
fn flag_forces_insensitive_search() {
    let args = args_of(&["kratogrep", "needle", "notes.txt", "--case_insensitive"]);
    let config = Config::new(&args, false).unwrap();
    assert!(!config.case_sensitive);
}

#[test]
fn environment_forces_insensitive_search() {
    let args = args_of(&["kratogrep", "needle", "notes.txt"]);
    let config = Config::new(&args, true).unwrap();
    assert!(!config.case_sensitive);
}

#[test]
fn flag_and_environment_together_force_insensitive_search() {
    let args = args_of(&["kratogrep", "needle", "notes.txt", "--case_insensitive"]);
    let config = Config::new(&args, true).unwrap();
    assert!(!config.case_sensitive);
}

#[test]
fn help_is_seen_anywhere_in_the_arguments() {
    assert!(help_requested(&args_of(&["kratogrep", "--help"])));
    assert!(help_requested(&args_of(&["kratogrep", "q", "f", "--help"])));
    assert!(!help_requested(&args_of(&["kratogrep", "q", "f"])));
}
