use minigrep::{run_search, Config};

fn args(tokens: &[&str]) -> Vec<String> {
    tokens.iter().map(|t| t.to_string()).collect()
}

#[test]
fn missing_query_is_reported() {
    let r = Config::new(args(&["prog"]), false);
    assert_eq!(r.err(), Some("Didn't get a query string"));
}

#[test]
fn no_arguments_at_all_is_a_missing_query() {
    let r = Config::new(Vec::new(), false);
    assert_eq!(r.err(), Some("Didn't get a query string"));
}

#[test]
fn missing_file_name_is_reported() {
    let r = Config::new(args(&["prog", "duct"]), false);
    assert_eq!(r.err(), Some("Didn't get a file name"));
}

#[test]
fn program_name_is_skipped() {
    let c = Config::new(args(&["prog", "duct", "poem.txt"]), false).unwrap();
    assert_eq!(c.query, "duct");
    assert_eq!(c.filename, "poem.txt");
    assert!(c.case_sensitive);
}

#[test]
fn flag_absent_means_case_sensitive() {
    let c = Config::new(args(&["prog", "q", "f"]), false).unwrap();
    assert!(c.case_sensitive);
}

#[test]
fn flag_present_means_case_insensitive() {
    let c = Config::new(args(&["prog", "q", "f"]), true).unwrap();
    assert!(!c.case_sensitive);
}

#[test]
fn run_search_dispatches_on_the_mode() {
    let contents = "\
Rust:
safe, fast, productive.
Pick three.
Trust me.";

    let sensitive = Config::new(args(&["prog", "rUsT", "poem.txt"]), false).unwrap();
    assert!(run_search(&sensitive, contents).is_empty());

    let insensitive = Config::new(args(&["prog", "rUsT", "poem.txt"]), true).unwrap();
    assert_eq!(vec!["Rust:", "Trust me."], run_search(&insensitive, contents));
}
