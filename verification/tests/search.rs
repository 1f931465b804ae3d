use minigrep::{search_case_insensitive, search_case_sensitive};

#[test]
fn case_sensitive() {
    let query = "duct";
    let contents = "\
Rust:
safe, fast, productive.
Pick three.
Duct tape.";

    assert_eq!(vec!["safe, fast, productive."], search_case_sensitive(query, contents));
}

#[test]
fn case_insensitive() {
    let query = "rUsT";
    let contents = "\
Rust:
safe, fast, productive.
Pick three.
Trust me.";

    assert_eq!(vec!["Rust:", "Trust me."], search_case_insensitive(query, contents));
}

#[test]
fn one_result() {
    let query = "duct";
    let contents = "\
Rust:
safe, fast, productive.
Pick three.";

    assert_eq!(vec!["safe, fast, productive."], search_case_sensitive(query, contents));
}

#[test]
fn empty_query_matches_every_line_sensitive() {
    let contents = "\
Rust:
safe, fast, productive.
Pick three.";

    assert_eq!(
        vec!["Rust:", "safe, fast, productive.", "Pick three."],
        search_case_sensitive("", contents)
    );
}

#[test]
fn empty_query_matches_every_line_insensitive() {
    let contents = "\
Rust:
safe, fast, productive.
Pick three.";

    assert_eq!(
        vec!["Rust:", "safe, fast, productive.", "Pick three."],
        search_case_insensitive("", contents)
    );
}

#[test]
fn no_match_is_empty_not_an_error() {
    let contents = "\
Rust:
safe, fast, productive.
Pick three.";

    let r = search_case_sensitive("zebra", contents);
    assert!(r.is_empty());
}

#[test]
fn uppercase_query_still_matches_insensitive() {
    let contents = "\
Rust:
safe, fast, productive.
Pick three.";

    assert_eq!(vec!["safe, fast, productive."], search_case_insensitive("DUCT", contents));
}

#[test]
fn matches_keep_document_order() {
    let contents = "\
three
one match here
two
another match
match at the end";

    assert_eq!(
        vec!["one match here", "another match", "match at the end"],
        search_case_sensitive("match", contents)
    );
}

#[test]
fn refiltering_a_match_set_reproduces_it() {
    let contents = "\
Rust:
safe, fast, productive.
Pick three.
Trust me.";

    let first = search_case_sensitive("st", contents);
    let rejoined = first.join("\n");
    let second = search_case_sensitive("st", &rejoined);
    assert_eq!(first, second);

    let first = search_case_insensitive("RUST", contents);
    let rejoined = first.join("\n");
    let second = search_case_insensitive("RUST", &rejoined);
    assert_eq!(first, second);
}

#[test]
fn insensitive_result_includes_sensitive_result() {
    let contents = "\
Rust:
safe, fast, productive.
Pick three.
Duct tape.";

    let sensitive = search_case_sensitive("duct", contents);
    let insensitive = search_case_insensitive("duct", contents);
    for line in &sensitive {
        assert!(insensitive.contains(line));
    }
    assert_eq!(vec!["safe, fast, productive.", "Duct tape."], insensitive);
}

#[test]
fn crlf_line_endings_are_stripped() {
    let contents = "one\r\ntwo\r\nthree";
    assert_eq!(vec!["one", "two", "three"], search_case_sensitive("", contents));
}

#[test]
fn trailing_newline_opens_no_extra_line() {
    let contents = "one\ntwo\n";
    assert_eq!(vec!["one", "two"], search_case_sensitive("", contents));
}

#[test]
fn returned_lines_are_verbatim_slices() {
    let contents = "  padded line with duct  \nother";
    assert_eq!(vec!["  padded line with duct  "], search_case_sensitive("duct", contents));
}
