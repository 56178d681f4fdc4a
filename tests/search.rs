use philosophers::search::{search, search_case_insensitive, select_lines, select_lines_folded};

const CONTENTS: &str = "\
Rust:
safe, fast, productive.
Pick three.
Trust me.
It's all duct tape and baloney.";

#[test]
fn one_result() {
    let query = "fast";

    assert_eq!(vec!["safe, fast, productive."], search(query, CONTENTS));
}

#[test]
fn case_sensitive() {
    let query = "Pick";

    assert_eq!(vec!["Pick three."], search(query, CONTENTS));
}

#[test]
fn case_insensitive() {
    let query = "ruSt";

    assert_eq!(vec!["Rust:", "Trust me."], search_case_insensitive(query, CONTENTS));
}

#[test]
fn case_sensitive_search_ignores_other_case() {
    assert_eq!(vec!["Trust me."], search("rust", CONTENTS));
    assert!(search("RUST", CONTENTS).is_empty());
}

#[test]
fn empty_query_keeps_every_line() {
    assert_eq!(5, search("", CONTENTS).len());
    assert!(search("x", "").is_empty());
}

#[test]
fn lines_end_at_carriage_return_and_newline() {
    assert_eq!(vec!["ab", "cab"], search("ab", "ab\r\nx\ncab\n"));
}

#[test]
fn selecting_from_given_lines() {
    let lines = vec!["one", "Two", "three"];
    assert_eq!(vec!["three"], select_lines("th", &lines));
    let folded: Vec<String> = lines.iter().map(|l| l.to_lowercase()).collect();
    assert_eq!(vec!["Two"], select_lines_folded("two", &lines, &folded));
    assert!(select_lines_folded("TWO", &lines, &folded).is_empty());
    let marked = vec!["x".to_string(), "two".to_string(), "x".to_string()];
    assert_eq!(vec!["Two"], select_lines_folded("tw", &lines, &marked));
}
