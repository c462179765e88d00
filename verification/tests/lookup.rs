use weaveback::lookup::{distinctive_suffix_candidates, find_line_col, source_config_candidates};

#[test]
fn distinctive_suffix_candidates_stop_before_ambiguous_short_forms() {
    assert_eq!(
        distinctive_suffix_candidates("crates/weaveback/src/main.rs"),
        vec!["weaveback/src/main.rs".to_string()]
    );
    assert_eq!(
        distinctive_suffix_candidates(r"C:\tmp\ws\crate\src\main.rs"),
        vec![
            "tmp/ws/crate/src/main.rs".to_string(),
            "ws/crate/src/main.rs".to_string(),
            "crate/src/main.rs".to_string(),
        ]
    );
    assert!(distinctive_suffix_candidates("src/main.rs").is_empty());
    assert!(distinctive_suffix_candidates("main.rs").is_empty());
}

#[test]
fn find_line_col_start_of_file() {
    let (line, col) = find_line_col("hello\nworld", 0);
    assert_eq!((line, col), (1, 1));
}

#[test]
fn find_line_col_end_of_first_line() {
    let text = "hello\nworld";
    let (line, col) = find_line_col(text, 5);
    assert_eq!((line, col), (1, 6));
}

#[test]
fn find_line_col_start_of_second_line() {
    let text = "hello\nworld";
    let (line, col) = find_line_col(text, 6);
    assert_eq!((line, col), (2, 1));
}

#[test]
fn find_line_col_clamps_to_text_length() {
    let text = "abc";
    let (line, col) = find_line_col(text, 999);
    assert_eq!((line, col), (1, 4));
}

#[test]
fn find_line_col_empty_text() {
    let (line, col) = find_line_col("", 0);
    assert_eq!((line, col), (1, 1));
}

// ── further cases ────────────────────────────────────────────────────────

#[test]
fn find_line_col_counts_characters_not_bytes() {
    let text = "x\né€z";
    assert_eq!(find_line_col(text, text.len()), (2, 4));
    assert_eq!(find_line_col(text, 4), (2, 2));
}

#[test]
fn source_config_candidates_in_order() {
    assert_eq!(source_config_candidates("a.adoc"), vec!["a.adoc", "./a.adoc"]);
    assert_eq!(source_config_candidates("./a.adoc"), vec!["./a.adoc", "a.adoc"]);
    assert_eq!(source_config_candidates("/abs/a.adoc"), vec!["/abs/a.adoc"]);
    assert_eq!(
        source_config_candidates("crates/x/a.adoc"),
        vec!["crates/x/a.adoc", "./crates/x/a.adoc", "x/a.adoc", "./x/a.adoc"]
    );
}
