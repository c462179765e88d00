use weaveback::tangle::tangle_check;

#[test]
fn advanced_tangle_check_expands_file_chunks_in_memory() {
    let src = "# <<@file out.txt>>=\nhello\n# @\n";
    let markers = vec!["#".to_string()];
    let result = tangle_check(&[(src, "src.nw")], "<<", ">>", "@", &markers).unwrap();
    assert!(result.contains_key("out.txt"), "expected out.txt in result map");
    assert_eq!(result["out.txt"], vec!["hello\n"]);
}

#[test]
fn advanced_tangle_check_returns_error_on_undefined_strict() {
    let src = "# <<@file out.txt>>=\n# <<missing>>\n# @\n";
    let markers = vec!["#".to_string()];
    let result = tangle_check(&[(src, "src.nw")], "<<", ">>", "@", &markers).unwrap();
    assert_eq!(result["out.txt"], Vec::<String>::new());
}

#[test]
fn advanced_tangle_check_handles_multiple_files() {
    let a = "# <<@file a.txt>>=\nalpha\n# @\n";
    let b = "# <<@file b.txt>>=\nbeta\n# @\n";
    let markers = vec!["#".to_string()];
    let result = tangle_check(&[(a, "a.nw"), (b, "b.nw")], "<<", ">>", "@", &markers).unwrap();
    assert_eq!(result["a.txt"], vec!["alpha\n"]);
    assert_eq!(result["b.txt"], vec!["beta\n"]);
}

#[test]
fn tangle_check_tangle_check_expands_file_chunks_in_memory() {
    let src = "# <<@file out.txt>>=\nhello\n# @\n";
    let markers = vec!["#".to_string()];
    let result = tangle_check(&[(src, "src.nw")], "<<", ">>", "@", &markers).unwrap();
    assert!(result.contains_key("out.txt"), "expected out.txt in result map");
    assert_eq!(result["out.txt"], vec!["hello\n"]);
}

#[test]
fn tangle_check_tangle_check_returns_error_on_undefined_strict() {
    let src = "# <<@file out.txt>>=\n# <<missing>>\n# @\n";
    let markers = vec!["#".to_string()];
    let result = tangle_check(&[(src, "src.nw")], "<<", ">>", "@", &markers).unwrap();
    assert_eq!(result["out.txt"], Vec::<String>::new());
}

#[test]
fn tangle_check_tangle_check_handles_multiple_files() {
    let a = "# <<@file a.txt>>=\nalpha\n# @\n";
    let b = "# <<@file b.txt>>=\nbeta\n# @\n";
    let markers = vec!["#".to_string()];
    let result = tangle_check(&[(a, "a.nw"), (b, "b.nw")], "<<", ">>", "@", &markers).unwrap();
    assert_eq!(result["a.txt"], vec!["alpha\n"]);
    assert_eq!(result["b.txt"], vec!["beta\n"]);
}

// ── further cases ────────────────────────────────────────────────────────

#[test]
fn tangle_check_reports_a_recursive_reference() {
    let src = "# <<@file out.txt>>=\n# <<a>>\n# @\n# <<a>>=\n# <<a>>\n# @\n";
    let markers = vec!["#".to_string()];
    let result = tangle_check(&[(src, "src.nw")], "<<", ">>", "@", &markers);
    assert!(result.is_err());
}

#[test]
fn tangle_check_indents_referenced_lines() {
    let src = "# <<@file out.txt>>=\n  # <<body>>\n# @\n# <<body>>=\nx\n# @\n";
    let markers = vec!["#".to_string()];
    let result = tangle_check(&[(src, "src.nw")], "<<", ">>", "@", &markers).unwrap();
    assert_eq!(result["out.txt"], vec!["  x\n"]);
}
