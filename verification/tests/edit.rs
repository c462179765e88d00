use weaveback::edit::{apply_chunk_edit, extract_chunk_body, insert_note_into_source};

#[test]
fn tests_test_apply_chunk_edit_replaces_correct_lines() {
    let src = "line1\n// <<chunk>>=\nold\n// @\nline2\n";
    let res = apply_chunk_edit(src, 2, 4, "new\nlines");
    assert_eq!(res, "line1\n// <<chunk>>=\nnew\nlines\n// @\nline2\n");
}

#[test]
fn tests_test_extract_chunk_body_returns_text_between_markers() {
    let src = "line1\n// <<chunk>>=\nbody line\n// @\nline2";
    let res = extract_chunk_body(src, 2, 4).unwrap();
    assert_eq!(res, "body line");
}

#[test]
fn tests_test_insert_note_into_source_places_note_after_fence() {
    let src = "== Header\n\n// <<chunk>>=\nbody\n// @\n----\n\nProse.";
    let res = insert_note_into_source(src, 5, "my note");
    assert!(res.contains("[NOTE]\n====\nmy note\n====\n"));
    assert!(res.contains("----\n[NOTE]"));
}

#[test]
fn editing_test_apply_chunk_edit_replaces_correct_lines() {
    let src = "line1\n// <<chunk>>=\nold\n// @\nline2\n";
    let res = apply_chunk_edit(src, 2, 4, "new\nlines");
    assert_eq!(res, "line1\n// <<chunk>>=\nnew\nlines\n// @\nline2\n");
}

#[test]
fn editing_test_extract_chunk_body_returns_text_between_markers() {
    let src = "line1\n// <<chunk>>=\nbody line\n// @\nline2";
    let res = extract_chunk_body(src, 2, 4).unwrap();
    assert_eq!(res, "body line");
}

#[test]
fn editing_test_insert_note_into_source_places_note_after_fence() {
    let src = "== Header\n\n// <<chunk>>=\nbody\n// @\n----\n\nProse.";
    let res = insert_note_into_source(src, 5, "my note");
    assert!(res.contains("[NOTE]\n====\nmy note\n====\n"));
    assert!(res.contains("----\n[NOTE]"));
}

// ── further cases ────────────────────────────────────────────────────────

#[test]
fn apply_chunk_edit_out_of_range_leaves_text_unchanged() {
    let src = "a\nb\n";
    assert_eq!(apply_chunk_edit(src, 5, 6, "x"), src);
    assert_eq!(apply_chunk_edit(src, 0, 3, "x"), src);
}

#[test]
fn apply_chunk_edit_drops_trailing_newlines_of_the_body_and_keeps_no_final_newline() {
    let src = "h\nold\nend";
    assert_eq!(apply_chunk_edit(src, 1, 3, "new\n\n"), "h\nnew\nend");
}

#[test]
fn extract_chunk_body_reports_bounds_errors() {
    assert_eq!(extract_chunk_body("a\nb\n", 2, 3), Err("bounds_error".to_string()));
    assert_eq!(extract_chunk_body("h\nx\ny\nend\n", 1, 4), Ok("x\ny".to_string()));
}

#[test]
fn extract_after_apply_gives_back_the_new_body() {
    let src = "h\n// <<c>>=\nold\n// @\nt\n";
    let edited = apply_chunk_edit(src, 2, 4, "one\ntwo\n");
    assert_eq!(extract_chunk_body(&edited, 2, 5), Ok("one\ntwo".to_string()));
}

#[test]
fn insert_note_without_fence_goes_after_the_marker() {
    let src = "a\n// @\nb\n";
    let res = insert_note_into_source(src, 2, "  hi  ");
    assert_eq!(res, "a\n// @\n[NOTE]\n====\nhi\n====\n\nb\n");
    let end = insert_note_into_source("a\n// @", 2, "n");
    assert_eq!(end, "a\n// @\n[NOTE]\n====\nn\n====\n");
}

#[test]
fn section_of_a_line_holds_it() {
    let lines = vec!["intro", "== A", "a1", "=== B", "b1", "== C"];
    let (s, e) = weaveback::prose::section_range(&lines, 4);
    assert!(s <= 4 && 4 < e);
    assert_eq!((s, e), (3, 5));
    let (s, e) = weaveback::prose::section_range(&lines, 0);
    assert_eq!((s, e), (0, 6));
}
