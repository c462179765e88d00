use std::path::Path;
use weaveback::lint::{comment_markers_of, lint_chunk_body_outside_fence, LintRule};
use weaveback::syntax::NowebSyntax;

#[test]
fn lint_detects_chunk_outside_fence() {
    let text = "= Title\n\n// <<alpha>>=\nbody\n// @\n";
    let syntaxes = vec![NowebSyntax::new(
        "<<",
        ">>",
        "@",
        &["#".to_string(), "//".to_string()],
    )];
    let violations = lint_chunk_body_outside_fence(Path::new("sample.adoc"), text, &syntaxes);
    assert_eq!(violations.len(), 1);
    assert_eq!(violations[0].line, 3);
    assert_eq!(violations[0].rule, LintRule::ChunkBodyOutsideFence);
}

#[test]
fn lint_accepts_chunk_inside_fence() {
    let text = "= Title\n\n----\n// <<alpha>>=\nbody\n// @\n----\n";
    let syntaxes = vec![NowebSyntax::new(
        "<<",
        ">>",
        "@",
        &["#".to_string(), "//".to_string()],
    )];
    assert!(lint_chunk_body_outside_fence(Path::new("sample.adoc"), text, &syntaxes).is_empty());
}

#[test]
fn lint_detects_hash_prefixed_angle_bracket_chunks() {
    let text = "= Title\n\n# <[alpha]>=\nbody\n# @@\n";
    let syntaxes = vec![NowebSyntax::new(
        "<[",
        "]>",
        "@@",
        &["#".to_string(), "//".to_string()],
    )];
    let violations = lint_chunk_body_outside_fence(Path::new("sample.adoc"), text, &syntaxes);
    assert_eq!(violations.len(), 1);
    assert!(violations[0].message.contains("alpha"));
}

#[test]
fn lint_detects_uncommented_triple_angle_chunks() {
    let text = "= Title\n\n<<<alpha>>>=\nbody\n@@\n";
    let syntaxes = vec![NowebSyntax::new("<<<", ">>>", "@@", &["//".to_string()])];
    let violations = lint_chunk_body_outside_fence(Path::new("sample.adoc"), text, &syntaxes);
    assert_eq!(violations.len(), 1);
    assert!(violations[0].message.contains("alpha"));
}

// ── further cases ────────────────────────────────────────────────────────

#[test]
fn lint_message_and_hint_name_the_chunk_and_the_fix() {
    let text = "// <<beta>>=\nx\n// @\n";
    let syntaxes = vec![NowebSyntax::new("<<", ">>", "@", &["//".to_string()])];
    let v = lint_chunk_body_outside_fence(Path::new("a.adoc"), text, &syntaxes);
    assert_eq!(v[0].message, "chunk definition `beta` is not enclosed by a fenced code block");
    assert_eq!(
        v[0].hint.as_deref(),
        Some("wrap the chunk definition in an AsciiDoc listing block fenced by `----`")
    );
    assert_eq!(v[0].file, Path::new("a.adoc"));
}

#[test]
fn lint_rule_names_round_trip() {
    assert_eq!(LintRule::ChunkBodyOutsideFence.id(), "chunk-body-outside-fence");
    assert_eq!(LintRule::parse("chunk-body-outside-fence"), Ok(LintRule::ChunkBodyOutsideFence));
    assert_eq!(
        LintRule::parse("nope"),
        Err("unknown lint rule 'nope' (supported: chunk-body-outside-fence)".to_string())
    );
    assert_eq!("chunk-body-outside-fence".parse::<LintRule>(), Ok(LintRule::ChunkBodyOutsideFence));
}

#[test]
fn comment_markers_are_split_trimmed_and_non_empty() {
    assert_eq!(comment_markers_of("#, // ,,;"), vec!["#", "//", ";"]);
    assert!(comment_markers_of(" , ").is_empty());
}
