use std::collections::HashSet;
use weaveback::errors::{ChunkError, SafeWriterError, WeavebackError};
use weaveback::store::ChunkStore;
use weaveback::syntax::NowebSyntax;
use weaveback::writer::validate_filename;

const FILE_CHUNKS: &str = r#"
# <<@file output.txt>>=
Hello, world!
# @

# <<helper>>=
helper content
# @
"#;

fn store_with(markers: &[&str]) -> ChunkStore {
    let markers: Vec<String> = markers.iter().map(|m| m.to_string()).collect();
    ChunkStore::new("<<", ">>", "@", &markers)
}

fn read(store: &mut ChunkStore, text: &str, file_name: &str) {
    let idx = store.add_file_name(file_name);
    store.read(text, idx);
}

fn expand(store: &ChunkStore, name: &str) -> Result<Vec<String>, WeavebackError> {
    store.expand(name, "").map_err(WeavebackError::Chunk)
}

#[test]
fn test_duplicate_file_chunk_keeps_first_definition() {
    let mut store = store_with(&["#"]);
    read(
        &mut store,
        r#"
# <<@file out.txt>>=
first definition
# @

# <<@file out.txt>>=
second definition
# @
"#,
        "duplicate.nw",
    );
    assert!(store.has_chunk("@file out.txt"), "first definition should be kept");
    let content = store.get_chunk_content("@file out.txt").unwrap();
    assert!(
        content.iter().any(|l| l.contains("first definition")),
        "first definition content should be preserved, got: {:?}",
        content
    );
    assert!(!content.iter().any(|l| l.contains("second definition")), "second definition should be rejected");
}

#[test]
fn test_file_chunk_detection() {
    let mut store = store_with(&["#"]);
    read(&mut store, FILE_CHUNKS, "test_files.nw");
    let file_chunks = store.get_file_chunks();
    assert_eq!(file_chunks.len(), 1);
    assert!(file_chunks.contains(&"@file output.txt".to_string()));
}

#[test]
fn test_undefined_chunk_is_error() {
    let mut store = store_with(&["#"]);
    read(
        &mut store,
        r#"
# <<main>>=
# <<nonexistent>>
# @
"#,
        "undefined.nw",
    );
    store.set_strict_undefined(true);
    let result = expand(&store, "main");
    assert!(result.is_err(), "referencing an undefined chunk must be an error");
    let err = result.unwrap_err();
    assert!(
        matches!(err, WeavebackError::Chunk(ChunkError::UndefinedChunk { ref chunk, .. }) if chunk == "nonexistent"),
        "expected UndefinedChunk error, got: {}",
        err.message(),
    );
}

#[test]
fn test_undefined_chunk_is_empty_when_not_strict() {
    let mut store = store_with(&["#"]);
    read(
        &mut store,
        r#"
# <<main>>=
line before
# <<optional>>
line after
# @
"#,
        "undefined.nw",
    );
    let result = expand(&store, "main");
    assert!(result.is_ok(), "undefined chunk should expand to empty when not strict");
    let lines = result.unwrap();
    assert_eq!(lines, vec!["line before\n", "line after\n"]);
}

#[test]
fn test_recursive_chunk_error() {
    let mut store = store_with(&["#"]);
    read(
        &mut store,
        r#"
# <<recursive>>=
Start
# <<recursive>>
End
# @
"#,
        "recursive.nw",
    );
    let result = expand(&store, "recursive");
    match result {
        Err(WeavebackError::Chunk(ChunkError::RecursiveReference { chunk, cycle, file_name, location })) => {
            assert_eq!(chunk, "recursive");
            assert_eq!(file_name, "recursive.nw");
            assert_eq!(location.line, 2);
            assert_eq!(cycle, vec!["recursive", "recursive"]);
        }
        _ => panic!("Expected RecursiveReference error"),
    }
}

#[test]
fn test_mutual_recursion_error() {
    let mut store = store_with(&["#"]);
    read(
        &mut store,
        r#"
# <<chunk-a>>=
Start A
# <<chunk-b>>
End A
# @

# <<chunk-b>>=
Middle B
# <<chunk-a>>
End B
# @
"#,
        "mutual_recursion.nw",
    );
    let result = expand(&store, "chunk-a");
    match result {
        Err(WeavebackError::Chunk(ChunkError::RecursiveReference { chunk, cycle, file_name, location })) => {
            assert_eq!(chunk, "chunk-a");
            assert_eq!(file_name, "mutual_recursion.nw");
            assert_eq!(location.line, 8);
            assert_eq!(cycle, vec!["chunk-a", "chunk-b", "chunk-a"]);
        }
        _ => panic!("Expected RecursiveReference error"),
    }
}

#[test]
fn test_max_recursion_depth() {
    let mut store = store_with(&["#"]);
    let mut content = String::from(
        r#"
# <<a-000>>=
# <<a-001>>
# @"#,
    );
    let chain_length = 150;
    for i in 1..chain_length {
        content.push_str(&format!(
            r#"
# <<a-{:03}>>=
# <<a-{:03}>>
# @"#,
            i,
            i + 1
        ));
    }
    read(&mut store, &content, "max_recursion.nw");
    let result = expand(&store, "a-000");
    assert!(
        matches!(result, Err(WeavebackError::Chunk(ChunkError::RecursionLimit { .. }))),
        "Expected RecursionLimit error"
    );
}

#[test]
fn test_error_messages_format() {
    let mut store = store_with(&["#"]);
    read(
        &mut store,
        r#"
# <<a>>=
# <<a>>
# @
"#,
        "errors.nw",
    );
    let err = expand(&store, "a").unwrap_err();
    let error_msg = err.message();
    assert!(error_msg.contains("Chunk error: errors.nw line 2:"));
    assert!(error_msg.contains("recursive reference detected in chunk 'a'"));
    assert!(error_msg.contains("cycle: a -> a"));
}

#[test]
fn test_dangerous_comment_markers() {
    let markers = &[
        "#",
        r".*",
        r"[a-z]+",
        r"\d+",
        "<<",
        ">>",
        "(comment)",
    ];
    let content = r#"
#<<test1>>=
Content1
@
.*<<test2>>=
Content2
@
[a-z]+<<test3>>=
Content3
@
(comment)<<test4>>=
Content4
@
"#;
    let mut store = store_with(markers);
    read(&mut store, content, "regex_test.nw");
    assert!(store.has_chunk("test1"), "Basic marker # failed");
    assert!(store.has_chunk("test2"), "Wildcard marker .* failed");
    assert!(store.has_chunk("test3"), "Character class marker [a-z]+ failed");
    assert!(store.has_chunk("test4"), "Group marker (comment) failed");
    assert_eq!(store.get_chunk_content("test1").unwrap(), vec!["Content1\n"]);
}

#[test]
fn test_replace_normal_chunk() {
    let mut store = store_with(&["#"]);
    read(
        &mut store,
        r#"
# <<greet>>=
Hello
# @

# <<@replace greet>>=
Hi
# @
"#,
        "replace_normal.nw",
    );
    let content = store.get_chunk_content("greet").unwrap();
    assert_eq!(content, vec!["Hi\n"], "only the @replace definition should survive");
}

#[test]
fn test_replace_file_chunk() {
    let mut store = store_with(&["#"]);
    read(
        &mut store,
        r#"
# <<@file out.txt>>=
old content
# @

# <<@replace @file out.txt>>=
new content
# @
"#,
        "replace_file.nw",
    );
    let content = store.get_chunk_content("@file out.txt").unwrap();
    assert_eq!(content, vec!["new content\n"], "@replace should replace file chunk");
}

#[test]
fn test_no_replace_file_chunk_keeps_first() {
    let mut store = store_with(&["#"]);
    read(
        &mut store,
        r#"
# <<@file out.txt>>=
first
# @

# <<@file out.txt>>=
second
# @
"#,
        "no_replace_file.nw",
    );
    let content = store.get_chunk_content("@file out.txt").unwrap();
    assert!(content.iter().any(|l| l.contains("first")), "first definition should be kept without @replace");
    assert!(!content.iter().any(|l| l.contains("second")), "second definition should be rejected without @replace");
}

#[test]
fn test_accumulated_chunks_normal_order() {
    let mut store = store_with(&["#"]);
    read(
        &mut store,
        r#"
# <<items>>=
alpha
# @

# <<items>>=
beta
# @

# <<items>>=
gamma
# @

# <<list>>=
# <<items>>
# @
"#,
        "normal_order.nw",
    );
    let expanded = expand(&store, "list").unwrap();
    assert_eq!(expanded, vec!["alpha\n", "beta\n", "gamma\n"]);
}

#[test]
fn test_reversed_reference() {
    let mut store = store_with(&["#"]);
    read(
        &mut store,
        r#"
# <<items>>=
alpha
# @

# <<items>>=
beta
# @

# <<items>>=
gamma
# @

# <<list>>=
# <<@reversed items>>
# @
"#,
        "reversed.nw",
    );
    let expanded = expand(&store, "list").unwrap();
    assert_eq!(expanded, vec!["gamma\n", "beta\n", "alpha\n"]);
}

#[test]
fn test_compact_reference_trims_blank_edge_lines() {
    let mut store = store_with(&["#"]);
    read(
        &mut store,
        r#"
# <<rows>>=

alpha

# @

# <<rows>>=

beta

# @

# <<list>>=
# <<@compact rows>>
# @
"#,
        "compact.nw",
    );
    let expanded = expand(&store, "list").unwrap();
    assert_eq!(expanded, vec!["alpha\n", "beta\n"]);
}

#[test]
fn test_tight_reference_drops_blank_only_lines() {
    let mut store = store_with(&["#"]);
    read(
        &mut store,
        r#"
# <<rows>>=

alpha

omega

# @

# <<list>>=
# <<@tight rows>>
# @
"#,
        "tight.nw",
    );
    let expanded = expand(&store, "list").unwrap();
    assert_eq!(expanded, vec!["alpha\n", "omega\n"]);
}

#[test]
fn test_check_unused_chunks_finds_orphan() {
    let mut store = store_with(&["#"]);
    read(
        &mut store,
        "# <<@file out.txt>>=\nhello\n# @\n\
         # <<orphan>>=\nnever used\n# @\n",
        "src.nw",
    );
    let all_file_chunks: HashSet<String> = store.get_file_chunks().into_iter().collect();
    let referenced: Vec<String> = all_file_chunks.into_iter().collect();
    let warns = store.check_unused_chunks(&referenced);
    assert!(
        warns.iter().any(|w| w.contains("orphan")),
        "expected unused-chunk warning for 'orphan', got: {:?}",
        warns
    );
}

#[test]
fn test_check_unused_chunks_skips_referenced() {
    let mut store = store_with(&["#"]);
    read(
        &mut store,
        "# <<@file out.txt>>=\n# <<used>>\n# @\n\
         # <<used>>=\ncontent\n# @\n",
        "src.nw",
    );
    let mut referenced = HashSet::new();
    referenced.insert("@file out.txt".to_string());
    referenced.insert("used".to_string());
    let referenced: Vec<String> = referenced.into_iter().collect();
    let warns = store.check_unused_chunks(&referenced);
    assert!(
        warns.is_empty(),
        "no unused-chunk warnings expected when all chunks are reachable, got: {:?}",
        warns
    );
}

#[test]
fn noweb_syntax_parse_definition_line_file_chunk() {
    let syn = NowebSyntax::new("<<", ">>", "@", &["#".to_string()]);
    let m = syn.parse_definition_line("# <<@file out.rs>>=").unwrap();
    assert!(m.is_file);
    assert_eq!(m.base_name, "out.rs");
    assert!(!m.is_replace);
}

#[test]
fn noweb_syntax_parse_definition_line_replace() {
    let syn = NowebSyntax::new("<<", ">>", "@", &["#".to_string()]);
    let m = syn.parse_definition_line("# <<@replace greet>>=").unwrap();
    assert!(m.is_replace);
    assert!(!m.is_file);
    assert_eq!(m.base_name, "greet");
}

#[test]
fn noweb_syntax_parse_definition_line_returns_none_for_content() {
    let syn = NowebSyntax::new("<<", ">>", "@", &["#".to_string()]);
    assert!(syn.parse_definition_line("just a plain line").is_none());
    assert!(syn.parse_definition_line("# ordinary comment").is_none());
}

#[test]
fn noweb_syntax_is_close_line() {
    let syn = NowebSyntax::new("<<", ">>", "@", &["#".to_string()]);
    assert!(syn.is_close_line("# @"));
    assert!(syn.is_close_line("@"));
    assert!(!syn.is_close_line("not a close"));
    assert!(!syn.is_close_line("# @ more text"));
}

#[test]
fn chunk_defs_records_definition_line_ranges() {
    let mut store = store_with(&["#"]);
    read(&mut store, "# <<greet>>=\nhello\n# @\n", "src.nw");
    let content = store.get_chunk_content("greet").unwrap();
    assert_eq!(content, vec!["hello\n"]);
}

#[test]
fn file_chunk_with_absolute_path_blocked_without_allow_home() {
    let mut store = store_with(&["#"]);
    read(&mut store, "# <<@file /etc/passwd>>=\nbad\n# @\n", "src.nw");
    assert!(
        !store.get_file_chunks().contains(&"@file /etc/passwd".to_string()),
        "absolute-path @file chunk should be rejected"
    );
}

#[test]
fn file_chunk_with_parent_dir_traversal_blocked() {
    let mut store = store_with(&["#"]);
    read(&mut store, "# <<@file ../../escape.txt>>=\nbad\n# @\n", "src.nw");
    assert!(
        !store.get_file_chunks().contains(&"@file ../../escape.txt".to_string()),
        "path-traversal @file chunk should be rejected"
    );
}

#[test]
fn file_chunk_with_windows_path_blocked() {
    let mut store = store_with(&["#"]);
    read(&mut store, "# <<@file C:\\evil.txt>>=\nbad\n# @\n", "src.nw");
    assert!(
        !store.get_file_chunks().contains(&"@file C:\\evil.txt".to_string()),
        "windows-style @file chunk should be rejected"
    );
}

#[test]
fn clip_reset_clears_chunks() {
    let mut store = store_with(&["#"]);
    read(&mut store, "# <<@file out.txt>>=\nhello\n# @\n", "src.nw");
    assert!(store.has_chunk("@file out.txt"));
    store.reset();
    assert!(!store.has_chunk("@file out.txt"), "reset should clear chunks");
    assert!(store.get_file_chunks().is_empty(), "reset should clear file chunks list");
}

#[test]
fn reading_records_a_file_chunk_redefinition() {
    let mut store = store_with(&["#"]);
    store.set_strict_undefined(true);
    read(
        &mut store,
        "# <<@file out.txt>>=\nfirst\n# @\n\n# <<@file out.txt>>=\nsecond\n# @\n",
        "src.nw",
    );
    match store.parse_errors().first() {
        Some(ChunkError::FileChunkRedefinition { .. }) => {}
        other => panic!("expected FileChunkRedefinition, got: {:?}", other.map(|e| e.message())),
    }
}

// ── file names checked by the writer ────────────────────────────────────────

fn write_check(path: &str) -> Result<(), WeavebackError> {
    validate_filename(path).map_err(WeavebackError::SafeWriter)
}

#[test]
fn test_invalid_path() {
    match write_check("/nonexistent/path/test.txt") {
        Err(WeavebackError::SafeWriter(SafeWriterError::SecurityViolation(msg))) => {
            assert!(msg.contains("Absolute paths are not allowed"), "Expected SecurityViolation for absolute path");
        }
        Ok(_) => panic!("Expected SecurityViolation error"),
        Err(e) => panic!("Unexpected error: {}", e.message()),
    }
}

#[test]
fn test_validate_filename_absolute_unix() {
    match write_check("/absolute/unix/path.txt") {
        Err(WeavebackError::SafeWriter(SafeWriterError::SecurityViolation(msg))) => {
            assert!(msg.contains("Absolute paths are not allowed"), "Expected absolute path error message");
        }
        _ => panic!("Expected SecurityViolation for absolute Unix path"),
    }
}

#[test]
fn test_validate_filename_absolute_windows() {
    match write_check("C:/windows/path.txt") {
        Err(WeavebackError::SafeWriter(SafeWriterError::SecurityViolation(msg))) => {
            assert!(
                msg.contains("Windows-style absolute paths are not allowed"),
                "Expected windows-style absolute path error message"
            );
        }
        _ => panic!("Expected SecurityViolation for Windows absolute path"),
    }
}

#[test]
fn test_validate_filename_drive_letter_without_slash() {
    match write_check("C:test.txt") {
        Err(WeavebackError::SafeWriter(SafeWriterError::SecurityViolation(msg))) => {
            assert!(
                msg.contains("Windows-style absolute paths are not allowed"),
                "Expected windows-style absolute path error message"
            );
        }
        _ => panic!("Expected SecurityViolation for Windows-style drive path"),
    }
}

#[test]
fn test_validate_filename_parent_traversal() {
    match write_check("../outside.txt") {
        Err(WeavebackError::SafeWriter(SafeWriterError::SecurityViolation(msg))) => {
            assert!(msg.contains("Path traversal detected (..)"), "Expected path traversal error message");
        }
        _ => panic!("Expected SecurityViolation for path traversal"),
    }
}

#[test]
fn test_validate_filename_nested_parent_traversal() {
    match write_check("dir1/../dir2/test.txt") {
        Err(WeavebackError::SafeWriter(SafeWriterError::SecurityViolation(msg))) => {
            assert!(msg.contains("Path traversal detected (..)"), "Expected path traversal error message");
        }
        _ => panic!("Expected SecurityViolation for nested path traversal"),
    }
}

// ── messages of errors ───────────────────────────────────────────────────────

#[test]
fn error_messages_name_their_kind() {
    let e = WeavebackError::SafeWriter(SafeWriterError::SecurityViolation("no".to_string()));
    assert_eq!(e.message(), "Safe writer error: Security violation: no");
    let e = WeavebackError::Db(weaveback::errors::DbError::Sql("locked".to_string()));
    assert_eq!(e.message(), "Database error: database error: locked");
    let e = SafeWriterError::FormatterError("rustfmt failed".to_string());
    assert_eq!(e.message(), "Formatter error: rustfmt failed");
}

#[test]
fn reference_indentation_carries_over_to_every_line() {
    let mut store = store_with(&["#"]);
    read(
        &mut store,
        "# <<outer>>=\nfn f() {\n    # <<body>>\n}\n# @\n# <<body>>=\na\nb\n# @\n",
        "indent.nw",
    );
    assert_eq!(
        store.expand("outer", "  ").unwrap(),
        vec!["  fn f() {\n", "      a\n", "      b\n", "  }\n"]
    );
    let (lines, entries, _, _) = store.expand_with_map("outer", "  ").unwrap();
    for (l, e) in lines.iter().zip(entries.iter()) {
        assert!(l.starts_with(&e.indent) && e.indent.starts_with("  "));
    }
    assert_eq!(entries[1].indent, "      ");
}

#[test]
fn chunk_defs_give_the_lines_of_each_closed_definition() {
    let mut store = store_with(&["#"]);
    read(
        &mut store,
        "intro\n# <<greet>>=\nhello\n# @\n# <<greet>>=\nagain\n# @\n# <<open>>=\nnever closed\n",
        "src.nw",
    );
    let defs = store.chunk_defs();
    let got: Vec<(String, String, u32, u32, u32)> = defs
        .into_iter()
        .map(|d| (d.src_file, d.chunk_name, d.nth, d.def_start, d.def_end))
        .collect();
    assert_eq!(
        got,
        vec![
            ("src.nw".to_string(), "greet".to_string(), 0, 2, 4),
            ("src.nw".to_string(), "greet".to_string(), 1, 5, 7),
        ]
    );
}

#[test]
fn a_plain_chunk_expands_to_the_lines_read() {
    let mut store = store_with(&["#"]);
    read(&mut store, "  # <<x>>=\n  a\n    b\n# @\n", "plain.nw");
    assert_eq!(store.expand("x", "> ").unwrap(), vec!["> a\n", ">   b\n"]);
}

#[test]
fn expanding_under_an_indent_prefixes_every_unindented_line() {
    let mut store = store_with(&["#"]);
    read(
        &mut store,
        "# <<outer>>=\nfirst\n    # <<inner>>\n\nlast\n# @\n# <<inner>>=\nx = 1\n  y = 2\n# @\n",
        "src.nw",
    );
    let plain = store.expand("outer", "").unwrap();
    assert_eq!(plain, vec!["first\n", "    x = 1\n", "      y = 2\n", "\n", "last\n"]);
    let indented = store.expand("outer", "\t  ").unwrap();
    let prefixed: Vec<String> = plain.iter().map(|l| format!("\t  {l}")).collect();
    assert_eq!(indented, prefixed);
    let (_, plain_map, _, _) = store.expand_with_map("outer", "").unwrap();
    let (_, indented_map, _, _) = store.expand_with_map("outer", "\t  ").unwrap();
    assert_eq!(plain_map.len(), indented_map.len());
    for (a, b) in plain_map.iter().zip(indented_map.iter()) {
        assert_eq!(b.indent, format!("\t  {}", a.indent));
        assert_eq!((&b.src_file, &b.chunk_name, b.src_line), (&a.src_file, &a.chunk_name, a.src_line));
    }
}
