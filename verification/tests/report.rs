use weaveback::apply::{apply_params_error, check_apply_params, prepare_apply};
use weaveback::errors::{ChunkError, ChunkLocation};
use weaveback::store::ChunkStore;

#[test]
fn chunk_error_messages_give_file_line_and_cause() {
    let loc = ChunkLocation { file_idx: 0, line: 4 };
    let e = ChunkError::UndefinedChunk { chunk: "x".to_string(), file_name: "a.nw".to_string(), location: loc };
    assert_eq!(e.message(), "a.nw line 5: referenced chunk 'x' is undefined");
    let e = ChunkError::RecursiveReference {
        chunk: "a".to_string(),
        cycle: vec!["a".to_string(), "b".to_string(), "a".to_string()],
        file_name: "f".to_string(),
        location: ChunkLocation { file_idx: 0, line: 0 },
    };
    assert_eq!(e.message(), "f line 1: recursive reference detected in chunk 'a' (cycle: a -> b -> a)");
    let e = ChunkError::FileChunkRedefinition {
        file_chunk: "@file o".to_string(),
        file_name: "f".to_string(),
        location: ChunkLocation { file_idx: 0, line: 9 },
    };
    assert_eq!(e.message(), "f line 10: file chunk '@file o' is already defined (use @replace to redefine)");
    let e = ChunkError::IoError(std::io::Error::other("boom"));
    assert_eq!(e.message(), "I/O error: boom");
}

#[test]
fn unused_chunks_are_reported_in_order() {
    let mut store = ChunkStore::new("<<", ">>", "@", &["#".to_string()]);
    let idx = store.add_file_name("doc.nw");
    store.read("# <<@file out>>=\n# <<used>>\n# @\n# <<zeta>>=\nz\n# @\n# <<used>>=\nu\n# @\n# <<alpha>>=\na\n# @\n", idx);
    let warns = store.check_unused_chunks(&["used".to_string()]);
    assert_eq!(
        warns,
        vec![
            "Warning: doc.nw line 10: chunk 'alpha' is defined but never referenced".to_string(),
            "Warning: doc.nw line 4: chunk 'zeta' is defined but never referenced".to_string(),
        ]
    );
}

#[test]
fn apply_requests_are_checked_before_anything_is_read() {
    assert_eq!(apply_params_error("", "n", false), Some("missing_params".to_string()));
    assert_eq!(apply_params_error("a/../b", "n", false), Some("invalid_path".to_string()));
    assert_eq!(apply_params_error("a/b", "n", true), Some("invalid_path".to_string()));
    assert_eq!(apply_params_error("a/b", "n", false), None);
    assert_eq!(check_apply_params("/abs", "n"), Some("invalid_path".to_string()));
    assert_eq!(check_apply_params("docs/a.adoc", "n"), None);
}

#[test]
fn prepared_edits_check_the_old_body() {
    let src = "h\n// <<c>>=\nold\n// @\n";
    assert_eq!(prepare_apply(src, 2, 4, "old\n", "new"), Ok("h\n// <<c>>=\nnew\n// @\n".to_string()));
    assert_eq!(prepare_apply(src, 2, 4, "other", "new"), Err("body_mismatch".to_string()));
    assert_eq!(prepare_apply(src, 9, 10, "old", "new"), Err("bounds_error".to_string()));
}
