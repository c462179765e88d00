use weaveback::remap::{key_noweb_entries, normalise_for_hash, remap_noweb_entries};
use weaveback::store::{Confidence, NowebMapEntry};

fn entry(chunk: &str, line: u32) -> NowebMapEntry {
    NowebMapEntry {
        src_file: "a.adoc".to_string(),
        chunk_name: chunk.to_string(),
        src_line: line,
        indent: String::new(),
        confidence: Confidence::Exact,
    }
}

#[test]
fn normalise_for_hash_drops_comments_and_space() {
    assert_eq!(normalise_for_hash("  let x = 1; // note "), "let x = 1;");
    assert_eq!(normalise_for_hash("\tfoo()\t"), "foo()");
    assert_eq!(normalise_for_hash("// all comment"), "");
}

#[test]
fn remap_keeps_equal_lines_and_infers_inserted_ones() {
    let pre = vec!["fn a() {\n".to_string(), "x();\n".to_string(), "}\n".to_string()];
    let post = "fn a() {\n    x();\n}\n";
    let entries = vec![entry("a", 10), entry("a", 11), entry("a", 12)];
    let r = remap_noweb_entries(&pre, post, entries);
    assert_eq!(r.len(), 3);
    assert_eq!((r[0].0, r[0].1.src_line, r[0].1.confidence), (0, 10, Confidence::Exact));
    assert_eq!((r[1].0, r[1].1.src_line, r[1].1.confidence), (1, 11, Confidence::HashMatch));
    assert_eq!((r[2].0, r[2].1.src_line, r[2].1.confidence), (2, 12, Confidence::Exact));
}

#[test]
fn remap_fills_new_lines_from_their_neighbours() {
    let pre = vec!["a\n".to_string(), "b\n".to_string()];
    let post = "a\n\nb\n";
    let entries = vec![entry("c", 1), entry("c", 2)];
    let r = remap_noweb_entries(&pre, post, entries);
    assert_eq!(r.len(), 3);
    assert_eq!((r[1].0, r[1].1.src_line, r[1].1.confidence), (1, 1, Confidence::Inferred));
    assert_eq!(r[2].1.src_line, 2);
}

#[test]
fn unchanged_files_keep_their_entries() {
    let lines = vec!["a\n".to_string(), "b\n".to_string()];
    let entries = vec![entry("c", 1), entry("c", 2)];
    let r = key_noweb_entries(&lines, Some("a\nb\n"), entries);
    assert_eq!(r.iter().map(|(i, e)| (*i, e.src_line)).collect::<Vec<_>>(), vec![(0, 1), (1, 2)]);
    let r = key_noweb_entries(&lines[..1], None, vec![entry("c", 5)]);
    assert_eq!(r.len(), 1);
    assert_eq!(r[0].1.src_line, 5);
}
