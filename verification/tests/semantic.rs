use weaveback::semantic::{block_text, snapshot_fallback};

#[test]
fn block_text_joins_the_lines_of_the_block() {
    let src = "one\ntwo\nthree\nfour\n";
    assert_eq!(block_text(src, 2, 3), "two\nthree");
    assert_eq!(block_text(src, 1, 1), "one");
    assert_eq!(block_text(src, 0, 2), "one\ntwo");
    assert_eq!(block_text(src, 3, 10), "three\nfour");
}

#[test]
fn block_text_outside_the_source_is_empty() {
    let src = "one\ntwo\n";
    assert_eq!(block_text(src, 3, 5), "");
    assert_eq!(block_text(src, 2, 1), "");
    assert_eq!(block_text("", 1, 1), "");
}

#[test]
fn block_text_reads_lines_as_str_lines_does() {
    let src = "a\r\nb\r\nc";
    let expect: Vec<&str> = src.lines().collect();
    assert_eq!(block_text(src, 1, 3), expect.join("\n"));
}

#[test]
fn snapshot_fallback_drops_a_leading_dot_slash() {
    assert_eq!(snapshot_fallback("./docs/a.adoc"), "docs/a.adoc");
    assert_eq!(snapshot_fallback("docs/a.adoc"), "docs/a.adoc");
    assert_eq!(snapshot_fallback("../a.adoc"), "../a.adoc");
    assert_eq!(snapshot_fallback("."), ".");
}
