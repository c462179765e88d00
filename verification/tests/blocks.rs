use weaveback::blocks::{
    build_line_table, byte_to_line, has_unclosed_adoc_fence, is_adoc_fence, is_adoc_section_header,
    parse_source_blocks,
};

#[test]
fn detects_unclosed_adoc_fence() {
    assert!(has_unclosed_adoc_fence("----\ncode\n"));
    assert!(!has_unclosed_adoc_fence("----\ncode\n----\n"));
}

#[test]
fn is_adoc_fence_dot_fence() {
    assert!(is_adoc_fence("...."));
    assert!(is_adoc_fence("........"));
    assert!(!is_adoc_fence("...x"));
}

#[test]
fn is_adoc_fence_plus_fence() {
    assert!(is_adoc_fence("++++"));
    assert!(!is_adoc_fence("+++-"));
}

#[test]
fn is_adoc_fence_dash_fence() {
    assert!(is_adoc_fence("----"));
    assert!(is_adoc_fence("--------"));
    assert!(!is_adoc_fence("---x"));
}

#[test]
fn is_adoc_section_header_various() {
    assert!(is_adoc_section_header("= Title"));
    assert!(is_adoc_section_header("== Section"));
    assert!(is_adoc_section_header("=== Sub"));
    assert!(is_adoc_section_header("="));
    assert!(!is_adoc_section_header("not a header"));
    assert!(!is_adoc_section_header("=x no space"));
}

// ── block parser cases ───────────────────────────────────────────────────

#[test]
fn block_parser_adoc_single_code_block() {
    let src = "= Title\n\n----\nfoo\n----\n\nProse.\n";
    let blocks = parse_source_blocks(src, "adoc");
    let types: Vec<_> = blocks.iter().map(|b| b.block_type.as_str()).collect();
    assert!(types.contains(&"code"), "expected code block, got {:?}", types);
    let code = blocks.iter().find(|b| b.block_type == "code").unwrap();
    assert_eq!(code.line_start, 3);
    assert_eq!(code.line_end, 5);
}

#[test]
fn block_parser_adoc_two_code_blocks_have_different_hashes() {
    let src = "----\nfoo\n----\n\n----\nbar\n----\n";
    let blocks = parse_source_blocks(src, "adoc");
    let codes: Vec<_> = blocks.iter().filter(|b| b.block_type == "code").collect();
    assert_eq!(codes.len(), 2);
    assert_ne!(codes[0].content_hash, codes[1].content_hash);
}

#[test]
fn block_parser_adoc_unchanged_block_same_hash() {
    let src = "----\nfoo\n----\n";
    let b1 = parse_source_blocks(src, "adoc");
    let b2 = parse_source_blocks(src, "adoc");
    assert_eq!(b1[0].content_hash, b2[0].content_hash);
}

#[test]
fn block_parser_markdown_heading_and_code() {
    let src = "# Heading\n\n```rust\nfn main() {}\n```\n";
    let blocks = parse_source_blocks(src, "md");
    let types: Vec<_> = blocks.iter().map(|b| b.block_type.as_str()).collect();
    assert!(types.contains(&"section"), "expected section, got {:?}", types);
    assert!(types.contains(&"code"), "expected code, got {:?}", types);
}

#[test]
fn block_parser_fallback_single_block() {
    let src = "line1\nline2\n";
    let blocks = parse_source_blocks(src, "rs");
    assert_eq!(blocks.len(), 1);
    assert_eq!(blocks[0].line_start, 1);
    assert_eq!(blocks[0].line_end, 2);
}

#[test]
fn tests_adoc_single_code_block() {
    let src = "= Title\n\n----\nfoo\n----\n\nProse.\n";
    let blocks = parse_source_blocks(src, "adoc");
    let types: Vec<_> = blocks.iter().map(|b| b.block_type.as_str()).collect();
    assert!(types.contains(&"code"), "expected code block, got {:?}", types);
    let code = blocks.iter().find(|b| b.block_type == "code").unwrap();
    assert_eq!(code.line_start, 3);
    assert_eq!(code.line_end, 5);
}

#[test]
fn tests_adoc_two_code_blocks_have_different_hashes() {
    let src = "----\nfoo\n----\n\n----\nbar\n----\n";
    let blocks = parse_source_blocks(src, "adoc");
    let codes: Vec<_> = blocks.iter().filter(|b| b.block_type == "code").collect();
    assert_eq!(codes.len(), 2);
    assert_ne!(codes[0].content_hash, codes[1].content_hash);
}

#[test]
fn tests_adoc_unchanged_block_same_hash() {
    let src = "----\nfoo\n----\n";
    let b1 = parse_source_blocks(src, "adoc");
    let b2 = parse_source_blocks(src, "adoc");
    assert_eq!(b1[0].content_hash, b2[0].content_hash);
}

#[test]
fn tests_markdown_heading_and_code() {
    let src = "# Heading\n\n```rust\nfn main() {}\n```\n";
    let blocks = parse_source_blocks(src, "md");
    let types: Vec<_> = blocks.iter().map(|b| b.block_type.as_str()).collect();
    assert!(types.contains(&"section"), "expected section, got {:?}", types);
    assert!(types.contains(&"code"), "expected code, got {:?}", types);
}

#[test]
fn tests_fallback_single_block() {
    let src = "line1\nline2\n";
    let blocks = parse_source_blocks(src, "rs");
    assert_eq!(blocks.len(), 1);
    assert_eq!(blocks[0].line_start, 1);
    assert_eq!(blocks[0].line_end, 2);
}

#[test]
fn adoc_section_and_para_are_split() {
    let src = "= Title\n\nIntro paragraph.\n\n== Next\n\nMore prose.\n";
    let blocks = parse_source_blocks(src, "adoc");
    let types: Vec<_> = blocks.iter().map(|b| b.block_type.as_str()).collect();
    assert!(types.contains(&"section"));
    assert!(types.iter().filter(|t| **t == "para").count() >= 2);
    assert!(blocks.iter().any(|b| b.block_type == "section" && b.line_start == 5 && b.line_end == 5));
    assert!(blocks.iter().any(|b| b.block_type == "para" && b.line_start == 3 && b.line_end == 3));
    assert!(blocks.iter().any(|b| b.block_type == "para" && b.line_start == 7 && b.line_end == 7));
}

#[test]
fn adoc_unclosed_fence_runs_to_end_of_file() {
    let src = "= Title\n\n----\nfn main() {}\n";
    let blocks = parse_source_blocks(src, "adoc");
    let code = blocks.iter().find(|b| b.block_type == "code").unwrap();
    assert_eq!(code.line_start, 3);
    assert_eq!(code.line_end, 4);
}

#[test]
fn markdown_paragraphs_are_emitted() {
    let src = "# Heading\n\nAlpha paragraph.\n\nBeta paragraph.\n";
    let blocks = parse_source_blocks(src, "md");
    let types: Vec<_> = blocks.iter().map(|b| b.block_type.as_str()).collect();
    assert!(types.contains(&"section"));
    assert_eq!(types.iter().filter(|t| **t == "para").count(), 2);
}

#[test]
fn empty_markdown_falls_back_to_text_block() {
    let blocks = parse_source_blocks("", "md");
    assert_eq!(blocks.len(), 1);
    assert_eq!(blocks[0].block_type, "text");
    assert_eq!(blocks[0].line_start, 1);
    assert_eq!(blocks[0].line_end, 1);
}

#[test]
fn asciidoc_extension_alias_works() {
    let src = "----\nhello\n----\n";
    let blocks = parse_source_blocks(src, "asciidoc");
    assert!(blocks.iter().any(|b| b.block_type == "code"));
}

#[test]
fn markdown_extension_alias_works() {
    let src = "# Heading\n\nProse.\n";
    let blocks = parse_source_blocks(src, "markdown");
    let types: Vec<_> = blocks.iter().map(|b| b.block_type.as_str()).collect();
    assert!(types.contains(&"section"));
}

#[test]
fn fallback_empty_source_single_block() {
    let blocks = parse_source_blocks("", "rs");
    assert_eq!(blocks.len(), 1);
    assert_eq!(blocks[0].line_start, 1);
    assert_eq!(blocks[0].line_end, 1);
}

#[test]
fn adoc_dot_fence_parsed_as_code() {
    let src = "....\nsome listing\n....\n";
    let blocks = parse_source_blocks(src, "adoc");
    assert!(blocks.iter().any(|b| b.block_type == "code"));
}

#[test]
fn adoc_plus_fence_parsed_as_code() {
    let src = "++++\npassthrough\n++++\n";
    let blocks = parse_source_blocks(src, "adoc");
    assert!(blocks.iter().any(|b| b.block_type == "code"));
}

#[test]
fn adoc_empty_source_produces_block() {
    let blocks = parse_source_blocks("", "adoc");
    assert!(!blocks.is_empty());
    assert_eq!(blocks[0].line_start, 1);
}

#[test]
fn adoc_include_before_code_does_not_shift_line_range() {
    let src = "include::missing.adoc[]\n\n[source,rust]\n----\nfn main() {}\n----\n";
    let blocks = parse_source_blocks(src, "adoc");
    let code = blocks.iter().find(|b| b.block_type == "code").unwrap();
    assert_eq!(code.line_start, 3);
    assert_eq!(code.line_end, 6);
}

#[test]
fn adoc_utf8_before_code_keeps_line_range() {
    let src = "éèø\n\n[source,rust]\n----\nfn main() {}\n----\n";
    let blocks = parse_source_blocks(src, "adoc");
    let code = blocks.iter().find(|b| b.block_type == "code").unwrap();
    assert_eq!(code.line_start, 3);
    assert_eq!(code.line_end, 6);
}

#[test]
fn block_index_is_sequential() {
    let src = "# H\n\nPara one.\n\nPara two.\n";
    let blocks = parse_source_blocks(src, "md");
    for (i, b) in blocks.iter().enumerate() {
        assert_eq!(b.block_index, i as u32);
    }
}

// ── further cases ────────────────────────────────────────────────────────

#[test]
fn adoc_blocks_come_in_document_order() {
    let src = "= Title\n\n----\nfoo\n----\n\nProse.\n";
    let blocks = parse_source_blocks(src, "adoc");
    let types: Vec<_> = blocks.iter().map(|b| b.block_type.as_str()).collect();
    assert_eq!(types, vec!["section", "code", "para"]);
}

#[test]
fn adoc_block_hash_is_blake3_of_its_text() {
    let blocks = parse_source_blocks("----\nfoo\n----\n", "adoc");
    assert_eq!(blocks[0].content_hash, *blake3::hash(b"----\nfoo\n----\n").as_bytes());
}

#[test]
fn adoc_paragraph_spans_its_lines() {
    let src = "one\ntwo\n\n== H\nthree\n";
    let blocks = parse_source_blocks(src, "adoc");
    assert_eq!(blocks.len(), 3);
    assert_eq!((blocks[0].line_start, blocks[0].line_end), (1, 2));
    assert_eq!(blocks[1].block_type, "section");
    assert_eq!((blocks[2].line_start, blocks[2].line_end), (5, 5));
    for (i, b) in blocks.iter().enumerate() {
        assert_eq!(b.block_index, i as u32);
    }
}

#[test]
fn markdown_code_block_line_range() {
    let src = "# Heading\n\n```rust\nfn main() {}\n```\n";
    let blocks = parse_source_blocks(src, "md");
    let code = blocks.iter().find(|b| b.block_type == "code").unwrap();
    assert_eq!((code.line_start, code.line_end), (3, 5));
}

#[test]
fn fallback_block_is_text() {
    let blocks = parse_source_blocks("line1\nline2\n", "rs");
    assert_eq!(blocks[0].block_type, "text");
}

#[test]
fn line_table_maps_bytes_to_lines() {
    let t = build_line_table("ab\nc\n");
    assert_eq!(t, vec![1, 1, 1, 2, 2, 3]);
    assert_eq!(byte_to_line(&t, 3), 2);
    assert_eq!(byte_to_line(&t, 99), 1);
}
