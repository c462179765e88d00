use weaveback::tag::{batch_bounds, block_first_line, build_prompt, group_by_file, parse_response, tag_updates};

#[test]
fn test_parse_response_basic() {
    let r = parse_response("0:fts,sqlite,search\n1:incremental,hash\n2:tangle");
    assert_eq!(r.len(), 3);
    assert_eq!(r[0], (0, "fts,sqlite,search".to_string()));
    assert_eq!(r[1], (1, "incremental,hash".to_string()));
    assert_eq!(r[2], (2, "tangle".to_string()));
}

#[test]
fn test_parse_response_sanitises_punctuation() {
    let r = parse_response("0:apply-back, safe-write, I/O!");
    assert_eq!(r.len(), 1);
    assert_eq!(r[0].1, "apply-back,safe-write,io");
}

#[test]
fn test_parse_response_skips_malformed_lines() {
    let r = parse_response("not a line\n0:good-tag\njunk:also-junk");
    assert_eq!(r.len(), 1);
    assert_eq!(r[0], (0, "good-tag".to_string()));
}

#[test]
fn test_parse_response_empty_tags_skipped() {
    let r = parse_response("0:  ,  ,  ");
    assert!(r.is_empty(), "all-whitespace tags should produce no entry");
}

#[test]
fn test_parse_response_tolerates_extra_colons() {
    let r = parse_response("0:foo:bar,baz");
    assert_eq!(r.len(), 1);
    assert_eq!(r[0].1, "foobar,baz");
}

#[test]
fn test_build_prompt_contains_all_indices() {
    let items = vec![
        (0usize, "section", "= Introduction"),
        (1, "para", "This is a paragraph."),
    ];
    let p = build_prompt(&items);
    assert!(p.contains("[0] section | = Introduction"));
    assert!(p.contains("[1] para | This is a paragraph."));
}

#[test]
fn test_build_prompt_truncates_long_first_line() {
    let long = "x".repeat(200);
    let items = vec![(0usize, "para", long.as_str())];
    let p = build_prompt(&items);
    let preview: String = "x".repeat(120);
    assert!(p.contains(&preview));
    assert!(!p.contains(&"x".repeat(121)));
}

#[test]
fn test_block_first_line_normal() {
    let src = "line one\nline two\nline three\n";
    assert_eq!(block_first_line(src, 1, 3), "line one");
    assert_eq!(block_first_line(src, 2, 3), "line two");
}

#[test]
fn test_block_first_line_out_of_range() {
    let src = "only line\n";
    assert_eq!(block_first_line(src, 99, 100), "");
}

#[test]
fn test_block_first_line_empty_source() {
    assert_eq!(block_first_line("", 1, 1), "");
}

// ── further cases ────────────────────────────────────────────────────────

#[test]
fn parse_response_reads_signed_and_spaced_indices() {
    let r = parse_response(" +12 :A,b\n-1:x\n99999999999999999999999:y");
    assert_eq!(r, vec![(12, "a,b".to_string())]);
}

#[test]
fn parse_response_drops_tags_that_clean_to_nothing() {
    let r = parse_response("3:!!!,Ok\n4:???");
    assert_eq!(r, vec![(3, "ok".to_string())]);
}

#[test]
fn build_prompt_starts_with_the_instructions_and_numbers_in_decimal() {
    let items = vec![(1234usize, "code", "fn x()")];
    let p = build_prompt(&items);
    assert!(p.starts_with("Tag these blocks from a literate programming document.\n"));
    assert!(p.ends_with("<number>:<tag1>,<tag2>,<tag3>\n\n[1234] code | fn x()\n"));
}

#[test]
fn batches_cut_blocks_as_slice_chunks_do() {
    assert_eq!(batch_bounds(0, 15), vec![]);
    assert_eq!(batch_bounds(5, 2), vec![(0, 2), (2, 4), (4, 5)]);
    assert_eq!(batch_bounds(4, 2), vec![(0, 2), (2, 4)]);
    assert_eq!(batch_bounds(3, 0), vec![(0, 1), (1, 2), (2, 3)]);
    assert_eq!(batch_bounds(3, 24), vec![(0, 3)]);
    let items: Vec<u32> = (0..7).collect();
    let cut: Vec<(usize, usize)> = items.chunks(3).scan(0, |s, c| {
        let r = (*s, *s + c.len());
        *s += c.len();
        Some(r)
    }).collect();
    assert_eq!(batch_bounds(7, 3), cut);
}

#[test]
fn tag_updates_keep_only_indices_of_the_batch() {
    let got = tag_updates(2, "0: Rust, Async\n2: extra\n1: DB\nnot a line\n");
    assert_eq!(got, vec![(0, "rust,async".to_string()), (1, "db".to_string())]);
    assert_eq!(tag_updates(0, "0: x\n"), vec![]);
}

#[test]
fn blocks_are_grouped_by_file_in_first_occurrence_order() {
    let files: Vec<String> = ["b.adoc", "a.adoc", "b.adoc", "c.adoc", "a.adoc"]
        .iter()
        .map(|s| s.to_string())
        .collect();
    assert_eq!(
        group_by_file(&files),
        vec![
            ("b.adoc".to_string(), vec![0, 2]),
            ("a.adoc".to_string(), vec![1, 4]),
            ("c.adoc".to_string(), vec![3]),
        ]
    );
    assert_eq!(group_by_file(&[]), vec![]);
}
