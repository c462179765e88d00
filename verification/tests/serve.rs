use std::path::PathBuf;
use weaveback::config::{AiBackend, TangleConfig};
use weaveback::http::{content_type, editor_args, parse_query, percent_decode, url_rel_path};
use weaveback::prose::{chunk_context, definition_body, extract_prose, heading_level, section_range, title_chain};
use weaveback::sse::{sse_headers, AiChannelReader, SseReader};

#[test]
fn parse_query_and_percent_decode_decode_pairs() {
    let params = parse_query("/__chunk?file=docs%2Fintro.adoc&name=alpha%20beta&nth=2");
    assert_eq!(params.get("file").map(String::as_str), Some("docs/intro.adoc"));
    assert_eq!(params.get("name").map(String::as_str), Some("alpha beta"));
    assert_eq!(params.get("nth").map(String::as_str), Some("2"));
    assert_eq!(percent_decode("a%2Fb%20c"), "a/b c");
    assert_eq!(percent_decode("%4"), "%4");
}

#[test]
fn parse_query_and_percent_decode_preserve_incomplete_or_empty_values() {
    let params = parse_query("/__chunk?flag&empty=&bad=%zz");
    assert_eq!(params.get("flag").map(String::as_str), Some(""));
    assert_eq!(params.get("empty").map(String::as_str), Some(""));
    assert_eq!(params.get("bad").map(String::as_str), Some("%zz"));
    assert_eq!(percent_decode("plain"), "plain");
}

#[test]
fn section_helpers_extract_expected_prose_context() {
    let lines = vec![
        "= Root",
        "",
        "== Parser",
        "Intro prose.",
        "----",
        "code",
        "----",
        "",
        "=== Nested",
        "Nested prose.",
        "== Other",
        "Later.",
    ];

    assert_eq!(heading_level("== Parser"), Some(2));
    assert_eq!(heading_level("==Parser"), None);
    assert_eq!(section_range(&lines, 3), (2, 10));
    assert_eq!(title_chain(&lines, 9), vec!["Root", "Parser", "Nested"]);
    assert_eq!(extract_prose(&lines, 2, 10), "== Parser\nIntro prose.\n\n=== Nested\nNested prose.");
}

#[test]
fn extract_prose_skips_chunk_bodies_and_trims_blank_edges() {
    let lines = vec![
        "",
        "Intro paragraph.",
        "",
        "// <<alpha>>=",
        "let hidden = true;",
        "// @",
        "",
        "Outro paragraph.",
        "",
    ];

    let prose = extract_prose(&lines, 0, lines.len());
    assert!(!prose.contains("hidden = true"));
    assert!(prose.starts_with("Intro paragraph."));
    assert!(prose.ends_with("Outro paragraph."));
}

#[test]
fn heading_and_section_helpers_handle_edge_cases() {
    let lines = vec!["= Root", "plain text", "=== Deep", "==== Deeper", "body"];

    assert_eq!(heading_level("plain text"), None);
    assert_eq!(heading_level("==NoSpace"), None);
    assert_eq!(heading_level("=== Deep"), Some(3));
    assert_eq!(title_chain(&lines, 4), vec!["Root", "Deep", "Deeper"]);
    assert_eq!(section_range(&lines, 4), (3, 5));
}

#[test]
fn default_tangle_config_matches_expected_defaults() {
    let cfg = TangleConfig::default();
    assert_eq!(cfg.open_delim, "<[");
    assert_eq!(cfg.close_delim, "]>");
    assert_eq!(cfg.chunk_end, "@@");
    assert_eq!(cfg.comment_markers, vec!["//".to_string()]);
    assert!(matches!(cfg.ai_backend, AiBackend::ClaudeCli));
    assert!(cfg.ai_model.is_none());
    assert!(cfg.ai_endpoint.is_none());
}

#[test]
fn sse_headers_and_readers_emit_expected_frames() {
    let headers = sse_headers();
    assert!(
        headers
            .iter()
            .any(|h| h.field.equiv("Content-Type") && h.value.as_str() == "text/event-stream")
    );
    assert!(
        headers
            .iter()
            .any(|h| h.field.equiv("Cache-Control") && h.value.as_str() == "no-cache")
    );

    let (_tx, rx) = std::sync::mpsc::channel();
    let mut sse = SseReader::new(rx);
    let mut buf = [0u8; 64];
    let n = sse.read(&mut buf).unwrap();
    let first = std::str::from_utf8(&buf[..n]).unwrap();
    assert_eq!(first, ": weaveback-serve\n\n");

    let (tx, rx) = std::sync::mpsc::channel();
    let mut ai = AiChannelReader::new(rx);
    let n = ai.read(&mut buf).unwrap();
    let first = std::str::from_utf8(&buf[..n]).unwrap();
    assert_eq!(first, ": weaveback-ai\n\n");
    tx.send("event: token\ndata: {\"t\":\"hi\"}\n\n".to_string())
        .unwrap();
    let n = ai.read(&mut buf).unwrap();
    let second = std::str::from_utf8(&buf[..n]).unwrap();
    assert_eq!(second, "event: token\ndata: {\"t\":\"hi\"}\n\n");
}

#[test]
fn sse_reader_emits_reload_frame_after_signal() {
    let (tx, rx) = std::sync::mpsc::channel();
    let mut sse = SseReader::new(rx);
    let mut buf = [0u8; 64];
    let _ = sse.read(&mut buf).unwrap();
    tx.send(()).unwrap();
    let n = sse.read(&mut buf).unwrap();
    let frame = std::str::from_utf8(&buf[..n]).unwrap();
    assert_eq!(frame, "event: reload\ndata:\n\n");
}

#[test]
fn content_type_covers_all_mapped_extensions() {
    let cases = &[
        ("style.css",  "text/css; charset=utf-8"),
        ("logo.svg",   "image/svg+xml"),
        ("icon.ico",   "image/x-icon"),
        ("data.json",  "application/json"),
        ("photo.png",  "image/png"),
        ("main.js",    "application/javascript; charset=utf-8"),
        ("blob.bin",   "application/octet-stream"),
    ];
    let base = PathBuf::from("/tmp");
    for (name, expected) in cases {
        assert_eq!(content_type(&base.join(name).to_string_lossy()), *expected, "for {name}");
    }
}

#[test]
fn heading_level_returns_correct_depth() {
    assert_eq!(heading_level("= Title"), Some(1));
    assert_eq!(heading_level("== Section"), Some(2));
    assert_eq!(heading_level("==== Level4"), Some(4));
    assert_eq!(heading_level(""), None);
    assert_eq!(heading_level("== "), None);
    assert_eq!(heading_level("=no space"), None);
}

#[test]
fn section_range_returns_entire_file_when_no_heading() {
    let lines = vec!["plain", "text", "only"];
    let (start, end) = section_range(&lines, 1);
    assert_eq!(start, 0);
    assert_eq!(end, lines.len());
}

#[test]
fn section_range_stops_at_sibling_heading() {
    let lines = vec![
        "== Alpha",
        "alpha body",
        "== Beta",
        "beta body",
    ];
    let (start, end) = section_range(&lines, 1);
    assert_eq!(start, 0);
    assert_eq!(end, 2);
}

#[test]
fn extract_prose_handles_interleaved_fence_and_chunk() {
    let lines = vec![
        "Intro.",
        "----",
        "code inside fence",
        "----",
        "// <<chunk>>=",
        "chunk body",
        "// @",
        "Outro.",
    ];
    let prose = extract_prose(&lines, 0, lines.len());
    assert!(!prose.contains("code inside fence"));
    assert!(!prose.contains("chunk body"));
    assert!(prose.contains("Intro."));
    assert!(prose.contains("Outro."));
}

#[test]
fn extract_prose_returns_empty_for_all_code() {
    let lines = vec!["----", "all code", "----"];
    let prose = extract_prose(&lines, 0, lines.len());
    assert_eq!(prose, "");
}

#[test]
fn percent_decode_handles_uppercase_hex() {
    assert_eq!(percent_decode("%2F"), "/");
    assert_eq!(percent_decode("%20"), " ");
    assert_eq!(percent_decode("%7E"), "~");
}

#[test]
fn percent_decode_passes_non_encoded_chars() {
    assert_eq!(percent_decode("hello world"), "hello world");
    assert_eq!(percent_decode(""), "");
}

#[test]
fn parse_query_returns_empty_when_no_query_string() {
    let params = parse_query("/__chunk");
    assert!(!params.contains_key("file"));
    assert!(!params.contains_key("name"));
}

#[test]
fn parse_query_handles_empty_query_string() {
    let params = parse_query("/__chunk?");
    assert!(params.is_empty() || params.contains_key(""));
}

#[test]
fn sse_reader_returns_zero_bytes_on_sender_drop() {
    let (tx, rx) = std::sync::mpsc::channel::<()>();
    let mut sse = SseReader::new(rx);
    let mut buf = [0u8; 64];
    while {
        let n = sse.read(&mut buf).unwrap();
        n > 0 && buf[..n] != *b": weaveback-serve\n\n"
    } {}
    drop(tx);
    loop {
        let n = sse.read(&mut buf).unwrap();
        if n == 0 { break; }
    }
}

// ── further cases ────────────────────────────────────────────────────────

#[test]
fn parse_query_keeps_the_last_value_of_a_repeated_key() {
    let params = parse_query("/x?a=1&a=2&b=%41");
    assert_eq!(params.get("a").map(String::as_str), Some("2"));
    assert_eq!(params.get("b").map(String::as_str), Some("A"));
    assert_eq!(params.len(), 3);
}

#[test]
fn percent_decode_maps_each_byte_to_one_character() {
    // The two bytes of an encoded UTF-8 character each become a character.
    assert_eq!(percent_decode("%C3%A9"), "\u{c3}\u{a9}");
    assert_eq!(percent_decode("%%41"), "%A");
}

#[test]
fn url_rel_path_refuses_parent_components() {
    assert_eq!(url_rel_path("/docs/index.html"), Some("docs/index.html".to_string()));
    assert_eq!(url_rel_path("///a"), Some("a".to_string()));
    assert_eq!(url_rel_path("/../secret"), None);
    assert_eq!(url_rel_path("/a/../b"), None);
    assert_eq!(url_rel_path("/a/..b"), Some("a/..b".to_string()));
}

#[test]
fn content_type_of_html_and_of_a_path_without_extension() {
    assert_eq!(content_type("docs/index.html"), "text/html; charset=utf-8");
    assert_eq!(content_type("README"), "application/octet-stream");
    assert_eq!(weaveback::http::mime_for_extension(Some("json")), "application/json");
    assert_eq!(weaveback::http::mime_for_extension(None), "application/octet-stream");
}

#[test]
fn title_chain_stops_at_the_given_line() {
    let lines = vec!["= A", "== B", "=== C", "== D"];
    assert_eq!(title_chain(&lines, 2), vec!["A", "B"]);
    assert_eq!(title_chain(&lines, 4), vec!["A", "D"]);
    assert_eq!(title_chain(&lines, 99), vec!["A", "D"]);
}

#[test]
fn sse_reader_hands_out_a_frame_in_pieces() {
    let (_tx, rx) = std::sync::mpsc::channel();
    let mut sse = SseReader::new(rx);
    let mut small = [0u8; 4];
    let n = sse.read(&mut small).unwrap();
    assert_eq!(&small[..n], b": we");
    let mut rest = [0u8; 64];
    let n = sse.read(&mut rest).unwrap();
    assert_eq!(std::str::from_utf8(&rest[..n]).unwrap(), "aveback-serve\n\n");
}

#[test]
fn chunk_context_gives_body_titles_and_section_prose() {
    let source = [
        "= Root",
        "",
        "== Serve",
        "Serve prose.",
        "",
        "// <<alpha>>=",
        "alpha line",
        "<<beta>>",
        "// @",
        "",
        "// <<beta>>=",
        "beta line",
        "// @",
    ];
    let ctx = chunk_context(&source, 6, 9);
    assert_eq!(ctx.body, "alpha line\n<<beta>>");
    assert_eq!(ctx.title_chain, vec!["Root".to_string(), "Serve".to_string()]);
    assert_eq!(ctx.section_prose, "== Serve\nServe prose.");
    assert_eq!(definition_body(&source, 11, 13), "beta line");
    assert_eq!(definition_body(&source, 11, 99), "");
}

#[test]
fn editors_are_asked_to_open_the_right_line() {
    assert_eq!(editor_args("code", "/p/a.adoc", 12), vec!["--goto".to_string(), "/p/a.adoc:12".to_string()]);
    assert_eq!(editor_args("code-insiders", "a", 1), vec!["--goto".to_string(), "a:1".to_string()]);
    assert_eq!(editor_args("vim", "/p/a.adoc", 7), vec!["+7".to_string(), "/p/a.adoc".to_string()]);
}

#[test]
fn readers_decide_by_what_the_channel_gave() {
    let (tx, rx) = std::sync::mpsc::channel::<()>();
    let mut sse = SseReader::new(rx);
    let mut buf = [0u8; 64];
    let _ = sse.read(&mut buf).unwrap();
    let mut small = [9u8; 4];
    assert_eq!(sse.after_signal(None, &mut small), 0);
    assert_eq!(small, [9u8; 4]);
    assert_eq!(sse.after_signal(Some(()), &mut small), 4);
    assert_eq!(&small, b"even");
    let n = sse.read(&mut buf).unwrap();
    assert_eq!(std::str::from_utf8(&buf[..n]).unwrap(), "t: reload\ndata:\n\n");
    drop(tx);
    assert_eq!(sse.read(&mut buf).unwrap(), 0);

    let (tx, rx) = std::sync::mpsc::channel::<String>();
    let mut ai = AiChannelReader::new(rx);
    assert_eq!(ai.hand_out_pending(&mut buf), Some(16));
    assert_eq!(ai.hand_out_pending(&mut buf), None);
    assert_eq!(ai.after_message(Some(String::new()), &mut buf), None);
    assert_eq!(ai.after_message(Some("ab".to_string()), &mut buf), Some(2));
    assert_eq!(&buf[..2], b"ab");
    assert_eq!(ai.hand_out_pending(&mut buf), None);
    assert_eq!(ai.after_message(None, &mut buf), Some(0));
    tx.send("x".to_string()).unwrap();
    assert_eq!(ai.receive(), Some("x".to_string()));
}

#[test]
fn content_type_reads_the_extension_of_the_file_name() {
    assert_eq!(content_type("docs/.hidden"), "application/octet-stream");
    assert_eq!(content_type("docs.html/page"), "application/octet-stream");
    assert_eq!(content_type("a/archive.tar.json"), "application/json");
    assert_eq!(content_type("style."), "application/octet-stream");
    assert_eq!(content_type("/srv/site/index.html"), "text/html; charset=utf-8");
}
