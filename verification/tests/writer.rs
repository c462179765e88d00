use weaveback::errors::SafeWriterError;
use weaveback::config::SafeWriterConfig;
use weaveback::writer::{
    check_formatter_output, check_formatter_status, decide_commit, formatter_argv, formatter_argv_from, formatter_for, Commit,
    check_filename, chunk_target, decide_chunk_target, expand_tilde, sqlite_string_literal,
    trim_trailing_whitespace, validate_filename, ChunkTarget,
};

#[test]
fn trim_trailing_whitespace_cleans_each_line() {
    assert_eq!(trim_trailing_whitespace("a  \nb\t\r\nc "), "a\nb\nc");
    assert_eq!(trim_trailing_whitespace("x \n"), "x\n");
    assert_eq!(trim_trailing_whitespace(""), "");
    assert_eq!(trim_trailing_whitespace("\n\n"), "\n\n");
}

#[test]
fn sqlite_string_literal_doubles_quotes() {
    assert_eq!(sqlite_string_literal("it's"), "it''s");
    assert_eq!(sqlite_string_literal("''"), "''''");
    assert_eq!(sqlite_string_literal("plain"), "plain");
}

#[test]
fn expand_tilde_uses_the_home_directory() {
    assert_eq!(expand_tilde("~", Some("/home/u")), "/home/u");
    assert_eq!(expand_tilde("~", None), "~");
    assert_eq!(expand_tilde("~/a/b", Some("/home/u")), "/home/u/a/b");
    assert_eq!(expand_tilde("~/a", None), "~/a");
    assert_eq!(expand_tilde("a/~", Some("/h")), "a/~");
    assert_eq!(expand_tilde("~user", Some("/h")), "~user");
}

fn violation(r: Result<(), SafeWriterError>) -> Option<String> {
    match r {
        Err(SafeWriterError::SecurityViolation(m)) => Some(m),
        _ => None,
    }
}

#[test]
fn filenames_are_checked_for_escapes() {
    assert!(validate_filename("src/main.rs").is_ok());
    assert_eq!(violation(validate_filename("/etc/passwd")), Some("Absolute paths are not allowed: /etc/passwd".to_string()));
    assert_eq!(violation(check_filename("C:x", false)), Some("Windows-style absolute paths are not allowed: C:x".to_string()));
    assert_eq!(violation(check_filename("a/../b", false)), Some("Path traversal detected (..): a/../b".to_string()));
    assert!(check_filename("a/..b/c", false).is_ok());
}

#[test]
fn chunk_targets_follow_the_chunk_name() {
    assert_eq!(chunk_target("plain", None, false), ChunkTarget::Skip);
    assert_eq!(chunk_target("@file  src/x.rs ", None, false), ChunkTarget::Generated("src/x.rs".to_string()));
    assert_eq!(
        chunk_target("@file ~/x.rs", Some("/home/u"), false),
        ChunkTarget::Refused("writing outside gen/ requires --allow-home: /home/u/x.rs".to_string())
    );
    assert_eq!(
        decide_chunk_target("@file ~/x.rs", Some("/home/u"), true, true),
        ChunkTarget::Outside("/home/u/x.rs".to_string())
    );
}

#[test]
fn hand_edited_files_are_refused_unless_forced() {
    assert_eq!(decide_commit(false, None, None, b"new"), Commit::Copy);
    assert_eq!(decide_commit(false, Some(b"edited"), Some(b"old"), b"new"), Commit::Refuse);
    assert_eq!(decide_commit(true, Some(b"edited"), Some(b"old"), b"new"), Commit::Copy);
    assert_eq!(decide_commit(false, Some(b"old"), Some(b"old"), b"new"), Commit::Copy);
    assert_eq!(decide_commit(false, Some(b"same"), Some(b"same"), b"same"), Commit::Keep);
    assert_eq!(decide_commit(true, Some(b"same"), Some(b"same"), b"same"), Commit::Copy);
    // With no baseline the file must already match what is about to be written.
    assert_eq!(decide_commit(false, Some(b"other"), None, b"new"), Commit::Refuse);
    assert_eq!(decide_commit(false, Some(b"new"), None, b"new"), Commit::Keep);
}

#[test]
fn the_last_formatter_for_an_extension_wins() {
    let mut config = SafeWriterConfig::default();
    assert_eq!(formatter_for(&config, "rs"), None);
    config.formatters.push(("rs".to_string(), "rustfmt".to_string()));
    config.formatters.push(("py".to_string(), "black -q".to_string()));
    config.formatters.push(("rs".to_string(), "rustfmt --edition 2021".to_string()));
    assert_eq!(formatter_for(&config, "rs"), Some("rustfmt --edition 2021".to_string()));
    assert_eq!(formatter_for(&config, "py"), Some("black -q".to_string()));
    assert_eq!(formatter_for(&config, "c"), None);
}

#[test]
fn a_formatter_that_empties_a_file_is_refused() {
    assert!(check_formatter_output("fmt", 0, 0).is_ok());
    assert!(check_formatter_output("fmt", 12, 10).is_ok());
    match check_formatter_output("fmt", 120, 0) {
        Err(SafeWriterError::FormatterError(m)) => {
            assert_eq!(m, "formatter 'fmt' produced an empty file (input was 120 bytes)")
        }
        _ => panic!("expected a formatter error"),
    }
}

#[test]
fn formatter_commands_are_split_like_a_shell() {
    assert_eq!(
        formatter_argv("rustfmt --edition 2021").unwrap(),
        vec!["rustfmt".to_string(), "--edition".to_string(), "2021".to_string()]
    );
    assert_eq!(
        formatter_argv("fmt 'a b' \"c d\"").unwrap(),
        vec!["fmt".to_string(), "a b".to_string(), "c d".to_string()]
    );
    match formatter_argv("black 'unclosed") {
        Err(SafeWriterError::FormatterError(m)) => {
            assert_eq!(m, "could not parse formatter command: 'black 'unclosed'")
        }
        _ => panic!("expected a parse error"),
    }
    match formatter_argv("   ") {
        Err(SafeWriterError::FormatterError(m)) => assert_eq!(m, "formatter command is empty"),
        _ => panic!("expected an empty command"),
    }
    assert_eq!(
        formatter_argv_from("x", Some(vec!["a".to_string()])).unwrap(),
        vec!["a".to_string()]
    );
}

#[test]
fn failed_formatter_runs_report_their_exit_code() {
    assert!(check_formatter_status("fmt", true, Some(0)).is_ok());
    match check_formatter_status("fmt -q", false, Some(2)) {
        Err(SafeWriterError::FormatterError(m)) => assert_eq!(m, "'fmt -q' exited with code 2"),
        _ => panic!("expected a formatter error"),
    }
    match check_formatter_status("fmt", false, None) {
        Err(SafeWriterError::FormatterError(m)) => assert_eq!(m, "'fmt' exited with code -1"),
        _ => panic!("expected a formatter error"),
    }
}
