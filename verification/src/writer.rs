//! Decisions of the writer of generated files: where a file chunk goes,
//! which paths are refused, the clean-up or formatting of written text, and
//! whether a file on disk may be replaced.
use vstd::prelude::*;
use crate::apply::{path_is_absolute, rooted_or_drive};
use crate::config::SafeWriterConfig;
use crate::errors::SafeWriterError;
use crate::store::{has_parent_component, parent_at};
use crate::text::{chars_eq, chars_of, dec, decimal, lines, push_all, push_str, split_lines, string_of, sub_chars, trim, trim_chars, views};

verus! {

// ── file names ───────────────────────────────────────────────────────────

/// An ASCII letter.
pub open spec fn ascii_alpha(c: char) -> bool {
    ('a' <= c && c <= 'z') || ('A' <= c && c <= 'Z')
}

/// Why a path cannot name a generated file: it is absolute, it starts with
/// a drive letter and `:`, or it has a `..` component.
pub open spec fn filename_error(p: Seq<char>, absolute: bool) -> Option<Seq<char>> {
    if absolute {
        Some("Absolute paths are not allowed: "@ + p)
    } else if p.len() >= 2 && p[1] == ':' && ascii_alpha(p[0]) {
        Some("Windows-style absolute paths are not allowed: "@ + p)
    } else if has_parent_component(p) {
        Some("Path traversal detected (..): "@ + p)
    } else {
        None
    }
}

fn has_parent(p: &[char]) -> (b: bool)
    ensures
        b == has_parent_component(p@),
{
    let mut i: usize = 0;
    while i < p.len()
        invariant
            i <= p.len(),
            forall|j: int| 0 <= j < i ==> !#[trigger] parent_at(p@, j),
        decreases p.len() - i,
    {
        if p.len() - i >= 2 && p[i] == '.' && p[i + 1] == '.' && (i == 0 || p[i - 1] == '/') && (i + 2 == p.len() || p[i + 2] == '/') {
            assert(parent_at(p@, i as int));
            return true;
        }
        i = i + 1;
    }
    false
}

/// The refusal of `path` as the name of a generated file, where `absolute`
/// tells whether the platform takes it as absolute.
pub fn check_filename(path: &str, absolute: bool) -> (r: Result<(), SafeWriterError>)
    ensures
        match filename_error(path@, absolute) {
            None => r is Ok,
            Some(m) => r matches Err(SafeWriterError::SecurityViolation(s)) && s@ == m,
        },
{
    let p = chars_of(path);
    if absolute {
        let mut m: Vec<char> = Vec::new();
        push_str(&mut m, "Absolute paths are not allowed: ");
        push_all(&mut m, p.as_slice());
        return Err(SafeWriterError::SecurityViolation(string_of(m.as_slice())));
    }
    if p.len() >= 2 && p[1] == ':' && (('a' <= p[0] && p[0] <= 'z') || ('A' <= p[0] && p[0] <= 'Z')) {
        let mut m: Vec<char> = Vec::new();
        push_str(&mut m, "Windows-style absolute paths are not allowed: ");
        push_all(&mut m, p.as_slice());
        return Err(SafeWriterError::SecurityViolation(string_of(m.as_slice())));
    }
    if has_parent(p.as_slice()) {
        let mut m: Vec<char> = Vec::new();
        push_str(&mut m, "Path traversal detected (..): ");
        push_all(&mut m, p.as_slice());
        return Err(SafeWriterError::SecurityViolation(string_of(m.as_slice())));
    }
    Ok(())
}

/// `r` is what [`check_filename`] gives for the refusal `e`.
pub open spec fn filename_result(r: Result<(), SafeWriterError>, e: Option<Seq<char>>) -> bool {
    match e {
        None => r is Ok,
        Some(m) => r matches Err(SafeWriterError::SecurityViolation(s)) && s@ == m,
    }
}

/// Checks a path given for a generated file: a relative path gets the
/// answer of [`filename_error`]; a path the platform takes as absolute
/// (which can only be one starting with `/`, `\` or a drive) is refused as
/// absolute.
pub fn validate_filename(path: &str) -> (r: Result<(), SafeWriterError>)
    ensures
        filename_result(r, filename_error(path@, false)) || (rooted_or_drive(path@) && filename_result(
            r,
            filename_error(path@, true),
        )),
        has_parent_component(path@) ==> r is Err,
{
    let absolute = path_is_absolute(path);
    check_filename(path, absolute)
}

// ── where a file chunk goes ──────────────────────────────────────────────

/// `~` and `~/rest` with the home directory in place of `~` (a missing home
/// leaves `~`).
pub open spec fn tilde_expanded(p: Seq<char>, home: Option<Seq<char>>) -> Seq<char> {
    if p == seq!['~'] {
        match home {
            Some(h) => h,
            None => p,
        }
    } else if p.len() >= 2 && p[0] == '~' && p[1] == '/' {
        (match home {
            Some(h) => h,
            None => seq!['~'],
        }) + seq!['/'] + p.skip(2)
    } else {
        p
    }
}

/// Expands a leading `~` of `path` to `home`.
pub fn expand_tilde(path: &str, home: Option<&str>) -> (r: String)
    ensures
        r@ == tilde_expanded(
            path@,
            match home {
                Some(h) => Some(h@),
                None => None,
            },
        ),
{
    let p = chars_of(path);
    if p.len() == 1 && p[0] == '~' {
        assert(p@ =~= seq!['~']);
        return match home {
            Some(h) => h.to_string(),
            None => path.to_string(),
        };
    }
    assert(p@ != seq!['~'] || (p.len() == 1 && p[0] == '~'));
    if p.len() >= 2 && p[0] == '~' && p[1] == '/' {
        let mut v: Vec<char> = Vec::new();
        match home {
            Some(h) => push_str(&mut v, h),
            None => v.push('~'),
        }
        v.push('/');
        let rest = sub_chars(p.as_slice(), 2, p.len());
        push_all(&mut v, rest.as_slice());
        assert(rest@ =~= path@.skip(2));
        return string_of(v.as_slice());
    }
    path.to_string()
}

/// Where the lines of a chunk go.
#[derive(Debug, PartialEq, Eq)]
pub enum ChunkTarget {
    /// Not a file chunk: nothing is written.
    Skip,
    /// A path outside the generated tree, written directly.
    Outside(String),
    /// A path outside the generated tree while that is not allowed.
    Refused(String),
    /// A path inside the generated tree, written through the safe writer.
    Generated(String),
}

/// The path text of a file chunk's name.
pub open spec fn chunk_path(name: Seq<char>) -> Seq<char> {
    trim(name.skip(6))
}

/// A file chunk's name starts with `@file `.
pub open spec fn is_file_chunk(name: Seq<char>) -> bool {
    name.len() >= 6 && name.take(6) == seq!['@', 'f', 'i', 'l', 'e', ' ']
}

/// Where the chunk `name` goes, given the home directory, whether writing
/// outside the tree is allowed, and whether the expanded path is absolute.
pub open spec fn target_of(name: Seq<char>, home: Option<Seq<char>>, allow_home: bool, absolute: bool) -> (u8, Seq<char>) {
    if !is_file_chunk(name) {
        (0, seq![])
    } else if absolute {
        let e = tilde_expanded(chunk_path(name), home);
        if allow_home {
            (1, e)
        } else {
            (2, "writing outside gen/ requires --allow-home: "@ + e)
        }
    } else {
        (3, chunk_path(name))
    }
}

pub open spec fn target_view(t: ChunkTarget) -> (u8, Seq<char>) {
    match t {
        ChunkTarget::Skip => (0, seq![]),
        ChunkTarget::Outside(p) => (1, p@),
        ChunkTarget::Refused(m) => (2, m@),
        ChunkTarget::Generated(p) => (3, p@),
    }
}

/// Where the chunk goes, `absolute` telling whether its tilde-expanded path
/// is absolute.
pub fn decide_chunk_target(chunk_name: &str, home: Option<&str>, allow_home: bool, absolute: bool) -> (t: ChunkTarget)
    ensures
        target_view(t) == target_of(
            chunk_name@,
            match home {
                Some(h) => Some(h@),
                None => None,
            },
            allow_home,
            absolute,
        ),
{
    let n = chars_of(chunk_name);
    let is_file = n.len() >= 6 && n[0] == '@' && n[1] == 'f' && n[2] == 'i' && n[3] == 'l' && n[4] == 'e' && n[5] == ' ';
    proof {
        if is_file {
            assert(n@.take(6) =~= seq!['@', 'f', 'i', 'l', 'e', ' ']);
        } else if is_file_chunk(chunk_name@) {
            assert(n@.take(6)[0] == '@' && n@.take(6)[1] == 'f' && n@.take(6)[2] == 'i' && n@.take(6)[3] == 'l'
                && n@.take(6)[4] == 'e' && n@.take(6)[5] == ' ');
        }
    }
    if !is_file {
        return ChunkTarget::Skip;
    }
    let rest = sub_chars(n.as_slice(), 6, n.len());
    assert(rest@ =~= chunk_name@.skip(6));
    let path = trim_chars(rest.as_slice());
    let ps = string_of(path.as_slice());
    if absolute {
        let e = expand_tilde(ps.as_str(), home);
        if allow_home {
            ChunkTarget::Outside(e)
        } else {
            let mut m: Vec<char> = Vec::new();
            push_str(&mut m, "writing outside gen/ requires --allow-home: ");
            push_str(&mut m, e.as_str());
            ChunkTarget::Refused(string_of(m.as_slice()))
        }
    } else {
        ChunkTarget::Generated(ps)
    }
}

/// The text of an optional home directory.
pub open spec fn home_view(home: Option<&str>) -> Option<Seq<char>> {
    match home {
        Some(h) => Some(h@),
        None => None,
    }
}

/// Where the chunk `chunk_name` goes.
pub fn chunk_target(chunk_name: &str, home: Option<&str>, allow_home: bool) -> (t: ChunkTarget)
    ensures
        !is_file_chunk(chunk_name@) ==> t == ChunkTarget::Skip,
        target_view(t) == target_of(chunk_name@, home_view(home), allow_home, false) || (rooted_or_drive(
            tilde_expanded(chunk_path(chunk_name@), home_view(home)),
        ) && target_view(t) == target_of(chunk_name@, home_view(home), allow_home, true)),
{
    let n = chars_of(chunk_name);
    let is_file = n.len() >= 6 && n[0] == '@' && n[1] == 'f' && n[2] == 'i' && n[3] == 'l' && n[4] == 'e' && n[5] == ' ';
    if !is_file {
        let t = decide_chunk_target(chunk_name, home, allow_home, false);
        return t;
    }
    proof {
        assert(n@.take(6) =~= seq!['@', 'f', 'i', 'l', 'e', ' ']);
    }
    let rest = sub_chars(n.as_slice(), 6, n.len());
    assert(rest@ =~= chunk_name@.skip(6));
    let path = trim_chars(rest.as_slice());
    let ps = string_of(path.as_slice());
    let e = expand_tilde(ps.as_str(), home);
    let absolute = path_is_absolute(e.as_str());
    decide_chunk_target(chunk_name, home, allow_home, absolute)
}

// ── text clean-up ────────────────────────────────────────────────────────

/// `l` without trailing spaces, tabs and carriage returns.
pub open spec fn trim_trailing_blanks(l: Seq<char>) -> Seq<char>
    decreases l.len(),
{
    if l.len() > 0 && (l.last() == ' ' || l.last() == '\t' || l.last() == '\r') {
        trim_trailing_blanks(l.drop_last())
    } else {
        l
    }
}

/// Each line with its trailing blanks dropped, then a line feed.
pub open spec fn cleaned_lines(ls: Seq<Seq<char>>) -> Seq<char>
    decreases ls.len(),
{
    if ls.len() == 0 {
        seq![]
    } else {
        cleaned_lines(ls.drop_last()) + trim_trailing_blanks(ls.last()) + seq!['\n']
    }
}

/// What [`trim_trailing_whitespace`] returns: the cleaned lines, without the
/// final line feed when the text had none.
pub open spec fn trimmed_text(text: Seq<char>) -> Seq<char> {
    let r = cleaned_lines(lines(text));
    if !(text.len() > 0 && text.last() == '\n') && r.len() > 0 && r.last() == '\n' {
        r.drop_last()
    } else {
        r
    }
}

/// A text with trailing spaces, tabs and carriage returns dropped from
/// every line; a final line feed is kept only when the text had one.
pub fn trim_trailing_whitespace(text: &str) -> (r: String)
    ensures
        r@ == trimmed_text(text@),
{
    let t = chars_of(text);
    let ls = split_lines(t.as_slice());
    let ghost l = lines(text@);
    let mut out: Vec<char> = Vec::new();
    let mut i: usize = 0;
    assert(l.take(0) =~= Seq::<Seq<char>>::empty());
    while i < ls.len()
        invariant
            i <= ls.len(),
            views(ls@) == l,
            out@ == cleaned_lines(l.take(i as int)),
        decreases ls.len() - i,
    {
        assert(l.take(i + 1).drop_last() =~= l.take(i as int));
        assert(l.take(i + 1).last() == ls@[i as int]@);
        let line = &ls[i];
        let mut k = line.len();
        assert(line@.take(k as int) =~= line@);
        while k > 0 && (line[k - 1] == ' ' || line[k - 1] == '\t' || line[k - 1] == '\r')
            invariant
                k <= line.len(),
                trim_trailing_blanks(line@) == trim_trailing_blanks(line@.take(k as int)),
            decreases k,
        {
            assert(line@.take(k as int).drop_last() =~= line@.take(k - 1));
            k = k - 1;
        }
        let kept = sub_chars(line.as_slice(), 0, k);
        assert(kept@ =~= line@.take(k as int));
        push_all(&mut out, kept.as_slice());
        out.push('\n');
        i = i + 1;
    }
    assert(l.take(ls.len() as int) =~= l);
    let n = t.len();
    let m = out.len();
    if !(n > 0 && t[n - 1] == '\n') && m > 0 && out[m - 1] == '\n' {
        out.pop();
        assert(out@ =~= cleaned_lines(l).drop_last());
    }
    string_of(out.as_slice())
}

/// `s` as the body of a single-quoted SQLite string literal: each `'`
/// doubled.
pub open spec fn sql_quoted(s: Seq<char>) -> Seq<char>
    decreases s.len(),
{
    if s.len() == 0 {
        seq![]
    } else {
        sql_quoted(s.drop_last()) + if s.last() == '\'' {
            seq!['\'', '\'']
        } else {
            seq![s.last()]
        }
    }
}

/// Escapes `s` for use inside a single-quoted SQLite string literal.
pub fn sqlite_string_literal(s: &str) -> (r: String)
    ensures
        r@ == sql_quoted(s@),
{
    let c = chars_of(s);
    let mut out: Vec<char> = Vec::new();
    let mut i: usize = 0;
    assert(c@.take(0) =~= Seq::<char>::empty());
    while i < c.len()
        invariant
            i <= c.len(),
            c@ == s@,
            out@ == sql_quoted(c@.take(i as int)),
        decreases c.len() - i,
    {
        assert(c@.take(i + 1).drop_last() =~= c@.take(i as int));
        assert(c@.take(i + 1).last() == c@[i as int]);
        if c[i] == '\'' {
            out.push('\'');
            out.push('\'');
        } else {
            out.push(c[i]);
        }
        i = i + 1;
    }
    assert(c@.take(c.len() as int) =~= c@);
    string_of(out.as_slice())
}


// ── committing a staged file ─────────────────────────────────────────────

/// The formatter command for files with extension `ext`: that of the last
/// entry for `ext`, a later entry replacing an earlier one.
pub open spec fn formatter_of(fs: Seq<(Seq<char>, Seq<char>)>, ext: Seq<char>) -> Option<Seq<char>>
    decreases fs.len(),
{
    if fs.len() == 0 {
        None
    } else if fs.last().0 == ext {
        Some(fs.last().1)
    } else {
        formatter_of(fs.drop_last(), ext)
    }
}

pub open spec fn formatter_views(fs: Seq<(String, String)>) -> Seq<(Seq<char>, Seq<char>)> {
    fs.map_values(|p: (String, String)| (p.0@, p.1@))
}

/// The formatter command configured for files with extension `ext`.
pub fn formatter_for(config: &SafeWriterConfig, ext: &str) -> (r: Option<String>)
    ensures
        match formatter_of(formatter_views(config.formatters@), ext@) {
            None => r is None,
            Some(c) => r matches Some(s) && s@ == c,
        },
{
    let fs = &config.formatters;
    let e = chars_of(ext);
    let ghost v = formatter_views(fs@);
    let mut found: Option<String> = None;
    let mut i: usize = 0;
    assert(v.take(0) =~= Seq::<(Seq<char>, Seq<char>)>::empty());
    while i < fs.len()
        invariant
            i <= fs.len(),
            v == formatter_views(fs@),
            e@ == ext@,
            match formatter_of(v.take(i as int), ext@) {
                None => found is None,
                Some(c) => found matches Some(s) && s@ == c,
            },
        decreases fs.len() - i,
    {
        assert(v.take(i + 1).drop_last() =~= v.take(i as int));
        assert(v.take(i + 1).last() == (fs@[i as int].0@, fs@[i as int].1@));
        let k = chars_of(fs[i].0.as_str());
        if chars_eq(k.as_slice(), e.as_slice()) {
            found = Some(fs[i].1.clone());
        }
        i = i + 1;
    }
    assert(v.take(fs.len() as int) =~= v);
    found
}

/// Why a formatter's output is refused: it turned a non-empty file into an
/// empty one.
pub open spec fn formatter_output_error(cmd: Seq<char>, pre_size: u64, post_size: u64) -> Option<Seq<char>> {
    if pre_size > 0 && post_size == 0 {
        Some("formatter '"@ + cmd + "' produced an empty file (input was "@ + dec(pre_size as nat) + " bytes)"@)
    } else {
        None
    }
}

/// Checks the sizes of a file before and after the formatter `cmd` ran on it.
pub fn check_formatter_output(cmd: &str, pre_size: u64, post_size: u64) -> (r: Result<(), SafeWriterError>)
    ensures
        match formatter_output_error(cmd@, pre_size, post_size) {
            None => r is Ok,
            Some(m) => r matches Err(SafeWriterError::FormatterError(s)) && s@ == m,
        },
{
    if pre_size > 0 && post_size == 0 {
        let mut m: Vec<char> = Vec::new();
        push_str(&mut m, "formatter '");
        push_str(&mut m, cmd);
        push_str(&mut m, "' produced an empty file (input was ");
        let d = decimal(pre_size as u128);
        push_all(&mut m, d.as_slice());
        push_str(&mut m, " bytes)");
        Err(SafeWriterError::FormatterError(string_of(m.as_slice())))
    } else {
        Ok(())
    }
}

/// What becomes of a staged file.
#[derive(PartialEq, Eq, Structural, Clone, Copy, Debug)]
pub enum Commit {
    /// The file on disk was edited by hand: it is left alone and reported.
    Refuse,
    /// The staged text replaces the file on disk.
    Copy,
    /// The file on disk already holds the staged text.
    Keep,
}

/// The decision for a staged text `staged`, where `on_disk` is the generated
/// file as it is (if it exists) and `baseline` the text recorded when it was
/// last written (if any). Without `force`, a file that differs from its
/// baseline (or, with none, from the staged text) was edited by hand and is
/// refused; otherwise the staged text is copied when it differs from the
/// file, and always when forced.
pub open spec fn commit_of(force: bool, on_disk: Option<Seq<u8>>, baseline: Option<Seq<u8>>, staged: Seq<u8>) -> Commit {
    match on_disk {
        None => Commit::Copy,
        Some(cur) => if force {
            Commit::Copy
        } else if cur != (match baseline {
            Some(b) => b,
            None => staged,
        }) {
            Commit::Refuse
        } else if cur != staged {
            Commit::Copy
        } else {
            Commit::Keep
        },
    }
}

pub open spec fn bytes_view(b: Option<&[u8]>) -> Option<Seq<u8>> {
    match b {
        Some(x) => Some(x@),
        None => None,
    }
}

fn bytes_eq(a: &[u8], b: &[u8]) -> (r: bool)
    ensures
        r == (a@ == b@),
{
    if a.len() != b.len() {
        return false;
    }
    let mut i: usize = 0;
    while i < a.len()
        invariant
            i <= a.len(),
            a.len() == b.len(),
            forall|j: int| 0 <= j < i ==> a@[j] == b@[j],
        decreases a.len() - i,
    {
        if a[i] != b[i] {
            return false;
        }
        i = i + 1;
    }
    assert(a@ =~= b@);
    true
}

/// Decides what becomes of a staged file (see [`commit_of`]).
pub fn decide_commit(force: bool, on_disk: Option<&[u8]>, baseline: Option<&[u8]>, staged: &[u8]) -> (c: Commit)
    ensures
        c == commit_of(force, bytes_view(on_disk), bytes_view(baseline), staged@),
{
    match on_disk {
        None => Commit::Copy,
        Some(cur) => {
            if force {
                return Commit::Copy;
            }
            let reference = match baseline {
                Some(b) => b,
                None => staged,
            };
            if !bytes_eq(cur, reference) {
                Commit::Refuse
            } else if !bytes_eq(cur, staged) {
                Commit::Copy
            } else {
                Commit::Keep
            }
        },
    }
}

/// Law: without `force`, a generated file that differs from the text
/// recorded when it was last written is never overwritten.
pub proof fn law_hand_edits_are_kept(on_disk: Seq<u8>, baseline: Seq<u8>, staged: Seq<u8>)
    requires
        on_disk != baseline,
    ensures
        commit_of(false, Some(on_disk), Some(baseline), staged) == Commit::Refuse,
{
}

/// Law: with `force`, the staged text is always written, whatever is on disk.
pub proof fn law_force_always_writes(on_disk: Option<Seq<u8>>, baseline: Option<Seq<u8>>, staged: Seq<u8>)
    ensures
        commit_of(true, on_disk, baseline, staged) == Commit::Copy,
{
}

/// Law: a file left as it was last written is never refused; it is
/// rewritten exactly when the staged text differs from it.
pub proof fn law_untouched_file_follows_the_sources(force: bool, on_disk: Seq<u8>, staged: Seq<u8>)
    ensures
        commit_of(force, Some(on_disk), Some(on_disk), staged) != Commit::Refuse,
        commit_of(force, Some(on_disk), Some(on_disk), staged) == Commit::Keep <==> (!force && on_disk == staged),
{
}


// ── running a formatter ──────────────────────────────────────────────────

/// The words of a command line as a POSIX shell splits it (quotes and
/// backslashes taken into account), or `None` for a malformed line.
pub uninterp spec fn shlex_words(command: Seq<char>) -> Option<Seq<Seq<char>>>;

pub open spec fn words_view(w: Option<Vec<String>>) -> Option<Seq<Seq<char>>> {
    match w {
        Some(v) => Some(v@.map_values(|s: String| s@)),
        None => None,
    }
}

/// Splits a command line into words (`shlex::split`). The result is named
/// by [`shlex_words`]; `shlex` documents `None` as the answer to erroneous
/// input (an unclosed quote, a trailing backslash).
#[verifier::external_body]
fn shell_words(command: &str) -> (r: Option<Vec<String>>)
    ensures
        words_view(r) == shlex_words(command@),
{
    shlex::split(command)
}

/// The program and arguments of the formatter command `command`, given its
/// words; the refusal's message otherwise.
pub open spec fn argv_of(command: Seq<char>, words: Option<Seq<Seq<char>>>) -> Result<Seq<Seq<char>>, Seq<char>> {
    match words {
        None => Err("could not parse formatter command: '"@ + command + "'"@),
        Some(w) => if w.len() == 0 {
            Err("formatter command is empty"@)
        } else {
            Ok(w)
        },
    }
}

pub open spec fn argv_result_view(r: Result<Vec<String>, SafeWriterError>) -> Option<Result<Seq<Seq<char>>, Seq<char>>> {
    match r {
        Ok(v) => Some(Ok(v@.map_values(|s: String| s@))),
        Err(SafeWriterError::FormatterError(m)) => Some(Err(m@)),
        Err(_) => None,
    }
}

/// The program and arguments of a formatter command, from the words it was
/// split into.
pub fn formatter_argv_from(command: &str, words: Option<Vec<String>>) -> (r: Result<Vec<String>, SafeWriterError>)
    ensures
        argv_result_view(r) == Some(argv_of(command@, words_view(words))),
{
    match words {
        None => {
            let mut m: Vec<char> = Vec::new();
            push_str(&mut m, "could not parse formatter command: '");
            push_str(&mut m, command);
            push_str(&mut m, "'");
            Err(SafeWriterError::FormatterError(string_of(m.as_slice())))
        },
        Some(w) => {
            if w.len() == 0 {
                Err(SafeWriterError::FormatterError("formatter command is empty".to_string()))
            } else {
                Ok(w)
            }
        },
    }
}

/// The program and arguments of the formatter command `command`.
pub fn formatter_argv(command: &str) -> (r: Result<Vec<String>, SafeWriterError>)
    ensures
        argv_result_view(r) == Some(argv_of(command@, shlex_words(command@))),
{
    let words = shell_words(command);
    formatter_argv_from(command, words)
}

/// An integer in decimal, with a minus sign when negative.
pub open spec fn signed_dec(i: int) -> Seq<char> {
    if i < 0 {
        seq!['-'] + dec((-i) as nat)
    } else {
        dec(i as nat)
    }
}

/// Why a formatter's run is refused: it did not succeed. A run that ended
/// without an exit code (killed by a signal) counts as code -1.
pub open spec fn formatter_status_error(command: Seq<char>, success: bool, code: Option<i32>) -> Option<Seq<char>> {
    if success {
        None
    } else {
        Some("'"@ + command + "' exited with code "@ + signed_dec(match code {
            Some(c) => c as int,
            None => -1,
        }))
    }
}

/// Checks how the formatter `command` ended.
pub fn check_formatter_status(command: &str, success: bool, code: Option<i32>) -> (r: Result<(), SafeWriterError>)
    ensures
        match formatter_status_error(command@, success, code) {
            None => r is Ok,
            Some(m) => r matches Err(SafeWriterError::FormatterError(s)) && s@ == m,
        },
{
    if success {
        return Ok(());
    }
    let c: i32 = match code {
        Some(c) => c,
        None => -1,
    };
    let mut m: Vec<char> = Vec::new();
    push_str(&mut m, "'");
    push_str(&mut m, command);
    push_str(&mut m, "' exited with code ");
    if c < 0 {
        m.push('-');
        let n: i64 = -(c as i64);
        let d = decimal(n as u128);
        push_all(&mut m, d.as_slice());
    } else {
        let d = decimal(c as u128);
        push_all(&mut m, d.as_slice());
    }
    Err(SafeWriterError::FormatterError(string_of(m.as_slice())))
}

} // verus!
