//! The chunk store: reading literate sources into named chunk definitions.
use vstd::prelude::*;
use crate::errors::{ChunkError, ChunkErrorView, ChunkLocation, SafeWriterError};
use crate::syntax::{NowebSyntax, SyntaxView, parse_def, is_close, parse_ref, kw_reversed, kw_compact, kw_tight};
use crate::text::{trim, all_ws, is_ws, is_all_ws, trim_chars, dec, decimal, push_all, push_str};
use crate::report::{char_views, sort_strings, sorted};
use crate::text::{chars_of, string_of, sub_chars, split_lines, lines, views, matches_at, concat_chars, match_at};

verus! {

// ── paths of @file chunks ────────────────────────────────────────────────

/// A `..` path component starts at `i` in `p`.
pub open spec fn parent_at(p: Seq<char>, i: int) -> bool {
    &&& 0 <= i && i + 2 <= p.len() && p[i] == '.' && p[i + 1] == '.'
    &&& (i == 0 || p[i - 1] == '/')
    &&& (i + 2 == p.len() || p[i + 2] == '/')
}

/// `p` has a `..` path component (`/`-separated).
pub open spec fn has_parent_component(p: Seq<char>) -> bool {
    exists|i: int| #[trigger] parent_at(p, i)
}

/// `p` contains the character `c`.
pub open spec fn has_char(p: Seq<char>, c: char) -> bool {
    exists|i: int| 0 <= i < p.len() && p[i] == c
}

/// An output path is safe: relative, without `:` and without `..` components.
pub open spec fn path_safe(p: Seq<char>) -> bool {
    &&& !(p.len() > 0 && p[0] == '/')
    &&& !has_char(p, ':')
    &&& !has_parent_component(p)
}

pub fn contains_char(p: &[char], c: char) -> (b: bool)
    ensures
        b == has_char(p@, c),
{
    let mut i: usize = 0;
    while i < p.len()
        invariant
            i <= p.len(),
            forall|j: int| 0 <= j < i ==> p@[j] != c,
        decreases p.len() - i,
    {
        if p[i] == c {
            return true;
        }
        i = i + 1;
    }
    false
}

fn has_parent_dir(p: &[char]) -> (b: bool)
    ensures
        b == has_parent_component(p@),
{
    let mut i: usize = 0;
    while i < p.len()
        invariant
            i <= p.len(),
            forall|j: int| 0 <= j < i ==> !#[trigger] parent_at(p@, j),
        decreases p.len() - i,
    {
        if i + 1 < p.len() && p[i] == '.' && p[i + 1] == '.' && (i == 0 || p[i - 1] == '/') && (i + 2 == p.len() || p[i + 2] == '/') {
            assert(parent_at(p@, i as int));
            return true;
        }
        i = i + 1;
    }
    false
}

fn path_safe_chars(p: &[char]) -> (b: bool)
    ensures
        b == path_safe(p@),
{
    !(p.len() > 0 && p[0] == '/') && !contains_char(p, ':') && !has_parent_dir(p)
}

/// Checks an `@file` path: absolute paths, drive-style paths (any `:`) and
/// `..` components are refused.
pub fn path_is_safe(path: &str) -> (r: Result<(), SafeWriterError>)
    ensures
        r is Ok <==> path_safe(path@),
        r matches Err(e) ==> e is SecurityViolation,
{
    let p = chars_of(path);
    if p.len() > 0 && p[0] == '/' {
        return Err(SafeWriterError::SecurityViolation("Absolute paths are not allowed".to_string()));
    }
    if contains_char(p.as_slice(), ':') {
        return Err(SafeWriterError::SecurityViolation("Windows-style paths are not allowed".to_string()));
    }
    if has_parent_dir(p.as_slice()) {
        return Err(SafeWriterError::SecurityViolation("Path traversal is not allowed".to_string()));
    }
    Ok(())
}

// ── the model of a store ─────────────────────────────────────────────────

/// `@file ` — the prefix of the names of file chunks.
pub open spec fn file_prefix() -> Seq<char> {
    seq!['@', 'f', 'i', 'l', 'e', ' ']
}

/// One definition of a chunk.
pub struct DefView {
    pub content: Seq<Seq<char>>,
    pub base_indent: int,
    pub file_idx: int,
    pub line: int,
    pub def_end: Option<int>,
}

/// The abstract state of a chunk store.
pub struct StoreView {
    /// Chunk names with their definitions, in the order the names first appeared.
    pub chunks: Seq<(Seq<char>, Seq<DefView>)>,
    pub file_chunks: Seq<Seq<char>>,
    pub file_names: Seq<Seq<char>>,
    pub syntax: SyntaxView,
    pub strict: bool,
    pub warn_unused: bool,
    /// Problems found while reading (redefined file chunks).
    pub errors: Seq<ChunkErrorView>,
}

/// The index of the first entry named `name` at or after `i`.
pub open spec fn find_from(chunks: Seq<(Seq<char>, Seq<DefView>)>, name: Seq<char>, i: int) -> Option<int>
    decreases chunks.len() - i,
{
    if i < 0 || i >= chunks.len() {
        None
    } else if chunks[i].0 == name {
        Some(i)
    } else {
        find_from(chunks, name, i + 1)
    }
}

/// The index of the entry named `name`.
pub open spec fn find_chunk(chunks: Seq<(Seq<char>, Seq<DefView>)>, name: Seq<char>) -> Option<int> {
    find_from(chunks, name, 0)
}

/// The definitions of `name`, if it is defined.
pub open spec fn defs_of(st: StoreView, name: Seq<char>) -> Option<Seq<DefView>> {
    match find_chunk(st.chunks, name) {
        Some(i) => Some(st.chunks[i].1),
        None => None,
    }
}

/// `chunks` without the entry named `name`.
pub open spec fn remove_chunk(chunks: Seq<(Seq<char>, Seq<DefView>)>, name: Seq<char>) -> Seq<(Seq<char>, Seq<DefView>)> {
    match find_chunk(chunks, name) {
        Some(i) => chunks.remove(i),
        None => chunks,
    }
}

/// `chunks` with one more definition of `name`.
pub open spec fn add_def(chunks: Seq<(Seq<char>, Seq<DefView>)>, name: Seq<char>, d: DefView) -> Seq<(Seq<char>, Seq<DefView>)> {
    match find_chunk(chunks, name) {
        Some(i) => chunks.update(i, (name, chunks[i].1.push(d))),
        None => chunks.push((name, seq![d])),
    }
}

/// The name of the file with index `i`, empty when there is none.
pub open spec fn file_name_of(names: Seq<Seq<char>>, i: int) -> Seq<char> {
    if 0 <= i < names.len() {
        names[i]
    } else {
        seq![]
    }
}

/// A chunk name is accepted: a file chunk needs a safe path, another chunk a non-empty name.
pub open spec fn name_ok(base: Seq<char>, full: Seq<char>, is_file: bool) -> bool {
    if is_file {
        path_safe(base)
    } else {
        full.len() > 0
    }
}

/// The current definition being filled: the chunk's name and the definition index.
pub type Cursor = Option<(Seq<char>, int)>;

/// One line of a source, read into the store.
pub open spec fn read_line(st: StoreView, cur: Cursor, l: Seq<char>, n: int, fi: int) -> (StoreView, Cursor) {
    match parse_def(l, st.syntax) {
        Some((w, s, q, rp, f)) => {
            let base = l.subrange(s, q);
            let full = if f { file_prefix() + base } else { base };
            let is_file_name = full.len() >= 6 && full.take(6) == file_prefix();
            if !name_ok(base, full, f) {
                (st, cur)
            } else if is_file_name && find_chunk(st.chunks, full) is Some && !rp {
                (StoreView {
                    errors: st.errors.push(ChunkErrorView::FileChunkRedefinition {
                        file_chunk: full,
                        file_name: file_name_of(st.file_names, fi),
                        location: ChunkLocation { file_idx: fi as usize, line: n as usize },
                    }),
                    ..st
                }, cur)
            } else {
                let c1 = if rp { remove_chunk(st.chunks, full) } else { st.chunks };
                let d = DefView { content: seq![], base_indent: w, file_idx: fi, line: n, def_end: None };
                let c2 = add_def(c1, full, d);
                let idx = c2[find_chunk(c2, full)->0].1.len() - 1;
                let fc = if is_file_name && !st.file_chunks.contains(full) {
                    st.file_chunks.push(full)
                } else {
                    st.file_chunks
                };
                (StoreView { chunks: c2, file_chunks: fc, ..st }, Some((full, idx)))
            }
        },
        None => if is_close(l, st.syntax) {
            (close_def(st, cur, n), None)
        } else {
            match cur {
                Some((nm, k)) => (append_line(st, nm, k, l.push('\n')), cur),
                None => (st, cur),
            }
        },
    }
}

/// Records the end line of the current definition.
pub open spec fn close_def(st: StoreView, cur: Cursor, n: int) -> StoreView {
    match cur {
        Some((nm, k)) => match find_chunk(st.chunks, nm) {
            Some(i) if 0 <= k < st.chunks[i].1.len() => {
                let d = st.chunks[i].1[k];
                StoreView {
                    chunks: st.chunks.update(i, (nm, st.chunks[i].1.update(k, DefView { def_end: Some(n), ..d }))),
                    ..st
                }
            },
            _ => st,
        },
        None => st,
    }
}

/// Appends a content line to definition `k` of chunk `nm`.
pub open spec fn append_line(st: StoreView, nm: Seq<char>, k: int, l: Seq<char>) -> StoreView {
    match find_chunk(st.chunks, nm) {
        Some(i) if 0 <= k < st.chunks[i].1.len() => {
            let d = st.chunks[i].1[k];
            StoreView {
                chunks: st.chunks.update(i, (nm, st.chunks[i].1.update(k, DefView { content: d.content.push(l), ..d }))),
                ..st
            }
        },
        _ => st,
    }
}

/// Reads lines `ls[i..]` (line numbers from `i`) of the file with index `fi`.
pub open spec fn read_lines(st: StoreView, cur: Cursor, ls: Seq<Seq<char>>, i: int, fi: int) -> StoreView
    decreases ls.len() - i,
{
    if i < 0 || i >= ls.len() {
        st
    } else {
        let (st2, cur2) = read_line(st, cur, ls[i], i, fi);
        read_lines(st2, cur2, ls, i + 1, fi)
    }
}

/// Reading a whole text.
pub open spec fn read_text(st: StoreView, text: Seq<char>, fi: int) -> StoreView {
    read_lines(st, None, lines(text), 0, fi)
}


// ── expansion, as spec functions ─────────────────────────────────────────

/// The deepest nesting of chunk references that expansion follows.
pub const MAX_DEPTH: usize = 100;

/// How trustworthy a source-map entry is.
#[derive(Debug, Clone, Copy, PartialEq, Eq, Structural)]
pub enum Confidence {
    /// Produced directly by expansion.
    Exact,
    /// Recovered by matching normalised line content.
    HashMatch,
    /// Inherited from a neighbouring line.
    Inferred,
}

/// The options a reference carries: `@reversed`, `@compact`, `@tight`.
#[derive(Debug, Clone, Copy, PartialEq, Eq, Structural)]
pub struct RefOptions {
    pub reversed: bool,
    pub compact: bool,
    pub tight: bool,
}

/// Where an expanded output line comes from.
pub struct EntryView {
    pub src_file: Seq<char>,
    pub chunk_name: Seq<char>,
    pub src_line: u32,
    pub indent: Seq<char>,
    pub confidence: Confidence,
}

/// An expanded line and its origin.
pub type OutLine = (Seq<char>, EntryView);

/// A successful expansion: the lines, the chunks entered and the
/// `(from, to, source file)` reference edges met.
pub struct ExpandOk {
    pub lines: Seq<OutLine>,
    pub refs: Set<Seq<char>>,
    pub deps: Set<(Seq<char>, Seq<char>, Seq<char>)>,
}

pub open spec fn empty_ok() -> ExpandOk {
    ExpandOk { lines: seq![], refs: Set::empty(), deps: Set::empty() }
}

/// A line is blank when all its characters are whitespace.
pub open spec fn blank_line(o: OutLine) -> bool {
    all_ws(o.0)
}

pub open spec fn drop_leading_blank(s: Seq<OutLine>) -> Seq<OutLine>
    decreases s.len(),
{
    if s.len() > 0 && blank_line(s[0]) {
        drop_leading_blank(s.drop_first())
    } else {
        s
    }
}

pub open spec fn drop_trailing_blank(s: Seq<OutLine>) -> Seq<OutLine>
    decreases s.len(),
{
    if s.len() > 0 && blank_line(s.last()) {
        drop_trailing_blank(s.drop_last())
    } else {
        s
    }
}

/// `s` without its leading and trailing blank lines.
pub open spec fn trim_blank_edges(s: Seq<OutLine>) -> Seq<OutLine> {
    drop_trailing_blank(drop_leading_blank(s))
}

/// `s` without any blank line.
pub open spec fn drop_blank(s: Seq<OutLine>) -> Seq<OutLine> {
    s.filter(|o: OutLine| !blank_line(o))
}

/// The lines of one definition, shaped by the options of the reference:
/// `@compact` trims blank edge lines, `@tight` also drops blank lines.
pub open spec fn space_lines(s: Seq<OutLine>, o: RefOptions) -> Seq<OutLine> {
    let s1 = if o.compact || o.tight { trim_blank_edges(s) } else { s };
    if o.tight { drop_blank(s1) } else { s1 }
}

/// `pat` occurs in `s`.
pub open spec fn contains_seq(s: Seq<char>, pat: Seq<char>) -> bool {
    exists|i: int| #[trigger] matches_at(s, i, pat)
}

/// The options named in a reference's modifier text.
pub open spec fn options_of(modifier: Seq<char>) -> RefOptions {
    RefOptions {
        reversed: contains_seq(modifier, kw_reversed()),
        compact: contains_seq(modifier, kw_compact()),
        tight: contains_seq(modifier, kw_tight()),
    }
}

/// How many more nesting levels a stack allows.
pub open spec fn budget(stack: Seq<Seq<char>>) -> int {
    if stack.len() <= MAX_DEPTH {
        MAX_DEPTH + 1 - stack.len()
    } else {
        0
    }
}

pub open spec fn ordered(defs: Seq<DefView>, reversed: bool) -> Seq<DefView> {
    if reversed {
        defs.reverse()
    } else {
        defs
    }
}

/// The location of line `i` of a definition (0-based, wrapping like machine words).
pub open spec fn line_loc(d: DefView, i: int) -> ChunkLocation {
    ChunkLocation {
        file_idx: d.file_idx as usize,
        line: vstd::wrapping::usize_specs::wrapping_add(d.line as usize, i as usize),
    }
}

/// Expands `name` with indentation `indent`, referenced from `loc` with
/// options `opts`, while the chunks on `stack` are being expanded.
pub open spec fn exp_chunk(st: StoreView, name: Seq<char>, indent: Seq<char>, stack: Seq<Seq<char>>, loc: ChunkLocation, opts: RefOptions) -> Result<ExpandOk, ChunkErrorView>
    decreases budget(stack), 2int, 0int,
{
    let file_name = file_name_of(st.file_names, loc.file_idx as int);
    if stack.len() > MAX_DEPTH {
        Err(ChunkErrorView::RecursionLimit { chunk: name, file_name, location: loc })
    } else if stack.contains(name) {
        Err(ChunkErrorView::RecursiveReference { chunk: name, cycle: stack.push(name), file_name, location: loc })
    } else {
        match defs_of(st, name) {
            None => if st.strict {
                Err(ChunkErrorView::UndefinedChunk { chunk: name, file_name, location: loc })
            } else {
                Ok(empty_ok())
            },
            Some(defs) => match exp_defs(st, name, ordered(defs, opts.reversed), indent, stack, opts) {
                Ok(r) => Ok(ExpandOk { refs: r.refs.insert(name), ..r }),
                Err(e) => Err(e),
            },
        }
    }
}

/// Expands the definitions `ds` of `name` in turn (each shaped by `opts`).
pub open spec fn exp_defs(st: StoreView, name: Seq<char>, ds: Seq<DefView>, indent: Seq<char>, stack: Seq<Seq<char>>, opts: RefOptions) -> Result<ExpandOk, ChunkErrorView>
    decreases budget(stack), 1int, ds.len(),
{
    if ds.len() == 0 {
        Ok(empty_ok())
    } else {
        match exp_lines(st, name, ds[0], 0, indent, stack) {
            Err(e) => Err(e),
            Ok(a) => match exp_defs(st, name, ds.drop_first(), indent, stack, opts) {
                Err(e) => Err(e),
                Ok(b) => Ok(ExpandOk { lines: space_lines(a.lines, opts) + b.lines, refs: a.refs + b.refs, deps: a.deps + b.deps }),
            },
        }
    }
}

/// Expands lines `i..` of definition `d` of `name` (whose own expansion
/// happens with `stack`, not yet holding `name`).
pub open spec fn exp_lines(st: StoreView, name: Seq<char>, d: DefView, i: int, indent: Seq<char>, stack: Seq<Seq<char>>) -> Result<ExpandOk, ChunkErrorView>
    decreases budget(stack), 0int, d.content.len() - i,
{
    if stack.len() > MAX_DEPTH || i < 0 || i >= d.content.len() {
        Ok(empty_ok())
    } else {
        let line = d.content[i];
        let src_file = file_name_of(st.file_names, d.file_idx);
        match parse_ref(line, st.syntax) {
            Some((w, p, s, q)) => {
                let child = trim(line.subrange(s, q));
                let copts = options_of(line.subrange(p, s));
                let rel = if w > d.base_indent { line.subrange(d.base_indent, w) } else { seq![] };
                let dep = (name, child, src_file);
                match exp_chunk(st, child, indent + rel, stack.push(name), line_loc(d, i), copts) {
                    Err(e) => Err(e),
                    Ok(a) => match exp_lines(st, name, d, i + 1, indent, stack) {
                        Err(e) => Err(e),
                        Ok(b) => Ok(ExpandOk {
                            lines: space_lines(a.lines, copts) + b.lines,
                            refs: a.refs + b.refs,
                            deps: a.deps.insert(dep) + b.deps,
                        }),
                    },
                }
            },
            None => {
                let body = if line.len() > d.base_indent { line.skip(d.base_indent) } else { line };
                let entry = EntryView {
                    src_file,
                    chunk_name: name,
                    src_line: vstd::wrapping::usize_specs::wrapping_add(line_loc(d, i).line, 1) as u32,
                    indent,
                    confidence: Confidence::Exact,
                };
                match exp_lines(st, name, d, i + 1, indent, stack) {
                    Err(e) => Err(e),
                    Ok(b) => Ok(ExpandOk { lines: seq![(indent + body, entry)] + b.lines, ..b }),
                }
            },
        }
    }
}

// ── source-map entries and line shaping ──────────────────────────────────

/// The origin of one output line: source file, chunk, 0-based source line
/// plus one, the indentation prefixed by expansion, and how it was matched.
#[derive(Debug, Clone, PartialEq, Eq)]
pub struct NowebMapEntry {
    pub src_file: String,
    pub chunk_name: String,
    pub src_line: u32,
    pub indent: String,
    pub confidence: Confidence,
}

impl View for NowebMapEntry {
    type V = EntryView;

    open spec fn view(&self) -> EntryView {
        EntryView {
            src_file: self.src_file@,
            chunk_name: self.chunk_name@,
            src_line: self.src_line,
            indent: self.indent@,
            confidence: self.confidence,
        }
    }
}

impl NowebMapEntry {
    /// A copy of this entry.
    pub fn duplicate(&self) -> (r: Self)
        ensures
            r@ == self@,
    {
        NowebMapEntry {
            src_file: self.src_file.clone(),
            chunk_name: self.chunk_name.clone(),
            src_line: self.src_line,
            indent: self.indent.clone(),
            confidence: self.confidence,
        }
    }
}

impl Confidence {
    /// The name of the confidence level.
    pub fn as_str(&self) -> (s: &'static str)
        ensures
            s@ == match self {
                Confidence::Exact => "exact"@,
                Confidence::HashMatch => "hash_match"@,
                Confidence::Inferred => "inferred"@,
            },
    {
        match self {
            Confidence::Exact => "exact",
            Confidence::HashMatch => "hash_match",
            Confidence::Inferred => "inferred",
        }
    }
}

pub open spec fn out_views(v: Seq<(Vec<char>, NowebMapEntry)>) -> Seq<OutLine> {
    v.map_values(|p: (Vec<char>, NowebMapEntry)| (p.0@, p.1@))
}

fn copy_out(o: &(Vec<char>, NowebMapEntry)) -> (r: (Vec<char>, NowebMapEntry))
    ensures
        r.0@ == o.0@,
        r.1@ == o.1@,
{
    (sub_chars(o.0.as_slice(), 0, o.0.len()), o.1.duplicate())
}

/// The lines without their leading and trailing blank lines.
pub fn trim_blank_edge_lines(lines: Vec<(Vec<char>, NowebMapEntry)>) -> (r: Vec<(Vec<char>, NowebMapEntry)>)
    ensures
        out_views(r@) == trim_blank_edges(out_views(lines@)),
{
    let ghost v = out_views(lines@);
    let n = lines.len();
    let mut start: usize = 0;
    assert(v.skip(0) =~= v);
    while start < n && is_all_ws(lines[start].0.as_slice())
        invariant
            start <= n == lines.len(),
            v == out_views(lines@),
            drop_leading_blank(v) == drop_leading_blank(v.skip(start as int)),
        decreases n - start,
    {
        assert(v.skip(start as int).drop_first() =~= v.skip(start + 1));
        assert(v.skip(start as int)[0] == v[start as int]);
        start = start + 1;
    }
    proof {
        if start < n {
            assert(v.skip(start as int)[0] == v[start as int]);
        } else {
            assert(v.skip(start as int) =~= Seq::<OutLine>::empty());
        }
        assert(drop_leading_blank(v) == v.skip(start as int));
    }
    let mut end: usize = n;
    assert(v.skip(start as int) =~= v.subrange(start as int, n as int));
    while end > start && is_all_ws(lines[end - 1].0.as_slice())
        invariant
            start <= end <= n == lines.len(),
            v == out_views(lines@),
            trim_blank_edges(v) == drop_trailing_blank(v.subrange(start as int, end as int)),
        decreases end,
    {
        assert(v.subrange(start as int, end as int).drop_last() =~= v.subrange(start as int, end - 1));
        assert(v.subrange(start as int, end as int).last() == v[end - 1]);
        end = end - 1;
    }
    proof {
        if end > start {
            assert(v.subrange(start as int, end as int).last() == v[end - 1]);
        } else {
            assert(v.subrange(start as int, end as int) =~= Seq::<OutLine>::empty());
        }
    }
    let mut lines = lines;
    lines.truncate(end);
    let r = lines.split_off(start);
    assert(out_views(r@) =~= v.subrange(start as int, end as int));
    r
}

/// The lines without any blank line.
pub fn drop_blank_only_lines(lines: Vec<(Vec<char>, NowebMapEntry)>) -> (r: Vec<(Vec<char>, NowebMapEntry)>)
    ensures
        out_views(r@) == drop_blank(out_views(lines@)),
{
    let ghost v = out_views(lines@);
    let mut r: Vec<(Vec<char>, NowebMapEntry)> = Vec::new();
    let mut i: usize = 0;
    while i < lines.len()
        invariant
            i <= lines.len(),
            v == out_views(lines@),
            out_views(r@) == drop_blank(v.take(i as int)),
        decreases lines.len() - i,
    {
        proof {
            reveal(Seq::filter);
            assert(v.take(i + 1).drop_last() =~= v.take(i as int));
            assert(v.take(i + 1).last() == v[i as int]);
        }
        if !is_all_ws(lines[i].0.as_slice()) {
            let c = copy_out(&lines[i]);
            let ghost before = out_views(r@);
            r.push(c);
            assert(out_views(r@) =~= before.push(v[i as int]));
        }
        i = i + 1;
    }
    assert(v.take(lines.len() as int) =~= v);
    r
}

/// Shapes the lines of one definition by the reference options.
pub fn apply_ref_space_options(lines: Vec<(Vec<char>, NowebMapEntry)>, options: RefOptions) -> (r: Vec<(Vec<char>, NowebMapEntry)>)
    ensures
        out_views(r@) == space_lines(out_views(lines@), options),
{
    let mut lines = lines;
    if options.compact || options.tight {
        lines = trim_blank_edge_lines(lines);
    }
    if options.tight {
        lines = drop_blank_only_lines(lines);
    }
    lines
}

fn contains_pat(s: &[char], pat: &[char]) -> (b: bool)
    ensures
        b == contains_seq(s@, pat@),
{
    let mut i: usize = 0;
    while i < s.len()
        invariant
            i <= s.len(),
            forall|j: int| 0 <= j < i ==> !#[trigger] matches_at(s@, j, pat@),
        decreases s.len() - i,
    {
        if match_at(s, i, pat) {
            return true;
        }
        i = i + 1;
    }
    if match_at(s, i, pat) {
        return true;
    }
    proof {
        assert forall|j: int| !#[trigger] matches_at(s@, j, pat@) by {
            if j > s@.len() {
            }
        }
    }
    false
}

fn options_from(modifier: &[char]) -> (o: RefOptions)
    ensures
        o == options_of(modifier@),
{
    let k2: [char; 9] = ['@', 'r', 'e', 'v', 'e', 'r', 's', 'e', 'd'];
    let k3: [char; 8] = ['@', 'c', 'o', 'm', 'p', 'a', 'c', 't'];
    let k4: [char; 6] = ['@', 't', 'i', 'g', 'h', 't'];
    assert(k2@ == kw_reversed());
    assert(k3@ == kw_compact());
    assert(k4@ == kw_tight());
    RefOptions {
        reversed: contains_pat(modifier, &k2),
        compact: contains_pat(modifier, &k3),
        tight: contains_pat(modifier, &k4),
    }
}

// ── the executable store ─────────────────────────────────────────────────

/// One definition of a chunk: its content lines (each ending in `\n`), the
/// indentation of its opening line (in characters), where it starts and where
/// its chunk-end marker stands.
#[derive(Debug, Clone)]
pub struct ChunkDef {
    content: Vec<Vec<char>>,
    base_indent: usize,
    file_idx: usize,
    line: usize,
    def_end: Option<usize>,
}

impl ChunkDef {
    fn new(base_indent: usize, file_idx: usize, line: usize) -> (d: Self)
        ensures
            d.view() == (DefView { content: seq![], base_indent: base_indent as int, file_idx: file_idx as int, line: line as int, def_end: None }),
    {
        let d = ChunkDef { content: Vec::new(), base_indent, file_idx, line, def_end: None };
        assert(views(d.content@) =~= Seq::<Seq<char>>::empty());
        d
    }

    pub closed spec fn view(&self) -> DefView {
        DefView {
            content: views(self.content@),
            base_indent: self.base_indent as int,
            file_idx: self.file_idx as int,
            line: self.line as int,
            def_end: match self.def_end {
                Some(e) => Some(e as int),
                None => None,
            },
        }
    }
}

/// The definitions of one chunk name.
#[derive(Debug)]
pub struct ChunkEntry {
    name: String,
    defs: Vec<ChunkDef>,
}

pub closed spec fn def_views(d: Seq<ChunkDef>) -> Seq<DefView> {
    d.map_values(|x: ChunkDef| x.view())
}

pub closed spec fn entry_views(c: Seq<ChunkEntry>) -> Seq<(Seq<char>, Seq<DefView>)> {
    c.map_values(|e: ChunkEntry| (e.name@, def_views(e.defs@)))
}

pub open spec fn string_views(v: Seq<String>) -> Seq<Seq<char>> {
    v.map_values(|s: String| s@)
}

pub open spec fn error_views(v: Seq<ChunkError>) -> Seq<ChunkErrorView> {
    v.map_values(|e: ChunkError| e@)
}

/// Named chunks read from literate sources.
#[derive(Debug)]
pub struct ChunkStore {
    chunks: Vec<ChunkEntry>,
    file_chunks: Vec<String>,
    syntax: NowebSyntax,
    file_names: Vec<String>,
    strict_undefined: bool,
    warn_unused: bool,
    parse_errors: Vec<ChunkError>,
}

impl View for ChunkStore {
    type V = StoreView;

    closed spec fn view(&self) -> StoreView {
        StoreView {
            chunks: entry_views(self.chunks@),
            file_chunks: string_views(self.file_chunks@),
            file_names: string_views(self.file_names@),
            syntax: self.syntax@,
            strict: self.strict_undefined,
            warn_unused: self.warn_unused,
            errors: error_views(self.parse_errors@),
        }
    }
}

impl ChunkStore {
    /// The state of a new store.
    pub open spec fn new_spec(open: Seq<char>, close: Seq<char>, end: Seq<char>, comments: Seq<Seq<char>>) -> StoreView {
        StoreView {
            chunks: seq![],
            file_chunks: seq![],
            file_names: seq![],
            syntax: SyntaxView { open, close, end, comments },
            strict: false,
            warn_unused: false,
            errors: seq![],
        }
    }

    pub fn new(open_delim: &str, close_delim: &str, chunk_end: &str, comment_markers: &[String]) -> (s: Self)
        ensures
            s@ == Self::new_spec(open_delim@, close_delim@, chunk_end@, comment_markers@.map_values(|m: String| m@)),
    {
        let s = ChunkStore {
            chunks: Vec::new(),
            file_chunks: Vec::new(),
            syntax: NowebSyntax::new(open_delim, close_delim, chunk_end, comment_markers),
            file_names: Vec::new(),
            strict_undefined: false,
            warn_unused: false,
            parse_errors: Vec::new(),
        };
        assert(entry_views(s.chunks@) =~= seq![]);
        assert(string_views(s.file_chunks@) =~= seq![]);
        assert(string_views(s.file_names@) =~= seq![]);
        assert(error_views(s.parse_errors@) =~= seq![]);
        s
    }

    /// Registers the name of the next input file and returns its index.
    pub fn add_file_name(&mut self, fname: &str) -> (idx: usize)
        ensures
            idx == old(self)@.file_names.len(),
            final(self)@ == (StoreView { file_names: old(self)@.file_names.push(fname@), ..old(self)@ }),
    {
        let idx = self.file_names.len();
        self.file_names.push(fname.to_string());
        assert(string_views(self.file_names@) =~= string_views(old(self).file_names@).push(fname@));
        idx
    }

    pub fn set_strict_undefined(&mut self, strict: bool)
        ensures
            final(self)@ == (StoreView { strict, ..old(self)@ }),
    {
        self.strict_undefined = strict;
    }

    pub fn set_warn_unused(&mut self, warn: bool)
        ensures
            final(self)@ == (StoreView { warn_unused: warn, ..old(self)@ }),
    {
        self.warn_unused = warn;
    }

    pub fn warn_unused(&self) -> (b: bool)
        ensures
            b == self@.warn_unused,
    {
        self.warn_unused
    }

    pub fn strict_undefined(&self) -> (b: bool)
        ensures
            b == self@.strict,
    {
        self.strict_undefined
    }

    /// The problems found while reading, in the order they were found.
    pub fn parse_errors(&self) -> (e: &Vec<ChunkError>)
        ensures
            error_views(e@) == self@.errors,
    {
        &self.parse_errors
    }

    pub fn file_names(&self) -> (v: &Vec<String>)
        ensures
            string_views(v@) == self@.file_names,
    {
        &self.file_names
    }

    pub fn syntax(&self) -> (s: &NowebSyntax)
        ensures
            s@ == self@.syntax,
    {
        &self.syntax
    }

    fn find(&self, name: &String) -> (r: Option<usize>)
        ensures
            crate::syntax::opt_int(r) == find_chunk(self@.chunks, name@),
            r matches Some(i) ==> i < self.chunks.len(),
    {
        let mut i: usize = 0;
        while i < self.chunks.len()
            invariant
                i <= self.chunks.len(),
                find_chunk(self@.chunks, name@) == find_from(self@.chunks, name@, i as int),
            decreases self.chunks.len() - i,
        {
            if self.chunks[i].name == *name {
                return Some(i);
            }
            i = i + 1;
        }
        None
    }

    /// Whether a chunk of this name is defined.
    pub fn has_chunk(&self, name: &str) -> (b: bool)
        ensures
            b == (find_chunk(self@.chunks, name@) is Some),
    {
        let n = name.to_string();
        self.find(&n).is_some()
    }

    /// The names of the file chunks, in the order they were first defined.
    pub fn get_file_chunks(&self) -> (v: Vec<String>)
        ensures
            string_views(v@) == self@.file_chunks,
    {
        let mut v: Vec<String> = Vec::new();
        let mut i: usize = 0;
        while i < self.file_chunks.len()
            invariant
                i <= self.file_chunks.len(),
                v@.len() == i,
                forall|j: int| 0 <= j < i ==> (#[trigger] v@[j])@ == self.file_chunks@[j]@,
            decreases self.file_chunks.len() - i,
        {
            let c = self.file_chunks[i].clone();
            v.push(c);
            i = i + 1;
        }
        assert(string_views(v@) =~= string_views(self.file_chunks@));
        v
    }

    fn remove_entry(&mut self, name: &String)
        ensures
            final(self)@ == (StoreView { chunks: remove_chunk(old(self)@.chunks, name@), ..old(self)@ }),
    {
        match self.find(name) {
            Some(i) => {
                let _ = self.chunks.remove(i);
                assert(entry_views(self.chunks@) =~= entry_views(old(self).chunks@).remove(i as int));
            },
            None => {},
        }
    }

    /// Adds a definition to `name`; returns the index of the new definition.
    fn add_definition(&mut self, name: String, d: ChunkDef) -> (k: usize)
        ensures
            final(self)@ == (StoreView { chunks: add_def(old(self)@.chunks, name@, d.view()), ..old(self)@ }),
            find_chunk(final(self)@.chunks, name@) is Some,
            k == final(self)@.chunks[find_chunk(final(self)@.chunks, name@)->0].1.len() - 1,
    {
        let ghost dv = d.view();
        let ghost nv = name@;
        match self.find(&name) {
            Some(i) => {
                proof { lemma_find_found(entry_views(self.chunks@), nv, 0); }
                self.chunks[i].defs.push(d);
                let k = self.chunks[i].defs.len() - 1;
                proof {
                    let old_e = entry_views(old(self).chunks@);
                    assert(old(self).chunks@[i as int].name@ == nv);
                    assert(def_views(self.chunks@[i as int].defs@) =~= def_views(old(self).chunks@[i as int].defs@).push(dv));
                    assert(entry_views(self.chunks@) =~= old_e.update(i as int, (nv, old_e[i as int].1.push(dv))));
                    lemma_find_stable_names(old_e, entry_views(self.chunks@), nv, 0);
                }
                k
            },
            None => {
                let mut defs: Vec<ChunkDef> = Vec::new();
                defs.push(d);
                let e = ChunkEntry { name, defs };
                self.chunks.push(e);
                proof {
                    let old_e = entry_views(old(self).chunks@);
                    assert(def_views(e.defs@) =~= seq![dv]);
                    assert(entry_views(self.chunks@) =~= old_e.push((nv, seq![dv])));
                    lemma_find_push(old_e, nv, seq![dv]);
                }
                0
            },
        }
    }

    fn close_current(&mut self, cur: &Option<(String, usize)>, n: usize)
        ensures
            final(self)@ == close_def(old(self)@, cursor_view(*cur), n as int),
    {
        if let Some((nm, k)) = cur {
            if let Some(i) = self.find(nm) {
                proof { lemma_find_found(entry_views(self.chunks@), nm@, 0); }
                if *k < self.chunks[i].defs.len() {
                    self.chunks[i].defs[*k].def_end = Some(n);
                    proof {
                        let old_e = entry_views(old(self).chunks@);
                        let d = old_e[i as int].1[*k as int];
                        assert(def_views(self.chunks@[i as int].defs@) =~= old_e[i as int].1.update(*k as int, DefView { def_end: Some(n as int), ..d }));
                        assert(entry_views(self.chunks@) =~= old_e.update(i as int, (nm@, old_e[i as int].1.update(*k as int, DefView { def_end: Some(n as int), ..d }))));
                    }
                }
            }
        }
    }

    fn append_content(&mut self, nm: &String, k: usize, l: Vec<char>)
        ensures
            final(self)@ == append_line(old(self)@, nm@, k as int, l@),
    {
        if let Some(i) = self.find(nm) {
            proof { lemma_find_found(entry_views(self.chunks@), nm@, 0); }
            if k < self.chunks[i].defs.len() {
                let ghost lv = l@;
                self.chunks[i].defs[k].content.push(l);
                proof {
                    let old_e = entry_views(old(self).chunks@);
                    let d = old_e[i as int].1[k as int];
                    assert(views(self.chunks@[i as int].defs@[k as int].content@) =~= d.content.push(lv));
                    assert(def_views(self.chunks@[i as int].defs@) =~= old_e[i as int].1.update(k as int, DefView { content: d.content.push(lv), ..d }));
                    assert(entry_views(self.chunks@) =~= old_e.update(i as int, (nm@, old_e[i as int].1.update(k as int, DefView { content: d.content.push(lv), ..d }))));
                }
            }
        }
    }

    /// The name of the file with index `i` (empty when there is none).
    pub fn file_name(&self, i: usize) -> (r: String)
        ensures
            r@ == file_name_of(self@.file_names, i as int),
    {
        if i < self.file_names.len() {
            self.file_names[i].clone()
        } else {
            String::new()
        }
    }

    fn has_file_chunk(&self, name: &String) -> (b: bool)
        ensures
            b == self@.file_chunks.contains(name@),
    {
        let mut i: usize = 0;
        while i < self.file_chunks.len()
            invariant
                i <= self.file_chunks.len(),
                forall|j: int| 0 <= j < i ==> self@.file_chunks[j] != name@,
            decreases self.file_chunks.len() - i,
        {
            if self.file_chunks[i] == *name {
                assert(self@.file_chunks[i as int] == name@);
                return true;
            }
            i = i + 1;
        }
        false
    }

    /// Reads one line (number `n` of file `fi`) with the current definition `cur`.
    fn read_one(&mut self, cur: Option<(String, usize)>, l: &[char], n: usize, fi: usize) -> (c: Option<(String, usize)>)
        ensures
            (final(self)@, cursor_view(c)) == read_line(old(self)@, cursor_view(cur), l@, n as int, fi as int),
    {
        match self.syntax.parse_def_chars(l) {
            Some((w, s, q, rp, f)) => {
                let base = sub_chars(l, s, q);
                let prefix: [char; 6] = ['@', 'f', 'i', 'l', 'e', ' '];
                assert(prefix@ == file_prefix());
                let full = if f { concat_chars(&prefix, base.as_slice()) } else { base.clone() };
                assert(full@ == (if f { file_prefix() + base@ } else { base@ }));
                let ok = if f { path_safe_chars(base.as_slice()) } else { full.len() > 0 };
                if !ok {
                    return cur;
                }
                let is_file_name = full.len() >= 6 && match_at(full.as_slice(), 0, &prefix);
                assert(is_file_name == (full@.len() >= 6 && full@.take(6) == file_prefix())) by {
                    if full@.len() >= 6 {
                        assert(full@.subrange(0, 6) =~= full@.take(6));
                    }
                }
                let full_s = string_of(full.as_slice());
                if is_file_name && self.find(&full_s).is_some() && !rp {
                    let e = ChunkError::FileChunkRedefinition {
                        file_chunk: full_s,
                        file_name: self.file_name(fi),
                        location: ChunkLocation { file_idx: fi, line: n },
                    };
                    let ghost ev = e@;
                    self.parse_errors.push(e);
                    assert(error_views(self.parse_errors@) =~= error_views(old(self).parse_errors@).push(ev));
                    return cur;
                }
                if rp {
                    self.remove_entry(&full_s);
                }
                let d = ChunkDef::new(w, fi, n);
                let in_files = self.has_file_chunk(&full_s);
                let name2 = full_s.clone();
                let k = self.add_definition(name2, d);
                if is_file_name && !in_files {
                    let ghost before = string_views(self.file_chunks@);
                    let fc = full_s.clone();
                    self.file_chunks.push(fc);
                    assert(string_views(self.file_chunks@) =~= before.push(full@));
                }
                Some((full_s, k))
            },
            None => {
                if self.syntax.is_close_chars(l) {
                    self.close_current(&cur, n);
                    None
                } else {
                    match cur {
                        Some((nm, k)) => {
                            let mut lc = sub_chars(l, 0, l.len());
                            assert(lc@ =~= l@);
                            lc.push('\n');
                            self.append_content(&nm, k, lc);
                            Some((nm, k))
                        },
                        None => None,
                    }
                }
            },
        }
    }

    /// Reads the chunk definitions of `text`, the contents of the file with index `file_idx`.
    pub fn read(&mut self, text: &str, file_idx: usize)
        ensures
            final(self)@ == read_text(old(self)@, text@, file_idx as int),
    {
        let chars = chars_of(text);
        let ls = split_lines(chars.as_slice());
        let mut cur: Option<(String, usize)> = None;
        let mut i: usize = 0;
        while i < ls.len()
            invariant
                i <= ls.len(),
                views(ls@) == lines(text@),
                read_text(old(self)@, text@, file_idx as int) == read_lines(self@, cursor_view(cur), views(ls@), i as int, file_idx as int),
            decreases ls.len() - i,
        {
            assert(views(ls@)[i as int] == ls@[i as int]@);
            cur = self.read_one(cur, ls[i].as_slice(), i, file_idx);
            i = i + 1;
        }
    }

    /// Forgets all chunks, file chunks and file names.
    pub fn reset(&mut self)
        ensures
            final(self)@ == (StoreView { chunks: seq![], file_chunks: seq![], file_names: seq![], ..old(self)@ }),
    {
        self.chunks = Vec::new();
        self.file_chunks = Vec::new();
        self.file_names = Vec::new();
        assert(entry_views(self.chunks@) =~= seq![]);
        assert(string_views(self.file_chunks@) =~= seq![]);
        assert(string_views(self.file_names@) =~= seq![]);
    }
}


pub proof fn lemma_to_set_push<A>(s: Seq<A>, x: A)
    ensures
        s.push(x).to_set() == s.to_set().insert(x),
{
    assert forall|a: A| #[trigger] s.push(x).to_set().contains(a) <==> s.to_set().insert(x).contains(a) by {
        if s.push(x).contains(a) {
            let i = choose|i: int| 0 <= i < s.push(x).len() && s.push(x)[i] == a;
            if i < s.len() {
                assert(s[i] == a);
            }
        }
        if s.contains(a) {
            let i = choose|i: int| 0 <= i < s.len() && s[i] == a;
            assert(s.push(x)[i] == a);
        }
        if a == x {
            assert(s.push(x)[s.len() as int] == x);
        }
    }
    assert(s.push(x).to_set() =~= s.to_set().insert(x));
}

/// The accumulated part `acc` of an expansion followed by the rest.
pub open spec fn prefixed(acc: ExpandOk, rest: Result<ExpandOk, ChunkErrorView>) -> Result<ExpandOk, ChunkErrorView> {
    match rest {
        Ok(b) => Ok(ExpandOk { lines: acc.lines + b.lines, refs: acc.refs + b.refs, deps: acc.deps + b.deps }),
        Err(e) => Err(e),
    }
}

pub open spec fn ref_set(v: Seq<String>) -> Set<Seq<char>> {
    string_views(v).to_set()
}

pub open spec fn dep_triples(v: Seq<(String, String, String)>) -> Seq<(Seq<char>, Seq<char>, Seq<char>)> {
    v.map_values(|t: (String, String, String)| (t.0@, t.1@, t.2@))
}

pub open spec fn dep_set(v: Seq<(String, String, String)>) -> Set<(Seq<char>, Seq<char>, Seq<char>)> {
    dep_triples(v).to_set()
}

pub open spec fn cursor_view(c: Option<(String, usize)>) -> Cursor {
    match c {
        Some((n, k)) => Some((n@, k as int)),
        None => None,
    }
}

pub proof fn lemma_find_found(a: Seq<(Seq<char>, Seq<DefView>)>, n: Seq<char>, j: int)
    ensures
        find_from(a, n, j) matches Some(i) ==> j <= i < a.len() && a[i].0 == n,
        find_from(a, n, j) is None && 0 <= j ==> forall|k: int| j <= k < a.len() ==> a[k].0 != n,
    decreases a.len() - j,
{
    if 0 <= j < a.len() {
        lemma_find_found(a, n, j + 1);
    }
}

proof fn lemma_find_stable_names(a: Seq<(Seq<char>, Seq<DefView>)>, b: Seq<(Seq<char>, Seq<DefView>)>, n: Seq<char>, i: int)
    requires
        a.len() == b.len(),
        forall|j: int| 0 <= j < a.len() ==> (#[trigger] a[j]).0 == b[j].0,
        0 <= i,
    ensures
        find_from(a, n, i) == find_from(b, n, i),
    decreases a.len() - i,
{
    if i < a.len() {
        lemma_find_stable_names(a, b, n, i + 1);
    }
}

proof fn lemma_find_push(a: Seq<(Seq<char>, Seq<DefView>)>, n: Seq<char>, d: Seq<DefView>)
    requires
        find_chunk(a, n) is None,
    ensures
        find_chunk(a.push((n, d)), n) == Some(a.len() as int),
{
    lemma_find_push_from(a, n, d, 0);
}

proof fn lemma_find_push_from(a: Seq<(Seq<char>, Seq<DefView>)>, n: Seq<char>, d: Seq<DefView>, i: int)
    requires
        0 <= i <= a.len(),
        find_from(a, n, i) is None,
    ensures
        find_from(a.push((n, d)), n, i) == Some(a.len() as int),
    decreases a.len() - i,
{
    if i < a.len() {
        lemma_find_push_from(a, n, d, i + 1);
    }
}


// ── executable expansion ─────────────────────────────────────────────────

fn clone_strings(v: &Vec<String>) -> (r: Vec<String>)
    ensures
        string_views(r@) == string_views(v@),
{
    let mut r: Vec<String> = Vec::new();
    let mut i: usize = 0;
    while i < v.len()
        invariant
            i <= v.len(),
            r@.len() == i,
            forall|j: int| 0 <= j < i ==> (#[trigger] r@[j])@ == v@[j]@,
        decreases v.len() - i,
    {
        r.push(v[i].clone());
        i = i + 1;
    }
    assert(string_views(r@) =~= string_views(v@));
    r
}

fn strings_contain(v: &Vec<String>, s: &String) -> (b: bool)
    ensures
        b == string_views(v@).contains(s@),
{
    let mut i: usize = 0;
    while i < v.len()
        invariant
            i <= v.len(),
            forall|j: int| 0 <= j < i ==> string_views(v@)[j] != s@,
        decreases v.len() - i,
    {
        if v[i] == *s {
            assert(string_views(v@)[i as int] == s@);
            return true;
        }
        i = i + 1;
    }
    false
}

impl ChunkStore {
    /// Expands chunk `name` (see [`exp_chunk`]).
    fn expand_inner(
        &self,
        name: &String,
        indent: &Vec<char>,
        stack: &mut Vec<String>,
        refs: &mut Vec<String>,
        deps: &mut Vec<(String, String, String)>,
        loc: ChunkLocation,
        opts: RefOptions,
    ) -> (r: Result<Vec<(Vec<char>, NowebMapEntry)>, ChunkError>)
        ensures
            exp_chunk(self@, name@, indent@, string_views(old(stack)@), loc, opts) matches Ok(x) ==> {
                &&& r matches Ok(v) && out_views(v@) == x.lines
                &&& string_views(final(stack)@) == string_views(old(stack)@)
                &&& ref_set(final(refs)@) == ref_set(old(refs)@) + x.refs
                &&& dep_set(final(deps)@) == dep_set(old(deps)@) + x.deps
            },
            exp_chunk(self@, name@, indent@, string_views(old(stack)@), loc, opts) matches Err(e) ==> r matches Err(er) && er@ == e,
        decreases MAX_DEPTH + 1 - old(stack)@.len(), 2int,
    {
        let ghost s0 = string_views(stack@);
        if stack.len() > MAX_DEPTH {
            return Err(ChunkError::RecursionLimit { chunk: name.clone(), file_name: self.file_name(loc.file_idx), location: loc });
        }
        if strings_contain(stack, name) {
            let mut cycle = clone_strings(stack);
            cycle.push(name.clone());
            assert(string_views(cycle@) =~= s0.push(name@));
            return Err(ChunkError::RecursiveReference {
                chunk: name.clone(),
                cycle,
                file_name: self.file_name(loc.file_idx),
                location: loc,
            });
        }
        let ci = match self.find(name) {
            Some(i) => i,
            None => {
                if self.strict_undefined {
                    return Err(ChunkError::UndefinedChunk { chunk: name.clone(), file_name: self.file_name(loc.file_idx), location: loc });
                }
                assert(ref_set(refs@) + Set::empty() =~= ref_set(refs@));
                assert(dep_set(deps@) + Set::empty() =~= dep_set(deps@));
                let v: Vec<(Vec<char>, NowebMapEntry)> = Vec::new();
                assert(out_views(v@) =~= Seq::<OutLine>::empty());
                return Ok(v);
            },
        };
        let ghost r0 = ref_set(refs@);
        proof { lemma_to_set_push(string_views(refs@), name@); }
        refs.push(name.clone());
        assert(string_views(refs@) =~= string_views(old(refs)@).push(name@));
        stack.push(name.clone());
        assert(string_views(stack@) =~= s0.push(name@));
        assert(string_views(stack@).drop_last() =~= s0);
        let r = self.expand_defs(name, ci, indent, stack, refs, deps, opts);
        match r {
            Ok(v) => {
                stack.pop();
                assert(string_views(stack@) =~= s0);
                proof {
                    let x = exp_defs(self@, name@, ordered(entry_views(self.chunks@)[ci as int].1, opts.reversed), indent@, s0, opts)->Ok_0;
                    assert(ref_set(refs@) =~= r0 + x.refs.insert(name@));
                }
                Ok(v)
            },
            Err(e) => Err(e),
        }
    }

    /// Expands the definitions of the chunk at `ci`, whose name is on top of `stack`.
    fn expand_defs(
        &self,
        name: &String,
        ci: usize,
        indent: &Vec<char>,
        stack: &mut Vec<String>,
        refs: &mut Vec<String>,
        deps: &mut Vec<(String, String, String)>,
        opts: RefOptions,
    ) -> (r: Result<Vec<(Vec<char>, NowebMapEntry)>, ChunkError>)
        requires
            ci < self.chunks.len(),
            1 <= old(stack)@.len() <= MAX_DEPTH + 1,
            string_views(old(stack)@).last() == name@,
        ensures
            exp_defs(self@, name@, ordered(entry_views(self.chunks@)[ci as int].1, opts.reversed), indent@, string_views(old(stack)@).drop_last(), opts) matches Ok(x) ==> {
                &&& r matches Ok(v) && out_views(v@) == x.lines
                &&& string_views(final(stack)@) == string_views(old(stack)@)
                &&& ref_set(final(refs)@) == ref_set(old(refs)@) + x.refs
                &&& dep_set(final(deps)@) == dep_set(old(deps)@) + x.deps
            },
            exp_defs(self@, name@, ordered(entry_views(self.chunks@)[ci as int].1, opts.reversed), indent@, string_views(old(stack)@).drop_last(), opts) matches Err(e) ==> r matches Err(er) && er@ == e,
        decreases MAX_DEPTH + 2 - old(stack)@.len(), 1int,
    {
        let ghost s0 = string_views(stack@).drop_last();
        let ghost defs = entry_views(self.chunks@)[ci as int].1;
        let ghost ds = ordered(defs, opts.reversed);
        let ghost whole = exp_defs(self@, name@, ds, indent@, s0, opts);
        let n = self.chunks[ci].defs.len();
        assert(defs.len() == n);
        let mut result: Vec<(Vec<char>, NowebMapEntry)> = Vec::new();
        let ghost mut acc = empty_ok();
        let mut k: usize = 0;
        assert(ds.skip(0) =~= ds);
        assert(prefixed(acc, whole) == whole) by {
            if let Ok(b) = whole {
                assert(acc.lines + b.lines =~= b.lines);
                assert(acc.refs + b.refs =~= b.refs);
                assert(acc.deps + b.deps =~= b.deps);
            }
        }
        while k < n
            invariant
                k <= n == defs.len() == ds.len(),
                ci < self.chunks.len(),
                defs == entry_views(self.chunks@)[ci as int].1,
                ds == ordered(defs, opts.reversed),
                whole == exp_defs(self@, name@, ds, indent@, s0, opts),
                string_views(stack@) == string_views(old(stack)@),
                s0 == string_views(stack@).drop_last(),
                1 <= stack@.len() <= MAX_DEPTH + 1,
                string_views(stack@).last() == name@,
                out_views(result@) == acc.lines,
                ref_set(refs@) == ref_set(old(refs)@) + acc.refs,
                dep_set(deps@) == dep_set(old(deps)@) + acc.deps,
                whole == prefixed(acc, exp_defs(self@, name@, ds.skip(k as int), indent@, s0, opts)),
            decreases n - k,
        {
            let di = if opts.reversed { n - 1 - k } else { k };
            assert(ds[k as int] == defs[di as int]);
            assert(ds.skip(k as int)[0] == ds[k as int]);
            assert(ds.skip(k as int).drop_first() =~= ds.skip(k + 1));
            let ghost refs_before = ref_set(refs@);
            let ghost deps_before = dep_set(deps@);
            let r = self.expand_def_lines(name, ci, di, indent, stack, refs, deps);
            match r {
                Ok(v) => {
                    let ghost a = exp_lines(self@, name@, defs[di as int], 0, indent@, s0)->Ok_0;
                    let mut spaced = apply_ref_space_options(v, opts);
                    let ghost before = out_views(result@);
                    result.append(&mut spaced);
                    proof {
                        let sp = space_lines(a.lines, opts);
                        assert(out_views(result@) =~= before + sp);
                        let acc2 = ExpandOk { lines: acc.lines + sp, refs: acc.refs + a.refs, deps: acc.deps + a.deps };
                        assert(ref_set(refs@) =~= ref_set(old(refs)@) + acc2.refs);
                        assert(dep_set(deps@) =~= dep_set(old(deps)@) + acc2.deps);
                        let rest = exp_defs(self@, name@, ds.skip(k + 1), indent@, s0, opts);
                        if let Ok(b) = rest {
                            assert(acc.lines + (sp + b.lines) =~= acc2.lines + b.lines);
                            assert(acc.refs + (a.refs + b.refs) =~= acc2.refs + b.refs);
                            assert(acc.deps + (a.deps + b.deps) =~= acc2.deps + b.deps);
                        }
                        assert(whole == prefixed(acc2, rest));
                        acc = acc2;
                    }
                },
                Err(e) => {
                    return Err(e);
                },
            }
            k = k + 1;
        }
        proof {
            assert(ds.skip(n as int) =~= Seq::<DefView>::empty());
            assert(acc.lines + Seq::<OutLine>::empty() =~= acc.lines);
            assert(acc.refs + Set::empty() =~= acc.refs);
            assert(acc.deps + Set::empty() =~= acc.deps);
        }
        Ok(result)
    }

    /// Expands the lines of definition `di` of the chunk at `ci`, whose name is on top of `stack`.
    #[verifier::rlimit(100)]
    fn expand_def_lines(
        &self,
        name: &String,
        ci: usize,
        di: usize,
        indent: &Vec<char>,
        stack: &mut Vec<String>,
        refs: &mut Vec<String>,
        deps: &mut Vec<(String, String, String)>,
    ) -> (r: Result<Vec<(Vec<char>, NowebMapEntry)>, ChunkError>)
        requires
            ci < self.chunks.len(),
            di < self.chunks@[ci as int].defs.len(),
            1 <= old(stack)@.len() <= MAX_DEPTH + 1,
            string_views(old(stack)@).last() == name@,
        ensures
            exp_lines(self@, name@, entry_views(self.chunks@)[ci as int].1[di as int], 0, indent@, string_views(old(stack)@).drop_last()) matches Ok(x) ==> {
                &&& r matches Ok(v) && out_views(v@) == x.lines
                &&& string_views(final(stack)@) == string_views(old(stack)@)
                &&& ref_set(final(refs)@) == ref_set(old(refs)@) + x.refs
                &&& dep_set(final(deps)@) == dep_set(old(deps)@) + x.deps
            },
            exp_lines(self@, name@, entry_views(self.chunks@)[ci as int].1[di as int], 0, indent@, string_views(old(stack)@).drop_last()) matches Err(e) ==> r matches Err(er) && er@ == e,
        decreases MAX_DEPTH + 2 - old(stack)@.len(), 0int,
    {
        let ghost s0 = string_views(stack@).drop_last();
        let ghost d = entry_views(self.chunks@)[ci as int].1[di as int];
        let ghost whole = exp_lines(self@, name@, d, 0, indent@, s0);
        let def = &self.chunks[ci].defs[di];
        assert(def.view() == d);
        let n = def.content.len();
        let mut result: Vec<(Vec<char>, NowebMapEntry)> = Vec::new();
        let ghost mut acc = empty_ok();
        let mut i: usize = 0;
        assert(prefixed(acc, whole) == whole) by {
            if let Ok(b) = whole {
                assert(acc.lines + b.lines =~= b.lines);
                assert(acc.refs + b.refs =~= b.refs);
                assert(acc.deps + b.deps =~= b.deps);
            }
        }
        let src_file = self.file_name(def.file_idx);
        while i < n
            invariant
                i <= n == d.content.len(),
                def.view() == d,
                d == entry_views(self.chunks@)[ci as int].1[di as int],
                src_file@ == file_name_of(self@.file_names, d.file_idx),
                whole == exp_lines(self@, name@, d, 0, indent@, s0),
                string_views(stack@) == string_views(old(stack)@),
                s0 == string_views(stack@).drop_last(),
                1 <= stack@.len() <= MAX_DEPTH + 1,
                string_views(stack@).last() == name@,
                out_views(result@) == acc.lines,
                ref_set(refs@) == ref_set(old(refs)@) + acc.refs,
                dep_set(deps@) == dep_set(old(deps)@) + acc.deps,
                whole == prefixed(acc, exp_lines(self@, name@, d, i as int, indent@, s0)),
            decreases n - i,
        {
            let line = &def.content[i];
            assert(d.content[i as int] == line@);
            let ghost here = exp_lines(self@, name@, d, i as int, indent@, s0);
            let ghost next = exp_lines(self@, name@, d, i + 1, indent@, s0);
            match self.syntax.parse_reference_chars(line.as_slice()) {
                Some(m) => {
                    let raw = sub_chars(line.as_slice(), m.name_start, m.name_end);
                    let child_chars = trim_chars(raw.as_slice());
                    let child = string_of(child_chars.as_slice());
                    let modifier = sub_chars(line.as_slice(), m.open_end, m.name_start);
                    let copts = options_from(modifier.as_slice());
                    let rel = if m.indent_end > def.base_indent {
                        sub_chars(line.as_slice(), def.base_indent, m.indent_end)
                    } else {
                        Vec::new()
                    };
                    let new_indent = concat_chars(indent.as_slice(), rel.as_slice());
                    let new_loc = ChunkLocation { file_idx: def.file_idx, line: def.line.wrapping_add(i) };
                    let ghost dep = (name@, child@, src_file@);
                    let ghost deps_before = dep_set(deps@);
                    let ghost trip_before = dep_triples(deps@);
                    proof { lemma_to_set_push(trip_before, dep); }
                    let t = (name.clone(), child.clone(), src_file.clone());
                    assert((t.0@, t.1@, t.2@) == dep);
                    deps.push(t);
                    assert(dep_triples(deps@) =~= trip_before.push(dep));
                    assert(dep_set(deps@) == deps_before.insert(dep));
                    assert(new_loc == line_loc(d, i as int));
                    assert(rel@ =~= (if m.indent_end > d.base_indent { line@.subrange(d.base_indent, m.indent_end as int) } else { seq![] }));
                    let ghost refs_mid = ref_set(refs@);
                    let ghost deps_mid = dep_set(deps@);
                    let r = self.expand_inner(&child, &new_indent, stack, refs, deps, new_loc, copts);
                    match r {
                        Ok(v) => {
                            let ghost a = exp_chunk(self@, child@, new_indent@, s0.push(name@), new_loc, copts)->Ok_0;
                            assert(s0.push(name@) =~= string_views(stack@));
                            let mut spaced = apply_ref_space_options(v, copts);
                            let ghost before = out_views(result@);
                            result.append(&mut spaced);
                            proof {
                                let sp = space_lines(a.lines, copts);
                                assert(out_views(result@) =~= before + sp);
                                let acc2 = ExpandOk { lines: acc.lines + sp, refs: acc.refs + a.refs, deps: acc.deps + a.deps.insert(dep) };
                                assert(ref_set(refs@) =~= ref_set(old(refs)@) + acc2.refs);
                                assert(dep_set(deps@) =~= dep_set(old(deps)@) + acc2.deps);
                                if let Ok(b) = next {
                                    assert(acc.lines + (sp + b.lines) =~= acc2.lines + b.lines);
                                    assert(acc.refs + (a.refs + b.refs) =~= acc2.refs + b.refs);
                                    assert(acc.deps + (a.deps.insert(dep) + b.deps) =~= acc2.deps + b.deps);
                                }
                                assert(whole == prefixed(acc2, next));
                                acc = acc2;
                            }
                        },
                        Err(e) => {
                            proof {
                                assert(s0.push(name@) =~= string_views(old(stack)@));
                            }
                            return Err(e);
                        },
                    }
                },
                None => {
                    let body = if line.len() > def.base_indent {
                        sub_chars(line.as_slice(), def.base_indent, line.len())
                    } else {
                        sub_chars(line.as_slice(), 0, line.len())
                    };
                    let out = concat_chars(indent.as_slice(), body.as_slice());
                    let entry = NowebMapEntry {
                        src_file: src_file.clone(),
                        chunk_name: name.clone(),
                        src_line: def.line.wrapping_add(i).wrapping_add(1) as u32,
                        indent: string_of(indent.as_slice()),
                        confidence: Confidence::Exact,
                    };
                    let ghost before = out_views(result@);
                    let ghost item = (out@, entry@);
                    result.push((out, entry));
                    proof {
                        assert(body@ =~= (if line@.len() > d.base_indent { line@.skip(d.base_indent) } else { line@ }));
                        assert(out_views(result@) =~= before.push(item));
                        let acc2 = ExpandOk { lines: acc.lines.push(item), ..acc };
                        if let Ok(b) = next {
                            assert(acc.lines + (seq![item] + b.lines) =~= acc2.lines + b.lines);
                        }
                        assert(whole == prefixed(acc2, next));
                        acc = acc2;
                    }
                },
            }
            i = i + 1;
        }
        proof {
            assert(acc.lines + Seq::<OutLine>::empty() =~= acc.lines);
            assert(acc.refs + Set::empty() =~= acc.refs);
            assert(acc.deps + Set::empty() =~= acc.deps);
        }
        Ok(result)
    }
}


// ── the public expansion interface ───────────────────────────────────────

/// Expansion of `name` from the top (no reference around it).
#[verifier::opaque]
pub open spec fn expand_chunk(st: StoreView, name: Seq<char>, indent: Seq<char>) -> Result<ExpandOk, ChunkErrorView> {
    exp_chunk(st, name, indent, seq![], ChunkLocation { file_idx: 0, line: 0 }, RefOptions { reversed: false, compact: false, tight: false })
}

pub open spec fn line_texts(v: Seq<OutLine>) -> Seq<Seq<char>> {
    v.map_values(|o: OutLine| o.0)
}

pub open spec fn line_entries(v: Seq<OutLine>) -> Seq<EntryView> {
    v.map_values(|o: OutLine| o.1)
}

pub open spec fn entry_views_of(v: Seq<NowebMapEntry>) -> Seq<EntryView> {
    v.map_values(|e: NowebMapEntry| e@)
}

fn dedup_strings(v: Vec<String>) -> (r: Vec<String>)
    ensures
        ref_set(r@) == ref_set(v@),
        string_views(r@).no_duplicates(),
{
    let mut r: Vec<String> = Vec::new();
    let mut i: usize = 0;
    while i < v.len()
        invariant
            i <= v.len(),
            ref_set(r@) == string_views(v@).take(i as int).to_set(),
            string_views(r@).no_duplicates(),
        decreases v.len() - i,
    {
        let ghost before = string_views(r@);
        proof {
            lemma_to_set_push(string_views(v@).take(i as int), v@[i as int]@);
            assert(string_views(v@).take(i + 1) =~= string_views(v@).take(i as int).push(v@[i as int]@));
        }
        if !strings_contain(&r, &v[i]) {
            proof { lemma_to_set_push(before, v@[i as int]@); }
            r.push(v[i].clone());
            assert(string_views(r@) =~= before.push(v@[i as int]@));
        } else {
            assert(before.to_set().insert(v@[i as int]@) =~= before.to_set());
        }
        i = i + 1;
    }
    assert(string_views(v@).take(v.len() as int) =~= string_views(v@));
    r
}

impl ChunkStore {
    /// Expands `chunk_name` with every line prefixed by `indent`: the lines,
    /// their source-map entries, the chunks entered (each once) and the
    /// `(from, to, source file)` reference edges met.
    pub fn expand_with_map(&self, chunk_name: &str, indent: &str)
        -> (r: Result<(Vec<String>, Vec<NowebMapEntry>, Vec<String>, Vec<(String, String, String)>), ChunkError>)
        ensures
            expand_chunk(self@, chunk_name@, indent@) matches Ok(x) ==> r matches Ok((ls, es, refs, deps)) && {
                &&& string_views(ls@) == line_texts(x.lines)
                &&& entry_views_of(es@) == line_entries(x.lines)
                &&& ref_set(refs@) == x.refs
                &&& string_views(refs@).no_duplicates()
                &&& dep_set(deps@) == x.deps
                &&& forall|e: (Seq<char>, Seq<char>, Seq<char>)|
                    #[trigger] dep_set(deps@).contains(e) ==> ref_set(refs@).contains(e.0) && refers_to(self@, e.0, e.1, e.2)
            },
            expand_chunk(self@, chunk_name@, indent@) matches Err(e) ==> r matches Err(er) && er@ == e,
    {
        proof {
            law_dependency_edges_follow_references(self@, chunk_name@, indent@);
        }
        let name = chunk_name.to_string();
        let ind = chars_of(indent);
        let mut stack: Vec<String> = Vec::new();
        let mut refs: Vec<String> = Vec::new();
        let mut deps: Vec<(String, String, String)> = Vec::new();
        let loc = ChunkLocation { file_idx: 0, line: 0 };
        let opts = RefOptions { reversed: false, compact: false, tight: false };
        assert(string_views(stack@) =~= Seq::<Seq<char>>::empty());
        let r = self.expand_inner(&name, &ind, &mut stack, &mut refs, &mut deps, loc, opts);
        proof { reveal(expand_chunk); }
        match r {
            Ok(pairs) => {
                let ghost x = expand_chunk(self@, chunk_name@, indent@)->Ok_0;
                assert(ref_set(Seq::<String>::empty()) =~= Set::empty());
                assert(dep_set(Seq::<(String, String, String)>::empty()) =~= Set::empty());
                assert(ref_set(refs@) =~= x.refs);
                assert(dep_set(deps@) =~= x.deps);
                let mut lines: Vec<String> = Vec::new();
                let mut entries: Vec<NowebMapEntry> = Vec::new();
                let mut i: usize = 0;
                while i < pairs.len()
                    invariant
                        i <= pairs.len(),
                        out_views(pairs@) == x.lines,
                        lines@.len() == i,
                        entries@.len() == i,
                        forall|j: int| 0 <= j < i ==> (#[trigger] lines@[j])@ == x.lines[j].0,
                        forall|j: int| 0 <= j < i ==> (#[trigger] entries@[j])@ == x.lines[j].1,
                    decreases pairs.len() - i,
                {
                    assert(x.lines[i as int] == (pairs@[i as int].0@, pairs@[i as int].1@));
                    lines.push(string_of(pairs[i].0.as_slice()));
                    entries.push(pairs[i].1.duplicate());
                    i = i + 1;
                }
                assert(string_views(lines@) =~= line_texts(x.lines));
                assert(entry_views_of(entries@) =~= line_entries(x.lines));
                let refs = dedup_strings(refs);
                Ok((lines, entries, refs, deps))
            },
            Err(e) => Err(e),
        }
    }

    /// The expanded lines of `chunk_name`, every line prefixed by `indent`.
    pub fn expand(&self, chunk_name: &str, indent: &str) -> (r: Result<Vec<String>, ChunkError>)
        ensures
            expand_chunk(self@, chunk_name@, indent@) matches Ok(x) ==> r matches Ok(ls) && string_views(ls@) == line_texts(x.lines),
            expand_chunk(self@, chunk_name@, indent@) matches Err(e) ==> r matches Err(er) && er@ == e,
    {
        match self.expand_with_map(chunk_name, indent) {
            Ok((lines, _, _, _)) => Ok(lines),
            Err(e) => Err(e),
        }
    }

    /// The expanded content of `chunk_name`, without indentation.
    pub fn get_chunk_content(&self, chunk_name: &str) -> (r: Result<Vec<String>, ChunkError>)
        ensures
            expand_chunk(self@, chunk_name@, seq![]) matches Ok(x) ==> r matches Ok(ls) && string_views(ls@) == line_texts(x.lines),
            expand_chunk(self@, chunk_name@, seq![]) matches Err(e) ==> r matches Err(er) && er@ == e,
    {
        let e = "";
        proof {
            reveal_strlit("");
            assert(e@ =~= Seq::<char>::empty());
        }
        self.expand(chunk_name, e)
    }
}


// ── unused chunks ────────────────────────────────────────────────────────

/// The warning for a chunk that nothing references, at its first definition.
pub open spec fn unused_warning(st: StoreView, name: Seq<char>, d: DefView) -> Seq<char> {
    "Warning: "@ + file_name_of(st.file_names, d.file_idx) + " line "@ + dec((d.line + 1) as nat) + ": chunk '"@
        + name + "' is defined but never referenced"@
}

/// The warnings for the chunks among `chunks` that are neither file chunks
/// nor referenced, in store order.
pub open spec fn unused_warnings(st: StoreView, chunks: Seq<(Seq<char>, Seq<DefView>)>, refs: Seq<Seq<char>>) -> Seq<Seq<char>>
    decreases chunks.len(),
{
    if chunks.len() == 0 {
        seq![]
    } else {
        let rest = unused_warnings(st, chunks.drop_last(), refs);
        let (name, defs) = chunks.last();
        if !(name.len() >= 6 && name.take(6) == file_prefix()) && !refs.contains(name) && defs.len() > 0 {
            rest.push(unused_warning(st, name, defs[0]))
        } else {
            rest
        }
    }
}

fn slice_contains(v: &[String], s: &String) -> (b: bool)
    ensures
        b == string_views(v@).contains(s@),
{
    let mut i: usize = 0;
    while i < v.len()
        invariant
            i <= v.len(),
            forall|j: int| 0 <= j < i ==> string_views(v@)[j] != s@,
        decreases v.len() - i,
    {
        if v[i] == *s {
            assert(string_views(v@)[i as int] == s@);
            return true;
        }
        i = i + 1;
    }
    false
}

impl ChunkStore {
    /// Warnings, in ascending order, for each chunk that is not a file chunk
    /// and whose name is not among `referenced`, at its first definition.
    pub fn check_unused_chunks(&self, referenced: &[String]) -> (r: Vec<String>)
        ensures
            sorted(string_views(r@)),
            string_views(r@).to_multiset() == unused_warnings(self@, self@.chunks, string_views(referenced@)).to_multiset(),
    {
        let ghost st = self@;
        let ghost cv = st.chunks;
        let ghost refs = string_views(referenced@);
        let mut warns: Vec<Vec<char>> = Vec::new();
        let mut i: usize = 0;
        assert(cv.take(0) =~= Seq::<(Seq<char>, Seq<DefView>)>::empty());
        assert(char_views(warns@) =~= Seq::<Seq<char>>::empty());
        while i < self.chunks.len()
            invariant
                i <= self.chunks.len(),
                st == self@,
                cv == st.chunks,
                cv == entry_views(self.chunks@),
                refs == string_views(referenced@),
                char_views(warns@) == unused_warnings(st, cv.take(i as int), refs),
            decreases self.chunks.len() - i,
        {
            assert(cv.take(i + 1).drop_last() =~= cv.take(i as int));
            assert(cv.take(i + 1).last() == cv[i as int]);
            let entry = &self.chunks[i];
            assert(cv[i as int] == (entry.name@, def_views(entry.defs@)));
            let nc = chars_of(entry.name.as_str());
            let prefix = ['@', 'f', 'i', 'l', 'e', ' '];
            assert(prefix@ =~= file_prefix());
            let is_file = match_at(nc.as_slice(), 0, prefix.as_slice());
            assert(is_file == (nc@.len() >= 6 && nc@.take(6) == file_prefix())) by {
                assert(nc@.subrange(0, 6) =~= nc@.take(6));
            }
            if !is_file && !slice_contains(referenced, &entry.name) && entry.defs.len() > 0 {
                let d = &entry.defs[0];
                assert(def_views(entry.defs@)[0] == d.view());
                let mut m: Vec<char> = Vec::new();
                push_str(&mut m, "Warning: ");
                let f = self.file_name(d.file_idx);
                push_str(&mut m, f.as_str());
                push_str(&mut m, " line ");
                let dg = decimal(d.line as u128 + 1);
                push_all(&mut m, dg.as_slice());
                push_str(&mut m, ": chunk '");
                push_all(&mut m, nc.as_slice());
                push_str(&mut m, "' is defined but never referenced");
                let ghost before = char_views(warns@);
                assert(m@ == unused_warning(st, entry.name@, d.view()));
                warns.push(m);
                assert(char_views(warns@) =~= before.push(m@));
            }
            i = i + 1;
        }
        assert(cv.take(self.chunks.len() as int) =~= cv);
        let sorted_w = sort_strings(warns);
        let mut r: Vec<String> = Vec::new();
        let mut k: usize = 0;
        while k < sorted_w.len()
            invariant
                k <= sorted_w.len(),
                string_views(r@) == char_views(sorted_w@).take(k as int),
            decreases sorted_w.len() - k,
        {
            let ghost before = string_views(r@);
            r.push(string_of(sorted_w[k].as_slice()));
            assert(string_views(r@) =~= before.push(sorted_w@[k as int]@));
            assert(char_views(sorted_w@).take(k + 1) =~= char_views(sorted_w@).take(k as int).push(sorted_w@[k as int]@));
            k = k + 1;
        }
        assert(char_views(sorted_w@).take(sorted_w.len() as int) =~= char_views(sorted_w@));
        r
    }
}


// ── laws of reading and expansion ────────────────────────────────────────

/// No two entries of the store share a name.
pub open spec fn names_distinct(chunks: Seq<(Seq<char>, Seq<DefView>)>) -> bool {
    forall|i: int, j: int| 0 <= i < j < chunks.len() ==> (#[trigger] chunks[i]).0 != (#[trigger] chunks[j]).0
}

proof fn lemma_find_is_unique(a: Seq<(Seq<char>, Seq<DefView>)>, n: Seq<char>, k: int)
    requires
        names_distinct(a),
        0 <= k < a.len(),
        a[k].0 == n,
    ensures
        find_chunk(a, n) == Some(k),
{
    lemma_find_found(a, n, 0);
    match find_chunk(a, n) {
        Some(i) => {
            if i != k {
                if i < k {
                    assert(a[i].0 != a[k].0);
                } else {
                    assert(a[k].0 != a[i].0);
                }
            }
        },
        None => {
            assert(a[k].0 != n);
        },
    }
}

proof fn lemma_add_def_distinct(c: Seq<(Seq<char>, Seq<DefView>)>, n: Seq<char>, d: DefView)
    requires
        names_distinct(c),
    ensures
        names_distinct(add_def(c, n, d)),
        find_chunk(c, n) is None ==> defs_of_chunks(add_def(c, n, d), n) == Some(seq![d]),
        find_chunk(c, n) matches Some(i) ==> defs_of_chunks(add_def(c, n, d), n) == Some(c[i].1.push(d)),
{
    lemma_find_found(c, n, 0);
    let r = add_def(c, n, d);
    match find_chunk(c, n) {
        Some(i) => {
            assert forall|a: int, b: int| 0 <= a < b < r.len() implies (#[trigger] r[a]).0 != (#[trigger] r[b]).0 by {
                assert(r[a].0 == c[a].0 && r[b].0 == c[b].0);
            }
            lemma_find_is_unique(r, n, i);
        },
        None => {
            assert forall|a: int, b: int| 0 <= a < b < r.len() implies (#[trigger] r[a]).0 != (#[trigger] r[b]).0 by {
                if b == c.len() {
                    assert(c[a].0 != n);
                } else {
                    assert(r[a] == c[a] && r[b] == c[b]);
                }
            }
            lemma_find_is_unique(r, n, c.len() as int);
        },
    }
}

proof fn lemma_remove_chunk_distinct(c: Seq<(Seq<char>, Seq<DefView>)>, n: Seq<char>)
    requires
        names_distinct(c),
    ensures
        names_distinct(remove_chunk(c, n)),
        find_chunk(remove_chunk(c, n), n) is None,
{
    lemma_find_found(c, n, 0);
    let r = remove_chunk(c, n);
    match find_chunk(c, n) {
        Some(i) => {
            assert forall|a: int, b: int| 0 <= a < b < r.len() implies (#[trigger] r[a]).0 != (#[trigger] r[b]).0 by {
                let a0 = if a < i { a } else { a + 1 };
                let b0 = if b < i { b } else { b + 1 };
                assert(r[a] == c[a0] && r[b] == c[b0]);
            }
            lemma_find_found(r, n, 0);
            if find_chunk(r, n) is Some {
                let k = find_chunk(r, n)->0;
                let k0 = if k < i { k } else { k + 1 };
                assert(r[k] == c[k0]);
                if k0 < i {
                    assert(c[k0].0 != c[i].0);
                } else {
                    assert(c[i].0 != c[k0].0);
                }
            }
        },
        None => {},
    }
}

/// The definitions of `name` among `chunks`.
pub open spec fn defs_of_chunks(chunks: Seq<(Seq<char>, Seq<DefView>)>, name: Seq<char>) -> Option<Seq<DefView>> {
    match find_chunk(chunks, name) {
        Some(i) => Some(chunks[i].1),
        None => None,
    }
}

/// The full name a definition line gives (with `@file ` for a file chunk).
pub open spec fn def_full_name(l: Seq<char>, syn: SyntaxView) -> Seq<char> {
    let (w, s, q, rp, f) = parse_def(l, syn)->0;
    if f { file_prefix() + l.subrange(s, q) } else { l.subrange(s, q) }
}

/// The name of a file chunk: it starts with `@file `.
pub open spec fn is_file_chunk_name(full: Seq<char>) -> bool {
    full.len() >= 6 && full.take(6) == file_prefix()
}

/// The empty definition a definition line opens.
pub open spec fn opened_def(l: Seq<char>, syn: SyntaxView, n: int, fi: int) -> DefView {
    let (w, s, q, rp, f) = parse_def(l, syn)->0;
    DefView { content: seq![], base_indent: w, file_idx: fi, line: n, def_end: None }
}

/// Law: reading a line keeps the names of the store's chunks distinct.
pub proof fn law_read_line_keeps_names_distinct(st: StoreView, cur: Cursor, l: Seq<char>, n: int, fi: int)
    requires
        names_distinct(st.chunks),
    ensures
        names_distinct(read_line(st, cur, l, n, fi).0.chunks),
{
    match parse_def(l, st.syntax) {
        Some((w, s, q, rp, f)) => {
            let full = def_full_name(l, st.syntax);
            let d = opened_def(l, st.syntax, n, fi);
            lemma_remove_chunk_distinct(st.chunks, full);
            let c1 = if rp { remove_chunk(st.chunks, full) } else { st.chunks };
            lemma_add_def_distinct(c1, full, d);
        },
        None => {
            if !is_close(l, st.syntax) {
                match cur {
                    Some((nm, k)) => {
                        lemma_find_found(st.chunks, nm, 0);
                        let r = append_line(st, nm, k, l.push('\n')).chunks;
                        assert(r.len() == st.chunks.len());
                        assert forall|a: int, b: int| 0 <= a < b < r.len() implies (#[trigger] r[a]).0 != (#[trigger] r[b]).0 by {
                            assert(r[a].0 == st.chunks[a].0 && r[b].0 == st.chunks[b].0);
                        }
                    },
                    None => {},
                }
            } else {
                if let Some((nm, k)) = cur {
                    lemma_find_found(st.chunks, nm, 0);
                }
                let r = close_def(st, cur, n).chunks;
                assert(r.len() == st.chunks.len());
                assert forall|a: int, b: int| 0 <= a < b < r.len() implies (#[trigger] r[a]).0 != (#[trigger] r[b]).0 by {
                    assert(r[a].0 == st.chunks[a].0 && r[b].0 == st.chunks[b].0);
                }
            }
        },
    }
}

/// Law: a definition line with `@replace` drops every earlier definition of
/// the chunk; the chunk then has just the definition the line opens.
pub proof fn law_replace_drops_earlier_definitions(st: StoreView, cur: Cursor, l: Seq<char>, n: int, fi: int)
    requires
        names_distinct(st.chunks),
        parse_def(l, st.syntax) matches Some((w, s, q, rp, f)) && rp && name_ok(l.subrange(s, q), def_full_name(l, st.syntax), f),
    ensures
        defs_of(read_line(st, cur, l, n, fi).0, def_full_name(l, st.syntax)) == Some(seq![opened_def(l, st.syntax, n, fi)]),
{
    let full = def_full_name(l, st.syntax);
    lemma_remove_chunk_distinct(st.chunks, full);
    lemma_add_def_distinct(remove_chunk(st.chunks, full), full, opened_def(l, st.syntax, n, fi));
}

/// Law: a plain definition line adds a definition after the earlier ones of
/// its chunk (the first one when there is none), unless it would define a
/// file chunk a second time.
pub proof fn law_definitions_accumulate(st: StoreView, cur: Cursor, l: Seq<char>, n: int, fi: int)
    requires
        names_distinct(st.chunks),
        parse_def(l, st.syntax) matches Some((w, s, q, rp, f)) && !rp && name_ok(l.subrange(s, q), def_full_name(l, st.syntax), f),
        !(is_file_chunk_name(def_full_name(l, st.syntax)) && find_chunk(st.chunks, def_full_name(l, st.syntax)) is Some),
    ensures
        defs_of(read_line(st, cur, l, n, fi).0, def_full_name(l, st.syntax)) == Some(
            match defs_of(st, def_full_name(l, st.syntax)) {
                Some(ds) => ds.push(opened_def(l, st.syntax, n, fi)),
                None => seq![opened_def(l, st.syntax, n, fi)],
            },
        ),
{
    let full = def_full_name(l, st.syntax);
    lemma_add_def_distinct(st.chunks, full, opened_def(l, st.syntax, n, fi));
}

/// Law: a second definition of a file chunk without `@replace` is refused:
/// the chunks stay as they were and the redefinition is recorded as an error.
pub proof fn law_file_chunk_redefinition(st: StoreView, cur: Cursor, l: Seq<char>, n: int, fi: int)
    requires
        parse_def(l, st.syntax) matches Some((w, s, q, rp, f)) && !rp && f && name_ok(l.subrange(s, q), def_full_name(l, st.syntax), f),
        find_chunk(st.chunks, def_full_name(l, st.syntax)) is Some,
    ensures
        read_line(st, cur, l, n, fi).0.chunks == st.chunks,
        read_line(st, cur, l, n, fi).0.errors == st.errors.push(ChunkErrorView::FileChunkRedefinition {
            file_chunk: def_full_name(l, st.syntax),
            file_name: file_name_of(st.file_names, fi),
            location: ChunkLocation { file_idx: fi as usize, line: n as usize },
        }),
        read_line(st, cur, l, n, fi).1 == cur,
{
    let full = def_full_name(l, st.syntax);
    let (w, s, q, rp, f) = parse_def(l, st.syntax)->0;
    assert(full =~= file_prefix() + l.subrange(s, q));
    assert(full.take(6) =~= file_prefix());
}

/// Law: a chunk that is not defined expands to nothing, or, in strict mode,
/// to an undefined-chunk error.
pub proof fn law_undefined_chunk(st: StoreView, name: Seq<char>, indent: Seq<char>)
    requires
        defs_of(st, name) is None,
    ensures
        expand_chunk(st, name, indent) == (if st.strict {
            Err(ChunkErrorView::UndefinedChunk {
                chunk: name,
                file_name: file_name_of(st.file_names, 0),
                location: ChunkLocation { file_idx: 0, line: 0 },
            })
        } else {
            Ok(empty_ok())
        }),
{
    reveal(expand_chunk);
    assert(!Seq::<Seq<char>>::empty().contains(name));
}

proof fn lemma_self_reference_lines(st: StoreView, name: Seq<char>, d: DefView, j: int, i: int, indent: Seq<char>)
    requires
        0 <= j <= i < d.content.len(),
        forall|k: int| j <= k < i ==> parse_ref(#[trigger] d.content[k], st.syntax) is None,
        parse_ref(d.content[i], st.syntax) matches Some((w, p, s, q)) && trim(d.content[i].subrange(s, q)) == name,
    ensures
        exp_lines(st, name, d, j, indent, seq![]) matches Err(e) && e == (ChunkErrorView::RecursiveReference {
            chunk: name,
            cycle: seq![name, name],
            file_name: file_name_of(st.file_names, line_loc(d, i).file_idx as int),
            location: line_loc(d, i),
        }),
    decreases i - j,
{
    assert(seq![name].contains(name)) by {
        assert(seq![name][0] == name);
    }
    assert(Seq::<Seq<char>>::empty().push(name) =~= seq![name]);
    assert(seq![name].push(name) =~= seq![name, name]);
    if j < i {
        lemma_self_reference_lines(st, name, d, j + 1, i, indent);
    } else {
        let line = d.content[i];
        let (w, p, s, q) = parse_ref(line, st.syntax)->0;
        let copts = options_of(line.subrange(p, s));
        let rel = if w > d.base_indent { line.subrange(d.base_indent, w) } else { seq![] };
        let stack1 = Seq::<Seq<char>>::empty().push(name);
        assert(stack1.contains(name)) by {
            assert(stack1[0] == name);
        }
        assert(exp_chunk(st, name, indent + rel, stack1, line_loc(d, i), copts) == Err::<ExpandOk, ChunkErrorView>(
            ChunkErrorView::RecursiveReference {
                chunk: name,
                cycle: seq![name, name],
                file_name: file_name_of(st.file_names, line_loc(d, i).file_idx as int),
                location: line_loc(d, i),
            },
        ));
    }
}

/// Law: a chunk whose definition refers to the chunk itself fails to
/// expand with a recursive-reference error whose cycle is the chunk twice.
pub proof fn law_self_reference(st: StoreView, name: Seq<char>, d: DefView, i: int)
    requires
        defs_of(st, name) == Some(seq![d]),
        0 <= i < d.content.len(),
        forall|k: int| 0 <= k < i ==> parse_ref(#[trigger] d.content[k], st.syntax) is None,
        parse_ref(d.content[i], st.syntax) matches Some((w, p, s, q)) && trim(d.content[i].subrange(s, q)) == name,
    ensures
        expand_chunk(st, name, seq![]) matches Err(e) && e == (ChunkErrorView::RecursiveReference {
            chunk: name,
            cycle: seq![name, name],
            file_name: file_name_of(st.file_names, line_loc(d, i).file_idx as int),
            location: line_loc(d, i),
        }),
{
    reveal(expand_chunk);
    assert(!Seq::<Seq<char>>::empty().contains(name));
    lemma_self_reference_lines(st, name, d, 0, i, seq![]);
    assert(ordered(seq![d], false) == seq![d]);
    assert(seq![d][0] == d);
}

/// Law: with `@reversed`, a chunk's definitions are expanded last first;
/// without it, in the order they were read.
pub proof fn law_definition_order(st: StoreView, name: Seq<char>, indent: Seq<char>, stack: Seq<Seq<char>>, loc: ChunkLocation, opts: RefOptions)
    requires
        stack.len() <= MAX_DEPTH,
        !stack.contains(name),
        defs_of(st, name) is Some,
    ensures
        exp_chunk(st, name, indent, stack, loc, opts) == (match exp_defs(
            st,
            name,
            if opts.reversed { defs_of(st, name)->0.reverse() } else { defs_of(st, name)->0 },
            indent,
            stack,
            opts,
        ) {
            Ok(r) => Ok(ExpandOk { refs: r.refs.insert(name), ..r }),
            Err(e) => Err(e),
        }),
{
}


/// Law: every unused-chunk warning names a chunk that is neither a file
/// chunk nor referenced, at its first definition; so when every chunk is
/// referenced or a file chunk, there is no warning.
pub proof fn law_unused_warnings_name_unreferenced_chunks(st: StoreView, chunks: Seq<(Seq<char>, Seq<DefView>)>, refs: Seq<Seq<char>>)
    ensures
        forall|k: int|
            0 <= k < unused_warnings(st, chunks, refs).len() ==> exists|i: int|
                0 <= i < chunks.len() && !is_file_chunk_name(chunks[i].0) && !refs.contains(chunks[i].0) && chunks[i].1.len() > 0
                    && #[trigger] unused_warnings(st, chunks, refs)[k] == unused_warning(st, chunks[i].0, chunks[i].1[0]),
        (forall|i: int| 0 <= i < chunks.len() ==> is_file_chunk_name(#[trigger] chunks[i].0) || refs.contains(chunks[i].0))
            ==> unused_warnings(st, chunks, refs).len() == 0,
    decreases chunks.len(),
{
    if chunks.len() > 0 {
        let c0 = chunks.drop_last();
        law_unused_warnings_name_unreferenced_chunks(st, c0, refs);
        let w = unused_warnings(st, chunks, refs);
        let w0 = unused_warnings(st, c0, refs);
        assert forall|k: int| 0 <= k < w.len() implies exists|i: int|
            0 <= i < chunks.len() && !is_file_chunk_name(chunks[i].0) && !refs.contains(chunks[i].0) && chunks[i].1.len() > 0
                && #[trigger] w[k] == unused_warning(st, chunks[i].0, chunks[i].1[0]) by {
            if k < w0.len() {
                assert(w[k] == w0[k]);
                let i = choose|i: int|
                    0 <= i < c0.len() && !is_file_chunk_name(c0[i].0) && !refs.contains(c0[i].0) && c0[i].1.len() > 0
                        && #[trigger] w0[k] == unused_warning(st, c0[i].0, c0[i].1[0]);
                assert(c0[i] == chunks[i]);
            } else {
                let i = chunks.len() - 1;
                assert(chunks.last() == chunks[i]);
            }
        }
        if forall|i: int| 0 <= i < chunks.len() ==> is_file_chunk_name(#[trigger] chunks[i].0) || refs.contains(chunks[i].0) {
            assert forall|i: int| 0 <= i < c0.len() implies is_file_chunk_name(#[trigger] c0[i].0) || refs.contains(c0[i].0) by {
                assert(c0[i] == chunks[i]);
            }
            assert(is_file_chunk_name(chunks[chunks.len() - 1].0) || refs.contains(chunks[chunks.len() - 1].0));
        }
    }
}


proof fn lemma_drop_leading_blank(s: Seq<OutLine>)
    ensures
        drop_leading_blank(s).len() > 0 ==> !blank_line(drop_leading_blank(s)[0]),
    decreases s.len(),
{
    if s.len() > 0 && blank_line(s[0]) {
        lemma_drop_leading_blank(s.drop_first());
    }
}

proof fn lemma_drop_trailing_blank(s: Seq<OutLine>)
    ensures
        drop_trailing_blank(s).len() <= s.len(),
        drop_trailing_blank(s) == s.take(drop_trailing_blank(s).len() as int),
        drop_trailing_blank(s).len() > 0 ==> !blank_line(drop_trailing_blank(s).last()),
    decreases s.len(),
{
    if s.len() > 0 && blank_line(s.last()) {
        lemma_drop_trailing_blank(s.drop_last());
        let r = drop_trailing_blank(s.drop_last());
        assert(s.drop_last().take(r.len() as int) =~= s.take(r.len() as int));
    } else {
        assert(s.take(s.len() as int) =~= s);
    }
}

/// Law: `@tight` leaves no blank line; `@compact` leaves none at either
/// end; without either option the lines are kept as they are.
pub proof fn law_reference_spacing(s: Seq<OutLine>, o: RefOptions)
    ensures
        o.tight ==> forall|i: int| 0 <= i < space_lines(s, o).len() ==> !blank_line(#[trigger] space_lines(s, o)[i]),
        (o.compact || o.tight) && space_lines(s, o).len() > 0 ==> !blank_line(space_lines(s, o)[0]) && !blank_line(
            space_lines(s, o).last(),
        ),
        !o.compact && !o.tight ==> space_lines(s, o) == s,
{
    let a = drop_leading_blank(s);
    lemma_drop_leading_blank(s);
    lemma_drop_trailing_blank(a);
    let t = trim_blank_edges(s);
    if t.len() > 0 {
        assert(t[0] == a[0]);
    }
    if o.tight {
        t.filter_lemma(|x: OutLine| !blank_line(x));
    }
}


proof fn lemma_read_lines_distinct(st: StoreView, cur: Cursor, ls: Seq<Seq<char>>, i: int, fi: int)
    requires
        names_distinct(st.chunks),
    ensures
        names_distinct(read_lines(st, cur, ls, i, fi).chunks),
    decreases ls.len() - i,
{
    if 0 <= i < ls.len() {
        law_read_line_keeps_names_distinct(st, cur, ls[i], i, fi);
        let (st2, cur2) = read_line(st, cur, ls[i], i, fi);
        lemma_read_lines_distinct(st2, cur2, ls, i + 1, fi);
    }
}

/// Law: reading a whole text keeps the names of the store's chunks
/// distinct; a new store has none, so no store ever holds a name twice.
pub proof fn law_read_keeps_names_distinct(st: StoreView, text: Seq<char>, fi: int)
    requires
        names_distinct(st.chunks),
    ensures
        names_distinct(read_text(st, text, fi).chunks),
        names_distinct(ChunkStore::new_spec(st.syntax.open, st.syntax.close, st.syntax.end, st.syntax.comments).chunks),
{
    lemma_read_lines_distinct(st, None, lines(text), 0, fi);
}


// ── indentation ──────────────────────────────────────────────────────────

/// A line that begins with the indentation recorded in its source-map entry,
/// which begins with `indent`.
pub open spec fn indented_under(o: OutLine, indent: Seq<char>) -> bool {
    o.1.indent.is_prefix_of(o.0) && indent.is_prefix_of(o.1.indent)
}

/// Every line of `s` is indented under `indent`.
pub open spec fn all_indented(s: Seq<OutLine>, indent: Seq<char>) -> bool {
    forall|j: int| 0 <= j < s.len() ==> indented_under(#[trigger] s[j], indent)
}

proof fn lemma_indented_concat(a: Seq<OutLine>, b: Seq<OutLine>, indent: Seq<char>)
    requires
        all_indented(a, indent),
        all_indented(b, indent),
    ensures
        all_indented(a + b, indent),
{
    assert forall|j: int| 0 <= j < (a + b).len() implies indented_under(#[trigger] (a + b)[j], indent) by {
        if j < a.len() {
            assert((a + b)[j] == a[j]);
        } else {
            assert((a + b)[j] == b[j - a.len()]);
        }
    }
}

proof fn lemma_drop_leading_indented(s: Seq<OutLine>, indent: Seq<char>)
    requires
        all_indented(s, indent),
    ensures
        all_indented(drop_leading_blank(s), indent),
    decreases s.len(),
{
    if s.len() > 0 && blank_line(s[0]) {
        let t = s.drop_first();
        assert forall|j: int| 0 <= j < t.len() implies indented_under(#[trigger] t[j], indent) by {
            assert(t[j] == s[j + 1]);
        }
        lemma_drop_leading_indented(t, indent);
    }
}

proof fn lemma_drop_trailing_indented(s: Seq<OutLine>, indent: Seq<char>)
    requires
        all_indented(s, indent),
    ensures
        all_indented(drop_trailing_blank(s), indent),
    decreases s.len(),
{
    if s.len() > 0 && blank_line(s.last()) {
        let t = s.drop_last();
        assert forall|j: int| 0 <= j < t.len() implies indented_under(#[trigger] t[j], indent) by {
            assert(t[j] == s[j]);
        }
        lemma_drop_trailing_indented(t, indent);
    }
}

proof fn lemma_drop_blank_indented(s: Seq<OutLine>, indent: Seq<char>)
    requires
        all_indented(s, indent),
    ensures
        all_indented(drop_blank(s), indent),
    decreases s.len(),
{
    reveal(Seq::filter);
    if s.len() > 0 {
        let t = s.drop_last();
        assert forall|j: int| 0 <= j < t.len() implies indented_under(#[trigger] t[j], indent) by {
            assert(t[j] == s[j]);
        }
        lemma_drop_blank_indented(t, indent);
        let f = drop_blank(t);
        if !blank_line(s.last()) {
            assert(drop_blank(s) == f.push(s.last()));
            assert forall|j: int| 0 <= j < f.push(s.last()).len() implies indented_under(#[trigger] f.push(s.last())[j], indent) by {
                if j < f.len() {
                    assert(f.push(s.last())[j] == f[j]);
                } else {
                    assert(s.last() == s[s.len() - 1]);
                }
            }
        } else {
            assert(drop_blank(s) == f);
        }
    }
}

proof fn lemma_space_indented(s: Seq<OutLine>, o: RefOptions, indent: Seq<char>)
    requires
        all_indented(s, indent),
    ensures
        all_indented(space_lines(s, o), indent),
{
    let s1 = if o.compact || o.tight { trim_blank_edges(s) } else { s };
    if o.compact || o.tight {
        lemma_drop_leading_indented(s, indent);
        lemma_drop_trailing_indented(drop_leading_blank(s), indent);
    }
    if o.tight {
        lemma_drop_blank_indented(s1, indent);
    }
}

proof fn lemma_indented_widen(s: Seq<OutLine>, indent: Seq<char>, rel: Seq<char>)
    requires
        all_indented(s, indent + rel),
    ensures
        all_indented(s, indent),
{
    assert forall|j: int| 0 <= j < s.len() implies indented_under(#[trigger] s[j], indent) by {
        let e = s[j].1.indent;
        let ir = indent + rel;
        assert(ir.is_prefix_of(e));
        assert(e.subrange(0, indent.len() as int) =~= e.subrange(0, ir.len() as int).subrange(0, indent.len() as int));
        assert(ir.subrange(0, indent.len() as int) =~= indent);
    }
}

proof fn lemma_chunk_indented(st: StoreView, name: Seq<char>, indent: Seq<char>, stack: Seq<Seq<char>>, loc: ChunkLocation, opts: RefOptions)
    ensures
        exp_chunk(st, name, indent, stack, loc, opts) matches Ok(x) ==> all_indented(x.lines, indent),
    decreases budget(stack), 2int, 0int,
{
    if stack.len() <= MAX_DEPTH && !stack.contains(name) {
        if let Some(defs) = defs_of(st, name) {
            lemma_defs_indented(st, name, ordered(defs, opts.reversed), indent, stack, opts);
        }
    }
}

proof fn lemma_defs_indented(st: StoreView, name: Seq<char>, ds: Seq<DefView>, indent: Seq<char>, stack: Seq<Seq<char>>, opts: RefOptions)
    ensures
        exp_defs(st, name, ds, indent, stack, opts) matches Ok(x) ==> all_indented(x.lines, indent),
    decreases budget(stack), 1int, ds.len(),
{
    if ds.len() > 0 {
        lemma_lines_indented(st, name, ds[0], 0, indent, stack);
        lemma_defs_indented(st, name, ds.drop_first(), indent, stack, opts);
        if let Ok(a) = exp_lines(st, name, ds[0], 0, indent, stack) {
            if let Ok(b) = exp_defs(st, name, ds.drop_first(), indent, stack, opts) {
                lemma_space_indented(a.lines, opts, indent);
                lemma_indented_concat(space_lines(a.lines, opts), b.lines, indent);
            }
        }
    }
}

proof fn lemma_lines_indented(st: StoreView, name: Seq<char>, d: DefView, i: int, indent: Seq<char>, stack: Seq<Seq<char>>)
    ensures
        exp_lines(st, name, d, i, indent, stack) matches Ok(x) ==> all_indented(x.lines, indent),
    decreases budget(stack), 0int, d.content.len() - i,
{
    if !(stack.len() > MAX_DEPTH || i < 0 || i >= d.content.len()) {
        let line = d.content[i];
        lemma_lines_indented(st, name, d, i + 1, indent, stack);
        match parse_ref(line, st.syntax) {
            Some((w, p, s, q)) => {
                let child = trim(line.subrange(s, q));
                let copts = options_of(line.subrange(p, s));
                let rel = if w > d.base_indent { line.subrange(d.base_indent, w) } else { seq![] };
                lemma_chunk_indented(st, child, indent + rel, stack.push(name), line_loc(d, i), copts);
                if let Ok(a) = exp_chunk(st, child, indent + rel, stack.push(name), line_loc(d, i), copts) {
                    if let Ok(b) = exp_lines(st, name, d, i + 1, indent, stack) {
                        lemma_space_indented(a.lines, copts, indent + rel);
                        lemma_indented_widen(space_lines(a.lines, copts), indent, rel);
                        lemma_indented_concat(space_lines(a.lines, copts), b.lines, indent);
                    }
                }
            },
            None => {
                if let Ok(b) = exp_lines(st, name, d, i + 1, indent, stack) {
                    let body = if line.len() > d.base_indent { line.skip(d.base_indent) } else { line };
                    let x = exp_lines(st, name, d, i, indent, stack)->Ok_0;
                    let o = x.lines[0];
                    assert(o.0 == indent + body);
                    assert(o.1.indent == indent);
                    assert((indent + body).subrange(0, indent.len() as int) =~= indent);
                    assert(indent.subrange(0, indent.len() as int) =~= indent);
                    assert(indented_under(o, indent));
                    assert(x.lines == seq![o] + b.lines);
                    lemma_indented_concat(seq![o], b.lines, indent);
                }
            },
        }
    }
}

/// Law: every line of an expansion begins with the indentation recorded in
/// its source-map entry, and that indentation begins with the indentation
/// the expansion was asked for; the indentation of a reference thus carries
/// over to every line of the chunk it names.
pub proof fn law_expansion_keeps_indentation(st: StoreView, name: Seq<char>, indent: Seq<char>)
    ensures
        expand_chunk(st, name, indent) matches Ok(x) ==> all_indented(x.lines, indent),
{
    reveal(expand_chunk);
    lemma_chunk_indented(
        st,
        name,
        indent,
        seq![],
        ChunkLocation { file_idx: 0, line: 0 },
        RefOptions { reversed: false, compact: false, tight: false },
    );
}


// ── expansion under an indentation ──────────────────────────────────────

/// `o` with `p` put before its text and before its recorded indentation.
pub open spec fn shift_line(o: OutLine, p: Seq<char>) -> OutLine {
    (p + o.0, EntryView { indent: p + o.1.indent, ..o.1 })
}

/// Every line of `s` shifted by `p`.
pub open spec fn shift_lines(s: Seq<OutLine>, p: Seq<char>) -> Seq<OutLine> {
    s.map_values(|o: OutLine| shift_line(o, p))
}

/// An expansion with every line shifted by `p`; an error stays as it is.
pub open spec fn shift_result(r: Result<ExpandOk, ChunkErrorView>, p: Seq<char>) -> Result<ExpandOk, ChunkErrorView> {
    match r {
        Ok(x) => Ok(ExpandOk { lines: shift_lines(x.lines, p), ..x }),
        Err(e) => Err(e),
    }
}

proof fn lemma_blank_shift(o: OutLine, p: Seq<char>)
    requires
        all_ws(p),
    ensures
        blank_line(shift_line(o, p)) == blank_line(o),
{
    let t = p + o.0;
    if blank_line(o) {
        assert forall|i: int| 0 <= i < t.len() implies is_ws(#[trigger] t[i]) by {
            if i < p.len() {
                assert(t[i] == p[i]);
            } else {
                assert(t[i] == o.0[i - p.len()]);
            }
        }
    }
    if blank_line(shift_line(o, p)) {
        assert forall|i: int| 0 <= i < o.0.len() implies is_ws(#[trigger] o.0[i]) by {
            assert(t[i + p.len()] == o.0[i]);
        }
    }
}

proof fn lemma_shift_concat(a: Seq<OutLine>, b: Seq<OutLine>, p: Seq<char>)
    ensures
        shift_lines(a + b, p) == shift_lines(a, p) + shift_lines(b, p),
{
    assert(shift_lines(a + b, p) =~= shift_lines(a, p) + shift_lines(b, p));
}

proof fn lemma_drop_leading_shift(s: Seq<OutLine>, p: Seq<char>)
    requires
        all_ws(p),
    ensures
        drop_leading_blank(shift_lines(s, p)) == shift_lines(drop_leading_blank(s), p),
    decreases s.len(),
{
    let t = shift_lines(s, p);
    if s.len() > 0 {
        lemma_blank_shift(s[0], p);
        assert(t[0] == shift_line(s[0], p));
        if blank_line(s[0]) {
            assert(t.drop_first() =~= shift_lines(s.drop_first(), p));
            lemma_drop_leading_shift(s.drop_first(), p);
        }
    }
}

proof fn lemma_drop_trailing_shift(s: Seq<OutLine>, p: Seq<char>)
    requires
        all_ws(p),
    ensures
        drop_trailing_blank(shift_lines(s, p)) == shift_lines(drop_trailing_blank(s), p),
    decreases s.len(),
{
    let t = shift_lines(s, p);
    if s.len() > 0 {
        lemma_blank_shift(s.last(), p);
        assert(t.last() == shift_line(s.last(), p));
        if blank_line(s.last()) {
            assert(t.drop_last() =~= shift_lines(s.drop_last(), p));
            lemma_drop_trailing_shift(s.drop_last(), p);
        }
    }
}

proof fn lemma_drop_blank_shift(s: Seq<OutLine>, p: Seq<char>)
    requires
        all_ws(p),
    ensures
        drop_blank(shift_lines(s, p)) == shift_lines(drop_blank(s), p),
    decreases s.len(),
{
    reveal(Seq::filter);
    if s.len() > 0 {
        let t = shift_lines(s, p);
        let u = s.drop_last();
        lemma_drop_blank_shift(u, p);
        assert(t.drop_last() =~= shift_lines(u, p));
        lemma_blank_shift(s.last(), p);
        assert(t.last() == shift_line(s.last(), p));
        if !blank_line(s.last()) {
            assert(drop_blank(s) == drop_blank(u).push(s.last()));
            assert(drop_blank(t) == drop_blank(t.drop_last()).push(t.last()));
            assert(shift_lines(drop_blank(u).push(s.last()), p) =~= shift_lines(drop_blank(u), p).push(
                shift_line(s.last(), p),
            ));
        } else {
            assert(drop_blank(s) == drop_blank(u));
            assert(drop_blank(t) == drop_blank(t.drop_last()));
        }
    }
}

proof fn lemma_space_shift(s: Seq<OutLine>, o: RefOptions, p: Seq<char>)
    requires
        all_ws(p),
    ensures
        space_lines(shift_lines(s, p), o) == shift_lines(space_lines(s, o), p),
{
    lemma_drop_leading_shift(s, p);
    lemma_drop_trailing_shift(drop_leading_blank(s), p);
    let s1 = if o.compact || o.tight { trim_blank_edges(s) } else { s };
    lemma_drop_blank_shift(s1, p);
}

proof fn lemma_chunk_shift(st: StoreView, name: Seq<char>, p: Seq<char>, q: Seq<char>, stack: Seq<Seq<char>>, loc: ChunkLocation, opts: RefOptions)
    requires
        all_ws(p),
    ensures
        exp_chunk(st, name, p + q, stack, loc, opts) == shift_result(exp_chunk(st, name, q, stack, loc, opts), p),
    decreases budget(stack), 2int, 0int,
{
    assert(shift_lines(empty_ok().lines, p) =~= empty_ok().lines);
    if stack.len() <= MAX_DEPTH && !stack.contains(name) {
        if let Some(defs) = defs_of(st, name) {
            lemma_defs_shift(st, name, ordered(defs, opts.reversed), p, q, stack, opts);
        }
    }
}

proof fn lemma_defs_shift(st: StoreView, name: Seq<char>, ds: Seq<DefView>, p: Seq<char>, q: Seq<char>, stack: Seq<Seq<char>>, opts: RefOptions)
    requires
        all_ws(p),
    ensures
        exp_defs(st, name, ds, p + q, stack, opts) == shift_result(exp_defs(st, name, ds, q, stack, opts), p),
    decreases budget(stack), 1int, ds.len(),
{
    assert(shift_lines(empty_ok().lines, p) =~= empty_ok().lines);
    if ds.len() > 0 {
        lemma_lines_shift(st, name, ds[0], 0, p, q, stack);
        lemma_defs_shift(st, name, ds.drop_first(), p, q, stack, opts);
        if let Ok(a) = exp_lines(st, name, ds[0], 0, q, stack) {
            if let Ok(b) = exp_defs(st, name, ds.drop_first(), q, stack, opts) {
                lemma_space_shift(a.lines, opts, p);
                lemma_shift_concat(space_lines(a.lines, opts), b.lines, p);
            }
        }
    }
}

proof fn lemma_lines_shift(st: StoreView, name: Seq<char>, d: DefView, i: int, p: Seq<char>, q: Seq<char>, stack: Seq<Seq<char>>)
    requires
        all_ws(p),
    ensures
        exp_lines(st, name, d, i, p + q, stack) == shift_result(exp_lines(st, name, d, i, q, stack), p),
    decreases budget(stack), 0int, d.content.len() - i,
{
    assert(shift_lines(empty_ok().lines, p) =~= empty_ok().lines);
    if !(stack.len() > MAX_DEPTH || i < 0 || i >= d.content.len()) {
        let line = d.content[i];
        lemma_lines_shift(st, name, d, i + 1, p, q, stack);
        match parse_ref(line, st.syntax) {
            Some((w, m, s, e)) => {
                let child = trim(line.subrange(s, e));
                let copts = options_of(line.subrange(m, s));
                let rel = if w > d.base_indent { line.subrange(d.base_indent, w) } else { seq![] };
                assert((p + q) + rel =~= p + (q + rel));
                lemma_chunk_shift(st, child, p, q + rel, stack.push(name), line_loc(d, i), copts);
                if let Ok(a) = exp_chunk(st, child, q + rel, stack.push(name), line_loc(d, i), copts) {
                    if let Ok(b) = exp_lines(st, name, d, i + 1, q, stack) {
                        lemma_space_shift(a.lines, copts, p);
                        lemma_shift_concat(space_lines(a.lines, copts), b.lines, p);
                    }
                }
            },
            None => {
                if let Ok(b) = exp_lines(st, name, d, i + 1, q, stack) {
                    let body = if line.len() > d.base_indent { line.skip(d.base_indent) } else { line };
                    let o = exp_lines(st, name, d, i, q, stack)->Ok_0.lines[0];
                    assert(exp_lines(st, name, d, i, q, stack)->Ok_0.lines == seq![o] + b.lines);
                    assert((p + q) + body =~= p + (q + body));
                    assert(shift_lines(seq![o], p) =~= seq![shift_line(o, p)]);
                    lemma_shift_concat(seq![o], b.lines, p);
                }
            },
        }
    }
}

/// Law: expanding a chunk under an indentation made of whitespace gives
/// the lines of its unindented expansion, each with that indentation put
/// before its text and before the indentation its source-map entry
/// records; the chunks entered, the references met and any error are the
/// same.
pub proof fn law_indented_expansion(st: StoreView, name: Seq<char>, indent: Seq<char>)
    requires
        all_ws(indent),
    ensures
        expand_chunk(st, name, indent) == shift_result(expand_chunk(st, name, seq![]), indent),
{
    reveal(expand_chunk);
    assert(indent + seq![] =~= indent);
    lemma_chunk_shift(
        st,
        name,
        indent,
        seq![],
        seq![],
        ChunkLocation { file_idx: 0, line: 0 },
        RefOptions { reversed: false, compact: false, tight: false },
    );
}


// ── the dependency graph ─────────────────────────────────────────────────

/// The chunk a content line refers to, when it is a reference line.
pub open spec fn referenced_by_line(line: Seq<char>, syn: SyntaxView) -> Option<Seq<char>> {
    match parse_ref(line, syn) {
        Some((w, p, s, q)) => Some(trim(line.subrange(s, q))),
        None => None,
    }
}

/// Chunk `a` refers to chunk `b` from source file `f`: a line of one of the
/// definitions of `a`, read from `f`, is a reference to `b`.
pub open spec fn refers_to(st: StoreView, a: Seq<char>, b: Seq<char>, f: Seq<char>) -> bool {
    exists|d: DefView, i: int|
        #![trigger defs_of(st, a)->0.contains(d), referenced_by_line(d.content[i], st.syntax)]
        defs_of(st, a) is Some && defs_of(st, a)->0.contains(d) && 0 <= i < d.content.len()
            && referenced_by_line(d.content[i], st.syntax) == Some(b) && file_name_of(st.file_names, d.file_idx) == f
}

/// Every edge of `deps` leaves `name` or a chunk of `refs`, and follows a
/// reference.
pub open spec fn edges_follow_references(st: StoreView, name: Seq<char>, x: ExpandOk) -> bool {
    forall|e: (Seq<char>, Seq<char>, Seq<char>)|
        #[trigger] x.deps.contains(e) ==> (e.0 == name || x.refs.contains(e.0)) && refers_to(st, e.0, e.1, e.2)
}

proof fn lemma_chunk_deps(st: StoreView, name: Seq<char>, indent: Seq<char>, stack: Seq<Seq<char>>, loc: ChunkLocation, opts: RefOptions)
    ensures
        exp_chunk(st, name, indent, stack, loc, opts) matches Ok(x) ==> forall|e: (Seq<char>, Seq<char>, Seq<char>)|
            #[trigger] x.deps.contains(e) ==> x.refs.contains(e.0) && refers_to(st, e.0, e.1, e.2),
    decreases budget(stack), 2int, 0int,
{
    if stack.len() <= MAX_DEPTH && !stack.contains(name) {
        if let Some(defs) = defs_of(st, name) {
            let ds = ordered(defs, opts.reversed);
            assert forall|j: int| 0 <= j < ds.len() implies defs.contains(#[trigger] ds[j]) by {
                if opts.reversed {
                    assert(ds[j] == defs[defs.len() - 1 - j]);
                } else {
                    assert(ds[j] == defs[j]);
                }
            }
            lemma_defs_deps(st, name, ds, indent, stack, opts);
            if let Ok(r) = exp_defs(st, name, ds, indent, stack, opts) {
                let x = exp_chunk(st, name, indent, stack, loc, opts)->Ok_0;
                assert(x.refs == r.refs.insert(name) && x.deps == r.deps);
                assert forall|e: (Seq<char>, Seq<char>, Seq<char>)| #[trigger] x.deps.contains(e) implies x.refs.contains(e.0)
                    && refers_to(st, e.0, e.1, e.2) by {
                    assert(r.deps.contains(e));
                }
            }
        }
    }
}

proof fn lemma_defs_deps(st: StoreView, name: Seq<char>, ds: Seq<DefView>, indent: Seq<char>, stack: Seq<Seq<char>>, opts: RefOptions)
    requires
        defs_of(st, name) is Some,
        forall|j: int| 0 <= j < ds.len() ==> defs_of(st, name)->0.contains(#[trigger] ds[j]),
    ensures
        exp_defs(st, name, ds, indent, stack, opts) matches Ok(x) ==> edges_follow_references(st, name, x),
    decreases budget(stack), 1int, ds.len(),
{
    if ds.len() > 0 {
        assert(defs_of(st, name)->0.contains(ds[0]));
        lemma_lines_deps(st, name, ds[0], 0, indent, stack);
        let t = ds.drop_first();
        assert forall|j: int| 0 <= j < t.len() implies defs_of(st, name)->0.contains(#[trigger] t[j]) by {
            assert(t[j] == ds[j + 1]);
        }
        lemma_defs_deps(st, name, t, indent, stack, opts);
    }
}

proof fn lemma_lines_deps(st: StoreView, name: Seq<char>, d: DefView, i: int, indent: Seq<char>, stack: Seq<Seq<char>>)
    requires
        defs_of(st, name) is Some,
        defs_of(st, name)->0.contains(d),
    ensures
        exp_lines(st, name, d, i, indent, stack) matches Ok(x) ==> edges_follow_references(st, name, x),
    decreases budget(stack), 0int, d.content.len() - i,
{
    if !(stack.len() > MAX_DEPTH || i < 0 || i >= d.content.len()) {
        let line = d.content[i];
        lemma_lines_deps(st, name, d, i + 1, indent, stack);
        match parse_ref(line, st.syntax) {
            Some((w, p, s, q)) => {
                let child = trim(line.subrange(s, q));
                let copts = options_of(line.subrange(p, s));
                let rel = if w > d.base_indent { line.subrange(d.base_indent, w) } else { seq![] };
                let src_file = file_name_of(st.file_names, d.file_idx);
                lemma_chunk_deps(st, child, indent + rel, stack.push(name), line_loc(d, i), copts);
                if let Ok(a) = exp_chunk(st, child, indent + rel, stack.push(name), line_loc(d, i), copts) {
                    if let Ok(b) = exp_lines(st, name, d, i + 1, indent, stack) {
                        let x = exp_lines(st, name, d, i, indent, stack)->Ok_0;
                        assert(referenced_by_line(d.content[i], st.syntax) == Some(child));
                        assert(refers_to(st, name, child, src_file));
                        assert forall|e: (Seq<char>, Seq<char>, Seq<char>)| #[trigger] x.deps.contains(e) implies (e.0 == name
                            || x.refs.contains(e.0)) && refers_to(st, e.0, e.1, e.2) by {
                            if b.deps.contains(e) {
                            } else if a.deps.contains(e) {
                                assert(a.refs.contains(e.0));
                            } else {
                                assert(e == (name, child, src_file));
                            }
                        }
                    }
                }
            },
            None => {},
        }
    }
}

/// Law: every dependency edge `(a, b, f)` an expansion records goes from the
/// referring chunk to the referred one: `a` is the expanded chunk or one it
/// entered, and a line of a definition of `a`, read from source file `f`,
/// is a reference to `b`.
pub proof fn law_dependency_edges_follow_references(st: StoreView, name: Seq<char>, indent: Seq<char>)
    ensures
        expand_chunk(st, name, indent) matches Ok(x) ==> forall|e: (Seq<char>, Seq<char>, Seq<char>)|
            #[trigger] x.deps.contains(e) ==> x.refs.contains(e.0) && refers_to(st, e.0, e.1, e.2),
{
    reveal(expand_chunk);
    lemma_chunk_deps(
        st,
        name,
        indent,
        seq![],
        ChunkLocation { file_idx: 0, line: 0 },
        RefOptions { reversed: false, compact: false, tight: false },
    );
}

// ── plain definitions ────────────────────────────────────────────────────

/// A content line without the indentation of its definition's opening line.
pub open spec fn plain_body(l: Seq<char>, base_indent: int) -> Seq<char> {
    if l.len() > base_indent {
        l.skip(base_indent)
    } else {
        l
    }
}

/// The lines a definition without references expands to under `indent`.
pub open spec fn plain_lines(d: DefView, i: int, indent: Seq<char>) -> Seq<Seq<char>> {
    d.content.subrange(i, d.content.len() as int).map_values(|l: Seq<char>| indent + plain_body(l, d.base_indent))
}

/// No line of `d` from `i` on is a reference.
pub open spec fn no_refs_from(d: DefView, i: int, syn: SyntaxView) -> bool {
    forall|k: int| i <= k < d.content.len() ==> parse_ref(#[trigger] d.content[k], syn) is None
}

proof fn lemma_plain_lines(st: StoreView, name: Seq<char>, d: DefView, i: int, indent: Seq<char>, stack: Seq<Seq<char>>)
    requires
        stack.len() <= MAX_DEPTH,
        0 <= i <= d.content.len(),
        no_refs_from(d, i, st.syntax),
    ensures
        exp_lines(st, name, d, i, indent, stack) matches Ok(x) && line_texts(x.lines) == plain_lines(d, i, indent),
    decreases d.content.len() - i,
{
    if i < d.content.len() {
        lemma_plain_lines(st, name, d, i + 1, indent, stack);
        let x = exp_lines(st, name, d, i, indent, stack)->Ok_0;
        let b = exp_lines(st, name, d, i + 1, indent, stack)->Ok_0;
        assert(parse_ref(d.content[i], st.syntax) is None);
        let o = x.lines[0];
        assert(x.lines == seq![o] + b.lines);
        assert(line_texts(x.lines) =~= seq![o.0] + line_texts(b.lines));
        assert(plain_lines(d, i, indent) =~= seq![indent + plain_body(d.content[i], d.base_indent)] + plain_lines(d, i + 1, indent));
    } else {
        assert(plain_lines(d, i, indent) =~= Seq::<Seq<char>>::empty());
        assert(line_texts(empty_ok().lines) =~= Seq::<Seq<char>>::empty());
    }
}

/// Law: a chunk with one definition and no references expands to that
/// definition's lines, each without the indentation of the opening line and
/// with the requested indentation in front: what was read is what is
/// written.
pub proof fn law_plain_chunk_expands_to_its_lines(st: StoreView, name: Seq<char>, d: DefView, indent: Seq<char>)
    requires
        defs_of(st, name) == Some(seq![d]),
        no_refs_from(d, 0, st.syntax),
    ensures
        expand_chunk(st, name, indent) matches Ok(x) && line_texts(x.lines) == plain_lines(d, 0, indent),
{
    reveal(expand_chunk);
    let opts = RefOptions { reversed: false, compact: false, tight: false };
    lemma_plain_lines(st, name, d, 0, indent, seq![]);
    assert(ordered(seq![d], false) == seq![d]);
    assert(seq![d][0] == d);
    assert(seq![d].drop_first() =~= Seq::<DefView>::empty());
    let a = exp_lines(st, name, d, 0, indent, seq![])->Ok_0;
    assert(space_lines(a.lines, opts) == a.lines);
    assert(a.lines + empty_ok().lines =~= a.lines);
}

// ── where definitions stand ──────────────────────────────────────────────

/// Where a chunk definition stands in its source: the file, the chunk,
/// which definition of the chunk it is (from 0), and the 1-based lines of
/// its opening line and of its chunk-end marker.
#[derive(Debug, Clone)]
pub struct ChunkDefEntry {
    pub src_file: String,
    pub chunk_name: String,
    pub nth: u32,
    pub def_start: u32,
    pub def_end: u32,
}

/// The abstract value of a [`ChunkDefEntry`].
pub struct DefEntryView {
    pub src_file: Seq<char>,
    pub chunk_name: Seq<char>,
    pub nth: u32,
    pub def_start: u32,
    pub def_end: u32,
}

impl View for ChunkDefEntry {
    type V = DefEntryView;

    open spec fn view(&self) -> DefEntryView {
        DefEntryView {
            src_file: self.src_file@,
            chunk_name: self.chunk_name@,
            nth: self.nth,
            def_start: self.def_start,
            def_end: self.def_end,
        }
    }
}

pub open spec fn def_entry_views(v: Seq<ChunkDefEntry>) -> Seq<DefEntryView> {
    v.map_values(|e: ChunkDefEntry| e@)
}

/// A 0-based line number as a 1-based one (wrapping like machine words).
pub open spec fn one_based(n: int) -> u32 {
    vstd::wrapping::usize_specs::wrapping_add(n as usize, 1) as u32
}

/// The places of the definitions `ds` of chunk `name` that were closed by a
/// chunk-end marker, in order.
pub open spec fn def_entries_of(fnames: Seq<Seq<char>>, name: Seq<char>, ds: Seq<DefView>) -> Seq<DefEntryView>
    decreases ds.len(),
{
    if ds.len() == 0 {
        seq![]
    } else {
        let rest = def_entries_of(fnames, name, ds.drop_last());
        let d = ds.last();
        match d.def_end {
            Some(e) => rest.push(DefEntryView {
                src_file: file_name_of(fnames, d.file_idx),
                chunk_name: name,
                nth: (ds.len() - 1) as u32,
                def_start: one_based(d.line),
                def_end: one_based(e),
            }),
            None => rest,
        }
    }
}

/// The places of the closed definitions of all the chunks, chunk by chunk.
pub open spec fn chunk_def_entries(fnames: Seq<Seq<char>>, chunks: Seq<(Seq<char>, Seq<DefView>)>) -> Seq<DefEntryView>
    decreases chunks.len(),
{
    if chunks.len() == 0 {
        seq![]
    } else {
        chunk_def_entries(fnames, chunks.drop_last()) + def_entries_of(fnames, chunks.last().0, chunks.last().1)
    }
}

impl ChunkStore {
    /// Where each definition that a chunk-end marker closed stands, chunk by
    /// chunk in the order the chunks were first defined.
    pub fn chunk_defs(&self) -> (r: Vec<ChunkDefEntry>)
        ensures
            def_entry_views(r@) == chunk_def_entries(self@.file_names, self@.chunks),
    {
        let ghost cs = self@.chunks;
        let ghost fns = self@.file_names;
        let mut out: Vec<ChunkDefEntry> = Vec::new();
        let mut i: usize = 0;
        assert(cs.take(0) =~= Seq::<(Seq<char>, Seq<DefView>)>::empty());
        while i < self.chunks.len()
            invariant
                i <= self.chunks.len(),
                cs == self@.chunks,
                fns == self@.file_names,
                def_entry_views(out@) == chunk_def_entries(fns, cs.take(i as int)),
            decreases self.chunks.len() - i,
        {
            let e = &self.chunks[i];
            let ghost name = e.name@;
            let ghost ds = def_views(e.defs@);
            assert(cs[i as int] == (name, ds));
            let ghost base = def_entry_views(out@);
            let mut k: usize = 0;
            assert(ds.take(0) =~= Seq::<DefView>::empty());
            while k < e.defs.len()
                invariant
                    k <= e.defs.len(),
                    fns == self@.file_names,
                    ds == def_views(e.defs@),
                    name == e.name@,
                    def_entry_views(out@) == base + def_entries_of(fns, name, ds.take(k as int)),
                decreases e.defs.len() - k,
            {
                let d = &e.defs[k];
                assert(ds.take(k + 1).drop_last() =~= ds.take(k as int));
                assert(ds.take(k + 1).last() == d.view());
                match d.def_end {
                    Some(end) => {
                        let ghost before = def_entry_views(out@);
                        let entry = ChunkDefEntry {
                            src_file: self.file_name(d.file_idx),
                            chunk_name: e.name.clone(),
                            nth: k as u32,
                            def_start: d.line.wrapping_add(1) as u32,
                            def_end: end.wrapping_add(1) as u32,
                        };
                        out.push(entry);
                        assert(def_entry_views(out@) =~= before.push(entry@));
                    },
                    None => {},
                }
                k = k + 1;
            }
            assert(ds.take(e.defs.len() as int) =~= ds);
            assert(cs.take(i + 1).drop_last() =~= cs.take(i as int));
            assert(cs.take(i + 1).last() == (name, ds));
            i = i + 1;
        }
        assert(cs.take(self.chunks.len() as int) =~= cs);
        out
    }
}

} // verus!
