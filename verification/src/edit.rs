//! Editing a chunk body inside its literate source, line by line.
//!
//! Line numbers follow the chunk-definition records of the database: a
//! definition's header sits on the 1-based line `def_start` (so the body
//! starts at the 0-based line `def_start`), and its closing marker sits on the
//! 1-based line `def_end`.  Lines are split as `str::lines` splits them and
//! joined again with `\n`.
use vstd::prelude::*;
use crate::text::{
    clean_line, lemma_join_of_lines, lemma_lines_from_clean, lemma_lines_of_join, lemma_lines_of_join_nl,
    chars_of, join_lines, join_range, lines, push_all, push_lines, push_str, split_lines,
    string_of, trim, trim_chars, trim_end_newlines, trim_end_nl, views,
};

verus! {

/// `s` ends with a line feed.
pub open spec fn ends_nl(s: Seq<char>) -> bool {
    s.len() > 0 && s.last() == '\n'
}

/// The line range `[def_start, def_end - 1)` lies inside the text.
pub open spec fn in_bounds(l: Seq<Seq<char>>, def_start: int, def_end: int) -> bool {
    def_start < l.len() && def_end <= l.len()
}

/// The lines of the source after the body lines `[def_start, def_end - 1)`
/// were replaced by the lines of `body` (its trailing line feeds dropped).
pub open spec fn edited_lines(src: Seq<char>, def_start: int, def_end: int, body: Seq<char>) -> Seq<Seq<char>> {
    let l = lines(src);
    l.take(def_start) + lines(trim_end_nl(body)) + l.skip(def_end - 1)
}

/// What [`apply_chunk_edit`] returns.
pub open spec fn apply_edit_spec(src: Seq<char>, def_start: int, def_end: int, body: Seq<char>) -> Seq<char> {
    if !in_bounds(lines(src), def_start, def_end) {
        src
    } else {
        join_lines(edited_lines(src, def_start, def_end, body)) + if ends_nl(src) {
            seq!['\n']
        } else {
            seq![]
        }
    }
}

/// Replaces the body of the chunk whose header is on line `def_start` and
/// whose closing marker is on line `def_end` (both 1-based) by `new_body`.
/// Out-of-range bounds leave the text unchanged; a final line feed of the
/// source is kept.
pub fn apply_chunk_edit(src_text: &str, def_start: usize, def_end: usize, new_body: &str) -> (r: String)
    requires
        in_bounds(lines(src_text@), def_start as int, def_end as int) ==> def_end >= 1,
    ensures
        r@ == apply_edit_spec(src_text@, def_start as int, def_end as int, new_body@),
{
    let src = chars_of(src_text);
    let ls = split_lines(src.as_slice());
    if def_start >= ls.len() || def_end > ls.len() {
        return src_text.to_string();
    }
    let body = chars_of(new_body);
    let trimmed = trim_end_newlines(body.as_slice());
    let bl = split_lines(trimmed.as_slice());
    let mut all: Vec<Vec<char>> = Vec::new();
    push_lines(&mut all, ls.as_slice(), 0, def_start);
    push_lines(&mut all, bl.as_slice(), 0, bl.len());
    push_lines(&mut all, ls.as_slice(), def_end - 1, ls.len());
    let n = all.len();
    let mut res = join_range(all.as_slice(), 0, n);
    proof {
        let l = lines(src_text@);
        assert(views(ls@).subrange(0, def_start as int) =~= l.take(def_start as int));
        assert(views(bl@).subrange(0, bl.len() as int) =~= views(bl@));
        assert(views(ls@).subrange(def_end - 1, ls.len() as int) =~= l.skip(def_end - 1));
        assert(views(all@).subrange(0, n as int) =~= views(all@));
        assert(views(all@) =~= edited_lines(src_text@, def_start as int, def_end as int, new_body@));
    }
    let m = src.len();
    if m > 0 && src[m - 1] == '\n' {
        res.push('\n');
    }
    string_of(res.as_slice())
}

/// The body lines `[def_start, def_end - 1)` of the chunk joined with `\n`,
/// or `"bounds_error"` when the range leaves the text.
pub fn extract_chunk_body(src_text: &str, def_start: usize, def_end: usize) -> (r: Result<String, String>)
    requires
        in_bounds(lines(src_text@), def_start as int, def_end as int) ==> def_start < def_end,
    ensures
        match r {
            Ok(b) => in_bounds(lines(src_text@), def_start as int, def_end as int) && b@ == join_lines(
                lines(src_text@).subrange(def_start as int, def_end - 1),
            ),
            Err(e) => !in_bounds(lines(src_text@), def_start as int, def_end as int) && e@
                == "bounds_error"@,
        },
{
    let src = chars_of(src_text);
    let ls = split_lines(src.as_slice());
    if def_start >= ls.len() || def_end > ls.len() {
        return Err("bounds_error".to_string());
    }
    let body = join_range(ls.as_slice(), def_start, def_end - 1);
    assert(views(ls@).subrange(def_start as int, def_end - 1) =~= lines(src_text@).subrange(
        def_start as int,
        def_end - 1,
    ));
    Ok(string_of(body.as_slice()))
}

/// The line after which a note is placed: after a listing fence `----` that
/// directly follows the closing marker, else after the closing marker.
pub open spec fn note_insert_point(l: Seq<Seq<char>>, def_end: int) -> int {
    if def_end < l.len() && trim(l[def_end]) == seq!['-', '-', '-', '-'] {
        def_end + 1
    } else {
        def_end
    }
}

/// The admonition block that holds a note.
pub open spec fn note_block(note: Seq<char>) -> Seq<char> {
    "\n[NOTE]\n====\n"@ + trim(note) + "\n====\n"@
}

/// What [`insert_note_into_source`] returns.
pub open spec fn insert_note_spec(src: Seq<char>, def_end: int, note: Seq<char>) -> Seq<char> {
    let l = lines(src);
    let k = note_insert_point(l, def_end);
    let before = join_lines(l.take(k));
    let after = join_lines(l.skip(k));
    let c = if after.len() == 0 {
        before + note_block(note)
    } else {
        before + note_block(note) + seq!['\n'] + after
    };
    if ends_nl(src) && !ends_nl(c) {
        c.push('\n')
    } else {
        c
    }
}

/// Inserts an AsciiDoc `[NOTE]` block after the chunk whose closing marker is
/// on the 1-based line `def_end` (after the listing fence that closes right
/// behind it, if there is one).
pub fn insert_note_into_source(src_text: &str, def_end: usize, note: &str) -> (r: String)
    requires
        def_end <= lines(src_text@).len(),
    ensures
        r@ == insert_note_spec(src_text@, def_end as int, note@),
{
    let src = chars_of(src_text);
    let ls = split_lines(src.as_slice());
    let ghost l = lines(src_text@);
    let n = ls.len();
    let mut k = def_end;
    if def_end < n {
        let t = trim_chars(ls[def_end].as_slice());
        assert(t@ == trim(l[def_end as int]));
        if t.len() == 4 && t[0] == '-' && t[1] == '-' && t[2] == '-' && t[3] == '-' {
            assert(t@ =~= seq!['-', '-', '-', '-']);
            k = def_end + 1;
        } else {
            assert(t@ != seq!['-', '-', '-', '-']) by {
                if t@ == seq!['-', '-', '-', '-'] {
                    assert(t@.len() == 4 && t@[0] == '-' && t@[1] == '-' && t@[2] == '-' && t@[3] == '-');
                }
            }
        }
    }
    assert(k == note_insert_point(l, def_end as int));
    let before = join_range(ls.as_slice(), 0, k);
    let after = join_range(ls.as_slice(), k, n);
    assert(views(ls@).subrange(0, k as int) =~= l.take(k as int));
    assert(views(ls@).subrange(k as int, n as int) =~= l.skip(k as int));
    let note_chars = chars_of(note);
    let note_trim = trim_chars(note_chars.as_slice());
    let mut c = before;
    push_str(&mut c, "\n[NOTE]\n====\n");
    push_all(&mut c, note_trim.as_slice());
    push_str(&mut c, "\n====\n");
    assert(c@ =~= join_lines(l.take(k as int)) + note_block(note@));
    if after.len() > 0 {
        c.push('\n');
        push_all(&mut c, after.as_slice());
    }
    let m = src.len();
    let cl = c.len();
    if m > 0 && src[m - 1] == '\n' && !(cl > 0 && c[cl - 1] == '\n') {
        c.push('\n');
    }
    string_of(c.as_slice())
}


// ── laws ─────────────────────────────────────────────────────────────────

proof fn lemma_trim_end_nl_prefix(b: Seq<char>)
    ensures
        trim_end_nl(b).len() <= b.len(),
        forall|i: int| 0 <= i < trim_end_nl(b).len() ==> trim_end_nl(b)[i] == b[i],
        !ends_nl(trim_end_nl(b)),
    decreases b.len(),
{
    if b.len() > 0 && b.last() == '\n' {
        lemma_trim_end_nl_prefix(b.drop_last());
        assert forall|i: int| 0 <= i < trim_end_nl(b).len() implies trim_end_nl(b)[i] == b[i] by {
            assert(b.drop_last()[i] == b[i]);
        }
    }
}

/// Law: after an edit, the chunk read back between its header line and its
/// new closing line is the body that was put in, without its final line
/// feeds (for texts without carriage returns).
pub proof fn law_extract_after_apply(src: Seq<char>, def_start: int, def_end: int, body: Seq<char>)
    requires
        0 <= def_start,
        1 <= def_end,
        in_bounds(lines(src), def_start, def_end),
        !src.contains('\r'),
        !body.contains('\r'),
    ensures
        ({
            let out = apply_edit_spec(src, def_start, def_end, body);
            let n = lines(trim_end_nl(body)).len() as int;
            &&& in_bounds(lines(out), def_start, def_start + n + 1)
            &&& join_lines(lines(out).subrange(def_start, def_start + n)) == trim_end_nl(body)
        }),
{
    let l = lines(src);
    lemma_lines_from_clean(src, seq![]);
    let t = trim_end_nl(body);
    lemma_trim_end_nl_prefix(body);
    assert(!t.contains('\r')) by {
        if t.contains('\r') {
            let k = choose|k: int| 0 <= k < t.len() && t[k] == '\r';
            assert(body[k] == '\r');
        }
    }
    let b = lines(t);
    lemma_lines_from_clean(t, seq![]);
    lemma_join_of_lines(t, seq![]);
    assert(Seq::<char>::empty() + t =~= t);
    let x = edited_lines(src, def_start, def_end, body);
    assert(x == l.take(def_start) + b + l.skip(def_end - 1));
    let n = b.len() as int;
    assert forall|k: int| 0 <= k < x.len() implies clean_line(#[trigger] x[k]) by {
        if k < def_start {
            assert(x[k] == l[k]);
        } else if k < def_start + n {
            assert(x[k] == b[k - def_start]);
        } else {
            assert(x[k] == l[k - def_start - n + def_end - 1]);
        }
    }
    assert(x.len() == l.len() - def_end + 1 + def_start + n);
    assert(x.last() == l.last());
    let out = apply_edit_spec(src, def_start, def_end, body);
    if ends_nl(src) {
        lemma_lines_of_join_nl(x);
    } else {
        assert(src.len() > 0);
        assert(l.last().len() > 0);
        lemma_lines_of_join(x);
        assert(join_lines(x) + Seq::<char>::empty() =~= join_lines(x));
    }
    assert(lines(out) == x);
    assert(x.subrange(def_start, def_start + n) =~= b);
}

} // verus!
