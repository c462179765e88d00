//! Locating things in texts and paths: the line and column of a byte
//! offset, and the path forms under which a file may have been recorded.
use vstd::prelude::*;
use crate::http::{split_chars, split_on};
use crate::text::{chars_of, push_all, string_of, sub_chars, views};

verus! {

// ── line and column ──────────────────────────────────────────────────────

/// The number of line feeds among the bytes `b`.
pub open spec fn nl_count(b: Seq<u8>) -> nat {
    b.filter(|x: u8| x == 10u8).len()
}

/// The number of bytes of `b` that start a UTF-8 character (that are not
/// continuation bytes).
pub open spec fn char_starts(b: Seq<u8>) -> nat {
    b.filter(|x: u8| !(128u8 <= x < 192u8)).len()
}

/// The index just after the last line feed of `b`, or 0.
pub open spec fn line_start_of(b: Seq<u8>) -> int
    decreases b.len(),
{
    if b.len() == 0 {
        0
    } else if b.last() == 10u8 {
        b.len() as int
    } else {
        line_start_of(b.drop_last())
    }
}

/// The offset `byte_offset` cut to the length of `b`.
pub open spec fn clamp(b: Seq<u8>, byte_offset: int) -> int {
    if byte_offset <= b.len() {
        byte_offset
    } else {
        b.len() as int
    }
}

/// `o` lies on a character boundary of the UTF-8 bytes `b`.
pub open spec fn on_boundary(b: Seq<u8>, o: int) -> bool {
    o == 0 || o >= b.len() || !(128u8 <= b[o] < 192u8)
}

/// What [`find_line_col`] returns for the bytes `b`.
pub open spec fn line_col_of(b: Seq<u8>, byte_offset: int) -> (u32, u32) {
    let p = b.take(clamp(b, byte_offset));
    ((nl_count(p) + 1) as u32, (char_starts(p.skip(line_start_of(p))) + 1) as u32)
}

/// The 1-based line and column of the byte `byte_offset` of `text` (cut to
/// the text's length); the column counts characters.
pub fn find_line_col(text: &str, byte_offset: usize) -> (r: (u32, u32))
    requires
        vstd::utf8::encode_utf8(text@).len() < 0xffff_ffff,
        on_boundary(
            vstd::utf8::encode_utf8(text@),
            clamp(vstd::utf8::encode_utf8(text@), byte_offset as int),
        ),
    ensures
        r == line_col_of(vstd::utf8::encode_utf8(text@), byte_offset as int),
{
    let b = text.as_bytes();
    let ghost bs = b@;
    let o = if byte_offset <= b.len() { byte_offset } else { b.len() };
    let mut lines: usize = 0;
    let mut start: usize = 0;
    let mut i: usize = 0;
    assert(bs.take(0) =~= Seq::<u8>::empty());
    while i < o
        invariant
            i <= o <= b.len() < 0xffff_ffff,
            bs == b@,
            lines == nl_count(bs.take(i as int)),
            lines <= i,
            start as int == line_start_of(bs.take(i as int)),
            start <= i,
        decreases o - i,
    {
        assert(bs.take(i + 1) =~= bs.take(i as int).push(bs[i as int]));
        assert(bs.take(i + 1).drop_last() =~= bs.take(i as int));
        proof {
            bs.take(i as int).lemma_filter_len_push(|x: u8| x == 10u8, bs[i as int]);
        }
        if b[i] == 10 {
            lines = lines + 1;
            start = i + 1;
        }
        i = i + 1;
    }
    let ghost p = bs.take(o as int);
    let mut cols: usize = 0;
    let mut k = start;
    assert(p.skip(start as int).take(0) =~= Seq::<u8>::empty());
    while k < o
        invariant
            start <= k <= o <= b.len() < 0xffff_ffff,
            bs == b@,
            p == bs.take(o as int),
            cols == char_starts(p.skip(start as int).take(k - start)),
            cols <= k,
        decreases o - k,
    {
        let ghost q = p.skip(start as int);
        assert(q.take(k + 1 - start) =~= q.take(k - start).push(bs[k as int]));
        proof {
            q.take(k - start).lemma_filter_len_push(|x: u8| !(128u8 <= x < 192u8), bs[k as int]);
        }
        if !(128 <= b[k] && b[k] < 192) {
            cols = cols + 1;
        }
        k = k + 1;
    }
    assert(p.skip(start as int).take(o - start) =~= p.skip(start as int));
    ((lines as u32) + 1, (cols as u32) + 1)
}

// ── path forms ───────────────────────────────────────────────────────────

/// The non-empty components of a path, split at `/` and at `\`.
pub open spec fn path_parts(p: Seq<char>) -> Seq<Seq<char>> {
    split_on(p.map_values(|c: char| if c == '\\' { '/' } else { c }), '/').filter(
        |s: Seq<char>| s.len() > 0,
    )
}

/// The `/`-joined components from the `k`-th on.
pub open spec fn slash_join(parts: Seq<Seq<char>>) -> Seq<char>
    decreases parts.len(),
{
    if parts.len() == 0 {
        seq![]
    } else if parts.len() == 1 {
        parts[0]
    } else {
        slash_join(parts.drop_last()) + seq!['/'] + parts.last()
    }
}

/// The suffixes of a path that drop one or more leading components and
/// still keep at least three, longest first.
pub open spec fn suffix_candidates(p: Seq<char>) -> Seq<Seq<char>> {
    let parts = path_parts(p);
    let n = if parts.len() >= 3 { parts.len() - 3 } else { 0 };
    Seq::new(n as nat, |k: int| slash_join(parts.skip(k + 1)))
}

fn join_slash(parts: &[Vec<char>], a: usize) -> (r: Vec<char>)
    requires
        a <= parts.len(),
    ensures
        r@ == slash_join(views(parts@).skip(a as int)),
{
    let mut r: Vec<char> = Vec::new();
    let mut i = a;
    assert(views(parts@).skip(a as int).take(0) =~= Seq::<Seq<char>>::empty());
    while i < parts.len()
        invariant
            a <= i <= parts.len(),
            r@ == slash_join(views(parts@).skip(a as int).take(i - a)),
        decreases parts.len() - i,
    {
        let ghost q = views(parts@).skip(a as int);
        assert(q.take(i + 1 - a).drop_last() =~= q.take(i - a));
        assert(q.take(i + 1 - a).last() == parts@[i as int]@);
        if i > a {
            r.push('/');
        } else {
            assert(q.take(1) =~= seq![parts@[i as int]@]);
        }
        push_all(&mut r, parts[i].as_slice());
        i = i + 1;
    }
    assert(views(parts@).skip(a as int).take(parts.len() - a) =~= views(parts@).skip(a as int));
    r
}

/// The shorter forms of `path` to match a recorded path by its end: each
/// suffix that drops leading components while three or more remain.
/// Shorter suffixes (`src/main.rs`) are left out as too ambiguous.
pub fn distinctive_suffix_candidates(path: &str) -> (r: Vec<String>)
    ensures
        r@.map_values(|s: String| s@) == suffix_candidates(path@),
{
    let p = chars_of(path);
    let mut q: Vec<char> = Vec::new();
    let mut i: usize = 0;
    while i < p.len()
        invariant
            i <= p.len(),
            p@ == path@,
            q@ == p@.take(i as int).map_values(|c: char| if c == '\\' { '/' } else { c }),
        decreases p.len() - i,
    {
        let c = p[i];
        q.push(if c == '\\' { '/' } else { c });
        assert(q@ =~= p@.take(i + 1).map_values(|c: char| if c == '\\' { '/' } else { c }));
        i = i + 1;
    }
    assert(p@.take(p.len() as int) =~= p@);
    let pieces = split_chars(q.as_slice(), '/');
    let ghost all = pieces@.map_values(|v: Vec<char>| v@);
    let mut parts: Vec<Vec<char>> = Vec::new();
    let mut j: usize = 0;
    assert(all.take(0) =~= Seq::<Seq<char>>::empty());
    assert(views(parts@) =~= Seq::<Seq<char>>::empty());
    while j < pieces.len()
        invariant
            j <= pieces.len(),
            all == pieces@.map_values(|v: Vec<char>| v@),
            views(parts@) == all.take(j as int).filter(|s: Seq<char>| s.len() > 0),
        decreases pieces.len() - j,
    {
        let ghost before = views(parts@);
        assert(all.take(j + 1) =~= all.take(j as int).push(all[j as int]));
        proof {
            all.take(j as int).lemma_filter_push(all[j as int], |s: Seq<char>| s.len() > 0);
        }
        if pieces[j].len() > 0 {
            let piece = pieces[j].clone();
            assert(piece@ =~= all[j as int]);
            parts.push(piece);
            assert(views(parts@) =~= before.push(all[j as int]));
        }
        j = j + 1;
    }
    assert(all.take(pieces.len() as int) =~= all);
    let ghost ps = path_parts(path@);
    assert(views(parts@) == ps);
    let n = parts.len();
    let count = if n >= 3 { n - 3 } else { 0 };
    let mut r: Vec<String> = Vec::new();
    let mut k: usize = 0;
    while k < count
        invariant
            k <= count,
            count == (if n >= 3 { n - 3 } else { 0 }),
            n == parts.len(),
            views(parts@) == ps,
            ps == path_parts(path@),
            r@.map_values(|s: String| s@) == suffix_candidates(path@).take(k as int),
        decreases count - k,
    {
        let joined = join_slash(parts.as_slice(), k + 1);
        let ghost before = r@.map_values(|s: String| s@);
        r.push(string_of(joined.as_slice()));
        assert(r@.map_values(|s: String| s@) =~= before.push(slash_join(ps.skip(k + 1))));
        assert(suffix_candidates(path@).take(k + 1) =~= suffix_candidates(path@).take(k as int).push(
            suffix_candidates(path@)[k as int],
        ));
        k = k + 1;
    }
    assert(suffix_candidates(path@).take(count as int) =~= suffix_candidates(path@));
    r
}

/// `s` starts with `pre`.
pub open spec fn starts(s: Seq<char>, pre: Seq<char>) -> bool {
    pre.len() <= s.len() && s.take(pre.len() as int) == pre
}

/// The forms of a source path under which its configuration is looked up,
/// in order: the path itself; without a leading `./`; with a leading `./`
/// (for a path that starts with neither `./` nor `/`); and for a path under
/// `crates/`, the rest of it, bare and after `./`.
pub open spec fn config_candidates(p: Seq<char>) -> Seq<Seq<char>> {
    let dot = seq!['.', '/'];
    let crates = seq!['c', 'r', 'a', 't', 'e', 's', '/'];
    let a = seq![p];
    let b = if starts(p, dot) { a.push(p.skip(2)) } else { a };
    let c = if !starts(p, dot) && !starts(p, seq!['/']) { b.push(dot + p) } else { b };
    if starts(p, crates) {
        c.push(p.skip(7)).push(dot + p.skip(7))
    } else {
        c
    }
}

fn starts_with_chars(s: &[char], pre: &[char]) -> (b: bool)
    ensures
        b == starts(s@, pre@),
{
    if pre.len() > s.len() {
        return false;
    }
    let mut i: usize = 0;
    while i < pre.len()
        invariant
            i <= pre.len() <= s.len(),
            forall|j: int| 0 <= j < i ==> s@[j] == pre@[j],
        decreases pre.len() - i,
    {
        if s[i] != pre[i] {
            assert(s@.take(pre.len() as int)[i as int] != pre@[i as int]);
            return false;
        }
        i = i + 1;
    }
    assert(s@.take(pre.len() as int) =~= pre@);
    true
}

/// The forms of `src_file` under which a source configuration is looked up
/// before falling back to the file's absolute location.
pub fn source_config_candidates(src_file: &str) -> (r: Vec<String>)
    ensures
        r@.map_values(|s: String| s@) == config_candidates(src_file@),
{
    let p = chars_of(src_file);
    let dot = ['.', '/'];
    let slash = ['/'];
    let crates = ['c', 'r', 'a', 't', 'e', 's', '/'];
    assert(dot@ =~= seq!['.', '/']);
    assert(slash@ =~= seq!['/']);
    assert(crates@ =~= seq!['c', 'r', 'a', 't', 'e', 's', '/']);
    let mut r: Vec<String> = Vec::new();
    r.push(src_file.to_string());
    let dotted = starts_with_chars(p.as_slice(), dot.as_slice());
    if dotted {
        let rest = sub_chars(p.as_slice(), 2, p.len());
        assert(rest@ =~= src_file@.skip(2));
        r.push(string_of(rest.as_slice()));
    }
    if !dotted && !starts_with_chars(p.as_slice(), slash.as_slice()) {
        let mut v: Vec<char> = vec!['.', '/'];
        push_all(&mut v, p.as_slice());
        assert(v@ =~= seq!['.', '/'] + src_file@);
        r.push(string_of(v.as_slice()));
    }
    if starts_with_chars(p.as_slice(), crates.as_slice()) {
        let rest = sub_chars(p.as_slice(), 7, p.len());
        assert(rest@ =~= src_file@.skip(7));
        r.push(string_of(rest.as_slice()));
        let mut v: Vec<char> = vec!['.', '/'];
        push_all(&mut v, rest.as_slice());
        assert(v@ =~= seq!['.', '/'] + src_file@.skip(7));
        r.push(string_of(v.as_slice()));
    }
    r
}

} // verus!
