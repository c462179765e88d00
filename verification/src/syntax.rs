//! The line grammar of chunk definitions, chunk references and chunk ends.
//!
//! A `NowebSyntax` is built from the open delimiter (`<<`), the close
//! delimiter (`>>`), the chunk-end marker (`@`) and the comment markers that
//! may precede a marker on its line.  The three recognisers below decide a
//! single line (without its line break).
//!
//! The grammar, with `C` one of the comment markers (tried in the order they
//! were given, then none), `OD`/`CD`/`CE` the delimiters:
//!
//! * definition: `ws* C? [ \t]* OD (@replace [ \t]+)? (@file [ \t]+)? name CD = [ \t]*`
//! * reference:  `ws* C? ws* OD ((@file|@reversed|@compact|@tight) ws+)* name CD ws*`
//! * chunk end:  `C? [ \t]* CE ws*`
//!
//! Runs of whitespace are taken whole; the optional keyword groups are taken
//! when the rest of the line still parses (else the keyword text becomes part
//! of the name); the name is the shortest non-empty text after which the
//! rest of the line parses.
use vstd::prelude::*;
use vstd::utf8::encode_utf8;
use vstd::string::StrSliceExecFns;
use crate::text::{is_blank, matches_at, ws_run, blank_run, ws_from, views, chars_of, match_at, skip_ws, skip_blank, char_is_ws, lemma_ws_run_bounds, lemma_blank_run_bounds};

verus! {

// ── memchr ───────────────────────────────────────────────────────────────

/// `memchr::memmem::find`: the index of the first occurrence of `needle` in
/// `haystack`, `None` when it does not occur.
#[verifier::external_body]
fn memmem_find(haystack: &[u8], needle: &[u8]) -> (r: Option<usize>)
    ensures
        r is None <==> forall|i: int| !matches_at(haystack@, i, needle@),
        r matches Some(i) ==> matches_at(haystack@, i as int, needle@) && forall|j: int|
            0 <= j < i ==> !matches_at(haystack@, j, needle@),
{
    memchr::memmem::find(haystack, needle)
}

pub proof fn lemma_encode_concat(a: Seq<char>, b: Seq<char>)
    ensures
        encode_utf8(a + b) == encode_utf8(a) + encode_utf8(b),
    decreases a.len(),
{
    if a.len() == 0 {
        assert(a + b =~= b);
        assert(encode_utf8(a) =~= Seq::<u8>::empty());
        assert(encode_utf8(a) + encode_utf8(b) =~= encode_utf8(b));
    } else {
        assert((a + b).drop_first() =~= a.drop_first() + b);
        assert((a + b)[0] == a[0]);
        lemma_encode_concat(a.drop_first(), b);
        assert(encode_utf8(a + b) =~= encode_utf8(a) + encode_utf8(b));
    }
}

/// A character occurrence gives a byte occurrence in the UTF-8 encodings.
pub proof fn lemma_occurrence_encodes(s: Seq<char>, i: int, pat: Seq<char>)
    requires
        matches_at(s, i, pat),
    ensures
        exists|j: int| matches_at(encode_utf8(s), j, encode_utf8(pat)),
{
    let a = s.take(i);
    let b = s.subrange(i, i + pat.len());
    let c = s.skip(i + pat.len());
    assert(s =~= a + b + c);
    lemma_encode_concat(a + b, c);
    lemma_encode_concat(a, b);
    let j = encode_utf8(a).len() as int;
    let e = encode_utf8(s);
    assert(e =~= encode_utf8(a) + encode_utf8(pat) + encode_utf8(c));
    assert(e.subrange(j, j + encode_utf8(pat).len()) =~= encode_utf8(pat));
    assert(matches_at(e, j, encode_utf8(pat)));
}

// ── the grammar, as spec functions ───────────────────────────────────────

pub open spec fn kw_replace() -> Seq<char> {
    seq!['@', 'r', 'e', 'p', 'l', 'a', 'c', 'e']
}

pub open spec fn kw_file() -> Seq<char> {
    seq!['@', 'f', 'i', 'l', 'e']
}

pub open spec fn kw_reversed() -> Seq<char> {
    seq!['@', 'r', 'e', 'v', 'e', 'r', 's', 'e', 'd']
}

pub open spec fn kw_compact() -> Seq<char> {
    seq!['@', 'c', 'o', 'm', 'p', 'a', 'c', 't']
}

pub open spec fn kw_tight() -> Seq<char> {
    seq!['@', 't', 'i', 'g', 'h', 't']
}

/// The abstract syntax: delimiters and comment markers as character sequences.
pub struct SyntaxView {
    pub open: Seq<char>,
    pub close: Seq<char>,
    pub end: Seq<char>,
    pub comments: Seq<Seq<char>>,
}

/// Every character of `s` from `i` on is a space or a tab.
pub open spec fn blank_from(s: Seq<char>, i: int) -> bool {
    forall|j: int| i <= j < s.len() ==> is_blank(#[trigger] s[j])
}

/// `CD = [ \t]*` ends the line from position `q` on.
pub open spec fn def_tail_ok(l: Seq<char>, q: int, close: Seq<char>) -> bool {
    &&& matches_at(l, q, close)
    &&& q + close.len() < l.len()
    &&& l[q + close.len()] == '='
    &&& blank_from(l, q + close.len() + 1)
}

/// The first position `>= q` at which a definition's tail starts.
pub open spec fn first_def_tail(l: Seq<char>, q: int, close: Seq<char>) -> Option<int>
    decreases l.len() + 1 - q,
{
    if q > l.len() || q < 0 {
        None
    } else if def_tail_ok(l, q, close) {
        Some(q)
    } else {
        first_def_tail(l, q + 1, close)
    }
}

/// A keyword followed by at least one space or tab: the position after it.
pub open spec fn blank_kw(l: Seq<char>, p: int, kw: Seq<char>) -> Option<int> {
    if matches_at(l, p, kw) && blank_run(l, p + kw.len()) > 0 {
        Some(p + kw.len() + blank_run(l, p + kw.len()))
    } else {
        None
    }
}

/// A definition's remainder after `OD` at `p`, taking `@replace` when
/// `take_r` and `@file` when `take_f`: `(name_start, name_end)`.
pub open spec fn def_with(l: Seq<char>, p: int, take_r: bool, take_f: bool, close: Seq<char>) -> Option<(int, int)> {
    let r = if take_r { blank_kw(l, p, kw_replace()) } else { Some(p) };
    match r {
        None => None,
        Some(r) => {
            let f = if take_f { blank_kw(l, r, kw_file()) } else { Some(r) };
            match f {
                None => None,
                Some(f) => match first_def_tail(l, f + 1, close) {
                    Some(q) => Some((f, q)),
                    None => None,
                },
            }
        },
    }
}

/// The parsed definition after `OD` at `p`: `(name_start, name_end, is_replace, is_file)`.
pub open spec fn def_after_open(l: Seq<char>, p: int, close: Seq<char>) -> Option<(int, int, bool, bool)> {
    if let Some((s, q)) = def_with(l, p, true, true, close) {
        Some((s, q, true, true))
    } else if let Some((s, q)) = def_with(l, p, true, false, close) {
        Some((s, q, true, false))
    } else if let Some((s, q)) = def_with(l, p, false, true, close) {
        Some((s, q, false, true))
    } else if let Some((s, q)) = def_with(l, p, false, false, close) {
        Some((s, q, false, false))
    } else {
        None
    }
}

/// A definition after the (possibly absent) comment marker ending at `c`.
pub open spec fn def_after_comment(l: Seq<char>, c: int, syn: SyntaxView) -> Option<(int, int, bool, bool)> {
    let b = c + blank_run(l, c);
    if matches_at(l, b, syn.open) {
        def_after_open(l, b + syn.open.len(), syn.close)
    } else {
        None
    }
}

/// Tries the comment markers from index `j` on at `w`, then no marker.
pub open spec fn def_from_marker(l: Seq<char>, w: int, syn: SyntaxView, j: int) -> Option<(int, int, bool, bool)>
    decreases syn.comments.len() - j,
{
    if j < 0 || j >= syn.comments.len() {
        def_after_comment(l, w, syn)
    } else if matches_at(l, w, syn.comments[j]) && def_after_comment(l, w + syn.comments[j].len(), syn) is Some {
        def_after_comment(l, w + syn.comments[j].len(), syn)
    } else {
        def_from_marker(l, w, syn, j + 1)
    }
}

/// The parse of a definition line: `(indent_chars, name_start, name_end, is_replace, is_file)`.
pub open spec fn parse_def(l: Seq<char>, syn: SyntaxView) -> Option<(int, int, int, bool, bool)> {
    let w = ws_run(l, 0);
    match def_from_marker(l, w, syn, 0) {
        Some((s, q, r, f)) => Some((w, s, q, r, f)),
        None => None,
    }
}

/// The chunk-end marker after the comment marker ending at `c`.
pub open spec fn close_after_comment(l: Seq<char>, c: int, end: Seq<char>) -> bool {
    let b = c + blank_run(l, c);
    matches_at(l, b, end) && ws_from(l, b + end.len())
}

pub open spec fn close_from_marker(l: Seq<char>, syn: SyntaxView, j: int) -> bool
    decreases syn.comments.len() - j,
{
    if j < 0 || j >= syn.comments.len() {
        close_after_comment(l, 0, syn.end)
    } else if matches_at(l, 0, syn.comments[j]) && close_after_comment(l, syn.comments[j].len() as int, syn.end) {
        true
    } else {
        close_from_marker(l, syn, j + 1)
    }
}

/// `l` is a chunk-end line.
pub open spec fn is_close(l: Seq<char>, syn: SyntaxView) -> bool {
    close_from_marker(l, syn, 0)
}

/// `CD ws*` ends the line from position `q` on.
pub open spec fn ref_tail_ok(l: Seq<char>, q: int, close: Seq<char>) -> bool {
    matches_at(l, q, close) && ws_from(l, q + close.len())
}

pub open spec fn first_ref_tail(l: Seq<char>, q: int, close: Seq<char>) -> Option<int>
    decreases l.len() + 1 - q,
{
    if q > l.len() || q < 0 {
        None
    } else if ref_tail_ok(l, q, close) {
        Some(q)
    } else {
        first_ref_tail(l, q + 1, close)
    }
}

/// A reference modifier keyword followed by whitespace: the position after it.
pub open spec fn ws_kw(l: Seq<char>, p: int, kw: Seq<char>) -> Option<int> {
    if matches_at(l, p, kw) && ws_run(l, p + kw.len()) > 0 {
        Some(p + kw.len() + ws_run(l, p + kw.len()))
    } else {
        None
    }
}

pub open spec fn mod_token(l: Seq<char>, p: int) -> Option<int> {
    if ws_kw(l, p, kw_file()) is Some {
        ws_kw(l, p, kw_file())
    } else if ws_kw(l, p, kw_reversed()) is Some {
        ws_kw(l, p, kw_reversed())
    } else if ws_kw(l, p, kw_compact()) is Some {
        ws_kw(l, p, kw_compact())
    } else {
        ws_kw(l, p, kw_tight())
    }
}

/// The position after `k` modifier tokens starting at `p`.
pub open spec fn mod_end(l: Seq<char>, p: int, k: nat) -> Option<int>
    decreases k,
{
    if k == 0 {
        Some(p)
    } else {
        match mod_token(l, p) {
            Some(p2) => mod_end(l, p2, (k - 1) as nat),
            None => None,
        }
    }
}

/// The largest number of modifier tokens at `p`.
pub open spec fn mod_count(l: Seq<char>, p: int) -> nat
    decreases l.len() - p,
{
    match mod_token(l, p) {
        Some(p2) => if p < p2 <= l.len() {
            1 + mod_count(l, p2)
        } else {
            0
        },
        None => 0,
    }
}

/// The remainder of a reference after `OD` at `p`, with at most `k`
/// modifier tokens: `(name_start, name_end)`.
pub open spec fn ref_after_open(l: Seq<char>, p: int, close: Seq<char>, k: int) -> Option<(int, int)>
    decreases k + 1,
{
    if k < 0 {
        None
    } else {
        match mod_end(l, p, k as nat) {
            Some(s) => match first_ref_tail(l, s + 1, close) {
                Some(q) => Some((s, q)),
                None => ref_after_open(l, p, close, k - 1),
            },
            None => ref_after_open(l, p, close, k - 1),
        }
    }
}

/// A reference after the comment marker ending at `c`: `(open_end, name_start, name_end)`.
pub open spec fn ref_after_comment(l: Seq<char>, c: int, syn: SyntaxView) -> Option<(int, int, int)> {
    let b = c + ws_run(l, c);
    let p = b + syn.open.len();
    if matches_at(l, b, syn.open) {
        match ref_after_open(l, p, syn.close, mod_count(l, p) as int) {
            Some((s, q)) => Some((p, s, q)),
            None => None,
        }
    } else {
        None
    }
}

pub open spec fn ref_from_marker(l: Seq<char>, w: int, syn: SyntaxView, j: int) -> Option<(int, int, int)>
    decreases syn.comments.len() - j,
{
    if j < 0 || j >= syn.comments.len() {
        ref_after_comment(l, w, syn)
    } else if matches_at(l, w, syn.comments[j]) && ref_after_comment(l, w + syn.comments[j].len(), syn) is Some {
        ref_after_comment(l, w + syn.comments[j].len(), syn)
    } else {
        ref_from_marker(l, w, syn, j + 1)
    }
}

/// The parse of a reference line: `(indent_end, open_end, name_start, name_end)`;
/// the modifiers are `l[open_end..name_start]`.
pub open spec fn parse_ref(l: Seq<char>, syn: SyntaxView) -> Option<(int, int, int, int)> {
    let w = ws_run(l, 0);
    match ref_from_marker(l, w, syn, 0) {
        Some((p, s, q)) => Some((w, p, s, q)),
        None => None,
    }
}


// ── executable recognisers ───────────────────────────────────────────────

/// Widens an optional pair of positions to integers.
pub open spec fn opt2(r: Option<(usize, usize)>) -> Option<(int, int)> {
    match r {
        Some((a, b)) => Some((a as int, b as int)),
        None => None,
    }
}

pub open spec fn opt4(r: Option<(usize, usize, bool, bool)>) -> Option<(int, int, bool, bool)> {
    match r {
        Some((a, b, c, d)) => Some((a as int, b as int, c, d)),
        None => None,
    }
}

pub open spec fn opt3(r: Option<(usize, usize, usize)>) -> Option<(int, int, int)> {
    match r {
        Some((a, b, c)) => Some((a as int, b as int, c as int)),
        None => None,
    }
}

fn is_blank_from(l: &[char], i: usize) -> (b: bool)
    requires
        i <= l.len(),
    ensures
        b == blank_from(l@, i as int),
{
    let mut j = i;
    while j < l.len()
        invariant
            i <= j <= l.len(),
            forall|k: int| i <= k < j ==> is_blank(#[trigger] l@[k]),
        decreases l.len() - j,
    {
        if !(l[j] == ' ' || l[j] == '\t') {
            return false;
        }
        j = j + 1;
    }
    true
}

fn is_ws_from(l: &[char], i: usize) -> (b: bool)
    requires
        i <= l.len(),
    ensures
        b == ws_from(l@, i as int),
{
    let mut j = i;
    while j < l.len()
        invariant
            i <= j <= l.len(),
            forall|k: int| i <= k < j ==> crate::text::is_ws(#[trigger] l@[k]),
        decreases l.len() - j,
    {
        if !char_is_ws(l[j]) {
            return false;
        }
        j = j + 1;
    }
    true
}

fn def_tail_at(l: &[char], q: usize, close: &[char]) -> (b: bool)
    ensures
        b == def_tail_ok(l@, q as int, close@),
{
    if !match_at(l, q, close) {
        return false;
    }
    let n = l.len();
    assert(q + close@.len() <= n);
    let e = q + close.len();
    if e < l.len() && l[e] == '=' {
        is_blank_from(l, e + 1)
    } else {
        false
    }
}

/// The first definition tail strictly after `f`.
fn find_def_tail(l: &[char], f: usize, close: &[char]) -> (r: Option<usize>)
    requires
        f <= l.len(),
    ensures
        opt_int(r) == first_def_tail(l@, f + 1, close@),
{
    let mut k = f;
    while k < l.len()
        invariant
            f <= k <= l.len(),
            first_def_tail(l@, f + 1, close@) == first_def_tail(l@, k + 1, close@),
        decreases l.len() - k,
    {
        k = k + 1;
        if def_tail_at(l, k, close) {
            return Some(k);
        }
    }
    None
}

/// Widens an optional position to an integer.
pub open spec fn opt_int(r: Option<usize>) -> Option<int> {
    match r {
        Some(a) => Some(a as int),
        None => None,
    }
}

fn blank_kw_at(l: &[char], p: usize, kw: &[char]) -> (r: Option<usize>)
    requires
        p <= l.len(),
    ensures
        opt_int(r) == blank_kw(l@, p as int, kw@),
        r matches Some(e) ==> e <= l.len(),
{
    if match_at(l, p, kw) {
        let e = skip_blank(l, p + kw.len());
        if e > p + kw.len() {
            return Some(e);
        }
    }
    None
}

fn def_with_exec(l: &[char], p: usize, take_r: bool, take_f: bool, close: &[char]) -> (r: Option<(usize, usize)>)
    requires
        p <= l.len(),
    ensures
        opt2(r) == def_with(l@, p as int, take_r, take_f, close@),
{
    let kr: [char; 8] = ['@', 'r', 'e', 'p', 'l', 'a', 'c', 'e'];
    let kf: [char; 5] = ['@', 'f', 'i', 'l', 'e'];
    assert(kr@ == kw_replace());
    assert(kf@ == kw_file());
    let r = if take_r {
        match blank_kw_at(l, p, &kr) {
            Some(e) => e,
            None => return None,
        }
    } else {
        p
    };
    let f = if take_f {
        match blank_kw_at(l, r, &kf) {
            Some(e) => e,
            None => return None,
        }
    } else {
        r
    };
    match find_def_tail(l, f, close) {
        Some(q) => Some((f, q)),
        None => None,
    }
}

fn def_after_open_exec(l: &[char], p: usize, close: &[char]) -> (r: Option<(usize, usize, bool, bool)>)
    requires
        p <= l.len(),
    ensures
        opt4(r) == def_after_open(l@, p as int, close@),
{
    if let Some((s, q)) = def_with_exec(l, p, true, true, close) {
        Some((s, q, true, true))
    } else if let Some((s, q)) = def_with_exec(l, p, true, false, close) {
        Some((s, q, true, false))
    } else if let Some((s, q)) = def_with_exec(l, p, false, true, close) {
        Some((s, q, false, true))
    } else if let Some((s, q)) = def_with_exec(l, p, false, false, close) {
        Some((s, q, false, false))
    } else {
        None
    }
}

fn close_at(l: &[char], c: usize, end: &[char]) -> (b: bool)
    requires
        c <= l.len(),
    ensures
        b == close_after_comment(l@, c as int, end@),
{
    let b = skip_blank(l, c);
    if match_at(l, b, end) {
        is_ws_from(l, b + end.len())
    } else {
        false
    }
}

fn ws_kw_at(l: &[char], p: usize, kw: &[char]) -> (r: Option<usize>)
    requires
        p <= l.len(),
    ensures
        opt_int(r) == ws_kw(l@, p as int, kw@),
        r matches Some(e) ==> p < e <= l.len(),
{
    if match_at(l, p, kw) {
        let e = skip_ws(l, p + kw.len());
        if e > p + kw.len() {
            return Some(e);
        }
    }
    None
}

fn mod_token_at(l: &[char], p: usize) -> (r: Option<usize>)
    requires
        p <= l.len(),
    ensures
        opt_int(r) == mod_token(l@, p as int),
        r matches Some(e) ==> p < e <= l.len(),
{
    let k1: [char; 5] = ['@', 'f', 'i', 'l', 'e'];
    let k2: [char; 9] = ['@', 'r', 'e', 'v', 'e', 'r', 's', 'e', 'd'];
    let k3: [char; 8] = ['@', 'c', 'o', 'm', 'p', 'a', 'c', 't'];
    let k4: [char; 6] = ['@', 't', 'i', 'g', 'h', 't'];
    assert(k1@ == kw_file());
    assert(k2@ == kw_reversed());
    assert(k3@ == kw_compact());
    assert(k4@ == kw_tight());
    if let Some(e) = ws_kw_at(l, p, &k1) {
        return Some(e);
    }
    if let Some(e) = ws_kw_at(l, p, &k2) {
        return Some(e);
    }
    if let Some(e) = ws_kw_at(l, p, &k3) {
        return Some(e);
    }
    ws_kw_at(l, p, &k4)
}

/// The first reference tail strictly after `f`.
fn find_ref_tail(l: &[char], f: usize, close: &[char]) -> (r: Option<usize>)
    requires
        f <= l.len(),
    ensures
        opt_int(r) == first_ref_tail(l@, f + 1, close@),
{
    let mut k = f;
    while k < l.len()
        invariant
            f <= k <= l.len(),
            first_ref_tail(l@, f + 1, close@) == first_ref_tail(l@, k + 1, close@),
        decreases l.len() - k,
    {
        k = k + 1;
        if match_at(l, k, close) {
            assert(k + close@.len() <= l@.len());
            if is_ws_from(l, k + close.len()) {
                return Some(k);
            }
        }
    }
    None
}

/// The positions after 0, 1, ... modifier tokens at `p`, up to the largest count.
fn mod_ends(l: &[char], p: usize) -> (ends: Vec<usize>)
    requires
        p <= l.len(),
    ensures
        ends.len() == mod_count(l@, p as int) + 1,
        forall|k: int| 0 <= k < ends.len() ==> mod_end(l@, p as int, k as nat) == Some(#[trigger] ends@[k] as int),
        forall|k: int| 0 <= k < ends.len() ==> ends@[k] <= l.len(),
{
    let mut ends: Vec<usize> = Vec::new();
    ends.push(p);
    let mut cur = p;
    loop
        invariant
            p <= cur <= l.len(),
            ends.len() >= 1,
            ends@[ends.len() - 1] == cur,
            mod_count(l@, p as int) == (ends.len() - 1) + mod_count(l@, cur as int),
            forall|k: int| 0 <= k < ends.len() ==> mod_end(l@, p as int, k as nat) == Some(#[trigger] ends@[k] as int),
            forall|k: int| 0 <= k < ends.len() ==> ends@[k] <= l.len(),
        ensures
            ends.len() == mod_count(l@, p as int) + 1,
            forall|k: int| 0 <= k < ends.len() ==> mod_end(l@, p as int, k as nat) == Some(#[trigger] ends@[k] as int),
            forall|k: int| 0 <= k < ends.len() ==> ends@[k] <= l.len(),
        decreases l.len() - cur,
    {
        match mod_token_at(l, cur) {
            Some(e) => {
                proof {
                    lemma_mod_end_step(l@, p as int, (ends.len() - 1) as nat, cur as int, e as int);
                }
                ends.push(e);
                cur = e;
            },
            None => {
                break;
            },
        }
    }
    ends
}

proof fn lemma_mod_end_step(l: Seq<char>, p: int, k: nat, cur: int, e: int)
    requires
        mod_end(l, p, k) == Some(cur),
        mod_token(l, cur) == Some(e),
    ensures
        mod_end(l, p, k + 1) == Some(e),
    decreases k,
{
    if k > 0 {
        let p2 = mod_token(l, p)->0;
        lemma_mod_end_step(l, p2, (k - 1) as nat, cur, e);
    } else {
        assert(mod_end(l, e, 0) == Some(e));
    }
}

fn ref_after_open_exec(l: &[char], p: usize, close: &[char]) -> (r: Option<(usize, usize)>)
    requires
        p <= l.len(),
    ensures
        opt2(r) == ref_after_open(l@, p as int, close@, mod_count(l@, p as int) as int),
{
    let ends = mod_ends(l, p);
    let mut k = ends.len();
    while k > 0
        invariant
            k <= ends.len(),
            ends.len() == mod_count(l@, p as int) + 1,
            forall|j: int| 0 <= j < ends.len() ==> mod_end(l@, p as int, j as nat) == Some(#[trigger] ends@[j] as int),
            forall|j: int| 0 <= j < ends.len() ==> ends@[j] <= l.len(),
            ref_after_open(l@, p as int, close@, mod_count(l@, p as int) as int) == ref_after_open(l@, p as int, close@, k - 1),
        decreases k,
    {
        let s = ends[k - 1];
        assert(mod_end(l@, p as int, (k - 1) as nat) == Some(ends@[k - 1] as int));
        if let Some(q) = find_ref_tail(l, s, close) {
            return Some((s, q));
        }
        k = k - 1;
    }
    None
}

fn ref_after_comment_exec(l: &[char], c: usize, open: &[char], close: &[char]) -> (r: Option<(usize, usize, usize)>)
    requires
        c <= l.len(),
    ensures
        forall|comments: Seq<Seq<char>>, end: Seq<char>| opt3(r) == #[trigger] ref_after_comment(l@, c as int, SyntaxView { open: open@, close: close@, end, comments }),
{
    let b = skip_ws(l, c);
    if match_at(l, b, open) {
        let p = b + open.len();
        match ref_after_open_exec(l, p, close) {
            Some((s, q)) => Some((p, s, q)),
            None => None,
        }
    } else {
        None
    }
}


fn def_after_comment_exec(l: &[char], c: usize, open: &[char], close: &[char]) -> (r: Option<(usize, usize, bool, bool)>)
    requires
        c <= l.len(),
    ensures
        forall|comments: Seq<Seq<char>>, end: Seq<char>| opt4(r) == #[trigger] def_after_comment(l@, c as int, SyntaxView { open: open@, close: close@, end, comments }),
{
    let b = skip_blank(l, c);
    if match_at(l, b, open) {
        def_after_open_exec(l, b + open.len(), close)
    } else {
        None
    }
}

// ── the syntax object ────────────────────────────────────────────────────

/// A recognised chunk-definition line.
#[derive(Debug, Clone, PartialEq, Eq)]
pub struct ChunkDefinitionMatch {
    /// Length in bytes of the leading whitespace.
    pub indent_len: usize,
    pub base_name: String,
    pub is_replace: bool,
    pub is_file: bool,
}

/// A recognised chunk-reference line, as positions in the line's characters:
/// the indentation is `[0, indent_end)`, the modifiers `[open_end,
/// name_start)` and the referenced name `[name_start, name_end)`.
#[derive(Debug, Clone, Copy)]
pub struct ChunkReferenceMatch {
    pub indent_end: usize,
    pub open_end: usize,
    pub name_start: usize,
    pub name_end: usize,
}

/// The delimiters and comment markers of one literate-source dialect.
#[derive(Debug)]
pub struct NowebSyntax {
    open: Vec<char>,
    close: Vec<char>,
    end: Vec<char>,
    comments: Vec<Vec<char>>,
    open_bytes: Vec<u8>,
    end_bytes: Vec<u8>,
}

impl View for NowebSyntax {
    type V = SyntaxView;

    closed spec fn view(&self) -> SyntaxView {
        SyntaxView { open: self.open@, close: self.close@, end: self.end@, comments: views(self.comments@) }
    }
}

impl NowebSyntax {
    #[verifier::type_invariant]
    closed spec fn inv(self) -> bool {
        &&& self.open_bytes@ == encode_utf8(self.open@)
        &&& self.end_bytes@ == encode_utf8(self.end@)
    }

    pub fn new(open_delim: &str, close_delim: &str, chunk_end: &str, comment_markers: &[String]) -> (s: Self)
        ensures
            s@.open == open_delim@,
            s@.close == close_delim@,
            s@.end == chunk_end@,
            s@.comments == comment_markers@.map_values(|m: String| m@),
    {
        let mut comments: Vec<Vec<char>> = Vec::new();
        let mut i: usize = 0;
        while i < comment_markers.len()
            invariant
                i <= comment_markers.len(),
                views(comments@) == comment_markers@.take(i as int).map_values(|m: String| m@),
            decreases comment_markers.len() - i,
        {
            let ghost before = views(comments@);
            comments.push(chars_of(comment_markers[i].as_str()));
            assert(views(comments@) =~= before.push(comment_markers@[i as int]@));
            assert(comment_markers@.take(i + 1).map_values(|m: String| m@) =~= comment_markers@.take(i as int).map_values(|m: String| m@).push(comment_markers@[i as int]@));
            i = i + 1;
        }
        assert(comment_markers@.take(comment_markers.len() as int) =~= comment_markers@);
        NowebSyntax {
            open: chars_of(open_delim),
            close: chars_of(close_delim),
            end: chars_of(chunk_end),
            comments,
            open_bytes: open_delim.as_bytes_vec(),
            end_bytes: chunk_end.as_bytes_vec(),
        }
    }

    /// The definition parse of a line given by its characters:
    /// `(indent_chars, name_start, name_end, is_replace, is_file)`.
    pub fn parse_def_chars(&self, l: &[char]) -> (r: Option<(usize, usize, usize, bool, bool)>)
        ensures
            r is None <==> parse_def(l@, self@) is None,
            r matches Some((w, s, q, rp, f)) ==> parse_def(l@, self@) == Some((w as int, s as int, q as int, rp, f)),
            r matches Some((w, s, q, rp, f)) ==> w <= s < q <= l.len(),
    {
        let w = skip_ws(l, 0);
        let mut j: usize = 0;
        while j < self.comments.len()
            invariant
                j <= self.comments.len(),
                w == ws_run(l@, 0),
                w <= l.len(),
                def_from_marker(l@, w as int, self@, 0) == def_from_marker(l@, w as int, self@, j as int),
            decreases self.comments.len() - j,
        {
            let m = &self.comments[j];
            assert(self@.comments[j as int] == m@);
            if match_at(l, w, m.as_slice()) {
                assert(w + m@.len() <= l@.len());
                let r = def_after_comment_exec(l, w + m.len(), self.open.as_slice(), self.close.as_slice());
                assert(opt4(r) == def_after_comment(l@, w + m@.len(), self@));
                if let Some((s, q, rp, f)) = r {
                    proof { self.lemma_def_positions(l@, w as int + m@.len(), s as int, q as int, rp, f); }
                    return Some((w, s, q, rp, f));
                }
            }
            j = j + 1;
        }
        let r = def_after_comment_exec(l, w, self.open.as_slice(), self.close.as_slice());
        assert(opt4(r) == def_after_comment(l@, w as int, self@));
        match r {
            Some((s, q, rp, f)) => {
                proof { self.lemma_def_positions(l@, w as int, s as int, q as int, rp, f); }
                Some((w, s, q, rp, f))
            },
            None => None,
        }
    }

    proof fn lemma_def_positions(&self, l: Seq<char>, c: int, s: int, q: int, rp: bool, f: bool)
        requires
            0 <= c <= l.len(),
            def_after_comment(l, c, self@) == Some((s, q, rp, f)),
        ensures
            c <= s < q <= l.len(),
    {
        let b = c + blank_run(l, c);
        lemma_blank_run_bounds(l, c);
        let p = b + self@.open.len();
        lemma_def_with_bounds(l, p, rp, f, self@.close);
    }

    /// Parses a chunk-definition line.
    pub fn parse_definition_line(&self, line: &str) -> (r: Option<ChunkDefinitionMatch>)
        ensures
            match parse_def(line@, self@) {
                None => r is None,
                Some((w, s, q, rp, f)) => r matches Some(m) && m.indent_len == encode_utf8(line@.take(w)).len()
                    && m.base_name@ == line@.subrange(s, q) && m.is_replace == rp && m.is_file == f,
            },
    {
        proof { use_type_invariant(self); }
        let bytes = line.as_bytes();
        if memmem_find(bytes, self.open_bytes.as_slice()).is_none() {
            proof { self.lemma_no_open_no_def(line@); }
            return None;
        }
        let l = chars_of(line);
        match self.parse_def_chars(l.as_slice()) {
            Some((w, s, q, rp, f)) => {
                let indent = line.substring_char(0, w);
                let nb = bytes.len();
                proof {
                    lemma_encode_concat(line@.take(w as int), line@.skip(w as int));
                    assert(line@.take(w as int) + line@.skip(w as int) =~= line@);
                    assert(encode_utf8(line@.take(w as int)).len() <= nb);
                    assert(indent@ =~= line@.take(w as int));
                }
                let name_chars = crate::text::sub_chars(l.as_slice(), s, q);
                let name = crate::text::string_of(name_chars.as_slice());
                let il = indent.len();
                assert(il == encode_utf8(line@.take(w as int)).len());
                assert(name@ == line@.subrange(s as int, q as int));
                Some(ChunkDefinitionMatch { indent_len: il, base_name: name, is_replace: rp, is_file: f })
            },
            None => None,
        }
    }

    proof fn lemma_no_open_no_def(&self, l: Seq<char>)
        requires
            self.inv(),
            forall|i: int| !matches_at(encode_utf8(l), i, self.open_bytes@),
        ensures
            parse_def(l, self@) is None,
    {
        let w = ws_run(l, 0);
        lemma_ws_run_bounds(l, 0);
        self.lemma_def_marker_open(l, w, 0);
    }

    /// Without the open delimiter in its encoding, a line parses as no definition.
    proof fn lemma_def_marker_open(&self, l: Seq<char>, w: int, j: int)
        requires
            self.inv(),
            0 <= w <= l.len(),
            0 <= j,
            forall|i: int| !matches_at(encode_utf8(l), i, self.open_bytes@),
        ensures
            def_from_marker(l, w, self@, j) is None,
        decreases self@.comments.len() - j,
    {
        if j >= self@.comments.len() {
            let b = w + blank_run(l, w);
            if matches_at(l, b, self@.open) {
                lemma_occurrence_encodes(l, b, self@.open);
            }
        } else {
            let c = w + self@.comments[j].len();
            let b = c + blank_run(l, c);
            if matches_at(l, w, self@.comments[j]) && matches_at(l, b, self@.open) {
                lemma_occurrence_encodes(l, b, self@.open);
            }
            self.lemma_def_marker_open(l, w, j + 1);
        }
    }
}

impl NowebSyntax {
    /// Whether a line, given by its characters, ends a chunk.
    pub fn is_close_chars(&self, l: &[char]) -> (b: bool)
        ensures
            b == is_close(l@, self@),
    {
        let mut j: usize = 0;
        while j < self.comments.len()
            invariant
                j <= self.comments.len(),
                is_close(l@, self@) == close_from_marker(l@, self@, j as int),
            decreases self.comments.len() - j,
        {
            let m = &self.comments[j];
            assert(self@.comments[j as int] == m@);
            if match_at(l, 0, m.as_slice()) {
                assert(m@.len() <= l@.len());
                if close_at(l, m.len(), self.end.as_slice()) {
                    return true;
                }
            }
            j = j + 1;
        }
        close_at(l, 0, self.end.as_slice())
    }

    /// Whether a line ends a chunk.
    pub fn is_close_line(&self, line: &str) -> (b: bool)
        ensures
            b == is_close(line@, self@),
    {
        proof { use_type_invariant(self); }
        let bytes = line.as_bytes();
        if memmem_find(bytes, self.end_bytes.as_slice()).is_none() {
            proof { self.lemma_no_end_no_close(line@, 0); }
            return false;
        }
        let l = chars_of(line);
        self.is_close_chars(l.as_slice())
    }

    proof fn lemma_no_end_no_close(&self, l: Seq<char>, j: int)
        requires
            self.inv(),
            0 <= j,
            forall|i: int| !matches_at(encode_utf8(l), i, self.end_bytes@),
        ensures
            !close_from_marker(l, self@, j),
        decreases self@.comments.len() - j,
    {
        let b0 = blank_run(l, 0);
        if matches_at(l, b0, self@.end) {
            lemma_occurrence_encodes(l, b0, self@.end);
        }
        if j < self@.comments.len() {
            let c = self@.comments[j].len() as int;
            let b = c + blank_run(l, c);
            if matches_at(l, 0, self@.comments[j]) && matches_at(l, b, self@.end) {
                lemma_occurrence_encodes(l, b, self@.end);
            }
            self.lemma_no_end_no_close(l, j + 1);
        }
    }

    /// The reference parse of a line given by its characters.
    pub fn parse_reference_chars(&self, l: &[char]) -> (r: Option<ChunkReferenceMatch>)
        ensures
            r is None <==> parse_ref(l@, self@) is None,
            r matches Some(m) ==> parse_ref(l@, self@) == Some((m.indent_end as int, m.open_end as int, m.name_start as int, m.name_end as int)),
            r matches Some(m) ==> m.indent_end <= m.open_end <= m.name_start < m.name_end <= l.len(),
    {
        let w = skip_ws(l, 0);
        let mut j: usize = 0;
        while j < self.comments.len()
            invariant
                j <= self.comments.len(),
                w == ws_run(l@, 0),
                w <= l.len(),
                ref_from_marker(l@, w as int, self@, 0) == ref_from_marker(l@, w as int, self@, j as int),
            decreases self.comments.len() - j,
        {
            let m = &self.comments[j];
            assert(self@.comments[j as int] == m@);
            if match_at(l, w, m.as_slice()) {
                assert(w + m@.len() <= l@.len());
                let c = w + m.len();
                let r = ref_after_comment_exec(l, c, self.open.as_slice(), self.close.as_slice());
                assert(opt3(r) == ref_after_comment(l@, c as int, self@));
                if let Some((p, s, q)) = r {
                    proof { self.lemma_ref_positions(l@, c as int, p as int, s as int, q as int); }
                    return Some(ChunkReferenceMatch { indent_end: w, open_end: p, name_start: s, name_end: q });
                }
            }
            j = j + 1;
        }
        let r = ref_after_comment_exec(l, w, self.open.as_slice(), self.close.as_slice());
        assert(opt3(r) == ref_after_comment(l@, w as int, self@));
        match r {
            Some((p, s, q)) => {
                proof { self.lemma_ref_positions(l@, w as int, p as int, s as int, q as int); }
                Some(ChunkReferenceMatch { indent_end: w, open_end: p, name_start: s, name_end: q })
            },
            None => None,
        }
    }

    proof fn lemma_ref_positions(&self, l: Seq<char>, c: int, p: int, s: int, q: int)
        requires
            0 <= c <= l.len(),
            ref_after_comment(l, c, self@) == Some((p, s, q)),
        ensures
            c <= p <= s < q <= l.len(),
    {
        lemma_ws_run_bounds(l, c);
        let k = mod_count(l, p);
        lemma_ref_after_open_bounds(l, p, self@.close, k as int);
    }
}

proof fn lemma_mod_end_bounds(l: Seq<char>, p: int, k: nat)
    requires
        0 <= p <= l.len(),
    ensures
        mod_end(l, p, k) matches Some(e) ==> p <= e <= l.len(),
    decreases k,
{
    if k > 0 {
        lemma_mod_token_bounds(l, p);
        if let Some(p2) = mod_token(l, p) {
            lemma_mod_end_bounds(l, p2, (k - 1) as nat);
        }
    }
}

proof fn lemma_ws_kw_bounds(l: Seq<char>, p: int, kw: Seq<char>)
    requires
        0 <= p <= l.len(),
    ensures
        ws_kw(l, p, kw) matches Some(e) ==> p <= e <= l.len(),
{
    if matches_at(l, p, kw) {
        lemma_ws_run_bounds(l, p + kw.len());
    }
}

proof fn lemma_mod_token_bounds(l: Seq<char>, p: int)
    requires
        0 <= p <= l.len(),
    ensures
        mod_token(l, p) matches Some(e) ==> p <= e <= l.len(),
{
    lemma_ws_kw_bounds(l, p, kw_file());
    lemma_ws_kw_bounds(l, p, kw_reversed());
    lemma_ws_kw_bounds(l, p, kw_compact());
    lemma_ws_kw_bounds(l, p, kw_tight());
}

proof fn lemma_first_ref_tail_bounds(l: Seq<char>, q: int, close: Seq<char>)
    ensures
        first_ref_tail(l, q, close) matches Some(e) ==> q <= e <= l.len(),
    decreases l.len() + 1 - q,
{
    if 0 <= q <= l.len() && !ref_tail_ok(l, q, close) {
        lemma_first_ref_tail_bounds(l, q + 1, close);
    }
}

proof fn lemma_ref_after_open_bounds(l: Seq<char>, p: int, close: Seq<char>, k: int)
    requires
        0 <= p <= l.len(),
    ensures
        ref_after_open(l, p, close, k) matches Some((s, q)) ==> p <= s < q <= l.len(),
    decreases k + 1,
{
    if k >= 0 {
        lemma_mod_end_bounds(l, p, k as nat);
        if let Some(s) = mod_end(l, p, k as nat) {
            lemma_first_ref_tail_bounds(l, s + 1, close);
        }
        lemma_ref_after_open_bounds(l, p, close, k - 1);
    }
}

proof fn lemma_blank_kw_bounds(l: Seq<char>, p: int, kw: Seq<char>)
    requires
        0 <= p <= l.len(),
    ensures
        blank_kw(l, p, kw) matches Some(e) ==> p <= e <= l.len(),
{
    if matches_at(l, p, kw) {
        lemma_blank_run_bounds(l, p + kw.len());
    }
}

proof fn lemma_def_with_bounds(l: Seq<char>, p: int, tr: bool, tf: bool, close: Seq<char>)
    requires
        0 <= p <= l.len(),
    ensures
        def_with(l, p, tr, tf, close) matches Some((s, q)) ==> p <= s < q <= l.len(),
{
    lemma_blank_kw_bounds(l, p, kw_replace());
    let r = if tr { blank_kw(l, p, kw_replace()) } else { Some(p) };
    if let Some(r) = r {
        lemma_blank_kw_bounds(l, r, kw_file());
        let f = if tf { blank_kw(l, r, kw_file()) } else { Some(r) };
        if let Some(f) = f {
            lemma_first_def_tail_bounds(l, f + 1, close);
        }
    }
}

proof fn lemma_first_def_tail_bounds(l: Seq<char>, q: int, close: Seq<char>)
    ensures
        first_def_tail(l, q, close) matches Some(e) ==> q <= e <= l.len(),
    decreases l.len() + 1 - q,
{
    if 0 <= q <= l.len() && !def_tail_ok(l, q, close) {
        lemma_first_def_tail_bounds(l, q + 1, close);
    }
}

} // verus!
