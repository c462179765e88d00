//! Character-level text utilities shared by the parsers of this crate.
//!
//! Text is modelled by its `Seq<char>` view; every function here states its
//! result over that view.
use vstd::prelude::*;

verus! {

// ── whitespace ───────────────────────────────────────────────────────────

/// Unicode `White_Space`, the set that `char::is_whitespace` tests.
pub open spec fn is_ws(c: char) -> bool {
    ||| ('\u{9}' <= c && c <= '\u{d}')
    ||| c == ' '
    ||| c == '\u{85}'
    ||| c == '\u{a0}'
    ||| c == '\u{1680}'
    ||| ('\u{2000}' <= c && c <= '\u{200a}')
    ||| c == '\u{2028}'
    ||| c == '\u{2029}'
    ||| c == '\u{202f}'
    ||| c == '\u{205f}'
    ||| c == '\u{3000}'
}

pub fn char_is_ws(c: char) -> (b: bool)
    ensures
        b == is_ws(c),
{
    ('\u{9}' <= c && c <= '\u{d}') || c == ' ' || c == '\u{85}' || c == '\u{a0}'
        || c == '\u{1680}' || ('\u{2000}' <= c && c <= '\u{200a}') || c == '\u{2028}'
        || c == '\u{2029}' || c == '\u{202f}' || c == '\u{205f}' || c == '\u{3000}'
}

/// A space or a horizontal tab.
pub open spec fn is_blank(c: char) -> bool {
    c == ' ' || c == '\t'
}

/// `s` with its leading whitespace removed (as `str::trim_start`).
pub open spec fn trim_start(s: Seq<char>) -> Seq<char>
    decreases s.len(),
{
    if s.len() > 0 && is_ws(s[0]) {
        trim_start(s.drop_first())
    } else {
        s
    }
}

/// `s` with its trailing whitespace removed (as `str::trim_end`).
pub open spec fn trim_end(s: Seq<char>) -> Seq<char>
    decreases s.len(),
{
    if s.len() > 0 && is_ws(s.last()) {
        trim_end(s.drop_last())
    } else {
        s
    }
}

/// `s` with whitespace removed at both ends (as `str::trim`).
pub open spec fn trim(s: Seq<char>) -> Seq<char> {
    trim_end(trim_start(s))
}

/// Every character of `s` is whitespace.
pub open spec fn all_ws(s: Seq<char>) -> bool {
    forall|i: int| 0 <= i < s.len() ==> is_ws(#[trigger] s[i])
}

// ── conversions between `str`, `String` and `Vec<char>` ────────────────

pub fn chars_of(s: &str) -> (v: Vec<char>)
    ensures
        v@ == s@,
{
    let mut v: Vec<char> = Vec::new();
    for c in it: s.chars()
        invariant
            v@ == it.seq().take(it.index() as int),
            it.seq() == s@,
    {
        v.push(c);
    }
    v
}

/// Appends one character to a `String` (`String::push`).
#[verifier::external_body]
fn push_char(s: &mut String, c: char)
    ensures
        final(s)@ == old(s)@.push(c),
{
    s.push(c);
}

pub fn string_of(v: &[char]) -> (s: String)
    ensures
        s@ == v@,
{
    let mut s = String::new();
    let mut i: usize = 0;
    while i < v.len()
        invariant
            i <= v.len(),
            s@ == v@.take(i as int),
        decreases v.len() - i,
    {
        push_char(&mut s, v[i]);
        assert(v@.take(i as int).push(v@[i as int]) =~= v@.take(i + 1));
        i = i + 1;
    }
    assert(v@.take(v.len() as int) =~= v@);
    s
}


/// The characters `v[a..b]` as a new vector.
pub fn sub_chars(v: &[char], a: usize, b: usize) -> (r: Vec<char>)
    requires
        a <= b <= v.len(),
    ensures
        r@ == v@.subrange(a as int, b as int),
{
    let mut r: Vec<char> = Vec::new();
    let mut i = a;
    while i < b
        invariant
            a <= i <= b <= v.len(),
            r@ == v@.subrange(a as int, i as int),
        decreases b - i,
    {
        r.push(v[i]);
        assert(v@.subrange(a as int, i as int).push(v@[i as int]) =~= v@.subrange(a as int, i + 1));
        i = i + 1;
    }
    r
}

/// The concatenation `a + b` as a new vector.
pub fn concat_chars(a: &[char], b: &[char]) -> (r: Vec<char>)
    ensures
        r@ == a@ + b@,
{
    let mut r: Vec<char> = Vec::new();
    let mut i: usize = 0;
    while i < a.len()
        invariant
            i <= a.len(),
            r@ == a@.take(i as int),
        decreases a.len() - i,
    {
        r.push(a[i]);
        assert(a@.take(i as int).push(a@[i as int]) =~= a@.take(i + 1));
        i = i + 1;
    }
    let mut j: usize = 0;
    assert(a@.take(a.len() as int) =~= a@);
    while j < b.len()
        invariant
            j <= b.len(),
            r@ == a@ + b@.take(j as int),
        decreases b.len() - j,
    {
        r.push(b[j]);
        assert(a@ + b@.take(j as int) + seq![b@[j as int]] =~= a@ + b@.take(j + 1));
        j = j + 1;
    }
    assert(b@.take(b.len() as int) =~= b@);
    r
}

pub proof fn lemma_trim_start_skip(s: Seq<char>, i: int)
    requires
        0 <= i <= s.len(),
        forall|j: int| 0 <= j < i ==> is_ws(#[trigger] s[j]),
    ensures
        trim_start(s) == trim_start(s.skip(i)),
    decreases i,
{
    if i > 0 {
        assert(s.skip(1) == s.drop_first());
        lemma_trim_start_skip(s.drop_first(), i - 1);
        assert(s.drop_first().skip(i - 1) =~= s.skip(i));
    } else {
        assert(s.skip(0) =~= s);
    }
}

pub proof fn lemma_trim_end_take(s: Seq<char>)
    ensures
        trim_end(s) == s.take(ws_tail_start(s)),
    decreases s.len(),
{
    if s.len() > 0 && is_ws(s.last()) {
        lemma_trim_end_take(s.drop_last());
        lemma_ws_tail_start(s.drop_last());
        assert(s.drop_last().take(ws_tail_start(s.drop_last())) =~= s.take(ws_tail_start(s.drop_last())));
    } else {
        assert(s.take(s.len() as int) =~= s);
    }
}

/// Every character is whitespace.
pub fn is_all_ws(l: &[char]) -> (b: bool)
    ensures
        b == all_ws(l@),
{
    let mut i: usize = 0;
    while i < l.len()
        invariant
            i <= l.len(),
            forall|j: int| 0 <= j < i ==> is_ws(#[trigger] l@[j]),
        decreases l.len() - i,
    {
        if !char_is_ws(l[i]) {
            return false;
        }
        i = i + 1;
    }
    true
}

/// `l` with whitespace removed at both ends.
pub fn trim_chars(l: &[char]) -> (r: Vec<char>)
    ensures
        r@ == trim(l@),
{
    let a = skip_ws(l, 0);
    proof {
        lemma_ws_run_bounds(l@, 0);
        lemma_trim_start_skip(l@, a as int);
        if a < l.len() {
            assert(l@.skip(a as int)[0] == l@[a as int]);
        }
        assert(trim_start(l@.skip(a as int)) == l@.skip(a as int));
    }
    let mid = sub_chars(l, a, l.len());
    assert(mid@ =~= l@.skip(a as int));
    let k = ws_tail(mid.as_slice());
    proof { lemma_trim_end_take(mid@); lemma_ws_tail_start(mid@); }
    sub_chars(mid.as_slice(), 0, k)
}

// ── lines ────────────────────────────────────────────────────────────────

/// `l` without one trailing carriage return.
pub open spec fn strip_cr(l: Seq<char>) -> Seq<char> {
    if l.len() > 0 && l.last() == '\r' {
        l.drop_last()
    } else {
        l
    }
}

/// The lines of `s` (as `str::lines`), where `cur` is the part of the current
/// line already read: lines end at `\n`, a `\r` before that `\n` is dropped,
/// and a final line is produced only when it is not empty.
pub open spec fn lines_from(s: Seq<char>, cur: Seq<char>) -> Seq<Seq<char>>
    decreases s.len(),
{
    if s.len() == 0 {
        if cur.len() == 0 {
            seq![]
        } else {
            seq![cur]
        }
    } else if s[0] == '\n' {
        seq![strip_cr(cur)] + lines_from(s.drop_first(), seq![])
    } else {
        lines_from(s.drop_first(), cur.push(s[0]))
    }
}

/// The lines of `s`, as `str::lines` splits them.
pub open spec fn lines(s: Seq<char>) -> Seq<Seq<char>> {
    lines_from(s, seq![])
}

/// The views of a sequence of character vectors.
pub open spec fn views(v: Seq<Vec<char>>) -> Seq<Seq<char>> {
    v.map_values(|x: Vec<char>| x@)
}

pub fn split_lines(s: &[char]) -> (out: Vec<Vec<char>>)
    ensures
        views(out@) == lines(s@),
{
    let mut out: Vec<Vec<char>> = Vec::new();
    let mut cur: Vec<char> = Vec::new();
    let mut i: usize = 0;
    assert(s@.skip(0) =~= s@);
    assert(views(out@) =~= Seq::<Seq<char>>::empty());
    while i < s.len()
        invariant
            i <= s.len(),
            views(out@) + lines_from(s@.skip(i as int), cur@) == lines(s@),
        decreases s.len() - i,
    {
        let ghost rest = s@.skip(i as int);
        let ghost old_out = views(out@);
        let ghost old_cur = cur@;
        assert(rest.drop_first() =~= s@.skip(i + 1));
        assert(rest[0] == s@[i as int]);
        if s[i] == '\n' {
            let mut line = cur;
            let n = line.len();
            if n > 0 && line[n - 1] == '\r' {
                line.pop();
            }
            assert(line@ == strip_cr(old_cur));
            out.push(line);
            cur = Vec::new();
            assert(views(out@) =~= old_out.push(strip_cr(old_cur)));
            assert(old_out + lines_from(rest, old_cur) =~= views(out@) + lines_from(
                s@.skip(i + 1),
                cur@,
            ));
        } else {
            cur.push(s[i]);
            assert(views(out@) =~= old_out);
        }
        i = i + 1;
    }
    if cur.len() > 0 {
        let ghost old_out = views(out@);
        let ghost old_cur = cur@;
        out.push(cur);
        assert(views(out@) =~= old_out + seq![old_cur]);
    } else {
        assert(views(out@) + lines_from(s@.skip(i as int), cur@) =~= views(out@));
    }
    out
}


// ── matching ─────────────────────────────────────────────────────────────

/// `pat` occurs in `s` at position `i`.
pub open spec fn matches_at<T>(s: Seq<T>, i: int, pat: Seq<T>) -> bool {
    0 <= i && i + pat.len() <= s.len() && s.subrange(i, i + pat.len()) == pat
}

pub fn match_at(s: &[char], i: usize, pat: &[char]) -> (b: bool)
    ensures
        b == matches_at(s@, i as int, pat@),
{
    if i > s.len() || pat.len() > s.len() - i {
        return false;
    }
    let mut k: usize = 0;
    while k < pat.len()
        invariant
            i + pat.len() <= s.len(),
            k <= pat.len(),
            forall|j: int| 0 <= j < k ==> s@[i + j] == pat@[j],
        decreases pat.len() - k,
    {
        if s[i + k] != pat[k] {
            assert(s@.subrange(i as int, i + pat.len())[k as int] != pat@[k as int]);
            return false;
        }
        k = k + 1;
    }
    assert(s@.subrange(i as int, i + pat.len()) =~= pat@);
    true
}

/// Length of the run of whitespace characters of `s` starting at `i`.
pub open spec fn ws_run(s: Seq<char>, i: int) -> int
    decreases s.len() - i,
{
    if 0 <= i < s.len() && is_ws(s[i]) {
        1 + ws_run(s, i + 1)
    } else {
        0
    }
}

/// Length of the run of spaces and tabs of `s` starting at `i`.
pub open spec fn blank_run(s: Seq<char>, i: int) -> int
    decreases s.len() - i,
{
    if 0 <= i < s.len() && is_blank(s[i]) {
        1 + blank_run(s, i + 1)
    } else {
        0
    }
}

pub proof fn lemma_ws_run_bounds(s: Seq<char>, i: int)
    requires
        0 <= i <= s.len(),
    ensures
        0 <= ws_run(s, i) <= s.len() - i,
        forall|j: int| i <= j < i + ws_run(s, i) ==> is_ws(#[trigger] s[j]),
        i + ws_run(s, i) < s.len() ==> !is_ws(s[i + ws_run(s, i)]),
    decreases s.len() - i,
{
    if i < s.len() && is_ws(s[i]) {
        lemma_ws_run_bounds(s, i + 1);
    }
}

pub proof fn lemma_blank_run_bounds(s: Seq<char>, i: int)
    requires
        0 <= i <= s.len(),
    ensures
        0 <= blank_run(s, i) <= s.len() - i,
        forall|j: int| i <= j < i + blank_run(s, i) ==> is_blank(#[trigger] s[j]),
        i + blank_run(s, i) < s.len() ==> !is_blank(s[i + blank_run(s, i)]),
    decreases s.len() - i,
{
    if i < s.len() && is_blank(s[i]) {
        lemma_blank_run_bounds(s, i + 1);
    }
}

pub fn skip_ws(s: &[char], i: usize) -> (j: usize)
    requires
        i <= s.len(),
    ensures
        j == i + ws_run(s@, i as int),
        j <= s.len(),
{
    let mut j = i;
    proof { lemma_ws_run_bounds(s@, i as int); }
    while j < s.len() && char_is_ws(s[j])
        invariant
            i <= j <= s.len(),
            ws_run(s@, i as int) == (j - i) + ws_run(s@, j as int),
        decreases s.len() - j,
    {
        j = j + 1;
    }
    j
}

pub fn skip_blank(s: &[char], i: usize) -> (j: usize)
    requires
        i <= s.len(),
    ensures
        j == i + blank_run(s@, i as int),
        j <= s.len(),
{
    let mut j = i;
    while j < s.len() && (s[j] == ' ' || s[j] == '\t')
        invariant
            i <= j <= s.len(),
            blank_run(s@, i as int) == (j - i) + blank_run(s@, j as int),
        decreases s.len() - j,
    {
        j = j + 1;
    }
    j
}

/// Every character of `s` from position `i` on is whitespace.
pub open spec fn ws_from(s: Seq<char>, i: int) -> bool {
    forall|j: int| i <= j < s.len() ==> is_ws(#[trigger] s[j])
}

/// Smallest `k` such that every character from `k` on is whitespace.
pub open spec fn ws_tail_start(s: Seq<char>) -> int
    decreases s.len(),
{
    if s.len() > 0 && is_ws(s.last()) {
        ws_tail_start(s.drop_last())
    } else {
        s.len() as int
    }
}

pub proof fn lemma_ws_tail_start(s: Seq<char>)
    ensures
        0 <= ws_tail_start(s) <= s.len(),
        forall|k: int| 0 <= k <= s.len() ==> (#[trigger] ws_from(s, k) <==> ws_tail_start(s) <= k),
    decreases s.len(),
{
    if s.len() > 0 && is_ws(s.last()) {
        lemma_ws_tail_start(s.drop_last());
        assert forall|k: int| 0 <= k <= s.len() implies (ws_from(s, k) <==> ws_tail_start(s) <= k) by {
            if k < s.len() {
                if ws_from(s, k) {
                    assert(ws_from(s.drop_last(), k));
                } else if ws_tail_start(s) <= k {
                    assert(ws_from(s.drop_last(), k));
                    assert forall|j: int| k <= j < s.len() implies is_ws(#[trigger] s[j]) by {
                        if j < s.len() - 1 {
                            assert(s.drop_last()[j] == s[j]);
                        }
                    }
                }
            }
        }
    } else {
        assert forall|k: int| 0 <= k <= s.len() implies (ws_from(s, k) <==> ws_tail_start(s) <= k) by {
            if k < s.len() {
                assert(!is_ws(s[s.len() - 1]));
            }
        }
    }
}

pub fn ws_tail(s: &[char]) -> (k: usize)
    ensures
        k == ws_tail_start(s@),
{
    let mut k = s.len();
    assert(s@.take(s.len() as int) =~= s@);
    while k > 0 && char_is_ws(s[k - 1])
        invariant
            k <= s.len(),
            ws_tail_start(s@) == ws_tail_start(s@.take(k as int)),
        decreases k,
    {
        assert(s@.take(k as int).drop_last() =~= s@.take(k - 1));
        k = k - 1;
    }
    assert(s@.take(s.len() as int) =~= s@);
    k
}


// ── joining lines ────────────────────────────────────────────────────────

/// The lines `ls` joined with `\n` between them (as `[&str]::join("\n")`).
pub open spec fn join_lines(ls: Seq<Seq<char>>) -> Seq<char>
    decreases ls.len(),
{
    if ls.len() == 0 {
        seq![]
    } else if ls.len() == 1 {
        ls[0]
    } else {
        join_lines(ls.drop_last()) + seq!['\n'] + ls.last()
    }
}

/// Appends the characters `s` to `r`.
pub fn push_all(r: &mut Vec<char>, s: &[char])
    ensures
        final(r)@ == old(r)@ + s@,
{
    let mut i: usize = 0;
    while i < s.len()
        invariant
            i <= s.len(),
            r@ == old(r)@ + s@.take(i as int),
        decreases s.len() - i,
    {
        r.push(s[i]);
        assert(s@.take(i as int).push(s@[i as int]) =~= s@.take(i + 1));
        i = i + 1;
    }
    assert(s@.take(s.len() as int) =~= s@);
}

/// Appends the characters of `s` to `r`.
pub fn push_str(r: &mut Vec<char>, s: &str)
    ensures
        final(r)@ == old(r)@ + s@,
{
    let v = chars_of(s);
    push_all(r, v.as_slice());
}

/// The lines `ls[a..b]` joined with `\n`.
pub fn join_range(ls: &[Vec<char>], a: usize, b: usize) -> (r: Vec<char>)
    requires
        a <= b <= ls.len(),
    ensures
        r@ == join_lines(views(ls@).subrange(a as int, b as int)),
{
    let mut r: Vec<char> = Vec::new();
    let mut i = a;
    assert(views(ls@).subrange(a as int, a as int) =~= Seq::<Seq<char>>::empty());
    while i < b
        invariant
            a <= i <= b <= ls.len(),
            r@ == join_lines(views(ls@).subrange(a as int, i as int)),
        decreases b - i,
    {
        let ghost pre = views(ls@).subrange(a as int, i as int);
        let ghost next = views(ls@).subrange(a as int, i + 1);
        assert(next.drop_last() =~= pre);
        assert(next.last() == ls@[i as int]@);
        if i > a {
            r.push('\n');
        } else {
            assert(next =~= seq![ls@[i as int]@]);
        }
        push_all(&mut r, ls[i].as_slice());
        i = i + 1;
    }
    r
}

/// Appends the lines `src[a..b]` to `out`.
pub fn push_lines(out: &mut Vec<Vec<char>>, src: &[Vec<char>], a: usize, b: usize)
    requires
        a <= b <= src.len(),
    ensures
        views(final(out)@) == views(old(out)@) + views(src@).subrange(a as int, b as int),
{
    let mut i = a;
    while i < b
        invariant
            a <= i <= b <= src.len(),
            views(out@) == views(old(out)@) + views(src@).subrange(a as int, i as int),
        decreases b - i,
    {
        let ghost before = views(out@);
        let line = src[i].clone();
        assert(line@ =~= src@[i as int]@);
        out.push(line);
        assert(views(out@) =~= before.push(src@[i as int]@));
        assert(views(src@).subrange(a as int, i + 1) =~= views(src@).subrange(a as int, i as int).push(
            src@[i as int]@,
        ));
        i = i + 1;
    }
}

/// `s` without its trailing `\n` characters (as `trim_end_matches('\n')`).
pub open spec fn trim_end_nl(s: Seq<char>) -> Seq<char>
    decreases s.len(),
{
    if s.len() > 0 && s.last() == '\n' {
        trim_end_nl(s.drop_last())
    } else {
        s
    }
}

pub fn trim_end_newlines(s: &[char]) -> (r: Vec<char>)
    ensures
        r@ == trim_end_nl(s@),
{
    let mut k = s.len();
    assert(s@.take(s.len() as int) =~= s@);
    while k > 0 && s[k - 1] == '\n'
        invariant
            k <= s.len(),
            trim_end_nl(s@) == trim_end_nl(s@.take(k as int)),
        decreases k,
    {
        assert(s@.take(k as int).drop_last() =~= s@.take(k - 1));
        k = k - 1;
    }
    sub_chars(s, 0, k)
}

/// Whether two character sequences are equal.
pub fn chars_eq(a: &[char], b: &[char]) -> (r: bool)
    ensures
        r == (a@ == b@),
{
    if a.len() != b.len() {
        return false;
    }
    let mut i: usize = 0;
    while i < a.len()
        invariant
            i <= a.len() == b.len(),
            forall|j: int| 0 <= j < i ==> a@[j] == b@[j],
        decreases a.len() - i,
    {
        if a[i] != b[i] {
            return false;
        }
        i = i + 1;
    }
    assert(a@ =~= b@);
    true
}


// ── decimal numbers ──────────────────────────────────────────────────────

/// The decimal digit for `d < 10`.
pub open spec fn digit_char(d: nat) -> char {
    (48 + d) as char
}

/// The decimal spelling of `n`, without leading zeros (`"0"` for zero).
pub open spec fn dec(n: nat) -> Seq<char>
    decreases n,
{
    if n < 10 {
        seq![digit_char(n)]
    } else {
        dec(n / 10).push(digit_char(n % 10))
    }
}

/// The decimal spelling of `n`.
pub fn decimal(n: u128) -> (r: Vec<char>)
    ensures
        r@ == dec(n as nat),
    decreases n,
{
    if n < 10 {
        let c = ((48 + n) as u8) as char;
        assert(c == digit_char(n as nat));
        vec![c]
    } else {
        let mut r = decimal(n / 10);
        let d = n % 10;
        let c = ((48 + d) as u8) as char;
        assert(c == digit_char((n % 10) as nat));
        r.push(c);
        r
    }
}


// ── lines and joins ──────────────────────────────────────────────────────

/// A line holds neither a line feed nor a carriage return.
pub open spec fn clean_line(l: Seq<char>) -> bool {
    !l.contains('\n') && !l.contains('\r')
}

pub proof fn lemma_lines_from_no_nl(a: Seq<char>, rest: Seq<char>, cur: Seq<char>)
    requires
        !a.contains('\n'),
    ensures
        lines_from(a + rest, cur) == lines_from(rest, cur + a),
    decreases a.len(),
{
    if a.len() == 0 {
        assert(a + rest =~= rest);
        assert(cur + a =~= cur);
    } else {
        assert((a + rest)[0] == a[0]);
        assert((a + rest).drop_first() =~= a.drop_first() + rest);
        assert(!a.drop_first().contains('\n')) by {
            if a.drop_first().contains('\n') {
                let k = choose|k: int| 0 <= k < a.drop_first().len() && a.drop_first()[k] == '\n';
                assert(a[k + 1] == '\n');
            }
        }
        assert(a[0] != '\n') by {
            if a[0] == '\n' {
                assert(a.contains('\n'));
            }
        }
        lemma_lines_from_no_nl(a.drop_first(), rest, cur.push(a[0]));
        assert(cur.push(a[0]) + a.drop_first() =~= cur + a);
    }
}

pub proof fn lemma_join_front(x: Seq<char>, ys: Seq<Seq<char>>)
    requires
        ys.len() > 0,
    ensures
        join_lines(seq![x] + ys) == x + seq!['\n'] + join_lines(ys),
    decreases ys.len(),
{
    let all = seq![x] + ys;
    assert(all.len() >= 2);
    assert(all.drop_last() =~= seq![x] + ys.drop_last());
    assert(all.last() == ys.last());
    assert(join_lines(all) == join_lines(all.drop_last()) + seq!['\n'] + all.last());
    if ys.len() == 1 {
        assert(all.drop_last() =~= seq![x]);
        assert(join_lines(seq![x]) == x);
        assert(join_lines(ys) == ys[0]);
        assert(join_lines(all) =~= x + seq!['\n'] + join_lines(ys));
    } else {
        lemma_join_front(x, ys.drop_last());
        assert(join_lines(ys) == join_lines(ys.drop_last()) + seq!['\n'] + ys.last());
        assert(join_lines(all) =~= x + seq!['\n'] + join_lines(ys));
    }
}

/// The lines of joined clean lines, followed by a line feed, are those lines.
pub proof fn lemma_lines_of_join_nl(xs: Seq<Seq<char>>)
    requires
        xs.len() > 0,
        forall|k: int| 0 <= k < xs.len() ==> clean_line(#[trigger] xs[k]),
    ensures
        lines(join_lines(xs) + seq!['\n']) == xs,
    decreases xs.len(),
{
    let x = xs[0];
    assert(clean_line(xs[0]));
    if xs.len() == 1 {
        assert(xs =~= seq![x]);
        lemma_lines_from_no_nl(x, seq!['\n'], seq![]);
        assert(seq![x][0] == x);
        assert(x + seq!['\n'] == join_lines(xs) + seq!['\n']);
        assert(seq!['\n'].drop_first() =~= Seq::<char>::empty());
        assert(Seq::<char>::empty() + x =~= x);
        assert(strip_cr(x) == x) by {
            if x.len() > 0 && x.last() == '\r' {
                assert(x.contains('\r'));
            }
        }
        assert(seq!['\n'][0] == '\n');
        assert(lines_from(Seq::<char>::empty(), Seq::<char>::empty()) =~= Seq::<Seq<char>>::empty());
        assert(lines_from(seq!['\n'], x) == seq![strip_cr(x)] + lines_from(seq!['\n'].drop_first(), seq![]));
        assert(lines_from(seq!['\n'], x) =~= seq![x]);
    } else {
        let ys = xs.drop_first();
        assert(xs =~= seq![x] + ys);
        lemma_join_front(x, ys);
        assert forall|k: int| 0 <= k < ys.len() implies clean_line(#[trigger] ys[k]) by {
            assert(ys[k] == xs[k + 1]);
        }
        lemma_lines_of_join_nl(ys);
        let t = join_lines(ys) + seq!['\n'];
        assert(join_lines(xs) + seq!['\n'] =~= x + (seq!['\n'] + t));
        lemma_lines_from_no_nl(x, seq!['\n'] + t, seq![]);
        assert(Seq::<char>::empty() + x =~= x);
        assert((seq!['\n'] + t).drop_first() =~= t);
        assert(strip_cr(x) == x) by {
            if x.len() > 0 && x.last() == '\r' {
                assert(x.contains('\r'));
            }
        }
        assert(lines_from(seq!['\n'] + t, x) =~= seq![x] + lines_from(t, seq![]));
    }
}

/// The lines of joined clean lines whose last line is not empty are those lines.
pub proof fn lemma_lines_of_join(xs: Seq<Seq<char>>)
    requires
        xs.len() > 0,
        xs.last().len() > 0,
        forall|k: int| 0 <= k < xs.len() ==> clean_line(#[trigger] xs[k]),
    ensures
        lines(join_lines(xs)) == xs,
    decreases xs.len(),
{
    let x = xs[0];
    assert(clean_line(xs[0]));
    if xs.len() == 1 {
        assert(xs =~= seq![x]);
        lemma_lines_from_no_nl(x, seq![], seq![]);
        assert(x + Seq::<char>::empty() =~= x);
        assert(Seq::<char>::empty() + x =~= x);
        assert(lines_from(Seq::<char>::empty(), x) =~= seq![x]);
    } else {
        let ys = xs.drop_first();
        assert(xs =~= seq![x] + ys);
        lemma_join_front(x, ys);
        assert forall|k: int| 0 <= k < ys.len() implies clean_line(#[trigger] ys[k]) by {
            assert(ys[k] == xs[k + 1]);
        }
        assert(ys.last() == xs.last());
        lemma_lines_of_join(ys);
        let t = join_lines(ys);
        assert(join_lines(xs) =~= x + (seq!['\n'] + t));
        lemma_lines_from_no_nl(x, seq!['\n'] + t, seq![]);
        assert(Seq::<char>::empty() + x =~= x);
        assert((seq!['\n'] + t).drop_first() =~= t);
        assert(strip_cr(x) == x) by {
            if x.len() > 0 && x.last() == '\r' {
                assert(x.contains('\r'));
            }
        }
        assert(lines_from(seq!['\n'] + t, x) =~= seq![x] + lines_from(t, seq![]));
    }
}

/// A text with no carriage return splits into clean lines, and when it does
/// not end with a line feed its last line is not empty.
pub proof fn lemma_lines_from_clean(s: Seq<char>, cur: Seq<char>)
    requires
        !s.contains('\r'),
        clean_line(cur),
    ensures
        forall|k: int| 0 <= k < lines_from(s, cur).len() ==> clean_line(#[trigger] lines_from(s, cur)[k]),
        (s.len() > 0 || cur.len() > 0) ==> lines_from(s, cur).len() > 0,
        (s.len() > 0 && s.last() != '\n' || s.len() == 0 && cur.len() > 0) ==> lines_from(s, cur).last().len() > 0,
    decreases s.len(),
{
    if s.len() == 0 {
    } else {
        let r = s.drop_first();
        assert(!r.contains('\r')) by {
            if r.contains('\r') {
                let k = choose|k: int| 0 <= k < r.len() && r[k] == '\r';
                assert(s[k + 1] == '\r');
            }
        }
        if s[0] == '\n' {
            lemma_lines_from_clean(r, seq![]);
            assert(strip_cr(cur) == cur) by {
                if cur.len() > 0 && cur.last() == '\r' {
                    assert(cur.contains('\r'));
                }
            }
            let z = lines_from(r, seq![]);
            assert(lines_from(s, cur) == seq![cur] + z);
            assert forall|k: int| 0 <= k < lines_from(s, cur).len() implies clean_line(#[trigger] lines_from(s, cur)[k]) by {
                if k > 0 {
                    assert(lines_from(s, cur)[k] == z[k - 1]);
                }
            }
            if s.last() != '\n' {
                assert(r.len() > 0);
                assert(r.last() == s.last());
            }
        } else {
            assert(s[0] != '\r') by {
                if s[0] == '\r' {
                    assert(s.contains('\r'));
                }
            }
            assert(clean_line(cur.push(s[0]))) by {
                if cur.push(s[0]).contains('\n') {
                    let k = choose|k: int| 0 <= k < cur.push(s[0]).len() && cur.push(s[0])[k] == '\n';
                    if k < cur.len() {
                        assert(cur[k] == '\n');
                    }
                }
                if cur.push(s[0]).contains('\r') {
                    let k = choose|k: int| 0 <= k < cur.push(s[0]).len() && cur.push(s[0])[k] == '\r';
                    if k < cur.len() {
                        assert(cur[k] == '\r');
                    }
                }
            }
            lemma_lines_from_clean(r, cur.push(s[0]));
            if r.len() > 0 {
                assert(r.last() == s.last());
            }
        }
    }
}

/// Joining the lines of a text with no carriage return and no final line
/// feed gives the text back.
pub proof fn lemma_join_of_lines(t: Seq<char>, cur: Seq<char>)
    requires
        !t.contains('\r'),
        clean_line(cur),
        !(t.len() > 0 && t.last() == '\n'),
    ensures
        join_lines(lines_from(t, cur)) == cur + t,
    decreases t.len(),
{
    if t.len() == 0 {
        assert(cur + t =~= cur);
        if cur.len() == 0 {
            assert(lines_from(t, cur) =~= Seq::<Seq<char>>::empty());
        }
    } else {
        let r = t.drop_first();
        assert(!r.contains('\r')) by {
            if r.contains('\r') {
                let k = choose|k: int| 0 <= k < r.len() && r[k] == '\r';
                assert(t[k + 1] == '\r');
            }
        }
        if t[0] == '\n' {
            assert(r.len() > 0);
            assert(r.last() == t.last());
            lemma_join_of_lines(r, seq![]);
            lemma_lines_from_clean(r, seq![]);
            let z = lines_from(r, seq![]);
            assert(strip_cr(cur) == cur) by {
                if cur.len() > 0 && cur.last() == '\r' {
                    assert(cur.contains('\r'));
                }
            }
            assert(lines_from(t, cur) == seq![cur] + z);
            lemma_join_front(cur, z);
            assert(Seq::<char>::empty() + r =~= r);
            assert(cur + t =~= cur + seq!['\n'] + r);
        } else {
            assert(t[0] != '\r') by {
                if t[0] == '\r' {
                    assert(t.contains('\r'));
                }
            }
            assert(clean_line(cur.push(t[0]))) by {
                if cur.push(t[0]).contains('\n') {
                    let k = choose|k: int| 0 <= k < cur.push(t[0]).len() && cur.push(t[0])[k] == '\n';
                    if k < cur.len() {
                        assert(cur[k] == '\n');
                    }
                }
                if cur.push(t[0]).contains('\r') {
                    let k = choose|k: int| 0 <= k < cur.push(t[0]).len() && cur.push(t[0])[k] == '\r';
                    if k < cur.len() {
                        assert(cur[k] == '\r');
                    }
                }
            }
            if r.len() > 0 {
                assert(r.last() == t.last());
            }
            lemma_join_of_lines(r, cur.push(t[0]));
            assert(cur.push(t[0]) + r =~= cur + t);
        }
    }
}

} // verus!
