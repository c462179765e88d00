//! AsciiDoc section helpers: headings, the section around a line, the trail
//! of titles above it, the prose of a section without its code, and the
//! context of a chunk definition made of them.
use vstd::prelude::*;
use crate::text::{
    chars_of, join_lines, join_range, lemma_trim_end_take, lemma_ws_tail_start, lines, string_of,
    sub_chars, trim, trim_chars, trim_end, views, ws_tail,
};

verus! {

/// The views of a slice of string slices.
pub open spec fn strs(v: Seq<&str>) -> Seq<Seq<char>> {
    v.map_values(|s: &str| s@)
}

/// Length of the run of `c` in `s` starting at `i`.
pub open spec fn char_run(s: Seq<char>, i: int, c: char) -> int
    decreases s.len() - i,
{
    if 0 <= i < s.len() && s[i] == c {
        1 + char_run(s, i + 1, c)
    } else {
        0
    }
}

pub proof fn lemma_char_run_bounds(s: Seq<char>, i: int, c: char)
    requires
        0 <= i <= s.len(),
    ensures
        0 <= char_run(s, i, c) <= s.len() - i,
        forall|j: int| i <= j < i + char_run(s, i, c) ==> #[trigger] s[j] == c,
        i + char_run(s, i, c) < s.len() ==> s[i + char_run(s, i, c)] != c,
    decreases s.len() - i,
{
    if i < s.len() && s[i] == c {
        lemma_char_run_bounds(s, i + 1, c);
    }
}

/// The depth of an AsciiDoc `=`-heading (`= T` is 1, `== T` is 2, …): the
/// line, without trailing whitespace, is a run of `=` followed by a space and
/// at least one more character.
pub open spec fn heading_of(line: Seq<char>) -> Option<nat> {
    let t = trim_end(line);
    let c = char_run(t, 0, '=');
    if c > 0 && t.len() > c && t[c] == ' ' {
        Some(c as nat)
    } else {
        None
    }
}

/// `Some(depth)` if `line` is an AsciiDoc heading, else `None`.
pub fn heading_level(line: &str) -> (r: Option<usize>)
    ensures
        match r {
            Some(c) => heading_of(line@) == Some(c as nat),
            None => heading_of(line@) is None,
        },
{
    let s = chars_of(line);
    let k = ws_tail(s.as_slice());
    proof {
        lemma_trim_end_take(s@);
        lemma_ws_tail_start(s@);
    }
    let t = sub_chars(s.as_slice(), 0, k);
    assert(t@ =~= trim_end(line@));
    let mut c: usize = 0;
    proof { lemma_char_run_bounds(t@, 0, '='); }
    while c < t.len() && t[c] == '='
        invariant
            c <= t.len(),
            char_run(t@, 0, '=') == c + char_run(t@, c as int, '='),
        decreases t.len() - c,
    {
        c = c + 1;
    }
    if c > 0 && t.len() > c && t[c] == ' ' {
        Some(c)
    } else {
        None
    }
}

// ── sections ─────────────────────────────────────────────────────────────

/// The index of the last heading among `ls[0..k]`.
pub open spec fn last_heading_before(ls: Seq<Seq<char>>, k: int) -> Option<int>
    decreases k,
{
    if k <= 0 {
        None
    } else if heading_of(ls[k - 1]) is Some {
        Some(k - 1)
    } else {
        last_heading_before(ls, k - 1)
    }
}

/// The first index `j' >= j` of a heading of depth at most `level`, or the
/// number of lines.
pub open spec fn next_break(ls: Seq<Seq<char>>, j: int, level: nat) -> int
    decreases ls.len() - j,
{
    if j >= ls.len() {
        ls.len() as int
    } else if heading_of(ls[j]) matches Some(h) && h <= level {
        j
    } else {
        next_break(ls, j + 1, level)
    }
}

/// The `(start, end)` line range of the section that holds line `def_start`.
pub open spec fn section_of(ls: Seq<Seq<char>>, def_start: int) -> (int, int) {
    match last_heading_before(ls, def_start) {
        Some(i) => (i, next_break(ls, def_start + 1, heading_of(ls[i])->0)),
        None => (0, next_break(ls, def_start + 1, 1)),
    }
}

fn find_heading_above(lines: &[&str], k: usize) -> (r: Option<(usize, usize)>)
    requires
        k <= lines.len(),
    ensures
        match r {
            Some((i, lv)) => last_heading_before(strs(lines@), k as int) == Some(i as int)
                && heading_of(strs(lines@)[i as int]) == Some(lv as nat),
            None => last_heading_before(strs(lines@), k as int) is None,
        },
{
    let mut i = k;
    while i > 0
        invariant
            i <= k <= lines.len(),
            last_heading_before(strs(lines@), k as int) == last_heading_before(strs(lines@), i as int),
        decreases i,
    {
        assert(strs(lines@)[i - 1] == lines@[i - 1]@);
        match heading_level(lines[i - 1]) {
            Some(lv) => {
                return Some((i - 1, lv));
            },
            None => {},
        }
        i = i - 1;
    }
    None
}

fn find_break(lines: &[&str], j0: usize, level: usize) -> (r: usize)
    requires
        j0 <= lines.len(),
    ensures
        r as int == next_break(strs(lines@), j0 as int, level as nat),
{
    let n = lines.len();
    let mut j = j0;
    while j < n
        invariant
            j0 <= j <= n,
            n == lines.len(),
            next_break(strs(lines@), j0 as int, level as nat) == next_break(strs(lines@), j as int, level as nat),
        decreases n - j,
    {
        assert(strs(lines@)[j as int] == lines@[j as int]@);
        match heading_level(lines[j]) {
            Some(h) => {
                if h <= level {
                    return j;
                }
            },
            None => {},
        }
        j = j + 1;
    }
    n
}

/// The `(start, end)` range (0-based, end exclusive) of the section that
/// holds line `def_start`: it starts at the nearest heading above (or at the
/// top) and ends before the next heading of the same or a shallower depth.
pub fn section_range(lines: &[&str], def_start: usize) -> (r: (usize, usize))
    requires
        def_start <= lines.len(),
    ensures
        (r.0 as int, r.1 as int) == section_of(strs(lines@), def_start as int),
{
    let (sec_start, sec_level) = match find_heading_above(lines, def_start) {
        Some(p) => p,
        None => (0, 1),
    };
    let n = lines.len();
    let j0 = if def_start < n { def_start + 1 } else { n };
    let end = find_break(lines, j0, sec_level);
    (sec_start, end)
}

// ── title trail ──────────────────────────────────────────────────────────

/// The title of a heading of depth `level`.
pub open spec fn title_of(line: Seq<char>, level: nat) -> Seq<char> {
    trim(line.skip((level + 1) as int))
}

/// The entries of `c` of depth below `level`, in order.
pub open spec fn keep_below(c: Seq<(nat, Seq<char>)>, level: nat) -> Seq<(nat, Seq<char>)>
    decreases c.len(),
{
    if c.len() == 0 {
        c
    } else if c.last().0 < level {
        keep_below(c.drop_last(), level).push(c.last())
    } else {
        keep_below(c.drop_last(), level)
    }
}

/// The open headings after the first `n` lines: each heading closes those
/// of the same or a greater depth.
pub open spec fn chain_of(ls: Seq<Seq<char>>, n: int) -> Seq<(nat, Seq<char>)>
    decreases n,
{
    if n <= 0 {
        seq![]
    } else {
        let c = chain_of(ls, n - 1);
        match heading_of(ls[n - 1]) {
            Some(lv) => keep_below(c, lv).push((lv, title_of(ls[n - 1], lv))),
            None => c,
        }
    }
}

pub open spec fn chain_view(v: Seq<(usize, Vec<char>)>) -> Seq<(nat, Seq<char>)> {
    v.map_values(|p: (usize, Vec<char>)| (p.0 as nat, p.1@))
}

/// The titles of the headings that enclose line `def_start`, outermost first.
pub fn title_chain(lines: &[&str], def_start: usize) -> (r: Vec<String>)
    ensures
        r@.map_values(|s: String| s@) == chain_of(
            strs(lines@),
            if def_start <= lines.len() { def_start as int } else { lines.len() as int },
        ).map_values(|p: (nat, Seq<char>)| p.1),
{
    let ghost ls = strs(lines@);
    let stop = if def_start <= lines.len() { def_start } else { lines.len() };
    let mut chain: Vec<(usize, Vec<char>)> = Vec::new();
    let mut i: usize = 0;
    while i < stop
        invariant
            i <= stop <= lines.len(),
            ls == strs(lines@),
            chain_view(chain@) == chain_of(ls, i as int),
        decreases stop - i,
    {
        match heading_level(lines[i]) {
            Some(level) => {
                let s = chars_of(lines[i]);
                proof {
                    lemma_trim_end_take(s@);
                    lemma_ws_tail_start(s@);
                }
                let rest = sub_chars(s.as_slice(), level + 1, s.len());
                let title = trim_chars(rest.as_slice());
                assert(rest@ =~= s@.skip(level + 1));
                let mut kept: Vec<(usize, Vec<char>)> = Vec::new();
                let mut j: usize = 0;
                while j < chain.len()
                    invariant
                        j <= chain.len(),
                        chain_view(kept@) == keep_below(chain_view(chain@).take(j as int), level as nat),
                    decreases chain.len() - j,
                {
                    let ghost pre = chain_view(chain@).take(j as int);
                    assert(chain_view(chain@).take(j + 1).drop_last() =~= pre);
                    if chain[j].0 < level {
                        let entry = (chain[j].0, chain[j].1.clone());
                        assert(entry.1@ =~= chain@[j as int].1@);
                        let ghost before = chain_view(kept@);
                        kept.push(entry);
                        assert(chain_view(kept@) =~= before.push(chain_view(chain@)[j as int]));
                    }
                    j = j + 1;
                }
                assert(chain_view(chain@).take(chain.len() as int) =~= chain_view(chain@));
                let ghost before = chain_view(kept@);
                kept.push((level, title));
                assert(chain_view(kept@) =~= before.push((level as nat, title_of(ls[i as int], level as nat))));
                chain = kept;
            },
            None => {},
        }
        i = i + 1;
    }
    let mut r: Vec<String> = Vec::new();
    let mut k: usize = 0;
    while k < chain.len()
        invariant
            k <= chain.len(),
            r@.map_values(|s: String| s@) == chain_view(chain@).take(k as int).map_values(
                |p: (nat, Seq<char>)| p.1,
            ),
        decreases chain.len() - k,
    {
        let ghost before = r@.map_values(|s: String| s@);
        r.push(string_of(chain[k].1.as_slice()));
        assert(r@.map_values(|s: String| s@) =~= before.push(chain@[k as int].1@));
        assert(chain_view(chain@).take(k + 1).map_values(|p: (nat, Seq<char>)| p.1) =~= chain_view(
            chain@,
        ).take(k as int).map_values(|p: (nat, Seq<char>)| p.1).push(chain@[k as int].1@));
        k = k + 1;
    }
    assert(chain_view(chain@).take(chain.len() as int) =~= chain_view(chain@));
    r
}

// ── prose ────────────────────────────────────────────────────────────────

/// A listing fence `----`.
pub open spec fn is_fence(t: Seq<char>) -> bool {
    t == seq!['-', '-', '-', '-']
}

/// A chunk header in a line comment: starts with `// <<` and ends with `>>=`.
pub open spec fn opens_chunk(t: Seq<char>) -> bool {
    &&& t.len() >= 5
    &&& t.take(5) == seq!['/', '/', ' ', '<', '<']
    &&& t.len() >= 3
    &&& t.skip(t.len() - 3) == seq!['>', '>', '=']
}

/// A chunk closing marker in a line comment: `// @`.
pub open spec fn closes_chunk(t: Seq<char>) -> bool {
    t == seq!['/', '/', ' ', '@']
}

/// After the lines `ls`: whether a fence is open, whether a chunk body is
/// open, and the prose lines kept so far.
pub open spec fn prose_run(ls: Seq<Seq<char>>) -> (bool, bool, Seq<Seq<char>>)
    decreases ls.len(),
{
    if ls.len() == 0 {
        (false, false, seq![])
    } else {
        let (f, c, out) = prose_run(ls.drop_last());
        let l = ls.last();
        let t = trim(l);
        if is_fence(t) {
            (!f, c, out)
        } else if opens_chunk(t) {
            (f, true, out)
        } else if closes_chunk(t) {
            (f, false, out)
        } else if !f && !c {
            (f, c, out.push(l))
        } else {
            (f, c, out)
        }
    }
}

/// A line that is empty after trimming.
pub open spec fn blank(l: Seq<char>) -> bool {
    trim(l).len() == 0
}

pub open spec fn drop_lead_blank(s: Seq<Seq<char>>) -> Seq<Seq<char>>
    decreases s.len(),
{
    if s.len() > 0 && blank(s[0]) {
        drop_lead_blank(s.drop_first())
    } else {
        s
    }
}

pub open spec fn drop_trail_blank(s: Seq<Seq<char>>) -> Seq<Seq<char>>
    decreases s.len(),
{
    if s.len() > 0 && blank(s.last()) {
        drop_trail_blank(s.drop_last())
    } else {
        s
    }
}

/// The lines `ls[start..end]` (with `end` cut to the number of lines).
pub open spec fn window(ls: Seq<Seq<char>>, start: int, end: int) -> Seq<Seq<char>> {
    let e = if end <= ls.len() { end } else { ls.len() as int };
    if start < e {
        ls.subrange(start, e)
    } else {
        seq![]
    }
}

/// What [`extract_prose`] returns.
pub open spec fn prose_of(ls: Seq<Seq<char>>, start: int, end: int) -> Seq<char> {
    join_lines(drop_trail_blank(drop_lead_blank(prose_run(window(ls, start, end)).2)))
}

fn is_blank_line(l: &[char]) -> (b: bool)
    ensures
        b == blank(l@),
{
    let t = trim_chars(l);
    t.len() == 0
}

/// Whether a trimmed line is a fence, a chunk header or a closing marker.
fn classify(t: &[char]) -> (r: (bool, bool, bool))
    ensures
        r.0 == is_fence(t@),
        r.1 == opens_chunk(t@),
        r.2 == closes_chunk(t@),
{
    let n = t.len();
    let fence = n == 4 && t[0] == '-' && t[1] == '-' && t[2] == '-' && t[3] == '-';
    let open = n >= 5 && t[0] == '/' && t[1] == '/' && t[2] == ' ' && t[3] == '<' && t[4] == '<'
        && t[n - 3] == '>' && t[n - 2] == '>' && t[n - 1] == '=';
    let close = n == 4 && t[0] == '/' && t[1] == '/' && t[2] == ' ' && t[3] == '@';
    proof {
        if fence {
            assert(t@ =~= seq!['-', '-', '-', '-']);
        } else if is_fence(t@) {
            assert(t@[0] == '-' && t@[1] == '-' && t@[2] == '-' && t@[3] == '-');
        }
        if open {
            assert(t@.take(5) =~= seq!['/', '/', ' ', '<', '<']);
            assert(t@.skip(n - 3) =~= seq!['>', '>', '=']);
        } else if opens_chunk(t@) {
            assert(t@.take(5)[0] == '/' && t@.take(5)[1] == '/' && t@.take(5)[2] == ' '
                && t@.take(5)[3] == '<' && t@.take(5)[4] == '<');
            assert(t@.skip(n - 3)[0] == '>' && t@.skip(n - 3)[1] == '>' && t@.skip(n - 3)[2] == '=');
        }
        if close {
            assert(t@ =~= seq!['/', '/', ' ', '@']);
        } else if closes_chunk(t@) {
            assert(t@[0] == '/' && t@[1] == '/' && t@[2] == ' ' && t@[3] == '@');
        }
    }
    (fence, open, close)
}

/// The index of the first line of `ls` that is not blank.
fn first_non_blank(ls: &[Vec<char>]) -> (a: usize)
    ensures
        a <= ls.len(),
        drop_lead_blank(views(ls@)) == views(ls@).skip(a as int),
{
    let ghost o = views(ls@);
    let n = ls.len();
    let mut a: usize = 0;
    assert(o.skip(0) =~= o);
    while a < n && is_blank_line(ls[a].as_slice())
        invariant
            a <= n == ls.len(),
            o == views(ls@),
            drop_lead_blank(o) == drop_lead_blank(o.skip(a as int)),
        decreases n - a,
    {
        assert(o.skip(a as int).drop_first() =~= o.skip(a + 1));
        a = a + 1;
    }
    a
}

/// The end of `ls[a..]` once its trailing blank lines are dropped.
fn last_non_blank(ls: &[Vec<char>], a: usize) -> (b: usize)
    requires
        a <= ls.len(),
    ensures
        a <= b <= ls.len(),
        drop_trail_blank(views(ls@).skip(a as int)) == views(ls@).subrange(a as int, b as int),
{
    let ghost o = views(ls@);
    let n = ls.len();
    let mut b = n;
    assert(o.skip(a as int).take((b - a) as int) =~= o.skip(a as int));
    while b > a && is_blank_line(ls[b - 1].as_slice())
        invariant
            a <= b <= n == ls.len(),
            o == views(ls@),
            drop_trail_blank(o.skip(a as int)) == drop_trail_blank(o.skip(a as int).take((b - a) as int)),
        decreases b,
    {
        assert(o.skip(a as int).take((b - a) as int).drop_last() =~= o.skip(a as int).take(
            (b - 1 - a) as int,
        ));
        b = b - 1;
    }
    assert(o.skip(a as int).take((b - a) as int) =~= o.subrange(a as int, b as int));
    b
}

/// The prose of `lines[start..end]`: the lines outside `----` listing fences
/// and outside `// <<name>>=` … `// @` chunk bodies (the fence and marker
/// lines themselves dropped), without blank lines at either end, joined with
/// `\n`.
pub fn extract_prose(lines: &[&str], start: usize, end: usize) -> (r: String)
    ensures
        r@ == prose_of(strs(lines@), start as int, end as int),
{
    let ghost ls = strs(lines@);
    let e = if end <= lines.len() { end } else { lines.len() };
    let mut in_fence = false;
    let mut in_chunk = false;
    let mut out: Vec<Vec<char>> = Vec::new();
    let mut i = start;
    let ghost w = window(ls, start as int, end as int);
    if start < e {
        assert(ls.subrange(start as int, start as int) =~= Seq::<Seq<char>>::empty());
        while i < e
            invariant
                start <= i <= e <= lines.len(),
                ls == strs(lines@),
                w == ls.subrange(start as int, e as int),
                prose_run(ls.subrange(start as int, i as int)) == (in_fence, in_chunk, views(out@)),
            decreases e - i,
        {
            let ghost pre = ls.subrange(start as int, i as int);
            assert(ls.subrange(start as int, i + 1).drop_last() =~= pre);
            assert(ls.subrange(start as int, i + 1).last() == lines@[i as int]@);
            let l = chars_of(lines[i]);
            let t = trim_chars(l.as_slice());
            let (fence, open, close) = classify(t.as_slice());
            if fence {
                in_fence = !in_fence;
            } else if open {
                in_chunk = true;
            } else if close {
                in_chunk = false;
            } else if !in_fence && !in_chunk {
                let ghost before = views(out@);
                out.push(l);
                assert(views(out@) =~= before.push(lines@[i as int]@));
            }
            i = i + 1;
        }
    } else {
        assert(w =~= Seq::<Seq<char>>::empty());
        assert(views(out@) =~= Seq::<Seq<char>>::empty());
    }
    let a = first_non_blank(out.as_slice());
    let b = last_non_blank(out.as_slice(), a);
    let joined = join_range(out.as_slice(), a, b);
    string_of(joined.as_slice())
}


// ── the context of a chunk ───────────────────────────────────────────────

/// What the assistant is told of a chunk definition: its body, the titles
/// of the headings above it and the prose of its section.
pub struct ChunkContext {
    pub body: String,
    pub title_chain: Vec<String>,
    pub section_prose: String,
}

/// The body of the definition whose opening line is `def_start` and whose
/// chunk-end marker is on line `def_end` (both 1-based): the lines between
/// them joined with `\n`; empty when the range leaves the text.
pub open spec fn context_body(ls: Seq<Seq<char>>, def_start: int, def_end: int) -> Seq<char> {
    if def_start < ls.len() && def_end <= ls.len() && def_end > 0 {
        join_lines(ls.subrange(def_start, def_end - 1))
    } else {
        seq![]
    }
}

/// The body of the definition at lines `def_start..def_end` (1-based, as
/// recorded for the chunk) of the source whose lines are `lines`; empty
/// when the range leaves the text.
pub fn definition_body(lines: &[&str], def_start: usize, def_end: usize) -> (r: String)
    requires
        def_start < lines.len() && def_end <= lines.len() && def_end > 0 ==> def_start < def_end,
    ensures
        r@ == context_body(strs(lines@), def_start as int, def_end as int),
{
    let n = lines.len();
    if def_start < n && def_end <= n && def_end > 0 {
        let mut ls: Vec<Vec<char>> = Vec::new();
        let mut i: usize = 0;
        while i < n
            invariant
                i <= n == lines.len(),
                views(ls@) == strs(lines@).take(i as int),
            decreases n - i,
        {
            let ghost before = views(ls@);
            ls.push(chars_of(lines[i]));
            assert(views(ls@) =~= before.push(lines@[i as int]@));
            assert(strs(lines@).take(i + 1) =~= strs(lines@).take(i as int).push(lines@[i as int]@));
            i = i + 1;
        }
        assert(strs(lines@).take(n as int) =~= strs(lines@));
        let b = join_range(ls.as_slice(), def_start, def_end - 1);
        string_of(b.as_slice())
    } else {
        String::new()
    }
}

/// The context of the definition at lines `def_start..def_end` (1-based,
/// as recorded for the chunk) of the source whose lines are `lines`.
pub fn chunk_context(lines: &[&str], def_start: usize, def_end: usize) -> (r: ChunkContext)
    requires
        def_start <= lines.len(),
        def_start < lines.len() && def_end <= lines.len() && def_end > 0 ==> def_start < def_end,
    ensures
        r.body@ == context_body(strs(lines@), def_start as int, def_end as int),
        r.title_chain@.map_values(|s: String| s@) == chain_of(strs(lines@), def_start as int).map_values(
            |p: (nat, Seq<char>)| p.1,
        ),
        r.section_prose@ == prose_of(
            strs(lines@),
            section_of(strs(lines@), def_start as int).0,
            section_of(strs(lines@), def_start as int).1,
        ),
{
    let body = definition_body(lines, def_start, def_end);
    let title_chain = title_chain(lines, def_start);
    let (sec_start, sec_end) = section_range(lines, def_start);
    let section_prose = extract_prose(lines, sec_start, sec_end);
    ChunkContext { body, title_chain, section_prose }
}

// ── laws ─────────────────────────────────────────────────────────────────

proof fn lemma_last_heading_before(ls: Seq<Seq<char>>, k: int)
    ensures
        last_heading_before(ls, k) matches Some(i) ==> 0 <= i < k && heading_of(ls[i]) is Some,
    decreases k,
{
    if k > 0 {
        lemma_last_heading_before(ls, k - 1);
    }
}

proof fn lemma_next_break_bounds(ls: Seq<Seq<char>>, j: int, level: nat)
    requires
        0 <= j,
    ensures
        next_break(ls, j, level) >= (if j <= ls.len() { j } else { ls.len() as int }),
        next_break(ls, j, level) <= ls.len(),
    decreases ls.len() - j,
{
    if j < ls.len() {
        lemma_next_break_bounds(ls, j + 1, level);
    }
}

/// Law: the section found for a line holds that line, starts at a heading
/// (or at the top) and ends within the text.
pub proof fn law_section_holds_its_line(ls: Seq<Seq<char>>, def_start: int)
    requires
        0 <= def_start < ls.len(),
    ensures
        ({
            let (a, b) = section_of(ls, def_start);
            &&& 0 <= a <= def_start < b <= ls.len()
            &&& (a > 0 ==> heading_of(ls[a]) is Some)
        }),
{
    lemma_last_heading_before(ls, def_start);
    match last_heading_before(ls, def_start) {
        Some(i) => lemma_next_break_bounds(ls, def_start + 1, heading_of(ls[i])->0),
        None => lemma_next_break_bounds(ls, def_start + 1, 1),
    }
}

} // verus!
