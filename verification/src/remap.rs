//! Carrying the line map of a generated file over a formatter's rewrite.
//!
//! Before formatting, line `i` of the file came from `entries[i]`.  After
//! the formatter ran, each line of the new text gets an origin in three
//! tiers: lines the line diff keeps equal keep their entry (`Exact`); a
//! line whose normalised text and neighbours match an old line of a single
//! chunk takes the nearest unused such line's entry (`HashMatch`); every
//! other line takes the entry of the nearest placed line before it, or else
//! after it (`Inferred`).
use vstd::prelude::*;
use similar::ChangeTag;
use crate::store::{Confidence, EntryView, NowebMapEntry};
use crate::text::{
    chars_eq, chars_of, lemma_trim_end_take, lemma_ws_tail_start, lines, split_lines, string_of,
    sub_chars, trim, trim_chars, trim_end, views, ws_tail,
};

verus! {

// ── normalised lines ─────────────────────────────────────────────────────

/// The first position from `i` on where `//` starts.
pub open spec fn slashes_from(t: Seq<char>, i: int) -> Option<int>
    decreases t.len() - i,
{
    if i < 0 || i + 1 >= t.len() {
        None
    } else if t[i] == '/' && t[i + 1] == '/' {
        Some(i)
    } else {
        slashes_from(t, i + 1)
    }
}

/// A line as it is compared: trimmed, and cut before a `//` comment.
pub open spec fn norm_line(l: Seq<char>) -> Seq<char> {
    let t = trim(l);
    match slashes_from(t, 0) {
        Some(p) => trim_end(t.take(p)),
        None => t,
    }
}

fn trim_end_of(s: &[char]) -> (r: Vec<char>)
    ensures
        r@ == trim_end(s@),
{
    let k = ws_tail(s);
    proof {
        lemma_trim_end_take(s@);
        lemma_ws_tail_start(s@);
    }
    let r = sub_chars(s, 0, k);
    assert(r@ =~= s@.take(k as int));
    r
}

fn norm_chars(l: &[char]) -> (r: Vec<char>)
    ensures
        r@ == norm_line(l@),
{
    let t = trim_chars(l);
    let mut i: usize = 0;
    while i < t.len() && t.len() - i > 1
        invariant
            i <= t.len(),
            t@ == trim(l@),
            slashes_from(t@, 0) == slashes_from(t@, i as int),
        decreases t.len() - i,
    {
        if t[i] == '/' && t[i + 1] == '/' {
            assert(slashes_from(t@, i as int) == Some(i as int));
            let head = sub_chars(t.as_slice(), 0, i);
            assert(head@ =~= t@.take(i as int));
            let r = trim_end_of(head.as_slice());
            assert(t@ == trim(l@));
            assert(norm_line(l@) == trim_end(t@.take(i as int)));
            return r;
        }
        i = i + 1;
    }
    t
}

/// A line without surrounding whitespace and without a trailing `//`
/// comment, for matching lines by content.
pub fn normalise_for_hash(line: &str) -> (r: String)
    ensures
        r@ == norm_line(line@),
{
    let l = chars_of(line);
    let n = norm_chars(l.as_slice());
    string_of(n.as_slice())
}

// ── the line diff ────────────────────────────────────────────────────────

/// What the line diff says of one line.
#[derive(Clone, Copy, Debug, PartialEq, Eq, Structural)]
pub enum DiffTag {
    Equal,
    Delete,
    Insert,
}

/// The changes of the line diff of two texts, in order.
pub uninterp spec fn line_diff_tags(old: Seq<char>, new: Seq<char>) -> Seq<DiffTag>;

/// The tags of `similar::TextDiff::from_lines(old, new).iter_all_changes()`
/// (Myers' algorithm, no deadline), named by `line_diff_tags`.
#[verifier::external_body]
fn diff_line_tags(old: &str, new: &str) -> (r: Vec<DiffTag>)
    ensures
        r@ == line_diff_tags(old@, new@),
{
    similar::TextDiff::from_lines(old, new).iter_all_changes().map(|c| match c.tag() {
        ChangeTag::Equal => DiffTag::Equal,
        ChangeTag::Delete => DiffTag::Delete,
        ChangeTag::Insert => DiffTag::Insert,
    }).collect()
}

/// Walking the changes: the old and new line reached, and for each of the
/// `n` old lines the new line it stays equal to.
pub open spec fn diff_walk(tags: Seq<DiffTag>, n: int) -> (int, int, Seq<Option<int>>)
    decreases tags.len(),
{
    if tags.len() == 0 {
        (0, 0, Seq::new(n as nat, |i: int| None))
    } else {
        let (o, w, m) = diff_walk(tags.drop_last(), n);
        match tags.last() {
            DiffTag::Equal => (o + 1, w + 1, if o < n { m.update(o, Some(w)) } else { m }),
            DiffTag::Delete => (o + 1, w, m),
            DiffTag::Insert => (o, w + 1, m),
        }
    }
}

// ── the three tiers ──────────────────────────────────────────────────────

/// An entry with another confidence.
pub open spec fn with_conf(e: EntryView, c: Confidence) -> EntryView {
    EntryView { confidence: c, ..e }
}

/// Tier 1 after the first `k` entries: each entry whose old line stays
/// equal goes to that new line.
pub open spec fn tier1(m: Seq<Option<int>>, ents: Seq<EntryView>, count: int, k: int) -> Seq<Option<EntryView>>
    decreases k,
{
    if k <= 0 {
        Seq::new(count as nat, |i: int| None)
    } else {
        let s = tier1(m, ents, count, k - 1);
        let o = k - 1;
        if o < m.len() && m[o] is Some && m[o]->0 < count {
            s.update(m[o]->0, Some(ents[o]))
        } else {
            s
        }
    }
}

/// A normalised line too short to match by content (at most one byte).
pub open spec fn short(s: Seq<char>) -> bool {
    s.len() == 0 || (s.len() == 1 && (s[0] as u32) < 128)
}

/// The context of line `i`: the lines before it, itself and after it.
pub open spec fn key_at(ls: Seq<Seq<char>>, i: int) -> (Seq<char>, Seq<char>, Seq<char>) {
    (
        if i > 0 { ls[i - 1] } else { seq![] },
        ls[i],
        if i + 1 < ls.len() { ls[i + 1] } else { seq![] },
    )
}

/// The old lines among the first `n` whose context is `k`, in order.
pub open spec fn cands(pn: Seq<Seq<char>>, k: (Seq<char>, Seq<char>, Seq<char>), n: int) -> Seq<int>
    decreases n,
{
    if n <= 0 {
        seq![]
    } else {
        let c = cands(pn, k, n - 1);
        if !short(pn[n - 1]) && key_at(pn, n - 1) == k {
            c.push(n - 1)
        } else {
            c
        }
    }
}

/// A context is usable when some old line has it and all such lines come
/// from one chunk.
pub open spec fn usable(c: Seq<int>, ents: Seq<EntryView>) -> bool {
    c.len() > 0 && forall|t: int| 0 <= t < c.len() ==> (#[trigger] ents[c[t]]).chunk_name == ents[c[0]].chunk_name
}

pub open spec fn dist(a: int, b: int) -> int {
    if a >= b { a - b } else { b - a }
}

/// The unclaimed candidate nearest to new line `ni`, the first on a tie.
pub open spec fn best(c: Seq<int>, claimed: Set<int>, ni: int) -> Option<int>
    decreases c.len(),
{
    if c.len() == 0 {
        None
    } else {
        let b = best(c.drop_last(), claimed, ni);
        let x = c.last();
        if claimed.contains(x) {
            b
        } else {
            match b {
                None => Some(x),
                Some(y) => if dist(ni, x) < dist(ni, y) { Some(x) } else { Some(y) },
            }
        }
    }
}

/// Tier 2 over the first `k` new lines: the claimed old lines and the slots.
pub open spec fn tier2(
    slots: Seq<Option<EntryView>>,
    claimed: Set<int>,
    pn: Seq<Seq<char>>,
    qn: Seq<Seq<char>>,
    ents: Seq<EntryView>,
    k: int,
) -> (Set<int>, Seq<Option<EntryView>>)
    decreases k,
{
    if k <= 0 {
        (claimed, slots)
    } else {
        let (cl, s) = tier2(slots, claimed, pn, qn, ents, k - 1);
        let ni = k - 1;
        if s[ni] is Some || short(qn[ni]) {
            (cl, s)
        } else {
            let c = cands(pn, key_at(qn, ni), pn.len() as int);
            if usable(c, ents) {
                match best(c, cl, ni) {
                    Some(o) => (cl.insert(o), s.update(ni, Some(with_conf(ents[o], Confidence::HashMatch)))),
                    None => (cl, s),
                }
            } else {
                (cl, s)
            }
        }
    }
}

/// The entry of the nearest placed slot before `i`.
pub open spec fn last_before(s: Seq<Option<EntryView>>, i: int) -> Option<EntryView>
    decreases i,
{
    if i <= 0 {
        None
    } else if s[i - 1] is Some {
        s[i - 1]
    } else {
        last_before(s, i - 1)
    }
}

/// The entry of the nearest placed slot at or after `i`.
pub open spec fn first_from(s: Seq<Option<EntryView>>, i: int) -> Option<EntryView>
    decreases s.len() - i,
{
    if i < 0 || i >= s.len() {
        None
    } else if s[i] is Some {
        s[i]
    } else {
        first_from(s, i + 1)
    }
}

/// Tier 3: an empty slot takes the nearest placed entry before it, or else
/// after it, as inferred.
pub open spec fn tier3(s: Seq<Option<EntryView>>) -> Seq<Option<EntryView>> {
    Seq::new(
        s.len(),
        |i: int|
            if s[i] is Some {
                s[i]
            } else {
                match last_before(s, i) {
                    Some(e) => Some(with_conf(e, Confidence::Inferred)),
                    None => match first_from(s, i) {
                        Some(e) => Some(with_conf(e, Confidence::Inferred)),
                        None => None,
                    },
                }
            },
    )
}

/// The placed slots with their line numbers.
pub open spec fn placed(s: Seq<Option<EntryView>>) -> Seq<(u32, EntryView)>
    decreases s.len(),
{
    if s.len() == 0 {
        seq![]
    } else {
        let r = placed(s.drop_last());
        match s.last() {
            Some(e) => r.push(((s.len() - 1) as u32, e)),
            None => r,
        }
    }
}

/// The claimed old lines after tier 1: those the diff keeps.
pub open spec fn claimed1(m: Seq<Option<int>>) -> Set<int> {
    Set::new(|i: int| 0 <= i < m.len() && m[i] is Some)
}

/// The new line map of a formatted file.
pub open spec fn remap_spec(pre: Seq<Seq<char>>, post: Seq<char>, ents: Seq<EntryView>) -> Seq<(u32, EntryView)> {
    let pn = pre.map_values(|l: Seq<char>| norm_line(l));
    let ql = lines(post);
    let qn = ql.map_values(|l: Seq<char>| norm_line(l));
    let count = ql.len() as int;
    let m = diff_walk(line_diff_tags(pre.fold_left(seq![], |acc: Seq<char>, l: Seq<char>| acc + l), post), pre.len() as int).2;
    let s1 = tier1(m, ents, count, ents.len() as int);
    let s2 = tier2(s1, claimed1(m), pn, qn, ents, count).1;
    placed(tier3(s2))
}

pub open spec fn entry_views(v: Seq<NowebMapEntry>) -> Seq<EntryView> {
    v.map_values(|e: NowebMapEntry| e@)
}

pub open spec fn opt_views(v: Seq<Option<NowebMapEntry>>) -> Seq<Option<EntryView>> {
    v.map_values(|o: Option<NowebMapEntry>| match o {
        Some(e) => Some(e@),
        None => None,
    })
}

pub open spec fn opt_ints(v: Seq<Option<usize>>) -> Seq<Option<int>> {
    v.map_values(|o: Option<usize>| match o {
        Some(w) => Some(w as int),
        None => None,
    })
}

fn key_eq(pn: &Vec<Vec<char>>, i: usize, qn: &Vec<Vec<char>>, j: usize) -> (b: bool)
    requires
        i < pn.len(),
        j < qn.len(),
    ensures
        b == (key_at(views(pn@), i as int) == key_at(views(qn@), j as int)),
{
    let ghost a = key_at(views(pn@), i as int);
    let ghost b = key_at(views(qn@), j as int);
    if !chars_eq(pn[i].as_slice(), qn[j].as_slice()) {
        return false;
    }
    let e: Vec<char> = Vec::new();
    let pa = if i > 0 { &pn[i - 1] } else { &e };
    let qa = if j > 0 { &qn[j - 1] } else { &e };
    assert(pa@ == a.0 && qa@ == b.0);
    if !chars_eq(pa.as_slice(), qa.as_slice()) {
        return false;
    }
    let pz = if i + 1 < pn.len() { &pn[i + 1] } else { &e };
    let qz = if j + 1 < qn.len() { &qn[j + 1] } else { &e };
    assert(pz@ == a.2 && qz@ == b.2);
    chars_eq(pz.as_slice(), qz.as_slice())
}

fn is_short(s: &Vec<char>) -> (b: bool)
    ensures
        b == short(s@),
{
    s.len() == 0 || (s.len() == 1 && (s[0] as u32) < 128)
}

fn with_confidence(e: &NowebMapEntry, c: Confidence) -> (r: NowebMapEntry)
    ensures
        r@ == with_conf(e@, c),
{
    let mut r = e.duplicate();
    r.confidence = c;
    r
}

/// The candidates of new line `j` among the old lines.
fn candidates(pn: &Vec<Vec<char>>, qn: &Vec<Vec<char>>, j: usize) -> (c: Vec<usize>)
    requires
        j < qn.len(),
    ensures
        c@.map_values(|x: usize| x as int) == cands(views(pn@), key_at(views(qn@), j as int), pn.len() as int),
        forall|t: int| 0 <= t < c@.len() ==> c@[t] < pn.len(),
{
    let ghost k = key_at(views(qn@), j as int);
    let mut c: Vec<usize> = Vec::new();
    let mut i: usize = 0;
    while i < pn.len()
        invariant
            i <= pn.len(),
            j < qn.len(),
            k == key_at(views(qn@), j as int),
            c@.map_values(|x: usize| x as int) == cands(views(pn@), k, i as int),
            forall|t: int| 0 <= t < c@.len() ==> c@[t] < i,
        decreases pn.len() - i,
    {
        assert(views(pn@)[i as int] == pn@[i as int]@);
        if !is_short(&pn[i]) && key_eq(pn, i, qn, j) {
            let ghost before = c@.map_values(|x: usize| x as int);
            c.push(i);
            assert(c@.map_values(|x: usize| x as int) =~= before.push(i as int));
        }
        i = i + 1;
    }
    c
}

/// Tier 2's choice for new line `ni`, if any.
fn choose_old(c: &Vec<usize>, entries: &Vec<NowebMapEntry>, claimed: &Vec<bool>, ni: usize) -> (r: Option<usize>)
    requires
        forall|t: int| 0 <= t < c@.len() ==> c@[t] < claimed@.len() && c@[t] < entries@.len(),
    ensures
        usable(c@.map_values(|x: usize| x as int), entry_views(entries@)) ==> match r {
            Some(o) => best(c@.map_values(|x: usize| x as int), Set::new(|i: int| 0 <= i < claimed@.len() && claimed@[i]), ni as int) == Some(o as int),
            None => best(c@.map_values(|x: usize| x as int), Set::new(|i: int| 0 <= i < claimed@.len() && claimed@[i]), ni as int) is None,
        },
        !usable(c@.map_values(|x: usize| x as int), entry_views(entries@)) ==> r is None,
        r matches Some(o) ==> o < claimed@.len() && o < entries@.len(),
{
    let ghost cv = c@.map_values(|x: usize| x as int);
    let ghost ev = entry_views(entries@);
    let ghost cl = Set::new(|i: int| 0 <= i < claimed@.len() && claimed@[i]);
    if c.len() == 0 {
        return None;
    }
    let first = &entries[c[0]].chunk_name;
    let mut t: usize = 0;
    while t < c.len()
        invariant
            t <= c.len(),
            c.len() > 0,
            cv == c@.map_values(|x: usize| x as int),
            ev == entry_views(entries@),
            forall|u: int| 0 <= u < c@.len() ==> c@[u] < claimed@.len() && c@[u] < entries@.len(),
            first@ == ev[cv[0]].chunk_name,
            forall|u: int| 0 <= u < t ==> (#[trigger] ev[cv[u]]).chunk_name == ev[cv[0]].chunk_name,
        decreases c.len() - t,
    {
        assert(ev[cv[t as int]] == entries@[c@[t as int] as int]@);
        if entries[c[t]].chunk_name != *first {
            assert(!usable(cv, ev));
            return None;
        }
        t = t + 1;
    }
    assert(usable(cv, ev));
    let mut b: Option<usize> = None;
    let mut u: usize = 0;
    assert(cv.take(0) =~= Seq::<int>::empty());
    while u < c.len()
        invariant
            u <= c.len(),
            cv == c@.map_values(|x: usize| x as int),
            cl == Set::new(|i: int| 0 <= i < claimed@.len() && claimed@[i]),
            forall|w: int| 0 <= w < c@.len() ==> c@[w] < claimed@.len() && c@[w] < entries@.len(),
            match b {
                Some(o) => best(cv.take(u as int), cl, ni as int) == Some(o as int) && o < claimed@.len() && o < entries@.len(),
                None => best(cv.take(u as int), cl, ni as int) is None,
            },
        decreases c.len() - u,
    {
        assert(cv.take(u + 1).drop_last() =~= cv.take(u as int));
        assert(cv.take(u + 1).last() == c@[u as int] as int);
        let x = c[u];
        if !claimed[x] {
            match b {
                None => {
                    b = Some(x);
                },
                Some(y) => {
                    let dx = if ni >= x { ni - x } else { x - ni };
                    let dy = if ni >= y { ni - y } else { y - ni };
                    if dx < dy {
                        b = Some(x);
                    }
                },
            }
        }
        u = u + 1;
    }
    assert(cv.take(c.len() as int) =~= cv);
    b
}

/// The new line map of a file that a formatter rewrote: `pre_lines` are the
/// lines before formatting, `post_content` the text after it, and
/// `entries[i]` the origin of `pre_lines[i]`.
pub fn remap_noweb_entries(pre_lines: &[String], post_content: &str, entries: Vec<NowebMapEntry>) -> (r: Vec<(u32, NowebMapEntry)>)
    requires
        pre_lines@.len() <= entries@.len(),
    ensures
        r@.map_values(|p: (u32, NowebMapEntry)| (p.0, p.1@)) == remap_spec(
            pre_lines@.map_values(|s: String| s@),
            post_content@,
            entry_views(entries@),
        ),
{
    let ghost pre = pre_lines@.map_values(|s: String| s@);
    let ghost ev = entry_views(entries@);
    // Normalised lines on both sides.
    let mut pn: Vec<Vec<char>> = Vec::new();
    let mut i: usize = 0;
    while i < pre_lines.len()
        invariant
            i <= pre_lines.len(),
            pre == pre_lines@.map_values(|s: String| s@),
            views(pn@) == pre.take(i as int).map_values(|l: Seq<char>| norm_line(l)),
        decreases pre_lines.len() - i,
    {
        let l = chars_of(pre_lines[i].as_str());
        let ghost before = views(pn@);
        pn.push(norm_chars(l.as_slice()));
        assert(views(pn@) =~= before.push(norm_line(pre[i as int])));
        assert(pre.take(i + 1).map_values(|l: Seq<char>| norm_line(l)) =~= pre.take(i as int).map_values(
            |l: Seq<char>| norm_line(l),
        ).push(norm_line(pre[i as int])));
        i = i + 1;
    }
    assert(pre.take(pre_lines.len() as int) =~= pre);
    let post = chars_of(post_content);
    let ql = split_lines(post.as_slice());
    let count = ql.len();
    let mut qn: Vec<Vec<char>> = Vec::new();
    let mut j: usize = 0;
    while j < count
        invariant
            j <= count == ql.len(),
            views(ql@) == lines(post_content@),
            views(qn@) == lines(post_content@).take(j as int).map_values(|l: Seq<char>| norm_line(l)),
        decreases count - j,
    {
        let ghost before = views(qn@);
        qn.push(norm_chars(ql[j].as_slice()));
        assert(views(qn@) =~= before.push(norm_line(lines(post_content@)[j as int])));
        assert(lines(post_content@).take(j + 1).map_values(|l: Seq<char>| norm_line(l)) =~= lines(
            post_content@,
        ).take(j as int).map_values(|l: Seq<char>| norm_line(l)).push(norm_line(lines(post_content@)[j as int])));
        j = j + 1;
    }
    assert(lines(post_content@).take(count as int) =~= lines(post_content@));
    // Tier 1: the diff.
    let mut pre_content: Vec<char> = Vec::new();
    let mut a: usize = 0;
    while a < pre_lines.len()
        invariant
            a <= pre_lines.len(),
            pre == pre_lines@.map_values(|s: String| s@),
            pre_content@ == pre.take(a as int).fold_left(seq![], |acc: Seq<char>, l: Seq<char>| acc + l),
        decreases pre_lines.len() - a,
    {
        let l = chars_of(pre_lines[a].as_str());
        crate::text::push_all(&mut pre_content, l.as_slice());
        assert(pre.take(a + 1).drop_last() =~= pre.take(a as int));
        a = a + 1;
    }
    let pc = string_of(pre_content.as_slice());
    let tags = diff_line_tags(pc.as_str(), post_content);
    let n_pre = pre_lines.len();
    let mut old_to_new: Vec<Option<usize>> = Vec::new();
    let mut z: usize = 0;
    while z < n_pre
        invariant
            z <= n_pre,
            old_to_new@ == Seq::new(z as nat, |i: int| None::<usize>),
        decreases n_pre - z,
    {
        old_to_new.push(None);
        assert(old_to_new@ =~= Seq::new((z + 1) as nat, |i: int| None::<usize>));
        z = z + 1;
    }
    let mut oi: usize = 0;
    let mut ni: usize = 0;
    let mut t: usize = 0;
    assert(tags@.take(0) =~= Seq::<DiffTag>::empty());
    assert(opt_ints(old_to_new@) =~= Seq::new(n_pre as nat, |i: int| None::<int>));
    while t < tags.len()
        invariant
            t <= tags.len(),
            oi <= t,
            ni <= t,
            old_to_new@.len() == n_pre,
            diff_walk(tags@.take(t as int), n_pre as int) == (oi as int, ni as int, opt_ints(old_to_new@)),
        decreases tags.len() - t,
    {
        assert(tags@.take(t + 1).drop_last() =~= tags@.take(t as int));
        assert(tags@.take(t + 1).last() == tags@[t as int]);
        match tags[t] {
            DiffTag::Equal => {
                if oi < n_pre {
                    let ghost before = opt_ints(old_to_new@);
                    old_to_new[oi] = Some(ni);
                    assert(opt_ints(old_to_new@) =~= before.update(oi as int, Some(ni as int)));
                }
                oi = oi + 1;
                ni = ni + 1;
            },
            DiffTag::Delete => {
                oi = oi + 1;
            },
            DiffTag::Insert => {
                ni = ni + 1;
            },
        }
        t = t + 1;
    }
    assert(tags@.take(tags.len() as int) =~= tags@);
    let ghost m = opt_ints(old_to_new@);
    let mut slots: Vec<Option<NowebMapEntry>> = Vec::new();
    let mut s0: usize = 0;
    while s0 < count
        invariant
            s0 <= count,
            opt_views(slots@) == Seq::new(s0 as nat, |i: int| None::<EntryView>),
        decreases count - s0,
    {
        let ghost before = opt_views(slots@);
        slots.push(None);
        assert(opt_views(slots@) =~= before.push(None::<EntryView>));
        assert(opt_views(slots@) =~= Seq::new((s0 + 1) as nat, |i: int| None::<EntryView>));
        s0 = s0 + 1;
    }
    let mut e: usize = 0;
    while e < entries.len()
        invariant
            e <= entries.len(),
            slots@.len() == count,
            m == opt_ints(old_to_new@),
            old_to_new@.len() == n_pre,
            ev == entry_views(entries@),
            opt_views(slots@) == tier1(m, ev, count as int, e as int),
        decreases entries.len() - e,
    {
        if e < old_to_new.len() {
            match old_to_new[e] {
                Some(w) => {
                    if w < count {
                        let ghost before = opt_views(slots@);
                        slots[w] = Some(entries[e].duplicate());
                        assert(opt_views(slots@) =~= before.update(w as int, Some(ev[e as int])));
                    }
                },
                None => {},
            }
        }
        e = e + 1;
    }
    // Tier 2: matching contexts.
    let mut claimed: Vec<bool> = Vec::new();
    let mut c0: usize = 0;
    while c0 < n_pre
        invariant
            c0 <= n_pre == old_to_new@.len(),
            claimed@.len() == c0,
            forall|i: int| 0 <= i < c0 ==> claimed@[i] == (old_to_new@[i] is Some),
        decreases n_pre - c0,
    {
        claimed.push(old_to_new[c0].is_some());
        c0 = c0 + 1;
    }
    let ghost cl0 = Set::new(|i: int| 0 <= i < claimed@.len() && claimed@[i]);
    assert(cl0 =~= claimed1(m));
    let ghost s1 = opt_views(slots@);
    let ghost pnv = views(pn@);
    let ghost qnv = views(qn@);
    let mut k: usize = 0;
    while k < count
        invariant
            k <= count == slots@.len() == qn@.len(),
            claimed@.len() == n_pre == pn@.len(),
            n_pre <= entries@.len(),
            ev == entry_views(entries@),
            pnv == views(pn@),
            qnv == views(qn@),
            tier2(s1, claimed1(m), pnv, qnv, ev, k as int) == (Set::new(|i: int| 0 <= i < claimed@.len() && claimed@[i]), opt_views(slots@)),
        decreases count - k,
    {
        let ghost clk = Set::new(|i: int| 0 <= i < claimed@.len() && claimed@[i]);
        let ghost sk = opt_views(slots@);
        assert(qnv[k as int] == qn@[k as int]@);
        let filled = slots[k].is_some();
        if !filled && !is_short(&qn[k]) {
            let c = candidates(&pn, &qn, k);
            match choose_old(&c, &entries, &claimed, k) {
                Some(o) => {
                    claimed[o] = true;
                    assert(Set::new(|i: int| 0 <= i < claimed@.len() && claimed@[i]) =~= clk.insert(o as int));
                    let ne = with_confidence(&entries[o], Confidence::HashMatch);
                    slots[k] = Some(ne);
                    assert(opt_views(slots@) =~= sk.update(k as int, Some(with_conf(ev[o as int], Confidence::HashMatch))));
                },
                None => {},
            }
        }
        k = k + 1;
    }
    let ghost s2 = opt_views(slots@);
    // Tier 3: fill from the nearest placed line.
    let mut out: Vec<Option<NowebMapEntry>> = Vec::new();
    let mut last: Option<usize> = None;
    let mut f: usize = 0;
    while f < count
        invariant
            f <= count == slots@.len(),
            s2 == opt_views(slots@),
            out@.len() == f,
            match last {
                Some(li) => li < f && s2[li as int] is Some && last_before(s2, f as int) == s2[li as int],
                None => last_before(s2, f as int) is None,
            },
            forall|x: int| 0 <= x < f ==> opt_views(out@)[x] == (if s2[x] is Some { s2[x] } else {
                match last_before(s2, x) {
                    Some(e) => Some(with_conf(e, Confidence::Inferred)),
                    None => None,
                }
            }),
        decreases count - f,
    {
        let ghost before = opt_views(out@);
        let item: Option<NowebMapEntry> = match &slots[f] {
            Some(en) => {
                last = Some(f);
                Some(en.duplicate())
            },
            None => {
                match last {
                    Some(li) => {
                        match &slots[li] {
                            Some(src) => Some(with_confidence(src, Confidence::Inferred)),
                            None => None,
                        }
                    },
                    None => None,
                }
            },
        };
        assert(s2[f as int] == opt_views(slots@)[f as int]);
        let ghost iv = match &item {
            Some(x) => Some(x@),
            None => None,
        };
        assert(iv == (if s2[f as int] is Some { s2[f as int] } else {
            match last_before(s2, f as int) {
                Some(e) => Some(with_conf(e, Confidence::Inferred)),
                None => None,
            }
        }));
        out.push(item);
        assert(opt_views(out@) =~= before.push(iv));
        f = f + 1;
    }
    let mut next: Option<usize> = None;
    let mut g = count;
    while g > 0
        invariant
            g <= count == slots@.len() == out@.len(),
            s2 == opt_views(slots@),
            match next {
                Some(ni2) => g <= ni2 < count && s2[ni2 as int] is Some && first_from(s2, g as int) == s2[ni2 as int],
                None => first_from(s2, g as int) is None,
            },
            forall|x: int| 0 <= x < g ==> opt_views(out@)[x] == (if s2[x] is Some { s2[x] } else {
                match last_before(s2, x) {
                    Some(e) => Some(with_conf(e, Confidence::Inferred)),
                    None => None,
                }
            }),
            forall|x: int| g <= x < count ==> opt_views(out@)[x] == tier3(s2)[x],
        decreases g,
    {
        let h = g - 1;
        let ghost before = opt_views(out@);
        assert(s2[h as int] == opt_views(slots@)[h as int]);
        assert((opt_views(out@)[h as int] is None) == (out@[h as int] is None));
        assert((s2[h as int] is Some) == (slots@[h as int] is Some));
        proof {
            if s2[h as int] is None {
                assert(first_from(s2, h as int) == first_from(s2, g as int));
            }
        }
        if slots[h].is_some() {
            next = Some(h);
        } else if out[h].is_none() {
            match next {
                Some(nx) => {
                    match &slots[nx] {
                        Some(src) => {
                            let ne = with_confidence(src, Confidence::Inferred);
                            let ghost nv = ne@;
                            out[h] = Some(ne);
                            assert(opt_views(out@) =~= before.update(h as int, Some(nv)));
                        },
                        None => {},
                    }
                },
                None => {},
            }
        }
        assert(opt_views(out@)[h as int] == tier3(s2)[h as int]);
        g = h;
    }
    assert(opt_views(out@) =~= tier3(s2));
    let mut r: Vec<(u32, NowebMapEntry)> = Vec::new();
    let mut q: usize = 0;
    let ghost t3 = tier3(s2);
    assert(t3.take(0) =~= Seq::<Option<EntryView>>::empty());
    while q < out.len()
        invariant
            q <= out.len(),
            t3 == opt_views(out@),
            r@.map_values(|p: (u32, NowebMapEntry)| (p.0, p.1@)) == placed(t3.take(q as int)),
        decreases out.len() - q,
    {
        assert(t3.take(q + 1).drop_last() =~= t3.take(q as int));
        assert(t3.take(q + 1).last() == t3[q as int]);
        match &out[q] {
            Some(en) => {
                let ghost before = r@.map_values(|p: (u32, NowebMapEntry)| (p.0, p.1@));
                r.push((q as u32, en.duplicate()));
                assert(r@.map_values(|p: (u32, NowebMapEntry)| (p.0, p.1@)) =~= before.push((q as u32, t3[q as int]->0)));
            },
            None => {},
        }
        q = q + 1;
    }
    assert(t3.take(out.len() as int) =~= t3);
    r
}


/// The concatenated lines.
pub open spec fn concat_lines(pre: Seq<Seq<char>>) -> Seq<char> {
    pre.fold_left(seq![], |acc: Seq<char>, l: Seq<char>| acc + l)
}

/// The entries numbered by line.
pub open spec fn numbered(ents: Seq<EntryView>) -> Seq<(u32, EntryView)> {
    Seq::new(ents.len(), |i: int| (i as u32, ents[i]))
}

/// The line map stored for a generated file: remapped when the file on disk
/// (`formatted`) differs from the lines written, else one entry per line.
pub open spec fn keyed_spec(pre: Seq<Seq<char>>, formatted: Option<Seq<char>>, ents: Seq<EntryView>) -> Seq<(u32, EntryView)> {
    match formatted {
        Some(f) => if f != concat_lines(pre) {
            remap_spec(pre, f, ents)
        } else {
            numbered(ents)
        },
        None => numbered(ents),
    }
}

/// The line map to store for a generated file, given the lines written and
/// the file's text as found afterwards (`None` when it is not there).
pub fn key_noweb_entries(lines: &[String], formatted: Option<&str>, entries: Vec<NowebMapEntry>) -> (r: Vec<(u32, NowebMapEntry)>)
    requires
        lines@.len() <= entries@.len(),
    ensures
        r@.map_values(|p: (u32, NowebMapEntry)| (p.0, p.1@)) == keyed_spec(
            lines@.map_values(|s: String| s@),
            match formatted {
                Some(f) => Some(f@),
                None => None,
            },
            entry_views(entries@),
        ),
{
    let ghost pre = lines@.map_values(|s: String| s@);
    if let Some(f) = formatted {
        let mut pc: Vec<char> = Vec::new();
        let mut a: usize = 0;
        while a < lines.len()
            invariant
                a <= lines.len(),
                pre == lines@.map_values(|s: String| s@),
                pc@ == pre.take(a as int).fold_left(seq![], |acc: Seq<char>, l: Seq<char>| acc + l),
            decreases lines.len() - a,
        {
            let l = chars_of(lines[a].as_str());
            crate::text::push_all(&mut pc, l.as_slice());
            assert(pre.take(a + 1).drop_last() =~= pre.take(a as int));
            a = a + 1;
        }
        assert(pre.take(lines.len() as int) =~= pre);
        let fc = chars_of(f);
        if !chars_eq(fc.as_slice(), pc.as_slice()) {
            return remap_noweb_entries(lines, f, entries);
        }
    }
    let ghost ev = entry_views(entries@);
    let mut r: Vec<(u32, NowebMapEntry)> = Vec::new();
    let mut i: usize = 0;
    let n = entries.len();
    let es = entries;
    while i < n
        invariant
            i <= n == es@.len(),
            ev == entry_views(es@),
            r@.map_values(|p: (u32, NowebMapEntry)| (p.0, p.1@)) == numbered(ev).take(i as int),
        decreases n - i,
    {
        let ghost before = r@.map_values(|p: (u32, NowebMapEntry)| (p.0, p.1@));
        r.push((i as u32, es[i].duplicate()));
        assert(r@.map_values(|p: (u32, NowebMapEntry)| (p.0, p.1@)) =~= before.push((i as u32, ev[i as int])));
        assert(numbered(ev).take(i + 1) =~= numbered(ev).take(i as int).push(numbered(ev)[i as int]));
        i = i + 1;
    }
    assert(numbered(ev).take(n as int) =~= numbered(ev));
    r
}


// ── laws ─────────────────────────────────────────────────────────────────

proof fn lemma_last_before_some(s: Seq<Option<EntryView>>, i: int, j: int)
    requires
        0 <= j < i <= s.len(),
        s[j] is Some,
    ensures
        last_before(s, i) is Some,
    decreases i,
{
    if s[i - 1] is None {
        lemma_last_before_some(s, i - 1, j);
    }
}

proof fn lemma_first_from_some(s: Seq<Option<EntryView>>, i: int, j: int)
    requires
        0 <= i <= j < s.len(),
        s[j] is Some,
    ensures
        first_from(s, i) is Some,
    decreases s.len() - i,
{
    if s[i] is None {
        lemma_first_from_some(s, i + 1, j);
    }
}

proof fn lemma_placed_all(t: Seq<Option<EntryView>>)
    requires
        forall|i: int| 0 <= i < t.len() ==> #[trigger] t[i] is Some,
        t.len() <= 0x1_0000_0000,
    ensures
        placed(t).len() == t.len(),
        forall|i: int| 0 <= i < t.len() ==> #[trigger] placed(t)[i] == (i as u32, t[i]->0),
    decreases t.len(),
{
    if t.len() > 0 {
        let u = t.drop_last();
        assert forall|i: int| 0 <= i < u.len() implies #[trigger] u[i] is Some by {
            assert(u[i] == t[i]);
        }
        lemma_placed_all(u);
        assert(t.last() is Some) by {
            assert(t[t.len() - 1] is Some);
        }
        assert forall|i: int| 0 <= i < t.len() implies #[trigger] placed(t)[i] == (i as u32, t[i]->0) by {
            if i < u.len() {
                assert(placed(t)[i] == placed(u)[i]);
                assert(u[i] == t[i]);
            }
        }
    }
}

/// Law: once one line of the formatted file has an origin, every line has
/// one, and the map numbers the lines one by one.
pub proof fn law_every_line_gets_an_origin(s: Seq<Option<EntryView>>)
    requires
        exists|j: int| 0 <= j < s.len() && #[trigger] s[j] is Some,
        s.len() <= 0x1_0000_0000,
    ensures
        forall|i: int| 0 <= i < s.len() ==> #[trigger] tier3(s)[i] is Some,
        placed(tier3(s)).len() == s.len(),
        forall|i: int| 0 <= i < s.len() ==> (#[trigger] placed(tier3(s))[i]).0 == i as u32,
{
    let j = choose|j: int| 0 <= j < s.len() && #[trigger] s[j] is Some;
    let t = tier3(s);
    assert forall|i: int| 0 <= i < s.len() implies #[trigger] t[i] is Some by {
        if s[i] is None {
            if j < i {
                lemma_last_before_some(s, i, j);
            } else {
                lemma_first_from_some(s, i, j);
                if last_before(s, i) is None {
                }
            }
        }
    }
    lemma_placed_all(t);
}

/// Law: a file the formatter left as it was keeps one entry per line, each
/// as it came from expansion.
pub proof fn law_unchanged_file_keeps_entries(pre: Seq<Seq<char>>, ents: Seq<EntryView>)
    ensures
        keyed_spec(pre, Some(concat_lines(pre)), ents) == numbered(ents),
        keyed_spec(pre, None, ents) == numbered(ents),
{
}

} // verus!
