//! Tagging source blocks with a language model: the prompt sent for a batch
//! of blocks, and the reading of the model's answer.
use vstd::prelude::*;
use crate::http::{after_first, before_first, split_at_first, split_chars, split_on};
use crate::store::string_views;
use crate::text::{
    chars_eq, chars_of, dec, decimal, lines, push_all, push_str, split_lines, string_of, sub_chars, trim,
    trim_chars, views,
};

verus! {

// ── prompt ───────────────────────────────────────────────────────────────

/// The instructions that open every prompt.
pub open spec fn prompt_header() -> Seq<char> {
    "Tag these blocks from a literate programming document.\nGenerate 3-5 short lowercase hyphenated tags per block.\nOutput format (one line per block, no other text):\n<number>:<tag1>,<tag2>,<tag3>\n\n"@
}

/// The prompt line of one block: its index, kind and the first 120
/// characters of its first line.
pub open spec fn prompt_line(i: nat, kind: Seq<char>, first: Seq<char>) -> Seq<char> {
    seq!['['] + dec(i) + seq![']', ' '] + kind + seq![' ', '|', ' '] + (if first.len() <= 120 {
        first
    } else {
        first.take(120)
    }) + seq!['\n']
}

/// The prompt lines of the items.
pub open spec fn prompt_body(items: Seq<(usize, &str, &str)>) -> Seq<char>
    decreases items.len(),
{
    if items.len() == 0 {
        seq![]
    } else {
        let (i, k, f) = items.last();
        prompt_body(items.drop_last()) + prompt_line(i as nat, k@, f@)
    }
}

/// The prompt asking for tags of the items `(index, block kind, first line)`.
pub fn build_prompt(items: &[(usize, &str, &str)]) -> (s: String)
    ensures
        s@ == prompt_header() + prompt_body(items@),
{
    let mut v: Vec<char> = Vec::new();
    push_str(
        &mut v,
        "Tag these blocks from a literate programming document.\nGenerate 3-5 short lowercase hyphenated tags per block.\nOutput format (one line per block, no other text):\n<number>:<tag1>,<tag2>,<tag3>\n\n",
    );
    let mut j: usize = 0;
    assert(items@.take(0) =~= Seq::<(usize, &str, &str)>::empty());
    while j < items.len()
        invariant
            j <= items.len(),
            v@ == prompt_header() + prompt_body(items@.take(j as int)),
        decreases items.len() - j,
    {
        assert(items@.take(j + 1).drop_last() =~= items@.take(j as int));
        assert(items@.take(j + 1).last() == items@[j as int]);
        let (i, kind, first) = items[j];
        let ghost before = v@;
        v.push('[');
        let d = decimal(i as u128);
        push_all(&mut v, d.as_slice());
        v.push(']');
        v.push(' ');
        push_str(&mut v, kind);
        v.push(' ');
        v.push('|');
        v.push(' ');
        let f = chars_of(first);
        let n = if f.len() <= 120 { f.len() } else { 120 };
        let preview = sub_chars(f.as_slice(), 0, n);
        push_all(&mut v, preview.as_slice());
        v.push('\n');
        assert(preview@ =~= (if first@.len() <= 120 { first@ } else { first@.take(120) }));
        assert(v@ =~= before + prompt_line(i as nat, kind@, first@));
        j = j + 1;
    }
    assert(items@.take(items.len() as int) =~= items@);
    string_of(v.as_slice())
}

// ── response ─────────────────────────────────────────────────────────────

/// The value of a string of decimal digits.
pub open spec fn digits_value(d: Seq<char>) -> nat
    decreases d.len(),
{
    if d.len() == 0 {
        0
    } else {
        digits_value(d.drop_last()) * 10 + ((d.last() as u32) - 48) as nat
    }
}

/// `s` without one leading `+`.
pub open spec fn unsigned_part(s: Seq<char>) -> Seq<char> {
    if s.len() > 0 && s[0] == '+' {
        s.drop_first()
    } else {
        s
    }
}

/// Every character of `d` is a decimal digit.
pub open spec fn all_digits(d: Seq<char>) -> bool {
    forall|i: int| 0 <= i < d.len() ==> '0' <= #[trigger] d[i] <= '9'
}

/// The number that `str::parse::<usize>` reads from `s`: an optional `+`,
/// then one or more decimal digits whose value fits in `usize`.
pub open spec fn parse_usize_spec(s: Seq<char>) -> Option<usize> {
    let d = unsigned_part(s);
    if d.len() > 0 && all_digits(d) && digits_value(d) <= usize::MAX {
        Some(digits_value(d) as usize)
    } else {
        None
    }
}

pub proof fn lemma_digits_value_grows(d: Seq<char>, k: int)
    requires
        0 <= k <= d.len(),
        forall|i: int| 0 <= i < d.len() ==> '0' <= #[trigger] d[i] <= '9',
    ensures
        digits_value(d.take(k)) <= digits_value(d),
    decreases d.len() - k,
{
    if k < d.len() {
        lemma_digits_value_grows(d, k + 1);
        assert(d.take(k + 1).drop_last() =~= d.take(k));
    } else {
        assert(d.take(k) =~= d);
    }
}

/// Reads a `usize` as `str::parse` does.
pub fn parse_usize(s: &[char]) -> (r: Option<usize>)
    ensures
        r == parse_usize_spec(s@),
{
    let start: usize = if s.len() > 0 && s[0] == '+' { 1 } else { 0 };
    let ghost d = unsigned_part(s@);
    assert(d =~= s@.skip(start as int));
    if start == s.len() {
        return None;
    }
    let mut i = start;
    while i < s.len()
        invariant
            start <= i <= s.len(),
            d == s@.skip(start as int),
            d == unsigned_part(s@),
            forall|j: int| start <= j < i ==> '0' <= #[trigger] s@[j] <= '9',
        decreases s.len() - i,
    {
        if s[i] < '0' || s[i] > '9' {
            assert(d[i - start] == s@[i as int]);
            assert(!all_digits(d));
            return None;
        }
        i = i + 1;
    }
    assert(forall|j: int| 0 <= j < d.len() ==> '0' <= #[trigger] d[j] <= '9') by {
        assert forall|j: int| 0 <= j < d.len() implies '0' <= #[trigger] d[j] <= '9' by {
            assert(d[j] == s@[start + j]);
        }
    }
    let mut v: usize = 0;
    let mut k = start;
    assert(d.take(0) =~= Seq::<char>::empty());
    while k < s.len()
        invariant
            start <= k <= s.len(),
            d == s@.skip(start as int),
            d == unsigned_part(s@),
            forall|j: int| 0 <= j < d.len() ==> '0' <= #[trigger] d[j] <= '9',
            v as nat == digits_value(d.take(k - start)),
        decreases s.len() - k,
    {
        assert(d.take(k + 1 - start).drop_last() =~= d.take(k - start));
        assert(d.take(k + 1 - start).last() == s@[k as int]);
        let dig = (s[k] as u32 - 48) as usize;
        if v > (usize::MAX - dig) / 10 {
            proof {
                assert(digits_value(d.take(k + 1 - start)) == v * 10 + dig);
                assert(v * 10 + dig > usize::MAX) by (nonlinear_arith)
                    requires
                        v > (usize::MAX - dig) / 10,
                        dig <= 9,
                ;
                lemma_digits_value_grows(d, k + 1 - start);
                assert(digits_value(d) > usize::MAX);
            }
            return None;
        }
        assert(v * 10 + dig <= usize::MAX) by (nonlinear_arith)
            requires
                v <= (usize::MAX - dig) / 10,
                dig <= 9,
        ;
        v = v * 10 + dig;
        k = k + 1;
    }
    assert(d.take(s.len() - start) =~= d);
    Some(v)
}

/// The lowercase form of a string (`str::to_lowercase`).
pub uninterp spec fn lowercase_of(s: Seq<char>) -> Seq<char>;

/// `str::to_lowercase`: the Unicode lowercase mapping of `s`.  The mapping
/// itself is the standard library's; it is named by `lowercase_of`.
#[verifier::external_body]
fn to_lowercase(s: &str) -> (r: String)
    ensures
        r@ == lowercase_of(s@),
{
    s.to_lowercase()
}

/// Whether a character is alphabetic or numeric (`char::is_alphanumeric`).
pub uninterp spec fn alphanumeric(c: char) -> bool;

/// `char::is_alphanumeric`: the Unicode `Alphabetic` property or a numeric
/// category; named by `alphanumeric`.
#[verifier::external_body]
fn is_alphanumeric(c: char) -> (b: bool)
    ensures
        b == alphanumeric(c),
{
    c.is_alphanumeric()
}

/// A tag cleaned up: lowercased, then only alphanumeric characters and `-`
/// kept.
pub open spec fn clean_tag(t: Seq<char>) -> Seq<char> {
    lowercase_of(t).filter(|c: char| alphanumeric(c) || c == '-')
}

/// The tags of a response line's tag list: split at `,`, trimmed, empty
/// ones dropped, cleaned, and empty results dropped again.
pub open spec fn clean_tags(tags: Seq<char>) -> Seq<Seq<char>> {
    split_on(tags, ',').map_values(|t: Seq<char>| trim(t)).filter(|t: Seq<char>| t.len() > 0).map_values(
        |t: Seq<char>| clean_tag(t),
    ).filter(|t: Seq<char>| t.len() > 0)
}

/// Strings joined with `,`.
pub open spec fn comma_join(ts: Seq<Seq<char>>) -> Seq<char>
    decreases ts.len(),
{
    if ts.len() == 0 {
        seq![]
    } else if ts.len() == 1 {
        ts[0]
    } else {
        comma_join(ts.drop_last()) + seq![','] + ts.last()
    }
}

/// What one line of a response gives: `index:tag,tag,…` with a readable
/// index and at least one tag that survives cleaning.
pub open spec fn response_entry(line: Seq<char>) -> Option<(usize, Seq<char>)> {
    if !line.contains(':') {
        None
    } else {
        match parse_usize_spec(trim(before_first(line, ':'))) {
            None => None,
            Some(idx) => {
                let raw = split_on(after_first(line, ':'), ',').map_values(|t: Seq<char>| trim(t)).filter(
                    |t: Seq<char>| t.len() > 0,
                );
                let clean = comma_join(clean_tags(after_first(line, ':')));
                if raw.len() == 0 || clean.len() == 0 {
                    None
                } else {
                    Some((idx, clean))
                }
            },
        }
    }
}

/// The entries of the response's lines, in order.
pub open spec fn response_entries(ls: Seq<Seq<char>>) -> Seq<(usize, Seq<char>)>
    decreases ls.len(),
{
    if ls.len() == 0 {
        seq![]
    } else {
        let rest = response_entries(ls.drop_last());
        match response_entry(ls.last()) {
            Some(e) => rest.push(e),
            None => rest,
        }
    }
}

fn has_char(s: &[char], c: char) -> (b: bool)
    ensures
        b == s@.contains(c),
{
    let mut i: usize = 0;
    while i < s.len()
        invariant
            i <= s.len(),
            forall|j: int| 0 <= j < i ==> s@[j] != c,
        decreases s.len() - i,
    {
        if s[i] == c {
            assert(s@[i as int] == c);
            return true;
        }
        i = i + 1;
    }
    false
}

fn clean_one(t: &[char]) -> (r: Vec<char>)
    ensures
        r@ == clean_tag(t@),
{
    let ts = string_of(t);
    let low = to_lowercase(ts.as_str());
    let lc = chars_of(low.as_str());
    let mut r: Vec<char> = Vec::new();
    let mut i: usize = 0;
    assert(lc@.take(0) =~= Seq::<char>::empty());
    while i < lc.len()
        invariant
            i <= lc.len(),
            lc@ == lowercase_of(t@),
            r@ == lc@.take(i as int).filter(|c: char| alphanumeric(c) || c == '-'),
        decreases lc.len() - i,
    {
        assert(lc@.take(i + 1) =~= lc@.take(i as int).push(lc@[i as int]));
        proof {
            lc@.take(i as int).lemma_filter_push(lc@[i as int], |c: char| alphanumeric(c) || c == '-');
        }
        let c = lc[i];
        if is_alphanumeric(c) || c == '-' {
            r.push(c);
        }
        i = i + 1;
    }
    assert(lc@.take(lc.len() as int) =~= lc@);
    r
}

/// The entry of one response line, if it gives one.
fn entry_of(line: &[char]) -> (r: Option<(usize, String)>)
    ensures
        match r {
            Some((i, t)) => response_entry(line@) == Some((i, t@)),
            None => response_entry(line@) is None,
        },
{
    if !has_char(line, ':') {
        return None;
    }
    let (idx_part, tags_part) = split_at_first(line, ':');
    let idx_t = trim_chars(idx_part.as_slice());
    let idx = match parse_usize(idx_t.as_slice()) {
        Some(i) => i,
        None => {
            return None;
        },
    };
    let pieces = split_chars(tags_part.as_slice(), ',');
    let ghost trimmed = split_on(after_first(line@, ':'), ',').map_values(|t: Seq<char>| trim(t));
    let ghost raw = trimmed.filter(|t: Seq<char>| t.len() > 0);
    let ghost cleaned = raw.map_values(|t: Seq<char>| clean_tag(t));
    let mut nraw: usize = 0;
    let mut out: Vec<char> = Vec::new();
    let mut kept: usize = 0;
    let mut i: usize = 0;
    assert(trimmed.take(0) =~= Seq::<Seq<char>>::empty());
    assert(trimmed.take(0).filter(|t: Seq<char>| t.len() > 0) =~= Seq::<Seq<char>>::empty());
    assert(Seq::<Seq<char>>::empty().map_values(|t: Seq<char>| clean_tag(t)).filter(|t: Seq<char>| t.len() > 0)
        =~= Seq::<Seq<char>>::empty());
    while i < pieces.len()
        invariant
            i <= pieces.len(),
            pieces@.map_values(|v: Vec<char>| v@) == split_on(after_first(line@, ':'), ','),
            trimmed == split_on(after_first(line@, ':'), ',').map_values(|t: Seq<char>| trim(t)),
            nraw as nat == trimmed.take(i as int).filter(|t: Seq<char>| t.len() > 0).len(),
            nraw <= i,
            kept as nat == trimmed.take(i as int).filter(|t: Seq<char>| t.len() > 0).map_values(
                |t: Seq<char>| clean_tag(t),
            ).filter(|t: Seq<char>| t.len() > 0).len(),
            out@ == comma_join(
                trimmed.take(i as int).filter(|t: Seq<char>| t.len() > 0).map_values(|t: Seq<char>| clean_tag(t)).filter(
                    |t: Seq<char>| t.len() > 0,
                ),
            ),
            kept <= i,
        decreases pieces.len() - i,
    {
        let ghost pre = trimmed.take(i as int);
        let ghost pre_raw = pre.filter(|t: Seq<char>| t.len() > 0);
        let ghost pre_clean = pre_raw.map_values(|t: Seq<char>| clean_tag(t));
        let ghost pre_kept = pre_clean.filter(|t: Seq<char>| t.len() > 0);
        let t = trim_chars(pieces[i].as_slice());
        assert(t@ == trimmed[i as int]);
        assert(trimmed.take(i + 1) =~= pre.push(trimmed[i as int]));
        proof {
            pre.lemma_filter_push(trimmed[i as int], |t: Seq<char>| t.len() > 0);
        }
        if t.len() > 0 {
            nraw = nraw + 1;
            let c = clean_one(t.as_slice());
            assert(pre_raw.push(t@).map_values(|t: Seq<char>| clean_tag(t)) =~= pre_clean.push(c@));
            proof {
                pre_clean.lemma_filter_push(c@, |t: Seq<char>| t.len() > 0);
            }
            if c.len() > 0 {
                if kept > 0 {
                    out.push(',');
                } else {
                    assert(pre_kept.len() == 0);
                    assert(pre_kept.push(c@) =~= seq![c@]);
                }
                push_all(&mut out, c.as_slice());
                assert(pre_kept.push(c@).drop_last() =~= pre_kept);
                kept = kept + 1;
            }
        }
        i = i + 1;
    }
    assert(trimmed.take(pieces.len() as int) =~= trimmed);
    if nraw == 0 || out.len() == 0 {
        return None;
    }
    Some((idx, string_of(out.as_slice())))
}

/// The `(index, tags)` entries of a model's response, one per line of the
/// form `index:tag,tag,…`; each tag is lowercased and kept to alphanumeric
/// characters and `-`.  Lines without a readable index or without a tag
/// left are skipped.
pub fn parse_response(response: &str) -> (r: Vec<(usize, String)>)
    ensures
        r@.map_values(|e: (usize, String)| (e.0, e.1@)) == response_entries(lines(response@)),
{
    let src = chars_of(response);
    let ls = split_lines(src.as_slice());
    let ghost l = lines(response@);
    let mut r: Vec<(usize, String)> = Vec::new();
    let mut i: usize = 0;
    assert(l.take(0) =~= Seq::<Seq<char>>::empty());
    assert(r@.map_values(|e: (usize, String)| (e.0, e.1@)) =~= Seq::<(usize, Seq<char>)>::empty());
    while i < ls.len()
        invariant
            i <= ls.len(),
            views(ls@) == l,
            r@.map_values(|e: (usize, String)| (e.0, e.1@)) == response_entries(l.take(i as int)),
        decreases ls.len() - i,
    {
        assert(l.take(i + 1).drop_last() =~= l.take(i as int));
        assert(l.take(i + 1).last() == ls@[i as int]@);
        let ghost before = r@.map_values(|e: (usize, String)| (e.0, e.1@));
        match entry_of(ls[i].as_slice()) {
            Some((idx, tags)) => {
                let ghost tv = tags@;
                r.push((idx, tags));
                assert(r@.map_values(|e: (usize, String)| (e.0, e.1@)) =~= before.push((idx, tv)));
            },
            None => {},
        }
        i = i + 1;
    }
    assert(l.take(ls.len() as int) =~= l);
    r
}

// ── block previews ───────────────────────────────────────────────────────

/// What [`block_first_line`] returns: the line `line_start` (1-based) when
/// it lies within both the block and the text, else nothing.
pub open spec fn first_line_spec(src: Seq<char>, line_start: int, line_end: int) -> Seq<char> {
    let l = lines(src);
    let lo = if line_start >= 1 { line_start - 1 } else { 0 };
    let hi = if line_end <= l.len() { line_end } else { l.len() as int };
    if lo < hi {
        l[lo]
    } else {
        seq![]
    }
}

/// The first line of the block spanning lines `line_start..=line_end`.
pub fn block_first_line(source: &str, line_start: u32, line_end: u32) -> (r: String)
    ensures
        r@ == first_line_spec(source@, line_start as int, line_end as int),
{
    let src = chars_of(source);
    let ls = split_lines(src.as_slice());
    let lo: usize = if line_start >= 1 { (line_start - 1) as usize } else { 0 };
    let hi: usize = if (line_end as usize) <= ls.len() { line_end as usize } else { ls.len() };
    if lo < hi {
        string_of(ls[lo].as_slice())
    } else {
        String::new()
    }
}

// ── batches ──────────────────────────────────────────────────────────────

/// How many blocks go in one request: the configured size, at least one.
pub open spec fn batch_width(batch_size: int) -> int {
    if batch_size < 1 {
        1
    } else {
        batch_size
    }
}

/// `r` cuts `0..len` into consecutive `[start, end)` ranges of `w` items,
/// the last one holding what is left (as `slice::chunks(w)` does).
pub open spec fn batches_of(r: Seq<(usize, usize)>, len: int, w: int) -> bool {
    &&& (r.len() == 0) == (len == 0)
    &&& r.len() > 0 ==> r[0].0 == 0 && r.last().1 == len
    &&& forall|k: int| 0 <= k < r.len() ==> #[trigger] r[k].0 < r[k].1 && r[k].1 <= r[k].0 + w
    &&& forall|k: int| 0 <= k < r.len() - 1 ==> #[trigger] r[k].1 == r[k + 1].0 && r[k].1 == r[k].0 + w
}

/// The ranges of the batches in which `len` blocks are sent, `batch_size`
/// (at least one) at a time.
pub fn batch_bounds(len: usize, batch_size: usize) -> (r: Vec<(usize, usize)>)
    ensures
        batches_of(r@, len as int, batch_width(batch_size as int)),
{
    let w: usize = if batch_size < 1 { 1 } else { batch_size };
    let mut r: Vec<(usize, usize)> = Vec::new();
    let mut start: usize = 0;
    while start < len
        invariant
            w == batch_width(batch_size as int),
            start <= len,
            (r@.len() == 0) == (start == 0),
            r@.len() > 0 ==> r@[0].0 == 0 && r@.last().1 == start,
            r@.len() > 0 && start < len ==> r@.last().1 == r@.last().0 + w,
            forall|k: int| 0 <= k < r@.len() ==> #[trigger] r@[k].0 < r@[k].1 && r@[k].1 <= r@[k].0 + w,
            forall|k: int| 0 <= k < r@.len() - 1 ==> #[trigger] r@[k].1 == r@[k + 1].0 && r@[k].1 == r@[k].0 + w,
        decreases len - start,
    {
        let end: usize = if len - start > w { start + w } else { len };
        let ghost before = r@;
        r.push((start, end));
        assert(r@.len() > 1 ==> r@[r@.len() - 2] == before.last());
        start = end;
    }
    r
}

/// The entries of `es` whose index names one of the `n` blocks of a batch.
pub open spec fn entries_within(es: Seq<(usize, Seq<char>)>, n: int) -> Seq<(usize, Seq<char>)>
    decreases es.len(),
{
    if es.len() == 0 {
        seq![]
    } else if (es.last().0 as int) < n {
        entries_within(es.drop_last(), n).push(es.last())
    } else {
        entries_within(es.drop_last(), n)
    }
}

/// The tags a response assigns within a batch of `batch_len` blocks: the
/// entries of [`parse_response`] whose index is one of the batch's, in
/// order; the others name no block and are dropped.
pub fn tag_updates(batch_len: usize, response: &str) -> (r: Vec<(usize, String)>)
    ensures
        r@.map_values(|e: (usize, String)| (e.0, e.1@)) == entries_within(
            response_entries(lines(response@)),
            batch_len as int,
        ),
{
    let all = parse_response(response);
    let ghost es = all@.map_values(|e: (usize, String)| (e.0, e.1@));
    let mut r: Vec<(usize, String)> = Vec::new();
    let mut i: usize = 0;
    assert(es.take(0) =~= Seq::<(usize, Seq<char>)>::empty());
    assert(r@.map_values(|e: (usize, String)| (e.0, e.1@)) =~= Seq::<(usize, Seq<char>)>::empty());
    while i < all.len()
        invariant
            i <= all.len(),
            es == all@.map_values(|e: (usize, String)| (e.0, e.1@)),
            r@.map_values(|e: (usize, String)| (e.0, e.1@)) == entries_within(es.take(i as int), batch_len as int),
        decreases all.len() - i,
    {
        assert(es.take(i + 1).drop_last() =~= es.take(i as int));
        assert(es.take(i + 1).last() == es[i as int]);
        let ghost before = r@.map_values(|e: (usize, String)| (e.0, e.1@));
        if all[i].0 < batch_len {
            let e = (all[i].0, all[i].1.clone());
            r.push(e);
            assert(r@.map_values(|e: (usize, String)| (e.0, e.1@)) =~= before.push(es[i as int]));
        }
        i = i + 1;
    }
    assert(es.take(all.len() as int) =~= es);
    r
}

// ── grouping by file ─────────────────────────────────────────────────────

/// The distinct entries of `s`, in the order they first occur.
pub open spec fn first_occurrences(s: Seq<Seq<char>>) -> Seq<Seq<char>>
    decreases s.len(),
{
    if s.len() == 0 {
        seq![]
    } else {
        let d = first_occurrences(s.drop_last());
        if d.contains(s.last()) {
            d
        } else {
            d.push(s.last())
        }
    }
}

/// The positions of `s` that hold `key`, in increasing order.
pub open spec fn indices_of(s: Seq<Seq<char>>, key: Seq<char>) -> Seq<usize>
    decreases s.len(),
{
    if s.len() == 0 {
        seq![]
    } else if s.last() == key {
        indices_of(s.drop_last(), key).push((s.len() - 1) as usize)
    } else {
        indices_of(s.drop_last(), key)
    }
}

/// The blocks to process grouped by their source file (block `i` lies in
/// `files[i]`), so that each file's text is read once: one group per file,
/// files in the order they first occur, each with its blocks in order.
pub fn group_by_file(files: &[String]) -> (r: Vec<(String, Vec<usize>)>)
    ensures
        r@.len() == first_occurrences(string_views(files@)).len(),
        forall|k: int|
            0 <= k < r@.len() ==> #[trigger] r@[k].0@ == first_occurrences(string_views(files@))[k]
                && r@[k].1@ == indices_of(string_views(files@), r@[k].0@),
{
    let ghost fs = string_views(files@);
    let mut cs: Vec<Vec<char>> = Vec::new();
    let mut i: usize = 0;
    while i < files.len()
        invariant
            i <= files.len(),
            fs == string_views(files@),
            cs@.len() == i,
            forall|j: int| 0 <= j < i ==> #[trigger] cs@[j]@ == fs[j],
        decreases files.len() - i,
    {
        cs.push(chars_of(files[i].as_str()));
        i = i + 1;
    }
    let mut keys: Vec<Vec<char>> = Vec::new();
    i = 0;
    assert(fs.take(0) =~= Seq::<Seq<char>>::empty());
    assert(views(keys@) =~= Seq::<Seq<char>>::empty());
    while i < cs.len()
        invariant
            i <= cs.len(),
            fs == string_views(files@),
            cs@.len() == fs.len(),
            forall|j: int| 0 <= j < fs.len() ==> #[trigger] cs@[j]@ == fs[j],
            views(keys@) == first_occurrences(fs.take(i as int)),
        decreases cs.len() - i,
    {
        assert(fs.take(i + 1).drop_last() =~= fs.take(i as int));
        assert(fs.take(i + 1).last() == fs[i as int]);
        let mut found = false;
        let mut m: usize = 0;
        while m < keys.len()
            invariant
                m <= keys.len(),
                i < cs.len(),
                found == (exists|j: int| 0 <= j < m && #[trigger] views(keys@)[j] == cs@[i as int]@),
            decreases keys.len() - m,
        {
            if chars_eq(keys[m].as_slice(), cs[i].as_slice()) {
                assert(views(keys@)[m as int] == cs@[i as int]@);
                found = true;
            }
            m = m + 1;
        }
        if !found {
            let ghost before = views(keys@);
            keys.push(chars_of(files[i].as_str()));
            assert(views(keys@) =~= before.push(fs[i as int]));
        }
        i = i + 1;
    }
    assert(fs.take(cs.len() as int) =~= fs);
    let mut r: Vec<(String, Vec<usize>)> = Vec::new();
    let mut k: usize = 0;
    while k < keys.len()
        invariant
            k <= keys.len(),
            fs == string_views(files@),
            cs@.len() == fs.len(),
            forall|j: int| 0 <= j < fs.len() ==> #[trigger] cs@[j]@ == fs[j],
            views(keys@) == first_occurrences(fs),
            r@.len() == k,
            forall|q: int|
                0 <= q < k ==> #[trigger] r@[q].0@ == views(keys@)[q] && r@[q].1@ == indices_of(fs, r@[q].0@),
        decreases keys.len() - k,
    {
        let mut idx: Vec<usize> = Vec::new();
        let mut j: usize = 0;
        assert(fs.take(0) =~= Seq::<Seq<char>>::empty());
        while j < cs.len()
            invariant
                j <= cs.len(),
                k < keys.len(),
                cs@.len() == fs.len(),
                forall|q: int| 0 <= q < fs.len() ==> #[trigger] cs@[q]@ == fs[q],
                idx@ == indices_of(fs.take(j as int), keys@[k as int]@),
            decreases cs.len() - j,
        {
            assert(fs.take(j + 1).drop_last() =~= fs.take(j as int));
            assert(fs.take(j + 1).last() == fs[j as int]);
            if chars_eq(cs[j].as_slice(), keys[k].as_slice()) {
                idx.push(j);
            }
            j = j + 1;
        }
        assert(fs.take(cs.len() as int) =~= fs);
        assert(views(keys@)[k as int] == keys@[k as int]@);
        r.push((string_of(keys[k].as_slice()), idx));
        k = k + 1;
    }
    r
}

proof fn lemma_indices_of(s: Seq<Seq<char>>, key: Seq<char>)
    requires
        s.len() <= usize::MAX,
    ensures
        forall|x: usize| #[trigger] indices_of(s, key).contains(x) <==> (x < s.len() && s[x as int] == key),
    decreases s.len(),
{
    if s.len() > 0 {
        let t = s.drop_last();
        lemma_indices_of(t, key);
        let d = indices_of(t, key);
        assert forall|x: usize| #[trigger] indices_of(s, key).contains(x) <==> (x < s.len() && s[x as int] == key) by {
            if x < t.len() {
                assert(t[x as int] == s[x as int]);
            }
            if s.last() == key {
                let v = (s.len() - 1) as usize;
                if x == v {
                    assert(d.push(v)[d.len() as int] == x);
                }
                if d.push(v).contains(x) && x != v {
                    let w = choose|w: int| 0 <= w < d.push(v).len() && d.push(v)[w] == x;
                    assert(d[w] == x);
                }
                if d.contains(x) {
                    let w = choose|w: int| 0 <= w < d.len() && d[w] == x;
                    assert(d.push(v)[w] == x);
                }
            }
        }
    }
}

proof fn lemma_first_occurrences(s: Seq<Seq<char>>)
    ensures
        forall|a: int, b: int|
            0 <= a < b < first_occurrences(s).len() ==> first_occurrences(s)[a] != first_occurrences(s)[b],
        forall|i: int| 0 <= i < s.len() ==> first_occurrences(s).contains(#[trigger] s[i]),
        forall|x: Seq<char>| first_occurrences(s).contains(x) ==> #[trigger] s.contains(x),
    decreases s.len(),
{
    if s.len() > 0 {
        let t = s.drop_last();
        lemma_first_occurrences(t);
        let d = first_occurrences(t);
        assert forall|i: int| 0 <= i < s.len() implies first_occurrences(s).contains(#[trigger] s[i]) by {
            if i < t.len() {
                assert(t[i] == s[i]);
                assert(d.contains(t[i]));
                if !d.contains(s.last()) {
                    let w = choose|w: int| 0 <= w < d.len() && d[w] == t[i];
                    assert(d.push(s.last())[w] == s[i]);
                }
            } else if !d.contains(s.last()) {
                assert(d.push(s.last())[d.len() as int] == s[i]);
            }
        }
        assert forall|x: Seq<char>| first_occurrences(s).contains(x) implies #[trigger] s.contains(x) by {
            if d.contains(x) {
                assert(t.contains(x));
                let w = choose|w: int| 0 <= w < t.len() && t[w] == x;
                assert(s[w] == x);
            } else {
                assert(x == s.last());
                assert(s[s.len() - 1] == x);
            }
        }
    }
}

/// Law: grouping blocks by file loses none and puts none twice: no two
/// groups are of one file, the file of every block has a group, every group
/// is of a file that has a block, and the group of a file holds exactly the
/// blocks that lie in it.
pub proof fn law_groups_partition_blocks(files: Seq<Seq<char>>)
    requires
        files.len() <= usize::MAX,
    ensures
        forall|a: int, b: int|
            0 <= a < b < first_occurrences(files).len() ==> first_occurrences(files)[a] != first_occurrences(files)[b],
        forall|i: int| 0 <= i < files.len() ==> first_occurrences(files).contains(#[trigger] files[i]),
        forall|x: Seq<char>| first_occurrences(files).contains(x) ==> #[trigger] files.contains(x),
        forall|key: Seq<char>, x: usize|
            #[trigger] indices_of(files, key).contains(x) <==> (x < files.len() && files[x as int] == key),
{
    lemma_first_occurrences(files);
    assert forall|key: Seq<char>, x: usize|
        #[trigger] indices_of(files, key).contains(x) <==> (x < files.len() && files[x as int] == key) by {
        lemma_indices_of(files, key);
    }
}

} // verus!
