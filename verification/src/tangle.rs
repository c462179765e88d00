//! Tangling in memory: reading sources and expanding every file chunk.
use vstd::prelude::*;
use std::collections::HashMap;
use crate::errors::{ChunkError, ChunkErrorView, WeavebackError};
use crate::store::{ChunkStore, ExpandOk, StoreView, read_text, expand_chunk, line_texts, string_views, file_prefix};
use crate::text::{chars_of, string_of, sub_chars, trim, trim_chars, match_at};

verus! {

/// The store after reading `texts` (pairs of source text and file name) in order.
pub open spec fn read_all(st: StoreView, texts: Seq<(Seq<char>, Seq<char>)>) -> StoreView
    decreases texts.len(),
{
    if texts.len() == 0 {
        st
    } else {
        let st1 = StoreView { file_names: st.file_names.push(texts[0].1), ..st };
        read_all(read_text(st1, texts[0].0, st.file_names.len() as int), texts.drop_first())
    }
}

/// The output path of a file chunk: its name without `@file `, trimmed.
pub open spec fn out_name(n: Seq<char>) -> Seq<char> {
    if n.len() >= 6 && n.take(6) == file_prefix() {
        trim(n.skip(6))
    } else {
        trim(n)
    }
}

/// The expansion of the file chunks `fcs[i..]`: output path and lines of each.
pub open spec fn outputs_from(st: StoreView, fcs: Seq<Seq<char>>, i: int) -> Result<Seq<(Seq<char>, Seq<Seq<char>>)>, ChunkErrorView>
    decreases fcs.len() - i,
{
    if i < 0 || i >= fcs.len() {
        Ok(seq![])
    } else {
        match expand_chunk(st, fcs[i], seq![]) {
            Err(e) => Err(e),
            Ok(x) => match outputs_from(st, fcs, i + 1) {
                Err(e) => Err(e),
                Ok(rest) => Ok(seq![(out_name(fcs[i]), line_texts(x.lines))] + rest),
            },
        }
    }
}

/// The outputs `acc` followed by the rest.
pub open spec fn outputs_prefixed(acc: Seq<(Seq<char>, Seq<Seq<char>>)>, rest: Result<Seq<(Seq<char>, Seq<Seq<char>>)>, ChunkErrorView>) -> Result<Seq<(Seq<char>, Seq<Seq<char>>)>, ChunkErrorView> {
    match rest {
        Ok(b) => Ok(acc + b),
        Err(e) => Err(e),
    }
}

/// The in-memory tangle of `texts` with the given syntax.
pub open spec fn tangle_spec(st0: StoreView, texts: Seq<(Seq<char>, Seq<char>)>) -> Result<Seq<(Seq<char>, Seq<Seq<char>>)>, ChunkErrorView> {
    let st = read_all(st0, texts);
    outputs_from(st, st.file_chunks, 0)
}

pub open spec fn text_views(texts: Seq<(&str, &str)>) -> Seq<(Seq<char>, Seq<char>)> {
    texts.map_values(|t: (&str, &str)| (t.0@, t.1@))
}

pub open spec fn output_views(v: Seq<(String, Vec<String>)>) -> Seq<(Seq<char>, Seq<Seq<char>>)> {
    v.map_values(|p: (String, Vec<String>)| (p.0@, string_views(p.1@)))
}

fn out_name_of(n: &String) -> (r: String)
    ensures
        r@ == out_name(n@),
{
    let c = chars_of(n.as_str());
    let prefix: [char; 6] = ['@', 'f', 'i', 'l', 'e', ' '];
    assert(prefix@ == file_prefix());
    if c.len() >= 6 && match_at(c.as_slice(), 0, &prefix) {
        assert(c@.subrange(0, 6) =~= c@.take(6));
        let rest = sub_chars(c.as_slice(), 6, c.len());
        assert(rest@ =~= c@.skip(6));
        let t = trim_chars(rest.as_slice());
        string_of(t.as_slice())
    } else {
        if c.len() >= 6 {
            assert(c@.subrange(0, 6) =~= c@.take(6));
        }
        let t = trim_chars(c.as_slice());
        string_of(t.as_slice())
    }
}

/// Reads `texts` into a fresh store and expands every file chunk: the output
/// paths (relative to the generation directory) with their lines, in the
/// order the file chunks were first defined; or the first expansion error.
pub fn tangle_outputs(
    texts: &[(&str, &str)],
    open_delim: &str,
    close_delim: &str,
    chunk_end: &str,
    comment_markers: &[String],
) -> (r: Result<Vec<(String, Vec<String>)>, ChunkError>)
    ensures
        ({
            let st0 = ChunkStore::new_spec(open_delim@, close_delim@, chunk_end@, comment_markers@.map_values(|m: String| m@));
            match tangle_spec(st0, text_views(texts@)) {
                Ok(o) => r matches Ok(v) && output_views(v@) == o,
                Err(e) => r matches Err(er) && er@ == e,
            }
        }),
{
    let mut store = ChunkStore::new(open_delim, close_delim, chunk_end, comment_markers);
    let ghost st0 = store@;
    let mut i: usize = 0;
    assert(text_views(texts@).skip(0) =~= text_views(texts@));
    while i < texts.len()
        invariant
            i <= texts.len(),
            read_all(st0, text_views(texts@)) == read_all(store@, text_views(texts@).skip(i as int)),
        decreases texts.len() - i,
    {
        let (text, fname) = texts[i];
        assert(text_views(texts@).skip(i as int)[0] == (text@, fname@));
        assert(text_views(texts@).skip(i as int).drop_first() =~= text_views(texts@).skip(i + 1));
        let idx = store.add_file_name(fname);
        store.read(text, idx);
        i = i + 1;
    }
    assert(text_views(texts@).skip(texts.len() as int) =~= Seq::<(Seq<char>, Seq<char>)>::empty());
    proof { reveal_strlit(""); }
    outputs_of(&store)
}

fn outputs_of(store: &ChunkStore) -> (r: Result<Vec<(String, Vec<String>)>, ChunkError>)
    ensures
        match outputs_from(store@, store@.file_chunks, 0) {
            Ok(o) => r matches Ok(v) && output_views(v@) == o,
            Err(e) => r matches Err(er) && er@ == e,
        },
{
    let fcs = store.get_file_chunks();
    let ghost st = store@;
    let ghost whole = outputs_from(st, st.file_chunks, 0);
    let mut out: Vec<(String, Vec<String>)> = Vec::new();
    let mut k: usize = 0;
    assert(output_views(out@) =~= Seq::<(Seq<char>, Seq<Seq<char>>)>::empty());
    assert(outputs_prefixed(output_views(out@), whole) == whole) by {
        if let Ok(b) = whole {
            assert(output_views(out@) + b =~= b);
        }
    }
    let e = "";
    proof {
        reveal_strlit("");
        assert(e@ =~= Seq::<char>::empty());
    }
    while k < fcs.len()
        invariant
            k <= fcs.len(),
            st == store@,
            e@ == Seq::<char>::empty(),
            string_views(fcs@) == st.file_chunks,
            whole == outputs_from(st, st.file_chunks, 0),
            whole == outputs_prefixed(output_views(out@), outputs_from(st, st.file_chunks, k as int)),
        decreases fcs.len() - k,
    {
        assert(st.file_chunks[k as int] == fcs@[k as int]@);
        let ghost here = outputs_from(st, st.file_chunks, k as int);
        let ghost next = outputs_from(st, st.file_chunks, k + 1);
        match store.expand(fcs[k].as_str(), e) {
            Ok(lines) => {
                let name = out_name_of(&fcs[k]);
                let ghost before = output_views(out@);
                let ghost item = (out_name(fcs@[k as int]@), string_views(lines@));
                out.push((name, lines));
                proof {
                    assert(output_views(out@) =~= before.push(item));
                    if let Ok(b) = next {
                        assert(before + (seq![item] + b) =~= output_views(out@) + b);
                    }
                }
            },
            Err(er) => {
                return Err(er);
            },
        }
        k = k + 1;
    }
    proof {
        if let Ok(all) = whole {
            assert(all =~= output_views(out@));
        }
    }
    Ok(out)
}

/// The output paths and lines of `o` as a map; a later pair for the same
/// path replaces an earlier one.
pub open spec fn lines_map(o: Seq<(Seq<char>, Seq<Seq<char>>)>) -> Map<Seq<char>, Seq<Seq<char>>>
    decreases o.len(),
{
    if o.len() == 0 {
        Map::empty()
    } else {
        lines_map(o.drop_last()).insert(o.last().0, o.last().1)
    }
}

/// A map from output path to lines.
pub type LinesByPath = HashMap<String, Vec<String>>;

/// What a map from output path to lines holds.
pub uninterp spec fn lines_by_path(m: LinesByPath) -> Map<Seq<char>, Seq<Seq<char>>>;

/// An empty map (`HashMap::new`).
#[verifier::external_body]
fn new_lines_map() -> (r: LinesByPath)
    ensures
        lines_by_path(r).is_empty(),
{
    HashMap::new()
}

/// `HashMap::insert`: afterwards the path `k` maps to the lines `v`,
/// replacing what it mapped to before; the other paths keep theirs.
#[verifier::external_body]
fn insert_lines(m: &mut LinesByPath, k: String, v: Vec<String>)
    ensures
        lines_by_path(*final(m)) == lines_by_path(*old(m)).insert(k@, string_views(v@)),
{
    m.insert(k, v);
}

/// Verifies that `texts` (pairs of source text and file name, as given to
/// reading) tangle without errors; every file chunk is expanded in memory.
/// Returns the map from output path to lines, or the first expansion error.
pub fn tangle_check(
    texts: &[(&str, &str)],
    open_delim: &str,
    close_delim: &str,
    chunk_end: &str,
    comment_markers: &[String],
) -> (r: Result<HashMap<String, Vec<String>>, WeavebackError>)
    ensures
        ({
            let st0 = ChunkStore::new_spec(open_delim@, close_delim@, chunk_end@, comment_markers@.map_values(|m: String| m@));
            match tangle_spec(st0, text_views(texts@)) {
                Ok(o) => r matches Ok(m) && lines_by_path(m) == lines_map(o),
                Err(e) => r matches Err(WeavebackError::Chunk(er)) && er@ == e,
            }
        }),
{
    match tangle_outputs(texts, open_delim, close_delim, chunk_end, comment_markers) {
        Ok(pairs) => {
            let ghost o = output_views(pairs@);
            let mut map = new_lines_map();
            let mut pairs = pairs;
            let ghost total = pairs.len();
            assert(o.take(0) =~= Seq::<(Seq<char>, Seq<Seq<char>>)>::empty());
            assert(o.skip(0) =~= o);
            while pairs.len() > 0
                invariant
                    pairs.len() <= total == o.len(),
                    output_views(pairs@) == o.skip(total - pairs.len()),
                    lines_by_path(map) == lines_map(o.take(total - pairs.len())),
                decreases pairs.len(),
            {
                let ghost k = total - pairs.len();
                let ghost before = pairs@;
                let (key, v) = pairs.remove(0);
                assert(o[k] == (key@, string_views(v@))) by {
                    assert(output_views(before)[0] == o.skip(k)[0]);
                }
                assert(output_views(pairs@) =~= o.skip(k + 1)) by {
                    assert(pairs@ =~= before.subrange(1, before.len() as int));
                    assert forall|j: int| 0 <= j < pairs@.len() implies output_views(pairs@)[j] == o.skip(k + 1)[j] by {
                        assert(pairs@[j] == before[j + 1]);
                        assert(output_views(before)[j + 1] == o.skip(k)[j + 1]);
                    }
                }
                assert(o.take(k + 1).drop_last() =~= o.take(k));
                insert_lines(&mut map, key, v);
            }
            assert(o.take(total as int) =~= o);
            Ok(map)
        },
        Err(e) => Err(WeavebackError::Chunk(e)),
    }
}

// ── tangling is expanding each file chunk ────────────────────────────────

proof fn lemma_outputs_from(st: StoreView, fcs: Seq<Seq<char>>, i: int)
    requires
        0 <= i <= fcs.len(),
    ensures
        (outputs_from(st, fcs, i) is Ok) == (forall|j: int| i <= j < fcs.len() ==> #[trigger] expand_chunk(st, fcs[j], seq![]) is Ok),
        outputs_from(st, fcs, i) matches Ok(o) ==> o.len() == fcs.len() - i && forall|j: int|
            0 <= j < o.len() ==> #[trigger] o[j] == (out_name(fcs[i + j]), line_texts(expand_chunk(st, fcs[i + j], seq![])->Ok_0.lines)),
        outputs_from(st, fcs, i) matches Err(e) ==> exists|k: int|
            i <= k < fcs.len() && #[trigger] expand_chunk(st, fcs[k], seq![]) == Err::<ExpandOk, ChunkErrorView>(e) && forall|j: int|
                i <= j < k ==> #[trigger] expand_chunk(st, fcs[j], seq![]) is Ok,
    decreases fcs.len() - i,
{
    if i < fcs.len() {
        lemma_outputs_from(st, fcs, i + 1);
        match expand_chunk(st, fcs[i], seq![]) {
            Err(e) => {
                assert(expand_chunk(st, fcs[i], seq![]) == Err::<ExpandOk, ChunkErrorView>(e));
            },
            Ok(x) => {
                match outputs_from(st, fcs, i + 1) {
                    Ok(rest) => {
                        let o = seq![(out_name(fcs[i]), line_texts(x.lines))] + rest;
                        assert forall|j: int| 0 <= j < o.len() implies #[trigger] o[j] == (out_name(fcs[i + j]), line_texts(
                            expand_chunk(st, fcs[i + j], seq![])->Ok_0.lines,
                        )) by {
                            if j > 0 {
                                assert(o[j] == rest[j - 1]);
                                assert(i + 1 + (j - 1) == i + j);
                            }
                        }
                        assert forall|j: int| i <= j < fcs.len() implies #[trigger] expand_chunk(st, fcs[j], seq![]) is Ok by {
                            if j > i {
                                assert(i + 1 <= j);
                            }
                        }
                    },
                    Err(e) => {
                        let k = choose|k: int|
                            i + 1 <= k < fcs.len() && #[trigger] expand_chunk(st, fcs[k], seq![]) == Err::<ExpandOk, ChunkErrorView>(e)
                                && forall|j: int| i + 1 <= j < k ==> #[trigger] expand_chunk(st, fcs[j], seq![]) is Ok;
                        assert(expand_chunk(st, fcs[k], seq![]) == Err::<ExpandOk, ChunkErrorView>(e));
                        assert forall|j: int| i <= j < k implies #[trigger] expand_chunk(st, fcs[j], seq![]) is Ok by {
                            if j > i {
                                assert(i + 1 <= j);
                            }
                        }
                    },
                }
            },
        }
    }
}

proof fn lemma_lines_map(o: Seq<(Seq<char>, Seq<Seq<char>>)>)
    requires
        forall|a: int, b: int| 0 <= a < b < o.len() ==> o[a].0 != o[b].0,
    ensures
        forall|p: Seq<char>| #[trigger] lines_map(o).dom().contains(p) <==> exists|j: int| 0 <= j < o.len() && o[j].0 == p,
        forall|j: int| 0 <= j < o.len() ==> #[trigger] lines_map(o)[o[j].0] == o[j].1,
    decreases o.len(),
{
    if o.len() > 0 {
        let t = o.drop_last();
        lemma_lines_map(t);
        assert forall|p: Seq<char>| #[trigger] lines_map(o).dom().contains(p) <==> exists|j: int| 0 <= j < o.len() && o[j].0 == p by {
            if lines_map(o).dom().contains(p) {
                if p != o.last().0 {
                    assert(lines_map(t).dom().contains(p));
                    let j = choose|j: int| 0 <= j < t.len() && t[j].0 == p;
                    assert(o[j].0 == p);
                } else {
                    assert(o[o.len() - 1].0 == p);
                }
            }
            if exists|j: int| 0 <= j < o.len() && o[j].0 == p {
                let j = choose|j: int| 0 <= j < o.len() && o[j].0 == p;
                if j < t.len() {
                    assert(t[j].0 == p);
                    assert(lines_map(t).dom().contains(p));
                }
            }
        }
        assert forall|j: int| 0 <= j < o.len() implies #[trigger] lines_map(o)[o[j].0] == o[j].1 by {
            if j < t.len() {
                assert(t[j] == o[j]);
                assert(o[j].0 != o[o.len() - 1].0);
                assert(lines_map(t)[t[j].0] == t[j].1);
            } else {
                assert(o[j] == o.last());
            }
        }
    }
}

/// Law: tangling in memory is expanding each file chunk of the store that
/// has read every text: it succeeds exactly when every file chunk expands;
/// then it gives, for each file chunk in turn, its output path and its
/// expanded lines, and, when the output paths differ, its map takes each
/// output path to the lines of its chunk and holds nothing else; otherwise
/// its error is that of the first file chunk that fails.
pub proof fn law_tangle_is_per_file_expansion(st0: StoreView, texts: Seq<(Seq<char>, Seq<char>)>)
    ensures
        ({
            let st = read_all(st0, texts);
            let fcs = st.file_chunks;
            &&& (tangle_spec(st0, texts) is Ok) == (forall|j: int| 0 <= j < fcs.len() ==> #[trigger] expand_chunk(st, fcs[j], seq![]) is Ok)
            &&& tangle_spec(st0, texts) matches Ok(o) ==> o.len() == fcs.len() && forall|j: int|
                0 <= j < fcs.len() ==> #[trigger] o[j] == (out_name(fcs[j]), line_texts(expand_chunk(st, fcs[j], seq![])->Ok_0.lines))
            &&& tangle_spec(st0, texts) matches Ok(o) ==> ((forall|a: int, b: int| 0 <= a < b < fcs.len() ==> out_name(fcs[a]) != out_name(fcs[b]))
                ==> ((forall|p: Seq<char>| #[trigger] lines_map(o).dom().contains(p) <==> (exists|j: int| 0 <= j < fcs.len() && out_name(fcs[j]) == p))
                && (forall|j: int| 0 <= j < fcs.len() ==> #[trigger] lines_map(o)[out_name(fcs[j])] == line_texts(expand_chunk(st, fcs[j], seq![])->Ok_0.lines))))
            &&& tangle_spec(st0, texts) matches Err(e) ==> exists|k: int|
                0 <= k < fcs.len() && #[trigger] expand_chunk(st, fcs[k], seq![]) == Err::<ExpandOk, ChunkErrorView>(e) && forall|j: int|
                    0 <= j < k ==> #[trigger] expand_chunk(st, fcs[j], seq![]) is Ok
        }),
{
    let st = read_all(st0, texts);
    let fcs = st.file_chunks;
    lemma_outputs_from(st, fcs, 0);
    if let Ok(o) = tangle_spec(st0, texts) {
        assert forall|j: int| 0 <= j < fcs.len() implies #[trigger] o[j] == (out_name(fcs[j]), line_texts(expand_chunk(st, fcs[j], seq![])->Ok_0.lines)) by {
            assert(o[j] == (out_name(fcs[0 + j]), line_texts(expand_chunk(st, fcs[0 + j], seq![])->Ok_0.lines)));
        }
        if forall|a: int, b: int| 0 <= a < b < fcs.len() ==> out_name(fcs[a]) != out_name(fcs[b]) {
            assert forall|a: int, b: int| 0 <= a < b < o.len() implies o[a].0 != o[b].0 by {
                assert(o[a] == (out_name(fcs[a]), line_texts(expand_chunk(st, fcs[a], seq![])->Ok_0.lines)));
                assert(o[b] == (out_name(fcs[b]), line_texts(expand_chunk(st, fcs[b], seq![])->Ok_0.lines)));
            }
            lemma_lines_map(o);
            assert forall|p: Seq<char>| #[trigger] lines_map(o).dom().contains(p) <==> exists|j: int| 0 <= j < fcs.len() && out_name(fcs[j]) == p by {
                if exists|j: int| 0 <= j < o.len() && o[j].0 == p {
                    let j = choose|j: int| 0 <= j < o.len() && o[j].0 == p;
                    assert(o[j] == (out_name(fcs[j]), line_texts(expand_chunk(st, fcs[j], seq![])->Ok_0.lines)));
                }
                if exists|j: int| 0 <= j < fcs.len() && out_name(fcs[j]) == p {
                    let j = choose|j: int| 0 <= j < fcs.len() && out_name(fcs[j]) == p;
                    assert(o[j] == (out_name(fcs[j]), line_texts(expand_chunk(st, fcs[j], seq![])->Ok_0.lines)));
                }
            }
            assert forall|j: int| 0 <= j < fcs.len() implies #[trigger] lines_map(o)[out_name(fcs[j])] == line_texts(expand_chunk(st, fcs[j], seq![])->Ok_0.lines) by {
                assert(o[j] == (out_name(fcs[j]), line_texts(expand_chunk(st, fcs[j], seq![])->Ok_0.lines)));
                assert(lines_map(o)[o[j].0] == o[j].1);
            }
        }
    }
}

} // verus!
