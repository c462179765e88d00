//! What a block of a literate source is embedded as.
use vstd::prelude::*;
use crate::text::{chars_of, join_lines, join_range, lines, split_lines, string_of, sub_chars};

verus! {

/// The text of the block spanning lines `line_start..=line_end` (1-based)
/// of a source whose lines are `ls`: the lines of the block that lie within
/// the source, joined with `\n`; nothing when none does.
pub open spec fn block_text_spec(ls: Seq<Seq<char>>, line_start: int, line_end: int) -> Seq<char> {
    let lo = if line_start >= 1 { line_start - 1 } else { 0 };
    let hi = if line_end <= ls.len() { line_end } else { ls.len() as int };
    if lo < hi {
        join_lines(ls.subrange(lo, hi))
    } else {
        seq![]
    }
}

/// The text sent to the embedding model for the block spanning lines
/// `line_start..=line_end` of `source`.
pub fn block_text(source: &str, line_start: u32, line_end: u32) -> (r: String)
    ensures
        r@ == block_text_spec(lines(source@), line_start as int, line_end as int),
{
    let src = chars_of(source);
    let ls = split_lines(src.as_slice());
    let lo: usize = if line_start >= 1 { (line_start - 1) as usize } else { 0 };
    let hi: usize = if (line_end as usize) <= ls.len() { line_end as usize } else { ls.len() };
    if lo < hi {
        let t = join_range(ls.as_slice(), lo, hi);
        string_of(t.as_slice())
    } else {
        String::new()
    }
}

/// The key a source's snapshot is looked up under when its own name finds
/// none: the name without a leading `./`.
pub open spec fn snapshot_fallback_of(src_file: Seq<char>) -> Seq<char> {
    if src_file.len() >= 2 && src_file[0] == '.' && src_file[1] == '/' {
        src_file.skip(2)
    } else {
        src_file
    }
}

/// The second key a source's snapshot is looked up under.
pub fn snapshot_fallback(src_file: &str) -> (r: String)
    ensures
        r@ == snapshot_fallback_of(src_file@),
{
    let c = chars_of(src_file);
    if c.len() >= 2 && c[0] == '.' && c[1] == '/' {
        let rest = sub_chars(c.as_slice(), 2, c.len());
        assert(rest@ =~= src_file@.skip(2));
        string_of(rest.as_slice())
    } else {
        string_of(c.as_slice())
    }
}

} // verus!
