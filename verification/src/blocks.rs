//! Splitting a literate source into logical blocks (sections, code blocks,
//! paragraphs) with a content hash each, so that a later run can skip the
//! blocks that did not change.
use vstd::prelude::*;
use pulldown_cmark::{Event, Tag, TagEnd};
use crate::text::{
    chars_eq, chars_of, lemma_trim_end_take, lemma_ws_tail_start, lines, push_all, split_lines, string_of,
    trim, trim_chars, trim_end, views, ws_tail,
};

verus! {

// ── AsciiDoc lines ───────────────────────────────────────────────────────

/// `t` is at least four characters long and made of `c` alone.
pub open spec fn run_of(t: Seq<char>, c: char) -> bool {
    t.len() >= 4 && forall|i: int| 0 <= i < t.len() ==> #[trigger] t[i] == c
}

/// A delimiter of an AsciiDoc listing (`----`), literal (`....`) or
/// passthrough (`++++`) block, trailing whitespace aside.
pub open spec fn adoc_fence(line: Seq<char>) -> bool {
    let t = trim_end(line);
    run_of(t, '-') || run_of(t, '.') || run_of(t, '+')
}

fn all_same(t: &[char], c: char) -> (b: bool)
    ensures
        b == run_of(t@, c),
{
    if t.len() < 4 {
        return false;
    }
    let mut i: usize = 0;
    while i < t.len()
        invariant
            i <= t.len(),
            forall|j: int| 0 <= j < i ==> t@[j] == c,
        decreases t.len() - i,
    {
        if t[i] != c {
            return false;
        }
        i = i + 1;
    }
    true
}

fn fence_chars(l: &[char]) -> (b: bool)
    ensures
        b == adoc_fence(l@),
{
    let k = ws_tail(l);
    proof {
        lemma_trim_end_take(l@);
        lemma_ws_tail_start(l@);
    }
    let mut t: Vec<char> = Vec::new();
    let mut i: usize = 0;
    while i < k
        invariant
            i <= k <= l.len(),
            t@ == l@.take(i as int),
        decreases k - i,
    {
        t.push(l[i]);
        assert(t@ =~= l@.take(i + 1));
        i = i + 1;
    }
    all_same(t.as_slice(), '-') || all_same(t.as_slice(), '.') || all_same(t.as_slice(), '+')
}

/// Whether `line` delimits an AsciiDoc listing, literal or passthrough block.
pub fn is_adoc_fence(line: &str) -> (b: bool)
    ensures
        b == adoc_fence(line@),
{
    let l = chars_of(line);
    fence_chars(l.as_slice())
}

/// `s` without its leading `c` characters.
pub open spec fn skip_lead(s: Seq<char>, c: char) -> Seq<char>
    decreases s.len(),
{
    if s.len() > 0 && s[0] == c {
        skip_lead(s.drop_first(), c)
    } else {
        s
    }
}

/// An AsciiDoc section title: one or more `=`, then a space or nothing.
pub open spec fn adoc_header(line: Seq<char>) -> bool {
    line.len() > 0 && line[0] == '=' && {
        let r = skip_lead(line.drop_first(), '=');
        r.len() == 0 || r[0] == ' '
    }
}

fn header_chars(l: &[char]) -> (b: bool)
    ensures
        b == adoc_header(l@),
{
    if l.len() == 0 || l[0] != '=' {
        return false;
    }
    let mut i: usize = 1;
    assert(l@.drop_first() =~= l@.skip(1));
    while i < l.len() && l[i] == '='
        invariant
            1 <= i <= l.len(),
            skip_lead(l@.drop_first(), '=') == skip_lead(l@.skip(i as int), '='),
        decreases l.len() - i,
    {
        assert(l@.skip(i as int).drop_first() =~= l@.skip(i + 1));
        i = i + 1;
    }
    if i < l.len() {
        assert(l@.skip(i as int)[0] == l@[i as int]);
    }
    i == l.len() || l[i] == ' '
}

/// Whether `line` is an AsciiDoc section title.
pub fn is_adoc_section_header(line: &str) -> (b: bool)
    ensures
        b == adoc_header(line@),
{
    let l = chars_of(line);
    header_chars(l.as_slice())
}

// ── AsciiDoc blocks ──────────────────────────────────────────────────────

/// What a block holds.
#[derive(Clone, Copy, Debug, PartialEq, Eq, Structural)]
pub enum BlockKind {
    /// A section title line.
    Section,
    /// A delimited block, its delimiters included.
    Code,
    /// A run of consecutive prose lines.
    Para,
    /// A whole file that is not split.
    Text,
}

/// The name a block kind is stored under.
pub open spec fn kind_name(k: BlockKind) -> Seq<char> {
    match k {
        BlockKind::Section => "section"@,
        BlockKind::Code => "code"@,
        BlockKind::Para => "para"@,
        BlockKind::Text => "text"@,
    }
}

impl BlockKind {
    pub fn as_str(&self) -> (s: &'static str)
        ensures
            s@ == kind_name(*self),
    {
        match self {
            BlockKind::Section => "section",
            BlockKind::Code => "code",
            BlockKind::Para => "para",
            BlockKind::Text => "text",
        }
    }
}

/// A block before hashing: 1-based first and last line, kind and text.
pub struct RawBlock {
    pub start: u32,
    pub end: u32,
    pub kind: BlockKind,
    pub content: Vec<char>,
}

pub struct RawView {
    pub start: int,
    pub end: int,
    pub kind: BlockKind,
    pub content: Seq<char>,
}

impl View for RawBlock {
    type V = RawView;

    open spec fn view(&self) -> RawView {
        RawView { start: self.start as int, end: self.end as int, kind: self.kind, content: self.content@ }
    }
}

pub open spec fn raw_views(v: Seq<RawBlock>) -> Seq<RawView> {
    v.map_values(|b: RawBlock| b@)
}

/// The state of the AsciiDoc scanner between two lines.
pub struct AdocState {
    pub in_delim: bool,
    pub delim_start: int,
    pub delim_buf: Seq<char>,
    pub para_start: int,
    pub para_buf: Seq<char>,
    /// A block attribute line (`[source,rust]`) waiting to see whether a
    /// delimited block follows it.
    pub attr: Option<(int, Seq<char>)>,
    pub blocks: Seq<RawView>,
}

pub open spec fn adoc_init() -> AdocState {
    AdocState {
        in_delim: false,
        delim_start: 0,
        delim_buf: seq![],
        para_start: 0,
        para_buf: seq![],
        attr: None,
        blocks: seq![],
    }
}

/// Ends the pending paragraph, if any, before line `cur`.
pub open spec fn flush_para(st: AdocState, cur: int) -> AdocState {
    if st.para_buf.len() > 0 {
        let end = if cur - 1 >= st.para_start { cur - 1 } else { st.para_start };
        AdocState {
            para_buf: seq![],
            blocks: st.blocks.push(RawView { start: st.para_start, end: end, kind: BlockKind::Para, content: st.para_buf }),
            ..st
        }
    } else {
        st
    }
}

/// A block attribute line: `[`, anything, `]`, whitespace aside.
pub open spec fn attr_line(line: Seq<char>) -> bool {
    let t = trim(line);
    t.len() > 0 && t[0] == '[' && t.last() == ']'
}

/// Line `n` outside a delimited block, with no attribute line pending.
pub open spec fn adoc_plain_step(st: AdocState, line: Seq<char>, n: int) -> AdocState {
    let with_nl = line.push('\n');
    if adoc_fence(line) {
        let f = flush_para(st, n);
        AdocState { in_delim: true, delim_start: n, delim_buf: f.delim_buf + with_nl, ..f }
    } else if adoc_header(line) {
        let f = flush_para(st, n);
        AdocState {
            blocks: f.blocks.push(RawView { start: n, end: n, kind: BlockKind::Section, content: line }),
            ..f
        }
    } else if trim(line).len() == 0 {
        flush_para(st, n)
    } else if attr_line(line) && st.para_buf.len() == 0 {
        AdocState { attr: Some((n, line)), ..st }
    } else {
        let start = if st.para_buf.len() == 0 { n } else { st.para_start };
        AdocState { para_start: start, para_buf: st.para_buf + with_nl, ..st }
    }
}

/// The scanner's state after line `n` (1-based), whose text is `line`: a
/// pending attribute line opens the delimited block that follows it, or
/// else starts a paragraph.
pub open spec fn adoc_step(st: AdocState, line: Seq<char>, n: int) -> AdocState {
    let with_nl = line.push('\n');
    if st.in_delim {
        let buf = st.delim_buf + with_nl;
        if adoc_fence(line) {
            AdocState {
                in_delim: false,
                delim_buf: seq![],
                blocks: st.blocks.push(RawView { start: st.delim_start, end: n, kind: BlockKind::Code, content: buf }),
                ..st
            }
        } else {
            AdocState { delim_buf: buf, ..st }
        }
    } else {
        match st.attr {
            Some((an, al)) => if adoc_fence(line) {
                AdocState {
                    in_delim: true,
                    delim_start: an,
                    delim_buf: st.delim_buf + al.push('\n') + with_nl,
                    attr: None,
                    ..st
                }
            } else {
                adoc_plain_step(
                    AdocState { attr: None, para_start: an, para_buf: st.para_buf + al.push('\n'), ..st },
                    line,
                    n,
                )
            },
            None => adoc_plain_step(st, line, n),
        }
    }
}

/// The scanner's state after the lines `ls`.
pub open spec fn adoc_run(ls: Seq<Seq<char>>) -> AdocState
    decreases ls.len(),
{
    if ls.len() == 0 {
        adoc_init()
    } else {
        adoc_step(adoc_run(ls.drop_last()), ls.last(), ls.len() as int)
    }
}

/// The blocks of an AsciiDoc text: a block still open at the end runs to
/// the last line; a text without any block is one text block.
pub open spec fn adoc_blocks(src: Seq<char>) -> Seq<RawView> {
    let ls = lines(src);
    let st = adoc_run(ls);
    let total = ls.len() as int;
    let bs = if st.in_delim && st.delim_buf.len() > 0 {
        st.blocks.push(RawView { start: st.delim_start, end: total, kind: BlockKind::Code, content: st.delim_buf })
    } else if st.attr is Some {
        let (an, al) = st.attr->0;
        st.blocks.push(RawView { start: an, end: total, kind: BlockKind::Para, content: al.push('\n') })
    } else if st.para_buf.len() > 0 {
        st.blocks.push(RawView { start: st.para_start, end: total, kind: BlockKind::Para, content: st.para_buf })
    } else {
        st.blocks
    };
    if bs.len() == 0 {
        seq![text_block(src)]
    } else {
        bs
    }
}

struct AdocScan {
    in_delim: bool,
    delim_start: u32,
    delim_buf: Vec<char>,
    para_start: u32,
    para_buf: Vec<char>,
    attr: Option<(u32, Vec<char>)>,
    blocks: Vec<RawBlock>,
}

impl View for AdocScan {
    type V = AdocState;

    closed spec fn view(&self) -> AdocState {
        AdocState {
            in_delim: self.in_delim,
            delim_start: self.delim_start as int,
            delim_buf: self.delim_buf@,
            para_start: self.para_start as int,
            para_buf: self.para_buf@,
            attr: match self.attr {
                Some((an, al)) => Some((an as int, al@)),
                None => None,
            },
            blocks: raw_views(self.blocks@),
        }
    }
}

fn attr_chars(l: &[char]) -> (b: bool)
    ensures
        b == attr_line(l@),
{
    let t = trim_chars(l);
    let n = t.len();
    n > 0 && t[0] == '[' && t[n - 1] == ']'
}

impl AdocScan {
    fn new() -> (s: Self)
        ensures
            s@ == adoc_init(),
    {
        let s = AdocScan {
            in_delim: false,
            delim_start: 0,
            delim_buf: Vec::new(),
            para_start: 0,
            para_buf: Vec::new(),
            attr: None,
            blocks: Vec::new(),
        };
        assert(s@.blocks =~= Seq::<RawView>::empty());
        s
    }

    fn flush(&mut self, cur: u32)
        requires
            old(self)@.para_start <= cur,
        ensures
            final(self)@ == flush_para(old(self)@, cur as int),
    {
        if self.para_buf.len() > 0 {
            let end = if cur >= 1 && cur - 1 >= self.para_start { cur - 1 } else { self.para_start };
            let mut content: Vec<char> = Vec::new();
            std::mem::swap(&mut content, &mut self.para_buf);
            let ghost before = raw_views(self.blocks@);
            let b = RawBlock { start: self.para_start, end, kind: BlockKind::Para, content };
            self.blocks.push(b);
            assert(raw_views(self.blocks@) =~= before.push(b@));
        }
    }

    fn plain_step(&mut self, line: &[char], n: u32, fence: bool)
        requires
            n >= 1,
            old(self)@.para_start < n,
            old(self)@.delim_start < n,
            !old(self)@.in_delim,
            old(self)@.attr is None,
            fence == adoc_fence(line@),
        ensures
            final(self)@ == adoc_plain_step(old(self)@, line@, n as int),
            final(self)@.para_start <= n,
            final(self)@.delim_start <= n,
            final(self)@.attr matches Some((an, al)) ==> an == n,
    {
        if fence {
            self.flush(n);
            let ghost f = self@;
            self.in_delim = true;
            self.delim_start = n;
            push_all(&mut self.delim_buf, line);
            self.delim_buf.push('\n');
            assert(self.delim_buf@ =~= f.delim_buf + line@.push('\n'));
            return;
        }
        if header_chars(line) {
            self.flush(n);
            let ghost before = raw_views(self.blocks@);
            let mut content: Vec<char> = Vec::new();
            push_all(&mut content, line);
            let b = RawBlock { start: n, end: n, kind: BlockKind::Section, content };
            self.blocks.push(b);
            assert(raw_views(self.blocks@) =~= before.push(b@));
            return;
        }
        let t = trim_chars(line);
        if t.len() == 0 {
            self.flush(n);
            return;
        }
        if attr_chars(line) && self.para_buf.len() == 0 {
            let mut al: Vec<char> = Vec::new();
            push_all(&mut al, line);
            assert(al@ =~= line@);
            self.attr = Some((n, al));
            return;
        }
        if self.para_buf.len() == 0 {
            self.para_start = n;
        }
        push_all(&mut self.para_buf, line);
        self.para_buf.push('\n');
        assert(self.para_buf@ =~= old(self)@.para_buf + line@.push('\n'));
    }

    fn step(&mut self, line: &[char], n: u32)
        requires
            n >= 1,
            old(self)@.para_start < n,
            old(self)@.delim_start < n,
            old(self)@.attr matches Some((an, al)) ==> an < n,
        ensures
            final(self)@ == adoc_step(old(self)@, line@, n as int),
            final(self)@.para_start <= n,
            final(self)@.delim_start <= n,
            final(self)@.attr matches Some((an, al)) ==> an <= n,
    {
        let fence = fence_chars(line);
        if self.in_delim {
            push_all(&mut self.delim_buf, line);
            self.delim_buf.push('\n');
            assert(self.delim_buf@ =~= old(self)@.delim_buf + line@.push('\n'));
            if fence {
                let mut content: Vec<char> = Vec::new();
                std::mem::swap(&mut content, &mut self.delim_buf);
                let ghost before = raw_views(self.blocks@);
                let b = RawBlock { start: self.delim_start, end: n, kind: BlockKind::Code, content };
                self.blocks.push(b);
                assert(raw_views(self.blocks@) =~= before.push(b@));
                self.in_delim = false;
                assert(self.delim_buf@ =~= Seq::<char>::empty());
            }
            return;
        }
        let mut pending: Option<(u32, Vec<char>)> = None;
        std::mem::swap(&mut pending, &mut self.attr);
        match pending {
            Some((an, al)) => {
                if fence {
                    self.in_delim = true;
                    self.delim_start = an;
                    push_all(&mut self.delim_buf, al.as_slice());
                    self.delim_buf.push('\n');
                    push_all(&mut self.delim_buf, line);
                    self.delim_buf.push('\n');
                    assert(self.delim_buf@ =~= old(self)@.delim_buf + al@.push('\n') + line@.push('\n'));
                    return;
                }
                self.para_start = an;
                push_all(&mut self.para_buf, al.as_slice());
                self.para_buf.push('\n');
                assert(self.para_buf@ =~= old(self)@.para_buf + al@.push('\n'));
                self.plain_step(line, n, fence);
            },
            None => {
                self.plain_step(line, n, fence);
            },
        }
    }
}

/// Splits an AsciiDoc text into section titles, delimited blocks (with
/// their delimiters, and with the attribute line right above them) and
/// paragraphs; a text without any of them is one text block.
pub fn parse_adoc_raw(source: &str) -> (r: Vec<RawBlock>)
    requires
        lines(source@).len() < 0xffff_ffff,
    ensures
        raw_views(r@) == adoc_blocks(source@),
{
    let src = chars_of(source);
    let ls = split_lines(src.as_slice());
    let ghost l = lines(source@);
    let n = ls.len();
    let mut scan = AdocScan::new();
    let mut i: usize = 0;
    assert(l.take(0) =~= Seq::<Seq<char>>::empty());
    while i < n
        invariant
            i <= n == ls.len() < 0xffff_ffff,
            views(ls@) == l,
            scan@ == adoc_run(l.take(i as int)),
            scan@.para_start <= i,
            scan@.delim_start <= i,
            scan@.attr matches Some((an, al)) ==> an <= i,
        decreases n - i,
    {
        assert(l.take(i + 1).drop_last() =~= l.take(i as int));
        assert(l.take(i + 1).last() == ls@[i as int]@);
        scan.step(ls[i].as_slice(), (i + 1) as u32);
        i = i + 1;
    }
    assert(l.take(n as int) =~= l);
    let total = n as u32;
    let AdocScan { in_delim, delim_start, delim_buf, para_start, para_buf, attr, blocks } = scan;
    let mut blocks = blocks;
    let ghost before = raw_views(blocks@);
    if in_delim && delim_buf.len() > 0 {
        let b = RawBlock { start: delim_start, end: total, kind: BlockKind::Code, content: delim_buf };
        blocks.push(b);
        assert(raw_views(blocks@) =~= before.push(b@));
    } else {
        match attr {
            Some((an, al)) => {
                let mut content = al;
                let ghost alv = content@;
                content.push('\n');
                let b = RawBlock { start: an, end: total, kind: BlockKind::Para, content };
                blocks.push(b);
                assert(raw_views(blocks@) =~= before.push(b@));
            },
            None => {
                if para_buf.len() > 0 {
                    let b = RawBlock { start: para_start, end: total, kind: BlockKind::Para, content: para_buf };
                    blocks.push(b);
                    assert(raw_views(blocks@) =~= before.push(b@));
                }
            },
        }
    }
    if blocks.len() == 0 {
        let mut v: Vec<RawBlock> = Vec::new();
        v.push(text_block_of(source));
        assert(raw_views(v@) =~= seq![text_block(source@)]);
        return v;
    }
    blocks
}

/// Whether an AsciiDoc text ends inside a delimited block that was never
/// closed.
pub fn has_unclosed_adoc_fence(source: &str) -> (b: bool)
    requires
        lines(source@).len() < 0xffff_ffff,
    ensures
        b == adoc_run(lines(source@)).in_delim,
{
    let src = chars_of(source);
    let ls = split_lines(src.as_slice());
    let ghost l = lines(source@);
    let n = ls.len();
    let mut scan = AdocScan::new();
    let mut i: usize = 0;
    assert(l.take(0) =~= Seq::<Seq<char>>::empty());
    while i < n
        invariant
            i <= n == ls.len() < 0xffff_ffff,
            views(ls@) == l,
            scan@ == adoc_run(l.take(i as int)),
            scan@.para_start <= i,
            scan@.delim_start <= i,
            scan@.attr matches Some((an, al)) ==> an <= i,
        decreases n - i,
    {
        assert(l.take(i + 1).drop_last() =~= l.take(i as int));
        assert(l.take(i + 1).last() == ls@[i as int]@);
        scan.step(ls[i].as_slice(), (i + 1) as u32);
        i = i + 1;
    }
    assert(l.take(n as int) =~= l);
    scan.in_delim
}


// ── Markdown ─────────────────────────────────────────────────────────────

/// A Markdown parser event, as far as block splitting needs it, with the
/// byte range of the source that it covers.
#[derive(Clone, Copy, Debug, PartialEq, Eq, Structural)]
pub enum MdEvent {
    StartHeading,
    StartCode,
    StartOther,
    EndHeading,
    EndCode,
    EndOther,
    Other,
}

/// The events that pulldown-cmark's offset iterator yields for a text.
pub uninterp spec fn markdown_events_of(source: Seq<char>) -> Seq<(MdEvent, usize, usize)>;

/// The events of `pulldown_cmark::Parser::new(source).into_offset_iter()`,
/// each reduced to the kind of its tag and its byte range.
///
/// The result is named by `markdown_events_of`; nothing more of it is
/// stated, the CommonMark grammar being the parser's own.
#[verifier::external_body]
fn markdown_events(source: &str) -> (r: Vec<(MdEvent, usize, usize)>)
    ensures
        r@ == markdown_events_of(source@),
{
    pulldown_cmark::Parser::new(source).into_offset_iter().map(|(ev, range)| {
        let kind = match ev {
            Event::Start(Tag::Heading { .. }) => MdEvent::StartHeading,
            Event::Start(Tag::CodeBlock(_)) => MdEvent::StartCode,
            Event::Start(_) => MdEvent::StartOther,
            Event::End(TagEnd::Heading(_)) => MdEvent::EndHeading,
            Event::End(TagEnd::CodeBlock) => MdEvent::EndCode,
            Event::End(_) => MdEvent::EndOther,
            _ => MdEvent::Other,
        };
        (kind, range.start, range.end)
    }).collect()
}

/// The state of the Markdown walk: nesting depth, the kind and first byte
/// of the open top-level block, and the byte ranges of the blocks found.
pub struct MdState {
    pub depth: int,
    pub cur: Option<BlockKind>,
    pub cur_start: int,
    pub found: Seq<(int, int, BlockKind)>,
}

pub open spec fn md_step(st: MdState, ev: (MdEvent, usize, usize)) -> MdState {
    let (k, a, e) = ev;
    if k == MdEvent::StartHeading || k == MdEvent::StartCode || k == MdEvent::StartOther {
        let d = st.depth + 1;
        if d == 1 {
            let bt = if k == MdEvent::StartHeading {
                BlockKind::Section
            } else if k == MdEvent::StartCode {
                BlockKind::Code
            } else {
                BlockKind::Para
            };
            MdState { depth: d, cur: Some(bt), cur_start: a as int, ..st }
        } else {
            MdState { depth: d, ..st }
        }
    } else if k == MdEvent::EndHeading || k == MdEvent::EndCode || k == MdEvent::EndOther {
        let d = if st.depth > 0 { st.depth - 1 } else { 0 };
        if st.depth == 1 && st.cur is Some {
            let bt = st.cur->0;
            let emit = k == MdEvent::EndHeading || k == MdEvent::EndCode || bt == BlockKind::Para;
            MdState {
                depth: d,
                cur: None,
                found: if emit { st.found.push((st.cur_start, e as int, bt)) } else { st.found },
                ..st
            }
        } else {
            MdState { depth: d, ..st }
        }
    } else {
        st
    }
}

pub open spec fn md_run(evs: Seq<(MdEvent, usize, usize)>) -> MdState
    decreases evs.len(),
{
    if evs.len() == 0 {
        MdState { depth: 0, cur: None, cur_start: 0, found: seq![] }
    } else {
        md_step(md_run(evs.drop_last()), evs.last())
    }
}

/// The 1-based line of byte `k` of the text whose bytes are `b` (line 1
/// for an offset past the end).
pub open spec fn line_at(b: Seq<u8>, k: int) -> int {
    if 0 <= k <= b.len() {
        1 + b.take(k).filter(|x: u8| x == 10u8).len() as int
    } else {
        1
    }
}

/// The number of bytes of a character in UTF-8.
pub open spec fn utf8_len(c: char) -> int {
    if (c as u32) < 0x80 {
        1
    } else if (c as u32) < 0x800 {
        2
    } else if (c as u32) < 0x10000 {
        3
    } else {
        4
    }
}

/// The characters of `s` whose first byte lies in `[a, e)`, where the first
/// character of `s` starts at byte `off`.
pub open spec fn chars_between(s: Seq<char>, off: int, a: int, e: int) -> Seq<char>
    decreases s.len(),
{
    if s.len() == 0 {
        seq![]
    } else {
        (if a <= off < e {
            seq![s[0]]
        } else {
            seq![]
        }) + chars_between(s.drop_first(), off + utf8_len(s[0]), a, e)
    }
}

/// The single block of a text that is not split.
pub open spec fn text_block(src: Seq<char>) -> RawView {
    let n = lines(src).len();
    RawView { start: 1, end: (if n >= 1 { n } else { 1 }) as u32 as int, kind: BlockKind::Text, content: src }
}

/// The blocks of a Markdown text: the top-level headings, code blocks and
/// other leaf blocks; the whole text as one block when there is none.
pub open spec fn md_blocks(src: Seq<char>) -> Seq<RawView> {
    let b = vstd::utf8::encode_utf8(src);
    let found = md_run(markdown_events_of(src)).found;
    if found.len() == 0 {
        seq![text_block(src)]
    } else {
        found.map_values(
            |f: (int, int, BlockKind)|
                RawView {
                    start: line_at(b, f.0) as u32 as int,
                    end: line_at(b, if f.1 >= 1 { f.1 - 1 } else { 0 }) as u32 as int,
                    kind: f.2,
                    content: chars_between(src, 0, f.0, if f.1 <= b.len() { f.1 } else { b.len() as int }),
                },
        )
    }
}

/// Map of byte offset to 1-based line number, with one more entry for the
/// end of the text.
pub fn build_line_table(source: &str) -> (t: Vec<usize>)
    requires
        vstd::utf8::encode_utf8(source@).len() < usize::MAX,
    ensures
        t@.len() == vstd::utf8::encode_utf8(source@).len() + 1,
        forall|k: int| 0 <= k < t@.len() ==> t@[k] == line_at(vstd::utf8::encode_utf8(source@), k),
{
    let b = source.as_bytes();
    let ghost bs = b@;
    let mut table: Vec<usize> = Vec::new();
    let mut line: usize = 1;
    let mut i: usize = 0;
    assert(bs.take(0) =~= Seq::<u8>::empty());
    while i < b.len()
        invariant
            i <= b.len() < usize::MAX,
            bs == b@,
            table@.len() == i,
            line == line_at(bs, i as int),
            line <= i + 1,
            forall|k: int| 0 <= k < i ==> table@[k] == line_at(bs, k),
        decreases b.len() - i,
    {
        table.push(line);
        assert(bs.take(i + 1) =~= bs.take(i as int).push(bs[i as int]));
        proof {
            bs.take(i as int).lemma_filter_len_push(|x: u8| x == 10u8, bs[i as int]);
        }
        if b[i] == 10 {
            line = line + 1;
        }
        i = i + 1;
    }
    table.push(line);
    table
}

/// The line of byte `byte` in a table made by [`build_line_table`]; 1 past
/// its end.
pub fn byte_to_line(table: &[usize], byte: usize) -> (r: u32)
    ensures
        r == (if byte < table@.len() { table@[byte as int] as u32 } else { 1u32 }),
{
    if byte < table.len() {
        table[byte] as u32
    } else {
        1
    }
}

fn char_utf8_len(c: char) -> (n: usize)
    ensures
        n == utf8_len(c),
{
    let v = c as u32;
    if v < 0x80 {
        1
    } else if v < 0x800 {
        2
    } else if v < 0x10000 {
        3
    } else {
        4
    }
}

/// The characters of `s` whose first byte lies in `[a, e)`.
fn slice_by_bytes(s: &[char], a: usize, e: usize) -> (r: Vec<char>)
    requires
        s@.len() * 4 < usize::MAX,
    ensures
        r@ == chars_between(s@, 0, a as int, e as int),
{
    let mut r: Vec<char> = Vec::new();
    let mut off: usize = 0;
    let mut i: usize = 0;
    assert(s@.skip(0) =~= s@);
    while i < s.len()
        invariant
            i <= s.len(),
            s@.len() * 4 < usize::MAX,
            off <= 4 * i,
            r@ + chars_between(s@.skip(i as int), off as int, a as int, e as int) == chars_between(
                s@,
                0,
                a as int,
                e as int,
            ),
        decreases s.len() - i,
    {
        let ghost rest = s@.skip(i as int);
        let ghost before = r@;
        assert(rest.drop_first() =~= s@.skip(i + 1));
        assert(rest[0] == s@[i as int]);
        let c = s[i];
        if a <= off && off < e {
            r.push(c);
        }
        assert(r@ + chars_between(s@.skip(i + 1), off + utf8_len(c), a as int, e as int) =~= before
            + chars_between(rest, off as int, a as int, e as int));
        off = off + char_utf8_len(c);
        i = i + 1;
    }
    assert(chars_between(s@.skip(i as int), off as int, a as int, e as int) =~= Seq::<char>::empty());
    r
}

fn text_block_of(source: &str) -> (r: RawBlock)
    ensures
        r@ == text_block(source@),
{
    let src = chars_of(source);
    let ls = split_lines(src.as_slice());
    let n = ls.len();
    let end = if n >= 1 { n as u32 } else { 1 };
    RawBlock { start: 1, end, kind: BlockKind::Text, content: src }
}

/// Splits a Markdown text into its top-level blocks.
pub fn parse_markdown_raw(source: &str) -> (r: Vec<RawBlock>)
    requires
        source@.len() * 4 < usize::MAX,
        vstd::utf8::encode_utf8(source@).len() < usize::MAX,
    ensures
        raw_views(r@) == md_blocks(source@),
{
    let src = chars_of(source);
    let table = build_line_table(source);
    let ghost b = vstd::utf8::encode_utf8(source@);
    let nbytes = source.as_bytes().len();
    let evs = markdown_events(source);
    let mut depth: usize = 0;
    let mut cur: Option<BlockKind> = None;
    let mut cur_start: usize = 0;
    let mut found: Vec<(usize, usize, BlockKind)> = Vec::new();
    let mut i: usize = 0;
    assert(evs@.take(0) =~= Seq::<(MdEvent, usize, usize)>::empty());
    assert(found@.map_values(|f: (usize, usize, BlockKind)| (f.0 as int, f.1 as int, f.2)) =~= Seq::<(int, int, BlockKind)>::empty());
    while i < evs.len()
        invariant
            i <= evs.len(),
            evs@ == markdown_events_of(source@),
            depth <= i,
            md_run(evs@.take(i as int)) == (MdState {
                depth: depth as int,
                cur: cur,
                cur_start: cur_start as int,
                found: found@.map_values(|f: (usize, usize, BlockKind)| (f.0 as int, f.1 as int, f.2)),
            }),
        decreases evs.len() - i,
    {
        assert(evs@.take(i + 1).drop_last() =~= evs@.take(i as int));
        assert(evs@.take(i + 1).last() == evs@[i as int]);
        let (k, a, e) = evs[i];
        let ghost before = found@.map_values(|f: (usize, usize, BlockKind)| (f.0 as int, f.1 as int, f.2));
        match k {
            MdEvent::StartHeading | MdEvent::StartCode | MdEvent::StartOther => {
                depth = depth + 1;
                if depth == 1 {
                    cur = Some(
                        match k {
                            MdEvent::StartHeading => BlockKind::Section,
                            MdEvent::StartCode => BlockKind::Code,
                            _ => BlockKind::Para,
                        },
                    );
                    cur_start = a;
                }
            },
            MdEvent::EndHeading | MdEvent::EndCode | MdEvent::EndOther => {
                if depth == 1 {
                    match cur {
                        Some(bt) => {
                            let emit = match k {
                                MdEvent::EndHeading | MdEvent::EndCode => true,
                                _ => bt == BlockKind::Para,
                            };
                            if emit {
                                found.push((cur_start, e, bt));
                                assert(found@.map_values(|f: (usize, usize, BlockKind)| (f.0 as int, f.1 as int, f.2))
                                    =~= before.push((cur_start as int, e as int, bt)));
                            }
                            cur = None;
                        },
                        None => {},
                    }
                }
                if depth > 0 {
                    depth = depth - 1;
                }
            },
            MdEvent::Other => {},
        }
        i = i + 1;
    }
    assert(evs@.take(evs.len() as int) =~= evs@);
    let mut blocks: Vec<RawBlock> = Vec::new();
    if found.len() == 0 {
        let tb = text_block_of(source);
        blocks.push(tb);
        assert(raw_views(blocks@) =~= seq![text_block(source@)]);
        return blocks;
    }
    let ghost fv = found@.map_values(|f: (usize, usize, BlockKind)| (f.0 as int, f.1 as int, f.2));
    let mut j: usize = 0;
    while j < found.len()
        invariant
            j <= found.len(),
            found.len() > 0,
            table@.len() == b.len() + 1,
            nbytes == b.len(),
            forall|k: int| 0 <= k < table@.len() ==> table@[k] == line_at(b, k),
            src@ == source@,
            src@.len() * 4 < usize::MAX,
            b == vstd::utf8::encode_utf8(source@),
            fv == found@.map_values(|f: (usize, usize, BlockKind)| (f.0 as int, f.1 as int, f.2)),
            fv == md_run(markdown_events_of(source@)).found,
            raw_views(blocks@) == md_blocks(source@).take(j as int),
        decreases found.len() - j,
    {
        let (a, e, bt) = found[j];
        let start = byte_to_line(table.as_slice(), a);
        let end = byte_to_line(table.as_slice(), e.saturating_sub(1));
        let lim = if e <= nbytes { e } else { nbytes };
        let content = slice_by_bytes(src.as_slice(), a, lim);
        let rb = RawBlock { start, end, kind: bt, content };
        let ghost before = raw_views(blocks@);
        blocks.push(rb);
        assert(md_blocks(source@)[j as int] == rb@);
        assert(raw_views(blocks@) =~= before.push(rb@));
        assert(md_blocks(source@).take(j + 1) =~= md_blocks(source@).take(j as int).push(md_blocks(source@)[j as int]));
        j = j + 1;
    }
    assert(md_blocks(source@).take(found.len() as int) =~= md_blocks(source@));
    blocks
}


// ── hashed blocks ────────────────────────────────────────────────────────

/// A logical block of a source file with its line range and content hash.
#[derive(Debug, Clone)]
pub struct SourceBlockEntry {
    pub block_index: u32,
    pub block_type: String,
    /// 1-based, inclusive.
    pub line_start: u32,
    /// 1-based, inclusive.
    pub line_end: u32,
    pub content_hash: [u8; 32],
}

/// The BLAKE3 digest of a byte string.
pub uninterp spec fn blake3_of(data: Seq<u8>) -> Seq<u8>;

/// The BLAKE3 digest of `data` (`blake3::Hasher`, one `update`, `finalize`).
#[verifier::external_body]
fn blake3_digest(data: &[u8]) -> (r: [u8; 32])
    ensures
        r@ == blake3_of(data@),
{
    let mut h = blake3::Hasher::new();
    h.update(data);
    *h.finalize().as_bytes()
}

/// The blocks of a source, by its file extension: AsciiDoc for `adoc` and
/// `asciidoc`, Markdown for `md` and `markdown`, one text block otherwise.
pub open spec fn raw_blocks_of(src: Seq<char>, ext: Seq<char>) -> Seq<RawView> {
    if ext == seq!['a', 'd', 'o', 'c'] || ext == seq!['a', 's', 'c', 'i', 'i', 'd', 'o', 'c'] {
        adoc_blocks(src)
    } else if ext == seq!['m', 'd'] || ext == seq!['m', 'a', 'r', 'k', 'd', 'o', 'w', 'n'] {
        md_blocks(src)
    } else {
        seq![text_block(src)]
    }
}

/// Splits `source` into logical blocks by its file `extension` and hashes
/// each block's text with BLAKE3; blocks are numbered from 0.
pub fn parse_source_blocks(source: &str, extension: &str) -> (r: Vec<SourceBlockEntry>)
    requires
        lines(source@).len() < 0xffff_ffff,
        source@.len() * 4 < usize::MAX,
        vstd::utf8::encode_utf8(source@).len() < usize::MAX,
    ensures
        r@.len() == raw_blocks_of(source@, extension@).len(),
        forall|i: int|
            0 <= i < r@.len() ==> {
                let b = #[trigger] raw_blocks_of(source@, extension@)[i];
                &&& r@[i].block_index == i as u32
                &&& r@[i].block_type@ == kind_name(b.kind)
                &&& r@[i].line_start == b.start
                &&& r@[i].line_end == b.end
                &&& r@[i].content_hash@ == blake3_of(vstd::utf8::encode_utf8(b.content))
            },
{
    let ext = chars_of(extension);
    let adoc = ['a', 'd', 'o', 'c'];
    let asciidoc = ['a', 's', 'c', 'i', 'i', 'd', 'o', 'c'];
    let md = ['m', 'd'];
    let markdown = ['m', 'a', 'r', 'k', 'd', 'o', 'w', 'n'];
    assert(adoc@ =~= seq!['a', 'd', 'o', 'c']);
    assert(asciidoc@ =~= seq!['a', 's', 'c', 'i', 'i', 'd', 'o', 'c']);
    assert(md@ =~= seq!['m', 'd']);
    assert(markdown@ =~= seq!['m', 'a', 'r', 'k', 'd', 'o', 'w', 'n']);
    let raw = if chars_eq(ext.as_slice(), adoc.as_slice()) || chars_eq(ext.as_slice(), asciidoc.as_slice()) {
        parse_adoc_raw(source)
    } else if chars_eq(ext.as_slice(), md.as_slice()) || chars_eq(ext.as_slice(), markdown.as_slice()) {
        parse_markdown_raw(source)
    } else {
        let mut v: Vec<RawBlock> = Vec::new();
        v.push(text_block_of(source));
        assert(raw_views(v@) =~= seq![text_block(source@)]);
        v
    };
    let ghost rv = raw_blocks_of(source@, extension@);
    assert(raw_views(raw@) == rv);
    let mut out: Vec<SourceBlockEntry> = Vec::new();
    let mut i: usize = 0;
    while i < raw.len()
        invariant
            i <= raw.len(),
            raw_views(raw@) == rv,
            rv == raw_blocks_of(source@, extension@),
            out@.len() == i,
            raw.len() == rv.len(),
            forall|j: int|
                0 <= j < i ==> {
                    let b = #[trigger] rv[j];
                    &&& out@[j].block_index == j as u32
                    &&& out@[j].block_type@ == kind_name(b.kind)
                    &&& out@[j].line_start == b.start
                    &&& out@[j].line_end == b.end
                    &&& out@[j].content_hash@ == blake3_of(vstd::utf8::encode_utf8(b.content))
                },
        decreases raw.len() - i,
    {
        let b = &raw[i];
        assert(rv[i as int] == b@);
        let content = string_of(b.content.as_slice());
        let hash = blake3_digest(content.as_str().as_bytes());
        let entry = SourceBlockEntry {
            block_index: i as u32,
            block_type: b.kind.as_str().to_string(),
            line_start: b.start,
            line_end: b.end,
            content_hash: hash,
        };
        out.push(entry);
        i = i + 1;
    }
    out
}


// ── laws ─────────────────────────────────────────────────────────────────

proof fn lemma_open_fence_has_text(ls: Seq<Seq<char>>)
    ensures
        adoc_run(ls).in_delim ==> adoc_run(ls).delim_buf.len() > 0,
    decreases ls.len(),
{
    if ls.len() > 0 {
        lemma_open_fence_has_text(ls.drop_last());
    }
}

/// Law: a text that ends inside an open delimited block ends with a code
/// block that runs to its last line.
pub proof fn law_unclosed_fence_runs_to_end(src: Seq<char>)
    requires
        adoc_run(lines(src)).in_delim,
    ensures
        adoc_blocks(src).len() > 0,
        adoc_blocks(src).last().kind == BlockKind::Code,
        adoc_blocks(src).last().end == lines(src).len(),
{
    lemma_open_fence_has_text(lines(src));
}


/// The scanner's state after `n` lines has sane line numbers.
pub open spec fn scan_ok(st: AdocState, n: int) -> bool {
    &&& forall|k: int| 0 <= k < st.blocks.len() ==> 1 <= (#[trigger] st.blocks[k]).start <= st.blocks[k].end <= n
    &&& st.para_buf.len() > 0 ==> 1 <= st.para_start <= n
    &&& st.in_delim ==> 1 <= st.delim_start <= n
    &&& st.attr matches Some((an, al)) ==> 1 <= an <= n
}

proof fn lemma_scan_ok(ls: Seq<Seq<char>>)
    ensures
        scan_ok(adoc_run(ls), ls.len() as int),
    decreases ls.len(),
{
    if ls.len() > 0 {
        let prev = adoc_run(ls.drop_last());
        lemma_scan_ok(ls.drop_last());
        let n = ls.len() as int;
        let st = adoc_run(ls);
        let f = flush_para(prev, n);
        assert(scan_ok(f, n)) by {
            assert forall|k: int| 0 <= k < f.blocks.len() implies 1 <= (#[trigger] f.blocks[k]).start <= f.blocks[k].end <= n by {
                if k < prev.blocks.len() {
                    assert(f.blocks[k] == prev.blocks[k]);
                }
            }
        }
        assert forall|k: int| 0 <= k < st.blocks.len() implies 1 <= (#[trigger] st.blocks[k]).start <= st.blocks[k].end <= n by {
            if k < prev.blocks.len() {
                assert(prev.blocks[k].end <= n - 1);
            }
            if k < f.blocks.len() {
                assert(1 <= f.blocks[k].start <= f.blocks[k].end <= n);
            }
        }
    }
}

/// Law: every block of an AsciiDoc text starts no later than it ends, and
/// both lines lie within the text (line 1 for an empty text).
pub proof fn law_adoc_block_lines(src: Seq<char>)
    requires
        lines(src).len() < 0xffff_ffff,
    ensures
        forall|k: int| 0 <= k < adoc_blocks(src).len() ==> 1 <= (#[trigger] adoc_blocks(src)[k]).start
            <= adoc_blocks(src)[k].end <= (if lines(src).len() >= 1 { lines(src).len() as int } else { 1 }),
{
    let ls = lines(src);
    lemma_scan_ok(ls);
    let st = adoc_run(ls);
    let b = adoc_blocks(src);
    assert forall|k: int| 0 <= k < b.len() implies 1 <= (#[trigger] b[k]).start <= b[k].end <= (if ls.len() >= 1 {
        ls.len() as int
    } else {
        1
    }) by {
        if k < st.blocks.len() {
            assert(b[k] == st.blocks[k]);
        }
    }
}

} // verus!
