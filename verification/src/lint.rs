//! Lint rules over literate sources: a chunk definition must stand inside
//! a fenced listing block.
use vstd::prelude::*;
use crate::http::{split_chars, split_on};
use crate::syntax::{parse_def, NowebSyntax, SyntaxView};
use crate::text::{chars_of, lines, push_all, push_str, split_lines, string_of, trim, trim_chars, views};

verus! {

/// The lint rules.
#[derive(Debug, Clone, Copy, PartialEq, Eq, Structural)]
pub enum LintRule {
    /// A chunk definition outside a `----` listing block.
    ChunkBodyOutsideFence,
}

impl LintRule {
    /// The rule's identifier on the command line and in reports.
    pub fn id(self) -> (s: &'static str)
        ensures
            s@ == "chunk-body-outside-fence"@,
    {
        match self {
            LintRule::ChunkBodyOutsideFence => "chunk-body-outside-fence",
        }
    }

    /// The rule named `s`, or the message that rejects an unknown name.
    pub fn parse(s: &str) -> (r: Result<LintRule, String>)
        ensures
            match r {
                Ok(rule) => s@ == "chunk-body-outside-fence"@ && rule == LintRule::ChunkBodyOutsideFence,
                Err(m) => s@ != "chunk-body-outside-fence"@ && m@ == "unknown lint rule '"@ + s@
                    + "' (supported: chunk-body-outside-fence)"@,
            },
    {
        let c = chars_of(s);
        let id = chars_of("chunk-body-outside-fence");
        if crate::text::chars_eq(c.as_slice(), id.as_slice()) {
            Ok(LintRule::ChunkBodyOutsideFence)
        } else {
            let mut m: Vec<char> = Vec::new();
            push_str(&mut m, "unknown lint rule '");
            push_all(&mut m, c.as_slice());
            push_str(&mut m, "' (supported: chunk-body-outside-fence)");
            Err(string_of(m.as_slice()))
        }
    }
}

impl std::str::FromStr for LintRule {
    type Err = String;

    /// The rule named `s`, or the message that rejects an unknown name (as
    /// [`LintRule::parse`]).
    fn from_str(s: &str) -> (r: Result<LintRule, String>)
        ensures
            match r {
                Ok(rule) => s@ == "chunk-body-outside-fence"@ && rule == LintRule::ChunkBodyOutsideFence,
                Err(m) => s@ != "chunk-body-outside-fence"@ && m@ == "unknown lint rule '"@ + s@
                    + "' (supported: chunk-body-outside-fence)"@,
            },
    {
        LintRule::parse(s)
    }
}

/// A finding of a lint rule: the file, the 1-based line, the rule, a
/// message and a hint at the fix.
#[derive(Debug)]
pub struct LintViolation {
    pub file: std::path::PathBuf,
    pub line: usize,
    pub rule: LintRule,
    pub message: String,
    pub hint: Option<String>,
}

/// An owned copy of a path (`Path::to_path_buf`).
#[verifier::external_body]
fn path_buf_of(p: &std::path::Path) -> std::path::PathBuf {
    p.to_path_buf()
}

pub open spec fn syntax_views(v: Seq<NowebSyntax>) -> Seq<SyntaxView> {
    v.map_values(|s: NowebSyntax| s@)
}

/// The name of the chunk that `line` defines under the first syntax that
/// recognises it.
pub open spec fn def_name(line: Seq<char>, syns: Seq<SyntaxView>) -> Option<Seq<char>>
    decreases syns.len(),
{
    if syns.len() == 0 {
        None
    } else {
        match parse_def(line, syns[0]) {
            Some((w, s, q, r, f)) => Some(line.subrange(s, q)),
            None => def_name(line, syns.drop_first()),
        }
    }
}

/// The name of the chunk that `line` defines, trying each syntax in turn.
pub fn parse_chunk_definition_name(line: &str, syntaxes: &[NowebSyntax]) -> (r: Option<String>)
    ensures
        match r {
            Some(n) => def_name(line@, syntax_views(syntaxes@)) == Some(n@),
            None => def_name(line@, syntax_views(syntaxes@)) is None,
        },
{
    let ghost sv = syntax_views(syntaxes@);
    let mut i: usize = 0;
    assert(sv.skip(0) =~= sv);
    while i < syntaxes.len()
        invariant
            i <= syntaxes.len(),
            sv == syntax_views(syntaxes@),
            def_name(line@, sv) == def_name(line@, sv.skip(i as int)),
        decreases syntaxes.len() - i,
    {
        let ghost rest = sv.skip(i as int);
        assert(rest[0] == syntaxes@[i as int]@);
        assert(rest.drop_first() =~= sv.skip(i + 1));
        match syntaxes[i].parse_definition_line(line) {
            Some(m) => {
                return Some(m.base_name);
            },
            None => {},
        }
        i = i + 1;
    }
    None
}

/// After the lines `ls`: whether a listing fence is open, and the line
/// numbers and chunk names of the definitions found outside fences.
pub open spec fn fence_lint_run(ls: Seq<Seq<char>>, syns: Seq<SyntaxView>) -> (bool, Seq<(int, Seq<char>)>)
    decreases ls.len(),
{
    if ls.len() == 0 {
        (false, seq![])
    } else {
        let (f, found) = fence_lint_run(ls.drop_last(), syns);
        let t = trim(ls.last());
        if t == seq!['-', '-', '-', '-'] {
            (!f, found)
        } else if !f && def_name(t, syns) is Some {
            (f, found.push((ls.len() as int, def_name(t, syns)->0)))
        } else {
            (f, found)
        }
    }
}

/// How many of the lines `ls` are `----` fence lines (once trimmed).
pub open spec fn fence_count(ls: Seq<Seq<char>>) -> nat
    decreases ls.len(),
{
    if ls.len() == 0 {
        0
    } else if trim(ls.last()) == seq!['-', '-', '-', '-'] {
        fence_count(ls.drop_last()) + 1
    } else {
        fence_count(ls.drop_last())
    }
}

/// Line `k` (0-based) of `ls` is a chunk definition outside any listing: it
/// defines a chunk, and an even number of `----` lines precede it, so every
/// listing opened before it is closed.
pub open spec fn definition_outside_listing(ls: Seq<Seq<char>>, k: int, syns: Seq<SyntaxView>) -> bool {
    &&& 0 <= k < ls.len()
    &&& trim(ls[k]) != seq!['-', '-', '-', '-']
    &&& def_name(trim(ls[k]), syns) is Some
    &&& fence_count(ls.take(k)) % 2 == 0
}

/// Law: each `----` line opens a listing or closes the open one, and what
/// the lint reports is exactly the chunk definitions outside listings: a
/// listing is open after an odd number of `----` lines; every report names
/// a line (1-based) that is a definition outside listings, with its chunk's
/// name; every such line is reported; and reports come in line order.
pub proof fn law_fence_lint_reports_definitions_outside_listings(ls: Seq<Seq<char>>, syns: Seq<SyntaxView>)
    ensures
        fence_lint_run(ls, syns).0 == (fence_count(ls) % 2 == 1),
        forall|q: int|
            0 <= q < fence_lint_run(ls, syns).1.len() ==> {
                let (n, name) = #[trigger] fence_lint_run(ls, syns).1[q];
                &&& definition_outside_listing(ls, n - 1, syns)
                &&& def_name(trim(ls[n - 1]), syns) == Some(name)
            },
        forall|k: int|
            #[trigger] definition_outside_listing(ls, k, syns) ==> exists|q: int|
                0 <= q < fence_lint_run(ls, syns).1.len() && #[trigger] fence_lint_run(ls, syns).1[q].0 == k + 1,
        forall|q1: int, q2: int|
            0 <= q1 < q2 < fence_lint_run(ls, syns).1.len() ==> #[trigger] fence_lint_run(ls, syns).1[q1].0
                < #[trigger] fence_lint_run(ls, syns).1[q2].0,
    decreases ls.len(),
{
    if ls.len() > 0 {
        let t = ls.drop_last();
        law_fence_lint_reports_definitions_outside_listings(t, syns);
        let prev = fence_lint_run(t, syns);
        let cur = fence_lint_run(ls, syns);
        assert(ls.take(t.len() as int) =~= t);
        assert forall|k: int| 0 <= k < t.len() implies ls.take(k) == t.take(k) && ls[k] == t[k] by {
            assert(ls.take(k) =~= t.take(k));
        }
        assert forall|k: int| #[trigger] definition_outside_listing(ls, k, syns) && k < t.len() implies
            definition_outside_listing(t, k, syns) by {
            assert(ls.take(k) =~= t.take(k));
        }
        assert forall|q: int| 0 <= q < prev.1.len() implies 1 <= #[trigger] prev.1[q].0 <= t.len() by {
            let (n, name) = prev.1[q];
            assert(definition_outside_listing(t, n - 1, syns));
        }
        assert forall|q: int| 0 <= q < cur.1.len() implies {
            let (n, name) = #[trigger] cur.1[q];
            &&& definition_outside_listing(ls, n - 1, syns)
            &&& def_name(trim(ls[n - 1]), syns) == Some(name)
        } by {
            if q < prev.1.len() {
                assert(cur.1[q] == prev.1[q]);
                let (n, name) = prev.1[q];
                assert(definition_outside_listing(t, n - 1, syns));
                assert(ls.take(n - 1) =~= t.take(n - 1));
            }
        }
        assert forall|k: int| #[trigger] definition_outside_listing(ls, k, syns) implies exists|q: int|
            0 <= q < cur.1.len() && #[trigger] cur.1[q].0 == k + 1 by {
            if k < t.len() {
                assert(ls.take(k) =~= t.take(k));
                assert(definition_outside_listing(t, k, syns));
                let q = choose|q: int| 0 <= q < prev.1.len() && #[trigger] prev.1[q].0 == k + 1;
                assert(cur.1[q] == prev.1[q]);
            } else {
                assert(cur.1[prev.1.len() as int].0 == k + 1);
            }
        }
        assert forall|q1: int, q2: int| 0 <= q1 < q2 < cur.1.len() implies #[trigger] cur.1[q1].0 < #[trigger] cur.1[q2].0 by {
            if q2 < prev.1.len() {
                assert(cur.1[q1] == prev.1[q1] && cur.1[q2] == prev.1[q2]);
            } else {
                assert(cur.1[q1] == prev.1[q1]);
                assert(1 <= prev.1[q1].0 <= t.len());
            }
        }
    }
}

/// The message of a chunk definition found outside a fence.
pub open spec fn outside_fence_message(name: Seq<char>) -> Seq<char> {
    "chunk definition `"@ + name + "` is not enclosed by a fenced code block"@
}

/// The hint given with it.
pub open spec fn outside_fence_hint() -> Seq<char> {
    "wrap the chunk definition in an AsciiDoc listing block fenced by `----`"@
}

/// Reports each chunk definition of `text` (trimmed lines, under any of the
/// syntaxes) that is not inside a `----` listing block.
pub fn lint_chunk_body_outside_fence(file: &std::path::Path, text: &str, syntaxes: &[NowebSyntax]) -> (r: Vec<LintViolation>)
    ensures
        r@.len() == fence_lint_run(lines(text@), syntax_views(syntaxes@)).1.len(),
        forall|k: int|
            0 <= k < r@.len() ==> {
                let (n, name) = #[trigger] fence_lint_run(lines(text@), syntax_views(syntaxes@)).1[k];
                &&& r@[k].line == n
                &&& r@[k].rule == LintRule::ChunkBodyOutsideFence
                &&& r@[k].message@ == outside_fence_message(name)
                &&& r@[k].hint matches Some(h) && h@ == outside_fence_hint()
            },
        forall|k: int|
            0 <= k < r@.len() ==> definition_outside_listing(lines(text@), #[trigger] r@[k].line - 1, syntax_views(syntaxes@)),
        forall|k: int|
            #[trigger] definition_outside_listing(lines(text@), k, syntax_views(syntaxes@)) ==> exists|q: int|
                0 <= q < r@.len() && #[trigger] r@[q].line == k + 1,
{
    let src = chars_of(text);
    let ls = split_lines(src.as_slice());
    let ghost l = lines(text@);
    let ghost sv = syntax_views(syntaxes@);
    let mut in_fence = false;
    let mut out: Vec<LintViolation> = Vec::new();
    let mut i: usize = 0;
    assert(l.take(0) =~= Seq::<Seq<char>>::empty());
    while i < ls.len()
        invariant
            i <= ls.len(),
            views(ls@) == l,
            sv == syntax_views(syntaxes@),
            in_fence == fence_lint_run(l.take(i as int), sv).0,
            out@.len() == fence_lint_run(l.take(i as int), sv).1.len(),
            forall|k: int|
                0 <= k < out@.len() ==> {
                    let (n, name) = #[trigger] fence_lint_run(l.take(i as int), sv).1[k];
                    &&& out@[k].line == n
                    &&& out@[k].rule == LintRule::ChunkBodyOutsideFence
                    &&& out@[k].message@ == outside_fence_message(name)
                    &&& out@[k].hint matches Some(h) && h@ == outside_fence_hint()
                },
        decreases ls.len() - i,
    {
        let ghost prev = fence_lint_run(l.take(i as int), sv);
        assert(l.take(i + 1).drop_last() =~= l.take(i as int));
        assert(l.take(i + 1).last() == ls@[i as int]@);
        let t = trim_chars(ls[i].as_slice());
        let fence = t.len() == 4 && t[0] == '-' && t[1] == '-' && t[2] == '-' && t[3] == '-';
        proof {
            if fence {
                assert(t@ =~= seq!['-', '-', '-', '-']);
            } else if t@ == seq!['-', '-', '-', '-'] {
                assert(t@[0] == '-' && t@[1] == '-' && t@[2] == '-' && t@[3] == '-');
            }
        }
        if fence {
            in_fence = !in_fence;
        } else {
            let ts = string_of(t.as_slice());
            match parse_chunk_definition_name(ts.as_str(), syntaxes) {
                Some(name) => {
                    if !in_fence {
                        let nc = chars_of(name.as_str());
                        let mut m: Vec<char> = Vec::new();
                        push_str(&mut m, "chunk definition `");
                        push_all(&mut m, nc.as_slice());
                        push_str(&mut m, "` is not enclosed by a fenced code block");
                        let v = LintViolation {
                            file: path_buf_of(file),
                            line: i + 1,
                            rule: LintRule::ChunkBodyOutsideFence,
                            message: string_of(m.as_slice()),
                            hint: Some("wrap the chunk definition in an AsciiDoc listing block fenced by `----`".to_string()),
                        };
                        out.push(v);
                    }
                },
                None => {},
            }
        }
        i = i + 1;
    }
    assert(l.take(ls.len() as int) =~= l);
    proof {
        law_fence_lint_reports_definitions_outside_listings(l, sv);
        let found = fence_lint_run(l, sv).1;
        assert forall|k: int| 0 <= k < out@.len() implies definition_outside_listing(l, #[trigger] out@[k].line - 1, sv) by {
            let (n, name) = found[k];
            assert(out@[k].line == n);
        }
        assert forall|k: int| #[trigger] definition_outside_listing(l, k, sv) implies exists|q: int|
            0 <= q < out@.len() && #[trigger] out@[q].line == k + 1 by {
            let q = choose|q: int| 0 <= q < found.len() && #[trigger] found[q].0 == k + 1;
            let (n, name) = found[q];
            assert(out@[q].line == n);
        }
    }
    out
}

/// The comment markers given in a configuration as a comma-separated list:
/// each item trimmed, empty items dropped.
pub open spec fn marker_list(spec: Seq<char>) -> Seq<Seq<char>> {
    split_on(spec, ',').map_values(|p: Seq<char>| trim(p)).filter(|p: Seq<char>| p.len() > 0)
}

/// The comment markers of a comma-separated list.
pub fn comment_markers_of(spec: &str) -> (r: Vec<String>)
    ensures
        r@.map_values(|s: String| s@) == marker_list(spec@),
{
    let c = chars_of(spec);
    let pieces = split_chars(c.as_slice(), ',');
    let ghost trimmed = split_on(spec@, ',').map_values(|p: Seq<char>| trim(p));
    let mut r: Vec<String> = Vec::new();
    let mut i: usize = 0;
    assert(trimmed.take(0).filter(|p: Seq<char>| p.len() > 0) =~= Seq::<Seq<char>>::empty());
    assert(r@.map_values(|s: String| s@) =~= Seq::<Seq<char>>::empty());
    while i < pieces.len()
        invariant
            i <= pieces.len(),
            pieces@.map_values(|v: Vec<char>| v@) == split_on(spec@, ','),
            trimmed == split_on(spec@, ',').map_values(|p: Seq<char>| trim(p)),
            r@.map_values(|s: String| s@) == trimmed.take(i as int).filter(|p: Seq<char>| p.len() > 0),
        decreases pieces.len() - i,
    {
        let t = trim_chars(pieces[i].as_slice());
        assert(t@ == trimmed[i as int]);
        assert(trimmed.take(i + 1) =~= trimmed.take(i as int).push(trimmed[i as int]));
        proof {
            trimmed.take(i as int).lemma_filter_push(trimmed[i as int], |p: Seq<char>| p.len() > 0);
        }
        if t.len() > 0 {
            let ghost before = r@.map_values(|s: String| s@);
            r.push(string_of(t.as_slice()));
            assert(r@.map_values(|s: String| s@) =~= before.push(t@));
        }
        i = i + 1;
    }
    assert(trimmed.take(pieces.len() as int) =~= trimmed);
    r
}

/// The syntax the linter always checks: `<<name>>=` definitions, `@` ends,
/// `#` and `//` comments.
pub fn default_lint_syntax() -> (s: NowebSyntax)
    ensures
        s@.open == "<<"@,
        s@.close == ">>"@,
        s@.end == "@"@,
        s@.comments.len() == 2,
        s@.comments[0] == "#"@,
        s@.comments[1] == "//"@,
{
    let markers = vec!["#".to_string(), "//".to_string()];
    NowebSyntax::new("<<", ">>", "@", markers.as_slice())
}

/// The syntax of a configured pass: each missing field takes the default
/// (`<<`, `>>`, `@`, and the markers `#,//`).
pub fn lint_syntax_for_pass(
    open_delim: Option<&str>,
    close_delim: Option<&str>,
    chunk_end: Option<&str>,
    comment_markers: Option<&str>,
) -> (s: NowebSyntax)
    ensures
        s@.open == (match open_delim { Some(o) => o@, None => "<<"@ }),
        s@.close == (match close_delim { Some(c) => c@, None => ">>"@ }),
        s@.end == (match chunk_end { Some(e) => e@, None => "@"@ }),
        s@.comments == marker_list(match comment_markers { Some(m) => m@, None => "#,//"@ }),
{
    let o = match open_delim { Some(o) => o, None => "<<" };
    let c = match close_delim { Some(c) => c, None => ">>" };
    let e = match chunk_end { Some(e) => e, None => "@" };
    let m = match comment_markers { Some(m) => m, None => "#,//" };
    let markers = comment_markers_of(m);
    NowebSyntax::new(o, c, e, markers.as_slice())
}

} // verus!
