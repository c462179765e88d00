//! Request helpers of the documentation server: URL decoding, query
//! parameters, content types, the relative path a URL asks for, and how an
//! editor is asked to open a source line.
use vstd::prelude::*;
use crate::text::{chars_eq, chars_of, dec, decimal, push_all, string_of, sub_chars};

verus! {

#[verifier::external_type_specification]
#[verifier::external_body]
pub struct ExPath(std::path::Path);

// ── percent decoding ─────────────────────────────────────────────────────

/// The value of a hexadecimal digit (`char::to_digit(16)`).
pub open spec fn hex_val(b: u8) -> Option<u8> {
    if 48 <= b <= 57 {
        Some((b - 48) as u8)
    } else if 97 <= b <= 102 {
        Some((b - 87) as u8)
    } else if 65 <= b <= 70 {
        Some((b - 55) as u8)
    } else {
        None
    }
}

/// Percent-decoding of the bytes `b`: `%` and two hexadecimal digits give
/// the byte they spell; every other byte stands for itself.  Each byte
/// becomes the character with that code (Latin-1).
pub open spec fn pct_decode(b: Seq<u8>) -> Seq<char>
    decreases b.len(),
{
    if b.len() == 0 {
        seq![]
    } else if b[0] == 37 && b.len() >= 3 && hex_val(b[1]) is Some && hex_val(b[2]) is Some {
        seq![((hex_val(b[1])->0 * 16 + hex_val(b[2])->0) as u8) as char] + pct_decode(b.skip(3))
    } else {
        seq![b[0] as char] + pct_decode(b.skip(1))
    }
}

fn hex_digit(b: u8) -> (r: Option<u8>)
    ensures
        r == hex_val(b),
{
    if 48 <= b && b <= 57 {
        Some(b - 48)
    } else if 97 <= b && b <= 102 {
        Some(b - 87)
    } else if 65 <= b && b <= 70 {
        Some(b - 55)
    } else {
        None
    }
}

/// Decodes `%XX` escapes of `s`; an incomplete or invalid escape is kept as
/// it stands.
pub fn percent_decode(s: &str) -> (r: String)
    ensures
        r@ == pct_decode(vstd::utf8::encode_utf8(s@)),
{
    let b = s.as_bytes();
    let n = b.len();
    let mut out: Vec<char> = Vec::new();
    let mut i: usize = 0;
    assert(b@.skip(0) =~= b@);
    while i < n
        invariant
            i <= n == b@.len(),
            b@ == vstd::utf8::encode_utf8(s@),
            out@ + pct_decode(b@.skip(i as int)) == pct_decode(b@),
        decreases n - i,
    {
        let ghost rest = b@.skip(i as int);
        let ghost before = out@;
        if b[i] == 37 && n - i > 2 {
            let hi = hex_digit(b[i + 1]);
            let lo = hex_digit(b[i + 2]);
            match (hi, lo) {
                (Some(h), Some(l)) => {
                    assert(rest[1] == b@[i + 1] && rest[2] == b@[i + 2]);
                    assert(rest.skip(3) =~= b@.skip(i + 3));
                    let v: u8 = h * 16 + l;
                    out.push(v as char);
                    assert(out@ + pct_decode(b@.skip(i + 3)) =~= before + pct_decode(rest));
                    i = i + 3;
                    continue;
                },
                _ => {
                    assert(rest[1] == b@[i + 1] && rest[2] == b@[i + 2]);
                },
            }
        }
        assert(rest.skip(1) =~= b@.skip(i + 1));
        out.push(b[i] as char);
        assert(out@ + pct_decode(b@.skip(i + 1)) =~= before + pct_decode(rest));
        i = i + 1;
    }
    assert(out@ =~= pct_decode(b@));
    string_of(out.as_slice())
}

// ── splitting ────────────────────────────────────────────────────────────

/// The pieces of `s` between the separators `sep` (as `str::split`), where
/// `cur` is the part of the current piece already read.
pub open spec fn split_from(s: Seq<char>, sep: char, cur: Seq<char>) -> Seq<Seq<char>>
    decreases s.len(),
{
    if s.len() == 0 {
        seq![cur]
    } else if s[0] == sep {
        seq![cur] + split_from(s.drop_first(), sep, seq![])
    } else {
        split_from(s.drop_first(), sep, cur.push(s[0]))
    }
}

/// The pieces of `s` between the separators `sep`, as `str::split` gives them.
pub open spec fn split_on(s: Seq<char>, sep: char) -> Seq<Seq<char>> {
    split_from(s, sep, seq![])
}

pub fn split_chars(s: &[char], sep: char) -> (out: Vec<Vec<char>>)
    ensures
        out@.map_values(|v: Vec<char>| v@) == split_on(s@, sep),
{
    let mut out: Vec<Vec<char>> = Vec::new();
    let mut cur: Vec<char> = Vec::new();
    let mut i: usize = 0;
    assert(s@.skip(0) =~= s@);
    assert(out@.map_values(|v: Vec<char>| v@) =~= Seq::<Seq<char>>::empty());
    while i < s.len()
        invariant
            i <= s.len(),
            out@.map_values(|v: Vec<char>| v@) + split_from(s@.skip(i as int), sep, cur@) == split_on(s@, sep),
        decreases s.len() - i,
    {
        let ghost rest = s@.skip(i as int);
        let ghost old_out = out@.map_values(|v: Vec<char>| v@);
        let ghost old_cur = cur@;
        assert(rest.drop_first() =~= s@.skip(i + 1));
        assert(rest[0] == s@[i as int]);
        if s[i] == sep {
            out.push(cur);
            cur = Vec::new();
            assert(out@.map_values(|v: Vec<char>| v@) =~= old_out.push(old_cur));
            assert(old_out + split_from(rest, sep, old_cur) =~= out@.map_values(|v: Vec<char>| v@)
                + split_from(s@.skip(i + 1), sep, cur@));
        } else {
            cur.push(s[i]);
            assert(out@.map_values(|v: Vec<char>| v@) =~= old_out);
        }
        i = i + 1;
    }
    let ghost old_out = out@.map_values(|v: Vec<char>| v@);
    let ghost last = cur@;
    out.push(cur);
    assert(out@.map_values(|v: Vec<char>| v@) =~= old_out + seq![last]);
    out
}

/// The part of `s` before the first `c` (all of `s` when there is none).
pub open spec fn before_first(s: Seq<char>, c: char) -> Seq<char>
    decreases s.len(),
{
    if s.len() == 0 || s[0] == c {
        seq![]
    } else {
        seq![s[0]] + before_first(s.drop_first(), c)
    }
}

/// The part of `s` after the first `c` (empty when there is none).
pub open spec fn after_first(s: Seq<char>, c: char) -> Seq<char>
    decreases s.len(),
{
    if s.len() == 0 {
        seq![]
    } else if s[0] == c {
        s.drop_first()
    } else {
        after_first(s.drop_first(), c)
    }
}

/// Splits `s` at its first `c`: the part before it and the part after it.
pub fn split_at_first(s: &[char], c: char) -> (r: (Vec<char>, Vec<char>))
    ensures
        r.0@ == before_first(s@, c),
        r.1@ == after_first(s@, c),
{
    let mut a: Vec<char> = Vec::new();
    let mut i: usize = 0;
    assert(s@.skip(0) =~= s@);
    while i < s.len() && s[i] != c
        invariant
            i <= s.len(),
            a@ + before_first(s@.skip(i as int), c) == before_first(s@, c),
            after_first(s@.skip(i as int), c) == after_first(s@, c),
        decreases s.len() - i,
    {
        let ghost rest = s@.skip(i as int);
        assert(rest.drop_first() =~= s@.skip(i + 1));
        assert(rest[0] == s@[i as int]);
        let ghost before = a@;
        a.push(s[i]);
        assert(a@ + before_first(s@.skip(i + 1), c) =~= before + before_first(rest, c));
        i = i + 1;
    }
    let ghost rest = s@.skip(i as int);
    assert(before_first(rest, c) =~= Seq::<char>::empty());
    assert(a@ =~= before_first(s@, c));
    let mut b: Vec<char> = Vec::new();
    if i < s.len() {
        assert(rest.drop_first() =~= s@.skip(i + 1));
        let mut k = i + 1;
        while k < s.len()
            invariant
                i + 1 <= k <= s.len(),
                b@ == s@.subrange(i + 1, k as int),
            decreases s.len() - k,
        {
            b.push(s[k]);
            assert(b@ =~= s@.subrange(i + 1, k + 1));
            k = k + 1;
        }
        assert(s@.subrange(i + 1, s.len() as int) =~= s@.skip(i + 1));
    } else {
        assert(after_first(rest, c) =~= Seq::<char>::empty());
    }
    (a, b)
}

// ── query parameters ─────────────────────────────────────────────────────

/// The key/value pairs of a URL's query string: the pieces between `&` of
/// the text after the first `?`, each split at its first `=` (a missing
/// value is empty), both sides percent-decoded.
pub open spec fn query_pairs(url: Seq<char>) -> Seq<(Seq<char>, Seq<char>)> {
    split_on(after_first(url, '?'), '&').map_values(
        |p: Seq<char>|
            (
                pct_decode(vstd::utf8::encode_utf8(before_first(p, '='))),
                pct_decode(vstd::utf8::encode_utf8(after_first(p, '='))),
            ),
    )
}

/// The value of the last pair of `ps` whose key is `k`.
pub open spec fn lookup(ps: Seq<(Seq<char>, Seq<char>)>, k: Seq<char>) -> Option<Seq<char>>
    decreases ps.len(),
{
    if ps.len() == 0 {
        None
    } else if ps.last().0 == k {
        Some(ps.last().1)
    } else {
        lookup(ps.drop_last(), k)
    }
}

/// The parameters of a query string, in order of appearance; a key given
/// twice means its last value.
pub struct QueryParams {
    pairs: Vec<(Vec<char>, String)>,
}

impl View for QueryParams {
    type V = Seq<(Seq<char>, Seq<char>)>;

    closed spec fn view(&self) -> Seq<(Seq<char>, Seq<char>)> {
        self.pairs@.map_values(|p: (Vec<char>, String)| (p.0@, p.1@))
    }
}

impl QueryParams {
    /// The value given for `key`.
    pub fn get(&self, key: &str) -> (r: Option<&String>)
        ensures
            match r {
                Some(v) => lookup(self@, key@) == Some(v@),
                None => lookup(self@, key@) is None,
            },
    {
        let k = chars_of(key);
        let mut i = self.pairs.len();
        assert(self@.take(i as int) =~= self@);
        while i > 0
            invariant
                i <= self.pairs.len(),
                lookup(self@, key@) == lookup(self@.take(i as int), key@),
                k@ == key@,
            decreases i,
        {
            assert(self@.take(i as int).drop_last() =~= self@.take(i - 1));
            assert(self@.take(i as int).last() == self@[i - 1]);
            if chars_eq(self.pairs[i - 1].0.as_slice(), k.as_slice()) {
                return Some(&self.pairs[i - 1].1);
            }
            i = i - 1;
        }
        None
    }

    /// Whether a value is given for `key`.
    pub fn contains_key(&self, key: &str) -> (b: bool)
        ensures
            b == (lookup(self@, key@) is Some),
    {
        match self.get(key) {
            Some(_) => true,
            None => false,
        }
    }

    /// Whether the query holds no pair at all.
    pub fn is_empty(&self) -> (b: bool)
        ensures
            b == (self@.len() == 0),
    {
        self.pairs.len() == 0
    }

    /// The number of pairs, repeated keys counted each time.
    pub fn len(&self) -> (n: usize)
        ensures
            n == self@.len(),
    {
        self.pairs.len()
    }
}

/// The query parameters of `url`.
pub fn parse_query(url: &str) -> (r: QueryParams)
    ensures
        r@ == query_pairs(url@),
{
    let u = chars_of(url);
    let (_, query) = split_at_first(u.as_slice(), '?');
    let pieces = split_chars(query.as_slice(), '&');
    let ghost ps = pieces@.map_values(|v: Vec<char>| v@);
    let mut pairs: Vec<(Vec<char>, String)> = Vec::new();
    let mut i: usize = 0;
    while i < pieces.len()
        invariant
            i <= pieces.len(),
            ps == pieces@.map_values(|v: Vec<char>| v@),
            ps == split_on(after_first(url@, '?'), '&'),
            pairs@.map_values(|p: (Vec<char>, String)| (p.0@, p.1@)) == query_pairs(url@).take(i as int),
        decreases pieces.len() - i,
    {
        let (k, v) = split_at_first(pieces[i].as_slice(), '=');
        let ks = string_of(k.as_slice());
        let vs = string_of(v.as_slice());
        let kd = percent_decode(ks.as_str());
        let vd = percent_decode(vs.as_str());
        let kc = chars_of(kd.as_str());
        let ghost before = pairs@.map_values(|p: (Vec<char>, String)| (p.0@, p.1@));
        pairs.push((kc, vd));
        assert(ps[i as int] == pieces@[i as int]@);
        assert(kc@ == pct_decode(vstd::utf8::encode_utf8(before_first(ps[i as int], '='))));
        assert(vd@ == pct_decode(vstd::utf8::encode_utf8(after_first(ps[i as int], '='))));
        assert(query_pairs(url@)[i as int] == (kc@, vd@));
        assert(pairs@.map_values(|p: (Vec<char>, String)| (p.0@, p.1@)) =~= before.push((kc@, vd@)));
        assert(query_pairs(url@).take(i + 1) =~= query_pairs(url@).take(i as int).push(query_pairs(url@)[i as int]));
        assert(pairs@.map_values(|p: (Vec<char>, String)| (p.0@, p.1@)) =~= query_pairs(url@).take(i + 1));
        i = i + 1;
    }
    assert(query_pairs(url@).take(pieces.len() as int) =~= query_pairs(url@));
    QueryParams { pairs }
}

// ── content types ────────────────────────────────────────────────────────

/// The content type served for a file extension.
pub open spec fn mime_of(ext: Option<Seq<char>>) -> Seq<char> {
    match ext {
        Some(e) => if e == seq!['h', 't', 'm', 'l'] {
            "text/html; charset=utf-8"@
        } else if e == seq!['c', 's', 's'] {
            "text/css; charset=utf-8"@
        } else if e == seq!['j', 's'] {
            "application/javascript; charset=utf-8"@
        } else if e == seq!['s', 'v', 'g'] {
            "image/svg+xml"@
        } else if e == seq!['p', 'n', 'g'] {
            "image/png"@
        } else if e == seq!['i', 'c', 'o'] {
            "image/x-icon"@
        } else if e == seq!['j', 's', 'o', 'n'] {
            "application/json"@
        } else {
            "application/octet-stream"@
        },
        None => "application/octet-stream"@,
    }
}

fn is_word(e: &[char], w: &[char]) -> (b: bool)
    ensures
        b == (e@ == w@),
{
    chars_eq(e, w)
}

/// The content type for a file of extension `ext`.
pub fn mime_for_extension(ext: Option<&str>) -> (r: &'static str)
    ensures
        r@ == mime_of(
            match ext {
                Some(e) => Some(e@),
                None => None,
            },
        ),
{
    match ext {
        None => "application/octet-stream",
        Some(e) => {
            let c = chars_of(e);
            let html = ['h', 't', 'm', 'l'];
            let css = ['c', 's', 's'];
            let js = ['j', 's'];
            let svg = ['s', 'v', 'g'];
            let png = ['p', 'n', 'g'];
            let ico = ['i', 'c', 'o'];
            let json = ['j', 's', 'o', 'n'];
            assert(html@ =~= seq!['h', 't', 'm', 'l']);
            assert(css@ =~= seq!['c', 's', 's']);
            assert(js@ =~= seq!['j', 's']);
            assert(svg@ =~= seq!['s', 'v', 'g']);
            assert(png@ =~= seq!['p', 'n', 'g']);
            assert(ico@ =~= seq!['i', 'c', 'o']);
            assert(json@ =~= seq!['j', 's', 'o', 'n']);
            if is_word(c.as_slice(), html.as_slice()) {
                "text/html; charset=utf-8"
            } else if is_word(c.as_slice(), css.as_slice()) {
                "text/css; charset=utf-8"
            } else if is_word(c.as_slice(), js.as_slice()) {
                "application/javascript; charset=utf-8"
            } else if is_word(c.as_slice(), svg.as_slice()) {
                "image/svg+xml"
            } else if is_word(c.as_slice(), png.as_slice()) {
                "image/png"
            } else if is_word(c.as_slice(), ico.as_slice()) {
                "image/x-icon"
            } else if is_word(c.as_slice(), json.as_slice()) {
                "application/json"
            } else {
                "application/octet-stream"
            }
        },
    }
}

/// The part of a path text after its last `/` (all of it when it has none).
pub open spec fn last_component(p: Seq<char>) -> Seq<char>
    decreases p.len(),
{
    if p.len() == 0 {
        p
    } else if p.last() == '/' {
        seq![]
    } else {
        last_component(p.drop_last()).push(p.last())
    }
}

/// The position of the last `.` of `n`, if it has one.
pub open spec fn last_dot(n: Seq<char>) -> Option<int>
    decreases n.len(),
{
    if n.len() == 0 {
        None
    } else if n.last() == '.' {
        Some(n.len() - 1)
    } else {
        last_dot(n.drop_last())
    }
}

/// The extension of a file name: what follows its last `.`, unless the
/// name has no `.` or its only `.` is its first character.
pub open spec fn name_extension(n: Seq<char>) -> Option<Seq<char>> {
    match last_dot(n) {
        Some(i) => if i > 0 {
            Some(n.skip(i + 1))
        } else {
            None
        },
        None => None,
    }
}

/// A path text whose file name is its last component on every platform:
/// no `\` and no `:` (no Windows prefix), not starting with `//` (no UNC
/// prefix), not ending in `/`, and a last component other than `.` and
/// `..`, so that `Path` has nothing to normalise at its end.
pub open spec fn plain_path(p: Seq<char>) -> bool {
    &&& !p.contains('\\')
    &&& !p.contains(':')
    &&& !(p.len() >= 2 && p[0] == '/' && p[1] == '/')
    &&& !(p.len() > 0 && p.last() == '/')
    &&& last_component(p) != seq!['.']
    &&& last_component(p) != seq!['.', '.']
}

pub open spec fn opt_text(o: Option<String>) -> Option<Seq<char>> {
    match o {
        Some(s) => Some(s@),
        None => None,
    }
}

/// The extension of a path (`Path::extension`, as UTF-8; the extension of a
/// `str` path is always UTF-8). By `Path`'s documentation the extension is
/// what follows the last `.` of the file name, none when the file name has
/// no `.` or begins with its only `.`; that is stated for the paths whose
/// file name is their last component on every platform ([`plain_path`]).
#[verifier::external_body]
fn path_extension(path: &str) -> (r: Option<String>)
    ensures
        plain_path(path@) ==> opt_text(r) == name_extension(last_component(path@)),
{
    std::path::Path::new(path).extension().and_then(|e| e.to_str()).map(|e| e.to_string())
}

/// The content type of a file, by the extension of its path.
pub fn content_type(path: &str) -> (r: &'static str)
    ensures
        plain_path(path@) ==> r@ == mime_of(name_extension(last_component(path@))),
        exists|e: Option<Seq<char>>| r@ == mime_of(e),
{
    let ext = path_extension(path);
    match ext {
        Some(e) => {
            let r = mime_for_extension(Some(e.as_str()));
            assert(r@ == mime_of(Some(e@)));
            r
        },
        None => {
            let r = mime_for_extension(None);
            assert(r@ == mime_of(None));
            r
        },
    }
}

// ── static files ─────────────────────────────────────────────────────────

/// `s` without its leading `c` characters (as `trim_start_matches(c)`).
pub open spec fn trim_lead(s: Seq<char>, c: char) -> Seq<char>
    decreases s.len(),
{
    if s.len() > 0 && s[0] == c {
        trim_lead(s.drop_first(), c)
    } else {
        s
    }
}

/// The file a URL path asks for, relative to the served directory; `None`
/// when one of its `/`-separated components is `..`.
pub open spec fn url_rel_spec(url: Seq<char>) -> Option<Seq<char>> {
    let rel = trim_lead(url, '/');
    if split_on(rel, '/').contains(seq!['.', '.']) {
        None
    } else {
        Some(rel)
    }
}

/// The path relative to the served directory that `url_path` names, or
/// `None` for a path that climbs out of it.
pub fn url_rel_path(url_path: &str) -> (r: Option<String>)
    ensures
        match r {
            Some(p) => url_rel_spec(url_path@) == Some(p@),
            None => url_rel_spec(url_path@) is None,
        },
{
    let u = chars_of(url_path);
    let mut a: usize = 0;
    assert(u@.skip(0) =~= u@);
    while a < u.len() && u[a] == '/'
        invariant
            a <= u.len(),
            trim_lead(u@, '/') == trim_lead(u@.skip(a as int), '/'),
        decreases u.len() - a,
    {
        assert(u@.skip(a as int).drop_first() =~= u@.skip(a + 1));
        a = a + 1;
    }
    let rel = sub_chars(u.as_slice(), a, u.len());
    assert(rel@ =~= trim_lead(url_path@, '/'));
    let parts = split_chars(rel.as_slice(), '/');
    let ghost ps = parts@.map_values(|v: Vec<char>| v@);
    let mut i: usize = 0;
    while i < parts.len()
        invariant
            i <= parts.len(),
            ps == parts@.map_values(|v: Vec<char>| v@),
            ps == split_on(trim_lead(url_path@, '/'), '/'),
            forall|j: int| 0 <= j < i ==> ps[j] != seq!['.', '.'],
        decreases parts.len() - i,
    {
        let p = &parts[i];
        assert(ps[i as int] == p@);
        if p.len() == 2 && p[0] == '.' && p[1] == '.' {
            assert(ps[i as int] =~= seq!['.', '.']);
            assert(ps.contains(seq!['.', '.']));
            return None;
        }
        assert(ps[i as int] != seq!['.', '.']) by {
            if ps[i as int] == seq!['.', '.'] {
                assert(p@.len() == 2 && p@[0] == '.' && p@[1] == '.');
            }
        }
        i = i + 1;
    }
    assert(!ps.contains(seq!['.', '.']));
    Some(string_of(rel.as_slice()))
}


// ── laws ─────────────────────────────────────────────────────────────────

proof fn lemma_pct_decode_plain(b: Seq<u8>)
    requires
        !b.contains(37u8),
    ensures
        pct_decode(b) == b.map_values(|x: u8| x as char),
    decreases b.len(),
{
    if b.len() > 0 {
        assert(b[0] != 37u8) by {
            if b[0] == 37u8 {
                assert(b.contains(37u8));
            }
        }
        assert(!b.skip(1).contains(37u8)) by {
            if b.skip(1).contains(37u8) {
                let k = choose|k: int| 0 <= k < b.skip(1).len() && b.skip(1)[k] == 37u8;
                assert(b[k + 1] == 37u8);
            }
        }
        lemma_pct_decode_plain(b.skip(1));
        assert(b.map_values(|x: u8| x as char) =~= seq![b[0] as char] + b.skip(1).map_values(|x: u8| x as char));
    } else {
        assert(b.map_values(|x: u8| x as char) =~= Seq::<char>::empty());
    }
}

/// Law: percent-decoding leaves an ASCII text without `%` as it is.
pub proof fn law_percent_decode_plain_ascii(s: Seq<char>)
    requires
        vstd::utf8::is_ascii_chars(s),
        !s.contains('%'),
    ensures
        pct_decode(vstd::utf8::encode_utf8(s)) == s,
{
    let b = vstd::utf8::encode_utf8(s);
    vstd::utf8::is_ascii_chars_encode_utf8(s);
    assert(!b.contains(37u8)) by {
        if b.contains(37u8) {
            let k = choose|k: int| 0 <= k < b.len() && b[k] == 37u8;
            assert(s[k] as u8 == b[k]);
            assert('\0' <= s[k] <= '\u{7f}');
            assert(s[k] == '%');
            assert(s.contains('%'));
        }
    }
    lemma_pct_decode_plain(b);
    let m = b.map_values(|x: u8| x as char);
    assert forall|i: int| 0 <= i < s.len() implies m[i] == #[trigger] s[i] by {
        assert(s[i] as u8 == b[i]);
        assert('\0' <= s[i] <= '\u{7f}');
    }
    assert(m =~= s);
}


// ── opening a source in an editor ────────────────────────────────────────

/// The arguments that open `path` at `line` in the editor whose program
/// name (without directory or extension, in lower case) is `editor`: VS Code
/// takes `--goto path:line`, the others `+line path`.
pub open spec fn editor_args_of(editor: Seq<char>, path: Seq<char>, line: u32) -> Seq<Seq<char>> {
    if editor == "code"@ || editor == "code-insiders"@ {
        seq!["--goto"@, path + seq![':'] + dec(line as nat)]
    } else {
        seq![seq!['+'] + dec(line as nat), path]
    }
}

/// The arguments that open `path` at `line` in the editor `editor`.
pub fn editor_args(editor: &str, path: &str, line: u32) -> (r: Vec<String>)
    ensures
        r@.map_values(|s: String| s@) == editor_args_of(editor@, path@, line),
{
    let e = chars_of(editor);
    let code = chars_of("code");
    let insiders = chars_of("code-insiders");
    let d = decimal(line as u128);
    let mut r: Vec<String> = Vec::new();
    if chars_eq(e.as_slice(), code.as_slice()) || chars_eq(e.as_slice(), insiders.as_slice()) {
        let mut a: Vec<char> = chars_of(path);
        a.push(':');
        push_all(&mut a, d.as_slice());
        r.push("--goto".to_string());
        r.push(string_of(a.as_slice()));
        assert(a@ =~= path@ + seq![':'] + dec(line as nat));
    } else {
        let mut a: Vec<char> = Vec::new();
        a.push('+');
        push_all(&mut a, d.as_slice());
        r.push(string_of(a.as_slice()));
        r.push(path.to_string());
        assert(a@ =~= seq!['+'] + dec(line as nat));
    }
    assert(r@.map_values(|s: String| s@) =~= editor_args_of(editor@, path@, line));
    r
}

} // verus!
