//! The decisions of an edit request from the documentation page: which
//! requests are refused, and the new source text of an accepted one.
use vstd::prelude::*;
use crate::edit::{apply_chunk_edit, apply_edit_spec, extract_chunk_body, in_bounds};
use crate::text::{chars_eq, chars_of, join_lines, lines, trim_end_newlines, trim_end_nl};

verus! {

/// `s` contains `..`.
pub open spec fn has_dot_dot(s: Seq<char>) -> bool {
    exists|i: int| 0 <= i < s.len() - 1 && #[trigger] s[i] == '.' && s[i + 1] == '.'
}

/// Why a request is refused before anything is read: `missing_params` when
/// the file or the chunk name is empty, `invalid_path` when the file climbs
/// out of the project (`..`) or is absolute.
pub open spec fn params_error(file: Seq<char>, name: Seq<char>, absolute: bool) -> Option<Seq<char>> {
    if file.len() == 0 || name.len() == 0 {
        Some("missing_params"@)
    } else if has_dot_dot(file) || absolute {
        Some("invalid_path"@)
    } else {
        None
    }
}

/// The refusal of a request for `file` and chunk `name`, where `absolute`
/// tells whether `file` is an absolute path.
pub fn apply_params_error(file: &str, name: &str, absolute: bool) -> (r: Option<String>)
    ensures
        match r {
            Some(e) => params_error(file@, name@, absolute) == Some(e@),
            None => params_error(file@, name@, absolute) is None,
        },
{
    let f = chars_of(file);
    let n = chars_of(name);
    if f.len() == 0 || n.len() == 0 {
        return Some("missing_params".to_string());
    }
    let mut dots = false;
    let mut i: usize = 0;
    while i < f.len() && f.len() - i > 1
        invariant
            i <= f.len(),
            f@ == file@,
            !dots ==> forall|j: int| 0 <= j < i && j < f@.len() - 1 ==> !(#[trigger] f@[j] == '.' && f@[j + 1] == '.'),
            dots ==> has_dot_dot(file@),
        decreases f.len() - i,
    {
        if f[i] == '.' && f[i + 1] == '.' {
            assert(f@[i as int] == '.' && f@[i + 1] == '.');
            dots = true;
        }
        i = i + 1;
    }
    if dots || absolute {
        Some("invalid_path".to_string())
    } else {
        None
    }
}

/// What every absolute path begins with, on every platform: `/` or `\`,
/// or a character and `:` (a drive).
pub open spec fn rooted_or_drive(p: Seq<char>) -> bool {
    (p.len() > 0 && (p[0] == '/' || p[0] == '\\')) || (p.len() >= 2 && p[1] == ':')
}

/// Whether a path is absolute on this platform (`Path::is_absolute`).
///
/// Which paths are absolute depends on the platform (on Unix those that
/// start with `/`; on Windows those with a prefix and a root, such as
/// `c:\x` or `\\server\share`), so only what holds on all of them is
/// stated: an absolute path starts with `/` or `\`, or has `:` as its
/// second character.
#[verifier::external_body]
pub(crate) fn path_is_absolute(p: &str) -> (r: bool)
    ensures
        r ==> rooted_or_drive(p@),
{
    std::path::Path::new(p).is_absolute()
}

/// `r` is the refusal `e` (none when `e` is `None`).
pub open spec fn refusal_is(r: Option<String>, e: Option<Seq<char>>) -> bool {
    match r {
        Some(m) => e == Some(m@),
        None => e is None,
    }
}

/// The refusal, if any, of a request for `file` and chunk `name`: that of
/// [`params_error`] for a relative `file`; a path the platform takes as
/// absolute (which can only be one starting with `/`, `\` or a drive) is
/// refused as `invalid_path`.
pub fn check_apply_params(file: &str, name: &str) -> (r: Option<String>)
    ensures
        refusal_is(r, params_error(file@, name@, false)) || (rooted_or_drive(file@) && refusal_is(
            r,
            params_error(file@, name@, true),
        )),
        (file@.len() == 0 || name@.len() == 0) ==> (r matches Some(e) && e@ == "missing_params"@),
        file@.len() > 0 && name@.len() > 0 && has_dot_dot(file@) ==> (r matches Some(e) && e@ == "invalid_path"@),
{
    let absolute = path_is_absolute(file);
    apply_params_error(file, name, absolute)
}

/// What an accepted edit gives: the refusal `bounds_error` for a definition
/// outside the text, `body_mismatch` when the body found is not the body the
/// page showed (its final line feeds aside), else the new source text.
pub open spec fn prepared_edit(src: Seq<char>, def_start: int, def_end: int, old_body: Seq<char>, new_body: Seq<char>) -> Result<Seq<char>, Seq<char>> {
    if !in_bounds(lines(src), def_start, def_end) {
        Err("bounds_error"@)
    } else if join_lines(lines(src).subrange(def_start, def_end - 1)) != trim_end_nl(old_body) {
        Err("body_mismatch"@)
    } else {
        Ok(apply_edit_spec(src, def_start, def_end, new_body))
    }
}

/// Checks that the chunk body in `src_text` is still `old_body`, and gives
/// the text with `new_body` in its place.
pub fn prepare_apply(src_text: &str, def_start: usize, def_end: usize, old_body: &str, new_body: &str) -> (r: Result<String, String>)
    requires
        in_bounds(lines(src_text@), def_start as int, def_end as int) ==> def_start < def_end,
    ensures
        match r {
            Ok(t) => prepared_edit(src_text@, def_start as int, def_end as int, old_body@, new_body@) == Ok::<Seq<char>, Seq<char>>(t@),
            Err(e) => prepared_edit(src_text@, def_start as int, def_end as int, old_body@, new_body@) == Err::<Seq<char>, Seq<char>>(e@),
        },
{
    let actual = match extract_chunk_body(src_text, def_start, def_end) {
        Ok(b) => b,
        Err(e) => {
            return Err(e);
        },
    };
    let a = chars_of(actual.as_str());
    let o = chars_of(old_body);
    let ot = trim_end_newlines(o.as_slice());
    if !chars_eq(a.as_slice(), ot.as_slice()) {
        return Err("body_mismatch".to_string());
    }
    Ok(apply_chunk_edit(src_text, def_start, def_end, new_body))
}

} // verus!
