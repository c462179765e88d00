//! Texts of reports: the order in which strings are listed, and the
//! messages of the library's errors.
use vstd::prelude::*;
use crate::errors::{ChunkError, ChunkErrorView, DbError, SafeWriterError, WeavebackError};
use crate::text::{dec, decimal, push_all, push_str, string_of};

verus! {

// ── string order ─────────────────────────────────────────────────────────

/// `a` comes strictly before `b` in the order of `String`: character by
/// character, a proper prefix first.
pub open spec fn lex_lt(a: Seq<char>, b: Seq<char>) -> bool
    decreases a.len(),
{
    if a.len() == 0 {
        b.len() > 0
    } else if b.len() == 0 {
        false
    } else if a[0] != b[0] {
        a[0] < b[0]
    } else {
        lex_lt(a.drop_first(), b.drop_first())
    }
}

pub open spec fn lex_le(a: Seq<char>, b: Seq<char>) -> bool {
    a == b || lex_lt(a, b)
}

/// The strings are in ascending order.
pub open spec fn sorted(s: Seq<Seq<char>>) -> bool {
    forall|i: int, j: int| 0 <= i < j < s.len() ==> lex_le(#[trigger] s[i], #[trigger] s[j])
}

pub proof fn lemma_lex_total(a: Seq<char>, b: Seq<char>)
    ensures
        lex_lt(a, b) || a == b || lex_lt(b, a),
    decreases a.len(),
{
    if a.len() > 0 && b.len() > 0 && a[0] == b[0] {
        lemma_lex_total(a.drop_first(), b.drop_first());
        if a.drop_first() == b.drop_first() {
            assert(a =~= seq![a[0]] + a.drop_first());
            assert(b =~= seq![b[0]] + b.drop_first());
        }
    } else if a.len() == 0 && b.len() == 0 {
        assert(a =~= b);
    }
}

pub proof fn lemma_lex_irrefl(a: Seq<char>)
    ensures
        !lex_lt(a, a),
    decreases a.len(),
{
    if a.len() > 0 {
        lemma_lex_irrefl(a.drop_first());
    }
}

pub proof fn lemma_lex_trans(a: Seq<char>, b: Seq<char>, c: Seq<char>)
    requires
        lex_lt(a, b),
        lex_lt(b, c),
    ensures
        lex_lt(a, c),
    decreases a.len(),
{
    if a.len() > 0 && b.len() > 0 && c.len() > 0 && a[0] == b[0] && b[0] == c[0] {
        lemma_lex_trans(a.drop_first(), b.drop_first(), c.drop_first());
    }
}

/// `lex_lt` computed.
pub fn chars_lt(a: &[char], b: &[char]) -> (r: bool)
    ensures
        r == lex_lt(a@, b@),
{
    let mut i: usize = 0;
    assert(a@.skip(0) =~= a@);
    assert(b@.skip(0) =~= b@);
    while i < a.len() && i < b.len() && a[i] == b[i]
        invariant
            i <= a.len(),
            i <= b.len(),
            lex_lt(a@, b@) == lex_lt(a@.skip(i as int), b@.skip(i as int)),
        decreases a.len() - i,
    {
        assert(a@.skip(i as int).drop_first() =~= a@.skip(i + 1));
        assert(b@.skip(i as int).drop_first() =~= b@.skip(i + 1));
        i = i + 1;
    }
    if i == a.len() {
        i < b.len()
    } else if i == b.len() {
        false
    } else {
        assert(a@.skip(i as int)[0] == a@[i as int]);
        assert(b@.skip(i as int)[0] == b@[i as int]);
        a[i] < b[i]
    }
}

pub open spec fn char_views(v: Seq<Vec<char>>) -> Seq<Seq<char>> {
    v.map_values(|x: Vec<char>| x@)
}

/// The strings of `v` in ascending order.
pub fn sort_strings(v: Vec<Vec<char>>) -> (r: Vec<Vec<char>>)
    ensures
        sorted(char_views(r@)),
        char_views(r@).to_multiset() == char_views(v@).to_multiset(),
{
    let mut r: Vec<Vec<char>> = Vec::new();
    let mut k: usize = 0;
    let ghost vv = char_views(v@);
    assert(char_views(r@) =~= vv.take(0));
    let n = v.len();
    let mut rest = v;
    // Elements are taken from the front of `v`, in order.
    assert(char_views(rest@) =~= vv.skip(0));
    while k < n
        invariant
            k <= n == vv.len(),
            char_views(rest@) == vv.skip(k as int),
            rest@.len() == n - k,
            sorted(char_views(r@)),
            char_views(r@).to_multiset() == vv.take(k as int).to_multiset(),
        decreases n - k,
    {
        assert(char_views(rest@)[0] == rest@[0]@);
        assert(vv.skip(k as int)[0] == vv[k as int]);
        let ghost before_rest = rest@;
        let x = rest.remove(0);
        assert(char_views(rest@) =~= char_views(before_rest).drop_first());
        assert(x@ == vv[k as int]);
        assert(char_views(rest@) =~= vv.skip(k + 1));
        let ghost old_r = char_views(r@);
        let mut j: usize = 0;
        while j < r.len() && !chars_lt(x.as_slice(), r[j].as_slice())
            invariant
                j <= r.len(),
                char_views(r@) == old_r,
                forall|t: int| 0 <= t < j ==> lex_le(#[trigger] old_r[t], x@),
            decreases r.len() - j,
        {
            proof {
                lemma_lex_total(x@, old_r[j as int]);
            }
            j = j + 1;
        }
        proof {
            if j < r.len() {
                assert(lex_lt(x@, old_r[j as int]));
            }
        }
        r.insert(j, x);
        let ghost new_r = char_views(r@);
        assert(new_r =~= old_r.insert(j as int, x@));
        proof {
            vstd::seq_lib::to_multiset_insert(old_r, j as int, x@);
            vstd::seq_lib::to_multiset_build(vv.take(k as int), vv[k as int]);
            assert(vv.take(k + 1) =~= vv.take(k as int).push(vv[k as int]));
            assert forall|a: int, b: int| 0 <= a < b < new_r.len() implies lex_le(#[trigger] new_r[a], #[trigger] new_r[b]) by {
                if b < j {
                    assert(new_r[a] == old_r[a] && new_r[b] == old_r[b]);
                } else if b == j {
                    assert(new_r[a] == old_r[a]);
                } else if a == j {
                    assert(new_r[b] == old_r[b - 1]);
                    if b - 1 == j {
                    } else {
                        assert(lex_le(old_r[j as int], old_r[b - 1]));
                        if lex_lt(old_r[j as int], old_r[b - 1]) {
                            lemma_lex_trans(x@, old_r[j as int], old_r[b - 1]);
                        }
                    }
                } else if a < j {
                    assert(new_r[a] == old_r[a] && new_r[b] == old_r[b - 1]);
                    assert(lex_le(old_r[a], x@));
                    if j < old_r.len() {
                        assert(lex_le(old_r[a], old_r[b - 1]));
                    }
                } else {
                    assert(new_r[a] == old_r[a - 1] && new_r[b] == old_r[b - 1]);
                }
            }
        }
        k = k + 1;
    }
    assert(vv.take(n as int) =~= vv);
    r
}

// ── error messages ───────────────────────────────────────────────────────

/// Strings joined with `" -> "`.
pub open spec fn arrow_join(s: Seq<Seq<char>>) -> Seq<char>
    decreases s.len(),
{
    if s.len() == 0 {
        seq![]
    } else if s.len() == 1 {
        s[0]
    } else {
        arrow_join(s.drop_last()) + " -> "@ + s.last()
    }
}

/// The message of a chunk error (other than an I/O error): the file, the
/// 1-based line and what went wrong.
pub open spec fn chunk_error_text(e: ChunkErrorView) -> Seq<char> {
    match e {
        ChunkErrorView::RecursionLimit { chunk, file_name, location } => file_name + " line "@ + dec((location.line + 1) as nat) + ": maximum recursion depth exceeded while expanding chunk '"@ + chunk + "'"@,
        ChunkErrorView::RecursiveReference { chunk, cycle, file_name, location } => file_name
            + " line "@ + dec((location.line + 1) as nat) + ": recursive reference detected in chunk '"@ + chunk
            + "' (cycle: "@ + arrow_join(cycle) + ")"@,
        ChunkErrorView::UndefinedChunk { chunk, file_name, location } => file_name + " line "@ + dec((location.line + 1) as nat) + ": referenced chunk '"@ + chunk + "' is undefined"@,
        ChunkErrorView::IoError => "I/O error: "@,
        ChunkErrorView::FileChunkRedefinition { file_chunk, file_name, location } => file_name
            + " line "@ + dec((location.line + 1) as nat) + ": file chunk '"@ + file_chunk
            + "' is already defined (use @replace to redefine)"@,
    }
}

/// The text of an I/O error (`Display` of `std::io::Error`); it depends on
/// the operating system's messages, so nothing is stated of it.
#[verifier::external_body]
fn io_error_text(e: &std::io::Error) -> String {
    e.to_string()
}

fn push_line_of(m: &mut Vec<char>, file_name: &String, line: usize)
    ensures
        final(m)@ == old(m)@ + file_name@ + " line "@ + dec((line + 1) as nat),
{
    push_str(m, file_name.as_str());
    push_str(m, " line ");
    let d = decimal(line as u128 + 1);
    push_all(m, d.as_slice());
}

impl ChunkError {
    /// The error's message; an I/O error's message goes on with the
    /// system's text.
    pub fn message(&self) -> (r: String)
        ensures
            self@ !is IoError ==> r@ == chunk_error_text(self@),
            self@ is IoError ==> r@.take(11) == "I/O error: "@,
    {
        let mut m: Vec<char> = Vec::new();
        match self {
            ChunkError::RecursionLimit { chunk, file_name, location } => {
                push_line_of(&mut m, file_name, location.line);
                push_str(&mut m, ": maximum recursion depth exceeded while expanding chunk '");
                push_str(&mut m, chunk.as_str());
                push_str(&mut m, "'");
            },
            ChunkError::RecursiveReference { chunk, cycle, file_name, location } => {
                push_line_of(&mut m, file_name, location.line);
                push_str(&mut m, ": recursive reference detected in chunk '");
                push_str(&mut m, chunk.as_str());
                push_str(&mut m, "' (cycle: ");
                let ghost cv = cycle@.map_values(|c: String| c@);
                let ghost before = m@;
                let mut i: usize = 0;
                assert(cv.take(0) =~= Seq::<Seq<char>>::empty());
                while i < cycle.len()
                    invariant
                        i <= cycle.len(),
                        cv == cycle@.map_values(|c: String| c@),
                        m@ == before + arrow_join(cv.take(i as int)),
                    decreases cycle.len() - i,
                {
                    assert(cv.take(i + 1).drop_last() =~= cv.take(i as int));
                    assert(cv.take(i + 1).last() == cycle@[i as int]@);
                    if i > 0 {
                        push_str(&mut m, " -> ");
                    } else {
                        assert(cv.take(1) =~= seq![cycle@[0]@]);
                    }
                    push_str(&mut m, cycle[i].as_str());
                    i = i + 1;
                }
                assert(cv.take(cycle.len() as int) =~= cv);
                push_str(&mut m, ")");
            },
            ChunkError::UndefinedChunk { chunk, file_name, location } => {
                push_line_of(&mut m, file_name, location.line);
                push_str(&mut m, ": referenced chunk '");
                push_str(&mut m, chunk.as_str());
                push_str(&mut m, "' is undefined");
            },
            ChunkError::IoError(e) => {
                push_str(&mut m, "I/O error: ");
                let t = io_error_text(e);
                let ghost head = m@;
                push_str(&mut m, t.as_str());
                proof {
                    reveal_strlit("I/O error: ");
                }
                assert(m@.take(11) =~= head);
            },
            ChunkError::FileChunkRedefinition { file_chunk, file_name, location } => {
                push_line_of(&mut m, file_name, location.line);
                push_str(&mut m, ": file chunk '");
                push_str(&mut m, file_chunk.as_str());
                push_str(&mut m, "' is already defined (use @replace to redefine)");
            },
        }
        string_of(m.as_slice())
    }
}


// ── messages of the other errors ─────────────────────────────────────────

/// The text of a path as `Path::display` shows it. A path that is not valid
/// UTF-8 is shown lossily, so nothing is stated of the text.
#[verifier::external_body]
fn path_text(p: &std::path::PathBuf) -> String {
    p.display().to_string()
}

/// The message of a database failure.
pub open spec fn db_error_text(e: DbError) -> Seq<char> {
    match e {
        DbError::Sql(s) => "database error: "@ + s@,
    }
}

/// The words that open the message of a safe-writer error.
pub open spec fn safe_writer_head(e: SafeWriterError) -> Seq<char> {
    match e {
        SafeWriterError::IoError(_) => "IO error: "@,
        SafeWriterError::DirectoryCreationFailed(_) => "Failed to create directory: "@,
        SafeWriterError::BackupFailed(_) => "Failed to create backup for: "@,
        SafeWriterError::ModifiedExternally(_) => "File was modified externally: "@,
        SafeWriterError::SecurityViolation(_) => "Security violation: "@,
        SafeWriterError::FormatterError(_) => "Formatter error: "@,
        SafeWriterError::DbError(_) => "Database error: "@,
    }
}

/// What follows the opening words, where it is the library's own text.
pub open spec fn safe_writer_detail(e: SafeWriterError) -> Option<Seq<char>> {
    match e {
        SafeWriterError::SecurityViolation(s) => Some(s@),
        SafeWriterError::FormatterError(s) => Some(s@),
        SafeWriterError::DbError(d) => Some(db_error_text(d)),
        _ => None,
    }
}

impl DbError {
    /// The error's message.
    pub fn message(&self) -> (r: String)
        ensures
            r@ == db_error_text(*self),
    {
        let mut m: Vec<char> = Vec::new();
        match self {
            DbError::Sql(s) => {
                push_str(&mut m, "database error: ");
                push_str(&mut m, s.as_str());
            },
        }
        string_of(m.as_slice())
    }
}

fn push_safe_writer_message(m: &mut Vec<char>, e: &SafeWriterError)
    ensures
        (old(m)@ + safe_writer_head(*e)).is_prefix_of(final(m)@),
        safe_writer_detail(*e) matches Some(d) ==> final(m)@ == old(m)@ + safe_writer_head(*e) + d,
{
    let ghost start = m@;
    match e {
        SafeWriterError::IoError(x) => {
            push_str(m, "IO error: ");
            let t = io_error_text(x);
            push_str(m, t.as_str());
        },
        SafeWriterError::DirectoryCreationFailed(p) => {
            push_str(m, "Failed to create directory: ");
            let t = path_text(p);
            push_str(m, t.as_str());
        },
        SafeWriterError::BackupFailed(p) => {
            push_str(m, "Failed to create backup for: ");
            let t = path_text(p);
            push_str(m, t.as_str());
        },
        SafeWriterError::ModifiedExternally(p) => {
            push_str(m, "File was modified externally: ");
            let t = path_text(p);
            push_str(m, t.as_str());
        },
        SafeWriterError::SecurityViolation(s) => {
            push_str(m, "Security violation: ");
            push_str(m, s.as_str());
        },
        SafeWriterError::FormatterError(s) => {
            push_str(m, "Formatter error: ");
            push_str(m, s.as_str());
        },
        SafeWriterError::DbError(d) => {
            push_str(m, "Database error: ");
            let t = d.message();
            push_str(m, t.as_str());
        },
    }
    assert((start + safe_writer_head(*e)).is_prefix_of(m@)) by {
        assert(m@.subrange(0, (start + safe_writer_head(*e)).len() as int) =~= start + safe_writer_head(*e));
    }
}

impl SafeWriterError {
    /// The error's message; for an I/O error or a path it goes on with the
    /// system's text of it.
    pub fn message(&self) -> (r: String)
        ensures
            safe_writer_head(*self).is_prefix_of(r@),
            safe_writer_detail(*self) matches Some(d) ==> r@ == safe_writer_head(*self) + d,
    {
        let mut m: Vec<char> = Vec::new();
        push_safe_writer_message(&mut m, self);
        assert(Seq::<char>::empty() + safe_writer_head(*self) =~= safe_writer_head(*self));
        string_of(m.as_slice())
    }
}

impl WeavebackError {
    /// The error's message: the kind of error, then the message of the error
    /// it carries.
    pub fn message(&self) -> (r: String)
        ensures
            self matches WeavebackError::Chunk(e) ==> ("Chunk error: "@).is_prefix_of(r@)
                && (e@ !is IoError ==> r@ == "Chunk error: "@ + chunk_error_text(e@)),
            self matches WeavebackError::SafeWriter(e) ==> ("Safe writer error: "@ + safe_writer_head(*e)).is_prefix_of(r@)
                && (safe_writer_detail(*e) matches Some(d) ==> r@ == "Safe writer error: "@ + safe_writer_head(*e) + d),
            self matches WeavebackError::Db(d) ==> r@ == "Database error: "@ + db_error_text(*d),
    {
        let mut m: Vec<char> = Vec::new();
        match self {
            WeavebackError::Chunk(e) => {
                push_str(&mut m, "Chunk error: ");
                let t = e.message();
                push_str(&mut m, t.as_str());
                assert(m@.subrange(0, ("Chunk error: "@).len() as int) =~= "Chunk error: "@);
            },
            WeavebackError::SafeWriter(e) => {
                push_str(&mut m, "Safe writer error: ");
                push_safe_writer_message(&mut m, e);
            },
            WeavebackError::Db(d) => {
                push_str(&mut m, "Database error: ");
                let t = d.message();
                push_str(&mut m, t.as_str());
            },
        }
        string_of(m.as_slice())
    }
}

} // verus!
