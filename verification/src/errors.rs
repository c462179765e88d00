//! Error types of the library.
use vstd::prelude::*;

verus! {

#[verifier::external_type_specification]
#[verifier::external_body]
pub struct ExIoError(std::io::Error);

#[verifier::external_type_specification]
#[verifier::external_body]
pub struct ExPathBuf(std::path::PathBuf);

/// A position in the input: the index of the file (in reading order) and a
/// 0-based line number.
#[derive(Debug, Clone, Copy, PartialEq, Eq)]
pub struct ChunkLocation {
    pub file_idx: usize,
    pub line: usize,
}

/// Errors of chunk expansion and reading.
#[derive(Debug)]
pub enum ChunkError {
    RecursionLimit { chunk: String, file_name: String, location: ChunkLocation },
    RecursiveReference { chunk: String, cycle: Vec<String>, file_name: String, location: ChunkLocation },
    UndefinedChunk { chunk: String, file_name: String, location: ChunkLocation },
    IoError(std::io::Error),
    FileChunkRedefinition { file_chunk: String, file_name: String, location: ChunkLocation },
}

/// The abstract value of a [`ChunkError`]; an I/O error is seen only by its kind.
pub enum ChunkErrorView {
    RecursionLimit { chunk: Seq<char>, file_name: Seq<char>, location: ChunkLocation },
    RecursiveReference { chunk: Seq<char>, cycle: Seq<Seq<char>>, file_name: Seq<char>, location: ChunkLocation },
    UndefinedChunk { chunk: Seq<char>, file_name: Seq<char>, location: ChunkLocation },
    IoError,
    FileChunkRedefinition { file_chunk: Seq<char>, file_name: Seq<char>, location: ChunkLocation },
}

impl View for ChunkError {
    type V = ChunkErrorView;

    open spec fn view(&self) -> ChunkErrorView {
        match self {
            ChunkError::RecursionLimit { chunk, file_name, location } => ChunkErrorView::RecursionLimit {
                chunk: chunk@,
                file_name: file_name@,
                location: *location,
            },
            ChunkError::RecursiveReference { chunk, cycle, file_name, location } => ChunkErrorView::RecursiveReference {
                chunk: chunk@,
                cycle: cycle@.map_values(|c: String| c@),
                file_name: file_name@,
                location: *location,
            },
            ChunkError::UndefinedChunk { chunk, file_name, location } => ChunkErrorView::UndefinedChunk {
                chunk: chunk@,
                file_name: file_name@,
                location: *location,
            },
            ChunkError::IoError(_) => ChunkErrorView::IoError,
            ChunkError::FileChunkRedefinition { file_chunk, file_name, location } => ChunkErrorView::FileChunkRedefinition {
                file_chunk: file_chunk@,
                file_name: file_name@,
                location: *location,
            },
        }
    }
}

/// A database failure, carried as its message.
#[derive(Debug)]
pub enum DbError {
    Sql(String),
}

/// Errors of the safe file writer.
#[derive(Debug)]
pub enum SafeWriterError {
    IoError(std::io::Error),
    DirectoryCreationFailed(std::path::PathBuf),
    BackupFailed(std::path::PathBuf),
    ModifiedExternally(std::path::PathBuf),
    SecurityViolation(String),
    FormatterError(String),
    DbError(DbError),
}

/// Any error of tangling.
#[derive(Debug)]
pub enum WeavebackError {
    Chunk(ChunkError),
    SafeWriter(SafeWriterError),
    Db(DbError),
}

/// Errors of source lookups.
#[derive(Debug)]
pub enum LookupError {
    Db(DbError),
    Io(std::io::Error),
    InvalidInput(String),
}

} // verus!
