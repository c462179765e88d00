//! Configuration records of the tools built on the library: the server's
//! tangle and AI settings, the embedding and tagging back ends, and the
//! writer of generated files.
use vstd::prelude::*;
use crate::text::{chars_eq, chars_of};

verus! {

/// Which back end answers the server's AI questions.
#[derive(Clone, Copy, Debug, PartialEq, Eq, Structural)]
pub enum AiBackend {
    /// The vendor's command-line client, in streaming JSON mode.
    ClaudeCli,
    /// The Anthropic HTTP API.
    Anthropic,
    /// The Google Gemini HTTP API.
    Gemini,
    /// A local Ollama server.
    Ollama,
    /// An OpenAI-compatible HTTP API.
    OpenAi,
}

/// The back end a command line names: `anthropic`, `gemini`, `ollama` or
/// `openai`; any other name means the command-line client.
pub open spec fn backend_named(n: Seq<char>) -> AiBackend {
    if n == "anthropic"@ {
        AiBackend::Anthropic
    } else if n == "gemini"@ {
        AiBackend::Gemini
    } else if n == "ollama"@ {
        AiBackend::Ollama
    } else if n == "openai"@ {
        AiBackend::OpenAi
    } else {
        AiBackend::ClaudeCli
    }
}

fn names(c: &[char], w: &str) -> (b: bool)
    ensures
        b == (c@ == w@),
{
    let v = chars_of(w);
    chars_eq(c, v.as_slice())
}

impl AiBackend {
    /// The back end named `name` on the command line.
    pub fn from_name(name: &str) -> (b: AiBackend)
        ensures
            b == backend_named(name@),
    {
        let c = chars_of(name);
        if names(c.as_slice(), "anthropic") {
            AiBackend::Anthropic
        } else if names(c.as_slice(), "gemini") {
            AiBackend::Gemini
        } else if names(c.as_slice(), "ollama") {
            AiBackend::Ollama
        } else if names(c.as_slice(), "openai") {
            AiBackend::OpenAi
        } else {
            AiBackend::ClaudeCli
        }
    }
}

/// The chunk syntax the server tangles with, and its AI settings.
#[derive(Clone, Debug)]
pub struct TangleConfig {
    pub open_delim: String,
    pub close_delim: String,
    pub chunk_end: String,
    pub comment_markers: Vec<String>,
    pub ai_backend: AiBackend,
    pub ai_model: Option<String>,
    pub ai_endpoint: Option<String>,
}

impl Default for TangleConfig {
    /// `<[name]>` references, `@@` chunk ends, `//` comments, the command-line
    /// client as AI back end, with no model or endpoint chosen.
    fn default() -> (r: Self)
        ensures
            r.open_delim@ == "<["@,
            r.close_delim@ == "]>"@,
            r.chunk_end@ == "@@"@,
            r.comment_markers@.len() == 1,
            r.comment_markers@[0]@ == "//"@,
            r.ai_backend == AiBackend::ClaudeCli,
            r.ai_model is None,
            r.ai_endpoint is None,
    {
        TangleConfig {
            open_delim: "<[".to_string(),
            close_delim: "]>".to_string(),
            chunk_end: "@@".to_string(),
            comment_markers: vec!["//".to_string()],
            ai_backend: AiBackend::ClaudeCli,
            ai_model: None,
            ai_endpoint: None,
        }
    }
}

/// Settings of the embedding back end.
#[derive(Clone, Debug)]
pub struct EmbeddingConfig {
    pub backend: String,
    pub model: String,
    pub endpoint: Option<String>,
    pub batch_size: usize,
}

/// The embedding back end used when none is configured.
pub fn default_embeddings_backend() -> (r: String)
    ensures
        r@ == "openai"@,
{
    "openai".to_string()
}

/// The embedding model used when none is configured.
pub fn default_embeddings_model() -> (r: String)
    ensures
        r@ == "text-embedding-3-small"@,
{
    "text-embedding-3-small".to_string()
}

/// The number of texts embedded per request when none is configured.
pub fn default_embeddings_batch_size() -> (n: usize)
    ensures
        n == 24,
{
    24
}

impl EmbeddingConfig {
    /// The configuration made of the defaults, with no endpoint.
    pub fn defaults() -> (r: Self)
        ensures
            r.backend@ == "openai"@,
            r.model@ == "text-embedding-3-small"@,
            r.endpoint is None,
            r.batch_size == 24,
    {
        EmbeddingConfig {
            backend: default_embeddings_backend(),
            model: default_embeddings_model(),
            endpoint: None,
            batch_size: default_embeddings_batch_size(),
        }
    }
}

/// Settings of the tagging back end.
#[derive(Clone, Debug)]
pub struct TagConfig {
    /// `anthropic`, `gemini`, `openai` or `ollama`.
    pub backend: String,
    /// The model's identifier.
    pub model: String,
    /// The base URL of an OpenAI-compatible or Ollama endpoint.
    pub endpoint: Option<String>,
    /// The number of blocks per request.
    pub batch_size: usize,
}

/// Settings of the writer of generated files.
#[derive(Clone, Debug)]
pub struct SafeWriterConfig {
    pub buffer_size: usize,
    /// File extension and the shell command that formats such files; a later
    /// entry for the same extension replaces an earlier one.
    pub formatters: Vec<(String, String)>,
    /// Allow `@file ~/...` chunks to write outside the generated tree.
    pub allow_home: bool,
    /// Rewrite generated files even where they were modified by hand.
    pub force_generated: bool,
}

impl Default for SafeWriterConfig {
    /// An 8 KiB buffer, no formatter, home paths refused, hand edits kept.
    fn default() -> (r: Self)
        ensures
            r.buffer_size == 8192,
            r.formatters@.len() == 0,
            !r.allow_home,
            !r.force_generated,
    {
        SafeWriterConfig { buffer_size: 8192, formatters: Vec::new(), allow_home: false, force_generated: false }
    }
}

} // verus!
