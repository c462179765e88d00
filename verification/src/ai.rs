//! The assistant of the documentation server: the back end that answers a
//! question, what it is asked, and how the lines it streams back become
//! server-sent events for the browser.
use vstd::prelude::*;
use crate::config::AiBackend;
use crate::text::{chars_eq, chars_of, match_at, matches_at, push_str, string_of, sub_chars, trim, trim_chars};

verus! {

// ── what the assistant is asked ──────────────────────────────────────────

/// The instructions given to the assistant with every question.
pub open spec fn system_prompt_text() -> Seq<char> {
    "You are an AI assistant embedded in weaveback, a literate programming toolchain. You help the user understand, improve, and debug code chunks in their literate source documents (.adoc files with noweb-style chunk definitions). When you propose a code edit, output it as a fenced code block. Be concise and precise. If chunk context is provided, use it to ground your answer."@
}

/// The instructions given to the assistant with every question.
pub fn system_prompt() -> (r: String)
    ensures
        r@ == system_prompt_text(),
{
    "You are an AI assistant embedded in weaveback, a literate programming toolchain. You help the user understand, improve, and debug code chunks in their literate source documents (.adoc files with noweb-style chunk definitions). When you propose a code edit, output it as a fenced code block. Be concise and precise. If chunk context is provided, use it to ground your answer.".to_string()
}

/// The user's message: the question, preceded by the chunk's context (as
/// JSON) when there is one.
pub open spec fn user_content_of(question: Seq<char>, context: Option<Seq<char>>) -> Seq<char> {
    match context {
        None => question,
        Some(c) => "Chunk context:\n```json\n"@ + c + "\n```\n\nQuestion: "@ + question,
    }
}

pub open spec fn opt_view(o: Option<&str>) -> Option<Seq<char>> {
    match o {
        Some(s) => Some(s@),
        None => None,
    }
}

/// The user's message for `question`, with the chunk context `context_json`.
pub fn user_content(question: &str, context_json: Option<&str>) -> (r: String)
    ensures
        r@ == user_content_of(question@, opt_view(context_json)),
{
    match context_json {
        None => question.to_string(),
        Some(c) => {
            let mut m: Vec<char> = Vec::new();
            push_str(&mut m, "Chunk context:\n```json\n");
            push_str(&mut m, c);
            push_str(&mut m, "\n```\n\nQuestion: ");
            push_str(&mut m, question);
            string_of(m.as_slice())
        },
    }
}

// ── which back end, where, with which model ──────────────────────────────

/// The environment variable that holds the API key of a back end.
pub open spec fn key_var_of(b: AiBackend) -> Option<Seq<char>> {
    match b {
        AiBackend::Anthropic => Some("ANTHROPIC_API_KEY"@),
        AiBackend::Gemini => Some("GOOGLE_API_KEY"@),
        AiBackend::OpenAi => Some("OPENAI_API_KEY"@),
        _ => None,
    }
}

/// The environment variable that holds the API key of back end `b`, if it
/// takes one.
pub fn api_key_var(b: AiBackend) -> (r: Option<&'static str>)
    ensures
        opt_view(r) == key_var_of(b),
{
    match b {
        AiBackend::Anthropic => Some("ANTHROPIC_API_KEY"),
        AiBackend::Gemini => Some("GOOGLE_API_KEY"),
        AiBackend::OpenAi => Some("OPENAI_API_KEY"),
        _ => None,
    }
}

/// The value chosen, or the default.
pub open spec fn or_default(v: Option<Seq<char>>, d: Seq<char>) -> Seq<char> {
    match v {
        Some(x) => x,
        None => d,
    }
}

/// `s` without its trailing `c` characters (as `trim_end_matches(c)`).
pub open spec fn trim_end_char(s: Seq<char>, c: char) -> Seq<char>
    decreases s.len(),
{
    if s.len() > 0 && s.last() == c {
        trim_end_char(s.drop_last(), c)
    } else {
        s
    }
}

/// `s` without its leading `c` characters (as `trim_start_matches(c)`).
pub open spec fn trim_start_char(s: Seq<char>, c: char) -> Seq<char>
    decreases s.len(),
{
    if s.len() > 0 && s[0] == c {
        trim_start_char(s.drop_first(), c)
    } else {
        s
    }
}

fn trim_end_char_exec(s: &[char], c: char) -> (r: Vec<char>)
    ensures
        r@ == trim_end_char(s@, c),
{
    let mut k: usize = s.len();
    assert(s@.take(k as int) =~= s@);
    while k > 0 && s[k - 1] == c
        invariant
            k <= s.len(),
            trim_end_char(s@, c) == trim_end_char(s@.take(k as int), c),
        decreases k,
    {
        assert(s@.take(k as int).drop_last() =~= s@.take(k - 1));
        k = k - 1;
    }
    let r = sub_chars(s, 0, k);
    assert(r@ =~= s@.take(k as int));
    r
}

fn trim_start_char_exec(s: &[char], c: char) -> (r: Vec<char>)
    ensures
        r@ == trim_start_char(s@, c),
{
    let mut a: usize = 0;
    assert(s@.skip(0) =~= s@);
    while a < s.len() && s[a] == c
        invariant
            a <= s.len(),
            trim_start_char(s@, c) == trim_start_char(s@.skip(a as int), c),
        decreases s.len() - a,
    {
        assert(s@.skip(a as int).drop_first() =~= s@.skip(a + 1));
        a = a + 1;
    }
    let r = sub_chars(s, a, s.len());
    assert(r@ =~= s@.skip(a as int));
    r
}

/// How a question is put to a back end.
#[allow(inconsistent_fields)]
pub enum AiPlan {
    /// Run the command-line client with these arguments.
    Cli { args: Vec<String> },
    /// Post to the Anthropic API at `url` with the key and model.
    Anthropic { url: String, key: String, model: String },
    /// Post to the Gemini API at `url` (which carries the key) with the model.
    Gemini { url: String, model: String },
    /// Post to an Ollama server at `url` with the model.
    Ollama { url: String, model: String },
    /// Post to an OpenAI-compatible API at `url` with the model, and the key
    /// when one is set.
    OpenAi { url: String, model: String, key: Option<String> },
}

pub open spec fn strings(v: Seq<String>) -> Seq<Seq<char>> {
    v.map_values(|s: String| s@)
}

/// The arguments of the command-line client: the user's message as the
/// prompt, streamed JSON output, and the instructions appended to its own.
pub open spec fn cli_args_of(system: Seq<char>, user: Seq<char>) -> Seq<Seq<char>> {
    seq!["-p"@, user, "--output-format"@, "stream-json"@, "--verbose"@, "--append-system-prompt"@, system]
}

/// A value that is set and not empty.
pub open spec fn usable_key(key: Option<Seq<char>>) -> bool {
    key matches Some(k) && k.len() > 0
}

/// The refusal of a back end whose key variable `var` is not set.
pub open spec fn missing_key_text(var: Seq<char>) -> Seq<char> {
    "no_api_key: set "@ + var + " env var"@
}

/// The plan for back end `b`, with the model and endpoint configured (if
/// any), the value of its key variable (if set), the instructions and the
/// user's message; the refusal when a key it needs is missing.
pub open spec fn plan_ok(
    b: AiBackend,
    model: Option<Seq<char>>,
    endpoint: Option<Seq<char>>,
    key: Option<Seq<char>>,
    system: Seq<char>,
    user: Seq<char>,
    p: AiPlan,
) -> bool {
    match b {
        AiBackend::ClaudeCli => p matches AiPlan::Cli { args } && strings(args@) == cli_args_of(system, user),
        AiBackend::Anthropic => p matches AiPlan::Anthropic { url, key: k, model: m } && {
            &&& url@ == "https://api.anthropic.com/v1/messages"@
            &&& Some(k@) == key
            &&& Some(m@) == model
        },
        AiBackend::Gemini => p matches AiPlan::Gemini { url, model: m } && {
            &&& m@ == or_default(model, "gemini-1.5-pro"@)
            &&& url@ == "https://generativelanguage.googleapis.com/v1beta/models/"@ + m@ + ":streamGenerateContent?key="@
                + key->0
        },
        AiBackend::Ollama => p matches AiPlan::Ollama { url, model: m } && {
            &&& m@ == or_default(model, "llama3"@)
            &&& url@ == trim_end_char(or_default(endpoint, "http://localhost:11434"@), '/') + "/api/chat"@
        },
        AiBackend::OpenAi => p matches AiPlan::OpenAi { url, model: m, key: k } && {
            &&& m@ == or_default(model, "gpt-4o"@)
            &&& url@ == trim_end_char(or_default(endpoint, "https://api.openai.com/v1"@), '/') + "/chat/completions"@
            &&& match k {
                Some(x) => key == Some(x@),
                None => key is None,
            }
        },
    }
}

/// Whether back end `b` refuses to run without a key.
pub open spec fn needs_key(b: AiBackend) -> bool {
    b == AiBackend::Anthropic || b == AiBackend::Gemini
}

/// The refusal of the Anthropic back end when no model is configured; it
/// has no default model.
pub open spec fn missing_model_text() -> Seq<char> {
    "no_model: set --ai-model for the anthropic back end"@
}

/// Why a question cannot be put to back end `b`: a key it needs is not
/// set, or (Anthropic) no model is configured.
pub open spec fn refusal_of(b: AiBackend, model: Option<Seq<char>>, key: Option<Seq<char>>) -> Option<Seq<char>> {
    if needs_key(b) && !usable_key(key) {
        Some(missing_key_text(key_var_of(b)->0))
    } else if b == AiBackend::Anthropic && model is None {
        Some(missing_model_text())
    } else {
        None
    }
}

fn or_default_exec(v: Option<&str>, d: &str) -> (r: String)
    ensures
        r@ == or_default(opt_view(v), d@),
{
    match v {
        Some(x) => x.to_string(),
        None => d.to_string(),
    }
}

fn joined(a: &[char], b: &str) -> (r: String)
    ensures
        r@ == a@ + b@,
{
    let mut m: Vec<char> = Vec::new();
    crate::text::push_all(&mut m, a);
    push_str(&mut m, b);
    string_of(m.as_slice())
}

/// Decides how a question is put to back end `b`: `model` and `endpoint`
/// as configured, `key` the value of the back end's key variable when set.
pub fn plan_ai_request(
    b: AiBackend,
    model: Option<&str>,
    endpoint: Option<&str>,
    key: Option<&str>,
    system: &str,
    user: &str,
) -> (r: Result<AiPlan, String>)
    ensures
        match refusal_of(b, opt_view(model), opt_view(key)) {
            Some(t) => r matches Err(e) && e@ == t,
            None => r matches Ok(p) && plan_ok(b, opt_view(model), opt_view(endpoint), opt_view(key), system@, user@, p),
        },
{
    match b {
        AiBackend::ClaudeCli => {
            let args = vec![
                "-p".to_string(),
                user.to_string(),
                "--output-format".to_string(),
                "stream-json".to_string(),
                "--verbose".to_string(),
                "--append-system-prompt".to_string(),
                system.to_string(),
            ];
            assert(strings(args@) =~= cli_args_of(system@, user@));
            Ok(AiPlan::Cli { args })
        },
        AiBackend::Anthropic => {
            match key {
                Some(k) if !k.is_empty() => {
                    match model {
                        Some(m) => Ok(AiPlan::Anthropic {
                            url: "https://api.anthropic.com/v1/messages".to_string(),
                            key: k.to_string(),
                            model: m.to_string(),
                        }),
                        None => Err("no_model: set --ai-model for the anthropic back end".to_string()),
                    }
                },
                _ => {
                    let mut e: Vec<char> = Vec::new();
                    push_str(&mut e, "no_api_key: set ");
                    push_str(&mut e, "ANTHROPIC_API_KEY");
                    push_str(&mut e, " env var");
                    Err(string_of(e.as_slice()))
                },
            }
        },
        AiBackend::Gemini => {
            match key {
                Some(k) if !k.is_empty() => {
                    let m = or_default_exec(model, "gemini-1.5-pro");
                    let mut u: Vec<char> = Vec::new();
                    push_str(&mut u, "https://generativelanguage.googleapis.com/v1beta/models/");
                    push_str(&mut u, m.as_str());
                    push_str(&mut u, ":streamGenerateContent?key=");
                    push_str(&mut u, k);
                    Ok(AiPlan::Gemini { url: string_of(u.as_slice()), model: m })
                },
                _ => {
                    let mut e: Vec<char> = Vec::new();
                    push_str(&mut e, "no_api_key: set ");
                    push_str(&mut e, "GOOGLE_API_KEY");
                    push_str(&mut e, " env var");
                    Err(string_of(e.as_slice()))
                },
            }
        },
        AiBackend::Ollama => {
            let base = or_default_exec(endpoint, "http://localhost:11434");
            let bc = chars_of(base.as_str());
            let t = trim_end_char_exec(bc.as_slice(), '/');
            let url = joined(t.as_slice(), "/api/chat");
            let m = or_default_exec(model, "llama3");
            Ok(AiPlan::Ollama { url, model: m })
        },
        AiBackend::OpenAi => {
            let base = or_default_exec(endpoint, "https://api.openai.com/v1");
            let bc = chars_of(base.as_str());
            let t = trim_end_char_exec(bc.as_slice(), '/');
            let url = joined(t.as_slice(), "/chat/completions");
            let m = or_default_exec(model, "gpt-4o");
            let k = match key {
                Some(x) => Some(x.to_string()),
                None => None,
            };
            Ok(AiPlan::OpenAi { url, model: m, key: k })
        },
    }
}

/// The text the Gemini API is sent: the instructions, then the message.
pub open spec fn gemini_text_of(system: Seq<char>, user: Seq<char>) -> Seq<char> {
    "System: "@ + system + "\n\n"@ + user
}

/// The single text the Gemini API is sent.
pub fn gemini_text(system: &str, user: &str) -> (r: String)
    ensures
        r@ == gemini_text_of(system@, user@),
{
    let mut m: Vec<char> = Vec::new();
    push_str(&mut m, "System: ");
    push_str(&mut m, system);
    push_str(&mut m, "\n\n");
    push_str(&mut m, user);
    string_of(m.as_slice())
}

// ── the answer, line by line ─────────────────────────────────────────────

/// What a line of a streamed answer holds.
pub enum StreamLine {
    /// Nothing to read.
    Skip,
    /// The end of the answer.
    Done,
    /// A JSON object to read.
    Json(String),
}

/// The abstract value of a [`StreamLine`].
pub enum LineView {
    Skip,
    Done,
    Json(Seq<char>),
}

impl View for StreamLine {
    type V = LineView;

    open spec fn view(&self) -> LineView {
        match self {
            StreamLine::Skip => LineView::Skip,
            StreamLine::Done => LineView::Done,
            StreamLine::Json(s) => LineView::Json(s@),
        }
    }
}

/// A server-sent-events `data: ` line: its payload, `[DONE]` ending the
/// stream; other lines carry nothing.
pub open spec fn data_line(t: Seq<char>) -> LineView {
    if !matches_at(t, 0, "data: "@) {
        LineView::Skip
    } else if t.skip(6) == "[DONE]"@ {
        LineView::Done
    } else {
        LineView::Json(t.skip(6))
    }
}

/// A line that is a JSON object by itself, when it is not blank.
pub open spec fn json_line(t: Seq<char>) -> LineView {
    if t.len() == 0 {
        LineView::Skip
    } else {
        LineView::Json(t)
    }
}

/// What a line streamed by back end `b` holds. The Anthropic stream is
/// read with its line ending cut off, the OpenAI one trimmed; both are
/// event streams. Gemini streams the pieces of one JSON array, so the
/// separating comma and the brackets are dropped. The others stream one
/// JSON object per line.
pub open spec fn stream_line_of(b: AiBackend, line: Seq<char>) -> LineView {
    match b {
        AiBackend::Anthropic => data_line(trim_end_char(trim_end_char(line, '\n'), '\r')),
        AiBackend::OpenAi => data_line(trim(line)),
        AiBackend::Gemini => if trim(line).len() == 0 {
            LineView::Skip
        } else {
            json_line(trim_end_char(trim_start_char(trim_start_char(trim(line), ','), '['), ']'))
        },
        _ => json_line(trim(line)),
    }
}

fn data_line_exec(t: &[char]) -> (r: StreamLine)
    ensures
        r@ == data_line(t@),
{
    let pre = ['d', 'a', 't', 'a', ':', ' '];
    let done = ['[', 'D', 'O', 'N', 'E', ']'];
    proof {
        reveal_strlit("data: ");
        reveal_strlit("[DONE]");
        assert(pre@ =~= "data: "@);
        assert(done@ =~= "[DONE]"@);
    }
    if !match_at(t, 0, &pre) {
        return StreamLine::Skip;
    }
    let rest = sub_chars(t, 6, t.len());
    assert(rest@ =~= t@.skip(6));
    if chars_eq(rest.as_slice(), &done) {
        StreamLine::Done
    } else {
        StreamLine::Json(string_of(rest.as_slice()))
    }
}

fn json_line_exec(t: &[char]) -> (r: StreamLine)
    ensures
        r@ == json_line(t@),
{
    if t.len() == 0 {
        StreamLine::Skip
    } else {
        StreamLine::Json(string_of(t))
    }
}

/// What a line streamed by back end `b` holds.
pub fn stream_line(b: AiBackend, line: &str) -> (r: StreamLine)
    ensures
        r@ == stream_line_of(b, line@),
{
    let l = chars_of(line);
    match b {
        AiBackend::Anthropic => {
            let a = trim_end_char_exec(l.as_slice(), '\n');
            let t = trim_end_char_exec(a.as_slice(), '\r');
            data_line_exec(t.as_slice())
        },
        AiBackend::OpenAi => {
            let t = trim_chars(l.as_slice());
            data_line_exec(t.as_slice())
        },
        AiBackend::Gemini => {
            let t = trim_chars(l.as_slice());
            if t.len() == 0 {
                return StreamLine::Skip;
            }
            let a = trim_start_char_exec(t.as_slice(), ',');
            let c = trim_start_char_exec(a.as_slice(), '[');
            let d = trim_end_char_exec(c.as_slice(), ']');
            json_line_exec(d.as_slice())
        },
        _ => {
            let t = trim_chars(l.as_slice());
            json_line_exec(t.as_slice())
        },
    }
}

/// The members of a streamed JSON object that the relay reads; each is
/// `None` where the member is missing or not a string.
pub struct StreamFields {
    /// The `type` member.
    pub kind: Option<String>,
    /// The text the back end streams: `delta.text` (Anthropic),
    /// `candidates[0].content.parts[0].text` (Gemini), `message.content`
    /// (Ollama) or `choices[0].delta.content` (OpenAI).
    pub text: Option<String>,
    /// The `done` member (Ollama); false where it is not `true`.
    pub done: bool,
    /// The `type` and `text` of each block of `message.content` (the
    /// command-line client).
    pub blocks: Vec<(Option<String>, Option<String>)>,
}

pub open spec fn ostr(o: Option<String>) -> Option<Seq<char>> {
    match o {
        Some(s) => Some(s@),
        None => None,
    }
}

pub open spec fn block_views(v: Seq<(Option<String>, Option<String>)>) -> Seq<(Option<Seq<char>>, Option<Seq<char>>)> {
    v.map_values(|b: (Option<String>, Option<String>)| (ostr(b.0), ostr(b.1)))
}

/// The non-empty texts of the text blocks, in order.
pub open spec fn block_texts(bs: Seq<(Option<Seq<char>>, Option<Seq<char>>)>) -> Seq<Seq<char>>
    decreases bs.len(),
{
    if bs.len() == 0 {
        seq![]
    } else {
        let last = bs.last();
        let rest = block_texts(bs.drop_last());
        if last.0 == Some("text"@) && usable_key(last.1) {
            rest.push(last.1->0)
        } else {
            rest
        }
    }
}

/// The texts that an object streamed by back end `b` contributes to the
/// answer.
pub open spec fn tokens_of(b: AiBackend, kind: Option<Seq<char>>, text: Option<Seq<char>>, blocks: Seq<(Option<Seq<char>>, Option<Seq<char>>)>) -> Seq<Seq<char>> {
    match b {
        AiBackend::Anthropic => if kind == Some("content_block_delta"@) && usable_key(text) {
            seq![text->0]
        } else {
            seq![]
        },
        AiBackend::ClaudeCli => if kind == Some("assistant"@) {
            block_texts(blocks)
        } else {
            seq![]
        },
        _ => match text {
            Some(t) => seq![t],
            None => seq![],
        },
    }
}

/// Whether an object streamed by back end `b` ends the answer.
pub open spec fn stops_at(b: AiBackend, kind: Option<Seq<char>>, done: bool) -> bool {
    match b {
        AiBackend::Anthropic => kind == Some("message_stop"@),
        AiBackend::ClaudeCli => kind == Some("result"@),
        AiBackend::Ollama => done,
        _ => false,
    }
}

/// The lower-case hexadecimal digit for `n`, which is below 16.
pub open spec fn hex_digit(n: int) -> char {
    seq!['0', '1', '2', '3', '4', '5', '6', '7', '8', '9', 'a', 'b', 'c', 'd', 'e', 'f'][n]
}

/// How `serde_json` writes one character inside a string literal: the
/// quote and the backslash behind a backslash, the five control characters
/// that have a short escape by it, the other characters below U+0020 as
/// `\u00` and two hexadecimal digits, and every other character as it is.
pub open spec fn json_escape_char(c: char) -> Seq<char> {
    if c == '"' {
        seq!['\\', '"']
    } else if c == '\\' {
        seq!['\\', '\\']
    } else if c == '\u{8}' {
        seq!['\\', 'b']
    } else if c == '\t' {
        seq!['\\', 't']
    } else if c == '\n' {
        seq!['\\', 'n']
    } else if c == '\u{c}' {
        seq!['\\', 'f']
    } else if c == '\r' {
        seq!['\\', 'r']
    } else if (c as int) < 0x20 {
        seq!['\\', 'u', '0', '0', hex_digit((c as int) / 16), hex_digit((c as int) % 16)]
    } else {
        seq![c]
    }
}

/// The characters of `s`, each written as [`json_escape_char`] writes it.
pub open spec fn json_escaped(s: Seq<char>) -> Seq<char>
    decreases s.len(),
{
    if s.len() == 0 {
        seq![]
    } else {
        json_escaped(s.drop_last()) + json_escape_char(s.last())
    }
}

/// The JSON string literal for `s`: its escaped characters between quotes.
pub open spec fn json_quoted(s: Seq<char>) -> Seq<char> {
    seq!['"'] + json_escaped(s) + seq!['"']
}

/// Serialises a string with `serde_json::to_string`, which writes the
/// literal that [`json_quoted`] states (its escape table, `ESCAPE` in
/// `ser.rs`, and its `\u00XX` form with lower-case digits). Serialising a
/// `str` into memory cannot fail, so the empty fallback is never taken.
#[verifier::external_body]
fn json_string(s: &str) -> (r: String)
    ensures
        r@ == json_quoted(s@),
{
    serde_json::to_string(s).unwrap_or_default()
}

/// The event that hands a piece of the answer to the browser.
pub open spec fn token_frame_of(t: Seq<char>) -> Seq<char> {
    "event: token\ndata: {\"t\":"@ + json_quoted(t) + "}\n\n"@
}

/// The event that ends an answer.
pub open spec fn done_frame_text() -> Seq<char> {
    "event: done\ndata:\n\n"@
}

/// The events that report a failure and end the answer.
pub open spec fn error_frame_of(msg: Seq<char>) -> Seq<char> {
    "event: error\ndata: {\"error\":"@ + json_quoted(msg) + "}\n\n"@ + done_frame_text()
}

/// The event that hands the piece `t` of the answer to the browser.
pub fn token_frame(t: &str) -> (r: String)
    ensures
        r@ == token_frame_of(t@),
{
    let mut m: Vec<char> = Vec::new();
    push_str(&mut m, "event: token\ndata: {\"t\":");
    let q = json_string(t);
    push_str(&mut m, q.as_str());
    push_str(&mut m, "}\n\n");
    string_of(m.as_slice())
}

/// The event that ends an answer.
pub fn done_frame() -> (r: String)
    ensures
        r@ == done_frame_text(),
{
    "event: done\ndata:\n\n".to_string()
}

/// The events that report the failure `msg` and end the answer.
pub fn error_frame(msg: &str) -> (r: String)
    ensures
        r@ == error_frame_of(msg@),
{
    let mut m: Vec<char> = Vec::new();
    push_str(&mut m, "event: error\ndata: {\"error\":");
    let q = json_string(msg);
    push_str(&mut m, q.as_str());
    push_str(&mut m, "}\n\n");
    push_str(&mut m, "event: done\ndata:\n\n");
    string_of(m.as_slice())
}

/// What one streamed object leads to: the events to send, and whether the
/// answer is over.
pub struct StreamStep {
    pub frames: Vec<String>,
    pub stop: bool,
}

fn is_str(o: &Option<String>, w: &str) -> (b: bool)
    ensures
        b == (ostr(*o) == Some(w@)),
{
    match o {
        Some(s) => {
            let a = chars_of(s.as_str());
            let c = chars_of(w);
            chars_eq(a.as_slice(), c.as_slice())
        },
        None => false,
    }
}

/// Reads an object streamed by back end `b` (its members in `f`): the
/// token events for the texts it contributes, and whether it ends the answer.
pub fn stream_step(b: AiBackend, f: &StreamFields) -> (r: StreamStep)
    ensures
        strings(r.frames@) == tokens_of(b, ostr(f.kind), ostr(f.text), block_views(f.blocks@)).map_values(
            |t: Seq<char>| token_frame_of(t),
        ),
        r.stop == stops_at(b, ostr(f.kind), f.done),
{
    let ghost toks = tokens_of(b, ostr(f.kind), ostr(f.text), block_views(f.blocks@));
    let mut frames: Vec<String> = Vec::new();
    match b {
        AiBackend::Anthropic => {
            if is_str(&f.kind, "content_block_delta") {
                match &f.text {
                    Some(t) => {
                        if !t.as_str().is_empty() {
                            frames.push(token_frame(t.as_str()));
                        }
                    },
                    None => {},
                }
            }
            let stop = is_str(&f.kind, "message_stop");
            assert(strings(frames@) =~= toks.map_values(|t: Seq<char>| token_frame_of(t)));
            StreamStep { frames, stop }
        },
        AiBackend::ClaudeCli => {
            if is_str(&f.kind, "assistant") {
                let ghost bv = block_views(f.blocks@);
                let mut i: usize = 0;
                assert(bv.take(0) =~= Seq::<(Option<Seq<char>>, Option<Seq<char>>)>::empty());
                while i < f.blocks.len()
                    invariant
                        i <= f.blocks.len(),
                        bv == block_views(f.blocks@),
                        strings(frames@) == block_texts(bv.take(i as int)).map_values(|t: Seq<char>| token_frame_of(t)),
                    decreases f.blocks.len() - i,
                {
                    let ghost before = strings(frames@);
                    assert(bv.take(i + 1).drop_last() =~= bv.take(i as int));
                    assert(bv.take(i + 1).last() == (ostr(f.blocks@[i as int].0), ostr(f.blocks@[i as int].1)));
                    let blk = &f.blocks[i];
                    if is_str(&blk.0, "text") {
                        match &blk.1 {
                            Some(t) => {
                                if !t.as_str().is_empty() {
                                    frames.push(token_frame(t.as_str()));
                                    assert(strings(frames@) =~= before.push(token_frame_of(t@)));
                                    assert(block_texts(bv.take(i + 1)) == block_texts(bv.take(i as int)).push(t@));
                                    assert(block_texts(bv.take(i + 1)).map_values(|t: Seq<char>| token_frame_of(t))
                                        =~= block_texts(bv.take(i as int)).map_values(|t: Seq<char>| token_frame_of(t)).push(token_frame_of(t@)));
                                }
                            },
                            None => {},
                        }
                    }
                    i = i + 1;
                }
                assert(bv.take(f.blocks.len() as int) =~= bv);
            } else {
                assert(strings(frames@) =~= toks.map_values(|t: Seq<char>| token_frame_of(t)));
            }
            let stop = is_str(&f.kind, "result");
            StreamStep { frames, stop }
        },
        _ => {
            match &f.text {
                Some(t) => {
                    frames.push(token_frame(t.as_str()));
                },
                None => {},
            }
            assert(strings(frames@) =~= toks.map_values(|t: Seq<char>| token_frame_of(t)));
            let stop = match b {
                AiBackend::Ollama => f.done,
                _ => false,
            };
            StreamStep { frames, stop }
        },
    }
}

} // verus!
