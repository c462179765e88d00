//! The MCP server's dispatch: how a JSON-RPC request read from standard
//! input is answered, and the table of tools the server offers.
use vstd::prelude::*;
use crate::text::{chars_eq, chars_of};

verus! {

// ── the tools ────────────────────────────────────────────────────────────

/// The tools of the server.
#[derive(PartialEq, Eq, Structural, Clone, Copy, Debug)]
pub enum McpTool {
    /// `weaveback_trace`.
    Trace,
    /// `weaveback_apply_back`.
    ApplyBack,
    /// `weaveback_apply_fix`.
    ApplyFix,
    /// `weaveback_chunk_context`.
    ChunkContext,
    /// `weaveback_list_chunks`.
    ListChunks,
    /// `weaveback_find_chunk`.
    FindChunk,
    /// `weaveback_lsp_definition`.
    LspDefinition,
    /// `weaveback_lsp_references`.
    LspReferences,
    /// `weaveback_lsp_hover`.
    LspHover,
    /// `weaveback_lsp_diagnostics`.
    LspDiagnostics,
    /// `weaveback_lsp_symbols`.
    LspSymbols,
    /// `weaveback_search`.
    Search,
    /// `weaveback_list_tags`.
    ListTags,
}

/// The tool a `tools/call` request names.
pub open spec fn tool_named(n: Seq<char>) -> Option<McpTool> {
    if n == "weaveback_trace"@ {
        Some(McpTool::Trace)
    } else if n == "weaveback_apply_back"@ {
        Some(McpTool::ApplyBack)
    } else if n == "weaveback_apply_fix"@ {
        Some(McpTool::ApplyFix)
    } else if n == "weaveback_chunk_context"@ {
        Some(McpTool::ChunkContext)
    } else if n == "weaveback_list_chunks"@ {
        Some(McpTool::ListChunks)
    } else if n == "weaveback_find_chunk"@ {
        Some(McpTool::FindChunk)
    } else if n == "weaveback_lsp_definition"@ {
        Some(McpTool::LspDefinition)
    } else if n == "weaveback_lsp_references"@ {
        Some(McpTool::LspReferences)
    } else if n == "weaveback_lsp_hover"@ {
        Some(McpTool::LspHover)
    } else if n == "weaveback_lsp_diagnostics"@ {
        Some(McpTool::LspDiagnostics)
    } else if n == "weaveback_lsp_symbols"@ {
        Some(McpTool::LspSymbols)
    } else if n == "weaveback_search"@ {
        Some(McpTool::Search)
    } else if n == "weaveback_list_tags"@ {
        Some(McpTool::ListTags)
    } else {
        None
    }
}

/// Whether a tool refuses a call without arguments.
pub open spec fn needs_arguments(t: McpTool) -> bool {
    !(t == McpTool::ApplyBack || t == McpTool::ListChunks || t == McpTool::Search || t == McpTool::ListTags)
}

fn is_word(c: &[char], w: &str) -> (b: bool)
    ensures
        b == (c@ == w@),
{
    let v = chars_of(w);
    chars_eq(c, v.as_slice())
}

/// The tool named `name`, if the server has one of that name.
pub fn tool_by_name(name: &str) -> (r: Option<McpTool>)
    ensures
        r == tool_named(name@),
{
    let c = chars_of(name);
    if is_word(c.as_slice(), "weaveback_trace") {
        Some(McpTool::Trace)
    } else if is_word(c.as_slice(), "weaveback_apply_back") {
        Some(McpTool::ApplyBack)
    } else if is_word(c.as_slice(), "weaveback_apply_fix") {
        Some(McpTool::ApplyFix)
    } else if is_word(c.as_slice(), "weaveback_chunk_context") {
        Some(McpTool::ChunkContext)
    } else if is_word(c.as_slice(), "weaveback_list_chunks") {
        Some(McpTool::ListChunks)
    } else if is_word(c.as_slice(), "weaveback_find_chunk") {
        Some(McpTool::FindChunk)
    } else if is_word(c.as_slice(), "weaveback_lsp_definition") {
        Some(McpTool::LspDefinition)
    } else if is_word(c.as_slice(), "weaveback_lsp_references") {
        Some(McpTool::LspReferences)
    } else if is_word(c.as_slice(), "weaveback_lsp_hover") {
        Some(McpTool::LspHover)
    } else if is_word(c.as_slice(), "weaveback_lsp_diagnostics") {
        Some(McpTool::LspDiagnostics)
    } else if is_word(c.as_slice(), "weaveback_lsp_symbols") {
        Some(McpTool::LspSymbols)
    } else if is_word(c.as_slice(), "weaveback_search") {
        Some(McpTool::Search)
    } else if is_word(c.as_slice(), "weaveback_list_tags") {
        Some(McpTool::ListTags)
    } else {
        None
    }
}

// ── answering a request ──────────────────────────────────────────────────

/// What the server does with a request.
#[derive(PartialEq, Eq, Structural, Clone, Copy, Debug)]
pub enum McpAction {
    /// Reply with the server's protocol version, capabilities and name.
    Initialize,
    /// Reply with the table of tools.
    ListTools,
    /// Run the tool.
    Call(McpTool),
    /// Reply with the error "Missing arguments".
    MissingArguments,
    /// Reply with the error "Unknown tool: ..." naming what was asked for.
    UnknownTool,
    /// Send nothing: a notification or a method the server does not have.
    Ignore,
}

/// The action for a request with `method`, the tool it names (for
/// `tools/call`), and whether it carries an object of arguments.
pub open spec fn mcp_action_of(method: Seq<char>, tool: Option<Seq<char>>, has_args: bool) -> McpAction {
    if method == "initialize"@ {
        McpAction::Initialize
    } else if method == "tools/list"@ {
        McpAction::ListTools
    } else if method == "tools/call"@ {
        match tool {
            None => McpAction::UnknownTool,
            Some(n) => match tool_named(n) {
                None => McpAction::UnknownTool,
                Some(t) => if needs_arguments(t) && !has_args {
                    McpAction::MissingArguments
                } else {
                    McpAction::Call(t)
                },
            },
        }
    } else {
        McpAction::Ignore
    }
}

pub open spec fn opt_str(o: Option<&str>) -> Option<Seq<char>> {
    match o {
        Some(s) => Some(s@),
        None => None,
    }
}

/// Decides what the server does with a request: `method` its method (empty
/// when it has none), `tool` the tool a `tools/call` names, `has_args`
/// whether it carries an object of arguments. Unparsable lines never reach
/// here: they get no answer.
pub fn mcp_action(method: &str, tool: Option<&str>, has_args: bool) -> (r: McpAction)
    ensures
        r == mcp_action_of(method@, opt_str(tool), has_args),
{
    let m = chars_of(method);
    if is_word(m.as_slice(), "initialize") {
        McpAction::Initialize
    } else if is_word(m.as_slice(), "tools/list") {
        McpAction::ListTools
    } else if is_word(m.as_slice(), "tools/call") {
        match tool {
            None => McpAction::UnknownTool,
            Some(n) => match tool_by_name(n) {
                None => McpAction::UnknownTool,
                Some(t) => {
                    let needs = !(t == McpTool::ApplyBack || t == McpTool::ListChunks || t == McpTool::Search
                        || t == McpTool::ListTags);
                    if needs && !has_args {
                        McpAction::MissingArguments
                    } else {
                        McpAction::Call(t)
                    }
                },
            },
        }
    } else {
        McpAction::Ignore
    }
}

// ── checks of a tool's arguments ─────────────────────────────────────────

/// The refusal of the line range of a `weaveback_apply_fix` call: lines
/// count from 1, and the last line of the range (the first when not given)
/// is not before the first.
pub open spec fn apply_fix_range_error_of(src_line: usize, src_line_end: Option<usize>) -> Option<Seq<char>> {
    let end = match src_line_end {
        Some(e) => e,
        None => src_line,
    };
    if src_line == 0 {
        Some("src_line must be >= 1"@)
    } else if end < src_line {
        Some("src_line_end must be >= src_line"@)
    } else {
        None
    }
}

/// Checks the line range of a `weaveback_apply_fix` call before any edit
/// is planned.
pub fn apply_fix_range_error(src_line: usize, src_line_end: Option<usize>) -> (r: Option<String>)
    ensures
        match r {
            Some(m) => apply_fix_range_error_of(src_line, src_line_end) == Some(m@),
            None => apply_fix_range_error_of(src_line, src_line_end) is None,
        },
{
    let end = match src_line_end {
        Some(e) => e,
        None => src_line,
    };
    if src_line == 0 {
        Some("src_line must be >= 1".to_string())
    } else if end < src_line {
        Some("src_line_end must be >= src_line".to_string())
    } else {
        None
    }
}

// ── the tool table ───────────────────────────────────────────────────────

/// One argument of a tool: its name, JSON type, the type of its items (for
/// arrays) and what it means.
pub struct ToolProperty {
    pub name: String,
    pub kind: String,
    pub items: Option<String>,
    pub description: String,
}

/// A tool as the table lists it: name, description, arguments, and the
/// names of the required ones (`None` where the schema lists none at all).
pub struct ToolSpec {
    pub name: String,
    pub description: String,
    pub properties: Vec<ToolProperty>,
    pub required: Option<Vec<String>>,
}

pub struct PropView {
    pub name: Seq<char>,
    pub kind: Seq<char>,
    pub items: Option<Seq<char>>,
    pub description: Seq<char>,
}

pub struct ToolView {
    pub name: Seq<char>,
    pub description: Seq<char>,
    pub properties: Seq<PropView>,
    pub required: Option<Seq<Seq<char>>>,
}

pub open spec fn ostring(o: Option<String>) -> Option<Seq<char>> {
    match o {
        Some(s) => Some(s@),
        None => None,
    }
}

impl View for ToolProperty {
    type V = PropView;

    open spec fn view(&self) -> PropView {
        PropView { name: self.name@, kind: self.kind@, items: ostring(self.items), description: self.description@ }
    }
}

pub open spec fn prop_views(v: Seq<ToolProperty>) -> Seq<PropView> {
    v.map_values(|p: ToolProperty| p@)
}

pub open spec fn names_view(v: Seq<String>) -> Seq<Seq<char>> {
    v.map_values(|s: String| s@)
}

impl View for ToolSpec {
    type V = ToolView;

    open spec fn view(&self) -> ToolView {
        ToolView {
            name: self.name@,
            description: self.description@,
            properties: prop_views(self.properties@),
            required: match self.required {
                Some(r) => Some(names_view(r@)),
                None => None,
            },
        }
    }
}

pub open spec fn tool_views(v: Seq<ToolSpec>) -> Seq<ToolView> {
    v.map_values(|t: ToolSpec| t@)
}

fn prop(name: &str, kind: &str, items: Option<&str>, description: &str) -> (p: ToolProperty)
    ensures
        p@ == (PropView { name: name@, kind: kind@, items: opt_str(items), description: description@ }),
{
    ToolProperty {
        name: name.to_string(),
        kind: kind.to_string(),
        items: match items {
            Some(i) => Some(i.to_string()),
            None => None,
        },
        description: description.to_string(),
    }
}

fn names(v: &[&str]) -> (r: Vec<String>)
    ensures
        names_view(r@) == v@.map_values(|s: &str| s@),
{
    let mut r: Vec<String> = Vec::new();
    let mut i: usize = 0;
    while i < v.len()
        invariant
            i <= v.len(),
            names_view(r@) == v@.take(i as int).map_values(|s: &str| s@),
        decreases v.len() - i,
    {
        let ghost before = names_view(r@);
        r.push(v[i].to_string());
        assert(names_view(r@) =~= before.push(v@[i as int]@));
        assert(v@.take(i + 1).map_values(|s: &str| s@) =~= v@.take(i as int).map_values(|s: &str| s@).push(v@[i as int]@));
        i = i + 1;
    }
    assert(v@.take(v.len() as int) =~= v@);
    r
}

/// The entry of `weaveback_trace` in the tool table.
pub open spec fn trace_tool() -> ToolView {
    ToolView {
        name: "weaveback_trace"@,
        description: "Trace an output file line back to its original literate source. Returns src_file/src_line/src_col/kind. MacroArg spans include macro_name/param_name. MacroBody spans include macro_name and a def_locations array (all %def call sites). VarBinding spans include var_name and a set_locations array (all %set call sites). Use --col for sub-line token precision."@,
        properties: seq![
            PropView { name: "out_file"@, kind: "string"@, items: None, description: "Path to the generated file"@ },
            PropView { name: "out_line"@, kind: "integer"@, items: None, description: "1-indexed line number in the generated file"@ },
            PropView { name: "out_col"@, kind: "integer"@, items: None, description: "1-indexed character position within the output line (default 1). Use to pinpoint a specific token."@ },
        ],
        required: Some(seq!["out_file"@, "out_line"@]),
    }
}

fn make_trace_tool() -> (t: ToolSpec)
    ensures
        t@ == trace_tool(),
{
    let mut properties: Vec<ToolProperty> = Vec::new();
    properties.push(prop("out_file", "string", None, "Path to the generated file"));
    properties.push(prop("out_line", "integer", None, "1-indexed line number in the generated file"));
    properties.push(prop("out_col", "integer", None, "1-indexed character position within the output line (default 1). Use to pinpoint a specific token."));
    let req: [&str; 2] = ["out_file", "out_line"];
    let required = Some(names(&req));
    assert(req@.map_values(|s: &str| s@) =~= seq!["out_file"@, "out_line"@]);
    let t = ToolSpec { name: "weaveback_trace".to_string(), description: "Trace an output file line back to its original literate source. Returns src_file/src_line/src_col/kind. MacroArg spans include macro_name/param_name. MacroBody spans include macro_name and a def_locations array (all %def call sites). VarBinding spans include var_name and a set_locations array (all %set call sites). Use --col for sub-line token precision.".to_string(), properties, required };
    assert(t@.properties =~= trace_tool().properties);
    t
}

/// The entry of `weaveback_apply_back` in the tool table.
pub open spec fn apply_back_tool() -> ToolView {
    ToolView {
        name: "weaveback_apply_back"@,
        description: "Bulk baseline-reconciliation tool: propagate edits already made directly in gen/ files back to the literate source. Use this only when gen/ files have been edited by hand and you need to reconcile the baseline. For intentional fixes where you know what the source should look like, prefer weaveback_apply_fix (oracle-verified, surgical, no full rebuild needed). weaveback_apply_back diffs each modified gen/ file against its stored baseline, traces each changed line to its noweb+macro origin, and patches the literate source. Returns a report of what was patched, skipped, or needs manual attention."@,
        properties: seq![
            PropView { name: "files"@, kind: "array"@, items: Some("string"@), description: "Relative paths within gen/ to process (default: all modified files)"@ },
            PropView { name: "dry_run"@, kind: "boolean"@, items: None, description: "Show what would change without writing (default: false)"@ },
        ],
        required: Some(seq![]),
    }
}

fn make_apply_back_tool() -> (t: ToolSpec)
    ensures
        t@ == apply_back_tool(),
{
    let mut properties: Vec<ToolProperty> = Vec::new();
    properties.push(prop("files", "array", Some("string"), "Relative paths within gen/ to process (default: all modified files)"));
    properties.push(prop("dry_run", "boolean", None, "Show what would change without writing (default: false)"));
    let req: [&str; 0] = [];
    let required = Some(names(&req));
    assert(req@.map_values(|s: &str| s@) =~= seq![]);
    let t = ToolSpec { name: "weaveback_apply_back".to_string(), description: "Bulk baseline-reconciliation tool: propagate edits already made directly in gen/ files back to the literate source. Use this only when gen/ files have been edited by hand and you need to reconcile the baseline. For intentional fixes where you know what the source should look like, prefer weaveback_apply_fix (oracle-verified, surgical, no full rebuild needed). weaveback_apply_back diffs each modified gen/ file against its stored baseline, traces each changed line to its noweb+macro origin, and patches the literate source. Returns a report of what was patched, skipped, or needs manual attention.".to_string(), properties, required };
    assert(t@.properties =~= apply_back_tool().properties);
    t
}

/// The entry of `weaveback_apply_fix` in the tool table.
pub open spec fn apply_fix_tool() -> ToolView {
    ToolView {
        name: "weaveback_apply_fix"@,
        description: "**Preferred tool for all literate-source edits.** Apply a source edit (single line or multi-line range) and oracle-verify it produces the expected output before writing. Workflow: (1) use weaveback_trace to find src_file/src_line, (2) read the source, (3) call this tool with the replacement and the expected output line. The macro expander re-runs as an oracle — the file is written only if the expected output is produced, making the edit safe to apply without a full rebuild. Use apply_back only when you have already edited gen/ files directly and need to reconcile the baseline."@,
        properties: seq![
            PropView { name: "src_file"@, kind: "string"@, items: None, description: "Absolute path of the literate source file to edit"@ },
            PropView { name: "src_line"@, kind: "integer"@, items: None, description: "1-indexed first line to replace in src_file"@ },
            PropView { name: "src_line_end"@, kind: "integer"@, items: None, description: "1-indexed last line of the replacement range (inclusive, defaults to src_line for single-line edits)"@ },
            PropView { name: "new_src_line"@, kind: "string"@, items: None, description: "Replacement text when replacing a single line (without trailing newline)"@ },
            PropView { name: "new_src_lines"@, kind: "array"@, items: Some("string"@), description: "Replacement lines for multi-line edits (each element is one line without trailing newline); overrides new_src_line when present"@ },
            PropView { name: "out_file"@, kind: "string"@, items: None, description: "Generated file path (used for oracle lookup)"@ },
            PropView { name: "out_line"@, kind: "integer"@, items: None, description: "1-indexed line in the generated file (oracle check point)"@ },
            PropView { name: "expected_output"@, kind: "string"@, items: None, description: "The exact content of out_line expected after the fix (indent-stripped); oracle rejects the edit if this does not match"@ },
        ],
        required: Some(seq!["src_file"@, "src_line"@, "out_file"@, "out_line"@, "expected_output"@]),
    }
}

fn make_apply_fix_tool() -> (t: ToolSpec)
    ensures
        t@ == apply_fix_tool(),
{
    let mut properties: Vec<ToolProperty> = Vec::new();
    properties.push(prop("src_file", "string", None, "Absolute path of the literate source file to edit"));
    properties.push(prop("src_line", "integer", None, "1-indexed first line to replace in src_file"));
    properties.push(prop("src_line_end", "integer", None, "1-indexed last line of the replacement range (inclusive, defaults to src_line for single-line edits)"));
    properties.push(prop("new_src_line", "string", None, "Replacement text when replacing a single line (without trailing newline)"));
    properties.push(prop("new_src_lines", "array", Some("string"), "Replacement lines for multi-line edits (each element is one line without trailing newline); overrides new_src_line when present"));
    properties.push(prop("out_file", "string", None, "Generated file path (used for oracle lookup)"));
    properties.push(prop("out_line", "integer", None, "1-indexed line in the generated file (oracle check point)"));
    properties.push(prop("expected_output", "string", None, "The exact content of out_line expected after the fix (indent-stripped); oracle rejects the edit if this does not match"));
    let req: [&str; 5] = ["src_file", "src_line", "out_file", "out_line", "expected_output"];
    let required = Some(names(&req));
    assert(req@.map_values(|s: &str| s@) =~= seq!["src_file"@, "src_line"@, "out_file"@, "out_line"@, "expected_output"@]);
    let t = ToolSpec { name: "weaveback_apply_fix".to_string(), description: "**Preferred tool for all literate-source edits.** Apply a source edit (single line or multi-line range) and oracle-verify it produces the expected output before writing. Workflow: (1) use weaveback_trace to find src_file/src_line, (2) read the source, (3) call this tool with the replacement and the expected output line. The macro expander re-runs as an oracle — the file is written only if the expected output is produced, making the edit safe to apply without a full rebuild. Use apply_back only when you have already edited gen/ files directly and need to reconcile the baseline.".to_string(), properties, required };
    assert(t@.properties =~= apply_fix_tool().properties);
    t
}

/// The entry of `weaveback_chunk_context` in the tool table.
pub open spec fn chunk_context_tool() -> ToolView {
    ToolView {
        name: "weaveback_chunk_context"@,
        description: "Return full context for a named noweb chunk: its body, the AsciiDoc section title breadcrumb, the full prose of the enclosing section (paragraphs, admonitions, design notes), bodies of all direct dependencies, reverse-dep names, output files, and recent git log entries. Use this before editing or reasoning about a chunk."@,
        properties: seq![
            PropView { name: "file"@, kind: "string"@, items: None, description: "Source file path (relative to project root), e.g. 'crates/weaveback/src/serve.adoc'"@ },
            PropView { name: "name"@, kind: "string"@, items: None, description: "Chunk name as it appears in the <<name>>= marker"@ },
            PropView { name: "nth"@, kind: "integer"@, items: None, description: "0-based index for chunks defined multiple times (default 0)"@ },
        ],
        required: Some(seq!["file"@, "name"@]),
    }
}

fn make_chunk_context_tool() -> (t: ToolSpec)
    ensures
        t@ == chunk_context_tool(),
{
    let mut properties: Vec<ToolProperty> = Vec::new();
    properties.push(prop("file", "string", None, "Source file path (relative to project root), e.g. 'crates/weaveback/src/serve.adoc'"));
    properties.push(prop("name", "string", None, "Chunk name as it appears in the <<name>>= marker"));
    properties.push(prop("nth", "integer", None, "0-based index for chunks defined multiple times (default 0)"));
    let req: [&str; 2] = ["file", "name"];
    let required = Some(names(&req));
    assert(req@.map_values(|s: &str| s@) =~= seq!["file"@, "name"@]);
    let t = ToolSpec { name: "weaveback_chunk_context".to_string(), description: "Return full context for a named noweb chunk: its body, the AsciiDoc section title breadcrumb, the full prose of the enclosing section (paragraphs, admonitions, design notes), bodies of all direct dependencies, reverse-dep names, output files, and recent git log entries. Use this before editing or reasoning about a chunk.".to_string(), properties, required };
    assert(t@.properties =~= chunk_context_tool().properties);
    t
}

/// The entry of `weaveback_list_chunks` in the tool table.
pub open spec fn list_chunks_tool() -> ToolView {
    ToolView {
        name: "weaveback_list_chunks"@,
        description: "List all chunk definitions in the project, optionally filtered to a single source file. Returns an array of { file, name, nth, def_start, def_end } objects."@,
        properties: seq![
            PropView { name: "file"@, kind: "string"@, items: None, description: "Source file to filter to (optional; omit for all files)"@ },
        ],
        required: Some(seq![]),
    }
}

fn make_list_chunks_tool() -> (t: ToolSpec)
    ensures
        t@ == list_chunks_tool(),
{
    let mut properties: Vec<ToolProperty> = Vec::new();
    properties.push(prop("file", "string", None, "Source file to filter to (optional; omit for all files)"));
    let req: [&str; 0] = [];
    let required = Some(names(&req));
    assert(req@.map_values(|s: &str| s@) =~= seq![]);
    let t = ToolSpec { name: "weaveback_list_chunks".to_string(), description: "List all chunk definitions in the project, optionally filtered to a single source file. Returns an array of { file, name, nth, def_start, def_end } objects.".to_string(), properties, required };
    assert(t@.properties =~= list_chunks_tool().properties);
    t
}

/// The entry of `weaveback_find_chunk` in the tool table.
pub open spec fn find_chunk_tool() -> ToolView {
    ToolView {
        name: "weaveback_find_chunk"@,
        description: "Find which source file(s) define a given chunk name. Returns an array of { file, nth, def_start, def_end } objects."@,
        properties: seq![
            PropView { name: "name"@, kind: "string"@, items: None, description: "Chunk name to look up"@ },
        ],
        required: Some(seq!["name"@]),
    }
}

fn make_find_chunk_tool() -> (t: ToolSpec)
    ensures
        t@ == find_chunk_tool(),
{
    let mut properties: Vec<ToolProperty> = Vec::new();
    properties.push(prop("name", "string", None, "Chunk name to look up"));
    let req: [&str; 1] = ["name"];
    let required = Some(names(&req));
    assert(req@.map_values(|s: &str| s@) =~= seq!["name"@]);
    let t = ToolSpec { name: "weaveback_find_chunk".to_string(), description: "Find which source file(s) define a given chunk name. Returns an array of { file, nth, def_start, def_end } objects.".to_string(), properties, required };
    assert(t@.properties =~= find_chunk_tool().properties);
    t
}

/// The entry of `weaveback_lsp_definition` in the tool table.
pub open spec fn lsp_definition_tool() -> ToolView {
    ToolView {
        name: "weaveback_lsp_definition"@,
        description: "Find the definition of a symbol at a given position in a generated file, and map it back to its original literate source. Requires rust-analyzer."@,
        properties: seq![
            PropView { name: "out_file"@, kind: "string"@, items: None, description: "Path to the generated file"@ },
            PropView { name: "line"@, kind: "integer"@, items: None, description: "1-indexed line number"@ },
            PropView { name: "col"@, kind: "integer"@, items: None, description: "1-indexed character position"@ },
        ],
        required: Some(seq!["out_file"@, "line"@, "col"@]),
    }
}

fn make_lsp_definition_tool() -> (t: ToolSpec)
    ensures
        t@ == lsp_definition_tool(),
{
    let mut properties: Vec<ToolProperty> = Vec::new();
    properties.push(prop("out_file", "string", None, "Path to the generated file"));
    properties.push(prop("line", "integer", None, "1-indexed line number"));
    properties.push(prop("col", "integer", None, "1-indexed character position"));
    let req: [&str; 3] = ["out_file", "line", "col"];
    let required = Some(names(&req));
    assert(req@.map_values(|s: &str| s@) =~= seq!["out_file"@, "line"@, "col"@]);
    let t = ToolSpec { name: "weaveback_lsp_definition".to_string(), description: "Find the definition of a symbol at a given position in a generated file, and map it back to its original literate source. Requires rust-analyzer.".to_string(), properties, required };
    assert(t@.properties =~= lsp_definition_tool().properties);
    t
}

/// The entry of `weaveback_lsp_references` in the tool table.
pub open spec fn lsp_references_tool() -> ToolView {
    ToolView {
        name: "weaveback_lsp_references"@,
        description: "Find all references to a symbol at a given position in a generated file, and map them back to their original literate sources. Requires rust-analyzer."@,
        properties: seq![
            PropView { name: "out_file"@, kind: "string"@, items: None, description: "Path to the generated file"@ },
            PropView { name: "line"@, kind: "integer"@, items: None, description: "1-indexed line number"@ },
            PropView { name: "col"@, kind: "integer"@, items: None, description: "1-indexed character position"@ },
        ],
        required: Some(seq!["out_file"@, "line"@, "col"@]),
    }
}

fn make_lsp_references_tool() -> (t: ToolSpec)
    ensures
        t@ == lsp_references_tool(),
{
    let mut properties: Vec<ToolProperty> = Vec::new();
    properties.push(prop("out_file", "string", None, "Path to the generated file"));
    properties.push(prop("line", "integer", None, "1-indexed line number"));
    properties.push(prop("col", "integer", None, "1-indexed character position"));
    let req: [&str; 3] = ["out_file", "line", "col"];
    let required = Some(names(&req));
    assert(req@.map_values(|s: &str| s@) =~= seq!["out_file"@, "line"@, "col"@]);
    let t = ToolSpec { name: "weaveback_lsp_references".to_string(), description: "Find all references to a symbol at a given position in a generated file, and map them back to their original literate sources. Requires rust-analyzer.".to_string(), properties, required };
    assert(t@.properties =~= lsp_references_tool().properties);
    t
}

/// The entry of `weaveback_lsp_hover` in the tool table.
pub open spec fn lsp_hover_tool() -> ToolView {
    ToolView {
        name: "weaveback_lsp_hover"@,
        description: "Get type information and documentation for a symbol at a given position in a generated file, mapped back to literate source. Requires rust-analyzer."@,
        properties: seq![
            PropView { name: "out_file"@, kind: "string"@, items: None, description: "Path to the generated file"@ },
            PropView { name: "line"@, kind: "integer"@, items: None, description: "1-indexed line number"@ },
            PropView { name: "col"@, kind: "integer"@, items: None, description: "1-indexed character position"@ },
        ],
        required: Some(seq!["out_file"@, "line"@, "col"@]),
    }
}

fn make_lsp_hover_tool() -> (t: ToolSpec)
    ensures
        t@ == lsp_hover_tool(),
{
    let mut properties: Vec<ToolProperty> = Vec::new();
    properties.push(prop("out_file", "string", None, "Path to the generated file"));
    properties.push(prop("line", "integer", None, "1-indexed line number"));
    properties.push(prop("col", "integer", None, "1-indexed character position"));
    let req: [&str; 3] = ["out_file", "line", "col"];
    let required = Some(names(&req));
    assert(req@.map_values(|s: &str| s@) =~= seq!["out_file"@, "line"@, "col"@]);
    let t = ToolSpec { name: "weaveback_lsp_hover".to_string(), description: "Get type information and documentation for a symbol at a given position in a generated file, mapped back to literate source. Requires rust-analyzer.".to_string(), properties, required };
    assert(t@.properties =~= lsp_hover_tool().properties);
    t
}

/// The entry of `weaveback_lsp_diagnostics` in the tool table.
pub open spec fn lsp_diagnostics_tool() -> ToolView {
    ToolView {
        name: "weaveback_lsp_diagnostics"@,
        description: "Get current compiler errors/warnings for a generated file, mapped back to original literate source lines."@,
        properties: seq![
            PropView { name: "out_file"@, kind: "string"@, items: None, description: "Path to the generated file"@ },
        ],
        required: Some(seq!["out_file"@]),
    }
}

fn make_lsp_diagnostics_tool() -> (t: ToolSpec)
    ensures
        t@ == lsp_diagnostics_tool(),
{
    let mut properties: Vec<ToolProperty> = Vec::new();
    properties.push(prop("out_file", "string", None, "Path to the generated file"));
    let req: [&str; 1] = ["out_file"];
    let required = Some(names(&req));
    assert(req@.map_values(|s: &str| s@) =~= seq!["out_file"@]);
    let t = ToolSpec { name: "weaveback_lsp_diagnostics".to_string(), description: "Get current compiler errors/warnings for a generated file, mapped back to original literate source lines.".to_string(), properties, required };
    assert(t@.properties =~= lsp_diagnostics_tool().properties);
    t
}

/// The entry of `weaveback_lsp_symbols` in the tool table.
pub open spec fn lsp_symbols_tool() -> ToolView {
    ToolView {
        name: "weaveback_lsp_symbols"@,
        description: "List all semantic symbols (functions, structs, etc.) in a generated file, with their original literate source locations."@,
        properties: seq![
            PropView { name: "out_file"@, kind: "string"@, items: None, description: "Path to the generated file"@ },
        ],
        required: Some(seq!["out_file"@]),
    }
}

fn make_lsp_symbols_tool() -> (t: ToolSpec)
    ensures
        t@ == lsp_symbols_tool(),
{
    let mut properties: Vec<ToolProperty> = Vec::new();
    properties.push(prop("out_file", "string", None, "Path to the generated file"));
    let req: [&str; 1] = ["out_file"];
    let required = Some(names(&req));
    assert(req@.map_values(|s: &str| s@) =~= seq!["out_file"@]);
    let t = ToolSpec { name: "weaveback_lsp_symbols".to_string(), description: "List all semantic symbols (functions, structs, etc.) in a generated file, with their original literate source locations.".to_string(), properties, required };
    assert(t@.properties =~= lsp_symbols_tool().properties);
    t
}

/// The entry of `weaveback_search` in the tool table.
pub open spec fn search_tool() -> ToolView {
    ToolView {
        name: "weaveback_search"@,
        description: "Hybrid search over the prose in all literate source files. FTS5 and tags are always used; if prose embeddings were generated during tangle, semantic reranking is also applied. Returns ranked excerpts with file path, line range, tags, score, and contributing channels. Use this to discover which chunks or sections are relevant to a concept before calling weaveback_chunk_context. Supports FTS5 query syntax: AND, OR, NOT, phrase \"...\", prefix foo*."@,
        properties: seq![
            PropView { name: "query"@, kind: "string"@, items: None, description: "Search terms (FTS5 syntax)"@ },
            PropView { name: "limit"@, kind: "integer"@, items: None, description: "Maximum results to return (default 10)"@ },
        ],
        required: Some(seq!["query"@]),
    }
}

fn make_search_tool() -> (t: ToolSpec)
    ensures
        t@ == search_tool(),
{
    let mut properties: Vec<ToolProperty> = Vec::new();
    properties.push(prop("query", "string", None, "Search terms (FTS5 syntax)"));
    properties.push(prop("limit", "integer", None, "Maximum results to return (default 10)"));
    let req: [&str; 1] = ["query"];
    let required = Some(names(&req));
    assert(req@.map_values(|s: &str| s@) =~= seq!["query"@]);
    let t = ToolSpec { name: "weaveback_search".to_string(), description: "Hybrid search over the prose in all literate source files. FTS5 and tags are always used; if prose embeddings were generated during tangle, semantic reranking is also applied. Returns ranked excerpts with file path, line range, tags, score, and contributing channels. Use this to discover which chunks or sections are relevant to a concept before calling weaveback_chunk_context. Supports FTS5 query syntax: AND, OR, NOT, phrase \"...\", prefix foo*.".to_string(), properties, required };
    assert(t@.properties =~= search_tool().properties);
    t
}

/// The entry of `weaveback_list_tags` in the tool table.
pub open spec fn list_tags_tool() -> ToolView {
    ToolView {
        name: "weaveback_list_tags"@,
        description: "List all LLM-generated tags for prose blocks in the project. Returns each block's source file, line, block type, and comma-separated tags. Optionally filter to a single source file. Use this to explore the semantic landscape of the project or to find all blocks tagged with a given concept."@,
        properties: seq![
            PropView { name: "file"@, kind: "string"@, items: None, description: "Optional: filter to this source file (plain relative path, e.g. crates/weaveback-tangle/src/db.adoc)"@ },
        ],
        required: None,
    }
}

fn make_list_tags_tool() -> (t: ToolSpec)
    ensures
        t@ == list_tags_tool(),
{
    let mut properties: Vec<ToolProperty> = Vec::new();
    properties.push(prop("file", "string", None, "Optional: filter to this source file (plain relative path, e.g. crates/weaveback-tangle/src/db.adoc)"));
    let required: Option<Vec<String>> = None;
    let t = ToolSpec { name: "weaveback_list_tags".to_string(), description: "List all LLM-generated tags for prose blocks in the project. Returns each block's source file, line, block type, and comma-separated tags. Optionally filter to a single source file. Use this to explore the semantic landscape of the project or to find all blocks tagged with a given concept.".to_string(), properties, required };
    assert(t@.properties =~= list_tags_tool().properties);
    t
}

/// The table of tools, in the order `tools/list` gives them.
pub open spec fn tool_table() -> Seq<ToolView> {
    seq![
        trace_tool(),
        apply_back_tool(),
        apply_fix_tool(),
        chunk_context_tool(),
        list_chunks_tool(),
        find_chunk_tool(),
        lsp_definition_tool(),
        lsp_references_tool(),
        lsp_hover_tool(),
        lsp_diagnostics_tool(),
        lsp_symbols_tool(),
        search_tool(),
        list_tags_tool(),
    ]
}

/// The table of tools that `tools/list` answers with.
pub fn tool_specs() -> (r: Vec<ToolSpec>)
    ensures
        tool_views(r@) == tool_table(),
{
    let mut r: Vec<ToolSpec> = Vec::new();
    r.push(make_trace_tool());
    r.push(make_apply_back_tool());
    r.push(make_apply_fix_tool());
    r.push(make_chunk_context_tool());
    r.push(make_list_chunks_tool());
    r.push(make_find_chunk_tool());
    r.push(make_lsp_definition_tool());
    r.push(make_lsp_references_tool());
    r.push(make_lsp_hover_tool());
    r.push(make_lsp_diagnostics_tool());
    r.push(make_lsp_symbols_tool());
    r.push(make_search_tool());
    r.push(make_list_tags_tool());
    assert(tool_views(r@) =~= tool_table());
    r
}

// ── laws ─────────────────────────────────────────────────────────────────

/// Law: every tool of the table is the tool its name dispatches to, in
/// the table's order, and no two entries share a name.
pub proof fn law_listed_tools_are_dispatched()
    ensures
        tool_table().len() == 13,
        tool_named(tool_table()[0].name) == Some(McpTool::Trace),
        tool_named(tool_table()[1].name) == Some(McpTool::ApplyBack),
        tool_named(tool_table()[2].name) == Some(McpTool::ApplyFix),
        tool_named(tool_table()[3].name) == Some(McpTool::ChunkContext),
        tool_named(tool_table()[4].name) == Some(McpTool::ListChunks),
        tool_named(tool_table()[5].name) == Some(McpTool::FindChunk),
        tool_named(tool_table()[6].name) == Some(McpTool::LspDefinition),
        tool_named(tool_table()[7].name) == Some(McpTool::LspReferences),
        tool_named(tool_table()[8].name) == Some(McpTool::LspHover),
        tool_named(tool_table()[9].name) == Some(McpTool::LspDiagnostics),
        tool_named(tool_table()[10].name) == Some(McpTool::LspSymbols),
        tool_named(tool_table()[11].name) == Some(McpTool::Search),
        tool_named(tool_table()[12].name) == Some(McpTool::ListTags),
        forall|i: int, j: int| 0 <= i < j < 13 ==> tool_table()[i].name != tool_table()[j].name,
{
    assert(tool_named(tool_table()[0].name) == Some(McpTool::Trace)) by {
        reveal_strlit("weaveback_trace");
        assert(tool_table()[0].name == "weaveback_trace"@);
    }
    assert(tool_named(tool_table()[1].name) == Some(McpTool::ApplyBack)) by {
        reveal_strlit("weaveback_apply_back");
        assert(tool_table()[1].name == "weaveback_apply_back"@);
        reveal_strlit("weaveback_trace");
        assert("weaveback_apply_back"@.len() != "weaveback_trace"@.len());
    }
    assert(tool_named(tool_table()[2].name) == Some(McpTool::ApplyFix)) by {
        reveal_strlit("weaveback_apply_fix");
        assert(tool_table()[2].name == "weaveback_apply_fix"@);
        reveal_strlit("weaveback_trace");
        assert("weaveback_apply_fix"@.len() != "weaveback_trace"@.len());
        reveal_strlit("weaveback_apply_back");
        assert("weaveback_apply_fix"@.len() != "weaveback_apply_back"@.len());
    }
    assert(tool_named(tool_table()[3].name) == Some(McpTool::ChunkContext)) by {
        reveal_strlit("weaveback_chunk_context");
        assert(tool_table()[3].name == "weaveback_chunk_context"@);
        reveal_strlit("weaveback_trace");
        assert("weaveback_chunk_context"@.len() != "weaveback_trace"@.len());
        reveal_strlit("weaveback_apply_back");
        assert("weaveback_chunk_context"@.len() != "weaveback_apply_back"@.len());
        reveal_strlit("weaveback_apply_fix");
        assert("weaveback_chunk_context"@.len() != "weaveback_apply_fix"@.len());
    }
    assert(tool_named(tool_table()[4].name) == Some(McpTool::ListChunks)) by {
        reveal_strlit("weaveback_list_chunks");
        assert(tool_table()[4].name == "weaveback_list_chunks"@);
        reveal_strlit("weaveback_trace");
        assert("weaveback_list_chunks"@.len() != "weaveback_trace"@.len());
        reveal_strlit("weaveback_apply_back");
        assert("weaveback_list_chunks"@.len() != "weaveback_apply_back"@.len());
        reveal_strlit("weaveback_apply_fix");
        assert("weaveback_list_chunks"@.len() != "weaveback_apply_fix"@.len());
        reveal_strlit("weaveback_chunk_context");
        assert("weaveback_list_chunks"@.len() != "weaveback_chunk_context"@.len());
    }
    assert(tool_named(tool_table()[5].name) == Some(McpTool::FindChunk)) by {
        reveal_strlit("weaveback_find_chunk");
        assert(tool_table()[5].name == "weaveback_find_chunk"@);
        reveal_strlit("weaveback_trace");
        assert("weaveback_find_chunk"@.len() != "weaveback_trace"@.len());
        reveal_strlit("weaveback_apply_back");
        assert("weaveback_find_chunk"@[10] != "weaveback_apply_back"@[10]);
        reveal_strlit("weaveback_apply_fix");
        assert("weaveback_find_chunk"@.len() != "weaveback_apply_fix"@.len());
        reveal_strlit("weaveback_chunk_context");
        assert("weaveback_find_chunk"@.len() != "weaveback_chunk_context"@.len());
        reveal_strlit("weaveback_list_chunks");
        assert("weaveback_find_chunk"@.len() != "weaveback_list_chunks"@.len());
    }
    assert(tool_named(tool_table()[6].name) == Some(McpTool::LspDefinition)) by {
        reveal_strlit("weaveback_lsp_definition");
        assert(tool_table()[6].name == "weaveback_lsp_definition"@);
        reveal_strlit("weaveback_trace");
        assert("weaveback_lsp_definition"@.len() != "weaveback_trace"@.len());
        reveal_strlit("weaveback_apply_back");
        assert("weaveback_lsp_definition"@.len() != "weaveback_apply_back"@.len());
        reveal_strlit("weaveback_apply_fix");
        assert("weaveback_lsp_definition"@.len() != "weaveback_apply_fix"@.len());
        reveal_strlit("weaveback_chunk_context");
        assert("weaveback_lsp_definition"@.len() != "weaveback_chunk_context"@.len());
        reveal_strlit("weaveback_list_chunks");
        assert("weaveback_lsp_definition"@.len() != "weaveback_list_chunks"@.len());
        reveal_strlit("weaveback_find_chunk");
        assert("weaveback_lsp_definition"@.len() != "weaveback_find_chunk"@.len());
    }
    assert(tool_named(tool_table()[7].name) == Some(McpTool::LspReferences)) by {
        reveal_strlit("weaveback_lsp_references");
        assert(tool_table()[7].name == "weaveback_lsp_references"@);
        reveal_strlit("weaveback_trace");
        assert("weaveback_lsp_references"@.len() != "weaveback_trace"@.len());
        reveal_strlit("weaveback_apply_back");
        assert("weaveback_lsp_references"@.len() != "weaveback_apply_back"@.len());
        reveal_strlit("weaveback_apply_fix");
        assert("weaveback_lsp_references"@.len() != "weaveback_apply_fix"@.len());
        reveal_strlit("weaveback_chunk_context");
        assert("weaveback_lsp_references"@.len() != "weaveback_chunk_context"@.len());
        reveal_strlit("weaveback_list_chunks");
        assert("weaveback_lsp_references"@.len() != "weaveback_list_chunks"@.len());
        reveal_strlit("weaveback_find_chunk");
        assert("weaveback_lsp_references"@.len() != "weaveback_find_chunk"@.len());
        reveal_strlit("weaveback_lsp_definition");
        assert("weaveback_lsp_references"@[14] != "weaveback_lsp_definition"@[14]);
    }
    assert(tool_named(tool_table()[8].name) == Some(McpTool::LspHover)) by {
        reveal_strlit("weaveback_lsp_hover");
        assert(tool_table()[8].name == "weaveback_lsp_hover"@);
        reveal_strlit("weaveback_trace");
        assert("weaveback_lsp_hover"@.len() != "weaveback_trace"@.len());
        reveal_strlit("weaveback_apply_back");
        assert("weaveback_lsp_hover"@.len() != "weaveback_apply_back"@.len());
        reveal_strlit("weaveback_apply_fix");
        assert("weaveback_lsp_hover"@[10] != "weaveback_apply_fix"@[10]);
        reveal_strlit("weaveback_chunk_context");
        assert("weaveback_lsp_hover"@.len() != "weaveback_chunk_context"@.len());
        reveal_strlit("weaveback_list_chunks");
        assert("weaveback_lsp_hover"@.len() != "weaveback_list_chunks"@.len());
        reveal_strlit("weaveback_find_chunk");
        assert("weaveback_lsp_hover"@.len() != "weaveback_find_chunk"@.len());
        reveal_strlit("weaveback_lsp_definition");
        assert("weaveback_lsp_hover"@.len() != "weaveback_lsp_definition"@.len());
        reveal_strlit("weaveback_lsp_references");
        assert("weaveback_lsp_hover"@.len() != "weaveback_lsp_references"@.len());
    }
    assert(tool_named(tool_table()[9].name) == Some(McpTool::LspDiagnostics)) by {
        reveal_strlit("weaveback_lsp_diagnostics");
        assert(tool_table()[9].name == "weaveback_lsp_diagnostics"@);
        reveal_strlit("weaveback_trace");
        assert("weaveback_lsp_diagnostics"@.len() != "weaveback_trace"@.len());
        reveal_strlit("weaveback_apply_back");
        assert("weaveback_lsp_diagnostics"@.len() != "weaveback_apply_back"@.len());
        reveal_strlit("weaveback_apply_fix");
        assert("weaveback_lsp_diagnostics"@.len() != "weaveback_apply_fix"@.len());
        reveal_strlit("weaveback_chunk_context");
        assert("weaveback_lsp_diagnostics"@.len() != "weaveback_chunk_context"@.len());
        reveal_strlit("weaveback_list_chunks");
        assert("weaveback_lsp_diagnostics"@.len() != "weaveback_list_chunks"@.len());
        reveal_strlit("weaveback_find_chunk");
        assert("weaveback_lsp_diagnostics"@.len() != "weaveback_find_chunk"@.len());
        reveal_strlit("weaveback_lsp_definition");
        assert("weaveback_lsp_diagnostics"@.len() != "weaveback_lsp_definition"@.len());
        reveal_strlit("weaveback_lsp_references");
        assert("weaveback_lsp_diagnostics"@.len() != "weaveback_lsp_references"@.len());
        reveal_strlit("weaveback_lsp_hover");
        assert("weaveback_lsp_diagnostics"@.len() != "weaveback_lsp_hover"@.len());
    }
    assert(tool_named(tool_table()[10].name) == Some(McpTool::LspSymbols)) by {
        reveal_strlit("weaveback_lsp_symbols");
        assert(tool_table()[10].name == "weaveback_lsp_symbols"@);
        reveal_strlit("weaveback_trace");
        assert("weaveback_lsp_symbols"@.len() != "weaveback_trace"@.len());
        reveal_strlit("weaveback_apply_back");
        assert("weaveback_lsp_symbols"@.len() != "weaveback_apply_back"@.len());
        reveal_strlit("weaveback_apply_fix");
        assert("weaveback_lsp_symbols"@.len() != "weaveback_apply_fix"@.len());
        reveal_strlit("weaveback_chunk_context");
        assert("weaveback_lsp_symbols"@.len() != "weaveback_chunk_context"@.len());
        reveal_strlit("weaveback_list_chunks");
        assert("weaveback_lsp_symbols"@[11] != "weaveback_list_chunks"@[11]);
        reveal_strlit("weaveback_find_chunk");
        assert("weaveback_lsp_symbols"@.len() != "weaveback_find_chunk"@.len());
        reveal_strlit("weaveback_lsp_definition");
        assert("weaveback_lsp_symbols"@.len() != "weaveback_lsp_definition"@.len());
        reveal_strlit("weaveback_lsp_references");
        assert("weaveback_lsp_symbols"@.len() != "weaveback_lsp_references"@.len());
        reveal_strlit("weaveback_lsp_hover");
        assert("weaveback_lsp_symbols"@.len() != "weaveback_lsp_hover"@.len());
        reveal_strlit("weaveback_lsp_diagnostics");
        assert("weaveback_lsp_symbols"@.len() != "weaveback_lsp_diagnostics"@.len());
    }
    assert(tool_named(tool_table()[11].name) == Some(McpTool::Search)) by {
        reveal_strlit("weaveback_search");
        assert(tool_table()[11].name == "weaveback_search"@);
        reveal_strlit("weaveback_trace");
        assert("weaveback_search"@.len() != "weaveback_trace"@.len());
        reveal_strlit("weaveback_apply_back");
        assert("weaveback_search"@.len() != "weaveback_apply_back"@.len());
        reveal_strlit("weaveback_apply_fix");
        assert("weaveback_search"@.len() != "weaveback_apply_fix"@.len());
        reveal_strlit("weaveback_chunk_context");
        assert("weaveback_search"@.len() != "weaveback_chunk_context"@.len());
        reveal_strlit("weaveback_list_chunks");
        assert("weaveback_search"@.len() != "weaveback_list_chunks"@.len());
        reveal_strlit("weaveback_find_chunk");
        assert("weaveback_search"@.len() != "weaveback_find_chunk"@.len());
        reveal_strlit("weaveback_lsp_definition");
        assert("weaveback_search"@.len() != "weaveback_lsp_definition"@.len());
        reveal_strlit("weaveback_lsp_references");
        assert("weaveback_search"@.len() != "weaveback_lsp_references"@.len());
        reveal_strlit("weaveback_lsp_hover");
        assert("weaveback_search"@.len() != "weaveback_lsp_hover"@.len());
        reveal_strlit("weaveback_lsp_diagnostics");
        assert("weaveback_search"@.len() != "weaveback_lsp_diagnostics"@.len());
        reveal_strlit("weaveback_lsp_symbols");
        assert("weaveback_search"@.len() != "weaveback_lsp_symbols"@.len());
    }
    assert(tool_named(tool_table()[12].name) == Some(McpTool::ListTags)) by {
        reveal_strlit("weaveback_list_tags");
        assert(tool_table()[12].name == "weaveback_list_tags"@);
        reveal_strlit("weaveback_trace");
        assert("weaveback_list_tags"@.len() != "weaveback_trace"@.len());
        reveal_strlit("weaveback_apply_back");
        assert("weaveback_list_tags"@.len() != "weaveback_apply_back"@.len());
        reveal_strlit("weaveback_apply_fix");
        assert("weaveback_list_tags"@[10] != "weaveback_apply_fix"@[10]);
        reveal_strlit("weaveback_chunk_context");
        assert("weaveback_list_tags"@.len() != "weaveback_chunk_context"@.len());
        reveal_strlit("weaveback_list_chunks");
        assert("weaveback_list_tags"@.len() != "weaveback_list_chunks"@.len());
        reveal_strlit("weaveback_find_chunk");
        assert("weaveback_list_tags"@.len() != "weaveback_find_chunk"@.len());
        reveal_strlit("weaveback_lsp_definition");
        assert("weaveback_list_tags"@.len() != "weaveback_lsp_definition"@.len());
        reveal_strlit("weaveback_lsp_references");
        assert("weaveback_list_tags"@.len() != "weaveback_lsp_references"@.len());
        reveal_strlit("weaveback_lsp_hover");
        assert("weaveback_list_tags"@[11] != "weaveback_lsp_hover"@[11]);
        reveal_strlit("weaveback_lsp_diagnostics");
        assert("weaveback_list_tags"@.len() != "weaveback_lsp_diagnostics"@.len());
        reveal_strlit("weaveback_lsp_symbols");
        assert("weaveback_list_tags"@.len() != "weaveback_lsp_symbols"@.len());
        reveal_strlit("weaveback_search");
        assert("weaveback_list_tags"@.len() != "weaveback_search"@.len());
    }
    assert forall|i: int, j: int| 0 <= i < j < 13 implies tool_table()[i].name != tool_table()[j].name by {
        if tool_table()[i].name == tool_table()[j].name {
            assert(tool_named(tool_table()[i].name) == tool_named(tool_table()[j].name));
        }
    }
}

/// Law: every argument a tool requires is one of the arguments its schema
/// lists.
pub proof fn law_required_arguments_are_listed()
    ensures
        forall|i: int, k: int|
            #![trigger tool_table()[i].required->0[k]]
            0 <= i < tool_table().len() && tool_table()[i].required is Some && 0 <= k
                < tool_table()[i].required->0.len() ==> exists|p: int|
                0 <= p < tool_table()[i].properties.len() && #[trigger] tool_table()[i].properties[p].name
                    == tool_table()[i].required->0[k],
{
    assert(tool_table()[0].properties[0].name == tool_table()[0].required->0[0]);
    assert(tool_table()[0].properties[1].name == tool_table()[0].required->0[1]);
    assert(tool_table()[2].properties[0].name == tool_table()[2].required->0[0]);
    assert(tool_table()[2].properties[1].name == tool_table()[2].required->0[1]);
    assert(tool_table()[2].properties[5].name == tool_table()[2].required->0[2]);
    assert(tool_table()[2].properties[6].name == tool_table()[2].required->0[3]);
    assert(tool_table()[2].properties[7].name == tool_table()[2].required->0[4]);
    assert(tool_table()[3].properties[0].name == tool_table()[3].required->0[0]);
    assert(tool_table()[3].properties[1].name == tool_table()[3].required->0[1]);
    assert(tool_table()[5].properties[0].name == tool_table()[5].required->0[0]);
    assert(tool_table()[6].properties[0].name == tool_table()[6].required->0[0]);
    assert(tool_table()[6].properties[1].name == tool_table()[6].required->0[1]);
    assert(tool_table()[6].properties[2].name == tool_table()[6].required->0[2]);
    assert(tool_table()[7].properties[0].name == tool_table()[7].required->0[0]);
    assert(tool_table()[7].properties[1].name == tool_table()[7].required->0[1]);
    assert(tool_table()[7].properties[2].name == tool_table()[7].required->0[2]);
    assert(tool_table()[8].properties[0].name == tool_table()[8].required->0[0]);
    assert(tool_table()[8].properties[1].name == tool_table()[8].required->0[1]);
    assert(tool_table()[8].properties[2].name == tool_table()[8].required->0[2]);
    assert(tool_table()[9].properties[0].name == tool_table()[9].required->0[0]);
    assert(tool_table()[10].properties[0].name == tool_table()[10].required->0[0]);
    assert(tool_table()[11].properties[0].name == tool_table()[11].required->0[0]);
}

} // verus!
