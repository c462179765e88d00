use weaveback::mcp::{apply_fix_range_error, mcp_action, tool_by_name, tool_specs, McpAction, McpTool};

#[test]
fn tools_list_contains_expected_core_tools() {
    let tools = tool_specs();
    assert!(tools.len() >= 10);
    assert!(tools.iter().any(|tool| tool.name == "weaveback_trace"));
    assert!(tools.iter().any(|tool| tool.name == "weaveback_apply_fix"));
    assert!(tools.iter().any(|tool| tool.name == "weaveback_search"));
}

#[test]
fn tool_table_lists_thirteen_distinct_dispatchable_tools() {
    let tools = tool_specs();
    assert_eq!(tools.len(), 13);
    for (i, t) in tools.iter().enumerate() {
        assert!(tool_by_name(&t.name).is_some(), "{} does not dispatch", t.name);
        for u in &tools[i + 1..] {
            assert_ne!(t.name, u.name);
        }
    }
    assert_eq!(tools[0].name, "weaveback_trace");
    assert_eq!(tools[12].name, "weaveback_list_tags");
}

#[test]
fn tool_table_schemas_match_their_tools() {
    let tools = tool_specs();
    let trace = &tools[0];
    let names: Vec<&str> = trace.properties.iter().map(|p| p.name.as_str()).collect();
    assert_eq!(names, vec!["out_file", "out_line", "out_col"]);
    assert_eq!(trace.properties[1].kind, "integer");
    assert_eq!(trace.required, Some(vec!["out_file".to_string(), "out_line".to_string()]));

    let apply_back = &tools[1];
    assert_eq!(apply_back.properties[0].name, "files");
    assert_eq!(apply_back.properties[0].kind, "array");
    assert_eq!(apply_back.properties[0].items, Some("string".to_string()));
    assert_eq!(apply_back.required, Some(vec![]));

    let find = tools.iter().find(|t| t.name == "weaveback_find_chunk").unwrap();
    assert_eq!(find.required, Some(vec!["name".to_string()]));
    assert_eq!(find.properties.len(), 1);
    assert_eq!(find.properties[0].name, "name");

    let tags = tools.iter().find(|t| t.name == "weaveback_list_tags").unwrap();
    assert_eq!(tags.required, None);
}

#[test]
fn mcp_initialize_and_tools_list_are_answered() {
    assert_eq!(mcp_action("initialize", None, false), McpAction::Initialize);
    assert_eq!(mcp_action("tools/list", None, false), McpAction::ListTools);
    assert_eq!(mcp_action("tools/list", Some("weaveback_trace"), true), McpAction::ListTools);
}

#[test]
fn mcp_notifications_and_unknown_methods_get_no_answer() {
    assert_eq!(mcp_action("notifications/initialized", None, false), McpAction::Ignore);
    assert_eq!(mcp_action("resources/list", None, false), McpAction::Ignore);
    assert_eq!(mcp_action("", None, false), McpAction::Ignore);
}

#[test]
fn mcp_tool_calls_are_routed_by_name() {
    assert_eq!(
        mcp_action("tools/call", Some("weaveback_trace"), true),
        McpAction::Call(McpTool::Trace)
    );
    assert_eq!(
        mcp_action("tools/call", Some("weaveback_find_chunk"), true),
        McpAction::Call(McpTool::FindChunk)
    );
    assert_eq!(
        mcp_action("tools/call", Some("weaveback_lsp_hover"), true),
        McpAction::Call(McpTool::LspHover)
    );
}

#[test]
fn mcp_missing_arguments_only_for_tools_that_need_them() {
    assert_eq!(
        mcp_action("tools/call", Some("weaveback_trace"), false),
        McpAction::MissingArguments
    );
    assert_eq!(
        mcp_action("tools/call", Some("weaveback_apply_fix"), false),
        McpAction::MissingArguments
    );
    assert_eq!(
        mcp_action("tools/call", Some("weaveback_list_chunks"), false),
        McpAction::Call(McpTool::ListChunks)
    );
    assert_eq!(
        mcp_action("tools/call", Some("weaveback_apply_back"), false),
        McpAction::Call(McpTool::ApplyBack)
    );
    assert_eq!(
        mcp_action("tools/call", Some("weaveback_search"), false),
        McpAction::Call(McpTool::Search)
    );
    assert_eq!(
        mcp_action("tools/call", Some("weaveback_list_tags"), false),
        McpAction::Call(McpTool::ListTags)
    );
}

#[test]
fn mcp_unknown_or_missing_tool_name_is_an_error() {
    assert_eq!(mcp_action("tools/call", Some("weaveback_nope"), true), McpAction::UnknownTool);
    assert_eq!(mcp_action("tools/call", Some("weaveback_trace "), true), McpAction::UnknownTool);
    assert_eq!(mcp_action("tools/call", None, true), McpAction::UnknownTool);
}

#[test]
fn every_required_argument_is_a_listed_property() {
    for t in tool_specs() {
        if let Some(req) = &t.required {
            for r in req {
                assert!(t.properties.iter().any(|p| &p.name == r), "{}: {} is not listed", t.name, r);
            }
        }
    }
}

#[test]
fn apply_fix_line_range_is_checked() {
    assert_eq!(apply_fix_range_error(0, None), Some("src_line must be >= 1".to_string()));
    assert_eq!(apply_fix_range_error(0, Some(3)), Some("src_line must be >= 1".to_string()));
    assert_eq!(apply_fix_range_error(5, Some(4)), Some("src_line_end must be >= src_line".to_string()));
    assert_eq!(apply_fix_range_error(5, None), None);
    assert_eq!(apply_fix_range_error(5, Some(5)), None);
    assert_eq!(apply_fix_range_error(4, Some(6)), None);
}
