//! Which tools the model is shown.
use asteria_agent::intent::name_of_schema;
use asteria_agent::json::Json;
use asteria_agent::message::{Message, ToolCall};
use asteria_agent::tool_router::{route, route_with_limit};

fn schema(name: &str, description: &str) -> Json {
    let function = Json::empty()
        .put("name", Json::text(name))
        .put("description", Json::text(description))
        .put("parameters", Json::empty().put("type", Json::text("object")));
    Json::empty().put("type", Json::text("function")).put("function", function)
}

fn user(content: &str) -> Vec<Message> {
    vec![Message::User {
        content: content.into(),
    }]
}

fn names(tools: &Json) -> Vec<&str> {
    tools
        .as_array()
        .unwrap()
        .iter()
        .filter_map(name_of_schema)
        .collect()
}

#[test]
fn plain_chat_keeps_readonly_core_and_hides_unrelated_mcp() {
    let tools = Json::array(vec![
        schema("Read", "read"),
        schema("Glob", "glob"),
        schema("Grep", "grep"),
        schema("calculate", "calculate"),
        schema("current_time", "current time"),
        schema("Write", "write"),
        schema("mcp__github__get_me", "Get my profile")
    ]);
    let routed = route(&user("你好"), &tools);
    assert_eq!(
        names(&routed),
        vec!["Read", "Glob", "Grep", "calculate", "current_time"]
    );
}

#[test]
fn tool_list_introspection_does_not_match_generic_mcp_descriptions() {
    let tools = Json::array(vec![
        schema("Read", "Read a file"),
        schema("Glob", "Find files"),
        schema("Grep", "Search file contents"),
        schema("calculate", "Calculate an expression"),
        schema("current_time", "Get current time"),
        schema("Write", "Write a file"),
        schema(
            "mcp__context7__resolve-library-id",
            "MCP tool from server context7. Resolve a library identifier"
        ),
        schema(
            "mcp__microsoft-learn__microsoft_docs_fetch",
            "MCP tool from server microsoft-learn. Fetch API documentation"
        ),
        schema(
            "mcp__deepwiki__ask_question",
            "MCP tool from server deepwiki. Ask a repository question"
        )
    ]);
    let routed = route(
        &user(
            "不要调用工具。只列出本次请求中 API tools 数组里的 function.name，不要根据系统提示补充。",
        ),
        &tools,
    );
    assert_eq!(
        names(&routed),
        vec!["Read", "Glob", "Grep", "calculate", "current_time"]
    );
}

#[test]
fn github_intent_selects_relevant_server_tools() {
    let tools = Json::array(vec![
        schema("Read", "read"),
        schema(
            "mcp__github__get_file_contents",
            "Get repository file contents"
        ),
        schema("mcp__github__issue_read", "Get issue details"),
        schema("mcp__context7__query-docs", "Query library docs")
    ]);
    let routed = route(&user("查看 GitHub 仓库中的 README 文件"), &tools);
    let names = names(&routed);
    assert!(names.contains(&"mcp__github__get_file_contents"));
    assert!(names.contains(&"mcp__github__issue_read"));
    assert!(!names.contains(&"mcp__context7__query-docs"));
}

#[test]
fn explicitly_named_tool_is_never_hidden() {
    let tools = Json::array(vec![
        schema("Read", "read"),
        schema("current_time", "Current time"),
        schema("mcp__fixture__echo", "Echo text")
    ]);
    let routed = route(
        &user("必须调用 `mcp__fixture__echo`，参数 text 为 hello"),
        &tools,
    );
    assert!(names(&routed).contains(&"mcp__fixture__echo"));
    let routed = route(&user("调用 current_time"), &tools);
    assert!(names(&routed).contains(&"current_time"));
}

#[test]
fn current_turn_called_tool_survives_followup_step() {
    let messages = vec![
        Message::User {
            content: "处理这个请求".into(),
        },
        Message::Assistant {
            content: None,
            tool_calls: vec![ToolCall {
                id: "call-1".into(),
                name: "mcp__custom__special".into(),
                arguments: "{}".into(),
            }],
        },
        Message::Tool {
            call_id: "call-1".into(),
            content: "done".into(),
            is_error: false,
        },
    ];
    let tools = Json::array(vec![schema("mcp__custom__special", "Special operation")]);
    assert_eq!(
        names(&route(&messages, &tools)),
        vec!["mcp__custom__special"]
    );
}

#[test]
fn mcp_candidates_respect_limit() {
    let tools = Json::array(
        (0..12)
            .map(|index| schema(&format!("mcp__github__search_{index}"), "Search GitHub"))
            .collect(),
    );
    let routed = route_with_limit(&user("搜索 GitHub 仓库"), &tools, 3);
    assert_eq!(routed.as_array().unwrap().len(), 3);
}

#[test]
fn code_change_enables_mutating_and_shell_tools() {
    let tools = Json::array(vec![
        schema("Read", "read"),
        schema("Write", "write"),
        schema("Edit", "edit"),
        schema("Bash", "bash"),
        schema("wait_for", "wait")
    ]);
    let routed = route(&user("修复并测试这段代码"), &tools);
    let names = names(&routed);
    for expected in ["Read", "Write", "Edit", "Bash"] {
        assert!(names.contains(&expected));
    }
    assert!(!names.contains(&"wait_for"));
}

#[test]
fn only_given_tools_are_shown() {
    let tools = Json::array(vec![schema("Read", "read")]);
    let routed = route(&user("必须调用 missing_tool"), &tools);
    assert_eq!(names(&routed), vec!["Read"]);
    assert_eq!(route(&user("你好"), &Json::Null), Json::Null);
}
