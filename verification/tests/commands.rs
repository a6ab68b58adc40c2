//! Slash commands and their answers.
use asteria_agent::agent_loop::{TurnReport, TurnState};
use asteria_agent::commands::{
    approval_usage, classify_slash, format_context, format_mcp, format_mcp_tools, format_permissions,
    format_session, format_trace, format_usage, format_verbose, mcp_change_answer, mcp_source_line, mcp_usage, parse_mcp_command,
    permission_answer, permission_usage, trace_request, McpCommand, SlashAction,
};
use asteria_agent::events::ToolTrace;
use asteria_agent::mcp::manager::McpManager;
use asteria_agent::message::{Message, ToolCall};
use asteria_agent::permission::ToolPermission;
use asteria_agent::provider::turn::TokenUsage;
use asteria_agent::session::{SessionState, SessionStore};

#[test]
fn classifies_tui_slash_commands() {
    assert_eq!(classify_slash("/reset"), Some(SlashAction::Reset));
    assert_eq!(classify_slash("/context"), Some(SlashAction::Context));
    assert_eq!(
        classify_slash("/trace 3"),
        Some(SlashAction::Trace { command: "/trace 3".into() })
    );
    assert_eq!(classify_slash("/approve 7"), Some(SlashAction::Approve { id: 7 }));
    assert_eq!(classify_slash("计算1+1"), None);
    assert_eq!(classify_slash("/unknown"), None);
}

#[test]
fn every_command_is_recognised() {
    assert_eq!(classify_slash(" /usage "), Some(SlashAction::Usage));
    assert_eq!(classify_slash("/session"), Some(SlashAction::Session));
    assert_eq!(classify_slash("/permissions"), Some(SlashAction::Permissions));
    assert_eq!(
        classify_slash("/permission Bash allow"),
        Some(SlashAction::Permission { name: "Bash".into(), value: "allow".into() })
    );
    assert_eq!(classify_slash("/permission Bash"), Some(SlashAction::PermissionUsage));
    assert_eq!(classify_slash("/new-session"), Some(SlashAction::NewSession));
    assert_eq!(classify_slash("/cancel"), Some(SlashAction::Cancel));
    assert_eq!(classify_slash("/exit"), Some(SlashAction::Exit));
    assert_eq!(classify_slash("/deny 2"), Some(SlashAction::Deny { id: 2 }));
    assert_eq!(classify_slash("/deny two"), Some(SlashAction::ApprovalUsage));
    assert_eq!(
        classify_slash("/mcp tools"),
        Some(SlashAction::Mcp { command: "/mcp tools".into() })
    );
    assert_eq!(
        classify_slash("/verbose on"),
        Some(SlashAction::Verbose { command: "/verbose on".into() })
    );
}

#[test]
fn answers_name_what_they_speak_of() {
    assert_eq!(
        format_permissions(&vec![("Bash".to_string(), ToolPermission::Ask)]),
        "Bash: ask"
    );
    assert!(permission_answer("Bash", "allow", Ok(())).contains("Bash"));
    assert!(permission_answer("Bash", "maybe", Err("x".into())).contains("x"));
    assert!(permission_usage().starts_with("用法"));
    assert!(approval_usage().starts_with("用法"));
    let store = SessionStore::at("/s", SessionState::default());
    let shown = format_session(store.paths());
    assert!(shown.contains("/s/context.jsonl"));
    assert!(shown.contains("/s/trace.jsonl"));
    assert!(shown.contains("/s/state.json"));
    assert!(format_verbose("/verbose", Some(true)).contains("on"));
}

#[test]
fn contexts_are_listed_message_by_message() {
    let messages = vec![
        Message::User { content: "问\"题\"".into() },
        Message::Assistant {
            content: None,
            tool_calls: vec![ToolCall {
                id: "c1".into(),
                name: "Read".into(),
                arguments: "{}".into(),
            }],
        },
        Message::Tool { call_id: "c1".into(), content: "text".into(), is_error: false },
    ];
    let shown = format_context("system", &messages);
    assert!(shown.contains("问\\\"题\\\""));
    assert!(shown.contains("Read"));
    assert!(shown.contains("c1"));
}

#[test]
fn usage_is_reported_for_turn_and_session() {
    let used = TokenUsage { prompt_tokens: 3, completion_tokens: 2, total_tokens: 5 };
    let report = TurnReport {
        id: 7,
        steps: 2,
        state: TurnState::Completed,
        state_history: vec![TurnState::Running, TurnState::Completed],
        answer: Some("a".into()),
        latest_context_tokens: 11,
        context_truncated: false,
        usage: used,
        retries: 1,
    };
    let shown = format_usage(Some(&report), 4, &used);
    assert!(shown.contains("7"));
    assert!(shown.contains("5"));
    assert_ne!(shown, format_usage(None, 4, &used));
}

#[test]
fn traces_are_asked_for_by_turn() {
    assert_eq!(trace_request("/trace 3", Some(9)), Ok(3));
    assert_eq!(trace_request("/trace", Some(9)), Ok(9));
    assert!(trace_request("/trace", None).is_err());
    assert!(trace_request("/trace x", Some(9)).is_err());
    let call = ToolCall { id: "c".into(), name: "Read".into(), arguments: "{}".into() };
    let trace = ToolTrace::completed(3, 1, &call, "r", false, 12);
    let shown = format_trace(3, &vec![trace]);
    assert!(shown.contains("Read"));
    assert!(shown.contains("12"));
    assert_ne!(shown, format_trace(3, &Vec::new()));
}

#[test]
fn server_commands_are_parsed() {
    assert_eq!(parse_mcp_command("/mcp"), McpCommand::Status);
    assert_eq!(parse_mcp_command("/mcp tools"), McpCommand::Tools);
    assert_eq!(parse_mcp_command("/mcp reload"), McpCommand::Reload);
    assert_eq!(
        parse_mcp_command("/mcp connect github"),
        McpCommand::Connect("github".into())
    );
    assert!(mcp_usage().contains("/mcp"));
    let done = mcp_change_answer(&McpCommand::Connect("github".into()), Ok(()), "shown");
    assert!(done.contains("github"));
    let failed =
        mcp_change_answer(&McpCommand::Connect("github".into()), Err("why".into()), "shown");
    assert!(failed.contains("why"));
    let loaded = mcp_source_line("用户", Some("/a"), &["/a".to_string()], None, true);
    let skipped = mcp_source_line("用户", Some("/a"), &[], Some("/a"), true);
    assert!(loaded.contains("/a"));
    assert_ne!(loaded, skipped);
}

#[test]
fn servers_are_reported_with_their_sources() {
    let mut manager = McpManager::new(vec!["/home/mcp.json".into()], None);
    let empty = format_mcp(&manager, false, false);
    assert!(empty.contains("用户配置：未设置"));
    assert!(empty.contains("mcpServers 为空"));
    manager.set_config_paths(Some("/home/mcp.json".into()), Some("/work/mcp.json".into()));
    manager.add_disabled("off");
    let shown = format_mcp(&manager, true, true);
    assert!(shown.starts_with("[MCP] 已连接 0/1 个 Server，注册 0 个工具"));
    assert!(shown.contains("用户配置：/home/mcp.json（已加载）"));
    assert!(shown.contains("项目配置：/work/mcp.json（存在但未加载）"));
    assert!(shown.contains("- off: disabled · 0 个工具"));
    assert_eq!(manager.global_config(), Some("/home/mcp.json"));
    assert_eq!(manager.project_config(), Some("/work/mcp.json"));
    assert_eq!(format_mcp_tools(&manager), "[MCP] 当前没有已注册工具。");
}
