//! The assistant as its user sees it.
use asteria_agent::agent::{system_prompt, Asteria, McpLoadResult};
use asteria_agent::agent_loop::{LoopAction, LoopEvent};
use asteria_agent::context::ContextMemory;
use asteria_agent::json::parse;
use asteria_agent::mcp::config::McpServerConfig;
use asteria_agent::mcp::manager::{FailureCause, McpManager};
use asteria_agent::mcp::tool::McpToolAdapter;
use asteria_agent::message::{Message, ToolCall};
use asteria_agent::permission::ToolPermission;
use asteria_agent::provider::deepseek::DeepSeekProvider;
use asteria_agent::provider::turn::{AssistantTurn, TokenUsage};
use asteria_agent::rag::store::RagStore;
use asteria_agent::rag::tool::SearchDocsTool;
use asteria_agent::retry::Duration;
use asteria_agent::session::{ContextRecord, RestoredSession, SessionState, SessionStore, TraceRecord};
use asteria_agent::tools::output::ToolOutput;
use std::sync::Arc;

fn agent_with(permissions: Vec<(String, ToolPermission)>) -> Asteria {
    let restored = RestoredSession {
        context: ContextMemory::new(system_prompt()),
        next_turn_id: 4,
        usage: TokenUsage::default(),
        permissions,
    };
    let session = SessionStore::at("/tmp/session", SessionState::default());
    let provider = DeepSeekProvider::new("key".into(), Some("model".into()));
    match Asteria::new(provider, session, restored) {
        Ok(agent) => agent,
        Err(error) => panic!("{}", error.message()),
    }
}

fn server(name: &str, tools: &[&str]) -> McpLoadResult {
    let config = McpServerConfig {
        command: Some("x".into()),
        args: Vec::new(),
        env: Vec::new(),
        cwd: None,
        url: None,
        headers: Vec::new(),
        oauth_client_id: None,
        enabled: true,
        startup_timeout_ms: 1,
        tool_timeout_ms: 1,
        enabled_tools: None,
        disabled_tools: Vec::new(),
    };
    let discovered: Vec<String> = tools.iter().map(|tool| tool.to_string()).collect();
    let mut manager = McpManager::new(Vec::new(), None);
    manager.add_connected(name, &config, &discovered);
    let tools = discovered
        .into_iter()
        .map(|tool| {
            McpToolAdapter::new(name, tool, None, parse("{}").unwrap(), Duration::from_secs(1))
        })
        .collect();
    McpLoadResult { manager, tools }
}

fn permission(agent: &Asteria, name: &str) -> Option<ToolPermission> {
    agent.tool_permissions().into_iter().find(|entry| entry.0 == name).map(|entry| entry.1)
}

fn call(id: &str, name: &str) -> ToolCall {
    ToolCall { id: id.into(), name: name.into(), arguments: "{}".into() }
}

#[test]
fn sessions_are_continued_without_lookups() {
    let history = vec![
        Message::User { content: "q".into() },
        Message::Assistant { content: None, tool_calls: vec![call("a", "search_docs")] },
        Message::Tool { call_id: "a".into(), content: "long".into(), is_error: false },
        Message::Assistant { content: Some("answer".into()), tool_calls: Vec::new() },
    ];
    let restored = RestoredSession {
        context: match ContextMemory::restore("s", history) {
            Ok(context) => context,
            Err(error) => panic!("{}", error.message()),
        },
        next_turn_id: 2,
        usage: TokenUsage { prompt_tokens: 1, completion_tokens: 1, total_tokens: 2 },
        permissions: vec![("calculate".into(), ToolPermission::Deny)],
    };
    let session = SessionStore::at("/tmp/session", SessionState::default());
    let provider = DeepSeekProvider::new("key".into(), None);
    let agent = match Asteria::new(provider, session, restored) {
        Ok(agent) => agent,
        Err(error) => panic!("{}", error.message()),
    };
    assert_eq!(agent.context().messages().len(), 2);
    assert_eq!(agent.session_usage().total_tokens, 2);
    assert_eq!(permission(&agent, "calculate"), Some(ToolPermission::Deny));
    assert_eq!(agent.model(), "deepseek-v4-flash");
    assert_eq!(agent.agent_loop.provider().api_key, "key");
    assert_eq!(
        agent.agent_loop.provider().api_url,
        "https://api.deepseek.com/chat/completions"
    );
    assert_eq!(agent.session_path(), "/tmp/session");
    assert!(agent.last_usage().is_none());
}

#[test]
fn turns_are_settled_with_their_sources() {
    let mut agent = agent_with(Vec::new());
    agent.enable_search_docs(&SearchDocsTool::new(Arc::new(RagStore::from_chunks(Vec::new()))));
    assert!(agent.context().system_prompt().contains("search_docs"));
    assert_eq!(permission(&agent, "search_docs"), Some(ToolPermission::Allow));
    assert!(matches!(agent.ask("第14章", false), LoopAction::Ask));
    let lookup = AssistantTurn {
        content: None,
        tool_calls: vec![call("a", "search_docs")],
        usage: None,
    };
    assert!(matches!(agent.advance(LoopEvent::Reply(lookup), false), LoopAction::RunTool(_)));
    let found = ToolOutput {
        content: "[资料 1 | guide.docx | 片段 14 | score=100]\n正文".into(),
        is_error: false,
    };
    assert!(matches!(agent.advance(LoopEvent::ToolDone(found), false), LoopAction::Ask));
    let answer = AssistantTurn {
        content: Some("done".into()),
        tool_calls: Vec::new(),
        usage: Some(TokenUsage { prompt_tokens: 3, completion_tokens: 2, total_tokens: 5 }),
    };
    assert!(matches!(agent.advance(LoopEvent::Reply(answer), false), LoopAction::Finished(_)));
    let settled = agent.settle_turn(true, &Vec::new());
    assert!(settled.warnings.is_empty());
    assert!(settled.traces.is_empty());
    let batch = settled.batch.unwrap();
    assert_eq!(batch.context.len(), 3);
    assert!(matches!(batch.context[2], ContextRecord::TurnCompleted(4, _)));
    assert!(matches!(&batch.trace[0], TraceRecord::RetrievalSources(4, refs)
        if refs[0].source == "guide.docx" && refs[0].chunk_indices == vec![14]));
    assert_eq!(agent.context().messages().len(), 2);
    assert_eq!(agent.last_usage().unwrap().total_tokens, 5);
    agent.new_session();
    assert!(agent.context().messages().is_empty());
    assert!(agent.last_turn().is_none());
    assert_eq!(agent.session_usage().total_tokens, 0);
}

#[test]
fn permissions_are_changed_for_known_tools_only() {
    let mut agent = agent_with(Vec::new());
    assert_eq!(
        agent.set_tool_permission("missing", ToolPermission::Allow),
        Err("未知工具: missing".to_string())
    );
    agent.set_tool_permission("calculate", ToolPermission::Deny).unwrap();
    assert_eq!(permission(&agent, "calculate"), Some(ToolPermission::Deny));
    assert_eq!(
        agent.session.state().permissions,
        vec![("calculate".to_string(), ToolPermission::Deny)]
    );
}

#[test]
fn remote_tools_come_and_go_with_their_servers() {
    let mut agent = agent_with(vec![("mcp__s__two".into(), ToolPermission::Deny)]);
    assert_eq!(
        agent.disconnect_mcp_server("s"),
        Err("MCP Manager 尚未初始化".to_string())
    );
    agent.enable_mcp(server("s", &["one", "two"]));
    assert_eq!(permission(&agent, "mcp__s__one"), Some(ToolPermission::Ask));
    assert_eq!(permission(&agent, "mcp__s__two"), Some(ToolPermission::Deny));
    agent.set_tool_permission("mcp__s__one", ToolPermission::Allow).unwrap();
    agent.reload_mcp(server("s", &["one", "three"])).unwrap();
    assert_eq!(permission(&agent, "mcp__s__one"), Some(ToolPermission::Allow));
    assert_eq!(permission(&agent, "mcp__s__two"), None);
    assert_eq!(permission(&agent, "mcp__s__three"), Some(ToolPermission::Ask));
    agent.connect_mcp_server("s", server("s", &["one"])).unwrap();
    assert_eq!(permission(&agent, "mcp__s__one"), Some(ToolPermission::Allow));
    assert_eq!(permission(&agent, "mcp__s__three"), None);
    agent.disconnect_mcp_server("s").unwrap();
    assert_eq!(permission(&agent, "mcp__s__one"), None);
    assert_eq!(agent.logout_mcp_server("unknown"), Ok(()));
    assert!(agent.disconnect_mcp_server("unknown").is_err());
}

#[test]
fn failed_servers_replace_nothing() {
    let mut agent = agent_with(Vec::new());
    agent.enable_mcp(server("s", &["one"]));
    let failed = || {
        let mut manager = McpManager::new(Vec::new(), None);
        manager.add_failed("s", &vec![FailureCause::Other], "refused".into());
        McpLoadResult { manager, tools: Vec::new() }
    };
    assert_eq!(
        agent.reload_mcp(failed()),
        Err("MCP reload 未应用，当前连接保持不变：s: refused".to_string())
    );
    assert_eq!(
        agent.connect_mcp_server("s", failed()),
        Err("MCP Server `s` 连接失败：s: refused".to_string())
    );
    assert_eq!(permission(&agent, "mcp__s__one"), Some(ToolPermission::Ask));
    assert_eq!(agent.mcp_manager().unwrap().active_connections(), 1);
}

#[test]
fn failed_turns_keep_only_their_tool_calls() {
    let mut agent = agent_with(Vec::new());
    agent.ask("hi", true);
    let settled = agent.settle_turn(false, &Vec::new());
    assert!(settled.batch.is_none());
    assert!(settled.traces.is_empty());
    assert!(agent.context().messages().is_empty());
    agent.reset();
    assert!(agent.context().messages().is_empty());
}
