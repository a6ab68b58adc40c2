//! What is kept of a session.
use asteria_agent::events::{AgentEvent, ToolTrace};
use asteria_agent::json::parse;
use asteria_agent::message::{Message, ToolCall};
use asteria_agent::permission::ToolPermission;
use asteria_agent::provider::turn::TokenUsage;
use asteria_agent::rag::sources::RagSourceRef;
use asteria_agent::session::{
    is_legacy_event, needs_migration, restore_session, session_locations, tool_traces,
    with_extension, ContextRecord, LegacyRecord, Migration, SessionState, SessionStore, TraceLine,
    TraceRecord,
};

fn test_store() -> SessionStore {
    SessionStore::at("/tmp/asteria-session-test", SessionState::default())
}

fn user(text: &str) -> Message {
    Message::User { content: text.into() }
}

fn said(text: &str) -> Message {
    Message::Assistant { content: Some(text.into()), tool_calls: Vec::new() }
}

fn usage(prompt: usize, completion: usize, total: usize) -> TokenUsage {
    TokenUsage { prompt_tokens: prompt, completion_tokens: completion, total_tokens: total }
}

#[test]
fn persists_and_restores_completed_turn() {
    let mut store = test_store();
    let messages = vec![user("hello"), said("world")];
    let used = usage(10, 2, 12);
    let batch = store.append_turn(&messages, 7, &used);
    assert!(batch.trace.is_empty());
    let restored = store.restore("system", batch.context).unwrap();
    assert_eq!(restored.next_turn_id, 8);
    assert_eq!(restored.usage, used);
    assert_eq!(restored.context.messages(), messages);
}

#[test]
fn replaces_permission_snapshot_and_removes_stale_tools() {
    let mut store = test_store();
    store.append_permission("mcp__old__echo", ToolPermission::Allow);
    store.replace_permissions(&vec![
        ("Read".into(), ToolPermission::Allow),
        ("mcp__new__echo".into(), ToolPermission::Ask),
    ]);
    let restored = store.restore("system", Vec::new()).unwrap();
    assert_eq!(
        restored.permissions,
        vec![
            ("Read".to_string(), ToolPermission::Allow),
            ("mcp__new__echo".to_string(), ToolPermission::Ask),
        ]
    );
}

#[test]
fn skips_volatile_assistant_deltas() {
    let store = test_store();
    let delta = AgentEvent::AssistantDelta {
        turn_id: 1,
        step: 1,
        delta: "streaming".into(),
        offset: 0,
    };
    assert_eq!(store.append_agent_event(delta), None);
    let completed = AgentEvent::TurnCompleted { turn_id: 1, steps: 1 };
    assert_eq!(
        store.append_agent_event(completed.clone()),
        Some(TraceRecord::Event(completed))
    );
}

#[test]
fn mcp_lifecycle_is_written_only_to_trace() {
    let store = test_store();
    let record = store.append_mcp_lifecycle("disconnect", Some("fixture".into()), true, None);
    match record {
        TraceRecord::McpLifecycle(change) => {
            assert_eq!(change.action, "disconnect");
            assert_eq!(change.server.as_deref(), Some("fixture"));
            assert!(change.succeeded);
            assert_eq!(change.detail, None);
            assert!(chrono::DateTime::parse_from_rfc3339(&change.occurred_at).is_ok());
        }
        _ => panic!("another record"),
    }
}

#[test]
fn ignores_incomplete_turn_batch() {
    let records = vec![ContextRecord::Message(user("unfinished"))];
    let restored = restore_session("system", SessionState::default(), records).unwrap();
    assert!(restored.context.messages().is_empty());
    assert_eq!(restored.next_turn_id, 1);
}

#[test]
fn skips_corrupted_tail_line() {
    let mut store = test_store();
    let mut records = store.append_turn(&[user("ok")], 1, &usage(1, 1, 2)).context;
    assert!(parse("{broken-json").is_err());
    records.push(ContextRecord::Message(user("cut off")));
    let restored = store.restore("system", records).unwrap();
    assert_eq!(restored.context.messages().len(), 1);
    assert_eq!(restored.next_turn_id, 2);
}

#[test]
fn persists_short_retrieval_sources_outside_context() {
    let mut store = test_store();
    let messages = vec![user("第14章是什么"), said("第14章介绍持久化配置。")];
    let sources =
        vec![RagSourceRef { source: "guide.docx".into(), chunk_indices: vec![14, 15] }];
    let batch = store.append_turn_with_sources(&messages, 3, &TokenUsage::default(), &sources);
    assert_eq!(batch.trace, vec![TraceRecord::RetrievalSources(3, sources)]);
    assert!(batch.context.iter().all(|record| match record {
        ContextRecord::Message(message) => !format!("{message:?}").contains("guide.docx"),
        ContextRecord::TurnCompleted(..) => true,
    }));
    let restored = store.restore("system", batch.context).unwrap();
    assert_eq!(restored.context.messages(), messages);
}

#[test]
fn persists_redacted_tool_trace_outside_context() {
    let mut store = test_store();
    let messages = vec![user("运行工具")];
    let trace = ToolTrace::completed(
        9,
        2,
        &ToolCall {
            id: "call-9".into(),
            name: "example".into(),
            arguments: r#"{"query":"chapter 14","token":"sensitive-token"}"#.into(),
        },
        "完整工具结果正文",
        false,
        18,
    );
    let batch = store.append_turn_with_audit(
        &messages,
        9,
        &TokenUsage::default(),
        &Vec::new(),
        &vec![trace.clone()],
    );
    assert_eq!(store.tool_traces(&batch.trace, Some(9)), vec![trace]);
    assert!(tool_traces(&batch.trace, Some(8)).is_empty());
    let written = format!("{:?}", batch.trace);
    assert!(!written.contains("sensitive-token"));
    assert!(!written.contains("完整工具结果正文"));
    let restored = store.restore("system", batch.context).unwrap();
    assert_eq!(restored.context.messages(), messages);
}

#[test]
fn migrates_legacy_session_into_three_files() {
    let message = user("legacy message");
    let tool_call_message = Message::Assistant {
        content: None,
        tool_calls: vec![ToolCall {
            id: "legacy-event".into(),
            name: "calculate".into(),
            arguments: r#"{"expression":"1+1"}"#.into(),
        }],
    };
    let tool_result_message =
        Message::Tool { call_id: "legacy-event".into(), content: "2".into(), is_error: false };
    let answer_message = said("1+1 = 2");
    let trace = ToolTrace::completed(
        4,
        1,
        &ToolCall {
            id: "legacy-call".into(),
            name: "search_docs".into(),
            arguments: r#"{"query":"legacy"}"#.into(),
        },
        "legacy result",
        false,
        7,
    );
    let event = r#"{"type":"AgentEvent","event":{"ToolResult":{"turn_id":4,"call_id":"legacy-event","is_error":false,"duration_ms":7}}}"#;
    assert!(is_legacy_event(&parse(event).unwrap()));
    assert!(needs_migration(&SessionState::default()));
    let mut migration = Migration::new();
    migration.migrate_legacy_record(LegacyRecord::Message(message.clone()));
    migration.migrate_legacy_record(LegacyRecord::Tool(trace.clone()));
    migration.migrate_legacy_record(LegacyRecord::PermissionChanged(
        "search_docs".into(),
        ToolPermission::Deny,
    ));
    migration.migrate_legacy_record(LegacyRecord::Event(event.into()));
    for message in [&tool_call_message, &tool_result_message, &answer_message] {
        migration.migrate_legacy_record(LegacyRecord::Message(message.clone()));
    }
    migration.migrate_legacy_record(LegacyRecord::TurnCompleted(4, usage(10, 2, 12)));
    migration.finish();
    assert!(!needs_migration(&migration.state));
    let lines = migration.trace;
    assert!(lines.iter().any(|line| matches!(line, TraceLine::Text(text) if text == event)));
    let traced: Vec<TraceRecord> = lines
        .iter()
        .filter_map(|line| match line {
            TraceLine::Record(record) => Some(record.clone()),
            TraceLine::Text(_) => None,
        })
        .collect();
    assert_eq!(tool_traces(&traced, Some(4)), vec![trace]);
    assert!(!format!("{traced:?}").contains("legacy message"));
    let restored = restore_session("system", migration.state, migration.context).unwrap();
    assert_eq!(
        restored.context.messages(),
        &[message, tool_call_message, tool_result_message, answer_message]
    );
    assert_eq!(restored.next_turn_id, 5);
    assert_eq!(restored.usage.total_tokens, 12);
    assert_eq!(restored.permissions, vec![("search_docs".to_string(), ToolPermission::Deny)]);
}

#[test]
fn sessions_have_their_places() {
    assert_eq!(with_extension("/a/session", "jsonl"), "/a/session.jsonl");
    assert_eq!(with_extension("/a/session.old", "jsonl"), "/a/session.jsonl");
    let (directory, legacy) = session_locations(None);
    assert_eq!(directory, ".asteria/session");
    assert_eq!(legacy, ".asteria/session.jsonl");
    let store = SessionStore::at("/a/session", SessionState::default());
    assert_eq!(store.paths().context, "/a/session/context.jsonl");
    assert_eq!(store.path(), "/a/session");
}

#[test]
fn clearing_forgets_everything() {
    let mut store = test_store();
    store.append_permission("Read", ToolPermission::Deny);
    store.append_turn(&[user("ok")], 5, &usage(1, 1, 2));
    store.clear();
    assert_eq!(store.state().next_turn_id, 1);
    assert!(store.state().permissions.is_empty());
    assert_eq!(store.state().usage, TokenUsage::default());
}

#[test]
fn older_records_are_not_taken_over_after_clearing() {
    let mut migration = Migration::new();
    migration.migrate_legacy_record(LegacyRecord::Message(user("old")));
    migration.migrate_legacy_record(LegacyRecord::TurnCompleted(4, usage(1, 1, 2)));
    assert!(needs_migration(&migration.state));
    migration.finish();
    assert!(!needs_migration(&migration.state));
    let mut store = SessionStore::at("/a/session", migration.state);
    store.clear();
    assert!(!needs_migration(store.state()));
    assert_eq!(store.state().next_turn_id, 1);
    let mut fresh = SessionStore::at("/a/session", SessionState::default());
    fresh.clear();
    assert!(needs_migration(fresh.state()));
}

#[test]
fn unfinished_turns_stay_out_of_later_ones() {
    let mut store = test_store();
    let mut records = vec![ContextRecord::Message(user("a"))];
    records.extend(store.append_turn(&[user("b"), said("c")], 1, &usage(1, 1, 2)).context);
    let restored = store.restore("system", records).unwrap();
    assert_eq!(restored.context.messages(), &[user("b"), said("c")][..]);
    assert_eq!(restored.next_turn_id, 2);
}

#[test]
fn extensions_are_those_of_the_last_component() {
    assert_eq!(with_extension("s/", "jsonl"), "s.jsonl");
    assert_eq!(with_extension("/a//s/./", "jsonl"), "/a//s.jsonl");
    assert_eq!(with_extension("foo.jsonl/", ""), "foo");
    assert_eq!(with_extension("..", "jsonl"), "..");
    assert_eq!(with_extension("/", "jsonl"), "/");
    assert_eq!(
        session_locations(Some("foo.jsonl/".into())),
        ("foo".to_string(), "foo.jsonl/".to_string())
    );
    assert_eq!(session_locations(Some("s/".into())), ("s/".to_string(), "s.jsonl".to_string()));
}
