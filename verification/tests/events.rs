//! Events and the records of tool calls.
use asteria_agent::events::{
    arguments_preview, is_sensitive_key, stable_hash, truncate_chars, AgentEvent, ToolTrace,
    ToolTraceStatus,
};
use asteria_agent::message::ToolCall;

#[test]
/// Trace 参数预览保留普通字段，但必须递归隐藏凭据。
fn tool_trace_redacts_sensitive_arguments() {
    let trace = ToolTrace::completed(
        1,
        2,
        &ToolCall {
            id: "call-1".into(),
            name: "example".into(),
            arguments:
                r#"{"query":"chapter 14","api_key":"secret","nested":{"password":"pw"}}"#.into(),
        },
        "result",
        false,
        12,
    );
    assert!(trace.arguments_preview.contains("chapter 14"));
    assert!(!trace.arguments_preview.contains("secret"));
    assert!(!trace.arguments_preview.contains("\"pw\""));
    assert_eq!(trace.status, ToolTraceStatus::Success);
    assert_eq!(trace.arguments_hash.len(), 16);
    assert_eq!(trace.result_hash.len(), 16);
}

#[test]
/// 非 JSON 参数不能原样进入审计日志。
fn invalid_json_trace_keeps_hash_only() {
    let trace = ToolTrace::completed(
        1,
        1,
        &ToolCall {
            id: "call".into(),
            name: "tool".into(),
            arguments: "secret raw text".into(),
        },
        "result",
        true,
        0,
    );
    assert_eq!(trace.arguments_preview, "<invalid-json; hash-only>");
    assert_eq!(trace.status, ToolTraceStatus::Error);
}

#[test]
fn tool_trace_redacts_file_write_bodies() {
    let trace = ToolTrace::completed(
        1,
        1,
        &ToolCall {
            id: "write".into(),
            name: "Edit".into(),
            arguments:
                r#"{"path":"src/lib.rs","old_string":"private old","new_string":"private new"}"#
                    .into(),
        },
        "ok",
        false,
        1,
    );
    assert!(trace.arguments_preview.contains("src/lib.rs"));
    assert!(!trace.arguments_preview.contains("private"));
}

#[test]
fn assistant_delta_is_volatile() {
    assert!(
        AgentEvent::AssistantDelta {
            turn_id: 1,
            step: 1,
            delta: "hi".into(),
            offset: 0,
        }
        .is_volatile()
    );
    assert!(
        !AgentEvent::TurnCompleted {
            turn_id: 1,
            steps: 1
        }
        .is_volatile()
    );
}

#[test]
fn secrets_are_hidden_at_every_depth() {
    let shown = arguments_preview(r#"{"a":[{"Api-Key":"k1"},{"token":"k2"}],"b":"seen"}"#);
    assert!(!shown.contains("k1"));
    assert!(!shown.contains("k2"));
    assert!(shown.contains("seen"));
    assert!(is_sensitive_key("X-API-KEY"));
    assert!(!is_sensitive_key("path"));
}

#[test]
fn hashes_and_previews_have_exact_forms() {
    assert_eq!(stable_hash(""), "cbf29ce484222325");
    assert_eq!(stable_hash("a"), "af63dc4c8601ec8c");
    assert_eq!(truncate_chars("abcdef", 4), "abc…");
    assert_eq!(truncate_chars("abcd", 4), "abcd");
    assert_eq!(arguments_preview(r#"{ "path" : "a.rs" }"#), r#"{"path":"a.rs"}"#);
}

#[test]
fn records_are_stamped_with_the_time_of_completion() {
    let call = ToolCall { id: "c".into(), name: "t".into(), arguments: "{}".into() };
    let trace = ToolTrace::completed_at(1, 2, &call, "r", false, u128::MAX, "now".into());
    assert_eq!(trace.duration_ms, u64::MAX);
    assert_eq!(trace.completed_at, "now");
    let stamped = ToolTrace::completed(1, 2, &call, "r", false, 3).completed_at;
    assert!(chrono::DateTime::parse_from_rfc3339(&stamped).is_ok());
    assert!(stamped.ends_with("+00:00"));
}
