//! The wire format of the model.
use asteria_agent::context::ContextMemory;
use asteria_agent::context_builder::{
    ContextBuilder, ContextPolicy, HeuristicTokenEstimator, PreparedContext,
};
use asteria_agent::json::{compact, parse, Json};
use asteria_agent::message::ToolCall;
use asteria_agent::provider::deepseek::{project, select_tools, DeepSeekProvider};
use asteria_agent::provider::stream::{AnswerStream, StreamAssembler};
use asteria_agent::provider::turn::TokenUsage;

fn no_tools() -> Json {
    Json::array(Vec::new())
}

fn prepare(context: &ContextMemory) -> PreparedContext {
    ContextBuilder::new(ContextPolicy::default(), HeuristicTokenEstimator)
        .prepare(context, &no_tools())
        .unwrap()
}

fn call(id: &str) -> ToolCall {
    ToolCall {
        id: id.into(),
        name: "calculate".into(),
        arguments: "{\"expression\":\"1+1\"}".into(),
    }
}

#[test]
fn projection_omits_empty_tool_calls() {
    let mut context = ContextMemory::new("system");
    context.append_assistant(Some("done".into()), Vec::new()).unwrap();
    let projected = project(&prepare(&context));
    assert!(projected[1].get("tool_calls").is_none());
}

#[test]
fn projection_preserves_tool_exchange() {
    let mut context = ContextMemory::new("system");
    context.append_assistant(None, vec![call("a")]).unwrap();
    context.append_tool_result("a", "2", false).unwrap();
    let projected = project(&prepare(&context));
    let calls = projected[1].get("tool_calls").unwrap().as_array().unwrap();
    assert_eq!(calls[0].text_at("id"), Some("a"));
    assert_eq!(projected[2].text_at("tool_call_id"), Some("a"));
}

#[test]
fn projection_includes_compaction_summary() {
    let mut context = ContextMemory::new("system");
    context.append_user("old question").unwrap();
    context.append_assistant(Some("old answer".into()), Vec::new()).unwrap();
    context.append_user("new question").unwrap();
    context.append_assistant(Some("new answer".into()), Vec::new()).unwrap();
    let prepared = ContextBuilder::new(
        ContextPolicy {
            max_context_tokens: 100,
            reserved_output_tokens: 10,
            compact_at_tokens: 20,
            recent_turns_to_keep: 1,
        },
        HeuristicTokenEstimator,
    )
    .prepare(&context, &no_tools())
    .unwrap();
    let projected = project(&prepared);
    assert!(prepared.summary().is_some());
    assert_eq!(projected[1].text_at("role"), Some("user"));
    assert!(projected[1].text_at("content").unwrap().contains("历史摘要"));
}

#[test]
fn explicit_tool_request_sends_only_named_tool_as_required() {
    let mut context = ContextMemory::new("system");
    context.append_user("调用 mcp__fixture__echo，参数 text 为 MCP-RECONNECT-002").unwrap();
    let tools = parse(
        r#"[
        {"type":"function","function":{"name":"calculate","parameters":{"type":"object"}}},
        {"type":"function","function":{"name":"mcp__fixture__echo","parameters":{"type":"object"}}}
    ]"#,
    )
    .unwrap();
    let prepared = ContextBuilder::new(ContextPolicy::default(), HeuristicTokenEstimator)
        .prepare(&context, &tools)
        .unwrap();
    let (selected, choice) = select_tools(&prepared, &tools);
    assert_eq!(choice, Json::text("required"));
    let selected = selected.as_array().unwrap();
    assert_eq!(selected.len(), 1);
    assert_eq!(
        selected[0].get("function").unwrap().text_at("name"),
        Some("mcp__fixture__echo")
    );
}

#[test]
fn stream_assembler_merges_content_and_tool_calls() {
    let mut assembler = StreamAssembler::default();
    let mut seen = String::new();
    for line in [
        r#"data: {"choices":[{"delta":{"content":"你好"}}]}"#,
        r#"data: {"choices":[{"delta":{"content":"世界"}}]}"#,
        r#"data: {"choices":[{"delta":{"tool_calls":[{"index":0,"id":"c1","function":{"name":"Read","arguments":""}}]}}]}"#,
        r#"data: {"choices":[{"delta":{"tool_calls":[{"index":0,"function":{"arguments":"{\"path\":\"a.rs\"}"}}]}}]}"#,
        r#"data: {"choices":[],"usage":{"prompt_tokens":3,"completion_tokens":2,"total_tokens":5}}"#,
    ] {
        let outcome = assembler.ingest_line(line).unwrap();
        assert!(!outcome.done);
        seen.push_str(&outcome.delta);
    }
    assert!(assembler.ingest_line("data: [DONE]").unwrap().done);
    let turn = assembler.finish();
    assert_eq!(turn.content.as_deref(), Some("你好世界"));
    assert_eq!(seen, "你好世界");
    assert_eq!(turn.tool_calls.len(), 1);
    assert_eq!(turn.tool_calls[0].id, "c1");
    assert_eq!(turn.tool_calls[0].name, "Read");
    assert_eq!(turn.tool_calls[0].arguments, r#"{"path":"a.rs"}"#);
    assert_eq!(
        turn.usage,
        Some(TokenUsage { prompt_tokens: 3, completion_tokens: 2, total_tokens: 5 })
    );
}

#[test]
fn pieces_of_a_stream_may_break_anywhere() {
    let text = "data: {\"choices\":[{\"delta\":{\"content\":\"ab\"}}]}\n\n\
                data: {\"choices\":[{\"delta\":{\"content\":\"cd\"}}]}\ndata: [DONE]\nrest";
    let mut whole = AnswerStream::new();
    whole.feed_text(text);
    let mut parts = AnswerStream::new();
    for byte in text.as_bytes() {
        parts.feed(&[*byte]);
    }
    assert!(whole.is_over());
    assert!(parts.is_over());
    assert_eq!(whole.take_deltas(), vec!["ab".to_string(), "cd".to_string()]);
    assert_eq!(parts.take_deltas(), vec!["ab".to_string(), "cd".to_string()]);
    let (turn, left) = whole.finish().unwrap();
    assert_eq!(turn.content.as_deref(), Some("abcd"));
    assert!(left.is_empty());
}

#[test]
fn broken_parts_fail_the_stream() {
    let mut stream = AnswerStream::new();
    stream.feed_text("data: {broken\n");
    assert!(stream.is_over());
    match stream.finish() {
        Err(message) => assert!(message.starts_with("无法解析 DeepSeek 流式分片: ")),
        Ok(_) => panic!("a part that is no JSON"),
    }
    let mut open = AnswerStream::new();
    open.feed_text("data: {\"choices\":[{\"delta\":{\"content\":\"end\"}}]}");
    assert!(!open.is_over());
    let (turn, deltas) = open.finish().unwrap();
    assert_eq!(turn.content.as_deref(), Some("end"));
    assert_eq!(deltas, vec!["end".to_string()]);
}

#[test]
fn requests_name_the_model_and_the_conversation() {
    let mut context = ContextMemory::new("system");
    context.append_user("hi").unwrap();
    let provider = DeepSeekProvider::new("key".into(), None);
    let body = provider.body(&prepare(&context), &no_tools());
    assert_eq!(body.text_at("model"), Some("deepseek-v4-flash"));
    assert_eq!(body.bool_at("stream"), Some(true));
    assert_eq!(body.get("messages").unwrap().as_array().unwrap().len(), 2);
    assert!(!compact(&body).contains("key"));
    let named = DeepSeekProvider::new("key".into(), Some("other".into()));
    assert_eq!(named.body(&prepare(&context), &no_tools()).text_at("model"), Some("other"));
}

#[test]
fn usage_adds_up_without_overflow() {
    let used = TokenUsage { prompt_tokens: 1, completion_tokens: usize::MAX, total_tokens: 3 };
    let sum = used.sum(&used);
    assert_eq!(sum.prompt_tokens, 2);
    assert_eq!(sum.completion_tokens, usize::MAX);
    assert_eq!(sum.total_tokens, 6);
}

#[test]
fn calls_come_in_the_order_of_their_numbers() {
    let mut assembler = StreamAssembler::default();
    for line in [
        r#"data: {"choices":[{"delta":{"tool_calls":[{"index":1,"id":"b","function":{"name":"Gl"}}]}}]}"#,
        r#"data: {"choices":[{"delta":{"tool_calls":[{"index":0,"id":"a","function":{"name":"Read"}}]}}]}"#,
        r#"data: {"choices":[{"delta":{"tool_calls":[{"index":1,"function":{"name":"ob"}}]}}]}"#,
    ] {
        assembler.ingest_line(line).unwrap();
    }
    assert!(!assembler.ingest_line(": comment").unwrap().done);
    let turn = assembler.finish();
    let names: Vec<&str> = turn.tool_calls.iter().map(|call| call.name.as_str()).collect();
    assert_eq!(names, vec!["Read", "Glob"]);
    assert_eq!(turn.content, None);
}
