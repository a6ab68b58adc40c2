//! What is sent to the model.
use asteria_agent::context::ContextMemory;
use asteria_agent::context_builder::{ContextBuilder, ContextPolicy, PrepareError, TokenEstimator};
use asteria_agent::json::{parse, Json};
use asteria_agent::message::{Message, ToolCall};

fn no_tools() -> Json {
    Json::array(Vec::new())
}

/// 使用字符数作为 Token 数，让预算测试具有完全确定的结果。
struct CharacterEstimator;

impl TokenEstimator for CharacterEstimator {
    /// 返回 Unicode 字符数量作为测试 Token 数。
    fn estimate_text(&self, text: &str) -> usize {
        text.chars().count()
    }
}

/// 创建使用小窗口的测试构建器，方便触发上下文整理。
fn builder(compact_at_tokens: usize) -> ContextBuilder<CharacterEstimator> {
    ContextBuilder::new(
        ContextPolicy {
            max_context_tokens: 100,
            reserved_output_tokens: 10,
            compact_at_tokens,
            recent_turns_to_keep: 20,
        },
        CharacterEstimator,
    )
}

/// 向上下文添加一个不包含工具调用的完整 Turn。
fn append_turn(memory: &mut ContextMemory, user: &str, assistant: &str) {
    memory.append_user(user).unwrap();
    memory
        .append_assistant(Some(assistant.into()), Vec::new())
        .unwrap();
}

#[test]
/// 验证预算充足时不会裁剪任何历史。
fn keeps_all_messages_when_under_budget() {
    let mut memory = ContextMemory::new("s");
    append_turn(&mut memory, "one", "first");
    let prepared = builder(80).prepare(&memory, &no_tools()).unwrap();
    assert_eq!(prepared.messages(), memory.messages());
    assert!(!prepared.truncated());
}

#[test]
/// 验证超过软阈值时只保留最近的完整 Turn。
fn drops_old_turns_when_over_budget() {
    let mut memory = ContextMemory::new("s");
    append_turn(&mut memory, "old-user", "old-assistant");
    append_turn(&mut memory, "new-user", "new-assistant");
    let prepared = builder(35).prepare(&memory, &no_tools()).unwrap();
    assert!(prepared.truncated());
    assert_eq!(prepared.messages(), &memory.messages()[2..]);
    assert!(prepared.summary().is_some());
}

#[test]
/// 验证工具调用和结果在预算裁剪后仍作为同一个 Turn 保留。
fn keeps_tool_call_and_result_together() {
    let mut memory = ContextMemory::new("s");
    append_turn(&mut memory, "old-user", "old-assistant");
    memory.append_user("calculate").unwrap();
    memory
        .append_assistant(
            None,
            vec![ToolCall {
                id: "a".into(),
                name: "calculate".into(),
                arguments: "{}".into(),
            }],
        )
        .unwrap();
    memory.append_tool_result("a", "2", false).unwrap();
    let prepared = builder(40).prepare(&memory, &no_tools()).unwrap();
    assert!(matches!(prepared.messages()[1], Message::Assistant { .. }));
    assert!(matches!(prepared.messages()[2], Message::Tool { .. }));
}

#[test]
/// 验证构建预算视图不会删除 ContextMemory 中的原始消息。
fn does_not_mutate_raw_memory() {
    let mut memory = ContextMemory::new("s");
    append_turn(&mut memory, "old-user", "old-assistant");
    append_turn(&mut memory, "new-user", "new-assistant");
    let original = memory.messages().to_vec();
    let _ = builder(35).prepare(&memory, &no_tools()).unwrap();
    assert_eq!(memory.messages(), original);
}

#[test]
/// 验证当前 Turn 自身超过硬上限时返回明确错误。
fn rejects_current_turn_over_hard_limit() {
    let mut memory = ContextMemory::new("s");
    append_turn(&mut memory, &"x".repeat(90), "answer");
    assert!(builder(30).prepare(&memory, &no_tools()).is_err());
}

#[test]
/// 验证无效的窗口与输出预留配置会被拒绝。
fn rejects_invalid_policy() {
    let policy = ContextPolicy {
        max_context_tokens: 10,
        reserved_output_tokens: 10,
        compact_at_tokens: 5,
        recent_turns_to_keep: 1,
    };
    assert!(policy.hard_input_limit().is_err());
}

#[test]
/// 验证估算值刚好等于软阈值时不会误触发裁剪。
fn keeps_context_exactly_at_soft_limit() {
    let mut memory = ContextMemory::new("s");
    append_turn(&mut memory, "a", "b");
    let prepared = builder(13).prepare(&memory, &no_tools()).unwrap();
    assert_eq!(prepared.estimated_tokens(), 13);
    assert!(!prepared.truncated());
    assert_eq!(prepared.messages(), memory.messages());
}

#[test]
/// 验证工具 Schema 也计入预算，并能单独触发旧 Turn 裁剪。
fn counts_tool_schema_when_selecting_history() {
    let mut memory = ContextMemory::new("s");
    append_turn(&mut memory, "a", "b");
    append_turn(&mut memory, "c", "d");
    let context_builder = builder(30);
    let without_large_tools = context_builder.prepare(&memory, &no_tools()).unwrap();
    let with_large_tools = context_builder
        .prepare(
            &memory,
            &parse(r#"[{"name": "large", "description": "xxxxxxxxxxxxxxxxxxxx"}]"#).unwrap(),
        )
        .unwrap();
    assert!(!without_large_tools.truncated());
    assert!(with_large_tools.truncated());
    assert_eq!(with_large_tools.messages(), &memory.messages()[2..]);
}

#[test]
/// 验证触发整理后，即使预算仍有空间也遵守最近 Turn 数量上限。
fn respects_recent_turn_count_limit_after_compaction() {
    let mut memory = ContextMemory::new("s");
    append_turn(&mut memory, "a", "1");
    append_turn(&mut memory, "b", "2");
    append_turn(&mut memory, "c", "3");
    append_turn(&mut memory, "d", "4");
    let context_builder = ContextBuilder::new(
        ContextPolicy {
            max_context_tokens: 100,
            reserved_output_tokens: 10,
            compact_at_tokens: 25,
            recent_turns_to_keep: 2,
        },
        CharacterEstimator,
    );
    let prepared = context_builder.prepare(&memory, &no_tools()).unwrap();
    assert!(prepared.truncated());
    assert_eq!(prepared.messages(), &memory.messages()[4..]);
}

#[test]
/// 验证当前 Turn 可超过软阈值，只要仍未超过硬输入上限。
fn keeps_current_turn_above_soft_limit() {
    let mut memory = ContextMemory::new("s");
    append_turn(&mut memory, &"x".repeat(30), &"y".repeat(10));
    let prepared = builder(20).prepare(&memory, &no_tools()).unwrap();
    assert!(prepared.estimated_tokens() > 20);
    assert!(!prepared.truncated());
    assert_eq!(prepared.messages(), memory.messages());
}

#[test]
/// 验证明确数学请求触发代码级 calculate 强制策略。
fn detects_calculation_request() {
    let mut memory = ContextMemory::new("system");
    memory.append_user("计算 1+1").unwrap();
    let prepared = ContextBuilder::new(ContextPolicy::default(), CharacterEstimator)
        .prepare(&memory, &no_tools())
        .unwrap();
    assert!(prepared.force_calculation());
}

#[test]
fn forces_explicitly_named_registered_tool() {
    let mut memory = ContextMemory::new("system");
    memory
        .append_user("必须调用 mcp__fixture__echo，参数 text 为 ASTERIA-MCP-001，并告诉我结果")
        .unwrap();
    let tools = parse(r#"[
        {"type":"function","function":{"name":"calculate","parameters":{"type":"object"}}},
        {"type":"function","function":{"name":"mcp__fixture__echo","parameters":{"type":"object"}}}
    ]"#).unwrap();
    let prepared = ContextBuilder::new(ContextPolicy::default(), CharacterEstimator)
        .prepare(&memory, &tools)
        .unwrap();
    assert_eq!(prepared.forced_tool_name(), Some("mcp__fixture__echo"));
    assert!(!prepared.force_calculation());
    assert!(!prepared.force_search_docs());
}

#[test]
fn forces_named_tool_for_direct_chinese_call_command() {
    let mut memory = ContextMemory::new("system");
    memory
        .append_user("调用 mcp__fixture__echo，参数 text 为 MCP-RECONNECT-002")
        .unwrap();
    let tools = parse(r#"[
        {"type":"function","function":{"name":"mcp__fixture__echo","parameters":{"type":"object"}}}
    ]"#).unwrap();
    let prepared = ContextBuilder::new(ContextPolicy::default(), CharacterEstimator)
        .prepare(&memory, &tools)
        .unwrap();
    assert_eq!(prepared.forced_tool_name(), Some("mcp__fixture__echo"));
}

#[test]
fn does_not_force_unregistered_named_tool() {
    let mut memory = ContextMemory::new("system");
    memory.append_user("必须调用 missing_tool").unwrap();
    let prepared = ContextBuilder::new(ContextPolicy::default(), CharacterEstimator)
        .prepare(&memory, &no_tools())
        .unwrap();
    assert_eq!(prepared.forced_tool_name(), None);
}

#[test]
/// 普通对话即使包含数字也不应被错误强制调用计算工具。
fn does_not_force_calculation_for_normal_chat() {
    let mut memory = ContextMemory::new("system");
    memory.append_user("我有 1 个问题，今天心情很好").unwrap();
    let prepared = ContextBuilder::new(ContextPolicy::default(), CharacterEstimator)
        .prepare(&memory, &no_tools())
        .unwrap();
    assert!(!prepared.force_calculation());
}

#[test]
/// 裸算式没有“计算”关键词，也必须触发 calculate。
fn forces_bare_arithmetic_expression() {
    let mut memory = ContextMemory::new("system");
    memory.append_user("1+1").unwrap();
    let prepared = ContextBuilder::new(ContextPolicy::default(), CharacterEstimator)
        .prepare(&memory, &no_tools())
        .unwrap();
    assert!(prepared.force_calculation());
}

#[test]
/// 打印包含算式的文字时，必须保留文本任务语义，不能误调用 calculate。
fn does_not_calculate_quoted_text() {
    let mut memory = ContextMemory::new("system");
    memory.append_user("帮我打印一行文字‘计算1+1’").unwrap();
    let prepared = ContextBuilder::new(ContextPolicy::default(), CharacterEstimator)
        .prepare(&memory, &no_tools())
        .unwrap();
    assert!(!prepared.force_calculation());
}

#[test]
/// 旧版把资料塞进用户消息的片段不能继续发给模型，章节问题要强制检索。
fn unwraps_stale_rag_prompt_and_forces_search_docs() {
    let mut memory = ContextMemory::new("s");
    memory
        .append_user(
            "请只根据下面的本地资料回答问题；资料不足时明确说不知道。\n\n本地资料：\n[资料 1]\nPAGEREF toc\n\n问题：这篇文档主要讲什么？",
        )
        .unwrap();
    memory
        .append_assistant(Some("只有目录".into()), Vec::new())
        .unwrap();
    memory.append_user("第14章节写的什么内容").unwrap();
    let prepared = ContextBuilder::new(ContextPolicy::default(), CharacterEstimator)
        .prepare(&memory, &no_tools())
        .unwrap();
    assert!(prepared.force_search_docs());
    assert!(!prepared.force_calculation());
    let Message::User { content } = &prepared.messages()[0] else {
        panic!("expected user message");
    };
    assert_eq!(content, "这篇文档主要讲什么？");
    assert!(!content.contains("PAGEREF"));
    let Message::User { content } = prepared.messages().last().unwrap() else {
        panic!("expected user message");
    };
    assert_eq!(content, "第14章节写的什么内容");
}

#[test]
fn troubleshooting_manual_question_forces_fresh_search() {
    let mut memory = ContextMemory::new("s");
    memory
        .append_user("查看 trouble shooting 文档，LT 反复重启时如何 debug？")
        .unwrap();
    let prepared = ContextBuilder::new(ContextPolicy::default(), CharacterEstimator)
        .prepare(&memory, &no_tools())
        .unwrap();
    assert!(prepared.force_search_docs());
    assert!(!prepared.force_calculation());
}

#[test]
/// 当前 Turn 的检索结果必须保留到模型生成最终回答，且不能再次强制检索。
fn keeps_current_turn_search_result_for_answer_step() {
    let mut memory = ContextMemory::new("s");
    memory.append_user("第14章节写的什么内容").unwrap();
    memory
        .append_assistant(
            None,
            vec![ToolCall {
                id: "rag-1".into(),
                name: "search_docs".into(),
                arguments: r#"{"query":"第14章节写的什么内容"}"#.into(),
            }],
        )
        .unwrap();
    memory
        .append_tool_result("rag-1", "第14章正文", false)
        .unwrap();

    let prepared = ContextBuilder::new(ContextPolicy::default(), CharacterEstimator)
        .prepare(&memory, &no_tools())
        .unwrap();
    assert_eq!(prepared.messages(), memory.messages());
    assert!(!prepared.force_search_docs());
    assert!(matches!(
        prepared.messages().last(),
        Some(Message::Tool { content, .. }) if content == "第14章正文"
    ));
}

#[test]
fn every_refusal_has_its_error() {
    let mut memory = ContextMemory::new("s");
    append_turn(&mut memory, "question", "answer");
    let with = |max: usize, reserved: usize, compact: usize| {
        ContextBuilder::new(
            ContextPolicy {
                max_context_tokens: max,
                reserved_output_tokens: reserved,
                compact_at_tokens: compact,
                recent_turns_to_keep: 1,
            },
            CharacterEstimator,
        )
    };
    let fault = |result: Result<_, PrepareError>| match result {
        Ok(_) => panic!("prepared"),
        Err(error) => error.message(),
    };
    assert_eq!(
        fault(with(10, 10, 5).prepare(&memory, &no_tools())),
        "上下文窗口必须大于输出预留 Token"
    );
    assert_eq!(fault(with(100, 10, 0).prepare(&memory, &no_tools())), "上下文整理阈值必须大于 0");
    assert_eq!(
        fault(with(12, 10, 5).prepare(&memory, &no_tools())),
        "系统提示和工具定义已经超过上下文输入上限"
    );
    assert_eq!(
        fault(with(20, 10, 5).prepare(&memory, &no_tools())),
        "系统提示、工具定义和当前 Turn 已超过上下文输入上限"
    );
    memory.append_user("calculate").unwrap();
    memory
        .append_assistant(
            None,
            vec![ToolCall { id: "a".into(), name: "calculate".into(), arguments: "{}".into() }],
        )
        .unwrap();
    assert_eq!(
        fault(with(100, 10, 50).prepare(&memory, &no_tools())),
        "仍有未完成的工具调用: a"
    );
}

#[test]
fn what_is_prepared_fits_the_window() {
    let mut memory = ContextMemory::new("s");
    for i in 0..30 {
        append_turn(&mut memory, &format!("question {i}"), &"x".repeat(i + 1));
    }
    let prepared = builder(40).prepare(&memory, &no_tools()).unwrap();
    assert!(prepared.truncated());
    assert!(prepared.estimated_tokens() <= 90);
    assert!(matches!(prepared.messages()[0], Message::User { .. }));
    assert_eq!(prepared.messages().last(), memory.messages().last());
}
