//! The conversation's history.
use asteria_agent::context::{ContextError, ContextMemory};
use asteria_agent::message::{Message, ToolCall};

/// 构造测试使用的计算器工具调用。
fn call(id: &str) -> ToolCall {
    ToolCall {
        id: id.into(),
        name: "calculate".into(),
        arguments: "{\"expression\":\"1+1\"}".into(),
    }
}

#[test]
/// 验证重置只删除消息，不删除系统提示词。
fn reset_keeps_system_prompt() {
    let mut context = ContextMemory::new("system");
    context.append_user("hello").unwrap();
    context.reset();
    assert_eq!(context.system_prompt(), "system");
    assert!(context.messages().is_empty());
}

#[test]
/// 运行时更新系统提示词后，后续请求应看到新设定。
fn set_system_prompt_replaces_instructions() {
    let mut context = ContextMemory::new("system");
    context.set_system_prompt("system\nuse search_docs");
    assert_eq!(context.system_prompt(), "system\nuse search_docs");
}

#[test]
/// 验证回滚会准确删除当前轮新增的消息。
fn rollback_removes_the_current_turn() {
    let mut context = ContextMemory::new("system");
    let checkpoint = context.checkpoint();
    context.append_user("temporary").unwrap();
    context.rollback(checkpoint);
    assert!(context.messages().is_empty());
}

#[test]
/// 验证孤立或重复的工具结果会被拒绝。
fn rejects_orphan_and_duplicate_tool_results() {
    let mut context = ContextMemory::new("system");
    assert!(context.append_tool_result("missing", "x", true).is_err());
    context.append_assistant(None, vec![call("a")]).unwrap();
    context.append_tool_result("a", "2", false).unwrap();
    assert!(context.append_tool_result("a", "2", false).is_err());
}

#[test]
/// 验证并行工具调用可以乱序返回，但必须全部完成。
fn parallel_results_match_by_call_id() {
    let mut context = ContextMemory::new("system");
    context
        .append_assistant(None, vec![call("a"), call("b")])
        .unwrap();
    context.append_tool_result("b", "4", false).unwrap();
    assert!(context.validate().is_err());
    context.append_tool_result("a", "2", false).unwrap();
    assert!(context.validate().is_ok());
}

#[test]
/// RAG 证据只在当前 Turn 使用，完成后应只保留问题和最终回答。
fn compacts_search_docs_exchange_after_turn() {
    let mut context = ContextMemory::new("system");
    context.append_user("第14章是什么").unwrap();
    context
        .append_assistant(
            None,
            vec![ToolCall {
                id: "rag-1".into(),
                name: "search_docs".into(),
                arguments: r#"{"query":"第14章是什么"}"#.into(),
            }],
        )
        .unwrap();
    context
        .append_tool_result(
            "rag-1",
            "[资料 1 | guide.docx | 片段 14 | score=100]\n很长的正文",
            false,
        )
        .unwrap();
    context
        .append_assistant(Some("第14章介绍持久化配置。".into()), Vec::new())
        .unwrap();

    let removed = context
        .compact_tool_exchanges_since(0, "search_docs")
        .unwrap();
    assert_eq!(removed.len(), 1);
    assert!(removed[0].contains("很长的正文"));
    assert_eq!(context.messages().len(), 2);
    assert!(matches!(context.messages()[0], Message::User { .. }));
    assert!(matches!(
        context.messages()[1],
        Message::Assistant { ref tool_calls, .. } if tool_calls.is_empty()
    ));
    assert!(context.validate().is_ok());
}

#[test]
/// 删除 RAG 调用时不能破坏同批次中的其他工具调用。
fn compaction_preserves_other_tools_in_mixed_batch() {
    let mut context = ContextMemory::new("system");
    context.append_user("检索并计算").unwrap();
    context
        .append_assistant(
            None,
            vec![
                ToolCall {
                    id: "rag".into(),
                    name: "search_docs".into(),
                    arguments: "{}".into(),
                },
                call("calc"),
            ],
        )
        .unwrap();
    context
        .append_tool_result("rag", "资料正文", false)
        .unwrap();
    context.append_tool_result("calc", "2", false).unwrap();
    context
        .append_assistant(Some("完成".into()), Vec::new())
        .unwrap();

    context
        .compact_tool_exchanges_since(0, "search_docs")
        .unwrap();
    assert_eq!(context.messages().len(), 4);
    assert!(matches!(
        &context.messages()[1],
        Message::Assistant { tool_calls, .. }
            if tool_calls.len() == 1 && tool_calls[0].name == "calculate"
    ));
    assert!(matches!(
        &context.messages()[2],
        Message::Tool { call_id, .. } if call_id == "calc"
    ));
    assert!(context.validate().is_ok());
}

#[test]
fn prefix_compaction_removes_mcp_exchange_only() {
    let mut context = ContextMemory::new("system");
    context.append_user("调用 MCP 并计算").unwrap();
    context
        .append_assistant(
            None,
            vec![
                ToolCall {
                    id: "mcp".into(),
                    name: "mcp__fixture__echo".into(),
                    arguments: "{}".into(),
                },
                call("calc"),
            ],
        )
        .unwrap();
    context
        .append_tool_result("mcp", "远端结果", false)
        .unwrap();
    context.append_tool_result("calc", "2", false).unwrap();
    context
        .append_assistant(Some("完成".into()), Vec::new())
        .unwrap();

    let removed = context
        .compact_tool_exchanges_with_prefix_since(0, "mcp__")
        .unwrap();
    assert_eq!(removed, vec!["远端结果".to_string()]);
    assert!(context.messages().iter().any(|message| {
        matches!(message, Message::Tool { call_id, .. } if call_id == "calc")
    }));
    assert!(context.validate().is_ok());
}

fn user(text: &str) -> Message {
    Message::User { content: text.into() }
}

fn batch(calls: Vec<ToolCall>) -> Message {
    Message::Assistant { content: None, tool_calls: calls }
}

fn result(id: &str) -> Message {
    Message::Tool { call_id: id.into(), content: "2".into(), is_error: false }
}

fn fault(messages: Vec<Message>) -> ContextError {
    match ContextMemory::restore("system", messages) {
        Ok(_) => panic!("the history is in order"),
        Err(error) => error,
    }
}

#[test]
fn every_fault_of_a_history_has_its_error() {
    assert_eq!(
        fault(vec![batch(vec![call("a")]), user("next")]),
        ContextError::ResultsMustFollow
    );
    assert_eq!(
        fault(vec![batch(vec![call("a")]), batch(vec![call("b")])]),
        ContextError::BatchUnfinished
    );
    assert_eq!(fault(vec![batch(vec![call("a"), call("a")])]), ContextError::InvalidCall);
    assert_eq!(fault(vec![batch(vec![call("")])]), ContextError::InvalidCall);
    assert_eq!(fault(vec![result("a")]), ContextError::OrphanResult("a".into()));
    let pending = fault(vec![batch(vec![call("a"), call("b")]), result("a")]);
    assert_eq!(pending, ContextError::Pending(vec!["b".to_string()]));
    assert_eq!(pending.message(), "仍有未完成的工具调用: b");
}

#[test]
fn messages_out_of_place_are_refused() {
    let mut context = ContextMemory::new("system");
    assert_eq!(
        context.append_assistant(None, Vec::new()).unwrap_err(),
        ContextError::EmptyAssistant
    );
    assert_eq!(
        context.append_assistant(Some("  ".into()), Vec::new()).unwrap_err().message(),
        "助手响应既没有正文，也没有工具调用"
    );
    context.append_assistant(None, vec![call("a")]).unwrap();
    assert_eq!(
        context.append_user("next").unwrap_err(),
        ContextError::Pending(vec!["a".to_string()])
    );
    assert_eq!(
        context.append_tool_result("b", "x", false).unwrap_err().message(),
        "工具结果没有匹配的待处理调用: b"
    );
    assert_eq!(context.pending_tool_ids().unwrap(), vec!["a".to_string()]);
    context.append_tool_result("a", "2", false).unwrap();
    assert_eq!(
        context.compact_tool_exchanges_since(99, "calculate").unwrap_err(),
        ContextError::CheckpointOutOfRange
    );
}

#[test]
fn compacting_again_changes_nothing() {
    let mut context = ContextMemory::new("system");
    context.append_user("1+1").unwrap();
    context.append_assistant(None, vec![call("a")]).unwrap();
    context.append_tool_result("a", "2", false).unwrap();
    context.append_assistant(Some("2".into()), Vec::new()).unwrap();
    assert_eq!(
        context.compact_tool_exchanges_since(0, "calculate").unwrap(),
        vec!["2".to_string()]
    );
    let once = context.messages().to_vec();
    assert_eq!(
        context.compact_tool_exchanges_since(0, "calculate").unwrap(),
        Vec::<String>::new()
    );
    assert_eq!(context.messages(), once);
}

#[test]
fn compactions_keep_what_stands_before_and_add_up() {
    let mut context = ContextMemory::new("system");
    for id in ["a", "b"] {
        context.append_user("1+1").unwrap();
        context
            .append_assistant(
                None,
                vec![
                    call(id),
                    ToolCall {
                        id: format!("{id}-rag"),
                        name: "search_docs".into(),
                        arguments: "{}".into(),
                    },
                ],
            )
            .unwrap();
        context.append_tool_result(id, "2", false).unwrap();
        context.append_tool_result(&format!("{id}-rag"), "text", false).unwrap();
        context.append_assistant(Some("2".into()), Vec::new()).unwrap();
    }
    let first = context.messages()[..5].to_vec();
    assert_eq!(context.compact_tool_exchanges_since(5, "search_docs").unwrap().len(), 1);
    assert_eq!(&context.messages()[..5], first.as_slice());
    assert_eq!(context.compact_tool_exchanges_since(5, "calculate").unwrap().len(), 1);
    assert_eq!(&context.messages()[..5], first.as_slice());
    assert_eq!(context.messages().len(), 7);
    assert!(context.validate().is_ok());
}

#[test]
fn compaction_keeps_other_tools_that_reuse_an_identifier() {
    let asked = |name: &str| Message::Assistant {
        content: None,
        tool_calls: vec![ToolCall {
            id: "x".into(),
            name: name.into(),
            arguments: "{}".into(),
        }],
    };
    let answered = |content: &str| Message::Tool {
        call_id: "x".into(),
        content: content.into(),
        is_error: false,
    };
    let m = vec![
        Message::User { content: "q".into() },
        asked("search_docs"),
        answered("doc"),
        asked("calculate"),
        answered("2"),
        Message::Assistant { content: Some("done".into()), tool_calls: Vec::new() },
    ];
    let mut context = match ContextMemory::restore("s", m.clone()) {
        Ok(context) => context,
        Err(error) => panic!("{}", error.message()),
    };
    assert_eq!(
        context.compact_tool_exchanges_since(0, "search_docs").unwrap(),
        vec!["doc".to_string()]
    );
    assert_eq!(
        context.messages(),
        &[m[0].clone(), m[3].clone(), m[4].clone(), m[5].clone()][..]
    );
}
