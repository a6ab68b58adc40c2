//! Turns of the loop, driven with replies that were written beforehand.
use asteria_agent::agent_loop::{AgentLoop, LoopAction, LoopConfig, LoopEvent, TurnState};
use asteria_agent::context::ContextMemory;
use asteria_agent::message::{Message, ToolCall};
use asteria_agent::provider::deepseek::DeepSeekProvider;
use asteria_agent::provider::turn::{AssistantTurn, TokenUsage};
use asteria_agent::retry::{Duration, RetryPolicy};
use asteria_agent::tools::builtin::CalculateTool;
use asteria_agent::tools::output::ToolOutput;
use asteria_agent::tools::registry::{CallPlan, ToolRegistry};

type Loop = AgentLoop<DeepSeekProvider>;

fn engine(config: LoopConfig) -> Loop {
    AgentLoop::new(DeepSeekProvider::new("key".into(), Some("scripted".into())), config)
}

/// A reply, a lost connection, or a cancellation while the reply is awaited.
enum Step {
    Reply(AssistantTurn),
    Lost,
    CancelledRequest,
    CancelledReply(AssistantTurn),
}

fn run_tool(registry: &ToolRegistry, call: &ToolCall) -> ToolOutput {
    match registry.plan_call(&call.name, &call.arguments) {
        CallPlan::Reject(output) => output,
        CallPlan::Ask => registry.refused(&call.name),
        CallPlan::Run => registry.finished(CalculateTool.execute(&call.arguments)),
    }
}

/// Runs a turn to its end; `cancel_wait` cancels the first wait.
fn run(
    engine: &mut Loop,
    context: &mut ContextMemory,
    input: &str,
    cancelled: bool,
    script: Vec<Step>,
    cancel_wait: bool,
) -> (Result<String, String>, Vec<Vec<Message>>) {
    let mut steps = script.into_iter();
    let mut seen = Vec::new();
    let mut action = engine.start_turn(context, input, cancelled);
    loop {
        action = match action {
            LoopAction::Ask => {
                seen.push(engine.prepared().unwrap().messages().to_vec());
                match steps.next().expect("unexpected attempt") {
                    Step::Reply(turn) => engine.advance(context, LoopEvent::Reply(turn), false),
                    Step::Lost => engine.advance(
                        context,
                        LoopEvent::RequestFailed("connection reset".into(), true),
                        false,
                    ),
                    Step::CancelledRequest => {
                        engine.advance(context, LoopEvent::RequestCancelled, true)
                    }
                    Step::CancelledReply(turn) => {
                        engine.advance(context, LoopEvent::Reply(turn), true)
                    }
                }
            }
            LoopAction::Wait(_, _) => engine.advance(context, LoopEvent::Waited, cancel_wait),
            LoopAction::RunTool(call) => {
                let output = run_tool(engine.registry(), &call);
                engine.advance(context, LoopEvent::ToolDone(output), false)
            }
            LoopAction::Finished(answer) => return (Ok(answer), seen),
            LoopAction::Stopped(reason) => return (Err(reason), seen),
            LoopAction::Nothing => panic!("the outcome was not waited for"),
        };
    }
}

fn answer(content: &str) -> AssistantTurn {
    AssistantTurn { content: Some(content.into()), tool_calls: Vec::new(), usage: None }
}

fn used(mut turn: AssistantTurn, prompt: usize, completion: usize, total: usize) -> AssistantTurn {
    turn.usage = Some(TokenUsage {
        prompt_tokens: prompt,
        completion_tokens: completion,
        total_tokens: total,
    });
    turn
}

fn calculate_call(id: &str) -> AssistantTurn {
    AssistantTurn {
        content: None,
        tool_calls: vec![ToolCall {
            id: id.into(),
            name: "calculate".into(),
            arguments: "{\"expression\":\"1+1\"}".into(),
        }],
        usage: None,
    }
}

#[test]
fn completes_plain_turn_in_one_step() {
    let mut agent_loop = engine(LoopConfig::default());
    let mut context = ContextMemory::new("system");
    let script = vec![Step::Reply(answer("hello"))];
    let (result, _) = run(&mut agent_loop, &mut context, "hi", false, script, false);
    assert_eq!(result.unwrap(), "hello");
    let report = agent_loop.last_turn().unwrap();
    assert_eq!(report.steps, 1);
    assert_eq!(report.state, TurnState::Completed);
    assert_eq!(agent_loop.model(), "scripted");
}

#[test]
fn executes_tool_between_two_steps() {
    let mut agent_loop = engine(LoopConfig::default());
    let mut context = ContextMemory::new("system");
    let script = vec![Step::Reply(calculate_call("a")), Step::Reply(answer("2"))];
    let (result, _) = run(&mut agent_loop, &mut context, "1+1", false, script, false);
    result.unwrap();
    let report = agent_loop.last_turn().unwrap();
    assert_eq!(report.steps, 2);
    assert_eq!(
        report.state_history,
        vec![
            TurnState::Running,
            TurnState::WaitingForTools,
            TurnState::Running,
            TurnState::Completed
        ]
    );
    assert!(context.messages().iter().any(|message| {
        matches!(message, Message::Tool { content, is_error: false, .. } if content == "2")
    }));
}

#[test]
fn rolls_back_when_step_limit_is_reached() {
    let mut agent_loop = engine(LoopConfig { max_steps_per_turn: 1 });
    let mut context = ContextMemory::new("system");
    let script = vec![Step::Reply(calculate_call("a"))];
    let (result, _) = run(&mut agent_loop, &mut context, "keep calling", false, script, false);
    assert!(result.is_err());
    assert!(context.messages().is_empty());
    assert_eq!(agent_loop.last_turn().unwrap().state, TurnState::Failed);
}

#[test]
fn cancellation_rolls_back_turn() {
    let mut agent_loop = engine(LoopConfig::default());
    let mut context = ContextMemory::new("system");
    let (result, _) = run(&mut agent_loop, &mut context, "hi", true, Vec::new(), false);
    assert!(result.is_err());
    assert!(context.messages().is_empty());
    assert_eq!(agent_loop.last_turn().unwrap().state, TurnState::Cancelled);
}

#[test]
fn assigns_unique_turn_ids() {
    let mut agent_loop = engine(LoopConfig::default());
    let mut context = ContextMemory::new("system");
    let one = vec![Step::Reply(answer("one"))];
    run(&mut agent_loop, &mut context, "first", false, one, false).0.unwrap();
    let first_id = agent_loop.last_turn().unwrap().id;
    let two = vec![Step::Reply(answer("two"))];
    run(&mut agent_loop, &mut context, "second", false, two, false).0.unwrap();
    assert_eq!(agent_loop.last_turn().unwrap().id, first_id + 1);
}

#[test]
fn accumulates_session_usage_across_turns() {
    let mut agent_loop = engine(LoopConfig::default());
    let mut context = ContextMemory::new("system");
    let one = vec![Step::Reply(used(answer("one"), 10, 2, 12))];
    run(&mut agent_loop, &mut context, "first", false, one, false).0.unwrap();
    assert_eq!(agent_loop.last_turn().unwrap().usage.total_tokens, 12);
    let two = vec![Step::Reply(used(answer("two"), 20, 3, 23))];
    run(&mut agent_loop, &mut context, "second", false, two, false).0.unwrap();
    assert_eq!(agent_loop.last_turn().unwrap().usage.total_tokens, 23);
    assert_eq!(agent_loop.session_usage().total_tokens, 35);
}

#[test]
fn retries_preserve_step_context_and_usage() {
    for succeed in [true, false] {
        let mut engine = engine(LoopConfig::default());
        engine
            .set_retry_policy(RetryPolicy {
                base_delay: Duration::from_millis(0),
                ..Default::default()
            })
            .unwrap();
        let mut memory = ContextMemory::new("system");
        let last = if succeed {
            Step::Reply(used(answer("done"), 10, 2, 12))
        } else {
            Step::Lost
        };
        let script = vec![Step::Lost, Step::Lost, last];
        let (result, seen) = run(&mut engine, &mut memory, "hi", false, script, false);
        assert_eq!(result.is_ok(), succeed);
        assert_eq!(seen.len(), 3);
        assert_eq!(engine.last_turn().unwrap().steps, 1);
        assert_eq!(engine.last_turn().unwrap().retries, 2);
        assert_eq!(memory.messages().len(), if succeed { 2 } else { 0 });
        assert_eq!(engine.session_usage().total_tokens, if succeed { 12 } else { 0 });
    }
}

fn check_interrupt(retry: bool) {
    let mut engine = engine(LoopConfig::default());
    engine
        .set_retry_policy(RetryPolicy {
            base_delay: Duration::from_secs(8),
            ..Default::default()
        })
        .unwrap();
    let mut memory = ContextMemory::new("system");
    memory.append_user("旧问题").unwrap();
    memory.append_assistant(Some("旧回答".into()), vec![]).unwrap();
    let original = memory.messages().to_vec();
    let second = if retry { Step::Lost } else { Step::CancelledRequest };
    let script =
        vec![Step::Reply(used(calculate_call("completed-tool"), 10, 2, 12)), second];
    let (result, seen) = run(&mut engine, &mut memory, "计算", false, script, true);
    assert!(result.is_err());
    let report = engine.last_turn().unwrap();
    assert_eq!(report.state, TurnState::Cancelled);
    assert_eq!(report.steps, 2);
    assert_eq!(report.retries, usize::from(retry));
    assert_eq!(report.usage.total_tokens, 12);
    assert_eq!(engine.session_usage().total_tokens, 12);
    assert_eq!(seen.len(), 2);
    assert_eq!(memory.messages(), original);
    let script = vec![Step::Reply(answer("下一轮正常"))];
    let (next, _) = run(&mut engine, &mut memory, "继续", false, script, false);
    assert_eq!(next.unwrap(), "下一轮正常");
    assert_eq!(engine.last_turn().unwrap().state, TurnState::Completed);
    assert_eq!(engine.last_turn().unwrap().id, 2);
    assert_eq!(engine.session_usage().total_tokens, 12);
    assert_eq!(memory.messages().len(), original.len() + 2);
}

#[test]
fn cancels_pending_request_and_resumes() {
    check_interrupt(false);
}

#[test]
fn cancels_backoff_and_resumes() {
    check_interrupt(true);
}

#[test]
fn cancellation_keeps_ready_response_usage() {
    let mut engine = engine(LoopConfig::default());
    let mut memory = ContextMemory::new("system");
    let script = vec![Step::CancelledReply(used(answer("不应写入历史"), 10, 2, 12))];
    let (result, _) = run(&mut engine, &mut memory, "hi", false, script, false);
    assert!(result.is_err());
    assert_eq!(engine.last_turn().unwrap().state, TurnState::Cancelled);
    assert_eq!(engine.session_usage().total_tokens, 12);
    assert!(memory.messages().is_empty());
}

fn bad_tool() -> Step {
    let turn = AssistantTurn {
        content: None,
        tool_calls: vec![ToolCall {
            id: "bad-1".into(),
            name: "calculate".into(),
            arguments: "{}".into(),
        }],
        usage: None,
    };
    Step::Reply(used(turn, 10, 2, 12))
}

fn run_case(script: Vec<Step>, success: bool, tool_error_visible: bool, tokens: usize) {
    let expected_attempts = script.len();
    let mut engine = engine(LoopConfig::default());
    engine
        .set_retry_policy(RetryPolicy {
            base_delay: Duration::from_millis(0),
            ..Default::default()
        })
        .unwrap();
    let mut memory = ContextMemory::new("system");
    memory.append_user("旧问题").unwrap();
    memory.append_assistant(Some("旧回答".into()), vec![]).unwrap();
    let before = memory.messages().to_vec();
    let (result, seen) = run(&mut engine, &mut memory, "计算测试", false, script, false);
    assert_eq!(result.is_ok(), success);
    assert_eq!(seen.len(), expected_attempts);
    for (index, messages) in seen.iter().enumerate() {
        assert_eq!(&messages[..2], before.as_slice());
        let errors: Vec<_> = messages
            .iter()
            .filter(|m| matches!(m, Message::Tool { is_error: true, .. }))
            .collect();
        assert_eq!(errors.len(), usize::from(tool_error_visible && index > 0));
        if let Some(Message::Tool { call_id, content, .. }) = errors.first().copied() {
            assert_eq!(call_id, "bad-1");
            assert_eq!(content, "工具执行失败: 缺少 expression 参数");
        }
        if index > usize::from(tool_error_visible) {
            assert_eq!(messages, &seen[index - 1]);
        }
    }
    if !success {
        assert_eq!(memory.messages(), before);
    } else {
        assert_eq!(memory.messages().len(), 6);
        memory.validate().unwrap();
    }
    let report = engine.last_turn().unwrap();
    assert_eq!(
        report.state,
        if success { TurnState::Completed } else { TurnState::Failed }
    );
    assert_eq!(report.retries, if success { 0 } else { 2 });
    assert_eq!(report.usage.total_tokens, tokens);
    assert_eq!(engine.session_usage().total_tokens, tokens);
}

#[test]
fn connection_errors_are_not_messages() {
    run_case(vec![Step::Lost, Step::Lost, Step::Lost], false, false, 0);
}

#[test]
fn tool_error_is_visible_to_model() {
    run_case(
        vec![bad_tool(), Step::Reply(answer("缺少 expression 参数，请补充"))],
        true,
        true,
        12,
    );
}

#[test]
fn rollback_removes_tool_error_but_keeps_usage() {
    run_case(vec![bad_tool(), Step::Lost, Step::Lost, Step::Lost], false, true, 12);
}

#[test]
fn waits_are_announced_and_bounded() {
    let mut engine = engine(LoopConfig::default());
    let mut memory = ContextMemory::new("system");
    assert!(matches!(engine.start_turn(&mut memory, "hi", false), LoopAction::Ask));
    let lost = LoopEvent::RequestFailed("reset".into(), true);
    match engine.advance(&mut memory, lost, false) {
        LoopAction::Wait(delay, notice) => {
            assert_eq!(delay, Duration::from_millis(500));
            assert_eq!(notice, "[Retry] attempt=2/3 delay=500ms");
        }
        _ => panic!("no wait"),
    }
    assert!(matches!(
        engine.advance(&mut memory, LoopEvent::ToolCancelled, false),
        LoopAction::Nothing
    ));
    assert!(engine.set_retry_policy(RetryPolicy { max_attempts: 0, ..Default::default() }).is_err());
}

#[test]
fn failures_that_are_final_are_not_tried_again() {
    let mut engine = engine(LoopConfig::default());
    let mut memory = ContextMemory::new("system");
    engine.start_turn(&mut memory, "hi", false);
    let refused = LoopEvent::RequestFailed("401".into(), false);
    match engine.advance(&mut memory, refused, false) {
        LoopAction::Stopped(reason) => assert_eq!(reason, "401"),
        _ => panic!("the turn goes on"),
    }
    assert!(memory.messages().is_empty());
}
