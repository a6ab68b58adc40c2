//! The terminal, the requests for permission, and the host of an editor.
use asteria_agent::boot::{mcp_label, rag_candidates, rag_label, RagArguments};
use asteria_agent::console::{banner, ending_text, idle_action, BusyAction, Console, IdleAction};
use asteria_agent::events::AgentEvent;
use asteria_agent::provider::turn::TokenUsage;
use asteria_agent::rpc::client::{preview_arguments, ClientEvent, RpcEventSink};
use asteria_agent::rpc::command::{parse_command, RpcCommand};
use asteria_agent::rpc::host::{session_event, HostAction, RpcHost};
use asteria_agent::terminal::{
    erase_rows, left_prompt, line_step, looks_like_command, render_user_question,
    sanitize_user_text, submitted_echo, submitted_screen_rows, InputEvent,
};
use asteria_agent::tui::approval::{
    clip_arguments, format_arguments, reply_text, ApprovalUi, Delivery, Response,
};
use asteria_agent::tui::reducer::reduce;
use asteria_agent::tui::render::{
    compact_retry, display_tool_name, format_duration_ms, format_token_count, turn_summary,
};
use asteria_agent::tui::state::{
    is_verbose, new_state, set_verbose, take_answer_streamed, take_turn_elapsed, TuiState,
};

fn question_style() -> nu_ansi_term::Style {
    nu_ansi_term::Style::new().bold().fg(nu_ansi_term::Color::LightGreen)
}

#[test]
fn submitted_row_count_handles_chinese_and_wrapping() {
    let prefix = unicode_width::UnicodeWidthStr::width("User：");
    assert_eq!(submitted_screen_rows("中文", prefix, 20), 1);
    assert_eq!(submitted_screen_rows(&"中".repeat(8), prefix, 20), 2);
    assert_eq!(submitted_screen_rows("first\nsecond", prefix, 20), 2);
}

#[test]
fn live_prompt_is_a_single_user_line() {
    assert_eq!(left_prompt(false), "User：");
}

#[test]
fn busy_prompt_collapses_to_a_single_line() {
    assert_eq!(left_prompt(true), "… ");
}

#[test]
fn user_question_is_bold_green_and_drops_control_sequences() {
    let painted = render_user_question("中文问题中文问题\x1b[31m");
    assert!(!painted.contains('╭'));
    assert!(!painted.contains('│'));
    assert_eq!(painted, question_style().paint("User：中文问题中文问题[31m").to_string());
}

#[test]
fn slash_commands_are_not_styled_as_user_questions() {
    let command = submitted_echo("/approve 1", 80, true).1;
    assert_eq!(command, "› /approve 1");
    assert!(!command.contains("User"));
    let question = submitted_echo("LT 反复重启", 80, false).1;
    assert!(question.contains("User"));
    assert!(question.contains("LT 反复重启"));
    assert!(!question.contains('╭'));
    assert!(question.contains("\x1b["));
    assert!(question.ends_with('\n'), "问题与后续输出之间应空一行");
}

#[test]
fn highlighter_paints_questions_green_and_leaves_slash_commands_plain() {
    assert!(!looks_like_command("LT 反复重启"));
    assert!(looks_like_command("/approve 1"));
    assert!(looks_like_command("  /approve 1"));
}

#[test]
fn lines_decide_what_the_editor_does() {
    let exit = line_step(" /exit ");
    assert!(exit.last && exit.echo && !exit.busy);
    let question = line_step("hi");
    assert!(!question.last && question.echo && question.busy);
    assert!(!line_step("  ").echo);
    assert_eq!(erase_rows(9, 4), 3);
    assert_eq!(erase_rows(2, 4), 2);
    assert_eq!(erase_rows(2, 0), 1);
    assert_eq!(sanitize_user_text("a\tb\nc\u{7}"), "ab\nc");
}

#[test]
fn approval_approval_requires_explicit_command() {
    let mut ui = ApprovalUi::new();
    ui.present(7, "test", "{}", true);
    assert_eq!(ui.respond("请批准7"), Response::NotAnAnswer);
    assert!(matches!(ui.respond("/approve 6"), Response::Say(_)));
    assert!(matches!(ui.respond("/approve 7 extra"), Response::Say(_)));
    assert_eq!(ui.respond("/approve 7"), Response::Reply(7, true));
    assert!(ui.pending.is_empty());
    assert!(matches!(ui.respond("/approve 7"), Response::Say(_)));
    assert!(matches!(ui.respond("/deny seven"), Response::Say(_)));
}

#[test]
fn approval_closed_input_denies_pending_approvals() {
    let mut ui = ApprovalUi::new();
    ui.present(1, "test", "{}", true);
    assert_eq!(ui.clear(), vec![1]);
    let shown = ui.present(2, "test", "{}", false);
    assert!(shown.denied);
    assert!(ui.pending.is_empty());
}

#[test]
fn formats_json_and_truncates_long_arguments() {
    assert_eq!(
        format_arguments(r#"{"path":"src/lib.rs"}"#),
        "{\n  \"path\": \"src/lib.rs\"\n}"
    );
    let long = format!(r#"{{"content":"{}"}}"#, "x".repeat(1_000));
    assert!(format_arguments(&long).contains("参数预览已截断"));
    assert_eq!(clip_arguments(""), "{}");
    assert_eq!(clip_arguments("1\n2\n3\n4\n5\n6"), "1\n2\n3\n4\n5\n6");
    assert_eq!(clip_arguments("1\n2\n3\n4\n5\n6\n7"), "1\n2\n3\n4\n5\n6\n… 参数预览已截断");
    assert_eq!(format_arguments("raw text"), "raw text");
}

#[test]
fn requests_are_shown_as_panels() {
    let mut ui = ApprovalUi::new();
    let shown = ui.present(3, "mcp__github__get_me", "{}", true);
    assert_eq!(
        shown.text,
        "╭─ 需要批准 #3\n│ 工具：github.get_me\n│ 参数：\n│   {}\n╰─ /approve 3 批准一次 · /deny 3 拒绝 · /cancel 取消 Turn"
    );
    assert_eq!(reply_text(3, true, Delivery::Delivered), "✓ 审批 #3 已批准（仅本次）");
    assert_eq!(reply_text(3, false, Delivery::Delivered), "× 审批 #3 已拒绝（仅本次）");
    assert!(reply_text(3, true, Delivery::Lost).contains("失效"));
    assert!(reply_text(3, true, Delivery::Closed).contains("没有该编号"));
}

fn call_started() -> AgentEvent {
    AgentEvent::ToolCallStarted {
        turn_id: 1,
        call_id: "call-1".into(),
        name: "mcp__github__get_file_contents".into(),
    }
}

#[test]
fn compact_view_collapses_tool_events_and_hides_step_noise() {
    let mut state = TuiState::new();
    let started = AgentEvent::StepStarted { turn_id: 1, step: 1 };
    assert!(reduce(&mut state, &started, 0, "").is_empty());
    assert!(reduce(&mut state, &call_started(), 0, "").is_empty());
    let requested = AgentEvent::PermissionRequested {
        turn_id: 1,
        call_id: "call-1".into(),
        name: "mcp__github__get_file_contents".into(),
    };
    assert!(reduce(&mut state, &requested, 0, "").is_empty());
    let result = AgentEvent::ToolResult {
        turn_id: 1,
        call_id: "call-1".into(),
        is_error: false,
        duration_ms: 5_400,
    };
    assert_eq!(
        reduce(&mut state, &result, 0, "5.4"),
        vec!["  ✓ github.get_file_contents · 完成 · 5.4s"]
    );
    let completed =
        AgentEvent::StepCompleted { turn_id: 1, step: 1, usage: TokenUsage::default() };
    assert!(reduce(&mut state, &completed, 0, "").is_empty());
}

#[test]
fn verbose_view_keeps_detailed_events() {
    let mut state = TuiState::new();
    state.verbose = true;
    let output = reduce(&mut state, &AgentEvent::StepStarted { turn_id: 2, step: 3 }, 0, "");
    assert_eq!(output, vec!["[执行] Turn 2 · Step 3\n动作：请求模型"]);
}

fn delta(turn_id: u64, text: &str, offset: usize) -> AgentEvent {
    AgentEvent::AssistantDelta { turn_id, step: 1, delta: text.into(), offset }
}

#[test]
fn live_answer_coalesces_deltas_and_prints_header_once() {
    let mut state = TuiState::new();
    let started = AgentEvent::TurnStarted { turn_id: 3, input: "hi".into() };
    reduce(&mut state, &started, 0, "");
    assert!(reduce(&mut state, &delta(3, "你", 0), 0, "").is_empty());
    assert_eq!(
        reduce(&mut state, &delta(3, "好\n世界", "你".len()), 0, ""),
        vec!["Asteria".to_string(), "你好".into()]
    );
    let completed =
        AgentEvent::StepCompleted { turn_id: 3, step: 1, usage: TokenUsage::default() };
    assert_eq!(reduce(&mut state, &completed, 0, ""), vec!["世界".to_string()]);
    assert!(state.live.streamed);
    assert!(state.take_answer_streamed());
    assert!(!state.take_answer_streamed());
}

#[test]
fn live_answer_ignores_stale_offsets() {
    let mut state = TuiState::new();
    reduce(&mut state, &delta(1, "abc", 0), 0, "");
    assert!(reduce(&mut state, &delta(1, "xx", 1), 0, "").is_empty());
    let completed =
        AgentEvent::StepCompleted { turn_id: 1, step: 1, usage: TokenUsage::default() };
    assert_eq!(
        reduce(&mut state, &completed, 0, ""),
        vec!["Asteria".to_string(), "abc".into()]
    );
}

#[test]
fn turns_are_timed() {
    let mut state = new_state();
    let started = AgentEvent::TurnStarted { turn_id: 4, input: "hi".into() };
    reduce(&mut state, &started, 1_000_000, "");
    reduce(&mut state, &AgentEvent::TurnCompleted { turn_id: 4, steps: 1 }, 5_000_000, "");
    assert_eq!(take_turn_elapsed(&mut state, 4).unwrap().as_millis(), 4);
    assert!(take_turn_elapsed(&mut state, 4).is_none());
    assert!(!is_verbose(&state));
    assert!(set_verbose(&mut state, true).len() > 0);
    assert!(is_verbose(&state));
    assert!(!take_answer_streamed(&mut state));
}

#[test]
fn spans_and_counts_are_shortened() {
    assert_eq!(display_tool_name("mcp__a__b__c"), "a.b__c");
    assert_eq!(display_tool_name("Read"), "Read");
    assert_eq!(format_duration_ms(999, "1.0"), "999ms");
    assert_eq!(format_duration_ms(5_400, "5.4"), "5.4s");
    assert_eq!(format_token_count(999, "1.0"), "999 tokens");
    assert_eq!(format_token_count(1_234, "1.2"), "1.2k tokens");
    assert!(compact_retry(1, 2, 3, 500, "0.5").contains("2/3"));
    assert!(turn_summary(2, 1, 1_234, "1.2", Some(5_400), "5.4").contains("1.2k"));
}

#[test]
fn parses_ask_approve_and_cancel() {
    let ask = parse_command(r#"{"method":"ask","params":{"text":"计算1+1"}}"#).unwrap();
    assert_eq!(ask, RpcCommand::Ask { text: "计算1+1".into() });
    let approve = parse_command(r#"{"method":"approve","params":{"approval_id":2}}"#).unwrap();
    assert_eq!(approve, RpcCommand::Approve { approval_id: 2 });
    assert_eq!(parse_command(r#"{"method":"cancel"}"#).unwrap(), RpcCommand::Cancel);
    assert_eq!(parse_command(r#"{"method":"new_session"}"#).unwrap(), RpcCommand::NewSession);
}

#[test]
fn commands_that_cannot_be_read_are_refused() {
    assert_eq!(parse_command("nonsense"), Err("RPC 命令必须是 JSON 对象".to_string()));
    assert_eq!(parse_command("{}"), Err("RPC 命令必须是 JSON 对象".to_string()));
    assert_eq!(
        parse_command(r#"{"method":"approve"}"#),
        Err("approve 需要 approval_id".to_string())
    );
    assert_eq!(
        parse_command(r#"{"method":"deny","params":{"approval_id":-1}}"#),
        Err("deny 需要 approval_id".to_string())
    );
    assert_eq!(parse_command(r#"{"method":"ask"}"#), Ok(RpcCommand::Ask { text: "".into() }));
    assert_eq!(
        parse_command(r#"{"method":"dance"}"#),
        Ok(RpcCommand::Unknown { method: "dance".into() })
    );
    assert_eq!(parse_command(r#"["status"]"#), Ok(RpcCommand::Status));
}

#[test]
fn maps_tool_and_delta_events() {
    let mut sink = RpcEventSink::new();
    let mut told = Vec::new();
    told.append(&mut sink.publish(&AgentEvent::ToolCallStarted {
        turn_id: 1,
        call_id: "c1".into(),
        name: "calculate".into(),
    }));
    told.append(&mut sink.publish(&AgentEvent::ToolResult {
        turn_id: 1,
        call_id: "c1".into(),
        is_error: false,
        duration_ms: 3,
    }));
    told.append(&mut sink.publish(&delta(1, "2", 0)));
    assert!(matches!(&told[0], ClientEvent::ToolStarted { name } if name == "calculate"));
    assert!(matches!(&told[1], ClientEvent::ToolResult { ok: true, ms: 3, .. }));
    assert!(matches!(&told[2], ClientEvent::AssistantBegin));
    assert!(matches!(&told[3], ClientEvent::AssistantDelta { text } if text == "2"));
    assert_eq!(told.len(), 4);
    assert_eq!(preview_arguments(&"x".repeat(900)).len(), 800);
}

fn ask(text: &str) -> RpcCommand {
    RpcCommand::Ask { text: text.into() }
}

#[test]
fn inputs_wait_while_a_turn_runs() {
    let mut host = RpcHost::new();
    let nobody = Vec::new();
    let started = host.command(ask(" one "), &nobody);
    assert_eq!(started.last(), Some(&HostAction::StartTurn("one".into())));
    let queued = host.command(ask("two"), &nobody);
    assert_eq!(
        queued,
        vec![HostAction::Emit(ClientEvent::Log { text: "已排队，当前有 1 条待处理输入".into() })]
    );
    assert!(host.next_input(&nobody).is_none());
    assert_eq!(host.command(RpcCommand::Cancel, &nobody), vec![HostAction::CancelTurn]);
    assert_eq!(host.input_closed(), Some(HostAction::CancelTurn));
    host.turn_ended(Some("x".into()), None);
    assert_eq!(host.input_closed(), None);
    let next = host.next_input(&nobody).unwrap();
    assert_eq!(next.last(), Some(&HostAction::StartTurn("two".into())));
    host.turn_ended(None, None);
    assert_eq!(host.input_closed(), Some(HostAction::Quit));
}

#[test]
fn requests_end_with_their_turn() {
    let mut host = RpcHost::new();
    host.command(ask("one"), &Vec::new());
    assert!(host.present_approval(1, "Bash", "{}", true).is_some());
    assert!(host.present_approval(2, "Bash", "{}", true).is_some());
    assert!(host.present_approval(3, "Bash", "{}", false).is_none());
    let answered = host.command(RpcCommand::Approve { approval_id: 1 }, &vec![1, 2]);
    assert_eq!(answered[0], HostAction::Reply(1, true));
    let again = host.command(RpcCommand::Approve { approval_id: 1 }, &vec![1, 2]);
    assert!(matches!(&again[0], HostAction::Emit(ClientEvent::Error { .. })));
    let ended = host.turn_ended(Some("failed".into()), None);
    assert_eq!(ended[0], HostAction::Reply(2, false));
    assert_eq!(
        ended[1],
        HostAction::Emit(ClientEvent::Error { message: "failed".into() })
    );
}

#[test]
fn slash_commands_of_a_client_are_carried_out() {
    let mut host = RpcHost::new();
    let nobody = Vec::new();
    let exit = host.command(ask("/exit"), &nobody);
    assert_eq!(exit.last(), Some(&HostAction::Quit));
    let fresh = host.command(RpcCommand::NewSession, &nobody);
    assert_eq!(fresh, vec![HostAction::NewSession]);
    assert_eq!(session_event(None), ClientEvent::SessionCleared);
    assert!(matches!(host.command(ask("/usage"), &nobody)[1], HostAction::RunSlash(_)));
    let unknown = host.command(RpcCommand::Unknown { method: "x".into() }, &nobody);
    assert_eq!(
        unknown,
        vec![HostAction::Emit(ClientEvent::Error { message: "未知命令：x".into() })]
    );
}

#[test]
fn lines_are_classified_while_nothing_runs() {
    assert_eq!(idle_action("/exit"), IdleAction::Exit);
    assert_eq!(idle_action("/mcp tools"), IdleAction::Mcp("/mcp tools".into()));
    assert_eq!(idle_action("/verbose off"), IdleAction::SetVerbose(false));
    assert_eq!(idle_action("/verbose maybe"), IdleAction::VerboseUsage);
    assert_eq!(
        idle_action("/permission Bash allow"),
        IdleAction::Permission("Bash".into(), "allow".into())
    );
    assert_eq!(idle_action("/permission"), IdleAction::PermissionUsage);
    assert_eq!(idle_action("  "), IdleAction::Nothing);
    assert_eq!(idle_action(" hi "), IdleAction::Ask("hi".into()));
    assert_eq!(idle_action("/unknown"), IdleAction::Ask("/unknown".into()));
}

#[test]
fn lines_wait_or_act_while_a_turn_runs() {
    let mut console = Console::new();
    console.begin_turn();
    console.approvals.present(5, "Bash", "{}", true);
    let line = |text: &str| Some(InputEvent::Line(text.into()));
    assert_eq!(
        console.busy_event(line("later")),
        BusyAction::Say("[已排队] 当前有 1 条待处理输入，将按顺序执行。".into())
    );
    assert_eq!(console.busy_event(line(" ")), BusyAction::Nothing);
    assert_eq!(console.busy_event(line("/deny 5")), BusyAction::Reply(5, false));
    assert!(matches!(console.busy_event(line("/cancel")), BusyAction::Cancel(_)));
    assert!(matches!(console.busy_event(Some(InputEvent::Cancel)), BusyAction::Cancel(_)));
    assert_eq!(
        console.busy_event(Some(InputEvent::Error("gone".into()))),
        BusyAction::Fail("输入错误: gone".into())
    );
    console.approvals.present(6, "Bash", "{}", true);
    assert_eq!(console.busy_event(None), BusyAction::Deny(vec![6]));
    assert!(!console.input_open);
    assert_eq!(console.next_input(), Some("later".to_string()));
    assert_eq!(console.next_input(), None);
}

#[test]
fn turns_end_with_a_text() {
    assert_eq!(
        ending_text(Ok("answer".into()), false, false),
        Some("\nAsteria\nanswer".to_string())
    );
    assert_eq!(ending_text(Ok("answer".into()), true, false), None);
    assert!(ending_text(Err("why".into()), false, true).unwrap().contains("已取消"));
    assert!(ending_text(Err("why".into()), false, false).unwrap().contains("why"));
    assert!(banner("m", "r", "c").starts_with("Asteria · m\nr · c\n"));
}

#[test]
fn the_start_is_described() {
    assert_eq!(rag_label(Some(3)), "RAG 3 chunks");
    assert_eq!(rag_label(None), "RAG 未加载");
    assert_eq!(mcp_label(None), "MCP 未加载");
    assert_eq!(
        rag_candidates("/a/b"),
        vec![
            "/a/b/docs/rag-docs".to_string(),
            "/a/docs/rag-docs".to_string(),
            "/docs/rag-docs".to_string()
        ]
    );
    let words = |list: &[&str]| list.iter().map(|word| word.to_string()).collect::<Vec<_>>();
    let parsed =
        RagArguments::parse(&words(&["--generate", "--url", "http://x", "a", "b"])).unwrap();
    assert!(parsed.generate && parsed.remote);
    assert_eq!(parsed.source, "http://x");
    assert_eq!(parsed.query, "a b");
    let none = RagArguments::parse(&words(&[])).unwrap();
    assert!(none.is_default_source());
    assert_eq!(none.query, "");
    assert!(RagArguments::parse(&words(&["--url"])).is_err());
}

#[test]
fn approval_ui_approval_requires_explicit_command() {
    let mut ui = ApprovalUi::new();
    ui.present(7, "test", "{}", true);
    for line in ["请批准7", "/approve 6", "/approve 7 extra", "/approve", "/approve x"] {
        assert!(!matches!(ui.respond(line), Response::Reply(..)), "{line}");
        assert_eq!(ui.pending, vec![7]);
    }
    assert_eq!(ui.respond(" /approve  7 "), Response::Reply(7, true));
    assert!(ui.pending.is_empty());
    assert!(matches!(ui.respond("/approve 7"), Response::Say(_)));
}

#[test]
fn approval_ui_closed_input_denies_pending_approvals() {
    let mut ui = ApprovalUi::new();
    ui.present(1, "test", "{}", true);
    ui.present(3, "test", "{}", true);
    assert_eq!(ui.clear(), vec![1, 3]);
    assert!(ui.pending.is_empty());
    assert!(ui.present(2, "test", "{}", false).denied);
    assert!(ui.pending.is_empty());
}

#[test]
fn commands_give_each_member_once() {
    let refused: Result<RpcCommand, String> = Err("RPC 命令必须是 JSON 对象".to_string());
    for line in [
        r#"{"method":"ask","method":"status"}"#,
        r#"{"method":"status","params":{},"params":{}}"#,
        r#" { "method" : "status" , "x" : [1,{}] , "method" : "status" } "#,
        r#"{"x":"\"","method":"status","y":"a\\","method":"status"}"#,
    ] {
        assert_eq!(parse_command(line), refused, "{line}");
    }
    for line in [
        r#"{"method":"status","params":{"method":"a","method":"b"}}"#,
        r#"{"x":"method","method":"status","y":"method"}"#,
        r#"{"x":["{","method",{"method":1}],"method":"status"}"#,
        r#"{"x":1,"x":2,"method":"status"}"#,
        r#"{"x":"\",\"method\":","method":"status"}"#,
        r#"["status",{"method":1}]"#,
    ] {
        assert_eq!(parse_command(line), Ok(RpcCommand::Status), "{line}");
    }
}
