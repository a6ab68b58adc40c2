//! Tools: registration, permission, and what the built-in ones compute.
use asteria_agent::json::{compact, parse, Json};
use asteria_agent::permission::ToolPermission;
use asteria_agent::retry::Duration;
use asteria_agent::tools::builtin::{CalculateTool, CurrentTimeTool, WaitForTool};
use asteria_agent::tools::files::{
    edit_done, ensure_file_size, parse_arguments, read_file, required_string, write_content,
    write_done, EditRequest, Workspace,
};
use asteria_agent::tools::output::ToolOutput;
use asteria_agent::tools::registry::{
    order_results, schema, truncate_output, validate_arguments, CallPlan, ToolExecutionResult,
    ToolRegistry,
};
use asteria_agent::tools::search::{sort_texts, FoundFile, GlobQuery, GrepQuery};
use asteria_agent::tools::workspace::{
    bash_cancelled, bash_output, bash_text_output, register, BashRequest,
};

#[test]
fn default_registry_exposes_builtins() {
    let schema = ToolRegistry::default().schema();
    assert_eq!(schema.as_array().unwrap().len(), 3);
    assert!(compact(&schema).contains("calculate"));
    assert!(compact(&schema).contains("current_time"));
    assert!(compact(&schema).contains("wait_for"));
}

fn rejected(plan: CallPlan) -> ToolOutput {
    match plan {
        CallPlan::Reject(output) => output,
        CallPlan::Ask => panic!("asks"),
        CallPlan::Run => panic!("runs"),
    }
}

#[test]
fn unknown_tool_is_structured_error() {
    let output = rejected(ToolRegistry::default().plan_call("missing", "{}"));
    assert!(output.is_error);
    assert!(output.content.contains("未知工具"));
}

#[test]
fn invalid_arguments_are_tool_errors() {
    let output = rejected(ToolRegistry::default().plan_call("calculate", "{}"));
    assert!(output.is_error);
    assert!(output.content.contains("缺少 expression"));
    assert_eq!(output.content, "工具执行失败: 缺少 expression 参数");
}

#[test]
fn long_results_are_truncated() {
    let output = truncate_output(
        ToolOutput { content: "你好世界".repeat(10), is_error: false },
        5,
    );
    assert!(output.content.starts_with("你好世界你"));
    assert!(output.content.contains("工具结果已截断"));
    assert!(!output.is_error);
}

fn tool_schema(text: &str) -> Json {
    parse(text).unwrap()
}

#[test]
fn registry_truncates_large_tool_output() {
    let mut registry = ToolRegistry::new();
    registry.register_with_permission(
        "large_output",
        tool_schema(r#"{"type":"function","function":{"name":"large_output","description":"返回超长测试内容","parameters":{"type":"object","properties":{}}}}"#),
        ToolPermission::Allow,
    );
    assert!(matches!(registry.plan_call("large_output", "{}"), CallPlan::Run));
    let output =
        registry.finished(ToolOutput { content: "你好".repeat(5000), is_error: false });
    assert!(!output.is_error);
    assert!(output.content.contains("工具结果已截断"));
    assert!(output.content.contains("原始 10000 字符"));
    assert!(output.content.contains("最多保留 8000 字符"));
    assert!(output.content.starts_with(&"你好".repeat(4000)));
}

#[test]
fn registry_times_out_slow_tool() {
    let registry = ToolRegistry::with_execution_timeout(Duration::from_millis(5));
    assert_eq!(registry.execution_limit(), Duration::from_millis(5));
    let output = registry.timed_out(registry.execution_limit());
    assert!(output.is_error);
    assert!(output.content.contains("执行超时"));
}

#[test]
fn wait_tool_validates_and_completes() {
    let output = WaitForTool.rejected();
    assert!(output.is_error);
    let output = WaitForTool.waited("1.0");
    assert!(!output.is_error);
    assert!(output.content.contains("已等待"));
    assert_eq!(output.content, "已等待 1.0 秒");
}

const COUNTED: &str = r#"{"type":"function","function":{"name":"counted","parameters":{"type":"object","required":["value"]}}}"#;

#[test]
fn permissions_gate_execution() {
    let mut registry = ToolRegistry::new();
    registry.register("counted", tool_schema(COUNTED));
    assert!(rejected(registry.plan_call("counted", r#"{"value":1}"#)).is_error);
    registry.set_permission("counted", ToolPermission::Deny).unwrap();
    assert!(rejected(registry.plan_call("counted", r#"{"value":1}"#)).is_error);
    registry.set_permission("counted", ToolPermission::Allow).unwrap();
    assert!(matches!(registry.plan_call("counted", r#"{"value":1}"#), CallPlan::Run));
    assert!(registry.set_permission("missing", ToolPermission::Allow).is_err());
}

#[test]
fn schema_validation_precedes_permission_and_execution() {
    let mut registry = ToolRegistry::new();
    registry.register_with_permission("counted", tool_schema(COUNTED), ToolPermission::Ask);
    registry.set_approver();
    let output = rejected(registry.plan_call("counted", "{}"));
    assert!(output.is_error);
    assert!(output.content.contains("缺少 value 参数"));
}

#[test]
fn ask_is_per_call_and_outside_execution_timeout() {
    let mut registry = ToolRegistry::with_execution_timeout(Duration::from_millis(5));
    registry.register("counted", tool_schema(COUNTED));
    registry.set_approver();
    for _ in 0..2 {
        assert!(matches!(registry.plan_call("counted", r#"{"value":1}"#), CallPlan::Ask));
    }
    let refused = registry.refused("counted");
    assert!(refused.is_error);
    assert!(refused.content.contains("counted"));
}

#[test]
fn parallel_approvals_are_independent() {
    let done = |index: usize, id: &str| ToolExecutionResult {
        index,
        call_id: id.into(),
        output: ToolOutput { content: id.into(), is_error: false },
    };
    let ordered = order_results(vec![done(2, "c"), done(0, "a"), done(1, "b")]);
    let ids: Vec<String> = ordered.into_iter().map(|result| result.call_id).collect();
    assert_eq!(ids, vec!["a".to_string(), "b".to_string(), "c".to_string()]);
}

#[test]
fn registration_replaces_and_removal_forgets() {
    let mut registry = ToolRegistry::with_max_output_chars(3);
    for name in ["calculate", "current_time", "wait_for"] {
        assert!(registry.unregister(name));
    }
    registry.register("a", tool_schema("{}"));
    registry.register_with_permission("mcp__x__b", tool_schema("{}"), ToolPermission::Allow);
    registry.register_with_permission("a", tool_schema("{}"), ToolPermission::Allow);
    assert_eq!(
        registry.permissions(),
        vec![
            ("a".to_string(), ToolPermission::Allow),
            ("mcp__x__b".to_string(), ToolPermission::Allow)
        ]
    );
    registry.unregister_with_prefix("mcp__");
    assert_eq!(registry.permission("mcp__x__b"), None);
    assert!(registry.unregister("a"));
    assert!(!registry.unregister("a"));
    let cut = registry.finished(ToolOutput { content: "abcdef".into(), is_error: true });
    assert!(cut.content.starts_with("abc"));
    assert!(!cut.content.contains("abcd"));
    assert!(cut.is_error);
}

#[test]
fn arguments_are_checked_against_the_schema() {
    let schema = tool_schema(COUNTED);
    assert_eq!(validate_arguments(&schema, r#"{"value":0}"#), Ok(()));
    assert_eq!(
        validate_arguments(&schema, r#"{"value":null}"#),
        Err("缺少 value 参数".to_string())
    );
    assert!(validate_arguments(&schema, "[]").is_err());
    assert!(validate_arguments(&schema, "nonsense").is_err());
    assert_eq!(schema_names(&schema_of_builtins()), 3);
}

fn schema_of_builtins() -> Json {
    schema()
}

fn schema_names(schema: &Json) -> usize {
    schema.as_array().unwrap().len()
}

#[test]
fn expressions_are_evaluated() {
    let run = |text: &str| CalculateTool.execute(text);
    assert_eq!(run(r#"{"expression":"(12+3)*4"}"#).content, "60");
    assert_eq!(run(r#"{"expression":"1/4"}"#).content, "0.25");
    assert!(run(r#"{"expression":"1+"}"#).is_error);
    assert!(run(r#"{"expression":""}"#).is_error);
    assert!(run(r#"{"expression":"   "}"#).is_error);
    assert_eq!(run("{}").content, "工具执行失败: 缺少 expression 参数");
    assert!(run("no json").is_error);
    let long = format!(r#"{{"expression":"{}"}}"#, "1".repeat(201));
    assert_eq!(run(&long).content, "工具执行失败: 表达式过长");
    assert_eq!(CalculateTool.evaluated(Ok("2".into())).content, "2");
    assert_eq!(CalculateTool.name(), "calculate");
}

#[test]
fn the_present_time_is_told() {
    let output = CurrentTimeTool.execute("{}");
    assert!(!output.is_error);
    assert!(chrono::DateTime::parse_from_rfc3339(&output.content).is_ok());
    assert!(CurrentTimeTool.execute("no json").is_error);
    assert_eq!(CurrentTimeTool.execute_at("{}", "now".into()).content, "now");
}

fn args(text: &str) -> Json {
    parse_arguments(text).unwrap()
}

#[test]
fn read_write_and_edit_are_exact() {
    let content = "fn one() {}\nfn two() {}\n";
    let read = read_file(&args(r#"{"path":"src/lib.rs","offset":2,"limit":1}"#), content);
    assert_eq!(read.content, "2|fn two() {}");
    let written = write_content(&args(r#"{"path":"src/new.txt","content":"old"}"#)).unwrap();
    assert_eq!(written, "old");
    assert!(!write_done("src/new.txt", 3).is_error);
    let edit = EditRequest::from_args(&args(
        r#"{"path":"src/new.txt","old_string":"old","new_string":"new","replace_all":false}"#,
    ))
    .unwrap();
    assert_eq!(edit.apply(&written).unwrap(), ("new".to_string(), 1));
    assert_eq!(edit_done("src/new.txt", 1).content, "已修改 src/new.txt（替换 1 处）");
}

#[test]
fn edits_are_unique_or_for_all() {
    let once = EditRequest::from_args(&args(r#"{"old_string":"a","new_string":"b"}"#)).unwrap();
    assert!(once.apply("aa").is_err());
    assert!(once.apply("x").is_err());
    let all = EditRequest::from_args(&args(
        r#"{"old_string":"a","new_string":"b","replace_all":true}"#,
    ))
    .unwrap();
    assert_eq!(all.apply("aa").unwrap(), ("bb".to_string(), 2));
    assert!(EditRequest::from_args(&args(r#"{"old_string":"","new_string":"b"}"#)).is_err());
    assert!(EditRequest::from_args(&args(r#"{"old_string":"a"}"#)).is_err());
}

#[test]
fn glob_and_grep_find_workspace_files() {
    let files = vec![
        FoundFile { relative: "src/lib.rs".into(), shown: "src/lib.rs".into() },
        FoundFile { relative: "README.md".into(), shown: "README.md".into() },
    ];
    let glob = GlobQuery::from_args(&args(r#"{"pattern":"**/*.rs"}"#)).unwrap();
    assert_eq!(glob.run(&files).content, "src/lib.rs");
    let grep =
        GrepQuery::from_args(&args(r#"{"pattern":"two","glob":"**/*.rs"}"#)).unwrap();
    assert!(grep.accepts_path("src/lib.rs"));
    assert!(!grep.accepts_path("README.md"));
    let mut hits = Vec::new();
    grep.scan("src/lib.rs", "fn one() {}\nfn two() {}\n", &mut hits);
    assert_eq!(hits, vec!["src/lib.rs:2:fn two() {}".to_string()]);
    let none = GlobQuery::from_args(&args(r#"{"pattern":"*.py"}"#)).unwrap();
    assert_eq!(none.run(&files).content, "(无匹配结果)");
    assert!(GlobQuery::from_args(&args(r#"{"pattern":"["}"#)).is_err());
    assert!(GrepQuery::from_args(&args(r#"{"pattern":"("}"#)).is_err());
    assert!(GrepQuery::from_args(&args(r#"{"pattern":"a","glob":"{"}"#)).is_err());
}

#[test]
fn hits_stay_within_their_limit() {
    let grep = GrepQuery::from_args(&args(r#"{"pattern":"x","max_results":2}"#)).unwrap();
    let mut hits = Vec::new();
    let full = grep.scan("a", "x\nx\nx\n", &mut hits);
    assert!(full);
    assert_eq!(hits.len(), 2);
    assert!(!grep.accepts_size(u64::MAX));
    assert_eq!(
        sort_texts(&vec!["b".to_string(), "a".to_string()]),
        vec!["a".to_string(), "b".to_string()]
    );
}

#[test]
fn file_tools_reject_workspace_escape() {
    let workspace = Workspace::at("/tmp/work/project".into());
    let outside = workspace.candidate("/tmp/work").unwrap();
    let refused = workspace.ensure_inside(&outside).unwrap_err();
    assert!(refused.contains("工作区之外"));
    assert_eq!(workspace.candidate("src/lib.rs").unwrap(), "/tmp/work/project/src/lib.rs");
    assert!(workspace.ensure_inside("/tmp/work/project/src").is_ok());
    assert!(workspace.ensure_inside("/tmp/work/project2").is_err());
    assert_eq!(workspace.display("/tmp/work/project/src/lib.rs"), "src/lib.rs");
    assert!(workspace.candidate("  ").is_err());
}

#[test]
fn files_and_arguments_are_bounded() {
    assert!(ensure_file_size(10).is_ok());
    assert!(ensure_file_size(u64::MAX).unwrap_err().contains("字节读取上限"));
    assert!(parse_arguments("[]").is_err());
    assert!(parse_arguments("nonsense").is_err());
    assert!(required_string(&args(r#"{"path":""}"#), "path").is_err());
    assert!(read_file(&args(r#"{"path":"a","offset":0}"#), "x").is_error);
}

#[test]
fn bash_runs_in_workspace() {
    let request = BashRequest::from_args(&args(r#"{"command":"pwd"}"#)).unwrap();
    assert_eq!(request.command, "pwd");
    assert_eq!(request.cwd, ".");
    let output = bash_output(b"/tmp/work\n", b"", "exit status: 0", true);
    assert!(!output.is_error);
    assert_eq!(output.content.trim(), "/tmp/work");
    let failed = bash_text_output("out".into(), "err", "exit status: 1", false);
    assert!(failed.is_error);
    assert!(failed.content.contains("out"));
    assert!(failed.content.contains("err"));
    let silent = bash_text_output("".into(), "", "exit status: 1", false);
    assert_eq!(silent.content, "命令完成，退出码：exit status: 1");
    assert!(bash_cancelled().is_error);
    assert!(bash_output(&[0xff], b"", "exit status: 0", true).content.contains('\u{fffd}'));
}

#[test]
fn workspace_tools_are_registered_with_care() {
    let mut registry = ToolRegistry::new();
    register(&mut registry);
    assert_eq!(registry.permission("Read"), Some(ToolPermission::Allow));
    assert_eq!(registry.permission("Write"), Some(ToolPermission::Ask));
    assert_eq!(registry.permission("Edit"), Some(ToolPermission::Ask));
    assert_eq!(registry.permission("Bash"), Some(ToolPermission::Ask));
    assert_eq!(registry.permission("Glob"), Some(ToolPermission::Allow));
    assert_eq!(registry.permission("Grep"), Some(ToolPermission::Allow));
}

#[test]
fn permission_words_round_trip() {
    for permission in [ToolPermission::Allow, ToolPermission::Deny, ToolPermission::Ask] {
        assert_eq!(ToolPermission::parse(permission.as_str()), Ok(permission));
    }
    assert_eq!(
        ToolPermission::parse("always"),
        Err("权限必须是 allow、deny 或 ask".to_string())
    );
}

#[test]
fn expressions_that_hold_an_error_are_reported() {
    let run = |expression: &str| {
        CalculateTool.run(&Json::empty().put("expression", Json::Text(expression.into())))
    };
    assert_eq!(run("1+2").content, "3");
    assert!(!run("1/0").is_error);
    for wrong in ["", "   ", "1+", "a+3", "nope(1)", "sin(1,2)"] {
        let output = run(wrong);
        assert!(output.is_error, "{wrong}");
        assert!(output.content.starts_with("工具执行失败: "), "{wrong}");
    }
    assert_ne!(run("a+3").content, run("1+").content);
}

#[test]
fn shell_commands_may_run_longer() {
    let registry = ToolRegistry::with_execution_timeout(Duration::from_millis(5));
    assert_eq!(registry.limit_for("Bash"), Duration::from_secs(120));
    assert_eq!(registry.limit_for("Read"), Duration::from_millis(5));
    assert_eq!(registry.limit_for("bash"), Duration::from_millis(5));
}

#[test]
fn waiting_takes_a_number() {
    let tool = WaitForTool;
    assert!(matches!(tool.seconds(r#"{"seconds":3}"#), Ok(Json::Unsigned(3))));
    assert!(matches!(tool.seconds(r#"{"seconds":-3}"#), Ok(Json::Signed(-3))));
    assert!(matches!(tool.seconds(r#"{"seconds":1.5}"#), Ok(Json::Float(t)) if t == "1.5"));
    for wrong in ["", "{}", r#"{"seconds":"3"}"#, "[3]", r#"{"seconds":null}"#] {
        match tool.seconds(wrong) {
            Err(output) => {
                assert!(output.is_error);
                assert_eq!(
                    output.content,
                    "工具执行失败: seconds 必须是 1 到 120 之间的数字"
                );
            }
            Ok(_) => panic!("{wrong}"),
        }
    }
}

/// A time such as `1996-12-19T16:39:57.123-08:00`.
fn is_timestamp(text: &str) -> bool {
    let bytes = text.as_bytes();
    let shape = |at: usize, form: &str| {
        form.bytes().enumerate().all(|(i, f)| match f {
            b'0' => bytes[at + i].is_ascii_digit(),
            b'~' => bytes[at + i] == b'+' || bytes[at + i] == b'-',
            other => bytes[at + i] == other,
        })
    };
    bytes.len() >= 25
        && shape(0, "0000-00-00T00:00:00")
        && shape(bytes.len() - 6, "~00:00")
        && (bytes.len() == 25 || bytes[19] == b'.')
        && bytes[19..bytes.len() - 6].iter().skip(1).all(|b| b.is_ascii_digit())
}

#[test]
fn the_time_is_told_with_its_offset() {
    let output = CurrentTimeTool.execute("{}");
    assert!(!output.is_error);
    assert!(is_timestamp(&output.content), "{}", output.content);
    assert!(is_timestamp("1996-12-19T16:39:57-08:00"));
    assert!(!is_timestamp("now"));
}

#[test]
fn plain_arithmetic_has_one_value() {
    let run = |expression: &str| {
        CalculateTool.run(&Json::empty().put("expression", Json::Text(expression.into()))).content
    };
    assert_eq!(run("(12+3)*4"), "60");
    assert_eq!(run(" 7 / 2 - 0.25"), "3.25");
    assert_eq!(run("-(2+3)"), "-5");
    assert_eq!(run("0.1+0.2"), "0.30000000000000004");
    assert!(!run("sin(1)").is_empty());
}
