//! The commands that the user gives with a slash, and their answers.
use vstd::prelude::*;
use crate::agent_loop::{ReportView, TurnReport, TurnState};
use crate::events::{ToolTrace, ToolTraceStatus, TraceView};
use crate::mcp::manager::{ManagerView, McpManager, McpServerStatus, StatusView};
use crate::message::{calls_view, messages_view, CallView, Message, MessageView, ToolCall};
use crate::paths::{same_path, same_path_spec};
use crate::permission::ToolPermission;
use crate::provider::turn::TokenUsage;
use crate::session::{PathsView, SessionPaths};
use crate::text::chars::{lemma_views_push, same, views};
use crate::text::number::{dec, decimal, decimal_size, number_spec, parse_number};
use crate::text::pieces::{trim, trim_spec, words, words_spec};
use crate::text::search::{has_prefix, join, join_spec, starts_with};
use crate::tools::registry::permissions_view;

verus! {

/// What a command with a slash asks for.
#[derive(Clone, Debug, PartialEq)]
pub enum SlashAction {
    Context,
    Usage,
    Session,
    Trace { command: String },
    Mcp { command: String },
    Permissions,
    Permission { name: String, value: String },
    PermissionUsage,
    Verbose { command: String },
    Reset,
    NewSession,
    Cancel,
    Exit,
    Approve { id: u64 },
    Deny { id: u64 },
    ApprovalUsage,
}

#[verifier::ext_equal]
pub enum SlashView {
    Context,
    Usage,
    Session,
    Trace(Seq<char>),
    Mcp(Seq<char>),
    Permissions,
    Permission(Seq<char>, Seq<char>),
    PermissionUsage,
    Verbose(Seq<char>),
    Reset,
    NewSession,
    Cancel,
    Exit,
    Approve(u64),
    Deny(u64),
    ApprovalUsage,
}

impl View for SlashAction {
    type V = SlashView;

    open spec fn view(&self) -> SlashView {
        match self {
            SlashAction::Context => SlashView::Context,
            SlashAction::Usage => SlashView::Usage,
            SlashAction::Session => SlashView::Session,
            SlashAction::Trace { command } => SlashView::Trace(command@),
            SlashAction::Mcp { command } => SlashView::Mcp(command@),
            SlashAction::Permissions => SlashView::Permissions,
            SlashAction::Permission { name, value } => SlashView::Permission(name@, value@),
            SlashAction::PermissionUsage => SlashView::PermissionUsage,
            SlashAction::Verbose { command } => SlashView::Verbose(command@),
            SlashAction::Reset => SlashView::Reset,
            SlashAction::NewSession => SlashView::NewSession,
            SlashAction::Cancel => SlashView::Cancel,
            SlashAction::Exit => SlashView::Exit,
            SlashAction::Approve { id } => SlashView::Approve(*id),
            SlashAction::Deny { id } => SlashView::Deny(*id),
            SlashAction::ApprovalUsage => SlashView::ApprovalUsage,
        }
    }
}

pub open spec fn slash_opt(o: Option<SlashAction>) -> Option<SlashView> {
    match o {
        Some(a) => Some(a@),
        None => None,
    }
}

/// A 64-bit number in a command.
pub open spec fn id_of(word: Seq<char>) -> Option<u64> {
    match number_spec(word, u64::MAX as nat) {
        Some(n) => Some(n as u64),
        None => None,
    }
}

/// What a text asks for. What begins with a slash but is no command is a
/// question like any other.
pub open spec fn slash_spec(input: Seq<char>) -> Option<SlashView> {
    let text = trim_spec(input);
    let parts = words_spec(text);
    let n = parts.len();
    if !has_prefix(text, "/"@) || n == 0 {
        None
    } else {
        let first = parts[0];
        if n == 1 && first == "/exit"@ {
            Some(SlashView::Exit)
        } else if n == 1 && first == "/cancel"@ {
            Some(SlashView::Cancel)
        } else if n == 1 && first == "/context"@ {
            Some(SlashView::Context)
        } else if n == 1 && first == "/usage"@ {
            Some(SlashView::Usage)
        } else if n == 1 && first == "/session"@ {
            Some(SlashView::Session)
        } else if n == 1 && first == "/new-session"@ {
            Some(SlashView::NewSession)
        } else if n == 1 && first == "/reset"@ {
            Some(SlashView::Reset)
        } else if n == 1 && first == "/permissions"@ {
            Some(SlashView::Permissions)
        } else if n == 3 && first == "/permission"@ {
            Some(SlashView::Permission(parts[1], parts[2]))
        } else if first == "/permissions"@ || first == "/permission"@ {
            Some(SlashView::PermissionUsage)
        } else if first == "/mcp"@ {
            Some(SlashView::Mcp(text))
        } else if first == "/trace"@ {
            Some(SlashView::Trace(text))
        } else if first == "/verbose"@ {
            Some(SlashView::Verbose(text))
        } else if first == "/approve"@ {
            match (n == 2, id_of(parts[1])) {
                (true, Some(id)) => Some(SlashView::Approve(id)),
                _ => Some(SlashView::ApprovalUsage),
            }
        } else if first == "/deny"@ {
            match (n == 2, id_of(parts[1])) {
                (true, Some(id)) => Some(SlashView::Deny(id)),
                _ => Some(SlashView::ApprovalUsage),
            }
        } else {
            None
        }
    }
}

/// What a text with a slash asks for.
pub fn classify_slash(input: &str) -> (r: Option<SlashAction>)
    ensures
        slash_opt(r) == slash_spec(input@),
{
    let text = trim(input);
    if !starts_with(&text, "/") {
        return None;
    }
    let parts = words(&text);
    let n: usize = parts.len();
    assert(views(parts@).len() == n);
    if n == 0 {
        return None;
    }
    assert(forall|i: int| 0 <= i < n ==> views(parts@)[i] == (#[trigger] parts@[i])@);
    let first = &parts[0];
    if n == 1 {
        if same(first, "/exit") {
            return Some(SlashAction::Exit);
        }
        if same(first, "/cancel") {
            return Some(SlashAction::Cancel);
        }
        if same(first, "/context") {
            return Some(SlashAction::Context);
        }
        if same(first, "/usage") {
            return Some(SlashAction::Usage);
        }
        if same(first, "/session") {
            return Some(SlashAction::Session);
        }
        if same(first, "/new-session") {
            return Some(SlashAction::NewSession);
        }
        if same(first, "/reset") {
            return Some(SlashAction::Reset);
        }
        if same(first, "/permissions") {
            return Some(SlashAction::Permissions);
        }
    }
    if n == 3 && same(first, "/permission") {
        return Some(
            SlashAction::Permission { name: parts[1].clone(), value: parts[2].clone() },
        );
    }
    if same(first, "/permissions") || same(first, "/permission") {
        return Some(SlashAction::PermissionUsage);
    }
    if same(first, "/mcp") {
        return Some(SlashAction::Mcp { command: text });
    }
    if same(first, "/trace") {
        return Some(SlashAction::Trace { command: text });
    }
    if same(first, "/verbose") {
        return Some(SlashAction::Verbose { command: text });
    }
    let approve = same(first, "/approve");
    if approve || same(first, "/deny") {
        if n == 2 {
            if let Some(id) = parse_number(&parts[1], u64::MAX) {
                return Some(
                    if approve {
                        SlashAction::Approve { id }
                    } else {
                        SlashAction::Deny { id }
                    },
                );
            }
        }
        return Some(SlashAction::ApprovalUsage);
    }
    None
}

/// How the debug form of a text is written: in quotes, with escapes.
pub uninterp spec fn debug_text(text: Seq<char>) -> Seq<char>;

/// The debug form that std gives a text: a function of the text alone.
#[verifier::external_body]
fn quote(text: &str) -> (r: String)
    ensures
        r@ == debug_text(text@),
{
    format!("{text:?}")
}

pub open spec fn call_line(c: CallView) -> Seq<char> {
    "ToolCall { id: "@ + debug_text(c.id) + ", name: "@ + debug_text(c.name) + ", arguments: "@
        + debug_text(c.arguments) + " }"@
}

fn call_text(c: &ToolCall) -> (r: String)
    ensures
        r@ == call_line(c@),
{
    let mut t = "ToolCall { id: ".to_owned();
    t.append(quote(&c.id).as_str());
    t.append(", name: ");
    t.append(quote(&c.name).as_str());
    t.append(", arguments: ");
    t.append(quote(&c.arguments).as_str());
    t.append(" }");
    t
}

/// A message as it is shown for diagnosis.
pub open spec fn message_line(m: MessageView) -> Seq<char> {
    match m {
        MessageView::User { content } => "User { content: "@ + debug_text(content) + " }"@,
        MessageView::Assistant { content, tool_calls } => "Assistant { content: "@ + (
        match content {
            Some(t) => "Some("@ + debug_text(t) + ")"@,
            None => "None"@,
        }) + ", tool_calls: ["@ + join_spec(
            tool_calls.map_values(|c: CallView| call_line(c)),
            ", "@,
        ) + "] }"@,
        MessageView::Tool { call_id, content, is_error } => "Tool { call_id: "@ + debug_text(
            call_id,
        ) + ", content: "@ + debug_text(content) + ", is_error: "@ + (if is_error {
            "true"@
        } else {
            "false"@
        }) + " }"@,
    }
}

fn message_text(m: &Message) -> (r: String)
    ensures
        r@ == message_line(m@),
{
    match m {
        Message::User { content } => {
            let mut t = "User { content: ".to_owned();
            t.append(quote(content).as_str());
            t.append(" }");
            t
        },
        Message::Assistant { content, tool_calls } => {
            let ghost all = calls_view(tool_calls@);
            let ghost f = |c: CallView| call_line(c);
            let mut calls: Vec<String> = Vec::new();
            for i in 0..tool_calls.len()
                invariant
                    all == calls_view(tool_calls@),
                    f == (|c: CallView| call_line(c)),
                    views(calls@) =~= all.take(i as int).map_values(f),
            {
                let call = call_text(&tool_calls[i]);
                proof {
                    lemma_views_push(calls@, call);
                    assert(all.take(i + 1).map_values(f) =~= all.take(i as int).map_values(
                        f,
                    ).push(call@));
                }
                calls.push(call);
            }
            assert(all.take(tool_calls@.len() as int) =~= all);
            let text = match content {
                Some(c) => {
                    let mut s = "Some(".to_owned();
                    s.append(quote(c).as_str());
                    s.append(")");
                    s
                },
                None => "None".to_owned(),
            };
            let mut t = "Assistant { content: ".to_owned();
            t.append(text.as_str());
            t.append(", tool_calls: [");
            t.append(join(&calls, ", ").as_str());
            t.append("] }");
            t
        },
        Message::Tool { call_id, content, is_error } => {
            let mut t = "Tool { call_id: ".to_owned();
            t.append(quote(call_id).as_str());
            t.append(", content: ");
            t.append(quote(content).as_str());
            t.append(", is_error: ");
            t.append(
                if *is_error {
                    "true"
                } else {
                    "false"
                },
            );
            t.append(" }");
            t
        },
    }
}

/// The lines that show a history, each message behind its number.
pub open spec fn context_lines(prompt: Seq<char>, ms: Seq<MessageView>) -> Seq<Seq<char>> {
    seq![
        "[ContextMemory] messages="@ + dec(ms.len())
            + "（不含 System；原始历史，不是本次模型请求）"@,
        "System: "@ + debug_text(prompt),
    ] + Seq::new(
        ms.len(),
        |i: int| dec((i + 1) as nat) + ": "@ + message_line(ms[i]),
    )
}

/// The history as it is shown for diagnosis.
pub fn format_context(system_prompt: &str, messages: &[Message]) -> (r: String)
    ensures
        r@ == join_spec(context_lines(system_prompt@, messages_view(messages@)), "\n"@),
{
    let ghost ms = messages_view(messages@);
    let ghost want = context_lines(system_prompt@, ms);
    let count: usize = messages.len();
    let mut first = "[ContextMemory] messages=".to_owned();
    first.append(decimal_size(count).as_str());
    first.append("（不含 System；原始历史，不是本次模型请求）");
    let mut second = "System: ".to_owned();
    second.append(quote(system_prompt).as_str());
    let ghost head = seq![first@, second@];
    let mut lines: Vec<String> = Vec::new();
    lines.push(first);
    lines.push(second);
    assert(views(lines@) =~= want.take(2));
    for i in 0..count
        invariant
            count == messages@.len(),
            ms == messages_view(messages@),
            want == context_lines(system_prompt@, ms),
            views(lines@) == want.take(i + 2),
    {
        let mut line = decimal_size(i + 1);
        line.append(": ");
        line.append(message_text(&messages[i]).as_str());
        proof {
            assert(ms[i as int] == messages@[i as int]@);
            lemma_views_push(lines@, line);
            assert(want[i + 2] == line@);
            assert(want.take(i + 3) =~= want.take(i + 2).push(line@));
        }
        lines.push(line);
    }
    assert(want.take(count + 2) =~= want);
    join(&lines, "\n")
}

pub open spec fn state_word(s: TurnState) -> Seq<char> {
    match s {
        TurnState::Running => "Running"@,
        TurnState::WaitingForTools => "WaitingForTools"@,
        TurnState::Completed => "Completed"@,
        TurnState::Failed => "Failed"@,
        TurnState::Cancelled => "Cancelled"@,
    }
}

fn word_of_state(s: TurnState) -> (r: &'static str)
    ensures
        r@ == state_word(s),
{
    match s {
        TurnState::Running => "Running",
        TurnState::WaitingForTools => "WaitingForTools",
        TurnState::Completed => "Completed",
        TurnState::Failed => "Failed",
        TurnState::Cancelled => "Cancelled",
    }
}

/// A usage as it is shown.
pub open spec fn usage_line(u: TokenUsage) -> Seq<char> {
    "输入 "@ + dec(u.prompt_tokens as nat) + " · 输出 "@ + dec(u.completion_tokens as nat)
        + " · 合计 "@ + dec(u.total_tokens as nat)
}

fn usage_text(u: &TokenUsage) -> (r: String)
    ensures
        r@ == usage_line(*u),
{
    let mut t = "输入 ".to_owned();
    t.append(decimal_size(u.prompt_tokens).as_str());
    t.append(" · 输出 ");
    t.append(decimal_size(u.completion_tokens).as_str());
    t.append(" · 合计 ");
    t.append(decimal_size(u.total_tokens).as_str());
    t
}

/// The lines about the latest turn.
pub open spec fn turn_lines(turn: Option<ReportView>, messages: nat) -> Seq<Seq<char>> {
    match turn {
        Some(t) => seq![
            "=== 最近一次 Turn："@ + dec(t.id as nat) + " ===\n状态："@ + state_word(t.state)
                + " · 步骤："@ + dec(t.steps as nat) + " · 重试："@ + dec(t.retries as nat)
                + "\n上下文消息："@ + dec(messages),
            "本轮用量："@ + usage_line(t.usage),
        ],
        None => seq!["尚未执行 Turn。"@],
    }
}

/// The usage of the latest turn and of the session.
pub open spec fn usage_report(turn: Option<ReportView>, messages: nat, session: TokenUsage) -> Seq<char> {
    join_spec(
        turn_lines(turn, messages) + seq![
            "=== 当前会话累计用量 ===\n"@ + usage_line(session),
            "说明：只累计模型实际返回的 usage；未返回的用量未知。/reset 不清空累计用量。"@,
        ],
        "\n"@,
    )
}

/// The usage of the latest turn and of the session.
pub fn format_usage(turn: Option<&TurnReport>, messages: usize, session: &TokenUsage) -> (r: String)
    ensures
        r@ == usage_report(
            match turn {
                Some(t) => Some(t@),
                None => None,
            },
            messages as nat,
            *session,
        ),
{
    let ghost view = match turn {
        Some(t) => Some(t@),
        None => None,
    };
    let mut lines: Vec<String> = Vec::new();
    match turn {
        Some(t) => {
            let mut a = "=== 最近一次 Turn：".to_owned();
            a.append(decimal(t.id as u128).as_str());
            a.append(" ===\n状态：");
            a.append(word_of_state(t.state));
            a.append(" · 步骤：");
            a.append(decimal_size(t.steps).as_str());
            a.append(" · 重试：");
            a.append(decimal_size(t.retries).as_str());
            a.append("\n上下文消息：");
            a.append(decimal_size(messages).as_str());
            let mut b = "本轮用量：".to_owned();
            b.append(usage_text(&t.usage).as_str());
            lines.push(a);
            lines.push(b);
        },
        None => {
            lines.push("尚未执行 Turn。".to_owned());
        },
    }
    assert(views(lines@) =~= turn_lines(view, messages as nat));
    let mut c = "=== 当前会话累计用量 ===\n".to_owned();
    c.append(usage_text(session).as_str());
    let ghost before = views(lines@);
    let ghost third = c@;
    lines.push(c);
    lines.push(
        "说明：只累计模型实际返回的 usage；未返回的用量未知。/reset 不清空累计用量。".to_owned(),
    );
    assert(views(lines@) =~= before + seq![
        third,
        "说明：只累计模型实际返回的 usage；未返回的用量未知。/reset 不清空累计用量。"@,
    ]);
    join(&lines, "\n")
}

/// The files of a session as they are shown.
pub open spec fn session_report(p: PathsView) -> Seq<char> {
    "[Session]\n目录："@ + p.directory + "\n上下文："@ + p.context + "\n审计："@ + p.trace
        + "\n状态："@ + p.state
}

/// The files of a session as they are shown.
pub fn format_session(paths: &SessionPaths) -> (r: String)
    ensures
        r@ == session_report(paths@),
{
    let mut t = "[Session]\n目录：".to_owned();
    t.append(paths.directory.as_str());
    t.append("\n上下文：");
    t.append(paths.context.as_str());
    t.append("\n审计：");
    t.append(paths.trace.as_str());
    t.append("\n状态：");
    t.append(paths.state.as_str());
    t
}

/// The permissions one to a line.
pub fn format_permissions(permissions: &Vec<(String, ToolPermission)>) -> (r: String)
    ensures
        r@ == join_spec(
            permissions_view(permissions@).map_values(
                |p: (Seq<char>, ToolPermission)| p.0 + ": "@ + p.1.word(),
            ),
            "\n"@,
        ),
{
    let ghost all = permissions_view(permissions@);
    let ghost f = |p: (Seq<char>, ToolPermission)| p.0 + ": "@ + p.1.word();
    let mut lines: Vec<String> = Vec::new();
    for i in 0..permissions.len()
        invariant
            all == permissions_view(permissions@),
            f == (|p: (Seq<char>, ToolPermission)| p.0 + ": "@ + p.1.word()),
            views(lines@) =~= all.take(i as int).map_values(f),
    {
        let mut line = permissions[i].0.clone();
        line.append(": ");
        line.append(permissions[i].1.as_str());
        proof {
            lemma_views_push(lines@, line);
            assert(all.take(i + 1).map_values(f) =~= all.take(i as int).map_values(f).push(line@));
        }
        lines.push(line);
    }
    assert(all.take(permissions@.len() as int) =~= all);
    join(&lines, "\n")
}

/// The answer to a change of a permission.
pub fn permission_answer(name: &str, value: &str, outcome: Result<(), String>) -> (r: String)
    ensures
        r@ == match outcome {
            Ok(_) => "[权限] "@ + name@ + " = "@ + value@ + "（当前会话；/reset 保留）"@,
            Err(e) => "权限设置失败: "@ + e@,
        },
{
    match outcome {
        Ok(_) => {
            let mut t = "[权限] ".to_owned();
            t.append(name);
            t.append(" = ");
            t.append(value);
            t.append("（当前会话；/reset 保留）");
            t
        },
        Err(e) => {
            let mut t = "权限设置失败: ".to_owned();
            t.append(e.as_str());
            t
        },
    }
}

/// How to change a permission.
pub fn permission_usage() -> (r: &'static str)
    ensures
        r@ == "用法：/permissions 或 /permission <工具名> allow|deny|ask"@,
{
    "用法：/permissions 或 /permission <工具名> allow|deny|ask"
}

/// How to answer a request for permission.
pub fn approval_usage() -> (r: &'static str)
    ensures
        r@ == "用法：/approve <编号> 或 /deny <编号>"@,
{
    "用法：/approve <编号> 或 /deny <编号>"
}

/// The answer to the command that switches details on and off; `current` is
/// the present setting, where there is one.
pub open spec fn verbose_spec(command: Seq<char>, current: Option<bool>) -> Seq<char> {
    let parts = words_spec(command);
    let named = parts.len() > 0 && parts[0] == "/verbose"@;
    let switched = parts.len() == 2 && (parts[1] == "on"@ || parts[1] == "off"@);
    if named && parts.len() == 1 {
        match current {
            Some(verbose) => "[界面] 当前为"@ + (if verbose {
                "详细"@
            } else {
                "紧凑"@
            }) + "模式。用法：/verbose on|off"@,
            None => "独立窗口始终显示对话事件。用法：/verbose on|off（仅 TUI 切换紧凑/详细）。"@,
        }
    } else if named && switched {
        match current {
            Some(_) => ""@,
            None => "独立窗口没有紧凑/详细切换，对话事件会直接显示。"@,
        }
    } else {
        "用法：/verbose on|off"@
    }
}

/// The answer to the command that switches details on and off.
pub fn format_verbose(command: &str, current: Option<bool>) -> (r: String)
    ensures
        r@ == verbose_spec(command@, current),
{
    let parts = words(command);
    let n: usize = parts.len();
    assert(views(parts@).len() == n);
    assert(forall|i: int| 0 <= i < n ==> views(parts@)[i] == (#[trigger] parts@[i])@);
    if n == 0 || !same(&parts[0], "/verbose") {
        return "用法：/verbose on|off".to_owned();
    }
    if n == 1 {
        return match current {
            Some(verbose) => {
                let mut t = "[界面] 当前为".to_owned();
                t.append(
                    if verbose {
                        "详细"
                    } else {
                        "紧凑"
                    },
                );
                t.append("模式。用法：/verbose on|off");
                t
            },
            None => {
                "独立窗口始终显示对话事件。用法：/verbose on|off（仅 TUI 切换紧凑/详细）。".to_owned()
            },
        };
    }
    if n == 2 && (same(&parts[1], "on") || same(&parts[1], "off")) {
        return match current {
            Some(_) => "".to_owned(),
            None => "独立窗口没有紧凑/详细切换，对话事件会直接显示。".to_owned(),
        };
    }
    "用法：/verbose on|off".to_owned()
}

/// The turn whose tool calls are asked for, or the answer where there is none.
pub open spec fn trace_turn(command: Seq<char>, last: Option<u64>) -> Result<u64, Seq<char>> {
    let parts = words_spec(command);
    if parts.len() == 1 && parts[0] == "/trace"@ {
        match last {
            Some(id) => Ok(id),
            None => Err("[ToolTrace] 尚未执行 Turn。"@),
        }
    } else if parts.len() == 2 && parts[0] == "/trace"@ && id_of(parts[1]) is Some {
        Ok(id_of(parts[1])->0)
    } else {
        Err("用法：/trace 或 /trace <turn_id>"@)
    }
}

/// The turn whose tool calls are asked for.
pub fn trace_request(command: &str, last: Option<u64>) -> (r: Result<u64, String>)
    ensures
        match r {
            Ok(id) => trace_turn(command@, last) == Ok::<u64, Seq<char>>(id),
            Err(e) => trace_turn(command@, last) == Err::<u64, Seq<char>>(e@),
        },
{
    let parts = words(command);
    let n: usize = parts.len();
    assert(views(parts@).len() == n);
    assert(forall|i: int| 0 <= i < n ==> views(parts@)[i] == (#[trigger] parts@[i])@);
    if n > 0 && same(&parts[0], "/trace") {
        if n == 1 {
            return match last {
                Some(id) => Ok(id),
                None => Err("[ToolTrace] 尚未执行 Turn。".to_owned()),
            };
        }
        if n == 2 {
            if let Some(id) = parse_number(&parts[1], u64::MAX) {
                return Ok(id);
            }
        }
    }
    Err("用法：/trace 或 /trace <turn_id>".to_owned())
}

/// A tool call as it is shown.
pub open spec fn trace_entry(number: nat, t: TraceView) -> Seq<char> {
    dec(number) + ". Step "@ + dec(t.step as nat) + " · "@ + t.tool_name + " · "@ + (
    match t.status {
        ToolTraceStatus::Success => "成功"@,
        ToolTraceStatus::Error => "失败"@,
    }) + "\n调用："@ + t.call_id + "\n参数："@ + t.arguments_preview + "\n参数哈希："@
        + t.arguments_hash + " · 结果哈希："@ + t.result_hash + "\n耗时："@ + dec(
        t.duration_ms as nat,
    ) + "ms · 完成："@ + t.completed_at
}

fn trace_text(number: usize, t: &ToolTrace) -> (r: String)
    ensures
        r@ == trace_entry(number as nat, t@),
{
    let mut s = decimal_size(number);
    s.append(". Step ");
    s.append(decimal_size(t.step).as_str());
    s.append(" · ");
    s.append(t.tool_name.as_str());
    s.append(" · ");
    match t.status {
        ToolTraceStatus::Success => s.append("成功"),
        ToolTraceStatus::Error => s.append("失败"),
    }
    s.append("\n调用：");
    s.append(t.call_id.as_str());
    s.append("\n参数：");
    s.append(t.arguments_preview.as_str());
    s.append("\n参数哈希：");
    s.append(t.arguments_hash.as_str());
    s.append(" · 结果哈希：");
    s.append(t.result_hash.as_str());
    s.append("\n耗时：");
    s.append(decimal(t.duration_ms as u128).as_str());
    s.append("ms · 完成：");
    s.append(t.completed_at.as_str());
    s
}

/// The tool calls of a turn as they are shown.
pub open spec fn trace_report(turn_id: u64, traces: Seq<TraceView>) -> Seq<char> {
    if traces.len() == 0 {
        "[ToolTrace] Turn "@ + dec(turn_id as nat) + " 没有工具调用记录。"@
    } else {
        join_spec(
            seq![
                "[ToolTrace] Turn "@ + dec(turn_id as nat) + " · "@ + dec(traces.len())
                    + " 次调用（审计记录不参与模型上下文）"@,
            ] + Seq::new(traces.len(), |i: int| trace_entry((i + 1) as nat, traces[i])),
            "\n"@,
        )
    }
}

/// The tool calls of a turn as they are shown.
pub fn format_trace(turn_id: u64, traces: &Vec<ToolTrace>) -> (r: String)
    ensures
        r@ == trace_report(turn_id, crate::session::tool_traces_view(traces@)),
{
    let ghost all = crate::session::tool_traces_view(traces@);
    let count: usize = traces.len();
    let mut first = "[ToolTrace] Turn ".to_owned();
    first.append(decimal(turn_id as u128).as_str());
    if count == 0 {
        first.append(" 没有工具调用记录。");
        return first;
    }
    first.append(" · ");
    first.append(decimal_size(count).as_str());
    first.append(" 次调用（审计记录不参与模型上下文）");
    let ghost want = seq![first@] + Seq::new(
        all.len(),
        |i: int| trace_entry((i + 1) as nat, all[i]),
    );
    let mut lines: Vec<String> = Vec::new();
    lines.push(first);
    assert(views(lines@) =~= want.take(1));
    for i in 0..count
        invariant
            count == traces@.len(),
            all == crate::session::tool_traces_view(traces@),
            want.len() == count + 1,
            forall|j: int|
                1 <= j < want.len() ==> #[trigger] want[j] == trace_entry(j as nat, all[j - 1]),
            views(lines@) == want.take(i + 1),
    {
        let line = trace_text(i + 1, &traces[i]);
        proof {
            lemma_views_push(lines@, line);
            assert(all[i as int] == traces@[i as int]@);
            assert(want[i + 1] == line@);
            assert(want.take(i + 2) =~= want.take(i + 1).push(line@));
        }
        lines.push(line);
    }
    assert(want.take(count + 1) =~= want);
    join(&lines, "\n")
}

/// A configuration as it is shown.
pub open spec fn source_line(
    label: Seq<char>,
    path: Option<Seq<char>>,
    loaded: Seq<Seq<char>>,
    skipped: Option<Seq<char>>,
    is_file: bool,
) -> Seq<char> {
    match path {
        None => label + "：未设置"@,
        Some(p) => {
            let read = exists|i: int|
                0 <= i < loaded.len() && #[trigger] same_path_spec(loaded[i], p);
            let state = if read {
                "已加载"@
            } else if skipped is Some && same_path_spec(skipped->0, p) {
                "已跳过，输入 /mcp trust 启用"@
            } else if is_file {
                "存在但未加载"@
            } else {
                "未找到"@
            };
            label + "："@ + p + "（"@ + state + "）"@
        },
    }
}

/// A configuration as it is shown.
pub fn mcp_source_line(
    label: &str,
    path: Option<&str>,
    loaded: &[String],
    skipped: Option<&str>,
    is_file: bool,
) -> (r: String)
    ensures
        r@ == source_line(
            label@,
            match path {
                Some(p) => Some(p@),
                None => None,
            },
            views(loaded@),
            match skipped {
                Some(p) => Some(p@),
                None => None,
            },
            is_file,
        ),
{
    let mut t = label.to_owned();
    let p = match path {
        Some(p) => p,
        None => {
            t.append("：未设置");
            return t;
        },
    };
    let ghost all = views(loaded@);
    let mut read = false;
    for i in 0..loaded.len()
        invariant
            all == views(loaded@),
            read == exists|j: int| 0 <= j < i && #[trigger] same_path_spec(all[j], p@),
    {
        assert(all[i as int] == loaded@[i as int]@);
        if same_path(&loaded[i], p) {
            assert(same_path_spec(all[i as int], p@));
            read = true;
        }
    }
    let left_out = match skipped {
        Some(s) => same_path(s, p),
        None => false,
    };
    let state = if read {
        "已加载"
    } else if left_out {
        "已跳过，输入 /mcp trust 启用"
    } else if is_file {
        "存在但未加载"
    } else {
        "未找到"
    };
    t.append("：");
    t.append(p);
    t.append("（");
    t.append(state);
    t.append("）");
    t
}

/// The number of all tools that servers offer, at most `usize::MAX`.
pub open spec fn tool_count(list: Seq<StatusView>) -> usize
    decreases list.len(),
{
    if list.len() == 0 {
        0
    } else {
        tool_count(list.drop_last()).saturating_add(list.last().tools.len() as usize)
    }
}

/// The number of all tools that servers offer.
pub fn count_tools(list: &[McpServerStatus]) -> (r: usize)
    ensures
        r == tool_count(crate::mcp::manager::statuses_view(list@)),
{
    let ghost all = crate::mcp::manager::statuses_view(list@);
    let mut n: usize = 0;
    assert(all.take(0) =~= Seq::empty());
    for i in 0..list.len()
        invariant
            all == crate::mcp::manager::statuses_view(list@),
            n == tool_count(all.take(i as int)),
    {
        assert(all.take(i + 1).drop_last() =~= all.take(i as int));
        assert(all.take(i + 1).last() == list@[i as int]@);
        assert(views(list@[i as int].tools@).len() == list@[i as int].tools@.len());
        n = n.saturating_add(list[i].tools.len());
    }
    assert(all.take(list@.len() as int) =~= all);
    n
}

/// The lines about a server.
pub open spec fn server_lines(s: StatusView) -> Seq<Seq<char>> {
    let first = "- "@ + s.name + ": "@ + s.state.word() + " · "@ + dec(s.tools.len())
        + " 个工具"@ + (match s.detail {
        Some(d) => " · "@ + d,
        None => Seq::empty(),
    });
    if s.tools.len() == 0 {
        seq![first]
    } else {
        seq![first, "  "@ + join_spec(s.tools, ", "@)]
    }
}

pub open spec fn all_server_lines(list: Seq<StatusView>) -> Seq<Seq<char>>
    decreases list.len(),
{
    if list.len() == 0 {
        Seq::empty()
    } else {
        all_server_lines(list.drop_last()) + server_lines(list.last())
    }
}

/// The servers as they are shown, behind the lines about the configurations.
pub open spec fn mcp_report(m: ManagerView, user_is_file: bool, project_is_file: bool) -> Seq<char> {
    let user = source_line(
        "用户配置"@,
        m.global_config,
        m.loaded_files,
        m.skipped_project_file,
        user_is_file,
    );
    let project = source_line(
        "项目配置"@,
        m.project_config,
        m.loaded_files,
        m.skipped_project_file,
        project_is_file,
    );
    let head = seq![
        "[MCP] 已连接 "@ + dec(m.connections.len()) + "/"@ + dec(m.statuses.len())
            + " 个 Server，注册 "@ + dec(tool_count(m.statuses) as nat) + " 个工具"@,
        user,
        project,
    ];
    let hint = if m.statuses.len() == 0 && m.loaded_files.len() > 0 {
        seq!["提示：配置文件已读取，但 mcpServers 为空；当前没有可连接的 MCP Server。"@]
    } else {
        Seq::empty()
    };
    join_spec(head + hint + all_server_lines(m.statuses), "\n"@)
}

/// The servers as they are shown, behind the lines about the configurations of
/// the user and of the project, of which is known whether they are files.
pub fn format_mcp(manager: &McpManager, user_is_file: bool, project_is_file: bool) -> (r: String)
    ensures
        r@ == mcp_report(manager@, user_is_file, project_is_file),
{
    let user = mcp_source_line(
        "用户配置",
        manager.global_config(),
        manager.loaded_files(),
        manager.skipped_project_file(),
        user_is_file,
    );
    let project = mcp_source_line(
        "项目配置",
        manager.project_config(),
        manager.loaded_files(),
        manager.skipped_project_file(),
        project_is_file,
    );
    let list = manager.statuses();
    let ghost all = manager@.statuses;
    assert(all.len() == list@.len());
    let mut first = "[MCP] 已连接 ".to_owned();
    first.append(decimal_size(manager.active_connections()).as_str());
    first.append("/");
    first.append(decimal_size(list.len()).as_str());
    first.append(" 个 Server，注册 ");
    first.append(decimal_size(count_tools(list)).as_str());
    first.append(" 个工具");
    let ghost head = seq![first@, user@, project@];
    let mut lines: Vec<String> = Vec::new();
    lines.push(first);
    lines.push(user);
    lines.push(project);
    assert(views(lines@) =~= head);
    let files = manager.loaded_files();
    assert(views(files@).len() == files@.len());
    let ghost hint: Seq<Seq<char>> = if list@.len() == 0 && files@.len() > 0 {
        seq!["提示：配置文件已读取，但 mcpServers 为空；当前没有可连接的 MCP Server。"@]
    } else {
        Seq::empty()
    };
    if list.len() == 0 && files.len() > 0 {
        lines.push(
            "提示：配置文件已读取，但 mcpServers 为空；当前没有可连接的 MCP Server。".to_owned(),
        );
    }
    assert(views(lines@) =~= head + hint);
    let ghost start = views(lines@);
    assert(all.take(0) =~= Seq::empty());
    assert(start + all_server_lines(all.take(0)) =~= start);
    for i in 0..list.len()
        invariant
            all == crate::mcp::manager::statuses_view(list@),
            views(lines@) == start + all_server_lines(all.take(i as int)),
    {
        let s = &list[i];
        let ghost before = all_server_lines(all.take(i as int));
        proof {
            assert(all.take(i + 1).drop_last() =~= all.take(i as int));
            assert(all.take(i + 1).last() == s@);
            assert(views(s.tools@).len() == s.tools@.len());
        }
        let mut line = "- ".to_owned();
        line.append(s.name.as_str());
        line.append(": ");
        line.append(s.state.as_str());
        line.append(" · ");
        line.append(decimal_size(s.tools.len()).as_str());
        line.append(" 个工具");
        let mut detail = String::new();
        assert(detail@ =~= Seq::empty());
        if let Some(d) = &s.detail {
            detail = " · ".to_owned();
            detail.append(d.as_str());
        }
        line.append(detail.as_str());
        let ghost a = line@;
        proof {
            lemma_views_push(lines@, line);
        }
        lines.push(line);
        if s.tools.len() > 0 {
            let mut names = "  ".to_owned();
            names.append(join(&s.tools, ", ").as_str());
            let ghost b = names@;
            proof {
                lemma_views_push(lines@, names);
            }
            lines.push(names);
            assert(start + before.push(a).push(b) =~= views(lines@));
            assert(before.push(a).push(b) =~= before + seq![a, b]);
        } else {
            assert(start + before.push(a) =~= views(lines@));
            assert(before.push(a) =~= before + seq![a]);
        }
    }
    assert(all.take(list@.len() as int) =~= all);
    join(&lines, "\n")
}

/// The tools of a server, each behind the server's name.
pub open spec fn offered_lines(s: StatusView) -> Seq<Seq<char>> {
    s.tools.map_values(|t: Seq<char>| s.name + ": "@ + t)
}

pub open spec fn all_offered_lines(list: Seq<StatusView>) -> Seq<Seq<char>>
    decreases list.len(),
{
    if list.len() == 0 {
        Seq::empty()
    } else {
        all_offered_lines(list.drop_last()) + offered_lines(list.last())
    }
}

/// The tools of all servers as they are shown.
pub fn format_mcp_tools(manager: &McpManager) -> (r: String)
    ensures
        r@ == if all_offered_lines(manager@.statuses).len() == 0 {
            "[MCP] 当前没有已注册工具。"@
        } else {
            "[MCP] 已注册工具\n"@ + join_spec(all_offered_lines(manager@.statuses), "\n"@)
        },
{
    let list = manager.statuses();
    let ghost all = manager@.statuses;
    let mut lines: Vec<String> = Vec::new();
    assert(all.take(0) =~= Seq::empty());
    assert(views(lines@) =~= Seq::empty());
    for i in 0..list.len()
        invariant
            all == crate::mcp::manager::statuses_view(list@),
            views(lines@) == all_offered_lines(all.take(i as int)),
    {
        let s = &list[i];
        let ghost before = views(lines@);
        let ghost tools = views(s.tools@);
        let ghost f = |t: Seq<char>| s@.name + ": "@ + t;
        proof {
            assert(all.take(i + 1).drop_last() =~= all.take(i as int));
            assert(all.take(i + 1).last() == s@);
            assert(before + tools.take(0).map_values(f) =~= before);
        }
        let count: usize = s.tools.len();
        for j in 0..count
            invariant
                count == s.tools@.len(),
                tools == views(s.tools@),
                f == (|t: Seq<char>| s@.name + ": "@ + t),
                views(lines@) == before + tools.take(j as int).map_values(f),
        {
            let mut line = s.name.clone();
            line.append(": ");
            line.append(s.tools[j].as_str());
            proof {
                lemma_views_push(lines@, line);
                assert(tools[j as int] == s.tools@[j as int]@);
                assert(before + tools.take(j + 1).map_values(f) =~= (before + tools.take(
                    j as int,
                ).map_values(f)).push(line@));
            }
            lines.push(line);
        }
        assert(tools.take(count as int) =~= tools);
    }
    assert(all.take(list@.len() as int) =~= all);
    assert(views(lines@).len() == lines@.len());
    if lines.len() == 0 {
        return "[MCP] 当前没有已注册工具。".to_owned();
    }
    let mut t = "[MCP] 已注册工具\n".to_owned();
    t.append(join(&lines, "\n").as_str());
    t
}

/// What the command about servers asks for.
#[derive(Clone, Debug, PartialEq)]
pub enum McpCommand {
    Status,
    Tools,
    Trust,
    Untrust,
    Reload,
    Connect(String),
    Auth(String),
    Disconnect(String),
    Logout(String),
    Usage,
}

#[verifier::ext_equal]
pub enum McpCommandView {
    Status,
    Tools,
    Trust,
    Untrust,
    Reload,
    Connect(Seq<char>),
    Auth(Seq<char>),
    Disconnect(Seq<char>),
    Logout(Seq<char>),
    Usage,
}

impl View for McpCommand {
    type V = McpCommandView;

    open spec fn view(&self) -> McpCommandView {
        match self {
            McpCommand::Status => McpCommandView::Status,
            McpCommand::Tools => McpCommandView::Tools,
            McpCommand::Trust => McpCommandView::Trust,
            McpCommand::Untrust => McpCommandView::Untrust,
            McpCommand::Reload => McpCommandView::Reload,
            McpCommand::Connect(s) => McpCommandView::Connect(s@),
            McpCommand::Auth(s) => McpCommandView::Auth(s@),
            McpCommand::Disconnect(s) => McpCommandView::Disconnect(s@),
            McpCommand::Logout(s) => McpCommandView::Logout(s@),
            McpCommand::Usage => McpCommandView::Usage,
        }
    }
}

/// What the command about servers asks for.
pub open spec fn mcp_command_spec(command: Seq<char>) -> McpCommandView {
    let parts = words_spec(command);
    let n = parts.len();
    if n == 0 || n > 3 || parts[0] != "/mcp"@ {
        McpCommandView::Usage
    } else if n == 1 {
        McpCommandView::Status
    } else if n == 2 {
        if parts[1] == "status"@ {
            McpCommandView::Status
        } else if parts[1] == "tools"@ {
            McpCommandView::Tools
        } else if parts[1] == "trust"@ {
            McpCommandView::Trust
        } else if parts[1] == "untrust"@ {
            McpCommandView::Untrust
        } else if parts[1] == "reload"@ {
            McpCommandView::Reload
        } else {
            McpCommandView::Usage
        }
    } else if parts[1] == "connect"@ {
        McpCommandView::Connect(parts[2])
    } else if parts[1] == "auth"@ {
        McpCommandView::Auth(parts[2])
    } else if parts[1] == "disconnect"@ {
        McpCommandView::Disconnect(parts[2])
    } else if parts[1] == "logout"@ {
        McpCommandView::Logout(parts[2])
    } else {
        McpCommandView::Usage
    }
}

/// What the command about servers asks for.
pub fn parse_mcp_command(command: &str) -> (r: McpCommand)
    ensures
        r@ == mcp_command_spec(command@),
{
    let parts = words(command);
    let n: usize = parts.len();
    assert(views(parts@).len() == n);
    assert(forall|i: int| 0 <= i < n ==> views(parts@)[i] == (#[trigger] parts@[i])@);
    if n == 0 || n > 3 || !same(&parts[0], "/mcp") {
        return McpCommand::Usage;
    }
    if n == 1 {
        return McpCommand::Status;
    }
    let verb = &parts[1];
    if n == 2 {
        if same(verb, "status") {
            McpCommand::Status
        } else if same(verb, "tools") {
            McpCommand::Tools
        } else if same(verb, "trust") {
            McpCommand::Trust
        } else if same(verb, "untrust") {
            McpCommand::Untrust
        } else if same(verb, "reload") {
            McpCommand::Reload
        } else {
            McpCommand::Usage
        }
    } else {
        let server = parts[2].clone();
        if same(verb, "connect") {
            McpCommand::Connect(server)
        } else if same(verb, "auth") {
            McpCommand::Auth(server)
        } else if same(verb, "disconnect") {
            McpCommand::Disconnect(server)
        } else if same(verb, "logout") {
            McpCommand::Logout(server)
        } else {
            McpCommand::Usage
        }
    }
}

/// The words about a command that changes something: what is said where it
/// succeeded, and where it failed.
pub open spec fn change_words_for(c: McpCommandView) -> (Seq<char>, Seq<char>) {
    match c {
        McpCommandView::Trust => ("[MCP] 已信任并加载项目配置。\n"@, "[MCP] 启用项目配置失败："@),
        McpCommandView::Untrust => ("[MCP] 已跳过项目配置。\n"@, "[MCP] 取消项目配置失败："@),
        McpCommandView::Reload => ("[MCP] 配置已原子重载。\n"@, "[MCP] 重载失败："@),
        McpCommandView::Connect(s) => (
            "[MCP] Server `"@ + s + "` 已连接。\n"@,
            "[MCP] 连接失败："@,
        ),
        McpCommandView::Auth(s) => (
            "[MCP] Server `"@ + s + "` 已授权并连接。\n"@,
            "[MCP] 授权失败："@,
        ),
        McpCommandView::Disconnect(s) => (
            "[MCP] Server `"@ + s + "` 已断开。\n"@,
            "[MCP] 断开失败："@,
        ),
        McpCommandView::Logout(s) => (
            "[MCP] Server `"@ + s + "` 已退出登录。\n"@,
            "[MCP] 退出登录失败："@,
        ),
        _ => (""@, ""@),
    }
}

fn server_done(server: &str, done: &str) -> (r: String)
    ensures
        r@ == "[MCP] Server `"@ + server@ + done@,
{
    let mut t = "[MCP] Server `".to_owned();
    t.append(server);
    t.append(done);
    t
}

/// The answer to a command that changes something: the outcome, with the
/// servers as they are shown then.
pub fn mcp_change_answer(command: &McpCommand, outcome: Result<(), String>, shown: &str) -> (r: String)
    ensures
        r@ == match outcome {
            Ok(_) => change_words_for(command@).0 + shown@,
            Err(e) => change_words_for(command@).1 + e@,
        },
{
    match outcome {
        Ok(_) => {
            let mut t = match command {
                McpCommand::Trust => "[MCP] 已信任并加载项目配置。\n".to_owned(),
                McpCommand::Untrust => "[MCP] 已跳过项目配置。\n".to_owned(),
                McpCommand::Reload => "[MCP] 配置已原子重载。\n".to_owned(),
                McpCommand::Connect(s) => server_done(s, "` 已连接。\n"),
                McpCommand::Auth(s) => server_done(s, "` 已授权并连接。\n"),
                McpCommand::Disconnect(s) => server_done(s, "` 已断开。\n"),
                McpCommand::Logout(s) => server_done(s, "` 已退出登录。\n"),
                _ => "".to_owned(),
            };
            t.append(shown);
            t
        },
        Err(e) => {
            let mut t = match command {
                McpCommand::Trust => "[MCP] 启用项目配置失败：".to_owned(),
                McpCommand::Untrust => "[MCP] 取消项目配置失败：".to_owned(),
                McpCommand::Reload => "[MCP] 重载失败：".to_owned(),
                McpCommand::Connect(_) => "[MCP] 连接失败：".to_owned(),
                McpCommand::Auth(_) => "[MCP] 授权失败：".to_owned(),
                McpCommand::Disconnect(_) => "[MCP] 断开失败：".to_owned(),
                McpCommand::Logout(_) => "[MCP] 退出登录失败：".to_owned(),
                _ => "".to_owned(),
            };
            t.append(e.as_str());
            t
        },
    }
}

/// How to give the command about servers.
pub fn mcp_usage() -> (r: &'static str)
    ensures
        r@
            == "用法：/mcp [status|tools|trust|untrust|reload|connect <server>|disconnect <server>|auth <server>|logout <server>]"@,
{
    "用法：/mcp [status|tools|trust|untrust|reload|connect <server>|disconnect <server>|auth <server>|logout <server>]"
}

} // verus!
