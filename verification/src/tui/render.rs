//! Events and summaries as lines of text.
use vstd::prelude::*;
use crate::events::AgentEvent;
use crate::text::chars::{lemma_views_push, views};
use crate::text::number::{dec, decimal, decimal_size};
use crate::text::search::{after_prefix, join, join_spec, replace_first, replace_first_spec, strip_prefix};
use crate::context_builder::{compact_text, excerpt};

verus! {

/// The name of a tool as it is shown: a remote tool behind its server.
pub open spec fn shown_name(name: Seq<char>) -> Seq<char> {
    replace_first_spec(
        match after_prefix(name, "mcp__"@) {
            Some(rest) => rest,
            None => name,
        },
        "__"@,
        "."@,
    )
}

/// The name of a tool as it is shown.
pub fn display_tool_name(name: &str) -> (r: String)
    ensures
        r@ == shown_name(name@),
{
    let rest = match strip_prefix(name, "mcp__") {
        Some(t) => t,
        None => name.to_owned(),
    };
    replace_first(&rest, "__", ".")
}

/// A span as it is shown: in milliseconds below a second, and otherwise in
/// seconds, which are given with one decimal.
pub open spec fn shown_duration(ms: u128, seconds: Seq<char>) -> Seq<char> {
    if ms >= 1000 {
        seconds + "s"@
    } else {
        dec(ms as nat) + "ms"@
    }
}

/// A span as it is shown; `seconds` is the span in seconds with one decimal.
pub fn format_duration_ms(duration_ms: u128, seconds: &str) -> (r: String)
    ensures
        r@ == shown_duration(duration_ms, seconds@),
{
    if duration_ms >= 1000 {
        let mut t = seconds.to_owned();
        t.append("s");
        t
    } else {
        let mut t = decimal(duration_ms);
        t.append("ms");
        t
    }
}

/// A number of tokens as it is shown; from a thousand on in thousands, which
/// are given with one decimal.
pub open spec fn shown_tokens(tokens: usize, thousands: Seq<char>) -> Seq<char> {
    if tokens >= 1000 {
        thousands + "k tokens"@
    } else {
        dec(tokens as nat) + " tokens"@
    }
}

/// A number of tokens as it is shown; `thousands` is the number in thousands
/// with one decimal.
pub fn format_token_count(tokens: usize, thousands: &str) -> (r: String)
    ensures
        r@ == shown_tokens(tokens, thousands@),
{
    if tokens >= 1000 {
        let mut t = thousands.to_owned();
        t.append("k tokens");
        t
    } else {
        let mut t = decimal_size(tokens);
        t.append(" tokens");
        t
    }
}

/// The line about a tool that has ended.
pub open spec fn result_line(name: Seq<char>, is_error: bool, ms: u128, seconds: Seq<char>) -> Seq<char> {
    "  "@ + (if is_error {
        "×"@
    } else {
        "✓"@
    }) + " "@ + shown_name(name) + " · "@ + (if is_error {
        "失败"@
    } else {
        "完成"@
    }) + " · "@ + shown_duration(ms, seconds)
}

/// The line about a tool that has ended.
pub fn compact_tool_result(name: &str, is_error: bool, duration_ms: u128, seconds: &str) -> (r: String)
    ensures
        r@ == result_line(name@, is_error, duration_ms, seconds@),
{
    let mut t = "  ".to_owned();
    t.append(
        if is_error {
            "×"
        } else {
            "✓"
        },
    );
    t.append(" ");
    t.append(display_tool_name(name).as_str());
    t.append(" · ");
    t.append(
        if is_error {
            "失败"
        } else {
            "完成"
        },
    );
    t.append(" · ");
    t.append(format_duration_ms(duration_ms, seconds).as_str());
    t
}

/// The line about a request that is tried again.
pub open spec fn retry_line(step: usize, next: usize, max: usize, ms: u128, seconds: Seq<char>) -> Seq<char> {
    "  ↻ Step "@ + dec(step as nat) + " 重试 "@ + dec(next as nat) + "/"@ + dec(max as nat)
        + " · 等待 "@ + shown_duration(ms, seconds)
}

/// The line about a request that is tried again.
pub fn compact_retry(
    step: usize,
    next_attempt: usize,
    max_attempts: usize,
    delay_ms: u128,
    seconds: &str,
) -> (r: String)
    ensures
        r@ == retry_line(step, next_attempt, max_attempts, delay_ms, seconds@),
{
    let mut t = "  ↻ Step ".to_owned();
    t.append(decimal_size(step).as_str());
    t.append(" 重试 ");
    t.append(decimal_size(next_attempt).as_str());
    t.append("/");
    t.append(decimal_size(max_attempts).as_str());
    t.append(" · 等待 ");
    t.append(format_duration_ms(delay_ms, seconds).as_str());
    t
}

/// An event with its details.
pub open spec fn event_text(e: AgentEvent) -> Seq<char> {
    match e {
        AgentEvent::TurnStarted { turn_id, input } => "[执行] Turn "@ + dec(turn_id as nat)
            + " 开始\n用户："@ + excerpt(input@),
        AgentEvent::StepStarted { turn_id, step } => "[执行] Turn "@ + dec(turn_id as nat)
            + " · Step "@ + dec(step as nat) + "\n动作：请求模型"@,
        AgentEvent::ToolCallStarted { turn_id, call_id, name } => "[工具] Turn "@ + dec(
            turn_id as nat,
        ) + " 开始调用\n工具："@ + name@ + "\n调用："@ + call_id@,
        AgentEvent::ToolResult { turn_id, call_id, is_error, duration_ms } => "[工具] Turn "@ + dec(
            turn_id as nat,
        ) + " 调用结束\n调用："@ + call_id@ + "\n结果："@ + (if is_error {
            "失败"@
        } else {
            "成功"@
        }) + " · 耗时："@ + dec(duration_ms as nat) + "ms"@,
        AgentEvent::PermissionRequested { turn_id, call_id, name } => "[权限] Turn "@ + dec(
            turn_id as nat,
        ) + " 等待确认\n工具："@ + name@ + "\n调用："@ + call_id@,
        AgentEvent::PermissionResolved { turn_id, call_id, allowed } => "[权限] Turn "@ + dec(
            turn_id as nat,
        ) + " "@ + (if allowed {
            "已批准"@
        } else {
            "已拒绝"@
        }) + "\n调用："@ + call_id@,
        AgentEvent::StepCompleted { turn_id, step, usage } => "[执行] Turn "@ + dec(turn_id as nat)
            + " · Step "@ + dec(step as nat) + " 完成\n本次 Token："@ + dec(
            usage.total_tokens as nat,
        ),
        AgentEvent::StepRetrying {
            turn_id,
            step,
            failed_attempt,
            next_attempt,
            max_attempts,
            delay_ms,
        } => "[重试] Turn "@ + dec(turn_id as nat) + " · Step "@ + dec(step as nat) + "\n第 "@
            + dec(failed_attempt as nat) + " 次失败，准备第 "@ + dec(next_attempt as nat) + "/"@
            + dec(max_attempts as nat) + " 次\n等待："@ + dec(delay_ms as nat) + "ms"@,
        AgentEvent::TurnCompleted { turn_id, steps } => "[完成] Turn "@ + dec(turn_id as nat)
            + "\n共执行："@ + dec(steps as nat) + " 个 Step"@,
        AgentEvent::TurnCancelled { turn_id } => "[取消] Turn "@ + dec(turn_id as nat)
            + "\n状态：已取消"@,
        AgentEvent::TurnFailed { turn_id, message } => "[失败] Turn "@ + dec(turn_id as nat)
            + "\n原因："@ + message@,
        AgentEvent::AssistantDelta { turn_id, step, delta, .. } => "[流式] Turn "@ + dec(
            turn_id as nat,
        ) + " · Step "@ + dec(step as nat) + "\n"@ + excerpt(delta@),
    }
}

fn turn_text(head: &str, turn_id: u64) -> (r: String)
    ensures
        r@ == head@ + dec(turn_id as nat),
{
    let mut t = head.to_owned();
    t.append(decimal(turn_id as u128).as_str());
    t
}

/// An event with its details.
pub fn verbose_event(event: &AgentEvent) -> (r: String)
    ensures
        r@ == event_text(*event),
{
    match event {
        AgentEvent::TurnStarted { turn_id, input } => {
            let mut t = turn_text("[执行] Turn ", *turn_id);
            t.append(" 开始\n用户：");
            t.append(compact_text(input).as_str());
            t
        },
        AgentEvent::StepStarted { turn_id, step } => {
            let mut t = turn_text("[执行] Turn ", *turn_id);
            t.append(" · Step ");
            t.append(decimal_size(*step).as_str());
            t.append("\n动作：请求模型");
            t
        },
        AgentEvent::ToolCallStarted { turn_id, call_id, name } => {
            let mut t = turn_text("[工具] Turn ", *turn_id);
            t.append(" 开始调用\n工具：");
            t.append(name.as_str());
            t.append("\n调用：");
            t.append(call_id.as_str());
            t
        },
        AgentEvent::ToolResult { turn_id, call_id, is_error, duration_ms } => {
            let mut t = turn_text("[工具] Turn ", *turn_id);
            t.append(" 调用结束\n调用：");
            t.append(call_id.as_str());
            t.append("\n结果：");
            t.append(
                if *is_error {
                    "失败"
                } else {
                    "成功"
                },
            );
            t.append(" · 耗时：");
            t.append(decimal(*duration_ms).as_str());
            t.append("ms");
            t
        },
        AgentEvent::PermissionRequested { turn_id, call_id, name } => {
            let mut t = turn_text("[权限] Turn ", *turn_id);
            t.append(" 等待确认\n工具：");
            t.append(name.as_str());
            t.append("\n调用：");
            t.append(call_id.as_str());
            t
        },
        AgentEvent::PermissionResolved { turn_id, call_id, allowed } => {
            let mut t = turn_text("[权限] Turn ", *turn_id);
            t.append(" ");
            t.append(
                if *allowed {
                    "已批准"
                } else {
                    "已拒绝"
                },
            );
            t.append("\n调用：");
            t.append(call_id.as_str());
            t
        },
        AgentEvent::StepCompleted { turn_id, step, usage } => {
            let mut t = turn_text("[执行] Turn ", *turn_id);
            t.append(" · Step ");
            t.append(decimal_size(*step).as_str());
            t.append(" 完成\n本次 Token：");
            t.append(decimal_size(usage.total_tokens).as_str());
            t
        },
        AgentEvent::StepRetrying {
            turn_id,
            step,
            failed_attempt,
            next_attempt,
            max_attempts,
            delay_ms,
        } => {
            let mut t = turn_text("[重试] Turn ", *turn_id);
            t.append(" · Step ");
            t.append(decimal_size(*step).as_str());
            t.append("\n第 ");
            t.append(decimal_size(*failed_attempt).as_str());
            t.append(" 次失败，准备第 ");
            t.append(decimal_size(*next_attempt).as_str());
            t.append("/");
            t.append(decimal_size(*max_attempts).as_str());
            t.append(" 次\n等待：");
            t.append(decimal(*delay_ms).as_str());
            t.append("ms");
            t
        },
        AgentEvent::TurnCompleted { turn_id, steps } => {
            let mut t = turn_text("[完成] Turn ", *turn_id);
            t.append("\n共执行：");
            t.append(decimal_size(*steps).as_str());
            t.append(" 个 Step");
            t
        },
        AgentEvent::TurnCancelled { turn_id } => {
            let mut t = turn_text("[取消] Turn ", *turn_id);
            t.append("\n状态：已取消");
            t
        },
        AgentEvent::TurnFailed { turn_id, message } => {
            let mut t = turn_text("[失败] Turn ", *turn_id);
            t.append("\n原因：");
            t.append(message.as_str());
            t
        },
        AgentEvent::AssistantDelta { turn_id, step, delta, offset: _ } => {
            let mut t = turn_text("[流式] Turn ", *turn_id);
            t.append(" · Step ");
            t.append(decimal_size(*step).as_str());
            t.append("\n");
            t.append(compact_text(delta).as_str());
            t
        },
    }
}

/// The summary of a turn.
pub open spec fn summary_line(
    steps: usize,
    retries: usize,
    total_tokens: usize,
    thousands: Seq<char>,
    elapsed_ms: Option<u128>,
    seconds: Seq<char>,
) -> Seq<char> {
    let base = seq![
        dec(steps as nat) + " step"@ + (if steps == 1 {
            ""@
        } else {
            "s"@
        }),
        shown_tokens(total_tokens, thousands),
    ];
    let tried = if retries > 0 {
        base.push(dec(retries as nat) + " 次重试"@)
    } else {
        base
    };
    join_spec(
        match elapsed_ms {
            Some(ms) => tried.push(shown_duration(ms, seconds)),
            None => tried,
        },
        " · "@,
    )
}

/// The summary of a turn; `thousands` and `seconds` are the tokens in
/// thousands and the span in seconds, each with one decimal.
pub fn turn_summary(
    steps: usize,
    retries: usize,
    total_tokens: usize,
    thousands: &str,
    elapsed_ms: Option<u128>,
    seconds: &str,
) -> (r: String)
    ensures
        r@ == summary_line(steps, retries, total_tokens, thousands@, elapsed_ms, seconds@),
{
    let mut first = decimal_size(steps);
    first.append(" step");
    first.append(
        if steps == 1 {
            ""
        } else {
            "s"
        },
    );
    let second = format_token_count(total_tokens, thousands);
    let ghost base = seq![first@, second@];
    let mut parts: Vec<String> = Vec::new();
    parts.push(first);
    parts.push(second);
    assert(views(parts@) =~= base);
    if retries > 0 {
        let mut t = decimal_size(retries);
        t.append(" 次重试");
        proof {
            lemma_views_push(parts@, t);
        }
        parts.push(t);
    }
    if let Some(ms) = elapsed_ms {
        let t = format_duration_ms(ms, seconds);
        proof {
            lemma_views_push(parts@, t);
        }
        parts.push(t);
    }
    join(&parts, " · ")
}

} // verus!
