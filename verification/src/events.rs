//! What happens during a turn, and the record that is kept of tool calls.
use vstd::prelude::*;
use crate::clock::{is_rfc3339, utc_now};
use crate::hashing::{fnv1a, hash_text};
use crate::json::{compact, items_view, json_parse, json_text, lemma_array_view, lemma_object_view, members_view, parse, txt, Json, JsonView};
use crate::message::{CallView, ToolCall};
use crate::provider::turn::TokenUsage;
use crate::text::chars::{ascii_lower, chars_of, same, take_chars, to_ascii_lower};
use crate::text::number::{hex, hex_range, hexadecimal, lemma_hex_exact};
use crate::text::search::{contains_any, has_any, has_suffix};

verus! {

/// How a tool call ended. A refusal, a wrong argument and a timeout are
/// errors.
#[derive(Clone, Copy, Debug, PartialEq, Eq, Structural)]
pub enum ToolTraceStatus {
    Success,
    Error,
}

/// The record of a tool call. It takes no part in the model's context.
#[derive(Clone, Debug, PartialEq)]
pub struct ToolTrace {
    pub turn_id: u64,
    pub step: usize,
    pub call_id: String,
    pub tool_name: String,
    pub arguments_preview: String,
    pub arguments_hash: String,
    pub status: ToolTraceStatus,
    pub duration_ms: u64,
    pub result_hash: String,
    pub completed_at: String,
}

#[verifier::ext_equal]
pub struct TraceView {
    pub turn_id: u64,
    pub step: usize,
    pub call_id: Seq<char>,
    pub tool_name: Seq<char>,
    pub arguments_preview: Seq<char>,
    pub arguments_hash: Seq<char>,
    pub status: ToolTraceStatus,
    pub duration_ms: u64,
    pub result_hash: Seq<char>,
    pub completed_at: Seq<char>,
}

impl View for ToolTrace {
    type V = TraceView;

    open spec fn view(&self) -> TraceView {
        TraceView {
            turn_id: self.turn_id,
            step: self.step,
            call_id: self.call_id@,
            tool_name: self.tool_name@,
            arguments_preview: self.arguments_preview@,
            arguments_hash: self.arguments_hash@,
            status: self.status,
            duration_ms: self.duration_ms,
            result_hash: self.result_hash@,
            completed_at: self.completed_at@,
        }
    }
}

/// A key without case, underscores and dashes.
pub open spec fn plain_key(key: Seq<char>) -> Seq<char> {
    ascii_lower(key).filter(|c: char| c != '_' && c != '-')
}

pub open spec fn secret_marks() -> Seq<&'static str> {
    seq![
        "password",
        "passwd",
        "secret",
        "token",
        "apikey",
        "authorization",
        "credential",
        "privatekey",
        "accesskey",
    ]
}

/// A key whose value is a credential or the body of a file.
pub open spec fn is_sensitive(key: Seq<char>) -> bool {
    let plain = plain_key(key);
    plain == "key"@ || plain == "content"@ || plain == "oldstring"@ || plain == "newstring"@
        || has_any(plain, secret_marks())
}

/// Whether the value of a key must not be shown.
pub fn is_sensitive_key(key: &str) -> (r: bool)
    ensures
        r == is_sensitive(key@),
{
    let lower = to_ascii_lower(key);
    let c = chars_of(&lower);
    let ghost p = |c: char| c != '_' && c != '-';
    let mut plain = String::new();
    proof {
        crate::seqs::lemma_filter_empty(lower@, p);
        assert(plain@ =~= Seq::empty());
    }
    for i in 0..c.len()
        invariant
            c@ == lower@,
            p == (|c: char| c != '_' && c != '-'),
            plain@ == lower@.take(i as int).filter(p),
    {
        proof {
            crate::seqs::lemma_filter_step(lower@, i as int, p);
        }
        if c[i] != '_' && c[i] != '-' {
            plain.push(c[i]);
        }
    }
    assert(lower@.take(lower@.len() as int) =~= lower@);
    let marks: [&str; 9] = [
        "password",
        "passwd",
        "secret",
        "token",
        "apikey",
        "authorization",
        "credential",
        "privatekey",
        "accesskey",
    ];
    assert(marks@ =~= secret_marks());
    same(&plain, "key") || same(&plain, "content") || same(&plain, "oldstring") || same(
        &plain,
        "newstring",
    ) || contains_any(&plain, &marks)
}

/// A value with every sensitive member hidden, at any depth.
pub open spec fn redacted(v: JsonView) -> JsonView
    decreases v,
{
    match v {
        JsonView::Object(members) => JsonView::Object(
            Seq::new(
                members.len(),
                |i: int|
                    if 0 <= i < members.len() {
                        (
                            members[i].0,
                            if is_sensitive(members[i].0) {
                                txt("[REDACTED]"@)
                            } else {
                                redacted(members[i].1)
                            },
                        )
                    } else {
                        (Seq::empty(), JsonView::Null)
                    },
            ),
        ),
        JsonView::Array(items) => JsonView::Array(
            Seq::new(
                items.len(),
                |i: int|
                    if 0 <= i < items.len() {
                        redacted(items[i])
                    } else {
                        JsonView::Null
                    },
            ),
        ),
        other => other,
    }
}

/// A value with every sensitive member hidden, at any depth.
pub fn redact(value: &Json) -> (r: Json)
    ensures
        r@ == redacted(value@),
    decreases value,
{
    match value {
        Json::Object(members) => {
            let mut out: Vec<(String, Json)> = Vec::new();
            proof {
                lemma_object_view(*members);
            }
            for i in 0..members.len()
                invariant
                    *value == Json::Object(*members),
                    value@ == JsonView::Object(members_view(members@)),
                    out@.len() == i,
                    forall|j: int|
                        0 <= j < i ==> members_view(out@)[j] == redacted(value@)->Object_0[j],
            {
                assert(decreases_to!(*value => value->Object_0));
                assert(decreases_to!(members@ => members@[i as int]));
                let hidden = if is_sensitive_key(&members[i].0) {
                    Json::text("[REDACTED]")
                } else {
                    redact(&members[i].1)
                };
                let member = (members[i].0.clone(), hidden);
                let ghost before = members_view(out@);
                assert(members_view(members@)[i as int] == (
                    members@[i as int].0@,
                    members@[i as int].1@,
                ));
                out.push(member);
                assert(members_view(out@) =~= before.push((member.0@, member.1@)));
            }
            assert(members_view(out@) =~= redacted(value@)->Object_0);
            Json::object(out)
        },
        Json::Array(items) => {
            let mut out: Vec<Json> = Vec::new();
            proof {
                lemma_array_view(*items);
            }
            for i in 0..items.len()
                invariant
                    *value == Json::Array(*items),
                    value@ == JsonView::Array(items_view(items@)),
                    out@.len() == i,
                    forall|j: int|
                        0 <= j < i ==> items_view(out@)[j] == redacted(value@)->Array_0[j],
            {
                assert(decreases_to!(*value => value->Array_0));
                assert(decreases_to!(items@ => items@[i as int]));
                let item = redact(&items[i]);
                let ghost before = items_view(out@);
                assert(items_view(items@)[i as int] == items@[i as int]@);
                out.push(item);
                assert(items_view(out@) =~= before.push(item@));
            }
            assert(items_view(out@) =~= redacted(value@)->Array_0);
            Json::array(out)
        },
        _ => value.copy(),
    }
}

/// Every sensitive member of a value is hidden, at any depth.
pub open spec fn hides_secrets(v: JsonView) -> bool
    decreases v,
{
    match v {
        JsonView::Object(members) => forall|i: int|
            0 <= i < members.len() ==> if is_sensitive((#[trigger] members[i]).0) {
                members[i].1 == txt("[REDACTED]"@)
            } else {
                hides_secrets(members[i].1)
            },
        JsonView::Array(items) => forall|i: int|
            0 <= i < items.len() ==> hides_secrets(#[trigger] items[i]),
        _ => true,
    }
}

/// No sensitive value is left after redaction, and redacting again changes
/// nothing.
pub proof fn law_redaction_hides_every_secret(v: JsonView)
    ensures
        hides_secrets(redacted(v)),
        redacted(redacted(v)) == redacted(v),
    decreases v,
{
    match v {
        JsonView::Object(members) => {
            let out = redacted(v)->Object_0;
            assert forall|i: int| 0 <= i < members.len() implies (if is_sensitive(
                (#[trigger] out[i]).0,
            ) {
                out[i].1 == txt("[REDACTED]"@)
            } else {
                hides_secrets(out[i].1) && redacted(out[i].1) == out[i].1
            }) by {
                if !is_sensitive(members[i].0) {
                    law_redaction_hides_every_secret(members[i].1);
                }
            }
            assert(redacted(redacted(v))->Object_0 =~= out);
        },
        JsonView::Array(items) => {
            let out = redacted(v)->Array_0;
            assert forall|i: int| 0 <= i < items.len() implies hides_secrets(#[trigger] out[i])
                && redacted(out[i]) == out[i] by {
                law_redaction_hides_every_secret(items[i]);
            }
            assert(redacted(redacted(v))->Array_0 =~= out);
        },
        _ => {},
    }
}

/// A text of at most `max` characters; the last one tells where something was
/// cut.
pub open spec fn shortened(text: Seq<char>, max: int) -> Seq<char> {
    if text.len() <= max {
        text
    } else {
        text.take(if max < 1 { 0 } else { max - 1 }).push('…')
    }
}

/// A text of at most `max_chars` characters.
pub fn truncate_chars(text: &str, max_chars: usize) -> (r: String)
    ensures
        r@ == shortened(text@, max_chars as int),
{
    if text.unicode_len() <= max_chars {
        return text.to_owned();
    }
    let keep: usize = if max_chars < 1 {
        0
    } else {
        max_chars - 1
    };
    let mut r = take_chars(text, keep);
    r.push('…');
    r
}

/// What is shown of arguments.
pub open spec fn preview_of_value(v: JsonView) -> Seq<char> {
    shortened(json_text(redacted(v)), 240)
}

/// What is shown of the text of a call's arguments.
pub open spec fn preview_spec(raw: Seq<char>) -> Seq<char> {
    match json_parse(raw) {
        Ok(v) => preview_of_value(v),
        Err(_) => "<invalid-json; hash-only>"@,
    }
}

/// What is shown of arguments: their text without sensitive values, cut to a
/// bound.
pub fn preview_value(value: &Json) -> (r: String)
    ensures
        r@ == preview_of_value(value@),
{
    truncate_chars(&compact(&redact(value)), 240)
}

/// What is shown of the text of a call's arguments.
pub fn arguments_preview(raw: &str) -> (r: String)
    ensures
        r@ == preview_spec(raw@),
{
    match parse(raw) {
        Ok(value) => preview_value(&value),
        Err(_) => "<invalid-json; hash-only>".to_owned(),
    }
}

/// The hash of a text, as sixteen hexadecimal digits.
pub open spec fn hash_digits(text: Seq<char>) -> Seq<char> {
    hex(fnv1a(vstd::utf8::encode_utf8(text)) as nat, 16)
}

/// The hash of a text, as sixteen hexadecimal digits.
pub fn stable_hash(text: &str) -> (r: String)
    ensures
        r@ == hash_digits(text@),
{
    hexadecimal(hash_text(text), 16)
}

/// A hash has sixteen digits, whatever was hashed.
pub proof fn law_hashes_have_sixteen_digits(text: Seq<char>)
    ensures
        hash_digits(text).len() == 16,
{
    let n = fnv1a(vstd::utf8::encode_utf8(text)) as nat;
    assert(n < hex_range(16)) by {
        reveal_with_fuel(hex_range, 17);
    }
    lemma_hex_exact(n, 16);
}

/// The record of a call that was completed at the given time.
pub open spec fn trace_spec(
    turn_id: u64,
    step: usize,
    call: CallView,
    result: Seq<char>,
    is_error: bool,
    duration_ms: u128,
    completed_at: Seq<char>,
) -> TraceView {
    TraceView {
        turn_id,
        step,
        call_id: call.id,
        tool_name: call.name,
        arguments_preview: preview_spec(call.arguments),
        arguments_hash: hash_digits(call.arguments),
        status: if is_error {
            ToolTraceStatus::Error
        } else {
            ToolTraceStatus::Success
        },
        duration_ms: if duration_ms <= u64::MAX {
            duration_ms as u64
        } else {
            u64::MAX
        },
        result_hash: hash_digits(result),
        completed_at,
    }
}

impl ToolTrace {
    /// The record of a call that was completed at the given time. It holds
    /// neither the result nor sensitive arguments.
    pub fn completed_at(
        turn_id: u64,
        step: usize,
        call: &ToolCall,
        result: &str,
        is_error: bool,
        duration_ms: u128,
        completed_at: String,
    ) -> (r: ToolTrace)
        ensures
            r@ == trace_spec(
                turn_id,
                step,
                call@,
                result@,
                is_error,
                duration_ms,
                completed_at@,
            ),
    {
        ToolTrace {
            turn_id,
            step,
            call_id: call.id.clone(),
            tool_name: call.name.clone(),
            arguments_preview: arguments_preview(&call.arguments),
            arguments_hash: stable_hash(&call.arguments),
            status: if is_error {
                ToolTraceStatus::Error
            } else {
                ToolTraceStatus::Success
            },
            duration_ms: if duration_ms <= u64::MAX as u128 {
                duration_ms as u64
            } else {
                u64::MAX
            },
            result_hash: stable_hash(result),
            completed_at,
        }
    }

    /// The record of a call that is completed now.
    pub fn completed(
        turn_id: u64,
        step: usize,
        call: &ToolCall,
        result: &str,
        is_error: bool,
        duration_ms: u128,
    ) -> (r: ToolTrace)
        ensures
            r@ == trace_spec(
                turn_id,
                step,
                call@,
                result@,
                is_error,
                duration_ms,
                r@.completed_at,
            ),
            is_rfc3339(r@.completed_at),
            has_suffix(r@.completed_at, "+00:00"@),
    {
        let now = utc_now();
        ToolTrace::completed_at(turn_id, step, call, result, is_error, duration_ms, now)
    }
}

/// What happens during a turn.
#[derive(Clone, Debug, PartialEq)]
pub enum AgentEvent {
    TurnStarted { turn_id: u64, input: String },
    StepStarted { turn_id: u64, step: usize },
    ToolCallStarted { turn_id: u64, call_id: String, name: String },
    ToolResult { turn_id: u64, call_id: String, is_error: bool, duration_ms: u128 },
    /// A call awaits the user's permission.
    PermissionRequested { turn_id: u64, call_id: String, name: String },
    /// The user has decided on a call.
    PermissionResolved { turn_id: u64, call_id: String, allowed: bool },
    StepCompleted { turn_id: u64, step: usize, usage: TokenUsage },
    /// A request failed and is tried again within the same step.
    StepRetrying {
        turn_id: u64,
        step: usize,
        failed_attempt: usize,
        next_attempt: usize,
        max_attempts: usize,
        delay_ms: u128,
    },
    TurnCompleted { turn_id: u64, steps: usize },
    TurnCancelled { turn_id: u64 },
    TurnFailed { turn_id: u64, message: String },
    /// Text of the answer as it arrives. It is not kept.
    AssistantDelta { turn_id: u64, step: usize, delta: String, offset: usize },
}

impl AgentEvent {
    /// Whether the event is shown only and never kept.
    pub fn is_volatile(&self) -> (r: bool)
        ensures
            r == (self is AssistantDelta),
    {
        match self {
            AgentEvent::AssistantDelta { turn_id: _, step: _, delta: _, offset: _ } => true,
            _ => false,
        }
    }
}

} // verus!
