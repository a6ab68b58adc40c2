//! What a client is told.
use vstd::prelude::*;
use crate::events::AgentEvent;
use crate::namemap::NameMap;
use crate::text::chars::{first_chars, take_chars};
use crate::text::number::{dec, decimal, decimal_size};
use crate::tui::approval::{laid_out, lay_out_arguments};
use crate::tui::render::{display_tool_name, shown_name};

verus! {

/// What a client is told.
#[derive(Clone, Debug, PartialEq)]
pub enum ClientEvent {
    Ready { model: String, rag: String, mcp: String },
    User { text: String },
    Command { text: String },
    CommandResult { text: String },
    Exit,
    Status { text: String },
    AssistantBegin,
    AssistantDelta { text: String },
    ToolStarted { name: String },
    ToolResult { name: String, ok: bool, ms: u128 },
    Approval { id: u64, tool: String, arguments: String },
    TurnCompleted { steps: usize, tokens: usize, retries: usize },
    TurnCancelled,
    SessionCleared,
    Error { message: String },
    Log { text: String },
}

#[verifier::ext_equal]
pub enum ClientView {
    Ready(Seq<char>, Seq<char>, Seq<char>),
    User(Seq<char>),
    Command(Seq<char>),
    CommandResult(Seq<char>),
    Exit,
    Status(Seq<char>),
    AssistantBegin,
    AssistantDelta(Seq<char>),
    ToolStarted(Seq<char>),
    ToolResult(Seq<char>, bool, u128),
    Approval(u64, Seq<char>, Seq<char>),
    TurnCompleted(usize, usize, usize),
    TurnCancelled,
    SessionCleared,
    Error(Seq<char>),
    Log(Seq<char>),
}

impl View for ClientEvent {
    type V = ClientView;

    open spec fn view(&self) -> ClientView {
        match self {
            ClientEvent::Ready { model, rag, mcp } => ClientView::Ready(model@, rag@, mcp@),
            ClientEvent::User { text } => ClientView::User(text@),
            ClientEvent::Command { text } => ClientView::Command(text@),
            ClientEvent::CommandResult { text } => ClientView::CommandResult(text@),
            ClientEvent::Exit => ClientView::Exit,
            ClientEvent::Status { text } => ClientView::Status(text@),
            ClientEvent::AssistantBegin => ClientView::AssistantBegin,
            ClientEvent::AssistantDelta { text } => ClientView::AssistantDelta(text@),
            ClientEvent::ToolStarted { name } => ClientView::ToolStarted(name@),
            ClientEvent::ToolResult { name, ok, ms } => ClientView::ToolResult(name@, *ok, *ms),
            ClientEvent::Approval { id, tool, arguments } => ClientView::Approval(
                *id,
                tool@,
                arguments@,
            ),
            ClientEvent::TurnCompleted { steps, tokens, retries } => ClientView::TurnCompleted(
                *steps,
                *tokens,
                *retries,
            ),
            ClientEvent::TurnCancelled => ClientView::TurnCancelled,
            ClientEvent::SessionCleared => ClientView::SessionCleared,
            ClientEvent::Error { message } => ClientView::Error(message@),
            ClientEvent::Log { text } => ClientView::Log(text@),
        }
    }
}

pub open spec fn client_views(v: Seq<ClientEvent>) -> Seq<ClientView> {
    v.map_values(|e: ClientEvent| e@)
}

/// What a client sees of the arguments of a call.
pub fn preview_arguments(raw: &str) -> (r: String)
    ensures
        r@ == first_chars(laid_out(raw@), 800),
{
    take_chars(&lay_out_arguments(raw), 800)
}

/// What is remembered from one event to the next: the names of the tools that
/// run, and whether an answer has begun.
pub struct RpcEventSink {
    pub tool_names: NameMap,
    pub assistant_open: bool,
}

#[verifier::ext_equal]
pub struct SinkView {
    pub names: Map<Seq<char>, Seq<char>>,
    pub open: bool,
}

impl View for RpcEventSink {
    type V = SinkView;

    open spec fn view(&self) -> SinkView {
        SinkView { names: self.tool_names@, open: self.assistant_open }
    }
}

/// What is said of a retry.
pub open spec fn retry_note(next: usize, max: usize, delay: u128) -> Seq<char> {
    "重试 "@ + dec(next as nat) + "/"@ + dec(max as nat) + " · 等待 "@ + dec(delay as nat) + "ms"@
}

impl SinkView {
    /// What is remembered after an event, and what the client is told of it.
    /// An answer begins anew after a tool, a retry or a new turn.
    pub open spec fn publish(self, e: AgentEvent) -> (SinkView, Seq<ClientView>) {
        match e {
            AgentEvent::TurnStarted { .. } => (SinkView { open: false, ..self }, Seq::empty()),
            AgentEvent::AssistantDelta { delta, .. } => if delta@.len() == 0 {
                (self, Seq::empty())
            } else if self.open {
                (self, seq![ClientView::AssistantDelta(delta@)])
            } else {
                (
                    SinkView { open: true, ..self },
                    seq![ClientView::AssistantBegin, ClientView::AssistantDelta(delta@)],
                )
            },
            AgentEvent::ToolCallStarted { call_id, name, .. } => (
                SinkView { names: self.names.insert(call_id@, name@), open: false },
                seq![ClientView::ToolStarted(shown_name(name@))],
            ),
            AgentEvent::ToolResult { call_id, is_error, duration_ms, .. } => {
                let name = if self.names.contains_key(call_id@) {
                    self.names[call_id@]
                } else {
                    "tool"@
                };
                (
                    SinkView { names: self.names.remove(call_id@), ..self },
                    seq![ClientView::ToolResult(shown_name(name), !is_error, duration_ms)],
                )
            },
            AgentEvent::TurnFailed { message, .. } => (self, seq![ClientView::Error(message@)]),
            AgentEvent::TurnCancelled { .. } => (self, seq![ClientView::TurnCancelled]),
            AgentEvent::StepRetrying { next_attempt, max_attempts, delay_ms, .. } => (
                SinkView { open: false, ..self },
                seq![ClientView::Log(retry_note(next_attempt, max_attempts, delay_ms))],
            ),
            _ => (self, Seq::empty()),
        }
    }
}

impl RpcEventSink {
    /// Nothing has happened.
    pub fn new() -> (r: RpcEventSink)
        ensures
            r@ == (SinkView { names: Map::empty(), open: false }),
    {
        RpcEventSink { tool_names: NameMap::new(), assistant_open: false }
    }

    /// What the client is told of an event.
    pub fn publish(&mut self, event: &AgentEvent) -> (r: Vec<ClientEvent>)
        ensures
            (final(self)@, client_views(r@)) == old(self)@.publish(*event),
    {
        let mut told: Vec<ClientEvent> = Vec::new();
        match event {
            AgentEvent::TurnStarted { turn_id: _, input: _ } => {
                self.assistant_open = false;
            },
            AgentEvent::AssistantDelta { turn_id: _, step: _, delta, offset: _ } => {
                if delta.as_str().unicode_len() > 0 {
                    if !self.assistant_open {
                        self.assistant_open = true;
                        told.push(ClientEvent::AssistantBegin);
                    }
                    told.push(ClientEvent::AssistantDelta { text: delta.clone() });
                }
            },
            AgentEvent::ToolCallStarted { turn_id: _, call_id, name } => {
                self.assistant_open = false;
                self.tool_names.insert(call_id.clone(), name.clone());
                told.push(ClientEvent::ToolStarted { name: display_tool_name(name) });
            },
            AgentEvent::ToolResult { turn_id: _, call_id, is_error, duration_ms } => {
                let name = match self.tool_names.remove(call_id) {
                    Some(n) => n,
                    None => "tool".to_owned(),
                };
                told.push(
                    ClientEvent::ToolResult {
                        name: display_tool_name(&name),
                        ok: !*is_error,
                        ms: *duration_ms,
                    },
                );
            },
            AgentEvent::TurnFailed { turn_id: _, message } => {
                told.push(ClientEvent::Error { message: message.clone() });
            },
            AgentEvent::TurnCancelled { turn_id: _ } => {
                told.push(ClientEvent::TurnCancelled);
            },
            AgentEvent::StepRetrying {
                turn_id: _,
                step: _,
                failed_attempt: _,
                next_attempt,
                max_attempts,
                delay_ms,
            } => {
                self.assistant_open = false;
                let mut text = "重试 ".to_owned();
                text.append(decimal_size(*next_attempt).as_str());
                text.append("/");
                text.append(decimal_size(*max_attempts).as_str());
                text.append(" · 等待 ");
                text.append(decimal(*delay_ms).as_str());
                text.append("ms");
                told.push(ClientEvent::Log { text });
            },
            _ => {},
        }
        assert(client_views(told@) =~= old(self)@.publish(*event).1);
        told
    }
}

} // verus!
