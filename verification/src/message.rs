//! Messages of a conversation, independent of any model vendor.
use vstd::prelude::*;
use crate::text::chars::{copy_opt, view_opt};

verus! {

/// A tool call of the model. Its arguments stay the JSON text the model wrote.
#[derive(Clone, Debug, PartialEq)]
pub struct ToolCall {
    pub id: String,
    pub name: String,
    pub arguments: String,
}

/// A message of the conversation.
#[derive(Clone, Debug, PartialEq)]
pub enum Message {
    User { content: String },
    Assistant { content: Option<String>, tool_calls: Vec<ToolCall> },
    Tool { call_id: String, content: String, is_error: bool },
}

#[verifier::ext_equal]
pub struct CallView {
    pub id: Seq<char>,
    pub name: Seq<char>,
    pub arguments: Seq<char>,
}

#[verifier::ext_equal]
pub enum MessageView {
    User { content: Seq<char> },
    Assistant { content: Option<Seq<char>>, tool_calls: Seq<CallView> },
    Tool { call_id: Seq<char>, content: Seq<char>, is_error: bool },
}

impl View for ToolCall {
    type V = CallView;

    open spec fn view(&self) -> CallView {
        CallView { id: self.id@, name: self.name@, arguments: self.arguments@ }
    }
}

impl View for Message {
    type V = MessageView;

    open spec fn view(&self) -> MessageView {
        match self {
            Message::User { content } => MessageView::User { content: content@ },
            Message::Assistant { content, tool_calls } => MessageView::Assistant {
                content: view_opt(*content),
                tool_calls: calls_view(tool_calls@),
            },
            Message::Tool { call_id, content, is_error } => MessageView::Tool {
                call_id: call_id@,
                content: content@,
                is_error: *is_error,
            },
        }
    }
}

pub open spec fn calls_view(v: Seq<ToolCall>) -> Seq<CallView> {
    v.map_values(|c: ToolCall| c@)
}

pub open spec fn messages_view(v: Seq<Message>) -> Seq<MessageView> {
    v.map_values(|m: Message| m@)
}

pub proof fn lemma_messages_push(v: Seq<Message>, m: Message)
    ensures
        messages_view(v.push(m)) == messages_view(v).push(m@),
{
    assert(messages_view(v.push(m)) =~= messages_view(v).push(m@));
}

pub proof fn lemma_calls_push(v: Seq<ToolCall>, c: ToolCall)
    ensures
        calls_view(v.push(c)) == calls_view(v).push(c@),
{
    assert(calls_view(v.push(c)) =~= calls_view(v).push(c@));
}

impl ToolCall {
    /// A copy of the call.
    pub fn copy(&self) -> (r: ToolCall)
        ensures
            r@ == self@,
    {
        ToolCall {
            id: self.id.clone(),
            name: self.name.clone(),
            arguments: self.arguments.clone(),
        }
    }
}

/// A copy of a batch of calls.
pub fn copy_calls(calls: &Vec<ToolCall>) -> (r: Vec<ToolCall>)
    ensures
        calls_view(r@) == calls_view(calls@),
{
    let mut r: Vec<ToolCall> = Vec::new();
    for i in 0..calls.len()
        invariant
            calls_view(r@) == calls_view(calls@).take(i as int),
    {
        let call = calls[i].copy();
        proof {
            lemma_calls_push(r@, call);
            assert(calls_view(calls@).take(i + 1) =~= calls_view(calls@).take(i as int).push(
                call@,
            ));
        }
        r.push(call);
    }
    assert(calls_view(calls@).take(calls@.len() as int) =~= calls_view(calls@));
    r
}

impl Message {
    /// A copy of the message.
    pub fn copy(&self) -> (r: Message)
        ensures
            r@ == self@,
    {
        match self {
            Message::User { content } => Message::User { content: content.clone() },
            Message::Assistant { content, tool_calls } => Message::Assistant {
                content: copy_opt(content),
                tool_calls: copy_calls(tool_calls),
            },
            Message::Tool { call_id, content, is_error } => Message::Tool {
                call_id: call_id.clone(),
                content: content.clone(),
                is_error: *is_error,
            },
        }
    }
}

/// Copies of the messages from `from` up to `to`.
pub fn copy_messages(messages: &[Message], from: usize, to: usize) -> (r: Vec<Message>)
    requires
        from <= to <= messages@.len(),
    ensures
        messages_view(r@) == messages_view(messages@).subrange(from as int, to as int),
{
    let ghost all = messages_view(messages@);
    let mut r: Vec<Message> = Vec::new();
    for i in from..to
        invariant
            from <= to <= messages@.len(),
            all == messages_view(messages@),
            messages_view(r@) =~= all.subrange(from as int, i as int),
    {
        let message = messages[i].copy();
        proof {
            lemma_messages_push(r@, message);
            assert(all.subrange(from as int, i + 1) =~= all.subrange(from as int, i as int).push(
                message@,
            ));
        }
        r.push(message);
    }
    r
}

} // verus!
