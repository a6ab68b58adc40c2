//! What a request to the model carries.
use vstd::prelude::*;
use crate::context_builder::PreparedView;
use crate::intent::schema_name;
use crate::json::{txt, JsonView};
use crate::json_laws::law_added_members_are_found;
use crate::message::{CallView, MessageView};
use crate::provider::deepseek::{is_tool, only_tool, request_body, selection, wire_call, wire_message, wire_messages};

verus! {

/// A member that is added to an object is found, and the others stay.
pub proof fn lemma_with(v: JsonView, key: Seq<char>, value: JsonView)
    requires
        v is Object,
    ensures
        v.with(key, value) is Object,
        v.field(key) is None ==> v.with(key, value).field(key) == Some(value),
        forall|other: Seq<char>|
            other != key ==> #[trigger] v.with(key, value).field(other) == v.field(other),
{
    let members = v->Object_0;
    assert forall|other: Seq<char>|
        other != key implies #[trigger] v.with(key, value).field(other) == v.field(other) by {
        law_added_members_are_found(members, key, value, other);
    }
    law_added_members_are_found(members, key, value, key);
}

/// An object without members has none.
pub proof fn lemma_no_members()
    ensures
        crate::json::obj() is Object,
        forall|key: Seq<char>| #[trigger] crate::json::obj().field(key) is None,
{
}

/// A call is sent with its identifier, its name and its arguments.
pub proof fn law_calls_are_sent_whole(c: CallView)
    ensures
        wire_call(c).field("id"@) == Some(txt(c.id)),
        wire_call(c).field("type"@) == Some(txt("function"@)),
        wire_call(c).at("function"@).field("name"@) == Some(txt(c.name)),
        wire_call(c).at("function"@).field("arguments"@) == Some(txt(c.arguments)),
{
    reveal_strlit("id");
    reveal_strlit("type");
    reveal_strlit("function");
    reveal_strlit("name");
    reveal_strlit("arguments");
    lemma_no_members();
    let o = crate::json::obj();
    let f = o.with("name"@, txt(c.name));
    lemma_with(o, "name"@, txt(c.name));
    lemma_with(f, "arguments"@, txt(c.arguments));
    let function = f.with("arguments"@, txt(c.arguments));
    let a = o.with("id"@, txt(c.id));
    lemma_with(o, "id"@, txt(c.id));
    let b = a.with("type"@, txt("function"@));
    lemma_with(a, "type"@, txt("function"@));
    lemma_with(b, "function"@, function);
    assert("id"@.len() == 2 && "type"@.len() == 4 && "function"@.len() == 8);
    assert("name"@.len() == 4 && "arguments"@.len() == 9);
}

/// A message is sent with its role and its content, an answer with its calls in
/// their order, and a result with the identifier of the call that it answers.
pub proof fn law_messages_are_sent_whole(m: MessageView)
    ensures
        match m {
            MessageView::User { content } => wire_message(m).field("role"@) == Some(txt("user"@))
                && wire_message(m).field("content"@) == Some(txt(content)),
            MessageView::Assistant { content, tool_calls } => {
                &&& wire_message(m).field("role"@) == Some(txt("assistant"@))
                &&& content matches Some(t) ==> wire_message(m).field("content"@) == Some(txt(t))
                &&& content is None ==> wire_message(m).field("content"@) == Some(JsonView::Null)
                &&& tool_calls.len() == 0 ==> wire_message(m).field("tool_calls"@) is None
                &&& tool_calls.len() > 0 ==> wire_message(m).field("tool_calls"@) is Some
                    && wire_message(m).at("tool_calls"@).items().len() == tool_calls.len()
                    && forall|i: int|
                    0 <= i < tool_calls.len() ==> (#[trigger] wire_message(m).at(
                        "tool_calls"@,
                    ).items()[i]) == wire_call(tool_calls[i])
            },
            MessageView::Tool { call_id, content, .. } => wire_message(m).field("role"@) == Some(
                txt("tool"@),
            ) && wire_message(m).field("tool_call_id"@) == Some(txt(call_id)) && wire_message(
                m,
            ).field("content"@) == Some(txt(content)),
        },
{
    reveal_strlit("role");
    reveal_strlit("content");
    reveal_strlit("tool_calls");
    reveal_strlit("tool_call_id");
    assert("role"@.len() == 4 && "content"@.len() == 7 && "tool_calls"@.len() == 10
        && "tool_call_id"@.len() == 12);
    lemma_no_members();
    let o = crate::json::obj();
    match m {
        MessageView::User { content } => {
            lemma_with(o, "role"@, txt("user"@));
            lemma_with(o.with("role"@, txt("user"@)), "content"@, txt(content));
        },
        MessageView::Assistant { content, tool_calls } => {
            let told = match content {
                Some(t) => txt(t),
                None => JsonView::Null,
            };
            let a = o.with("role"@, txt("assistant"@));
            lemma_with(o, "role"@, txt("assistant"@));
            let b = a.with("content"@, told);
            lemma_with(a, "content"@, told);
            let calls = JsonView::Array(tool_calls.map_values(|c: CallView| wire_call(c)));
            lemma_with(b, "tool_calls"@, calls);
        },
        MessageView::Tool { call_id, content, .. } => {
            let a = o.with("role"@, txt("tool"@));
            lemma_with(o, "role"@, txt("tool"@));
            let b = a.with("tool_call_id"@, txt(call_id));
            lemma_with(a, "tool_call_id"@, txt(call_id));
            lemma_with(b, "content"@, txt(content));
        },
    }
}

/// A request opens with the system prompt. Where there is a summary, it follows as
/// a message of the user; then come all the messages in their order.
pub proof fn law_conversations_are_sent_in_order(p: PreparedView)
    ensures
        ({
            let sent = wire_messages(p);
            let first = if p.summary is Some {
                2int
            } else {
                1
            };
            &&& sent.len() == first + p.messages.len()
            &&& sent[0].field("role"@) == Some(txt("system"@))
            &&& sent[0].field("content"@) == Some(txt(p.system_prompt))
            &&& p.summary matches Some(s) ==> sent[1].field("role"@) == Some(txt("user"@)) && (
            sent[1].at("content"@).as_text() matches Some(t) && s.is_suffix_of(t))
            &&& forall|i: int|
                0 <= i < p.messages.len() ==> sent[first + i] == wire_message(
                    #[trigger] p.messages[i],
                )
        }),
{
    reveal_strlit("role");
    reveal_strlit("content");
    assert("role"@.len() == 4 && "content"@.len() == 7);
    lemma_no_members();
    let o = crate::json::obj();
    lemma_with(o, "role"@, txt("system"@));
    lemma_with(o.with("role"@, txt("system"@)), "content"@, txt(p.system_prompt));
    if let Some(s) = p.summary {
        let t = "[Asteria 历史摘要]\n"@ + s;
        lemma_with(o, "role"@, txt("user"@));
        lemma_with(o.with("role"@, txt("user"@)), "content"@, txt(t));
        assert(t.skip(t.len() - s.len()) =~= s);
        assert(s.is_suffix_of(t));
    }
}

/// A request names the model, carries the conversation, the selected tools and
/// whether one must be called, and asks for a stream with its usage.
pub proof fn law_requests_carry_their_parts(model: Seq<char>, p: PreparedView, tools: JsonView)
    ensures
        ({
            let body = request_body(model, p, tools);
            &&& body.field("model"@) == Some(txt(model))
            &&& body.field("messages"@) == Some(JsonView::Array(wire_messages(p)))
            &&& body.field("tools"@) == Some(selection(p, tools).0)
            &&& body.field("tool_choice"@) == Some(selection(p, tools).1)
            &&& body.field("stream"@) == Some(JsonView::Bool(true))
            &&& body.at("stream_options"@).field("include_usage"@) == Some(JsonView::Bool(true))
            &&& body.at("thinking"@).field("type"@) == Some(txt("disabled"@))
        }),
{
    reveal_strlit("model");
    reveal_strlit("messages");
    reveal_strlit("tools");
    reveal_strlit("tool_choice");
    reveal_strlit("thinking");
    reveal_strlit("stream");
    reveal_strlit("stream_options");
    assert("model"@[0] == 'm' && "tools"@[0] == 't' && "messages"@[0] == 'm' && "thinking"@[0]
        == 't');
    assert("model"@.len() == 5 && "messages"@.len() == 8 && "tools"@.len() == 5
        && "tool_choice"@.len() == 11 && "thinking"@.len() == 8 && "stream"@.len() == 6
        && "stream_options"@.len() == 14);
    lemma_no_members();
    let o = crate::json::obj();
    let off = o.with("type"@, txt("disabled"@));
    lemma_with(o, "type"@, txt("disabled"@));
    let usage = o.with("include_usage"@, JsonView::Bool(true));
    lemma_with(o, "include_usage"@, JsonView::Bool(true));
    let a = o.with("model"@, txt(model));
    lemma_with(o, "model"@, txt(model));
    let b = a.with("messages"@, JsonView::Array(wire_messages(p)));
    lemma_with(a, "messages"@, JsonView::Array(wire_messages(p)));
    let c = b.with("tools"@, selection(p, tools).0);
    lemma_with(b, "tools"@, selection(p, tools).0);
    let d = c.with("tool_choice"@, selection(p, tools).1);
    lemma_with(c, "tool_choice"@, selection(p, tools).1);
    let e = d.with("thinking"@, off);
    lemma_with(d, "thinking"@, off);
    let f = e.with("stream"@, JsonView::Bool(true));
    lemma_with(e, "stream"@, JsonView::Bool(true));
    lemma_with(f, "stream_options"@, usage);
}

/// A tool that is forced is the only one that is sent, and the model must call
/// it; where nothing is forced, all tools are sent and the model may choose.
pub proof fn law_forced_tools_are_sent_alone(p: PreparedView, tools: JsonView)
    ensures
        p.forced_tool_name matches Some(name) ==> selection(p, tools).1 == txt("required"@)
            && forall|t: JsonView| #[trigger]
            selection(p, tools).0.items().contains(t) <==> tools.items().contains(t)
                && schema_name(t) == Some(name),
        p.forced_tool_name is None && p.force_calculation && tools is Array ==> selection(
            p,
            tools,
        ).1 == txt("required"@) && forall|t: JsonView| #[trigger]
            selection(p, tools).0.items().contains(t) <==> tools.items().contains(t)
                && schema_name(t) == Some("calculate"@),
        p.forced_tool_name is None && !p.force_calculation && !p.force_search_docs ==> selection(
            p,
            tools,
        ) == (tools, txt("auto"@)),
        p.forced_tool_name is None && !p.force_calculation && p.force_search_docs ==> (
        selection(p, tools) == (tools, txt("auto"@)) && forall|t: JsonView|
            tools.items().contains(t) ==> schema_name(t) != Some("search_docs"@)) || (selection(
            p,
            tools,
        ).1 == txt("required"@) && selection(p, tools).0.items().len() > 0 && forall|t: JsonView|
            #[trigger]
            selection(p, tools).0.items().contains(t) <==> tools.items().contains(t)
                && schema_name(t) == Some("search_docs"@)),
{
    let all = tools.items();
    assert forall|t: JsonView, name: Seq<char>| #[trigger]
        only_tool(tools, name).contains(t) <==> all.contains(t) && schema_name(t) == Some(name) by {
        crate::seqs::lemma_filter_contains(all, is_tool(name), t);
    }
    if only_tool(tools, "search_docs"@).len() == 0 {
        assert forall|t: JsonView| all.contains(t) implies schema_name(t)
            != Some("search_docs"@) by {
            if schema_name(t) == Some("search_docs"@) {
                assert(only_tool(tools, "search_docs"@).contains(t));
            }
        }
    }
}

} // verus!
