//! The DeepSeek chat protocol: requests and the stream of an answer.
use vstd::prelude::*;
use crate::context_builder::{PreparedContext, PreparedView};
use crate::intent::{name_of_schema, schema_name};
use crate::json::{items_view, obj, txt, Json, JsonView};
use crate::message::{calls_view, messages_view, CallView, Message, MessageView, ToolCall};
use crate::provider::turn::ModelProvider;
use crate::seqs::{lemma_filter_empty, lemma_filter_step};
use crate::text::chars::same;

verus! {

/// A tool of that name.
pub open spec fn is_tool(name: Seq<char>) -> spec_fn(JsonView) -> bool {
    |t: JsonView| schema_name(t) == Some(name)
}

/// The tools of that name; none where the tools are no array.
pub open spec fn only_tool(tools: JsonView, name: Seq<char>) -> Seq<JsonView> {
    tools.items().filter(is_tool(name))
}

/// The tools of a request and whether the model has to call one.
pub open spec fn selection(p: PreparedView, tools: JsonView) -> (JsonView, JsonView) {
    match p.forced_tool_name {
        Some(name) => (JsonView::Array(only_tool(tools, name)), txt("required"@)),
        None => if p.force_calculation {
            (
                if tools is Array {
                    JsonView::Array(only_tool(tools, "calculate"@))
                } else {
                    tools
                },
                txt("required"@),
            )
        } else if p.force_search_docs && only_tool(tools, "search_docs"@).len() > 0 {
            (JsonView::Array(only_tool(tools, "search_docs"@)), txt("required"@))
        } else {
            (tools, txt("auto"@))
        },
    }
}

fn tools_named(tools: &Json, name: &str) -> (r: Vec<Json>)
    ensures
        items_view(r@) == only_tool(tools@, name@),
{
    let mut r: Vec<Json> = Vec::new();
    let ghost p = is_tool(name@);
    assert(items_view(r@) =~= Seq::empty());
    let items = match tools.as_array() {
        Some(items) => items,
        None => {
            proof {
                lemma_filter_empty(tools@.items(), p);
                assert(tools@.items().take(0) =~= tools@.items());
            }
            return r;
        },
    };
    let ghost all = items_view(items@);
    proof {
        lemma_filter_empty(all, p);
    }
    for i in 0..items.len()
        invariant
            all == items_view(items@),
            p == is_tool(name@),
            items_view(r@) == all.take(i as int).filter(p),
    {
        proof {
            lemma_filter_step(all, i as int, p);
            assert(all[i as int] == items@[i as int]@);
        }
        let hit = match name_of_schema(&items[i]) {
            Some(n) => same(n, name),
            None => false,
        };
        if hit {
            let tool = items[i].copy();
            assert(items_view(r@.push(tool)) =~= items_view(r@).push(tool@));
            r.push(tool);
        }
    }
    assert(all.take(items@.len() as int) =~= all);
    r
}

/// The tools of a request and whether the model has to call one.
pub fn select_tools(context: &PreparedContext, tools: &Json) -> (r: (Json, Json))
    ensures
        (r.0@, r.1@) == selection(context@, tools@),
{
    if let Some(name) = context.forced_tool_name() {
        return (Json::array(tools_named(tools, name)), Json::text("required"));
    }
    if context.force_calculation() {
        return (
            if tools.as_array().is_some() {
                Json::array(tools_named(tools, "calculate"))
            } else {
                tools.copy()
            },
            Json::text("required"),
        );
    }
    if context.force_search_docs() {
        let found = tools_named(tools, "search_docs");
        assert(items_view(found@).len() == found@.len());
        if found.len() > 0 {
            return (Json::array(found), Json::text("required"));
        }
    }
    (tools.copy(), Json::text("auto"))
}

/// The wire form of a call.
pub open spec fn wire_call(c: CallView) -> JsonView {
    obj().with("id"@, txt(c.id)).with("type"@, txt("function"@)).with(
        "function"@,
        obj().with("name"@, txt(c.name)).with("arguments"@, txt(c.arguments)),
    )
}

pub open spec fn optional_text(t: Option<Seq<char>>) -> JsonView {
    match t {
        Some(s) => txt(s),
        None => JsonView::Null,
    }
}

/// The wire form of a message. Without calls there is no field for them.
pub open spec fn wire_message(m: MessageView) -> JsonView {
    match m {
        MessageView::User { content } => obj().with("role"@, txt("user"@)).with(
            "content"@,
            txt(content),
        ),
        MessageView::Assistant { content, tool_calls } => {
            let plain = obj().with("role"@, txt("assistant"@)).with(
                "content"@,
                optional_text(content),
            );
            if tool_calls.len() == 0 {
                plain
            } else {
                plain.with(
                    "tool_calls"@,
                    JsonView::Array(tool_calls.map_values(|c: CallView| wire_call(c))),
                )
            }
        },
        MessageView::Tool { call_id, content, .. } => obj().with("role"@, txt("tool"@)).with(
            "tool_call_id"@,
            txt(call_id),
        ).with("content"@, txt(content)),
    }
}

/// The messages of a request: the prompt, the summary where there is one, and
/// the conversation.
pub open spec fn wire_messages(p: PreparedView) -> Seq<JsonView> {
    let prompt = obj().with("role"@, txt("system"@)).with("content"@, txt(p.system_prompt));
    let summary = match p.summary {
        Some(s) => seq![
            obj().with("role"@, txt("user"@)).with("content"@, txt("[Asteria 历史摘要]\n"@ + s)),
        ],
        None => Seq::empty(),
    };
    seq![prompt] + summary + p.messages.map_values(|m: MessageView| wire_message(m))
}

fn call_json(c: &ToolCall) -> (r: Json)
    ensures
        r@ == wire_call(c@),
{
    let function = Json::empty().put("name", Json::text(&c.name)).put(
        "arguments",
        Json::text(&c.arguments),
    );
    Json::empty().put("id", Json::text(&c.id)).put("type", Json::text("function")).put(
        "function",
        function,
    )
}

fn message_json(m: &Message) -> (r: Json)
    ensures
        r@ == wire_message(m@),
{
    match m {
        Message::User { content } => Json::empty().put("role", Json::text("user")).put(
            "content",
            Json::text(content),
        ),
        Message::Assistant { content, tool_calls } => {
            let text = match content {
                Some(t) => Json::text(t),
                None => Json::Null,
            };
            let plain = Json::empty().put("role", Json::text("assistant")).put("content", text);
            if tool_calls.len() == 0 {
                return plain;
            }
            let ghost all = calls_view(tool_calls@);
            let ghost f = |c: CallView| wire_call(c);
            let mut calls: Vec<Json> = Vec::new();
            for i in 0..tool_calls.len()
                invariant
                    all == calls_view(tool_calls@),
                    f == (|c: CallView| wire_call(c)),
                    items_view(calls@) =~= all.take(i as int).map_values(f),
            {
                let call = call_json(&tool_calls[i]);
                assert(items_view(calls@.push(call)) =~= items_view(calls@).push(call@));
                assert(all.take(i + 1).map_values(f) =~= all.take(i as int).map_values(f).push(
                    call@,
                ));
                calls.push(call);
            }
            assert(all.take(tool_calls@.len() as int) =~= all);
            plain.put("tool_calls", Json::array(calls))
        },
        Message::Tool { call_id, content, is_error: _ } => Json::empty().put(
            "role",
            Json::text("tool"),
        ).put("tool_call_id", Json::text(call_id)).put("content", Json::text(content)),
    }
}

/// The messages of a request.
pub fn project(context: &PreparedContext) -> (r: Vec<Json>)
    ensures
        items_view(r@) == wire_messages(context@),
{
    let mut wire: Vec<Json> = Vec::new();
    let prompt = Json::empty().put("role", Json::text("system")).put(
        "content",
        Json::text(context.system_prompt()),
    );
    let ghost first = prompt@;
    wire.push(prompt);
    assert(items_view(wire@) =~= seq![first]);
    if let Some(summary) = context.summary() {
        let mut text = "[Asteria 历史摘要]\n".to_owned();
        text.append(summary);
        let note = Json::empty().put("role", Json::text("user")).put("content", Json::Text(text));
        assert(items_view(wire@.push(note)) =~= items_view(wire@).push(note@));
        wire.push(note);
    }
    let messages = context.messages();
    let ghost all = context@.messages;
    let ghost f = |m: MessageView| wire_message(m);
    let ghost start = items_view(wire@);
    for i in 0..messages.len()
        invariant
            all == messages_view(messages@),
            f == (|m: MessageView| wire_message(m)),
            items_view(wire@) =~= start + all.take(i as int).map_values(f),
    {
        let m = message_json(&messages[i]);
        assert(items_view(wire@.push(m)) =~= items_view(wire@).push(m@));
        assert(all.take(i + 1).map_values(f) =~= all.take(i as int).map_values(f).push(m@));
        wire.push(m);
    }
    assert(all.take(messages@.len() as int) =~= all);
    assert(items_view(wire@) =~= wire_messages(context@));
    wire
}

/// The access to a DeepSeek model.
#[derive(Clone, Debug)]
pub struct DeepSeekProvider {
    pub api_key: String,
    pub model: String,
    pub api_url: String,
}

/// The body of a request.
pub open spec fn request_body(model: Seq<char>, p: PreparedView, tools: JsonView) -> JsonView {
    obj().with("model"@, txt(model)).with("messages"@, JsonView::Array(wire_messages(p))).with(
        "tools"@,
        selection(p, tools).0,
    ).with("tool_choice"@, selection(p, tools).1).with(
        "thinking"@,
        obj().with("type"@, txt("disabled"@)),
    ).with("stream"@, JsonView::Bool(true)).with(
        "stream_options"@,
        obj().with("include_usage"@, JsonView::Bool(true)),
    )
}

impl DeepSeekProvider {
    /// The access with a key, to the given model or the default one.
    pub fn new(api_key: String, model: Option<String>) -> (r: DeepSeekProvider)
        ensures
            r.api_key == api_key,
            r.model@ == match model {
                Some(m) => m@,
                None => "deepseek-v4-flash"@,
            },
            r.api_url@ == "https://api.deepseek.com/chat/completions"@,
    {
        DeepSeekProvider {
            api_key,
            model: match model {
                Some(m) => m,
                None => "deepseek-v4-flash".to_owned(),
            },
            api_url: "https://api.deepseek.com/chat/completions".to_owned(),
        }
    }

    /// The body of a request.
    pub fn body(&self, context: &PreparedContext, tools: &Json) -> (r: Json)
        ensures
            r@ == request_body(self.model@, context@, tools@),
    {
        let selected = select_tools(context, tools);
        let thinking = Json::empty().put("type", Json::text("disabled"));
        let options = Json::empty().put("include_usage", Json::Bool(true));
        Json::empty().put("model", Json::text(&self.model)).put(
            "messages",
            Json::array(project(context)),
        ).put("tools", selected.0).put("tool_choice", selected.1).put("thinking", thinking).put(
            "stream",
            Json::Bool(true),
        ).put("stream_options", options)
    }
}

impl ModelProvider for DeepSeekProvider {
    open spec fn model_name(&self) -> Seq<char> {
        self.model@
    }

    fn model(&self) -> (r: &str) {
        self.model.as_str()
    }
}

} // verus!
