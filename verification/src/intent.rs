//! What the latest question of the user asks for, by plain rules.
use vstd::prelude::*;
use crate::json::{items_view, lemma_array_view, Json, JsonView};
use crate::message::{copy_calls, lemma_messages_push, messages_view, Message, MessageView};
use crate::rag::query::{chapter_spec, is_outline_query, outline_spec, requested_chapter_number};
use crate::text::chars::{ascii_lower, byte_len, chars_of, copy_opt, digit, is_digit, is_white, same, text_between, to_ascii_lower, utf8_len, view_opt, white};
use crate::text::pieces::{trim, trim_spec, trim_start, trim_start_spec, CharClass};
use crate::text::search::{after_prefix, contains, contains_any, contains_char, has_any, has_prefix, has_text, replace, replace_spec, rfind, rfind_from, starts_with, strip_prefix};

verus! {

/// A question that carries the material of an earlier search.
pub open spec fn is_stale_prompt(content: Seq<char>) -> bool {
    has_text(content, "请只根据下面的本地资料回答问题"@) && (has_text(content, "本地资料："@)
        || has_text(content, "[资料 "@))
}

/// The question itself where a message carries the material of an earlier
/// search, and the message as it is otherwise.
pub open spec fn bare_question(content: Seq<char>) -> Seq<char> {
    if !is_stale_prompt(content) {
        content
    } else {
        let question = match rfind_from(content, "\n问题："@, content.len() as int) {
            Some(i) => trim_spec(content.skip(i + "\n问题："@.len())),
            None => trim_spec(content),
        };
        if question.len() > 0 && question != content {
            question
        } else {
            content
        }
    }
}

/// The question itself where a message carries earlier material.
pub fn unwrap_stale_rag_prompt(content: &str) -> (r: String)
    ensures
        r@ == bare_question(content@),
{
    if !(contains(content, "请只根据下面的本地资料回答问题") && (contains(content, "本地资料：")
        || contains(content, "[资料 "))) {
        return content.to_owned();
    }
    let c = chars_of(content);
    let marker = chars_of("\n问题：");
    let end: usize = c.len();
    let question = match rfind(&c, &marker) {
        Some(i) => {
            let tail = text_between(&c, i + marker.len(), end);
            assert(tail@ =~= content@.skip(i + marker@.len()));
            trim(&tail)
        },
        None => trim(content),
    };
    if question.as_str().unicode_len() > 0 && !same(&question, content) {
        question
    } else {
        content.to_owned()
    }
}

/// A message as the model sees it.
pub open spec fn visible(m: MessageView) -> MessageView {
    match m {
        MessageView::User { content } => MessageView::User { content: bare_question(content) },
        other => other,
    }
}

pub open spec fn visible_all(ms: Seq<MessageView>) -> Seq<MessageView> {
    ms.map_values(|m: MessageView| visible(m))
}

/// The messages as the model sees them.
pub fn visible_messages(messages: &[Message]) -> (r: Vec<Message>)
    ensures
        messages_view(r@) == visible_all(messages_view(messages@)),
{
    let ghost all = visible_all(messages_view(messages@));
    let mut r: Vec<Message> = Vec::new();
    for i in 0..messages.len()
        invariant
            all == visible_all(messages_view(messages@)),
            messages_view(r@) =~= all.take(i as int),
    {
        let m = match &messages[i] {
            Message::User { content } => Message::User {
                content: unwrap_stale_rag_prompt(content),
            },
            Message::Assistant { content, tool_calls } => Message::Assistant {
                content: copy_opt(content),
                tool_calls: copy_calls(tool_calls),
            },
            Message::Tool { call_id, content, is_error } => Message::Tool {
                call_id: call_id.clone(),
                content: content.clone(),
                is_error: *is_error,
            },
        };
        proof {
            assert(m@ == visible(messages@[i as int]@));
            lemma_messages_push(r@, m);
            assert(all.take(i + 1) =~= all.take(i as int).push(m@));
        }
        r.push(m);
    }
    assert(all.take(messages@.len() as int) =~= all);
    r
}

/// The latest question, as long as no tool has answered since.
pub open spec fn open_question(ms: Seq<MessageView>) -> Option<Seq<char>>
    decreases ms.len(),
{
    if ms.len() == 0 {
        None
    } else {
        match ms.last() {
            MessageView::User { content } => Some(content),
            MessageView::Tool { .. } => None,
            MessageView::Assistant { .. } => open_question(ms.drop_last()),
        }
    }
}

/// The latest question, as long as no tool has answered since.
pub fn latest_user_awaiting_tools(messages: &Vec<Message>) -> (r: Option<&String>)
    ensures
        match r {
            Some(s) => open_question(messages_view(messages@)) == Some(s@),
            None => open_question(messages_view(messages@)) is None,
        },
{
    let ghost all = messages_view(messages@);
    let mut i: usize = messages.len();
    assert(all.take(i as int) =~= all);
    while i > 0
        invariant
            i <= messages@.len(),
            all == messages_view(messages@),
            open_question(all) == open_question(all.take(i as int)),
        decreases i,
    {
        i -= 1;
        assert(all.take(i + 1).drop_last() =~= all.take(i as int));
        assert(all.take(i + 1).last() == messages@[i as int]@);
        match &messages[i] {
            Message::User { content } => {
                return Some(content);
            },
            Message::Tool { call_id: _, content: _, is_error: _ } => {
                return None;
            },
            Message::Assistant { content: _, tool_calls: _ } => {},
        }
    }
    None
}

/// Words that ask for a tool to be called.
pub open spec fn call_words() -> Seq<&'static str> {
    seq!["请调用", "必须调用", "帮我调用", "调用工具", "请使用", "必须使用", "使用工具"]
}

/// Whether a question asks for some tool to be called.
pub open spec fn requests_call(content: Seq<char>) -> bool {
    has_any(content, call_words()) || has_text(ascii_lower(content), "call tool"@) || has_text(
        ascii_lower(content),
        "use tool"@,
    )
}

/// A text whose first word after `action` is `name`.
pub open spec fn opens_with(text: Seq<char>, action: Seq<char>, name: Seq<char>) -> bool {
    match after_prefix(text, action) {
        Some(rest) => has_prefix(trim_start_spec(rest, CharClass::White), name),
        None => false,
    }
}

/// Whether a question asks for the tool of that name.
pub open spec fn asks_for(content: Seq<char>, name: Seq<char>) -> bool {
    let plain = replace_spec(content, "`"@, ""@);
    let trimmed = trim_start_spec(plain, CharClass::White);
    has_text(plain, name) && (requests_call(content) || opens_with(trimmed, "调用"@, name)
        || opens_with(trimmed, "使用"@, name))
}

/// The name of a tool's schema.
pub open spec fn schema_name(tool: JsonView) -> Option<Seq<char>> {
    tool.at("function"@).at("name"@).as_text()
}

/// The longest name among the tools that a question asks for; of names that
/// are equally long, the last.
pub open spec fn asked_tool(content: Seq<char>, tools: Seq<JsonView>) -> Option<Seq<char>>
    decreases tools.len(),
{
    if tools.len() == 0 {
        None
    } else {
        let before = asked_tool(content, tools.drop_last());
        match schema_name(tools.last()) {
            Some(name) => if asks_for(content, name) && (before is None || byte_len(before->0)
                <= byte_len(name)) {
                Some(name)
            } else {
                before
            },
            None => before,
        }
    }
}

/// The registered tool that the open question asks for by name.
pub open spec fn explicit_tool(ms: Seq<MessageView>, tools: JsonView) -> Option<Seq<char>> {
    match open_question(ms) {
        Some(content) => asked_tool(content, tools.items()),
        None => None,
    }
}

fn opens(text: &str, action: &str, name: &str) -> (r: bool)
    ensures
        r == opens_with(text@, action@, name@),
{
    match strip_prefix(text, action) {
        Some(rest) => starts_with(&trim_start(&rest, CharClass::White), name),
        None => false,
    }
}

/// The name of a tool's schema.
pub fn name_of_schema(tool: &Json) -> (r: Option<&str>)
    ensures
        match r {
            Some(n) => schema_name(tool@) == Some(n@),
            None => schema_name(tool@) is None,
        },
{
    match tool.get("function") {
        Some(f) => f.text_at("name"),
        None => None,
    }
}

/// The registered tool that the open question asks for by name.
pub fn latest_explicit_tool_request(messages: &Vec<Message>, tools: &Json) -> (r: Option<String>)
    ensures
        view_opt(r) == explicit_tool(messages_view(messages@), tools@),
{
    let content = match latest_user_awaiting_tools(messages) {
        Some(c) => c,
        None => {
            return None;
        },
    };
    let list = match tools {
        Json::Array(items) => items,
        _ => {
            return None;
        },
    };
    proof {
        lemma_array_view(*list);
        reveal_strlit("`");
    }
    let lower = to_ascii_lower(content);
    let words: [&str; 7] = [
        "请调用",
        "必须调用",
        "帮我调用",
        "调用工具",
        "请使用",
        "必须使用",
        "使用工具",
    ];
    assert(words@ =~= call_words());
    let requests = contains_any(content, &words) || contains(&lower, "call tool") || contains(
        &lower,
        "use tool",
    );
    let plain = replace(content, "`", "");
    let trimmed = trim_start(&plain, CharClass::White);
    let ghost all = items_view(list@);
    let mut best: Option<String> = None;
    assert(all.take(0) =~= Seq::empty());
    for i in 0..list.len()
        invariant
            all == items_view(list@),
            requests == requests_call(content@),
            plain@ == replace_spec(content@, "`"@, ""@),
            trimmed@ == trim_start_spec(plain@, CharClass::White),
            view_opt(best) == asked_tool(content@, all.take(i as int)),
    {
        assert(all.take(i + 1).drop_last() =~= all.take(i as int));
        assert(all.take(i + 1).last() == list@[i as int]@);
        if let Some(name) = name_of_schema(&list[i]) {
            let asked = contains(&plain, name) && (requests || opens(&trimmed, "调用", name)
                || opens(&trimmed, "使用", name));
            let longer = match &best {
                Some(b) => utf8_len(b) <= utf8_len(name),
                None => true,
            };
            if asked && longer {
                best = Some(name.to_owned());
            }
        }
    }
    assert(all.take(list@.len() as int) =~= all);
    best
}

pub open spec fn manual_words() -> Seq<&'static str> {
    seq!["知识库", "本地资料", "故障手册", "troubleshooting", "trouble shooting"]
}

/// A question for a chapter, an outline or the local manuals.
pub open spec fn needs_search(content: Seq<char>) -> bool {
    chapter_spec(content) is Some || outline_spec(content) || has_any(
        ascii_lower(content),
        manual_words(),
    )
}

/// Whether the open question has to be looked up in the local documents.
pub fn latest_requires_search_docs(messages: &Vec<Message>) -> (r: bool)
    ensures
        r == match open_question(messages_view(messages@)) {
            Some(content) => needs_search(content),
            None => false,
        },
{
    let content = match latest_user_awaiting_tools(messages) {
        Some(c) => c,
        None => {
            return false;
        },
    };
    let lower = to_ascii_lower(content);
    let words: [&str; 5] = [
        "知识库",
        "本地资料",
        "故障手册",
        "troubleshooting",
        "trouble shooting",
    ];
    assert(words@ =~= manual_words());
    requested_chapter_number(content).is_some() || is_outline_query(content) || contains_any(
        &lower,
        &words,
    )
}

/// Some character of a text stands in `set`.
pub open spec fn has_char_of(s: Seq<char>, set: Seq<char>) -> bool {
    exists|i: int| 0 <= i < s.len() && set.contains(#[trigger] s[i])
}

pub open spec fn has_digit(s: Seq<char>) -> bool {
    exists|i: int| 0 <= i < s.len() && is_digit(#[trigger] s[i])
}

/// Digits, operators and brackets only, but for white space.
pub open spec fn is_expression(s: Seq<char>) -> bool {
    forall|i: int|
        0 <= i < s.len() ==> is_white(#[trigger] s[i]) || is_digit(s[i])
            || ".+-*/^()×÷"@.contains(s[i])
}

/// A request to calculate. To print a text that speaks of it is none.
pub open spec fn needs_calculation(content: Seq<char>) -> bool {
    let prints = (has_text(content, "打印"@) || has_text(content, "输出"@)) && has_text(
        content,
        "文字"@,
    );
    let asks = has_text(content, "计算"@) || has_text(content, "算出"@) || has_text(content, "求"@)
        || has_text(content, "calculate"@);
    !prints && has_char_of(content, "+-*/^×÷="@) && has_digit(content) && (asks || is_expression(
        content,
    ))
}

/// Whether the open question is a request to calculate.
pub fn latest_requires_calculation(messages: &Vec<Message>) -> (r: bool)
    ensures
        r == match open_question(messages_view(messages@)) {
            Some(content) => needs_calculation(content),
            None => false,
        },
{
    let content = match latest_user_awaiting_tools(messages) {
        Some(c) => c,
        None => {
            return false;
        },
    };
    if (contains(content, "打印") || contains(content, "输出")) && contains(content, "文字") {
        return false;
    }
    let asks = contains(content, "计算") || contains(content, "算出") || contains(content, "求")
        || contains(content, "calculate");
    let c = chars_of(content);
    let mut operator = false;
    let mut number = false;
    let mut expression = true;
    for i in 0..c.len()
        invariant
            c@ == content@,
            operator == exists|j: int| 0 <= j < i && "+-*/^×÷="@.contains(#[trigger] content@[j]),
            number == exists|j: int| 0 <= j < i && is_digit(#[trigger] content@[j]),
            expression == forall|j: int|
                0 <= j < i ==> is_white(#[trigger] content@[j]) || is_digit(content@[j])
                    || ".+-*/^()×÷"@.contains(content@[j]),
    {
        let x = c[i];
        assert(x == content@[i as int]);
        if contains_char("+-*/^×÷=", x) {
            operator = true;
        }
        if digit(x) {
            number = true;
        }
        if !(white(x) || digit(x) || contains_char(".+-*/^()×÷", x)) {
            expression = false;
        }
    }
    operator && number && (asks || expression)
}

} // verus!
