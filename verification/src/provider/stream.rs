//! The stream of an answer, put together from its parts.
use vstd::prelude::*;
use crate::json::{items_view, json_parse, parse, Json, JsonView};
use crate::message::{calls_view, CallView, ToolCall};
use crate::provider::turn::{AssistantTurn, TokenUsage, TurnView};
use crate::text::chars::{decode_lossy, lemma_views_push, lossy_text, same, views};
use crate::text::pieces::{trim, trim_spec};
use crate::text::search::{after_prefix, has_prefix, starts_with, strip_prefix};

verus! {

/// An answer as far as it has been received. The calls stand in the order of
/// their numbers.
#[verifier::ext_equal]
pub struct AnswerView {
    pub content: Seq<char>,
    pub tools: Seq<(usize, CallView)>,
    pub usage: Option<TokenUsage>,
}

/// The message for a part that is no JSON, given why it is none.
pub open spec fn unreadable_part(reason: Seq<char>) -> Seq<char> {
    "无法解析 DeepSeek 流式分片: "@ + reason
}

pub open spec fn empty_answer() -> AnswerView {
    AnswerView { content: Seq::empty(), tools: Seq::empty(), usage: None }
}

pub open spec fn number_at(v: JsonView, key: Seq<char>) -> usize {
    match v.at(key).as_u64() {
        Some(n) => n as usize,
        None => 0,
    }
}

/// The usage that a part reports.
pub open spec fn reported_usage(v: JsonView) -> Option<TokenUsage> {
    match v.field("usage"@) {
        None => None,
        Some(JsonView::Null) => None,
        Some(u) => Some(
            TokenUsage {
                prompt_tokens: number_at(u, "prompt_tokens"@),
                completion_tokens: number_at(u, "completion_tokens"@),
                total_tokens: number_at(u, "total_tokens"@),
            },
        ),
    }
}

/// What a part adds to the first answer, nothing where it adds to none.
pub open spec fn delta_of(v: JsonView) -> JsonView {
    let choices = v.at("choices"@).items();
    if choices.len() == 0 {
        JsonView::Null
    } else {
        match choices[0].field("delta"@) {
            Some(d) => d,
            None => choices[0].at("message"@),
        }
    }
}

/// The text that a part adds.
pub open spec fn delta_text(v: JsonView) -> Seq<char> {
    match delta_of(v).at("content"@).as_text() {
        Some(t) => t,
        None => Seq::empty(),
    }
}

pub open spec fn text_or_empty(t: Option<Seq<char>>) -> Seq<char> {
    match t {
        Some(s) => s,
        None => Seq::empty(),
    }
}

/// A call with what a part adds to it: an identifier replaces the one before,
/// the name and the arguments grow.
pub open spec fn grown(c: CallView, part: JsonView) -> CallView {
    let id = text_or_empty(part.at("id"@).as_text());
    CallView {
        id: if id.len() > 0 {
            id
        } else {
            c.id
        },
        name: c.name + text_or_empty(part.at("function"@).at("name"@).as_text()),
        arguments: c.arguments + text_or_empty(part.at("function"@).at("arguments"@).as_text()),
    }
}

pub open spec fn empty_call() -> CallView {
    CallView { id: Seq::empty(), name: Seq::empty(), arguments: Seq::empty() }
}

/// The calls with a part of the call of that number added.
pub open spec fn with_part(tools: Seq<(usize, CallView)>, index: usize, part: JsonView) -> Seq<
    (usize, CallView),
>
    decreases tools.len(),
{
    if tools.len() == 0 {
        seq![(index, grown(empty_call(), part))]
    } else if tools[0].0 == index {
        seq![(index, grown(tools[0].1, part))] + tools.skip(1)
    } else if index < tools[0].0 {
        seq![(index, grown(empty_call(), part))] + tools
    } else {
        seq![tools[0]] + with_part(tools.skip(1), index, part)
    }
}

pub open spec fn with_parts(tools: Seq<(usize, CallView)>, parts: Seq<JsonView>) -> Seq<
    (usize, CallView),
>
    decreases parts.len(),
{
    if parts.len() == 0 {
        tools
    } else {
        with_part(
            with_parts(tools, parts.drop_last()),
            number_at(parts.last(), "index"@),
            parts.last(),
        )
    }
}

impl AnswerView {
    /// The answer with a part added.
    pub open spec fn take(self, v: JsonView) -> AnswerView {
        AnswerView {
            content: self.content + delta_text(v),
            tools: with_parts(self.tools, delta_of(v).at("tool_calls"@).items()),
            usage: match reported_usage(v) {
                Some(u) => Some(u),
                None => self.usage,
            },
        }
    }

    /// The finished answer.
    pub open spec fn turn(self) -> TurnView {
        TurnView {
            content: if self.content.len() == 0 {
                None
            } else {
                Some(self.content)
            },
            tool_calls: self.tools.map_values(|t: (usize, CallView)| t.1),
            usage: self.usage,
        }
    }
}

/// What a line of the stream holds.
pub enum LineView {
    /// Nothing that counts.
    Nothing,
    /// The end of the answer.
    Done,
    /// The JSON text of a part.
    Data(Seq<char>),
}

/// What a line of the stream holds. Comments and other fields do not count.
pub open spec fn line_spec(line: Seq<char>) -> LineView {
    let text = trim_spec(line);
    if text.len() == 0 || has_prefix(text, ":"@) {
        LineView::Nothing
    } else {
        match after_prefix(text, "data:"@) {
            None => LineView::Nothing,
            Some(rest) => {
                let data = trim_spec(rest);
                if data == "[DONE]"@ {
                    LineView::Done
                } else {
                    LineView::Data(data)
                }
            },
        }
    }
}

/// What reading a line has brought.
#[derive(Clone, Debug, PartialEq)]
pub struct LineOutcome {
    /// The answer is complete.
    pub done: bool,
    /// The text that the line adds, empty where it adds none.
    pub delta: String,
}

/// An answer as far as it has been received.
pub struct StreamAssembler {
    content: String,
    tools: Vec<(usize, ToolCall)>,
    usage: Option<TokenUsage>,
}

pub closed spec fn tools_view(v: Seq<(usize, ToolCall)>) -> Seq<(usize, CallView)> {
    v.map_values(|t: (usize, ToolCall)| (t.0, t.1@))
}

impl View for StreamAssembler {
    type V = AnswerView;

    closed spec fn view(&self) -> AnswerView {
        AnswerView { content: self.content@, tools: tools_view(self.tools@), usage: self.usage }
    }
}

impl Default for StreamAssembler {
    fn default() -> (r: StreamAssembler)
        ensures
            r@ == empty_answer(),
    {
        let r = StreamAssembler { content: String::new(), tools: Vec::new(), usage: None };
        assert(r@ =~= empty_answer());
        r
    }
}

fn read_number(v: &Json, key: &str) -> (r: usize)
    ensures
        r == number_at(v@, key@),
{
    match v.u64_at(key) {
        Some(n) => n as usize,
        None => 0,
    }
}

fn grow(call: &mut ToolCall, part: &Json)
    ensures
        final(call)@ == grown(old(call)@, part@),
{
    if let Some(id) = part.text_at("id") {
        if id.unicode_len() > 0 {
            call.id = id.to_owned();
        }
    }
    let ghost f = part@.at("function"@);
    let mut name: &str = "";
    let mut arguments: &str = "";
    proof {
        reveal_strlit("");
        assert(name@ =~= Seq::empty());
    }
    if let Some(function) = part.get("function") {
        if let Some(t) = function.text_at("name") {
            name = t;
        }
        if let Some(t) = function.text_at("arguments") {
            arguments = t;
        }
    }
    call.name.append(name);
    call.arguments.append(arguments);
}

fn add_part(tools: &mut Vec<(usize, ToolCall)>, index: usize, part: &Json)
    ensures
        tools_view(final(tools)@) == with_part(tools_view(old(tools)@), index, part@),
{
    let ghost all = tools_view(tools@);
    let mut i: usize = 0;
    assert(all.skip(0) =~= all);
    assert(all.take(0) + with_part(all, index, part@) =~= with_part(all, index, part@));
    while i < tools.len() && tools[i].0 < index
        invariant
            i <= tools@.len(),
            all == tools_view(tools@),
            with_part(all, index, part@) == all.take(i as int) + with_part(
                all.skip(i as int),
                index,
                part@,
            ),
        decreases tools@.len() - i,
    {
        let ghost rest = all.skip(i as int);
        proof {
            assert(rest[0] == (tools@[i as int].0, tools@[i as int].1@));
            assert(rest.skip(1) =~= all.skip(i + 1));
            assert(all.take(i as int) + (seq![rest[0]] + with_part(rest.skip(1), index, part@))
                =~= all.take(i + 1) + with_part(all.skip(i + 1), index, part@));
        }
        i += 1;
    }
    let ghost rest = all.skip(i as int);
    if i < tools.len() && tools[i].0 == index {
        assert(rest[0] == (tools@[i as int].0, tools@[i as int].1@));
        let mut entry = tools.remove(i);
        grow(&mut entry.1, part);
        tools.insert(i, entry);
        assert(tools_view(tools@) =~= all.take(i as int) + (seq![(entry.0, entry.1@)] + rest.skip(
            1,
        )));
        return;
    }
    let mut call = ToolCall { id: String::new(), name: String::new(), arguments: String::new() };
    assert(call@ =~= empty_call());
    grow(&mut call, part);
    let entry = (index, call);
    tools.insert(i, entry);
    proof {
        if rest.len() > 0 {
            assert(rest[0].0 == all[i as int].0);
            assert(index < rest[0].0);
        }
        assert(with_part(rest, index, part@) =~= seq![(index, entry.1@)] + rest);
        assert(tools_view(tools@) =~= all.take(i as int) + (seq![(index, entry.1@)] + rest));
    }
}

impl StreamAssembler {
    /// Adds a part of the answer, and returns the text that it adds.
    pub fn ingest_value(&mut self, value: &Json) -> (r: String)
        ensures
            final(self)@ == old(self)@.take(value@),
            r@ == delta_text(value@),
    {
        if let Some(usage) = value.get("usage") {
            match usage {
                Json::Null => {},
                _ => {
                    self.usage = Some(
                        TokenUsage {
                            prompt_tokens: read_number(usage, "prompt_tokens"),
                            completion_tokens: read_number(usage, "completion_tokens"),
                            total_tokens: read_number(usage, "total_tokens"),
                        },
                    );
                },
            }
        }
        let ghost before = self@;
        let nothing = Json::Null;
        let mut delta: &Json = &nothing;
        if let Some(choices) = value.get("choices") {
            if let Some(items) = choices.as_array() {
                if items.len() > 0 {
                    assert(items_view(items@)[0] == items@[0]@);
                    match items[0].get("delta") {
                        Some(d) => {
                            delta = d;
                        },
                        None => {
                            if let Some(m) = items[0].get("message") {
                                delta = m;
                            }
                        },
                    }
                } else {
                    assert(items_view(items@) =~= Seq::empty());
                }
            }
        }
        assert(delta@ == delta_of(value@));
        let mut text = String::new();
        if let Some(t) = delta.text_at("content") {
            text = t.to_owned();
        }
        assert(text@ =~= delta_text(value@));
        self.content.append(text.as_str());
        if let Some(list) = delta.get("tool_calls") {
            if let Some(parts) = list.as_array() {
                let ghost all = items_view(parts@);
                let ghost start = tools_view(self.tools@);
                let ghost content = self.content@;
                let ghost usage = self.usage;
                assert(all.take(0) =~= Seq::empty());
                for i in 0..parts.len()
                    invariant
                        all == items_view(parts@),
                        self.content@ == content,
                        self.usage == usage,
                        tools_view(self.tools@) == with_parts(start, all.take(i as int)),
                {
                    assert(all.take(i + 1).drop_last() =~= all.take(i as int));
                    assert(all.take(i + 1).last() == parts@[i as int]@);
                    let index: usize = read_number(&parts[i], "index");
                    add_part(&mut self.tools, index, &parts[i]);
                }
                assert(all.take(parts@.len() as int) =~= all);
            }
        }
        text
    }

    /// Reads a line of the stream. A part that is no JSON is an error, and
    /// adds nothing.
    pub fn ingest_line(&mut self, line: &str) -> (r: Result<LineOutcome, String>)
        ensures
            match line_spec(line@) {
                LineView::Nothing => final(self)@ == old(self)@ && r is Ok && !r->Ok_0.done
                    && r->Ok_0.delta@ == Seq::<char>::empty(),
                LineView::Done => final(self)@ == old(self)@ && r is Ok && r->Ok_0.done
                    && r->Ok_0.delta@ == Seq::<char>::empty(),
                LineView::Data(data) => match json_parse(data) {
                    Ok(v) => final(self)@ == old(self)@.take(v) && r is Ok && !r->Ok_0.done
                        && r->Ok_0.delta@ == delta_text(v),
                    Err(e) => final(self)@ == old(self)@ && r is Err && r->Err_0@ == unreadable_part(e),
                },
            },
    {
        let none = String::new();
        assert(none@ =~= Seq::<char>::empty());
        let text = trim(line);
        if text.as_str().unicode_len() == 0 || starts_with(&text, ":") {
            return Ok(LineOutcome { done: false, delta: none });
        }
        let rest = match strip_prefix(&text, "data:") {
            Some(t) => t,
            None => {
                return Ok(LineOutcome { done: false, delta: none });
            },
        };
        let data = trim(&rest);
        if same(&data, "[DONE]") {
            return Ok(LineOutcome { done: true, delta: none });
        }
        match parse(&data) {
            Ok(value) => {
                let delta = self.ingest_value(&value);
                Ok(LineOutcome { done: false, delta })
            },
            Err(e) => {
                let mut text = "无法解析 DeepSeek 流式分片: ".to_owned();
                text.append(e.as_str());
                Err(text)
            },
        }
    }

    /// The finished answer.
    pub fn finish(self) -> (r: AssistantTurn)
        ensures
            r@ == self@.turn(),
    {
        let ghost all = tools_view(self.tools@);
        let ghost f = |t: (usize, CallView)| t.1;
        let mut calls: Vec<ToolCall> = Vec::new();
        for i in 0..self.tools.len()
            invariant
                all == tools_view(self.tools@),
                f == (|t: (usize, CallView)| t.1),
                calls_view(calls@) =~= all.take(i as int).map_values(f),
        {
            let call = self.tools[i].1.copy();
            proof {
                crate::message::lemma_calls_push(calls@, call);
                assert(all.take(i + 1).map_values(f) =~= all.take(i as int).map_values(f).push(
                    call@,
                ));
            }
            calls.push(call);
        }
        assert(all.take(self.tools@.len() as int) =~= all);
        AssistantTurn {
            content: if self.content.as_str().unicode_len() == 0 {
                None
            } else {
                Some(self.content)
            },
            tool_calls: calls,
            usage: self.usage,
        }
    }
}

/// The state of a stream.
#[verifier::ext_equal]
pub enum StreamStatus {
    Open,
    Done,
    /// A part was no JSON.
    Failed(Seq<char>),
}

/// A stream as far as it has been read: the line that is not yet complete,
/// the answer, and the texts that were added one by one.
#[verifier::ext_equal]
pub struct StreamView {
    pub line: Seq<char>,
    pub answer: AnswerView,
    pub deltas: Seq<Seq<char>>,
    pub status: StreamStatus,
}

impl StreamView {
    /// The stream after a complete line.
    pub open spec fn end_line(self) -> StreamView {
        match line_spec(self.line) {
            LineView::Nothing => StreamView { line: Seq::empty(), ..self },
            LineView::Done => StreamView {
                line: Seq::empty(),
                status: StreamStatus::Done,
                ..self
            },
            LineView::Data(data) => match json_parse(data) {
                Ok(v) => StreamView {
                    line: Seq::empty(),
                    answer: self.answer.take(v),
                    deltas: if delta_text(v).len() > 0 {
                        self.deltas.push(delta_text(v))
                    } else {
                        self.deltas
                    },
                    ..self
                },
                Err(e) => StreamView {
                    line: Seq::empty(),
                    status: StreamStatus::Failed(unreadable_part(e)),
                    ..self
                },
            },
        }
    }

    /// The stream after one character more. What follows the end of the
    /// answer, or an error, does not count.
    pub open spec fn take_char(self, c: char) -> StreamView {
        if !(self.status is Open) {
            self
        } else if c == '\n' {
            self.end_line()
        } else {
            StreamView { line: self.line.push(c), ..self }
        }
    }

    pub open spec fn take_text(self, text: Seq<char>) -> StreamView
        decreases text.len(),
    {
        if text.len() == 0 {
            self
        } else {
            self.take_text(text.drop_last()).take_char(text.last())
        }
    }

    /// The stream at its end, where a last line may lack its line feed.
    pub open spec fn close(self) -> StreamView {
        if self.status is Open {
            self.end_line()
        } else {
            self
        }
    }
}

pub open spec fn empty_stream() -> StreamView {
    StreamView {
        line: Seq::empty(),
        answer: empty_answer(),
        deltas: Seq::empty(),
        status: StreamStatus::Open,
    }
}

enum Status {
    Open,
    Done,
    Failed(String),
}

/// An answer that arrives in chunks of bytes.
pub struct AnswerStream {
    line: String,
    assembler: StreamAssembler,
    deltas: Vec<String>,
    status: Status,
}

impl View for AnswerStream {
    type V = StreamView;

    closed spec fn view(&self) -> StreamView {
        StreamView {
            line: self.line@,
            answer: self.assembler@,
            deltas: views(self.deltas@),
            status: match self.status {
                Status::Open => StreamStatus::Open,
                Status::Done => StreamStatus::Done,
                Status::Failed(e) => StreamStatus::Failed(e@),
            },
        }
    }
}

impl AnswerStream {
    /// A stream of which nothing has been read.
    pub fn new() -> (r: AnswerStream)
        ensures
            r@ == empty_stream(),
    {
        let r = AnswerStream {
            line: String::new(),
            assembler: StreamAssembler::default(),
            deltas: Vec::new(),
            status: Status::Open,
        };
        assert(r@ =~= empty_stream());
        r
    }

    fn end_line(&mut self)
        requires
            old(self)@.status is Open,
        ensures
            final(self)@ == old(self)@.end_line(),
    {
        match self.assembler.ingest_line(&self.line) {
            Ok(outcome) => {
                if outcome.done {
                    self.status = Status::Done;
                }
                if outcome.delta.as_str().unicode_len() > 0 {
                    proof {
                        lemma_views_push(self.deltas@, outcome.delta);
                    }
                    self.deltas.push(outcome.delta);
                }
            },
            Err(e) => {
                self.status = Status::Failed(e);
            },
        }
        self.line = String::new();
        assert(self.line@ =~= Seq::empty());
    }

    /// Reads text of the stream, which may end anywhere in a line.
    pub fn feed_text(&mut self, text: &str)
        ensures
            final(self)@ == old(self)@.take_text(text@),
    {
        let ghost start = self@;
        let c = crate::text::chars::chars_of(text);
        assert(text@.take(0) =~= Seq::empty());
        for i in 0..c.len()
            invariant
                c@ == text@,
                self@ == start.take_text(text@.take(i as int)),
        {
            assert(text@.take(i + 1).drop_last() =~= text@.take(i as int));
            if let Status::Open = self.status {
                if c[i] == '\n' {
                    self.end_line();
                } else {
                    self.line.push(c[i]);
                }
            }
        }
        assert(text@.take(text@.len() as int) =~= text@);
    }

    /// Reads a chunk of the stream.
    pub fn feed(&mut self, chunk: &[u8])
        ensures
            final(self)@ == old(self)@.take_text(lossy_text(chunk@)),
    {
        let text = decode_lossy(chunk);
        self.feed_text(&text)
    }

    /// Whether the rest of the stream does not count any more.
    pub fn is_over(&self) -> (r: bool)
        ensures
            r == !(self@.status is Open),
    {
        match self.status {
            Status::Open => false,
            _ => true,
        }
    }

    /// Hands out the texts that were added since the last time.
    pub fn take_deltas(&mut self) -> (r: Vec<String>)
        ensures
            views(r@) == old(self)@.deltas,
            final(self)@ == (StreamView { deltas: Seq::empty(), ..old(self)@ }),
    {
        let mut none: Vec<String> = Vec::new();
        none.append(&mut self.deltas);
        assert(views(self.deltas@) =~= Seq::empty());
        assert(none@ =~= old(self).deltas@);
        none
    }

    /// The answer at the end of the stream, with the texts that the last line
    /// added.
    pub fn finish(self) -> (r: Result<(AssistantTurn, Vec<String>), String>)
        ensures
            match r {
                Ok(p) => !(self@.close().status is Failed) && p.0@ == self@.close().answer.turn()
                    && views(p.1@) == self@.close().deltas,
                Err(e) => self@.close().status == StreamStatus::Failed(e@),
            },
    {
        let mut stream = self;
        if let Status::Open = stream.status {
            stream.end_line();
        }
        match stream.status {
            Status::Failed(e) => Err(e),
            _ => Ok((stream.assembler.finish(), stream.deltas)),
        }
    }
}

/// It does not matter where a stream is cut into pieces.
pub proof fn law_stream_pieces(s: StreamView, a: Seq<char>, b: Seq<char>)
    ensures
        s.take_text(a + b) == s.take_text(a).take_text(b),
    decreases b.len(),
{
    if b.len() == 0 {
        assert(a + b =~= a);
    } else {
        assert((a + b).drop_last() =~= a + b.drop_last());
        law_stream_pieces(s, a, b.drop_last());
    }
}

/// The texts one after the other.
pub open spec fn joined(texts: Seq<Seq<char>>) -> Seq<char>
    decreases texts.len(),
{
    if texts.len() == 0 {
        Seq::empty()
    } else {
        joined(texts.drop_last()) + texts.last()
    }
}

/// The texts that were handed out make up the answer's content.
pub proof fn law_deltas_make_up_the_content(s: StreamView, text: Seq<char>)
    requires
        joined(s.deltas) == s.answer.content,
    ensures
        joined(s.take_text(text).deltas) == s.take_text(text).answer.content,
    decreases text.len(),
{
    if text.len() > 0 {
        let before = s.take_text(text.drop_last());
        law_deltas_make_up_the_content(s, text.drop_last());
        if before.status is Open && text.last() == '\n' {
            if let LineView::Data(data) = line_spec(before.line) {
                if let Ok(v) = json_parse(data) {
                    assert(before.deltas.push(delta_text(v)).drop_last() =~= before.deltas);
                    assert(before.answer.content + Seq::<char>::empty() =~= before.answer.content);
                    if delta_text(v).len() == 0 {
                        assert(delta_text(v) =~= Seq::<char>::empty());
                    }
                }
            }
        }
    }
}

/// The numbers of the calls ascend, so that each call appears once.
pub open spec fn calls_ascend(tools: Seq<(usize, CallView)>) -> bool {
    forall|i: int, j: int| 0 <= i < j < tools.len() ==> (#[trigger] tools[i]).0 < (#[trigger]
    tools[j]).0
}

/// Adding a part keeps the calls in the order of their numbers.
pub proof fn law_parts_keep_calls_in_order(
    tools: Seq<(usize, CallView)>,
    index: usize,
    part: JsonView,
)
    requires
        calls_ascend(tools),
    ensures
        calls_ascend(with_part(tools, index, part)),
        forall|i: int|
            0 <= i < with_part(tools, index, part).len() ==> (#[trigger] with_part(
                tools,
                index,
                part,
            )[i]).0 == index || exists|j: int|
                0 <= j < tools.len() && (#[trigger] tools[j]).0 == with_part(
                    tools,
                    index,
                    part,
                )[i].0,
    decreases tools.len(),
{
    let r = with_part(tools, index, part);
    if tools.len() > 0 {
        if tools[0].0 == index {
            assert forall|i: int, j: int| 0 <= i < j < r.len() implies (#[trigger] r[i]).0 < (
            #[trigger] r[j]).0 by {
                assert(tools[i].0 < tools[j].0);
            }
            assert forall|i: int| 0 <= i < r.len() implies (#[trigger] r[i]).0 == index || exists|
                j: int,
            |
                0 <= j < tools.len() && (#[trigger] tools[j]).0 == r[i].0 by {
                assert(tools[i].0 == r[i].0);
            }
        } else if index < tools[0].0 {
            assert forall|i: int, j: int| 0 <= i < j < r.len() implies (#[trigger] r[i]).0 < (
            #[trigger] r[j]).0 by {
                assert(r[j] == tools[j - 1]);
                if i > 0 {
                    assert(tools[i - 1].0 < tools[j - 1].0);
                } else if j > 1 {
                    assert(tools[0].0 < tools[j - 1].0);
                }
            }
            assert forall|i: int| 0 <= i < r.len() implies (#[trigger] r[i]).0 == index || exists|
                j: int,
            |
                0 <= j < tools.len() && (#[trigger] tools[j]).0 == r[i].0 by {
                if i > 0 {
                    assert(tools[i - 1].0 == r[i].0);
                }
            }
        } else {
            let rest = tools.skip(1);
            let w = with_part(rest, index, part);
            assert forall|i: int, j: int| 0 <= i < j < rest.len() implies (#[trigger] rest[i]).0 < (
            #[trigger] rest[j]).0 by {
                assert(tools[i + 1].0 < tools[j + 1].0);
            }
            law_parts_keep_calls_in_order(rest, index, part);
            assert forall|i: int| 0 <= i < w.len() implies tools[0].0 < (#[trigger] w[i]).0 by {
                if w[i].0 != index {
                    let k = choose|k: int| 0 <= k < rest.len() && (#[trigger] rest[k]).0 == w[i].0;
                    assert(tools[0].0 < tools[k + 1].0);
                }
            }
            assert forall|i: int, j: int| 0 <= i < j < r.len() implies (#[trigger] r[i]).0 < (
            #[trigger] r[j]).0 by {
                assert(r[j] == w[j - 1]);
                if i > 0 {
                    assert(w[i - 1].0 < w[j - 1].0);
                }
            }
            assert forall|i: int| 0 <= i < r.len() implies (#[trigger] r[i]).0 == index || exists|
                j: int,
            |
                0 <= j < tools.len() && (#[trigger] tools[j]).0 == r[i].0 by {
                if i > 0 {
                    assert(r[i] == w[i - 1]);
                    if w[i - 1].0 != index {
                        let k = choose|k: int|
                            0 <= k < rest.len() && (#[trigger] rest[k]).0 == w[i - 1].0;
                        assert(tools[k + 1].0 == r[i].0);
                    }
                } else {
                    assert(tools[0].0 == r[0].0);
                }
            }
        }
    }
}

} // verus!
