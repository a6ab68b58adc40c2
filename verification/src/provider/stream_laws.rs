//! What an answer that arrives in parts comes to.
use vstd::prelude::*;
use crate::json::{json_parse, JsonView};
use crate::message::CallView;
use crate::provider::stream::{calls_ascend, delta_of, empty_answer, empty_call, grown, law_parts_keep_calls_in_order, line_spec, number_at, with_part, with_parts, AnswerView, LineView, StreamView};
use crate::text::chars::is_white;
use crate::text::laws::law_trimming_gives_the_text_back;
use crate::text::pieces::{trim_spec, CharClass};

verus! {

/// The text that a member holds, nothing where it holds none.
pub open spec fn text_member(v: JsonView, key: Seq<char>) -> Seq<char> {
    match v.field(key) {
        Some(JsonView::Text(t)) => t,
        _ => Seq::empty(),
    }
}

/// The number that a member holds, zero where it holds none.
pub open spec fn number_member(v: JsonView, key: Seq<char>) -> usize {
    match v.field(key) {
        Some(JsonView::Unsigned(n)) => n as usize,
        _ => 0,
    }
}

/// The parts of the call of that number, in the order in which they came.
pub open spec fn parts_of_call(parts: Seq<JsonView>, n: usize) -> Seq<JsonView> {
    parts.filter(|p: JsonView| number_member(p, "index"@) == n)
}

/// What the parts hold of a member of the function that is called.
pub open spec fn fragments(parts: Seq<JsonView>, key: Seq<char>) -> Seq<Seq<char>> {
    parts.map_values(|p: JsonView| text_member(p.at("function"@), key))
}

/// The call of that number.
pub open spec fn call_at(tools: Seq<(usize, CallView)>, n: usize) -> Option<CallView>
    decreases tools.len(),
{
    if tools.len() == 0 {
        None
    } else if tools[0].0 == n {
        Some(tools[0].1)
    } else {
        call_at(tools.skip(1), n)
    }
}

proof fn lemma_no_call(tools: Seq<(usize, CallView)>, n: usize)
    requires
        forall|i: int| 0 <= i < tools.len() ==> (#[trigger] tools[i]).0 != n,
    ensures
        call_at(tools, n) is None,
    decreases tools.len(),
{
    if tools.len() > 0 {
        let rest = tools.skip(1);
        assert forall|i: int| 0 <= i < rest.len() implies (#[trigger] rest[i]).0 != n by {
            assert(rest[i] == tools[i + 1]);
        }
        lemma_no_call(rest, n);
        assert(tools[0].0 != n);
    }
}

proof fn lemma_call_at(tools: Seq<(usize, CallView)>, i: int)
    requires
        calls_ascend(tools),
        0 <= i < tools.len(),
    ensures
        call_at(tools, tools[i].0) == Some(tools[i].1),
    decreases tools.len(),
{
    if i > 0 {
        let rest = tools.skip(1);
        assert forall|a: int, b: int| 0 <= a < b < rest.len() implies (#[trigger] rest[a]).0 < (
        #[trigger] rest[b]).0 by {
            assert(tools[a + 1].0 < tools[b + 1].0);
        }
        lemma_call_at(rest, i - 1);
        assert(rest[i - 1] == tools[i]);
        assert(tools[0].0 < tools[i].0);
    }
}

proof fn lemma_call_found(tools: Seq<(usize, CallView)>, n: usize) -> (i: int)
    requires
        call_at(tools, n) is Some,
    ensures
        0 <= i < tools.len(),
        tools[i].0 == n,
        call_at(tools, n) == Some(tools[i].1),
    decreases tools.len(),
{
    if tools[0].0 == n {
        0
    } else {
        1 + lemma_call_found(tools.skip(1), n)
    }
}

proof fn lemma_call_grows(tools: Seq<(usize, CallView)>, index: usize, part: JsonView, n: usize)
    requires
        calls_ascend(tools),
    ensures
        call_at(with_part(tools, index, part), n) == if n == index {
            Some(
                grown(
                    match call_at(tools, n) {
                        Some(c) => c,
                        None => empty_call(),
                    },
                    part,
                ),
            )
        } else {
            call_at(tools, n)
        },
    decreases tools.len(),
{
    let r = with_part(tools, index, part);
    if tools.len() == 0 {
        assert(r.skip(1) =~= tools);
    } else if tools[0].0 == index {
        assert(r.skip(1) =~= tools.skip(1));
    } else if index < tools[0].0 {
        assert(r.skip(1) =~= tools);
        assert forall|i: int| 0 <= i < tools.len() implies (#[trigger] tools[i]).0 != index by {
            if i > 0 {
                assert(tools[0].0 < tools[i].0);
            }
        }
        lemma_no_call(tools, index);
    } else {
        let rest = tools.skip(1);
        assert forall|a: int, b: int| 0 <= a < b < rest.len() implies (#[trigger] rest[a]).0 < (
        #[trigger] rest[b]).0 by {
            assert(tools[a + 1].0 < tools[b + 1].0);
        }
        lemma_call_grows(rest, index, part, n);
        assert(r.skip(1) =~= with_part(rest, index, part));
    }
}

proof fn lemma_parts_ascend(parts: Seq<JsonView>)
    ensures
        calls_ascend(with_parts(Seq::empty(), parts)),
    decreases parts.len(),
{
    if parts.len() > 0 {
        lemma_parts_ascend(parts.drop_last());
        law_parts_keep_calls_in_order(
            with_parts(Seq::empty(), parts.drop_last()),
            number_at(parts.last(), "index"@),
            parts.last(),
        );
    }
}

proof fn lemma_flat_push(list: Seq<Seq<char>>, x: Seq<char>)
    ensures
        list.push(x).flatten_alt() == list.flatten_alt() + x,
{
    assert(list.push(x).drop_last() =~= list);
}

/// A call consists of its parts. For every number there is a call exactly where
/// some part has that number, and its name and its arguments are those of all the
/// parts with that number, joined in the order in which they came.
pub proof fn law_calls_are_joined_from_their_parts(parts: Seq<JsonView>, n: usize)
    ensures
        call_at(with_parts(Seq::empty(), parts), n) is Some <==> parts_of_call(parts, n).len() > 0,
        call_at(with_parts(Seq::empty(), parts), n) matches Some(c) ==> c.name == fragments(
            parts_of_call(parts, n),
            "name"@,
        ).flatten_alt() && c.arguments == fragments(
            parts_of_call(parts, n),
            "arguments"@,
        ).flatten_alt(),
    decreases parts.len(),
{
    reveal(Seq::filter);
    if parts.len() > 0 {
        let front = parts.drop_last();
        let last = parts.last();
        law_calls_are_joined_from_their_parts(front, n);
        lemma_parts_ascend(front);
        lemma_call_grows(
            with_parts(Seq::empty(), front),
            number_at(last, "index"@),
            last,
            n,
        );
        if number_member(last, "index"@) == n {
            let mine = parts_of_call(front, n);
            assert(parts_of_call(parts, n) == mine.push(last));
            let (name, arguments) = ("name"@, "arguments"@);
            assert(fragments(mine.push(last), name) =~= fragments(mine, name).push(
                text_member(last.at("function"@), name),
            ));
            assert(fragments(mine.push(last), arguments) =~= fragments(mine, arguments).push(
                text_member(last.at("function"@), arguments),
            ));
            lemma_flat_push(fragments(mine, name), text_member(last.at("function"@), name));
            lemma_flat_push(
                fragments(mine, arguments),
                text_member(last.at("function"@), arguments),
            );
            if mine.len() == 0 {
                assert(fragments(mine, name).flatten_alt() =~= Seq::empty());
                assert(fragments(mine, arguments).flatten_alt() =~= Seq::empty());
            }
        } else {
            assert(parts_of_call(parts, n) == parts_of_call(front, n));
        }
    }
}

/// A call has the last identifier that its parts give.
pub proof fn law_calls_have_their_last_identifier(parts: Seq<JsonView>, k: int)
    requires
        0 <= k < parts.len(),
        text_member(parts[k], "id"@).len() > 0,
        forall|i: int|
            k < i < parts.len() && number_member(#[trigger] parts[i], "index"@) == number_member(
                parts[k],
                "index"@,
            ) ==> text_member(parts[i], "id"@).len() == 0,
    ensures
        call_at(
            with_parts(Seq::empty(), parts),
            number_member(parts[k], "index"@),
        ) matches Some(c) && c.id == text_member(parts[k], "id"@),
    decreases parts.len(),
{
    let front = parts.drop_last();
    let last = parts.last();
    let n = number_member(parts[k], "index"@);
    lemma_parts_ascend(front);
    lemma_call_grows(with_parts(Seq::empty(), front), number_at(last, "index"@), last, n);
    if k < front.len() {
        assert forall|i: int|
            k < i < front.len() && number_member(#[trigger] front[i], "index"@) == number_member(
                front[k],
                "index"@,
            ) implies text_member(front[i], "id"@).len() == 0 by {
            assert(front[i] == parts[i]);
        }
        law_calls_have_their_last_identifier(front, k);
        assert(parts[parts.len() - 1] == last);
    }
}

/// A call has no identifier where none of its parts gives one.
pub proof fn law_calls_have_no_other_identifier(parts: Seq<JsonView>, n: usize)
    requires
        forall|i: int|
            0 <= i < parts.len() && number_member(#[trigger] parts[i], "index"@) == n
                ==> text_member(parts[i], "id"@).len() == 0,
    ensures
        call_at(with_parts(Seq::empty(), parts), n) matches Some(c) ==> c.id == Seq::<char>::empty(),
    decreases parts.len(),
{
    if parts.len() > 0 {
        let front = parts.drop_last();
        let last = parts.last();
        assert forall|i: int|
            0 <= i < front.len() && number_member(#[trigger] front[i], "index"@)
                == n implies text_member(front[i], "id"@).len() == 0 by {
            assert(front[i] == parts[i]);
        }
        law_calls_have_no_other_identifier(front, n);
        lemma_parts_ascend(front);
        lemma_call_grows(with_parts(Seq::empty(), front), number_at(last, "index"@), last, n);
        assert(parts[parts.len() - 1] == last);
    }
}

/// What a value adds to the answer: the first choice's `delta`, or its `message`
/// where it has no `delta`.
pub open spec fn addition(v: JsonView) -> JsonView {
    match v.field("choices"@) {
        Some(JsonView::Array(list)) => if list.len() == 0 {
            JsonView::Null
        } else if list[0].field("delta"@) is Some {
            list[0].at("delta"@)
        } else {
            list[0].at("message"@)
        },
        _ => JsonView::Null,
    }
}

/// The answer that the values make up, one after the other.
pub open spec fn answer_of(values: Seq<JsonView>) -> AnswerView
    decreases values.len(),
{
    if values.len() == 0 {
        empty_answer()
    } else {
        answer_of(values.drop_last()).take(values.last())
    }
}

/// The parts of calls in the values, one after the other.
pub open spec fn call_parts(values: Seq<JsonView>) -> Seq<JsonView>
    decreases values.len(),
{
    if values.len() == 0 {
        Seq::empty()
    } else {
        call_parts(values.drop_last()) + match addition(values.last()).field("tool_calls"@) {
            Some(JsonView::Array(parts)) => parts,
            _ => Seq::empty(),
        }
    }
}

proof fn lemma_parts_concat(tools: Seq<(usize, CallView)>, a: Seq<JsonView>, b: Seq<JsonView>)
    ensures
        with_parts(tools, a + b) == with_parts(with_parts(tools, a), b),
    decreases b.len(),
{
    if b.len() == 0 {
        assert(a + b =~= a);
    } else {
        assert((a + b).drop_last() =~= a + b.drop_last());
        lemma_parts_concat(tools, a, b.drop_last());
    }
}

/// The content of an answer is the content of all values, joined in the order in
/// which they came; its calls are those of all values together.
pub proof fn law_answers_are_joined_from_their_values(values: Seq<JsonView>)
    ensures
        answer_of(values).content == values.map_values(
            |v: JsonView| text_member(addition(v), "content"@),
        ).flatten_alt(),
        answer_of(values).tools == with_parts(Seq::empty(), call_parts(values)),
    decreases values.len(),
{
    let f = |v: JsonView| text_member(addition(v), "content"@);
    if values.len() == 0 {
        assert(values.map_values(f).flatten_alt() =~= Seq::empty());
    } else {
        let front = values.drop_last();
        let last = values.last();
        law_answers_are_joined_from_their_values(front);
        assert(delta_of(last) == addition(last));
        assert(values.map_values(f) =~= front.map_values(f).push(f(last)));
        lemma_flat_push(front.map_values(f), f(last));
        lemma_parts_concat(
            Seq::empty(),
            call_parts(front),
            addition(last).at("tool_calls"@).items(),
        );
    }
}

/// The calls of a finished answer: one for each number that occurs among the
/// parts, in ascending order of the numbers, each with the name and the
/// arguments of all its parts joined in the order in which they came.
pub proof fn law_finished_calls_are_joined_from_their_parts(values: Seq<JsonView>) -> (numbers: Seq<
    usize,
>)
    ensures
        numbers.len() == answer_of(values).turn().tool_calls.len(),
        forall|i: int, j: int|
            0 <= i < j < numbers.len() ==> (#[trigger] numbers[i]) < (#[trigger] numbers[j]),
        forall|k: int|
            0 <= k < call_parts(values).len() ==> numbers.contains(
                number_member(#[trigger] call_parts(values)[k], "index"@),
            ),
        forall|i: int|
            0 <= i < numbers.len() ==> {
                let call = answer_of(values).turn().tool_calls[i];
                let parts = parts_of_call(call_parts(values), #[trigger] numbers[i]);
                &&& parts.len() > 0
                &&& call.name == fragments(parts, "name"@).flatten_alt()
                &&& call.arguments == fragments(parts, "arguments"@).flatten_alt()
            },
{
    law_answers_are_joined_from_their_values(values);
    let parts = call_parts(values);
    let tools = answer_of(values).tools;
    let numbers = tools.map_values(|t: (usize, CallView)| t.0);
    let calls = answer_of(values).turn().tool_calls;
    lemma_parts_ascend(parts);
    assert forall|i: int, j: int| 0 <= i < j < numbers.len() implies (#[trigger] numbers[i]) < (
    #[trigger] numbers[j]) by {
        assert(tools[i].0 < tools[j].0);
    }
    assert forall|k: int| 0 <= k < parts.len() implies numbers.contains(
        number_member(#[trigger] parts[k], "index"@),
    ) by {
        let n = number_member(parts[k], "index"@);
        law_calls_are_joined_from_their_parts(parts, n);
        crate::seqs::lemma_filter_contains(
            parts,
            |p: JsonView| number_member(p, "index"@) == n,
            parts[k],
        );
        assert(parts.contains(parts[k]));
        assert(parts_of_call(parts, n).contains(parts[k]));
        let i = lemma_call_found(tools, n);
        assert(numbers[i] == n);
    }
    assert forall|i: int| 0 <= i < numbers.len() implies {
        let call = answer_of(values).turn().tool_calls[i];
        let parts = parts_of_call(call_parts(values), #[trigger] numbers[i]);
        &&& parts.len() > 0
        &&& call.name == fragments(parts, "name"@).flatten_alt()
        &&& call.arguments == fragments(parts, "arguments"@).flatten_alt()
    } by {
        assert(calls[i] == tools[i].1);
        lemma_call_at(tools, i);
        law_calls_are_joined_from_their_parts(parts, tools[i].0);
    }
    numbers
}

/// A finished answer has the usage that was reported last.
pub proof fn law_the_last_usage_counts(values: Seq<JsonView>, k: int)
    requires
        0 <= k < values.len(),
        values[k].field("usage"@) is Some,
        !(values[k].at("usage"@) is Null),
        forall|i: int| k < i < values.len() ==> (#[trigger] values[i]).at("usage"@) is Null,
    ensures
        answer_of(values).turn().usage matches Some(u) && u.prompt_tokens == number_member(
            values[k].at("usage"@),
            "prompt_tokens"@,
        ) && u.completion_tokens == number_member(values[k].at("usage"@), "completion_tokens"@)
            && u.total_tokens == number_member(values[k].at("usage"@), "total_tokens"@),
    decreases values.len(),
{
    let front = values.drop_last();
    assert(values[values.len() - 1] == values.last());
    if k < front.len() {
        assert forall|i: int| k < i < front.len() implies (#[trigger] front[i]).at(
            "usage"@,
        ) is Null by {
            assert(front[i] == values[i]);
        }
        law_the_last_usage_counts(front, k);
    }
}

/// A finished answer has no usage where none was reported, and no content where
/// none came.
pub proof fn law_nothing_is_made_up(values: Seq<JsonView>)
    ensures
        (forall|i: int| 0 <= i < values.len() ==> (#[trigger] values[i]).at("usage"@) is Null)
            ==> answer_of(values).turn().usage is None,
        answer_of(values).turn().content is None <==> answer_of(values).content.len() == 0,
        answer_of(values).turn().content matches Some(t) ==> t == answer_of(values).content,
    decreases values.len(),
{
    if values.len() > 0 {
        let front = values.drop_last();
        law_nothing_is_made_up(front);
        if forall|i: int| 0 <= i < values.len() ==> (#[trigger] values[i]).at("usage"@) is Null {
            assert(values[values.len() - 1] == values.last());
            assert forall|i: int| 0 <= i < front.len() implies (#[trigger] front[i]).at(
                "usage"@,
            ) is Null by {
                assert(front[i] == values[i]);
            }
        }
    }
}

pub open spec fn all_white(s: Seq<char>) -> bool {
    forall|i: int| 0 <= i < s.len() ==> is_white(#[trigger] s[i])
}

/// A line that begins with `data:` holds the text behind it, whatever white space
/// stands around; `[DONE]` ends the answer.
pub proof fn law_data_lines_hold_their_text(
    a: Seq<char>,
    b: Seq<char>,
    data: Seq<char>,
    c: Seq<char>,
)
    requires
        all_white(a),
        all_white(b),
        all_white(c),
        data.len() > 0,
        !is_white(data[0]),
        !is_white(data.last()),
    ensures
        line_spec(a + ("data:"@ + b + data) + c) == if data == "[DONE]"@ {
            LineView::Done
        } else {
            LineView::Data(data)
        },
{
    reveal_strlit("data:");
    reveal_strlit(":");
    let text = "data:"@ + b + data;
    assert(text[0] == 'd');
    assert(text.last() == data.last());
    law_trimming_gives_the_text_back(a, text, c, CharClass::White);
    let none = Seq::<char>::empty();
    law_trimming_gives_the_text_back(b, data, none, CharClass::White);
    assert(b + data + none =~= b + data);
    assert(text.skip(5) =~= b + data);
    assert(text.take(5) =~= "data:"@);
    assert(text.subrange(0, 5) =~= "data:"@);
}

/// A line that does not begin with `data:` adds nothing.
pub proof fn law_other_lines_hold_nothing(line: Seq<char>)
    requires
        !"data:"@.is_prefix_of(trim_spec(line)),
    ensures
        line_spec(line) is Nothing,
{
}

/// What follows the end of an answer, or a part that is no JSON, changes nothing.
pub proof fn law_nothing_counts_behind_the_end(s: StreamView, text: Seq<char>)
    requires
        !(s.status is Open),
    ensures
        s.take_text(text) == s,
    decreases text.len(),
{
    if text.len() > 0 {
        law_nothing_counts_behind_the_end(s, text.drop_last());
    }
}

/// A line of the stream counts when its line feed has come, and as a whole.
pub proof fn law_lines_count_as_a_whole(s: StreamView, line: Seq<char>)
    requires
        s.status is Open,
        !line.contains('\n'),
    ensures
        s.take_text(line) == (StreamView { line: s.line + line, ..s }),
        s.take_text(line.push('\n')) == (StreamView { line: s.line + line, ..s }).end_line(),
    decreases line.len(),
{
    if line.len() == 0 {
        assert(s.line + line =~= s.line);
    } else {
        let front = line.drop_last();
        assert(!front.contains('\n')) by {
            if front.contains('\n') {
                let i = choose|i: int| 0 <= i < front.len() && front[i] == '\n';
                assert(line[i] == '\n');
            }
        }
        law_lines_count_as_a_whole(s, front);
        assert(line[line.len() - 1] == line.last());
        assert(line.contains(line.last()));
        assert((s.line + front).push(line.last()) =~= s.line + line);
    }
    assert(line.push('\n').drop_last() =~= line);
}

/// The last line needs no line feed.
pub proof fn law_the_last_line_counts(s: StreamView)
    ensures
        s.status is Open ==> s.close() == s.take_text(seq!['\n']),
        !(s.status is Open) ==> s.close() == s,
{
    let feed = seq!['\n'];
    assert(feed.drop_last() =~= Seq::empty());
    assert(s.take_text(Seq::empty()) == s);
}

/// A line that holds a value adds it to the answer, and its text to those that are
/// handed out; the mark of the end ends the stream; a line that is no JSON fails
/// it and adds nothing.
pub proof fn law_lines_add_their_values(s: StreamView)
    requires
        s.status is Open,
    ensures
        ({
            let after = s.end_line();
            match line_spec(s.line) {
                LineView::Nothing => after == (StreamView { line: Seq::empty(), ..s }),
                LineView::Done => after.status is Done && after.answer == s.answer && after.deltas
                    == s.deltas,
                LineView::Data(data) => match json_parse(data) {
                    Ok(v) => {
                        &&& after.status is Open
                        &&& after.answer == s.answer.take(v)
                        &&& text_member(addition(v), "content"@).len() > 0 ==> after.deltas
                            == s.deltas.push(text_member(addition(v), "content"@))
                        &&& text_member(addition(v), "content"@).len() == 0 ==> after.deltas
                            == s.deltas
                    },
                    Err(_) => after.status is Failed && after.answer == s.answer && after.deltas
                        == s.deltas,
                },
            }
        }),
        s.end_line().line.len() == 0,
{
    if let LineView::Data(data) = line_spec(s.line) {
        if let Ok(v) = json_parse(data) {
            assert(delta_of(v) == addition(v));
        }
    }
}

} // verus!
