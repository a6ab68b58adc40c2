//! What is read from the latest question.
use vstd::prelude::*;
use crate::intent::{asked_tool, asks_for, bare_question, call_words, has_char_of, has_digit, is_expression, is_stale_prompt, manual_words, needs_calculation, needs_search, open_question, opens_with, schema_name, visible_all};
use crate::json::JsonView;
use crate::message::MessageView;
use crate::rag::format::{formatted, ResultView};
use crate::rag::query::chapter_spec;
use crate::rag::store::{grounded_prompt, SEARCH_DOCS_MAX_RESULT_TOKENS};
use crate::text::chars::{ascii_lower, byte_len, is_white};
use crate::text::laws::{law_decimal_form_has_the_value, law_replacing_changes_every_place, lemma_decimal_holds_digits, lemma_trim_nothing};
use crate::text::number::{all_digits, dec};
use crate::text::pieces::{lead_spec, trim_start_spec, CharClass};
use crate::text::search::{find_from, has_text, lemma_find_from, occurs_at, rfind_from};

verus! {

/// The last position is found.
pub proof fn lemma_rfind(hay: Seq<char>, needle: Seq<char>, from: int, k: int)
    requires
        0 <= k <= from,
        occurs_at(hay, needle, k),
        forall|j: int| k < j <= from ==> !occurs_at(hay, needle, j),
    ensures
        rfind_from(hay, needle, from) == Some(k),
    decreases from,
{
    if k < from {
        lemma_rfind(hay, needle, from - 1, k);
    }
}

/// A question that went out with the material of a search is read back from the
/// message, as long as it does not itself hold the mark in front of it.
pub proof fn law_questions_are_read_back_from_prompts(query: Seq<char>, results: Seq<ResultView>)
    requires
        query.len() > 0,
        !is_white(query[0]),
        !is_white(query.last()),
        !has_text(query, "\n问题："@),
    ensures
        bare_question(grounded_prompt(query, results)) == query,
{
    reveal_strlit("请只根据下面的本地资料回答问题；资料不足时明确说不知道。\n\n本地资料：\n");
    reveal_strlit("请只根据下面的本地资料回答问题");
    reveal_strlit("本地资料：");
    reveal_strlit("[资料 ");
    reveal_strlit("\n\n问题：");
    reveal_strlit("\n问题：");
    let opening = "请只根据下面的本地资料回答问题；资料不足时明确说不知道。\n\n本地资料：\n"@;
    let shown = formatted(results, SEARCH_DOCS_MAX_RESULT_TOKENS as nat);
    let s = grounded_prompt(query, results);
    let needle = "\n问题："@;
    assert(s =~= opening + shown + "\n\n问题："@ + query);
    assert(s.subrange(0, 15) =~= "请只根据下面的本地资料回答问题"@);
    assert(occurs_at(s, "请只根据下面的本地资料回答问题"@, 0));
    assert(s.subrange(30, 35) =~= "本地资料："@);
    assert(occurs_at(s, "本地资料："@, 30));
    assert(is_stale_prompt(s));
    let at = opening.len() as int + shown.len() + 1;
    assert(s.subrange(at, at + 4) =~= needle);
    assert forall|j: int| at < j <= s.len() implies !occurs_at(s, needle, j) by {
        if occurs_at(s, needle, j) {
            assert(s.subrange(j, j + 4)[0] == '\n');
            let q = j - at - 4;
            if q < 0 {
                assert(s[j] != '\n');
            } else {
                assert(query.subrange(q, q + 4) =~= s.subrange(j, j + 4));
                assert(occurs_at(query, needle, q));
            }
        }
    }
    lemma_rfind(s, needle, s.len() as int, at);
    assert(s.skip(at + 4) =~= query);
    lemma_trim_nothing(query, CharClass::White);
    assert(query.len() < s.len());
}

/// A message without such material stays as it is, and so does everything that the
/// user did not say.
pub proof fn law_other_messages_stay_as_they_are(ms: Seq<MessageView>, i: int)
    requires
        0 <= i < ms.len(),
    ensures
        visible_all(ms).len() == ms.len(),
        !(ms[i] is User) ==> visible_all(ms)[i] == ms[i],
        ms[i] matches MessageView::User { content } ==> !has_text(
            content,
            "请只根据下面的本地资料回答问题"@,
        ) ==> visible_all(ms)[i] == ms[i],
{
}

/// The tool that a question asks for: one of the tools whose names it asks for,
/// the longest such name, and there is one exactly where some tool is asked for.
pub proof fn law_the_longest_name_is_asked_for(content: Seq<char>, tools: Seq<JsonView>)
    ensures
        match asked_tool(content, tools) {
            Some(name) => {
                &&& asks_for(content, name)
                &&& exists|k: int| 0 <= k < tools.len() && schema_name(#[trigger] tools[k]) == Some(
                    name,
                )
                &&& forall|k: int|
                    0 <= k < tools.len() ==> (schema_name(#[trigger] tools[k]) matches Some(other)
                        ==> asks_for(content, other) ==> byte_len(other) <= byte_len(name))
            },
            None => forall|k: int|
                0 <= k < tools.len() ==> (schema_name(#[trigger] tools[k]) matches Some(other)
                    ==> !asks_for(content, other)),
        },
    decreases tools.len(),
{
    if tools.len() > 0 {
        let front = tools.drop_last();
        let last = tools.len() - 1;
        law_the_longest_name_is_asked_for(content, front);
        let name = asked_tool(content, tools);
        if asked_tool(content, front) is Some && name == asked_tool(content, front) {
            let k = choose|k: int|
                0 <= k < front.len() && schema_name(#[trigger] front[k]) == asked_tool(
                    content,
                    front,
                );
            assert(tools[k] == front[k]);
        }
        if name is Some && name == schema_name(tools.last()) {
            assert(schema_name(tools[last]) == name);
        }
        assert forall|k: int| 0 <= k < tools.len() && k < last implies (#[trigger] tools[k])
            == front[k] by {}
    }
}

/// The open question is the user's latest message, and there is none where a tool
/// has answered behind it or the user has said nothing.
pub proof fn law_the_open_question_is_the_latest(ms: Seq<MessageView>, i: int)
    requires
        0 <= i < ms.len(),
        !(ms[i] is Assistant),
        forall|j: int| i < j < ms.len() ==> (#[trigger] ms[j]) is Assistant,
    ensures
        ms[i] matches MessageView::User { content } ==> open_question(ms) == Some(content),
        ms[i] is Tool ==> open_question(ms) is None,
    decreases ms.len(),
{
    if i < ms.len() - 1 {
        assert(ms[ms.len() - 1] is Assistant);
        let front = ms.drop_last();
        assert forall|j: int| i < j < front.len() implies (#[trigger] front[j]) is Assistant by {
            assert(front[j] == ms[j]);
        }
        law_the_open_question_is_the_latest(front, i);
    }
}

proof fn lemma_digits_lead(digits: Seq<char>, rest: Seq<char>)
    requires
        all_digits(digits),
        rest.len() > 0 ==> !CharClass::Digit.holds(rest[0]),
    ensures
        trim_start_spec(digits + rest, CharClass::Digit) == rest,
        lead_spec(digits + rest, CharClass::Digit) == digits,
    decreases digits.len(),
{
    let s = digits + rest;
    if digits.len() == 0 {
        assert(s =~= rest);
        assert(s.take(0) =~= digits);
    } else {
        let less = digits.skip(1);
        assert(all_digits(less)) by {
            assert forall|i: int| 0 <= i < less.len() implies CharClass::Digit.holds(
                #[trigger] less[i],
            ) by {
                assert(less[i] == digits[i + 1]);
                assert(CharClass::Digit.holds(digits[i + 1]));
            }
        }
        lemma_digits_lead(less, rest);
        assert(s.skip(1) =~= less + rest);
        assert(s[0] == digits[0]);
        assert(CharClass::Digit.holds(digits[0]));
        assert(s.take(digits.len() as int) =~= digits);
    }
}

/// A question that names a chapter by its number is one for that chapter.
pub proof fn law_chapters_are_named_by_number(a: Seq<char>, n: nat, b: Seq<char>)
    requires
        !a.contains('第'),
        n <= u32::MAX,
    ensures
        chapter_spec(a + "第"@ + dec(n) + "章"@ + b) == Some(n),
{
    reveal_strlit("第");
    reveal_strlit("章");
    let q = a + "第"@ + dec(n) + "章"@ + b;
    let at = a.len() as int;
    lemma_find_from(q, "第"@, 0);
    assert(q.subrange(at, at + 1) =~= "第"@);
    assert(occurs_at(q, "第"@, at));
    let i = find_from(q, "第"@, 0)->0;
    if i < at {
        assert(q.subrange(i, i + 1)[0] == '第');
        assert(a[i] == '第');
    }
    law_decimal_form_has_the_value(n);
    let digits = dec(n);
    let tail = "章"@ + b;
    let rest = digits + tail;
    assert(q.skip(at + 1) =~= rest);
    assert(CharClass::Digit.holds(digits[0]));
    assert(!is_white(digits[0]));
    assert(rest[0] == digits[0]);
    assert(trim_start_spec(rest, CharClass::White) == rest);
    assert(tail[0] == '章');
    lemma_digits_lead(digits, tail);
    let after = crate::text::chars::first_chars(tail, 6);
    assert(after[0] == '章');
    assert(after.subrange(0, 1) =~= "章"@);
    assert(occurs_at(after, "章"@, 0));
    assert(digits[0] != '+') by {
        lemma_decimal_holds_digits(n, '+');
    }
}

/// A question that speaks of calling a tool and names one asks for it; a question
/// that does not name a tool does not ask for it.
pub proof fn law_named_tools_are_asked_for(content: Seq<char>, name: Seq<char>, k: int)
    requires
        0 <= k < call_words().len(),
        !content.contains('`'),
    ensures
        has_text(content, call_words()[k]@) && has_text(content, name) ==> asks_for(content, name),
        !has_text(content, name) ==> !asks_for(content, name),
        has_text(ascii_lower(content), "call tool"@) && has_text(content, name) ==> asks_for(
            content,
            name,
        ),
        has_text(ascii_lower(content), "use tool"@) && has_text(content, name) ==> asks_for(
            content,
            name,
        ),
{
    reveal_strlit("`");
    let tick = "`"@;
    assert(!has_text(content, tick)) by {
        if has_text(content, tick) {
            let i = choose|i: int| occurs_at(content, tick, i);
            assert(content.subrange(i, i + 1)[0] == '`');
            assert(content[i] == '`');
        }
    }
    law_replacing_changes_every_place(Seq::empty(), content, tick, ""@);
}

/// A question that begins with the word for calling or using, and then the name,
/// asks for the tool.
pub proof fn law_a_tool_is_asked_for_right_away(name: Seq<char>, rest: Seq<char>)
    requires
        name.len() > 0,
        !is_white(name[0]),
        !name.contains('`'),
        !rest.contains('`'),
    ensures
        asks_for("调用"@ + name + rest, name),
        asks_for("使用"@ + name + rest, name),
{
    reveal_strlit("调用");
    reveal_strlit("使用");
    lemma_asked_right_away("调用"@, name, rest);
    lemma_asked_right_away("使用"@, name, rest);
}

proof fn lemma_asked_right_away(action: Seq<char>, name: Seq<char>, rest: Seq<char>)
    requires
        action.len() > 0,
        !is_white(action[0]),
        !action.contains('`'),
        name.len() > 0,
        !is_white(name[0]),
        !name.contains('`'),
        !rest.contains('`'),
    ensures
        ({
            let content = action + name + rest;
            let plain = crate::text::search::replace_spec(content, "`"@, ""@);
            &&& plain == content
            &&& has_text(plain, name)
            &&& opens_with(trim_start_spec(plain, CharClass::White), action, name)
        }),
{
    reveal_strlit("`");
    let content = action + name + rest;
    let tick = "`"@;
    assert(!has_text(content, tick)) by {
        if has_text(content, tick) {
            let i = choose|i: int| occurs_at(content, tick, i);
            assert(content.subrange(i, i + 1)[0] == '`');
            let (a, b) = (action.len() as int, action.len() + name.len());
            if i < a {
                assert(action[i] == '`');
            } else if i < b {
                assert(name[i - a] == '`');
            } else {
                assert(rest[i - b] == '`');
            }
        }
    }
    law_replacing_changes_every_place(Seq::empty(), content, tick, ""@);
    let n = action.len() as int;
    assert(content.subrange(n, n + name.len()) =~= name);
    assert(occurs_at(content, name, n));
    assert(content[0] == action[0]);
    assert(trim_start_spec(content, CharClass::White) == content);
    assert(content.subrange(0, n) =~= action);
    let tail = content.skip(n);
    assert(tail =~= name + rest);
    assert(tail[0] == name[0]);
    assert(trim_start_spec(tail, CharClass::White) == tail);
    assert(tail.subrange(0, name.len() as int) =~= name);
}

/// A calculation needs a digit and an operator; an expression of digits, operators
/// and brackets alone is one, and so is such a request in words, but not one to
/// print a text.
pub proof fn law_calculations_have_digits_and_operators(content: Seq<char>)
    ensures
        !has_digit(content) ==> !needs_calculation(content),
        !has_char_of(content, "+-*/^×÷="@) ==> !needs_calculation(content),
        has_digit(content) && has_char_of(content, "+-*/^×÷="@) && is_expression(content)
            ==> needs_calculation(content),
        has_text(content, "打印"@) && has_text(content, "文字"@) ==> !needs_calculation(content),
        has_digit(content) && has_char_of(content, "+-*/^×÷="@) && has_text(content, "计算"@)
            && !has_text(content, "文字"@) ==> needs_calculation(content),
{
    reveal_strlit("文字");
    reveal_strlit(".+-*/^()×÷");
    if is_expression(content) && has_text(content, "文字"@) {
        let i = choose|i: int| occurs_at(content, "文字"@, i);
        assert(content.subrange(i, i + 2)[0] == '文');
        assert(content[i] == '文');
        assert(is_white(content[i]) || CharClass::Digit.holds(content[i])
            || ".+-*/^()×÷"@.contains(content[i]));
        let set = ".+-*/^()×÷"@;
        if set.contains('文') {
            let j = choose|j: int| 0 <= j < set.len() && set[j] == '文';
        }
    }
}

/// A question for a chapter, for the outline or for the manuals is looked up.
pub proof fn law_manuals_are_looked_up(content: Seq<char>, k: int)
    requires
        0 <= k < manual_words().len(),
    ensures
        chapter_spec(content) is Some ==> needs_search(content),
        crate::rag::query::outline_spec(content) ==> needs_search(content),
        has_text(ascii_lower(content), manual_words()[k]@) ==> needs_search(content),
{
}

/// A chapter is named in English by its number behind the word.
pub proof fn law_chapters_are_named_in_english(a: Seq<char>, n: nat, b: Seq<char>)
    requires
        n <= u32::MAX,
        !a.contains('第'),
        !b.contains('第'),
        b.len() > 0 ==> !CharClass::Digit.holds(b[0]),
        forall|j: int|
            0 <= j < a.len() ==> !occurs_at(ascii_lower(a + "chapter"@), "chapter"@, j),
    ensures
        chapter_spec(a + "chapter "@ + dec(n) + b) == Some(n),
{
    reveal_strlit("第");
    reveal_strlit("chapter");
    reveal_strlit("chapter ");
    let digits = dec(n);
    let q = a + "chapter "@ + digits + b;
    law_decimal_form_has_the_value(n);
    lemma_decimal_holds_digits(n, '第');
    lemma_decimal_holds_digits(n, '+');
    let at = a.len() as int;
    assert(find_from(q, "第"@, 0) is None) by {
        lemma_find_from(q, "第"@, 0);
        if find_from(q, "第"@, 0) is Some {
            let i = find_from(q, "第"@, 0)->0;
            assert(q.subrange(i, i + 1)[0] == '第');
            assert(q[i] == '第');
            let (x, y) = (at + 8, at + 8 + digits.len());
            if i < at {
                assert(a[i] == '第');
            } else if i < x {
                assert("chapter "@[i - at] == '第');
            } else if i < y {
                assert(digits[i - x] == '第');
            } else {
                assert(b[i - y] == '第');
            }
        }
    }
    let low = ascii_lower(q);
    assert(ascii_lower("chapter"@) =~= "chapter"@);
    assert(low.subrange(at, at + 7) =~= "chapter"@);
    assert(occurs_at(low, "chapter"@, at));
    lemma_find_from(low, "chapter"@, 0);
    let i = find_from(low, "chapter"@, 0)->0;
    if i < at {
        let short = ascii_lower(a + "chapter"@);
        assert(short.subrange(i, i + 7) =~= low.subrange(i, i + 7));
        assert(occurs_at(short, "chapter"@, i));
    }
    let rest = q.skip(at + 7);
    let tail = digits + b;
    assert(rest =~= seq![' '] + tail);
    assert(rest.skip(1) =~= tail);
    assert(CharClass::Digit.holds(digits[0]));
    assert(tail[0] == digits[0]);
    assert(rest[0] == ' ');
    assert(trim_start_spec(tail, CharClass::NotDigit) == tail);
    assert(trim_start_spec(rest, CharClass::NotDigit) == tail);
    lemma_digits_lead(digits, b);
    assert(digits[0] != '+');
}

} // verus!
