//! What the user of the terminal sees, and what an answer means.
use vstd::prelude::*;
use crate::command_laws::law_words_of_a_line;
use crate::events::AgentEvent;
use crate::mcp::laws::is_word;
use crate::provider::stream_laws::all_white;
use crate::terminal::{part_rows, widths_rows};
use crate::text::chars::{byte_len, is_white};
use crate::text::laws::{law_decimal_form_has_the_value, law_joined_texts_are_its_pieces, law_pieces_make_the_text, lemma_decimal_holds_digits};
use crate::text::number::dec;
use crate::text::pieces::{lines_spec, pieces, without_return, CharClass};
use crate::text::search::{find_from, has_text, join_spec, lemma_find_from, occurs_at};
use crate::tui::approval::{answer_of, arguments_text, clipped, delivery_text, request_text, MAX_ARGUMENT_CHARS, MAX_ARGUMENT_LINES, Delivery, ResponseView};
use crate::tui::render::{result_line, shown_duration, shown_name, shown_tokens};
use crate::tui::state::{complete_lines, last_line, LiveView, TuiView};

verus! {

/// Nothing of an answer is lost on its way to the screen: the lines that are shown
/// and what is still held back, joined by line feeds, are all that was held, as
/// long as there are no carriage returns.
pub proof fn law_answers_are_shown_whole(l: LiveView, force: bool)
    requires
        !l.buffer.contains('\r'),
    ensures
        l.shows_rest(force) ==> l.flush(force).buffer.len() == 0 && join_spec(
            l.due(force),
            seq!['\n'],
        ) == l.buffer,
        !l.shows_rest(force) ==> join_spec(
            l.due(force).push(l.flush(force).buffer),
            seq!['\n'],
        ) == l.buffer,
        force && l.buffer.len() > 0 && l.buffer.last() != '\n' ==> l.shows_rest(force),
{
    let feed = CharClass::Only('\n');
    let parts = pieces(l.buffer, feed);
    law_pieces_make_the_text(l.buffer, '\n');
    crate::text::laws::lemma_pieces_within(l.buffer, feed);
    assert(complete_lines(l.buffer) =~= parts.drop_last()) by {
        assert forall|i: int| 0 <= i < parts.len() - 1 implies without_return(parts[i]) == parts[i] by {
            if parts[i].len() > 0 && parts[i].last() == '\r' {
                assert(parts[i][parts[i].len() - 1] == '\r');
                assert(parts[i].contains('\r'));
            }
        }
    }
    assert(complete_lines(l.buffer).push(last_line(l.buffer)) =~= parts);
    if l.buffer.len() > 0 && l.buffer.last() != '\n' {
        assert(parts.last().len() > 0);
    }
}

/// What is due is shown in its order, behind one heading for the whole answer.
pub proof fn law_one_heading_for_an_answer(l: LiveView, force: bool)
    ensures
        l.shown(force).len() == 0 <==> l.due(force).len() == 0,
        l.header_shown ==> l.shown(force) == l.due(force),
        !l.header_shown && l.due(force).len() > 0 ==> l.shown(force)[0] == "Asteria"@ && l.shown(
            force,
        ).skip(1) == l.due(force),
        l.due(force).len() > 0 ==> l.flush(force).header_shown,
        l.due(force).len() == 0 ==> l.flush(force).header_shown == l.header_shown,
{
    if !l.header_shown && l.due(force).len() > 0 {
        assert(l.shown(force).skip(1) =~= l.due(force));
    }
}

/// A part of the answer counts once: added again, or one that begins before its
/// end, it does not.
pub proof fn law_parts_count_once(l: LiveView, delta: Seq<char>, offset: usize, other: Seq<char>, at: usize)
    requires
        l.counts(delta, offset),
        offset + byte_len(delta) <= usize::MAX,
    ensures
        l.extended(delta, offset).buffer == l.buffer + delta,
        at < offset + byte_len(delta) ==> !l.extended(delta, offset).counts(other, at),
        at >= offset + byte_len(delta) && other.len() > 0 ==> l.extended(delta, offset).counts(
            other,
            at,
        ),
{
}

/// The user's answer is passed on as it was given: the number of the request with
/// approval or denial, whatever white space stands around.
pub proof fn law_answers_are_passed_on(a: Seq<char>, b: Seq<char>, id: u64, pending: Seq<u64>)
    requires
        all_white(a),
        all_white(b),
        pending.contains(id),
    ensures
        answer_of(a + join_spec(seq!["/approve"@, dec(id as nat)], " "@) + b, pending)
            == ResponseView::Reply(id, true),
        answer_of(a + join_spec(seq!["/deny"@, dec(id as nat)], " "@) + b, pending)
            == ResponseView::Reply(id, false),
{
    reveal_strlit("/approve");
    reveal_strlit("/deny");
    law_decimal_form_has_the_value(id as nat);
    lemma_decimal_holds_digits(id as nat, '+');
    let n = dec(id as nat);
    assert forall|i: int| 0 <= i < n.len() implies !is_white(#[trigger] n[i]) by {
        assert(CharClass::Digit.holds(n[i]));
    }
    assert(n[0] != '+');
    assert(is_word(n));
    assert(is_word("/approve"@));
    assert(is_word("/deny"@));
    assert("/approve"@.len() == 8 && "/deny"@.len() == 5);
    law_words_of_a_line(a, seq!["/approve"@, n], b);
    law_words_of_a_line(a, seq!["/deny"@, n], b);
}

/// Of arguments the first lines are shown, as many as the bounds allow, and it is
/// told exactly where one is left out.
pub proof fn law_arguments_are_shown_from_the_front(list: Seq<Seq<char>>) -> (k: int)
    requires
        forall|i: int| 0 <= i < list.len() ==> (#[trigger] list[i]).len() > 0,
    ensures
        0 <= k <= list.len(),
        k <= MAX_ARGUMENT_LINES,
        clipped(list).0 == join_spec(list.take(k), seq!['\n']),
        clipped(list).1 <==> k < list.len(),
        k < list.len() ==> k == MAX_ARGUMENT_LINES || join_spec(list.take(k), seq!['\n']).len()
            + list[k].len() > MAX_ARGUMENT_CHARS,
    decreases list.len(),
{
    if list.len() == 0 {
        assert(list.take(0) =~= Seq::empty());
        assert(join_spec(list.take(0), seq!['\n']) =~= Seq::empty());
        0
    } else {
        let front = list.drop_last();
        assert forall|i: int| 0 <= i < front.len() implies (#[trigger] front[i]).len() > 0 by {
            assert(list[i].len() > 0);
        }
        let k = law_arguments_are_shown_from_the_front(front);
        assert(list.take(k) =~= front.take(k));
        if k < front.len() {
            assert(front[k] == list[k]);
            k
        } else {
            let (text, _) = clipped(front);
            let line = list.last();
            assert(line == list[k]);
            if list.len() > MAX_ARGUMENT_LINES || text.len() + line.len() > MAX_ARGUMENT_CHARS {
                k
            } else {
                let all = list.take(k + 1);
                assert(all =~= list);
                assert(front.take(k) =~= front);
                if front.len() > 0 {
                    lemma_join_nonempty(front);
                    assert(all.drop_last() =~= front);
                    assert(text.push('\n') =~= text + seq!['\n']);
                } else {
                    assert(join_spec(front, seq!['\n']) =~= Seq::empty());
                    assert(text + line =~= line);
                    assert(all[0] == line);
                }
                k + 1
            }
        }
    }
}

proof fn lemma_join_nonempty(list: Seq<Seq<char>>)
    requires
        list.len() > 0,
        forall|i: int| 0 <= i < list.len() ==> (#[trigger] list[i]).len() > 0,
    ensures
        join_spec(list, seq!['\n']).len() > 0,
{
    assert(list[list.len() - 1].len() > 0);
}

/// The end of a call is shown under the name that the call began with.
pub proof fn law_results_are_shown_under_their_tool(
    s: TuiView,
    start: AgentEvent,
    end: AgentEvent,
    now: u128,
    later: u128,
    seconds: Seq<char>,
)
    requires
        start is ToolCallStarted,
        end is ToolResult,
        start->ToolCallStarted_call_id@ == end->ToolResult_call_id@,
        !s.verbose,
    ensures
        s.track(start, now).0.reduce(end, later, seconds).1 == seq![
            result_line(
                start->ToolCallStarted_name@,
                end->ToolResult_is_error,
                end->ToolResult_duration_ms,
                seconds,
            ),
        ],
{
    let lines = Seq::<Seq<char>>::empty();
    let line = result_line(
        start->ToolCallStarted_name@,
        end->ToolResult_is_error,
        end->ToolResult_duration_ms,
        seconds,
    );
    assert(lines.push(line) =~= seq![line]);
}

/// The time of a turn is the span from its beginning to its end, and that of other
/// turns stays.
pub proof fn law_turns_are_timed(s: TuiView, turn_id: u64, begun: u128, ended: u128, other: u64)
    requires
        begun <= ended,
        other != turn_id,
    ensures
        s.begin(turn_id, begun).complete(turn_id, ended).elapsed.contains_key(turn_id),
        s.begin(turn_id, begun).complete(turn_id, ended).elapsed[turn_id] == ended - begun,
        s.begin(turn_id, begun).complete(turn_id, ended).elapsed.contains_key(other)
            <==> s.elapsed.contains_key(other),
        s.elapsed.contains_key(other) ==> s.begin(turn_id, begun).complete(
            turn_id,
            ended,
        ).elapsed[other] == s.elapsed[other],
        !s.begin(turn_id, begun).complete(turn_id, ended).started.contains_key(turn_id),
{
}

/// A part of a line takes as many rows of the screen as it needs, and no more.
pub proof fn law_rows_hold_the_width(width: usize, columns: usize)
    requires
        columns >= 1,
        1 <= width < usize::MAX,
    ensures
        part_rows(width, columns) * columns >= width,
        (part_rows(width, columns) - 1) * columns < width,
        part_rows(0, columns) == 1,
{
    let q = (width - 1) / columns as int;
    let r = (width - 1) % columns as int;
    assert(width - 1 == q * columns + r && 0 <= r < columns) by (nonlinear_arith)
        requires
            columns >= 1,
            q == (width - 1) / columns as int,
            r == (width - 1) % columns as int,
    ;
    assert(q <= width - 1) by (nonlinear_arith)
        requires
            columns >= 1,
            width >= 1,
            q == (width - 1) / columns as int,
    ;
    assert(q >= 0) by (nonlinear_arith)
        requires
            columns >= 1,
            width >= 1,
            q == (width - 1) / columns as int,
    ;
    assert(part_rows(width, columns) == q + 1);
    assert((q + 1) * columns == q * columns + columns) by (nonlinear_arith);
    assert(0int / columns as int == 0) by (nonlinear_arith)
        requires
            columns >= 1,
    ;
}

/// The rows of several parts add up.
pub proof fn law_rows_add_up(widths: Seq<usize>, width: usize, prefix: usize, columns: usize)
    requires
        columns >= 1,
        widths_rows(widths, prefix, columns) + part_rows(prefix.saturating_add(width), columns)
            <= usize::MAX,
    ensures
        widths_rows(widths.push(width), prefix, columns) == widths_rows(widths, prefix, columns)
            + part_rows(prefix.saturating_add(width), columns),
{
    assert(widths.push(width).drop_last() =~= widths);
}

/// A remote tool is shown behind its server, with a point between them.
pub proof fn law_remote_tools_are_shown_behind_their_server(server: Seq<char>, tool: Seq<char>)
    requires
        !has_text(server + "_"@, "__"@),
    ensures
        shown_name("mcp__"@ + server + "__"@ + tool) == server + "."@ + tool,
{
    reveal_strlit("mcp__");
    reveal_strlit("__");
    reveal_strlit("_");
    let name = "mcp__"@ + server + "__"@ + tool;
    let rest = server + "__"@ + tool;
    assert(name.subrange(0, 5) =~= "mcp__"@);
    assert(name.skip(5) =~= rest);
    let n = server.len() as int;
    lemma_find_from(rest, "__"@, 0);
    assert(rest.subrange(n, n + 2) =~= "__"@);
    assert(occurs_at(rest, "__"@, n));
    let i = find_from(rest, "__"@, 0)->0;
    if i < n {
        assert((server + "_"@).subrange(i, i + 2) =~= rest.subrange(i, i + 2));
        assert(occurs_at(server + "_"@, "__"@, i));
    }
    assert(rest.take(n) =~= server);
    assert(rest.skip(n + 2) =~= tool);
}

/// A request is shown with its number and its tool, and both ways to answer it
/// carry that number.
pub proof fn law_requests_are_shown_with_their_number(
    id: u64,
    tool: Seq<char>,
    arguments: Seq<char>,
)
    ensures
        ("╭─ 需要批准 #"@ + dec(id as nat) + "\n│ 工具："@ + shown_name(tool)).is_prefix_of(
            request_text(id, tool, arguments),
        ),
        ("\n╰─ /approve "@ + dec(id as nat) + " 批准一次 · /deny "@ + dec(id as nat)
            + " 拒绝 · /cancel 取消 Turn"@).is_suffix_of(request_text(id, tool, arguments)),
{
    let text = request_text(id, tool, arguments);
    let head = "╭─ 需要批准 #"@ + dec(id as nat) + "\n│ 工具："@ + shown_name(tool);
    let tail = "\n╰─ /approve "@ + dec(id as nat) + " 批准一次 · /deny "@ + dec(id as nat)
        + " 拒绝 · /cancel 取消 Turn"@;
    let inner = lines_spec(arguments).map_values(|l: Seq<char>| "│   "@ + l);
    let middle = "\n│ 参数：\n"@ + join_spec(inner, "\n"@);
    assert(text =~= head + middle + tail);
    assert(text.take(head.len() as int) =~= head);
    assert(text.subrange(text.len() - tail.len(), text.len() as int) =~= tail);
}

/// Arguments whose lines all fit are shown whole; otherwise their first lines, and
/// a note.
pub proof fn law_arguments_are_shown_or_cut(list: Seq<Seq<char>>)
    requires
        list.len() > 0,
        forall|i: int|
            0 <= i < list.len() ==> (#[trigger] list[i]).len() > 0 && !list[i].contains('\n')
                && !list[i].contains('\r'),
    ensures
        !clipped(list).1 ==> arguments_text(join_spec(list, seq!['\n'])) == join_spec(
            list,
            seq!['\n'],
        ),
        clipped(list).1 ==> arguments_text(join_spec(list, seq!['\n'])) == clipped(list).0
            + "\n… 参数预览已截断"@,
{
    let text = join_spec(list, seq!['\n']);
    let feed = CharClass::Only('\n');
    law_joined_texts_are_its_pieces(list, '\n');
    let parts = pieces(text, feed);
    assert(lines_spec(text) =~= list) by {
        let ended = parts.drop_last().map_values(|p: Seq<char>| without_return(p));
        assert(list[list.len() - 1].len() > 0);
        assert forall|i: int| 0 <= i < list.len() - 1 implies #[trigger] ended[i] == list[i] by {
            if list[i].last() == '\r' {
                assert(list[i][list[i].len() - 1] == '\r');
                assert(list[i].contains('\r'));
            }
        }
        assert(ended.push(parts.last()) =~= list);
    }
    let k = law_arguments_are_shown_from_the_front(list);
    if k == list.len() {
        assert(list.take(k) =~= list);
        lemma_join_nonempty(list);
    }
}

/// What became of an answer is told as it was given.
pub proof fn law_deliveries_are_told_as_given(id: u64)
    ensures
        delivery_text(id, true, Delivery::Delivered) == "✓ 审批 #"@ + dec(id as nat)
            + " 已批准（仅本次）"@,
        delivery_text(id, false, Delivery::Delivered) == "× 审批 #"@ + dec(id as nat)
            + " 已拒绝（仅本次）"@,
        delivery_text(id, true, Delivery::Lost) == delivery_text(id, false, Delivery::Lost),
{
    reveal_strlit("✓ 审批 #");
    reveal_strlit("× 审批 #");
    reveal_strlit("✓");
    reveal_strlit("×");
    reveal_strlit(" 审批 #");
    reveal_strlit(" ");
    reveal_strlit("已批准");
    reveal_strlit("已拒绝");
    reveal_strlit("（仅本次）");
    reveal_strlit(" 已批准（仅本次）");
    reveal_strlit(" 已拒绝（仅本次）");
    assert("✓"@ + " 审批 #"@ =~= "✓ 审批 #"@);
    assert("×"@ + " 审批 #"@ =~= "× 审批 #"@);
    assert(delivery_text(id, true, Delivery::Delivered) =~= "✓ 审批 #"@ + dec(id as nat)
        + " 已批准（仅本次）"@);
    assert(delivery_text(id, false, Delivery::Delivered) =~= "× 审批 #"@ + dec(id as nat)
        + " 已拒绝（仅本次）"@);
}

/// Spans below a second and numbers below a thousand are shown exactly.
pub proof fn law_small_numbers_are_shown_exactly(ms: u128, tokens: usize, text: Seq<char>)
    ensures
        ms < 1000 ==> shown_duration(ms, text) == dec(ms as nat) + "ms"@,
        ms >= 1000 ==> shown_duration(ms, text) == text + "s"@,
        tokens < 1000 ==> shown_tokens(tokens, text) == dec(tokens as nat) + " tokens"@,
        tokens >= 1000 ==> shown_tokens(tokens, text) == text + "k tokens"@,
{
}

} // verus!
