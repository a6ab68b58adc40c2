//! What every turn of the loop keeps.
use vstd::prelude::*;
use crate::agent_loop::{loop_ok, ActionView, EventView, LoopView, PhaseView, ReportView, TurnState, World};
use crate::context::{awaiting, call_ids, complete, history_fault, ContextFault};
use crate::message::MessageView;
use crate::session::{one_question, opens_turn};

verus! {

/// A turn is under way in a conversation that was `before` when it began.
pub open spec fn under_way(w: World, before: Seq<MessageView>) -> bool {
    &&& w.state.checkpoint == before.len()
    &&& before.len() <= w.memory.messages.len()
    &&& w.memory.messages.take(before.len() as int) == before
    &&& w.state.report is Some
    &&& w.state.report->0.steps <= w.state.max_steps
}

/// How the loop stands after an action: a turn that was stopped has left the
/// conversation as it was, one that has ended is complete, and any other is
/// still under way.
pub open spec fn well_left(r: (World, ActionView), before: Seq<MessageView>) -> bool {
    let (w, action) = r;
    &&& loop_ok(w.state)
    &&& w.state.report is Some
    &&& w.state.report->0.steps <= w.state.max_steps
    &&& match action {
        ActionView::Stopped(_) => w.memory.messages == before && w.state.phase is Idle && (
        w.state.report->0.state == TurnState::Failed || w.state.report->0.state
            == TurnState::Cancelled),
        ActionView::Finished(answer) => complete(w.memory.messages) && under_way(w, before)
            && w.state.phase is Idle && w.state.report->0.state == TurnState::Completed
            && w.state.report->0.answer == Some(answer),
        _ => under_way(w, before),
    }
}

proof fn lemma_give_up(w: World, before: Seq<MessageView>, state: TurnState, reason: Seq<char>)
    requires
        under_way(w, before),
        state == TurnState::Failed || state == TurnState::Cancelled,
    ensures
        well_left(w.give_up(state, reason), before),
        w.give_up(state, reason).1 is Stopped,
{
    if w.state.checkpoint == w.memory.messages.len() {
        assert(w.memory.messages.take(before.len() as int) =~= w.memory.messages);
    }
}

proof fn lemma_next_step(w: World, before: Seq<MessageView>, cancelled: bool)
    requires
        under_way(w, before),
    ensures
        well_left(w.next_step(cancelled), before),
{
    let r = w.state.report->0;
    let counted = w.with_report(ReportView { steps: (r.steps + 1) as usize, ..r });
    lemma_give_up(w, before, TurnState::Failed, "工具调用 Step 过多，已停止"@);
    lemma_give_up(w, before, TurnState::Cancelled, "当前 Turn 已取消"@);
    if r.steps < w.state.max_steps {
        assert(under_way(counted, before));
        match crate::context_builder::prepared(
            &crate::context_builder::HeuristicTokenEstimator,
            w.state.policy,
            w.memory,
            crate::agent_loop::shown_tools(w.state.registry, w.memory.messages),
        ) {
            Err(fault) => {
                lemma_give_up(counted, before, TurnState::Failed, fault.text());
            },
            Ok(p) => {},
        }
    }
}

proof fn lemma_push_keeps(messages: Seq<MessageView>, m: MessageView, n: int)
    requires
        0 <= n <= messages.len(),
    ensures
        messages.push(m).take(n) == messages.take(n),
{
    assert(messages.push(m).take(n) =~= messages.take(n));
}

/// A turn that begins and is stopped at once leaves the conversation as it
/// was; any other is under way. The number of the turn is the next one, and
/// the one after it is larger.
pub proof fn law_turn_begins(w: World, input: Seq<char>, cancelled: bool)
    requires
        w.memory.messages.len() <= usize::MAX,
        w.state.next_turn_id < u64::MAX,
    ensures
        well_left(w.start(input, cancelled), w.memory.messages),
        w.start(input, cancelled).0.state.report->0.id == w.state.next_turn_id,
        w.start(input, cancelled).0.state.next_turn_id == w.state.next_turn_id + 1,
{
    let before = w.memory.messages;
    let begun = World {
        state: LoopView {
            next_turn_id: (w.state.next_turn_id + 1) as u64,
            report: Some(crate::agent_loop::new_report(w.state.next_turn_id)),
            checkpoint: before.len() as usize,
            phase: PhaseView::Idle,
            prepared: None,
            ..w.state
        },
        memory: w.memory,
    };
    assert(before.take(before.len() as int) =~= before);
    assert(under_way(begun, before));
    lemma_give_up(begun, before, TurnState::Cancelled, "当前 Turn 已取消"@);
    match history_fault(before) {
        Some(fault) => {
            lemma_give_up(begun, before, TurnState::Failed, fault.text());
        },
        None => {
            let asked = MessageView::User { content: input };
            lemma_push_keeps(before, asked, before.len() as int);
            let next = World {
                memory: crate::context::ContextView { messages: before.push(asked), ..w.memory },
                ..begun
            };
            lemma_next_step(next, before, cancelled);
        },
    }
}

/// Whatever the outcome of a step, a turn that is stopped leaves the
/// conversation as it was when the turn began, an answer leaves a complete
/// conversation, and the number of steps stays within its bound.
pub proof fn law_turn_advances(
    w: World,
    before: Seq<MessageView>,
    event: EventView,
    cancelled: bool,
)
    requires
        loop_ok(w.state),
        !(w.state.phase is Idle),
        under_way(w, before),
    ensures
        well_left(w.advance(event, cancelled), before),
{
    lemma_give_up(w, before, TurnState::Cancelled, "当前 Turn 已取消"@);
    let n = before.len() as int;
    match (w.state.phase, event) {
        (PhaseView::Asking(_), EventView::Reply(t)) => {
            let r = w.state.report->0;
            let counted = match t.usage {
                Some(u) => World {
                    state: LoopView {
                        report: Some(ReportView { usage: r.usage.plus(u), ..r }),
                        session_usage: w.state.session_usage.plus(u),
                        ..w.state
                    },
                    ..w
                },
                None => w,
            };
            assert(under_way(counted, before));
            lemma_give_up(counted, before, TurnState::Cancelled, "当前 Turn 已取消"@);
            let said = MessageView::Assistant { content: t.content, tool_calls: t.tool_calls };
            lemma_push_keeps(w.memory.messages, said, n);
            match history_fault(w.memory.messages) {
                Some(fault) => {
                    lemma_give_up(counted, before, TurnState::Failed, fault.text());
                },
                None => {
                    lemma_give_up(
                        counted,
                        before,
                        TurnState::Failed,
                        ContextFault::EmptyAssistant.text(),
                    );
                    assert(w.memory.messages.push(said).drop_last() =~= w.memory.messages);
                    assert(call_ids(t.tool_calls).len() == t.tool_calls.len());
                },
            }
        },
        (PhaseView::Asking(attempt), EventView::RequestFailed(reason, retryable)) => {
            lemma_give_up(w, before, TurnState::Failed, reason);
        },
        (PhaseView::Running(calls, i), EventView::ToolDone(output)) => {
            match awaiting(w.memory.messages) {
                Err(fault) => {
                    lemma_give_up(w, before, TurnState::Failed, fault.text());
                },
                Ok(pending) => {
                    lemma_give_up(
                        w,
                        before,
                        TurnState::Failed,
                        ContextFault::UnmatchedResult(calls[i as int].id).text(),
                    );
                    let answer = MessageView::Tool {
                        call_id: calls[i as int].id,
                        content: output.content,
                        is_error: output.is_error,
                    };
                    lemma_push_keeps(w.memory.messages, answer, n);
                    let answered = World {
                        memory: crate::context::ContextView {
                            messages: w.memory.messages.push(answer),
                            ..w.memory
                        },
                        ..w
                    };
                    assert(under_way(answered, before));
                    lemma_give_up(answered, before, TurnState::Cancelled, "当前 Turn 已取消"@);
                    let resumed = answered.with_report(
                        w.state.report->0.enter(TurnState::Running),
                    );
                    assert(under_way(resumed, before));
                    lemma_next_step(resumed, before, cancelled);
                },
            }
        },
        _ => {},
    }
}

/// What holds between the steps of a turn holds once a turn has begun.
pub proof fn lemma_start_is_ok(w: World, input: Seq<char>, cancelled: bool)
    ensures
        loop_ok(w.start(input, cancelled).0.state),
{
}

/// What holds between the steps of a turn is kept by every outcome.
pub proof fn lemma_loop_stays_ok(w: World, event: EventView, cancelled: bool)
    requires
        loop_ok(w.state),
    ensures
        loop_ok(w.advance(event, cancelled).0.state),
{
}

/// Once a turn is cancelled, every outcome that is waited for stops it.
pub proof fn law_cancellation_stops_the_turn(w: World, event: EventView)
    requires
        loop_ok(w.state),
        !(w.state.phase is Idle),
        w.advance(event, true).1 != ActionView::Nothing,
    ensures
        w.advance(event, true).1 is Stopped,
{
}

/// The history of a turn's states holds changes only.
pub open spec fn holds_changes(history: Seq<TurnState>) -> bool {
    forall|i: int, j: int|
        0 <= i < history.len() && j == i + 1 && j < history.len() ==> (#[trigger] history[i]) != (
        #[trigger] history[j])
}

/// Entering a state keeps it so that the history holds changes only and ends
/// with the present state.
pub proof fn law_history_holds_changes(r: ReportView, state: TurnState)
    requires
        holds_changes(r.state_history),
    ensures
        holds_changes(r.enter(state).state_history),
        r.enter(state).state_history.last() == state,
        r.enter(state).state == state,
{
}

/// What a turn leaves behind takes no part in the next one: how the turn
/// before ended makes no difference to it.
pub proof fn law_turns_are_independent(a: World, b: World, input: Seq<char>, cancelled: bool)
    requires
        a.memory == b.memory,
        a.state == (LoopView {
            report: a.state.report,
            checkpoint: a.state.checkpoint,
            phase: a.state.phase,
            prepared: a.state.prepared,
            ..b.state
        }),
    ensures
        a.start(input, cancelled) == b.start(input, cancelled),
{
}

/// The usage of a session counts what the model reports, and nothing else. A
/// reply counts even where its turn is cancelled or given up.
pub proof fn law_usage_counts_replies(w: World, event: EventView, cancelled: bool)
    requires
        loop_ok(w.state),
    ensures
        w.advance(event, cancelled).0.state.session_usage == match (w.state.phase, event) {
            (PhaseView::Asking(_), EventView::Reply(t)) => match t.usage {
                Some(u) => w.state.session_usage.plus(u),
                None => w.state.session_usage,
            },
            _ => w.state.session_usage,
        },
{
}

/// Another attempt belongs to the same step: it adds no step and no message,
/// and it sends the same context.
pub proof fn law_retries_stay_in_their_step(w: World, reason: Seq<char>)
    requires
        loop_ok(w.state),
        w.state.phase is Asking,
        w.advance(EventView::RequestFailed(reason, true), false).1 is Wait,
    ensures
        ({
            let (waiting, _) = w.advance(EventView::RequestFailed(reason, true), false);
            let (again, action) = waiting.advance(EventView::Waited, false);
            &&& action is Ask
            &&& again.memory == w.memory
            &&& again.state.prepared == w.state.prepared
            &&& again.state.report->0.steps == w.state.report->0.steps
            &&& again.state.session_usage == w.state.session_usage
        }),
{
}

/// The turn that is under way: the user's question opens it, and the user says
/// nothing more.
pub open spec fn asks_once(w: World) -> bool {
    let turn = w.memory.messages.skip(w.state.checkpoint as int);
    w.state.checkpoint < w.memory.messages.len() && opens_turn(turn) && one_question(turn)
}

proof fn lemma_more_is_said(messages: Seq<MessageView>, at: int, m: MessageView)
    requires
        0 <= at < messages.len(),
        opens_turn(messages.skip(at)),
        one_question(messages.skip(at)),
        !(m is User),
    ensures
        opens_turn(messages.push(m).skip(at)),
        one_question(messages.push(m).skip(at)),
{
    let turn = messages.skip(at);
    let longer = messages.push(m).skip(at);
    assert(longer =~= turn.push(m));
    assert forall|i: int| 0 < i < longer.len() implies !((#[trigger] longer[i]) is User) by {
        if i < turn.len() {
            assert(longer[i] == turn[i]);
        }
    }
}

/// A turn that begins is opened by its question.
pub proof fn law_question_opens_the_turn(w: World, input: Seq<char>, cancelled: bool)
    requires
        w.memory.messages.len() <= usize::MAX,
        !(w.start(input, cancelled).1 is Stopped),
    ensures
        asks_once(w.start(input, cancelled).0),
{
    let asked = MessageView::User { content: input };
    let turn = w.memory.messages.push(asked).skip(w.memory.messages.len() as int);
    assert(turn =~= seq![asked]);
}

/// However a turn goes on, its question stays its only one.
pub proof fn law_turn_has_one_question(w: World, event: EventView, cancelled: bool)
    requires
        loop_ok(w.state),
        asks_once(w),
        !(w.advance(event, cancelled).1 is Stopped),
    ensures
        asks_once(w.advance(event, cancelled).0),
{
    let at = w.state.checkpoint as int;
    match (w.state.phase, event) {
        (PhaseView::Asking(_), EventView::Reply(t)) => {
            lemma_more_is_said(
                w.memory.messages,
                at,
                MessageView::Assistant { content: t.content, tool_calls: t.tool_calls },
            );
        },
        (PhaseView::Running(calls, i), EventView::ToolDone(output)) => {
            lemma_more_is_said(
                w.memory.messages,
                at,
                MessageView::Tool {
                    call_id: calls[i as int].id,
                    content: output.content,
                    is_error: output.is_error,
                },
            );
        },
        _ => {},
    }
}

} // verus!
