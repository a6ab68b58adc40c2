//! What happens in a turn, step by step.
use vstd::prelude::*;
use crate::agent_loop::{loop_ok, shown_tools, ActionView, EventView, PhaseView, World};
use crate::context::{awaiting, call_ids, calls_valid, complete, other_than, says_nothing, ContextFault};
use crate::context_builder::{prepared, HeuristicTokenEstimator};
use crate::message::{CallView, MessageView};
use crate::provider::turn::TurnView;
use crate::tools::output::OutputView;

verus! {

/// The world and the action behind the outputs of tools, one after the other.
pub open spec fn after_outputs(
    w: World,
    action: ActionView,
    outputs: Seq<OutputView>,
) -> (World, ActionView)
    decreases outputs.len(),
{
    if outputs.len() == 0 {
        (w, action)
    } else {
        after_outputs(w, action, outputs.drop_last()).0.advance(
            EventView::ToolDone(outputs.last()),
            false,
        )
    }
}

/// The results of calls, one for each output.
pub open spec fn result_messages(calls: Seq<CallView>, outputs: Seq<OutputView>) -> Seq<MessageView> {
    Seq::new(
        outputs.len(),
        |i: int|
            MessageView::Tool {
                call_id: calls[i].id,
                content: outputs[i].content,
                is_error: outputs[i].is_error,
            },
    )
}

proof fn lemma_still_awaited(
    before: Seq<MessageView>,
    content: Option<Seq<char>>,
    calls: Seq<CallView>,
    outputs: Seq<OutputView>,
)
    requires
        complete(before),
        calls_valid(calls),
        outputs.len() <= calls.len(),
    ensures
        ({
            let all = before.push(MessageView::Assistant { content, tool_calls: calls })
                + result_messages(calls, outputs);
            awaiting(all) matches Ok(pending) && forall|j: int|
                outputs.len() <= j < calls.len() ==> pending.contains((#[trigger] calls[j]).id)
        }),
    decreases outputs.len(),
{
    let said = MessageView::Assistant { content, tool_calls: calls };
    let all = before.push(said) + result_messages(calls, outputs);
    if outputs.len() == 0 {
        assert(all =~= before.push(said));
        assert(all.drop_last() =~= before);
        assert(awaiting(all) == Ok::<Seq<Seq<char>>, ContextFault>(call_ids(calls)));
        assert forall|j: int| 0 <= j < calls.len() implies call_ids(calls).contains(
            (#[trigger] calls[j]).id,
        ) by {
            assert(call_ids(calls)[j] == calls[j].id);
        }
    } else {
        let front = outputs.drop_last();
        let n = front.len() as int;
        lemma_still_awaited(before, content, calls, front);
        assert(all.drop_last() =~= before.push(said) + result_messages(calls, front));
        let pending = awaiting(all.drop_last())->Ok_0;
        let id = calls[n].id;
        assert(all.last()->Tool_call_id == id);
        assert(pending.contains(id));
        assert forall|j: int| outputs.len() <= j < calls.len() implies awaiting(
            all,
        )->Ok_0.contains((#[trigger] calls[j]).id) by {
            assert(pending.contains(calls[j].id));
            assert(call_ids(calls)[j] != call_ids(calls)[n]);
            crate::seqs::lemma_filter_contains(pending, other_than(id), calls[j].id);
        }
    }
}

/// The calls of a reply are run one after the other in their order, each once, and
/// the outputs are recorded under their calls in that order: behind every output
/// but the last the next call is run.
pub proof fn law_calls_run_in_order(w: World, t: TurnView, outputs: Seq<OutputView>)
    requires
        loop_ok(w.state),
        w.state.phase is Asking,
        complete(w.memory.messages),
        t.tool_calls.len() > 0,
        calls_valid(t.tool_calls),
        outputs.len() < t.tool_calls.len(),
    ensures
        ({
            let (asked, first) = w.advance(EventView::Reply(t), false);
            let (world, action) = after_outputs(asked, first, outputs);
            &&& action == ActionView::RunTool(t.tool_calls[outputs.len() as int])
            &&& world.state.phase == PhaseView::Running(t.tool_calls, outputs.len())
            &&& world.memory.messages == w.memory.messages.push(
                MessageView::Assistant { content: t.content, tool_calls: t.tool_calls },
            ) + result_messages(t.tool_calls, outputs)
            &&& world.memory.system_prompt == w.memory.system_prompt
        }),
    decreases outputs.len(),
{
    let said = MessageView::Assistant { content: t.content, tool_calls: t.tool_calls };
    let (asked, first) = w.advance(EventView::Reply(t), false);
    assert(!says_nothing(t.content, t.tool_calls));
    if outputs.len() == 0 {
        assert(w.memory.messages.push(said) + result_messages(t.tool_calls, outputs)
            =~= w.memory.messages.push(said));
    } else {
        let front = outputs.drop_last();
        law_calls_run_in_order(w, t, front);
        lemma_still_awaited(w.memory.messages, t.content, t.tool_calls, front);
        let (world, _) = after_outputs(asked, first, front);
        let n = front.len() as int;
        assert(world.memory.messages.push(
            MessageView::Tool {
                call_id: t.tool_calls[n].id,
                content: outputs[n].content,
                is_error: outputs[n].is_error,
            },
        ) =~= w.memory.messages.push(said) + result_messages(t.tool_calls, outputs));
    }
}

/// When the last call of a reply has been run and its output recorded, the model
/// is asked again, with what it said and all the results before it, unless the
/// turn has to stop.
pub proof fn law_results_go_back_to_the_model(w: World, t: TurnView, outputs: Seq<OutputView>)
    requires
        loop_ok(w.state),
        w.state.phase is Asking,
        complete(w.memory.messages),
        t.tool_calls.len() > 0,
        calls_valid(t.tool_calls),
        outputs.len() == t.tool_calls.len(),
    ensures
        ({
            let (asked, first) = w.advance(EventView::Reply(t), false);
            let (world, action) = after_outputs(asked, first, outputs);
            &&& action is Ask || action is Stopped
            &&& action is Ask ==> world.memory.messages == w.memory.messages.push(
                MessageView::Assistant { content: t.content, tool_calls: t.tool_calls },
            ) + result_messages(t.tool_calls, outputs) && world.state.report->0.steps
                == w.state.report->0.steps + 1
        }),
{
    let said = MessageView::Assistant { content: t.content, tool_calls: t.tool_calls };
    let (asked, first) = w.advance(EventView::Reply(t), false);
    let front = outputs.drop_last();
    law_calls_run_in_order(w, t, front);
    lemma_still_awaited(w.memory.messages, t.content, t.tool_calls, front);
    lemma_report_kept(w, t, front);
    let (world, _) = after_outputs(asked, first, front);
    let n = front.len() as int;
    assert(world.memory.messages.push(
        MessageView::Tool {
            call_id: t.tool_calls[n].id,
            content: outputs[n].content,
            is_error: outputs[n].is_error,
        },
    ) =~= w.memory.messages.push(said) + result_messages(t.tool_calls, outputs));
}

proof fn lemma_report_kept(w: World, t: TurnView, outputs: Seq<OutputView>)
    requires
        loop_ok(w.state),
        w.state.phase is Asking,
        complete(w.memory.messages),
        t.tool_calls.len() > 0,
        calls_valid(t.tool_calls),
        outputs.len() < t.tool_calls.len(),
    ensures
        ({
            let (asked, first) = w.advance(EventView::Reply(t), false);
            let (world, action) = after_outputs(asked, first, outputs);
            world.state.report is Some && world.state.report->0.steps == w.state.report->0.steps
        }),
    decreases outputs.len(),
{
    let (asked, first) = w.advance(EventView::Reply(t), false);
    assert(!says_nothing(t.content, t.tool_calls));
    if outputs.len() > 0 {
        let front = outputs.drop_last();
        lemma_report_kept(w, t, front);
        law_calls_run_in_order(w, t, front);
        lemma_still_awaited(w.memory.messages, t.content, t.tool_calls, front);
    }
}

/// A turn ends with an answer only on a reply without calls, and the answer is
/// the text of the reply, which is added to the conversation.
pub proof fn law_the_answer_is_what_the_model_said(w: World, event: EventView, cancelled: bool)
    requires
        loop_ok(w.state),
    ensures
        w.advance(event, cancelled).1 matches ActionView::Finished(answer) ==> (
        event matches EventView::Reply(t) && t.tool_calls.len() == 0 && t.content == Some(answer)
            && !cancelled && w.advance(event, cancelled).0.memory.messages == w.memory.messages.push(
            MessageView::Assistant { content: Some(answer), tool_calls: Seq::empty() },
        )),
        event matches EventView::Reply(t) ==> t.tool_calls.len() == 0 && !cancelled
            && w.state.phase is Asking && complete(w.memory.messages) ==> (
        w.advance(event, cancelled).1 is Finished || says_nothing(t.content, t.tool_calls)),
{
    if let EventView::Reply(t) = event {
        if t.tool_calls.len() == 0 {
            assert(t.tool_calls =~= Seq::<CallView>::empty());
        }
    }
}

/// A request that failed is tried again exactly where that is worth it, attempts
/// are left and the turn was not cancelled; the wait before it is that of the
/// policy, and the attempts are counted. Otherwise the turn stops with the reason.
pub proof fn law_failed_requests_are_tried_again(
    w: World,
    attempt: usize,
    reason: Seq<char>,
    retryable: bool,
    cancelled: bool,
)
    requires
        loop_ok(w.state),
        w.state.phase == PhaseView::Asking(attempt),
    ensures
        ({
            let (world, action) = w.advance(
                EventView::RequestFailed(reason, retryable),
                cancelled,
            );
            &&& action is Wait <==> retryable && !cancelled && attempt
                < w.state.retry.max_attempts
            &&& action matches ActionView::Wait(delay, _) ==> delay.nanos as int
                == w.state.retry.delay_nanos(attempt) && world.state.phase == PhaseView::Waiting(
                attempt,
            ) && world.memory == w.memory && world.advance(EventView::Waited, false).1 is Ask
                && world.advance(EventView::Waited, false).0.state.phase == PhaseView::Asking(
                (attempt + 1) as usize,
            )
            &&& !(action is Wait) && !cancelled ==> action == ActionView::Stopped(reason)
        }),
{
    let d = w.state.retry.delay_nanos(attempt);
    assert(0 <= d <= w.state.retry.max_delay.nanos) by {
        crate::retry::law_delay_is_bounded(w.state.retry, attempt);
        crate::retry::law_delay_is_no_less_than_nothing(w.state.retry, attempt);
    }
}

/// Whenever the model is asked in a new step, the step is counted, it was still
/// allowed, and the request is prepared from the conversation as it then stands.
pub proof fn law_every_request_is_prepared(w: World, cancelled: bool)
    requires
        w.state.report is Some,
    ensures
        ({
            let (world, action) = w.next_step(cancelled);
            let r = w.state.report->0;
            &&& action is Ask || action is Stopped
            &&& action is Ask ==> {
                &&& !cancelled
                &&& r.steps < w.state.max_steps
                &&& world.state.report->0.steps == r.steps + 1
                &&& world.memory == w.memory
                &&& world.state.phase == PhaseView::Asking(1)
                &&& world.state.prepared is Some
                &&& prepared(
                    &HeuristicTokenEstimator,
                    w.state.policy,
                    w.memory,
                    shown_tools(w.state.registry, w.memory.messages),
                ) == Ok::<
                    crate::context_builder::PreparedView,
                    crate::context_builder::PrepareFault,
                >(world.state.prepared->0)
            }
            &&& r.steps >= w.state.max_steps ==> action is Stopped
        }),
{
}

} // verus!
