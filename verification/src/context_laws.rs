//! What the operations on a history keep.
use vstd::prelude::*;
use crate::context::{awaiting, batch_before, call_ids, calls_valid, compacted, complete, kept_calls, other_than, outside_of, picked_ids, picked_of, says_nothing, without_calls, ToolSelector};
use crate::message::{CallView, MessageView};
use crate::seqs::{lemma_filter_all, lemma_filter_commute, lemma_filter_concat, lemma_filter_contains, lemma_filter_distinct, lemma_filter_holds, lemma_filter_none};

verus! {

/// Rolling back to a checkpoint undoes whatever was added behind it.
pub proof fn law_rollback_undoes_appends(before: Seq<MessageView>, added: Seq<MessageView>)
    ensures
        (before + added).take(before.len() as int) == before,
{
    assert((before + added).take(before.len() as int) =~= before);
}

/// The calls that await a result never include one twice.
pub proof fn law_awaiting_distinct(ms: Seq<MessageView>)
    ensures
        awaiting(ms) matches Ok(pending) ==> pending.no_duplicates(),
    decreases ms.len(),
{
    if ms.len() > 0 {
        law_awaiting_distinct(ms.drop_last());
        if awaiting(ms.drop_last()) is Ok && ms.last() is Tool {
            let pending = awaiting(ms.drop_last())->Ok_0;
            let id = ms.last()->Tool_call_id;
            let other = other_than(id);
            lemma_filter_distinct(pending, other);
        }
    }
}

/// A batch of parallel calls is complete as soon as every call has its
/// result, in whatever order the results came.
pub proof fn law_parallel_results_in_any_order(
    before: Seq<MessageView>,
    content: Option<Seq<char>>,
    calls: Seq<CallView>,
    results: Seq<MessageView>,
)
    requires
        complete(before),
        calls_valid(calls),
        forall|i: int| 0 <= i < results.len() ==> #[trigger] results[i] is Tool,
        results.map_values(|m: MessageView| m->Tool_call_id).no_duplicates(),
        results.map_values(|m: MessageView| m->Tool_call_id).to_set() == call_ids(calls).to_set(),
    ensures
        complete(before.push(MessageView::Assistant { content, tool_calls: calls }) + results),
{
    let batch = before.push(MessageView::Assistant { content, tool_calls: calls });
    let answered = results.map_values(|m: MessageView| m->Tool_call_id);
    assert(batch.drop_last() =~= before);
    assert(batch + results.take(0) =~= batch);
    lemma_filter_all(call_ids(calls), outside_of(answered.take(0)));
    lemma_results_answered(batch, call_ids(calls), results, results.len() as int);
    assert(results.take(results.len() as int) =~= results);
    assert(answered.take(results.len() as int) =~= answered);
    assert forall|i: int| 0 <= i < call_ids(calls).len() implies answered.contains(
        #[trigger] call_ids(calls)[i],
    ) by {
        assert(call_ids(calls).to_set().contains(call_ids(calls)[i]));
    }
    lemma_filter_none(call_ids(calls), outside_of(answered));
}

/// After `n` of the results, the calls that none of them answers await.
proof fn lemma_results_answered(
    batch: Seq<MessageView>,
    ids: Seq<Seq<char>>,
    results: Seq<MessageView>,
    n: int,
)
    requires
        0 <= n <= results.len(),
        awaiting(batch) == Ok::<Seq<Seq<char>>, crate::context::ContextFault>(ids),
        forall|i: int| 0 <= i < results.len() ==> #[trigger] results[i] is Tool,
        results.map_values(|m: MessageView| m->Tool_call_id).no_duplicates(),
        results.map_values(|m: MessageView| m->Tool_call_id).to_set() == ids.to_set(),
    ensures
        awaiting(batch + results.take(n)) == Ok::<Seq<Seq<char>>, crate::context::ContextFault>(
            ids.filter(
                outside_of(results.map_values(|m: MessageView| m->Tool_call_id).take(n)),
            ),
        ),
    decreases n,
{
    let answered = results.map_values(|m: MessageView| m->Tool_call_id);
    let left = outside_of(answered.take(n));
    if n == 0 {
        assert(batch + results.take(0) =~= batch);
        lemma_filter_all(ids, left);
    } else {
        let id = answered[n - 1];
        let prev = answered.take(n - 1);
        let left_before = outside_of(prev);
        let other = other_than(id);
        lemma_results_answered(batch, ids, results, n - 1);
        assert((batch + results.take(n)).drop_last() =~= batch + results.take(n - 1));
        assert((batch + results.take(n)).last() == results[n - 1]);
        assert(answered.to_set().contains(id));
        assert(ids.to_set().contains(id));
        assert(left_before(id)) by {
            if prev.contains(id) {
                let j = choose|j: int| 0 <= j < n - 1 && prev[j] == id;
                assert(answered[j] == answered[n - 1]);
            }
        }
        lemma_filter_contains(ids, left_before, id);
        crate::seqs::lemma_filter_twice(ids, left_before, other);
        assert forall|x: Seq<char>| #[trigger] left(x) == (left_before(x) && other(x)) by {
            if prev.contains(x) {
                let j = choose|j: int| 0 <= j < n - 1 && prev[j] == x;
                assert(answered.take(n)[j] == x);
            }
            if x == id {
                assert(answered.take(n)[n - 1] == x);
            }
            if answered.take(n).contains(x) && x != id {
                let j = choose|j: int| 0 <= j < n && answered.take(n)[j] == x;
                assert(prev[j] == x);
            }
        }
        assert((|x: Seq<char>| left_before(x) && other(x)) =~= left);
        assert(results[n - 1] is Tool);
    }
}

/// Of a valid batch, the kept calls are those whose identifier is not picked.
proof fn lemma_kept_ids(calls: Seq<CallView>, sel: ToolSelector)
    requires
        calls_valid(calls),
    ensures
        call_ids(kept_calls(calls, sel)) == call_ids(calls).filter(
            outside_of(picked_of(calls, sel)),
        ),
{
    let pick = |c: CallView| sel.picks(c.name);
    let picked = calls.filter(pick);
    assert forall|i: int| 0 <= i < calls.len() implies picked_of(calls, sel).contains(
        (#[trigger] calls[i]).id,
    ) == sel.picks(calls[i].name) by {
        lemma_filter_contains(calls, pick, calls[i]);
        assert(calls.contains(calls[i]));
        if sel.picks(calls[i].name) {
            let k = choose|k: int| 0 <= k < picked.len() && picked[k] == calls[i];
            assert(call_ids(picked)[k] == calls[i].id);
        }
        if picked_of(calls, sel).contains(calls[i].id) {
            let k = choose|k: int|
                0 <= k < picked.len() && call_ids(picked)[k] == calls[i].id;
            lemma_filter_contains(calls, pick, picked[k]);
            assert(picked.contains(picked[k]));
            let j = choose|j: int| 0 <= j < calls.len() && calls[j] == picked[k];
            assert(call_ids(calls)[j] == call_ids(calls)[i]);
        }
    }
    lemma_ids_of_kept(calls, sel, picked_of(calls, sel));
}

/// Dropping by name and dropping by identifier agree where they agree on
/// every call.
proof fn lemma_ids_of_kept(calls: Seq<CallView>, sel: ToolSelector, ids: Seq<Seq<char>>)
    requires
        forall|i: int|
            0 <= i < calls.len() ==> ids.contains((#[trigger] calls[i]).id) == sel.picks(
                calls[i].name,
            ),
    ensures
        call_ids(kept_calls(calls, sel)) == call_ids(calls).filter(outside_of(ids)),
    decreases calls.len(),
{
    reveal(Seq::filter);
    let keep = outside_of(ids);
    if calls.len() > 0 {
        let front = calls.drop_last();
        assert forall|i: int| 0 <= i < front.len() implies ids.contains((#[trigger] front[i]).id)
            == sel.picks(front[i].name) by {
            assert(front[i] == calls[i]);
        }
        lemma_ids_of_kept(front, sel, ids);
        assert(call_ids(calls).drop_last() =~= call_ids(front));
        let kept = kept_calls(front, sel);
        assert(calls[calls.len() - 1] == calls.last());
        assert(call_ids(kept.push(calls.last())) =~= call_ids(kept).push(calls.last().id));
    } else {
        assert(call_ids(kept_calls(calls, sel)) =~= call_ids(calls).filter(keep));
    }
}

proof fn lemma_kept_valid(calls: Seq<CallView>, sel: ToolSelector)
    requires
        calls_valid(calls),
    ensures
        calls_valid(kept_calls(calls, sel)),
{
    let keep = |c: CallView| !sel.picks(c.name);
    let kept = kept_calls(calls, sel);
    lemma_kept_ids(calls, sel);
    lemma_filter_distinct(call_ids(calls), outside_of(picked_of(calls, sel)));
    assert forall|i: int| 0 <= i < kept.len() implies (#[trigger] kept[i]).id.len() > 0
        && kept[i].name.len() > 0 by {
        lemma_filter_contains(calls, keep, kept[i]);
        assert(kept.contains(kept[i]));
        let j = choose|j: int| 0 <= j < calls.len() && calls[j] == kept[i];
        assert(calls[j].id.len() > 0);
    }
}

/// Removing calls and their results leaves exactly the other calls awaiting.
proof fn lemma_awaiting_without(
    head: Seq<MessageView>,
    tail: Seq<MessageView>,
    sel: ToolSelector,
)
    requires
        complete(head),
        awaiting(head + tail) is Ok,
    ensures
        awaiting(head + without_calls(tail, sel)) == Ok::<
            Seq<Seq<char>>,
            crate::context::ContextFault,
        >(awaiting(head + tail)->Ok_0.filter(outside_of(picked_of(batch_before(tail), sel)))),
    decreases tail.len(),
{
    let ids = picked_of(batch_before(tail), sel);
    let keep = outside_of(ids);
    if tail.len() == 0 {
        assert(head + tail =~= head);
        assert(head + without_calls(tail, sel) =~= head);
        lemma_filter_all(awaiting(head)->Ok_0, keep);
    } else {
        let front = tail.drop_last();
        let m = tail.last();
        assert((head + tail).drop_last() =~= head + front);
        lemma_awaiting_without(head, front, sel);
        let pending = awaiting(head + front)->Ok_0;
        let shorter = head + without_calls(front, sel);
        assert forall|x: MessageView| #[trigger] (shorter.push(x)).drop_last() == shorter by {
            assert(shorter.push(x).drop_last() =~= shorter);
        }
        assert forall|x: MessageView| #[trigger]
            shorter.push(x) == head + without_calls(front, sel).push(x) by {
            assert(shorter.push(x) =~= head + without_calls(front, sel).push(x));
        }
        match m {
            MessageView::User { content } => {
                lemma_filter_all(pending, keep);
                lemma_filter_all(
                    pending,
                    outside_of(picked_of(batch_before(front), sel)),
                );
                assert(shorter.push(m).last() == m);
            },
            MessageView::Assistant { content, tool_calls } => {
                lemma_filter_all(
                    pending,
                    outside_of(picked_of(batch_before(front), sel)),
                );
                lemma_kept_ids(tool_calls, sel);
                lemma_kept_valid(tool_calls, sel);
                let kept = MessageView::Assistant {
                    content,
                    tool_calls: kept_calls(tool_calls, sel),
                };
                assert(shorter.push(kept).last() == kept);
                if says_nothing(content, kept_calls(tool_calls, sel)) {
                    assert(call_ids(kept_calls(tool_calls, sel)) =~= pending);
                }
            },
            MessageView::Tool { call_id, content, is_error } => {
                let other = other_than(call_id);
                lemma_filter_commute(pending, other, keep);
                if ids.contains(call_id) {
                    lemma_filter_holds(pending, keep);
                    let kept = pending.filter(keep);
                    assert forall|i: int| 0 <= i < kept.len() implies other(
                        #[trigger] kept[i],
                    ) by {
                        assert(keep(kept[i]));
                    }
                    lemma_filter_all(kept, other);
                } else {
                    lemma_filter_contains(pending, keep, call_id);
                    assert(shorter.push(m).last() == m);
                }
            },
        }
    }
}

/// Compacting a complete history behind a checkpoint at which it was complete
/// too never fails, and leaves a complete history.
pub proof fn law_compaction_stays_complete(
    ms: Seq<MessageView>,
    checkpoint: int,
    sel: ToolSelector,
)
    requires
        0 <= checkpoint <= ms.len(),
        complete(ms),
        complete(ms.take(checkpoint)),
    ensures
        complete(compacted(ms, checkpoint, sel)),
        crate::context::compaction_fault(ms, checkpoint, sel) is None,
{
    let head = ms.take(checkpoint);
    let tail = ms.skip(checkpoint);
    assert(head + tail =~= ms);
    lemma_awaiting_without(head, tail, sel);
    lemma_filter_all(
        awaiting(ms)->Ok_0,
        outside_of(picked_of(batch_before(tail), sel)),
    );
}

/// Compaction leaves the messages before the checkpoint as they were.
pub proof fn law_compaction_keeps_prefix(ms: Seq<MessageView>, checkpoint: int, sel: ToolSelector)
    requires
        0 <= checkpoint <= ms.len(),
    ensures
        compacted(ms, checkpoint, sel).take(checkpoint) == ms.take(checkpoint),
{
    assert(compacted(ms, checkpoint, sel).take(checkpoint) =~= ms.take(checkpoint));
}

pub open spec fn user_messages(ms: Seq<MessageView>) -> Seq<MessageView> {
    ms.filter(|m: MessageView| m is User)
}

proof fn lemma_users_push(ms: Seq<MessageView>, m: MessageView)
    ensures
        user_messages(ms.push(m)) == if m is User {
            user_messages(ms).push(m)
        } else {
            user_messages(ms)
        },
{
    reveal(Seq::filter);
    assert(ms.push(m).drop_last() =~= ms);
}

/// Compaction keeps every question of the user, in order.
pub proof fn law_compaction_keeps_questions(tail: Seq<MessageView>, sel: ToolSelector)
    ensures
        user_messages(without_calls(tail, sel)) == user_messages(tail),
    decreases tail.len(),
{
    if tail.len() > 0 {
        let front = tail.drop_last();
        law_compaction_keeps_questions(front, sel);
        assert(front.push(tail.last()) =~= tail);
        lemma_users_push(front, tail.last());
        match tail.last() {
            MessageView::Assistant { content, tool_calls } => {
                lemma_users_push(
                    without_calls(front, sel),
                    MessageView::Assistant { content, tool_calls: kept_calls(tool_calls, sel) },
                );
            },
            _ => {
                lemma_users_push(without_calls(front, sel), tail.last());
            },
        }
    } else {
        assert(without_calls(tail, sel) =~= tail);
    }
}

/// The calls of a history, in order.
pub open spec fn all_calls(ms: Seq<MessageView>) -> Seq<CallView>
    decreases ms.len(),
{
    if ms.len() == 0 {
        Seq::empty()
    } else {
        all_calls(ms.drop_last()) + match ms.last() {
            MessageView::Assistant { tool_calls, .. } => tool_calls,
            _ => Seq::empty(),
        }
    }
}

/// Compaction keeps every call of the other tools, in order, whatever
/// identifiers the removed calls had.
pub proof fn law_compaction_keeps_other_calls(tail: Seq<MessageView>, sel: ToolSelector)
    ensures
        all_calls(without_calls(tail, sel)) == kept_calls(all_calls(tail), sel),
    decreases tail.len(),
{
    let keep = |c: CallView| !sel.picks(c.name);
    if tail.len() > 0 {
        let front = tail.drop_last();
        law_compaction_keeps_other_calls(front, sel);
        let shorter = without_calls(front, sel);
        assert forall|x: MessageView| #[trigger] shorter.push(x).drop_last() == shorter by {
            assert(shorter.push(x).drop_last() =~= shorter);
        }
        match tail.last() {
            MessageView::Assistant { content, tool_calls } => {
                lemma_filter_concat(all_calls(front), tool_calls, keep);
                let m = MessageView::Assistant { content, tool_calls: kept_calls(tool_calls, sel) };
                assert(shorter.push(m).last() == m);
                assert(all_calls(shorter) + Seq::<CallView>::empty() =~= all_calls(shorter));
                if says_nothing(content, kept_calls(tool_calls, sel)) {
                    assert(kept_calls(tool_calls, sel) =~= Seq::empty());
                }
            },
            _ => {
                assert(shorter.push(tail.last()).last() == tail.last());
                assert(all_calls(front) + Seq::<CallView>::empty() =~= all_calls(front));
                assert(all_calls(shorter) + Seq::<CallView>::empty() =~= all_calls(shorter));
            },
        }
    } else {
        reveal(Seq::filter);
        assert(kept_calls(all_calls(tail), sel) =~= Seq::empty());
    }
}

/// No call that the selector picks is left.
proof fn lemma_none_left(tail: Seq<MessageView>, sel: ToolSelector)
    ensures
        picked_ids(without_calls(tail, sel), sel) == Seq::<Seq<char>>::empty(),
    decreases tail.len(),
{
    if tail.len() > 0 {
        let front = tail.drop_last();
        lemma_none_left(front, sel);
        let shorter = without_calls(front, sel);
        assert forall|x: MessageView| #[trigger] shorter.push(x).drop_last() == shorter by {
            assert(shorter.push(x).drop_last() =~= shorter);
        }
        match tail.last() {
            MessageView::Assistant { content, tool_calls } => {
                let kept = kept_calls(tool_calls, sel);
                let keep = |c: CallView| !sel.picks(c.name);
                let pick = |c: CallView| sel.picks(c.name);
                lemma_filter_holds(tool_calls, keep);
                assert forall|i: int| 0 <= i < kept.len() implies !pick(#[trigger] kept[i]) by {
                    assert(keep(kept[i]));
                }
                lemma_filter_none(kept, pick);
                let m = MessageView::Assistant { content, tool_calls: kept };
                assert(shorter.push(m).last() == m);
                assert(picked_of(kept, sel) =~= Seq::empty());
                assert(picked_ids(shorter, sel) + Seq::<Seq<char>>::empty()
                    =~= Seq::<Seq<char>>::empty());
            },
            _ => {
                assert(shorter.push(tail.last()).last() == tail.last());
            },
        }
    }
}

/// After a compaction no call that the selector picks stands behind the
/// checkpoint, so that compacting again changes nothing.
pub proof fn law_compaction_removes_all_and_is_idempotent(
    ms: Seq<MessageView>,
    checkpoint: int,
    sel: ToolSelector,
)
    requires
        0 <= checkpoint <= ms.len(),
    ensures
        picked_ids(compacted(ms, checkpoint, sel).skip(checkpoint), sel) == Seq::<
            Seq<char>,
        >::empty(),
        compacted(compacted(ms, checkpoint, sel), checkpoint, sel) == compacted(
            ms,
            checkpoint,
            sel,
        ),
{
    let tail = ms.skip(checkpoint);
    if picked_ids(tail, sel).len() > 0 {
        assert(compacted(ms, checkpoint, sel).skip(checkpoint) =~= without_calls(tail, sel));
        lemma_none_left(tail, sel);
    } else {
        assert(picked_ids(tail, sel) =~= Seq::empty());
    }
}

proof fn lemma_none_added(tail: Seq<MessageView>, other: ToolSelector, sel: ToolSelector)
    requires
        picked_ids(tail, sel).len() == 0,
    ensures
        picked_ids(without_calls(tail, other), sel).len() == 0,
    decreases tail.len(),
{
    if tail.len() > 0 {
        let front = tail.drop_last();
        lemma_none_added(front, other, sel);
        let shorter = without_calls(front, other);
        assert forall|x: MessageView| #[trigger] shorter.push(x).drop_last() == shorter by {
            assert(shorter.push(x).drop_last() =~= shorter);
        }
        match tail.last() {
            MessageView::Assistant { content, tool_calls } => {
                let kept = kept_calls(tool_calls, other);
                let keep = |c: CallView| !other.picks(c.name);
                let pick = |c: CallView| sel.picks(c.name);
                assert forall|i: int| 0 <= i < kept.len() implies !pick(#[trigger] kept[i]) by {
                    lemma_filter_contains(tool_calls, keep, kept[i]);
                    assert(kept.contains(kept[i]));
                    let j = choose|j: int| 0 <= j < tool_calls.len() && tool_calls[j] == kept[i];
                    if pick(kept[i]) {
                        lemma_filter_contains(tool_calls, pick, kept[i]);
                        assert(tool_calls.filter(pick).contains(kept[i]));
                    }
                }
                lemma_filter_none(kept, pick);
                let m = MessageView::Assistant { content, tool_calls: kept };
                assert(shorter.push(m).last() == m);
                assert(picked_of(kept, sel) =~= Seq::empty());
            },
            _ => {
                assert(shorter.push(tail.last()).last() == tail.last());
            },
        }
    }
}

/// A compaction adds no call: what another one has removed stays removed.
pub proof fn law_compactions_add_up(
    ms: Seq<MessageView>,
    checkpoint: int,
    sel: ToolSelector,
    other: ToolSelector,
)
    requires
        0 <= checkpoint <= ms.len(),
        picked_ids(ms.skip(checkpoint), sel).len() == 0,
    ensures
        picked_ids(compacted(ms, checkpoint, other).skip(checkpoint), sel).len() == 0,
{
    let tail = ms.skip(checkpoint);
    if picked_ids(tail, other).len() > 0 {
        assert(compacted(ms, checkpoint, other).skip(checkpoint) =~= without_calls(tail, other));
        lemma_none_added(tail, other, sel);
    }
}

} // verus!
