//! What a complete history holds, and what compaction leaves of it.
use vstd::prelude::*;
use crate::context::{awaiting, call_ids, calls_valid, complete, kept_calls, other_than, outside_of, results_of, without, without_calls, ContextFault, ToolSelector};
use crate::message::MessageView;
use crate::seqs::{lemma_filter_all, lemma_filter_contains, lemma_filter_twice};
use crate::text::pieces::trim_spec;

verus! {

/// The identifiers of the calls that the results between two positions answer.
pub open spec fn answered_between(ms: Seq<MessageView>, from: int, to: int) -> Seq<Seq<char>> {
    ms.subrange(from, to).map_values(|m: MessageView| m->Tool_call_id)
}

/// The results of a message's calls stand right behind it: as many as there are
/// calls, each for one of them, and one for each.
pub open spec fn is_answered(ms: Seq<MessageView>, j: int) -> bool {
    let calls = ms[j]->Assistant_tool_calls;
    let end = j + 1 + calls.len();
    &&& end <= ms.len()
    &&& calls_valid(calls)
    &&& forall|k: int| j < k < end ==> (#[trigger] ms[k]) is Tool
    &&& answered_between(ms, j + 1, end).no_duplicates()
    &&& answered_between(ms, j + 1, end).to_set() == call_ids(calls).to_set()
}

spec fn is_open(ms: Seq<MessageView>, j: int, pending: Seq<Seq<char>>) -> bool {
    let calls = ms[j]->Assistant_tool_calls;
    let ids = answered_between(ms, j + 1, ms.len() as int);
    &&& pending.len() > 0
    &&& calls_valid(calls)
    &&& forall|k: int| j < k < ms.len() ==> (#[trigger] ms[k]) is Tool
    &&& ids.no_duplicates()
    &&& forall|x: Seq<char>| #[trigger] ids.contains(x) ==> call_ids(calls).contains(x)
    &&& pending == call_ids(calls).filter(outside_of(ids))
}

spec fn is_sound(ms: Seq<MessageView>, pending: Seq<Seq<char>>) -> bool {
    &&& forall|j: int|
        0 <= j < ms.len() && (#[trigger] ms[j]) is Assistant ==> is_answered(ms, j) || is_open(
            ms,
            j,
            pending,
        )
    &&& pending.len() > 0 ==> exists|j: int|
        0 <= j < ms.len() && (#[trigger] ms[j]) is Assistant && is_open(ms, j, pending)
    &&& forall|t: int|
        0 <= t < ms.len() && (#[trigger] ms[t]) is Tool ==> exists|j: int|
            0 <= j < t && (#[trigger] ms[j]) is Assistant && call_ids(
                ms[j]->Assistant_tool_calls,
            ).contains(ms[t]->Tool_call_id) && (forall|k: int|
                j < k < t ==> (#[trigger] ms[k]) is Tool)
}

proof fn lemma_answered_kept(ms: Seq<MessageView>, m: MessageView, j: int)
    requires
        0 <= j < ms.len(),
        is_answered(ms, j),
    ensures
        is_answered(ms.push(m), j),
{
    let more = ms.push(m);
    let end = j + 1 + ms[j]->Assistant_tool_calls.len();
    assert(more.subrange(j + 1, end) =~= ms.subrange(j + 1, end));
    assert forall|k: int| j < k < end implies (#[trigger] more[k]) is Tool by {
        assert(ms[k] is Tool);
    }
}

proof fn lemma_open_goes_on(
    ms: Seq<MessageView>,
    m: MessageView,
    j: int,
    pending: Seq<Seq<char>>,
)
    requires
        0 <= j < ms.len(),
        ms[j] is Assistant,
        is_open(ms, j, pending),
        m is Tool,
        pending.contains(m->Tool_call_id),
    ensures
        without(pending, m->Tool_call_id).len() == 0 ==> is_answered(ms.push(m), j),
        without(pending, m->Tool_call_id).len() > 0 ==> is_open(
            ms.push(m),
            j,
            without(pending, m->Tool_call_id),
        ),
{
    let more = ms.push(m);
    let id = m->Tool_call_id;
    let calls = ms[j]->Assistant_tool_calls;
    let all = call_ids(calls);
    let ids = answered_between(ms, j + 1, ms.len() as int);
    let next = answered_between(more, j + 1, more.len() as int);
    assert(more.subrange(j + 1, more.len() as int) =~= ms.subrange(j + 1, ms.len() as int).push(m));
    assert(next =~= ids.push(id));
    lemma_filter_contains(all, outside_of(ids), id);
    assert(!ids.contains(id) && all.contains(id));
    assert forall|a: int, b: int| 0 <= a < next.len() && 0 <= b < next.len() && a != b implies next[a]
        != next[b] by {
        if a < ids.len() {
            assert(ids[a] == next[a]);
            assert(ids.contains(ids[a]));
        }
        if b < ids.len() {
            assert(ids[b] == next[b]);
            assert(ids.contains(ids[b]));
        }
    }
    assert forall|x: Seq<char>| #[trigger] next.contains(x) implies all.contains(x) by {
        let a = choose|a: int| 0 <= a < next.len() && next[a] == x;
        if a < ids.len() {
            assert(ids[a] == x);
            assert(ids.contains(x));
        }
    }
    assert forall|k: int| j < k < more.len() implies (#[trigger] more[k]) is Tool by {
        if k < ms.len() {
            assert(ms[k] is Tool);
        }
    }
    let left = outside_of(next);
    lemma_filter_twice(all, outside_of(ids), other_than(id));
    assert((|x: Seq<char>| outside_of(ids)(x) && other_than(id)(x)) =~= left) by {
        assert forall|x: Seq<char>|
            outside_of(ids)(x) && other_than(id)(x) <==> #[trigger] left(x) by {
            if ids.contains(x) {
                let a = choose|a: int| 0 <= a < ids.len() && ids[a] == x;
                assert(next[a] == x);
            }
            if x == id {
                assert(next[ids.len() as int] == x);
            }
            if next.contains(x) {
                let a = choose|a: int| 0 <= a < next.len() && next[a] == x;
                if a < ids.len() {
                    assert(ids[a] == x);
                }
            }
        }
    }
    let rest = without(pending, id);
    assert(rest == all.filter(left));
    if rest.len() == 0 {
        assert forall|x: Seq<char>| all.contains(x) implies next.contains(x) by {
            if !next.contains(x) {
                lemma_filter_contains(all, left, x);
                assert(rest.contains(x));
            }
        }
        assert(next.to_set() =~= all.to_set());
        next.unique_seq_to_set();
        all.unique_seq_to_set();
        assert(next.len() == all.len());
        assert(j + 1 + calls.len() == more.len());
    }
}

proof fn lemma_sound(ms: Seq<MessageView>)
    ensures
        awaiting(ms) matches Ok(pending) ==> is_sound(ms, pending),
    decreases ms.len(),
{
    if ms.len() > 0 && awaiting(ms) is Ok {
        let front = ms.drop_last();
        let m = ms.last();
        lemma_sound(front);
        let before = awaiting(front)->Ok_0;
        let pending = awaiting(ms)->Ok_0;
        assert(front.push(m) =~= ms);
        let last = ms.len() - 1;
        assert forall|j: int| 0 <= j < ms.len() && (#[trigger] ms[j]) is Assistant implies is_answered(
            ms,
            j,
        ) || is_open(ms, j, pending) by {
            if j < last {
                assert(front[j] == ms[j]);
                if is_answered(front, j) {
                    lemma_answered_kept(front, m, j);
                } else {
                    lemma_open_goes_on(front, m, j, before);
                }
            } else {
                lemma_new_batch(ms);
            }
        }
        assert forall|t: int| 0 <= t < ms.len() && (#[trigger] ms[t]) is Tool implies exists|j: int|
            0 <= j < t && (#[trigger] ms[j]) is Assistant && call_ids(
                ms[j]->Assistant_tool_calls,
            ).contains(ms[t]->Tool_call_id) && (forall|k: int|
                j < k < t ==> (#[trigger] ms[k]) is Tool) by {
            if t < last {
                assert(front[t] == ms[t]);
                let j = choose|j: int|
                    0 <= j < t && (#[trigger] front[j]) is Assistant && call_ids(
                        front[j]->Assistant_tool_calls,
                    ).contains(front[t]->Tool_call_id) && (forall|k: int|
                        j < k < t ==> (#[trigger] front[k]) is Tool);
                assert(ms[j] == front[j]);
                assert forall|k: int| j < k < t implies (#[trigger] ms[k]) is Tool by {
                    assert(front[k] is Tool);
                }
            } else {
                let id = m->Tool_call_id;
                assert(before.contains(id));
                let j = choose|j: int|
                    0 <= j < front.len() && (#[trigger] front[j]) is Assistant && is_open(
                        front,
                        j,
                        before,
                    );
                let all = call_ids(front[j]->Assistant_tool_calls);
                lemma_filter_contains(
                    all,
                    outside_of(answered_between(front, j + 1, front.len() as int)),
                    id,
                );
                assert(ms[j] == front[j]);
                assert forall|k: int| j < k < t implies (#[trigger] ms[k]) is Tool by {
                    assert(front[k] is Tool);
                }
            }
        }
        if pending.len() > 0 {
            if m is Tool {
                let j = choose|j: int|
                    0 <= j < front.len() && (#[trigger] front[j]) is Assistant && is_open(
                        front,
                        j,
                        before,
                    );
                lemma_open_goes_on(front, m, j, before);
                assert(ms[j] == front[j]);
            } else {
                assert(m is Assistant);
                lemma_new_batch(ms);
                assert(ms[last] is Assistant);
            }
        }
    }
}

proof fn lemma_new_batch(ms: Seq<MessageView>)
    requires
        ms.len() > 0,
        ms.last() is Assistant,
        awaiting(ms) is Ok,
    ensures
        is_answered(ms, ms.len() - 1) || is_open(ms, ms.len() - 1, awaiting(ms)->Ok_0),
        awaiting(ms)->Ok_0.len() > 0 ==> is_open(ms, ms.len() - 1, awaiting(ms)->Ok_0),
{
    let j = ms.len() - 1;
    let calls = ms[j]->Assistant_tool_calls;
    let all = call_ids(calls);
    let none = answered_between(ms, j + 1, ms.len() as int);
    assert(ms[j] == ms.last());
    assert(awaiting(ms)->Ok_0 == all);
    assert(none =~= Seq::<Seq<char>>::empty());
    lemma_filter_all(all, outside_of(none));
    if calls.len() == 0 {
        assert(answered_between(ms, j + 1, j + 1 + calls.len()) =~= none);
        assert(none.to_set() =~= all.to_set());
    }
}

/// In a complete history the results of every message's calls stand right behind
/// it, one for each call, in whatever order; and every result belongs to such
/// a call.
pub proof fn law_complete_histories_answer_every_call(ms: Seq<MessageView>)
    requires
        complete(ms),
    ensures
        forall|j: int|
            0 <= j < ms.len() && (#[trigger] ms[j]) is Assistant ==> is_answered(ms, j),
        forall|t: int|
            0 <= t < ms.len() && (#[trigger] ms[t]) is Tool ==> exists|j: int|
                0 <= j < t && (#[trigger] ms[j]) is Assistant && call_ids(
                    ms[j]->Assistant_tool_calls,
                ).contains(ms[t]->Tool_call_id) && (forall|k: int|
                    j < k < t ==> (#[trigger] ms[k]) is Tool),
{
    lemma_sound(ms);
}

/// A fault stays: what follows a message that is out of place does not mend it.
pub proof fn law_faults_stay(a: Seq<MessageView>, b: Seq<MessageView>)
    requires
        awaiting(a) is Err,
    ensures
        awaiting(a + b) == awaiting(a),
    decreases b.len(),
{
    if b.len() == 0 {
        assert(a + b =~= a);
    } else {
        assert((a + b).drop_last() =~= a + b.drop_last());
        law_faults_stay(a, b.drop_last());
    }
}

/// Two complete histories make a complete one, and what the first awaits stays
/// the same in front of anything.
pub proof fn law_complete_histories_can_be_joined(a: Seq<MessageView>, b: Seq<MessageView>)
    requires
        complete(a),
    ensures
        awaiting(a + b) == awaiting(b),
        complete(a + b) <==> complete(b),
    decreases b.len(),
{
    if b.len() == 0 {
        assert(a + b =~= a);
        assert(awaiting(a)->Ok_0 =~= Seq::<Seq<char>>::empty());
    } else {
        assert((a + b).drop_last() =~= a + b.drop_last());
        law_complete_histories_can_be_joined(a, b.drop_last());
    }
}

/// While calls await their results, nothing else may follow; a result that no call
/// awaits is refused, and so is a second one for the same call.
pub proof fn law_only_results_follow_calls(
    ms: Seq<MessageView>,
    m: MessageView,
    pending: Seq<Seq<char>>,
)
    requires
        awaiting(ms) == Ok::<Seq<Seq<char>>, ContextFault>(pending),
    ensures
        pending.len() > 0 && !(m is Tool) ==> awaiting(ms.push(m)) is Err,
        m matches MessageView::Tool { call_id, .. } ==> !pending.contains(call_id) ==> awaiting(
            ms.push(m),
        ) == Err::<Seq<Seq<char>>, ContextFault>(ContextFault::OrphanResult(call_id)),
        m matches MessageView::Tool { call_id, .. } ==> pending.contains(call_id) ==> awaiting(
            ms.push(m),
        ) is Ok && awaiting(ms.push(m).push(m)) == Err::<Seq<Seq<char>>, ContextFault>(
            ContextFault::OrphanResult(call_id),
        ),
{
    assert(ms.push(m).drop_last() =~= ms);
    assert(ms.push(m).push(m).drop_last() =~= ms.push(m));
    if let MessageView::Tool { call_id, .. } = m {
        if pending.contains(call_id) {
            lemma_filter_contains(pending, other_than(call_id), call_id);
        }
    }
}

/// What the assistant said: the contents that hold more than white space.
pub open spec fn said(ms: Seq<MessageView>) -> Seq<Seq<char>>
    decreases ms.len(),
{
    if ms.len() == 0 {
        Seq::empty()
    } else {
        let before = said(ms.drop_last());
        match ms.last() {
            MessageView::Assistant { content: Some(text), .. } => if trim_spec(text).len() > 0 {
                before.push(text)
            } else {
                before
            },
            _ => before,
        }
    }
}

proof fn lemma_said_push(ms: Seq<MessageView>, m: MessageView)
    ensures
        said(ms.push(m)) == match m {
            MessageView::Assistant { content: Some(text), .. } => if trim_spec(text).len() > 0 {
                said(ms).push(text)
            } else {
                said(ms)
            },
            _ => said(ms),
        },
{
    assert(ms.push(m).drop_last() =~= ms);
}

/// Removing calls removes nothing of what the assistant said.
pub proof fn law_compaction_keeps_what_was_said(ms: Seq<MessageView>, sel: ToolSelector)
    ensures
        said(without_calls(ms, sel)) == said(ms),
    decreases ms.len(),
{
    if ms.len() > 0 {
        let front = ms.drop_last();
        let before = without_calls(front, sel);
        law_compaction_keeps_what_was_said(front, sel);
        match ms.last() {
            MessageView::Assistant { content, tool_calls } => {
                lemma_said_push(
                    before,
                    MessageView::Assistant { content, tool_calls: kept_calls(tool_calls, sel) },
                );
            },
            _ => {
                lemma_said_push(before, ms.last());
            },
        }
    }
}

pub open spec fn results_only(ms: Seq<MessageView>) -> Seq<MessageView> {
    ms.filter(|m: MessageView| m is Tool)
}

/// A result is kept as it is or removed, and a removed one is among those that
/// are handed back: the two together are all the results.
pub proof fn law_compaction_parts_the_results(ms: Seq<MessageView>, sel: ToolSelector)
    ensures
        results_only(without_calls(ms, sel)).len() + results_of(ms, sel).len() == results_only(
            ms,
        ).len(),
        forall|m: MessageView| #[trigger]
            results_only(without_calls(ms, sel)).contains(m) ==> results_only(ms).contains(m),
    decreases ms.len(),
{
    reveal(Seq::filter);
    let p = |m: MessageView| m is Tool;
    if ms.len() > 0 {
        let front = ms.drop_last();
        let before = without_calls(front, sel);
        let after = without_calls(ms, sel);
        law_compaction_parts_the_results(front, sel);
        if after.len() > 0 && after.drop_last() =~= before && after.len() == before.len() + 1 {
            assert(results_only(after) == if p(after.last()) {
                results_only(before).push(after.last())
            } else {
                results_only(before)
            });
        }
        assert(results_only(ms) == if p(ms.last()) {
            results_only(front).push(ms.last())
        } else {
            results_only(front)
        });
        assert forall|m: MessageView| #[trigger] results_only(after).contains(m) implies results_only(
            ms,
        ).contains(m) by {
            if results_only(before).contains(m) {
                assert(results_only(front).contains(m));
                let i = choose|i: int|
                    0 <= i < results_only(front).len() && results_only(front)[i] == m;
                assert(results_only(ms)[i] == m);
            } else {
                let i = choose|i: int| 0 <= i < results_only(after).len() && results_only(after)[i] == m;
                if i < results_only(before).len() {
                    assert(results_only(before)[i] == m);
                }
                assert(m == ms.last());
                assert(results_only(ms)[results_only(front).len() as int] == m);
            }
        }
    }
}

} // verus!
