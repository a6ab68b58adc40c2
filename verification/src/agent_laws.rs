//! What the assistant keeps from turn to turn.
use vstd::prelude::*;
use crate::agent::{chosen, entry_of, name_of, remote_tools, search_tool, with_remote, without_tools, AsteriaView};
use crate::agent_loop::{without_tool, World};
use crate::agent_loop_laws::asks_once;
use crate::context::{compacted, compaction_fault, complete, picked_ids, without_calls, ToolSelector};
use crate::context_laws::{law_compaction_keeps_prefix, law_compaction_removes_all_and_is_idempotent, law_compaction_stays_complete, law_compactions_add_up};
use crate::mcp::manager::ManagerView;
use crate::mcp::tool::AdapterView;
use crate::message::MessageView;
use crate::permission::ToolPermission;
use crate::provider::turn::TokenUsage;
use crate::session::{empty_replay, law_completed_turn_is_read_back, one_question, opens_turn, turn_records, ContextRecordView};
use crate::tools::registry::{lemma_position, named_otherwise, names_distinct, position, with_tool, ToolEntry};

verus! {

/// Settling a completed turn leaves a complete history: earlier messages stay
/// as they are, and no exchange of the turn with the knowledge base or with
/// remote tools is left.
pub proof fn law_settled_history_is_complete(a: AsteriaView)
    requires
        a.state.checkpoint <= a.memory.messages.len(),
        complete(a.memory.messages),
        complete(a.memory.messages.take(a.state.checkpoint as int)),
    ensures
        complete(a.settled().memory.messages),
        a.settled().memory.messages.take(a.state.checkpoint as int) == a.memory.messages.take(
            a.state.checkpoint as int,
        ),
        picked_ids(
            a.settled().memory.messages.skip(a.state.checkpoint as int),
            remote_tools(),
        ).len() == 0,
        picked_ids(
            a.settled().memory.messages.skip(a.state.checkpoint as int),
            search_tool(),
        ).len() == 0,
{
    let at = a.state.checkpoint as int;
    let ms = a.memory.messages;
    law_compaction_stays_complete(ms, at, search_tool());
    law_compaction_keeps_prefix(ms, at, search_tool());
    law_compaction_removes_all_and_is_idempotent(ms, at, search_tool());
    let first = compacted(ms, at, search_tool());
    law_compaction_stays_complete(first, at, remote_tools());
    law_compaction_keeps_prefix(first, at, remote_tools());
    law_compaction_removes_all_and_is_idempotent(first, at, remote_tools());
    law_compactions_add_up(first, at, search_tool(), remote_tools());
}

proof fn lemma_compaction_keeps_the_question(tail: Seq<MessageView>, sel: ToolSelector)
    requires
        opens_turn(tail),
        one_question(tail),
    ensures
        opens_turn(without_calls(tail, sel)),
        one_question(without_calls(tail, sel)),
    decreases tail.len(),
{
    let front = tail.drop_last();
    let shorter = without_calls(front, sel);
    assert(tail[tail.len() - 1] == tail.last());
    if tail.len() == 1 {
        assert(front =~= Seq::empty());
        assert(without_calls(tail, sel) =~= seq![tail.last()]);
    } else {
        assert(front[0] == tail[0]);
        assert forall|i: int| 0 < i < front.len() implies !((#[trigger] front[i]) is User) by {
            assert(front[i] == tail[i]);
        }
        lemma_compaction_keeps_the_question(front, sel);
        let after = without_calls(tail, sel);
        assert forall|i: int| 0 < i < after.len() implies !((#[trigger] after[i]) is User) by {
            if i < shorter.len() {
                assert(after[i] == shorter[i]);
            }
        }
        assert(after[0] == shorter[0]);
    }
}

proof fn lemma_cleared_keeps_the_question(a: AsteriaView, sel: ToolSelector)
    requires
        asks_once(World { state: a.state, memory: a.memory }),
    ensures
        a.cleared(sel).state == a.state,
        asks_once(World { state: a.cleared(sel).state, memory: a.cleared(sel).memory }),
{
    let at = a.state.checkpoint as int;
    let ms = a.memory.messages;
    let tail = ms.skip(at);
    if compaction_fault(ms, at, sel) is None && picked_ids(tail, sel).len() > 0 {
        lemma_compaction_keeps_the_question(tail, sel);
        assert(compacted(ms, at, sel).skip(at) =~= without_calls(tail, sel));
    }
}

/// What is written of a turn that was completed is read back whole when the
/// session is continued, behind the complete turns before it and without what
/// a turn left that was never completed.
pub proof fn law_settled_turn_is_read_back(
    a: AsteriaView,
    records: Seq<ContextRecordView>,
    turn_id: u64,
    usage: TokenUsage,
)
    requires
        asks_once(World { state: a.state, memory: a.memory }),
    ensures
        ({
            let turn = a.settled().memory.messages.skip(a.state.checkpoint as int);
            empty_replay().take_all(records + turn_records(turn, turn_id, usage)).messages
                == empty_replay().take_all(records).messages + turn
        }),
{
    lemma_cleared_keeps_the_question(a, search_tool());
    let first = a.cleared(search_tool());
    lemma_cleared_keeps_the_question(first, remote_tools());
    law_completed_turn_is_read_back(
        records,
        first.cleared(remote_tools()).memory.messages.skip(a.state.checkpoint as int),
        turn_id,
        usage,
    );
}

proof fn lemma_without_tool(tools: Seq<ToolEntry>, name: Seq<char>)
    requires
        names_distinct(tools),
    ensures
        names_distinct(without_tool(tools, name)),
        position(without_tool(tools, name), name) is None,
        forall|other: Seq<char>|
            position(tools, other) is None ==> #[trigger] position(
                without_tool(tools, name),
                other,
            ) is None,
{
    lemma_position(tools, name);
    let after = without_tool(tools, name);
    match position(tools, name) {
        None => {},
        Some(k) => {
            assert(forall|i: int|
                0 <= i < after.len() ==> #[trigger] after[i] == tools[if i < k {
                    i
                } else {
                    i + 1
                }]);
            assert forall|i: int, j: int| 0 <= i < j < after.len() implies (#[trigger] after[i]).name
                != (#[trigger] after[j]).name by {
                let p = if i < k {
                    i
                } else {
                    i + 1
                };
                let q = if j < k {
                    j
                } else {
                    j + 1
                };
                assert(tools[p].name != tools[q].name);
            }
            lemma_position(after, name);
            if let Some(i) = position(after, name) {
                let p = if i < k {
                    i
                } else {
                    i + 1
                };
                assert(after[i] == tools[p]);
                if p < k {
                    assert(tools[p].name != tools[k].name);
                } else {
                    assert(tools[k].name != tools[p].name);
                }
            }
            assert forall|other: Seq<char>| position(tools, other) is None implies #[trigger] position(
                after,
                other,
            ) is None by {
                lemma_position(tools, other);
                lemma_position(after, other);
                if let Some(i) = position(after, other) {
                    let p = if i < k {
                        i
                    } else {
                        i + 1
                    };
                    assert(after[i] == tools[p]);
                    assert(tools[p].name != other);
                }
            }
        },
    }
}

proof fn lemma_without_tools(tools: Seq<ToolEntry>, names: Seq<Seq<char>>)
    requires
        names_distinct(tools),
    ensures
        names_distinct(without_tools(tools, names)),
        forall|name: Seq<char>|
            names.contains(name) ==> #[trigger] position(without_tools(tools, names), name) is None,
    decreases names.len(),
{
    if names.len() > 0 {
        let front = names.drop_last();
        lemma_without_tools(tools, front);
        let before = without_tools(tools, front);
        lemma_without_tool(before, names.last());
        assert forall|name: Seq<char>| names.contains(name) implies #[trigger] position(
            without_tools(tools, names),
            name,
        ) is None by {
            if name != names.last() {
                let i = choose|i: int| 0 <= i < names.len() && names[i] == name;
                assert(front[i] == name);
                assert(front.contains(name));
                assert(position(before, name) is None);
            }
        }
    }
}

/// Once a server is disconnected, none of the tools that it offered can be
/// called any more.
pub proof fn law_disconnected_tools_are_gone(a: AsteriaView, server: Seq<char>, name: Seq<char>)
    requires
        a.disconnect_fault(server) is None,
        names_distinct(a.tools()),
        a.offered(server).contains(name),
    ensures
        position(a.disconnect(server).tools(), name) is None,
{
    lemma_without_tools(a.tools(), a.offered(server));
}

proof fn lemma_with_remote(
    tools: Seq<ToolEntry>,
    list: Seq<AdapterView>,
    current: Seq<ToolEntry>,
    restored: Seq<(Seq<char>, ToolPermission)>,
    i: int,
)
    requires
        0 <= i < list.len(),
        names_distinct(tools),
    ensures
        names_distinct(with_remote(tools, list, current, restored)),
        match position(with_remote(tools, list, current, restored), name_of(list[i])) {
            Some(k) => with_remote(tools, list, current, restored)[k].permission == chosen(
                current,
                restored,
                name_of(list[i]),
            ),
            None => false,
        },
    decreases list.len(),
{
    let front = list.drop_last();
    let before = with_remote(tools, front, current, restored);
    let entry = entry_of(list.last(), chosen(current, restored, name_of(list.last())));
    if front.len() > 0 {
        let j = if i < front.len() {
            i
        } else {
            0
        };
        lemma_with_remote(tools, front, current, restored, j);
    }
    crate::tools::registry::law_registration_keeps_names_distinct(before, entry);
    let after = with_tool(before, entry);
    if i < front.len() && name_of(list[i]) != entry.name {
        let name = name_of(list[i]);
        assert(front[i] == list[i]);
        lemma_position(before, name);
        lemma_position(before, entry.name);
        lemma_position(after, name);
        let k = position(before, name)->0;
        assert(after[k] == before[k]);
        assert(position(after, name) is Some);
        let m = position(after, name)->0;
        assert(m == k) by {
            if m < k {
                assert(after[m].name != after[k].name);
            } else if k < m {
                assert(after[k].name != after[m].name);
            }
        }
    }
}

/// Reloading the servers keeps the permission of every remote tool that is
/// offered again; a tool that is new has to ask, unless the session that was
/// restored says otherwise.
pub proof fn law_reload_keeps_permissions(
    a: AsteriaView,
    loaded: ManagerView,
    list: Seq<AdapterView>,
    i: int,
)
    requires
        names_distinct(a.tools()),
        0 <= i < list.len(),
    ensures
        match position(a.reload(loaded, list).tools(), name_of(list[i])) {
            Some(k) => a.reload(loaded, list).tools()[k].permission == chosen(
                a.tools(),
                a.restored,
                name_of(list[i]),
            ),
            None => false,
        },
{
    let kept = a.tools().filter(named_otherwise("mcp__"@));
    lemma_filter_names(a.tools(), named_otherwise("mcp__"@));
    lemma_with_remote(kept, list, a.tools(), a.restored, i);
}

proof fn lemma_filter_names(tools: Seq<ToolEntry>, p: spec_fn(ToolEntry) -> bool)
    requires
        names_distinct(tools),
    ensures
        names_distinct(tools.filter(p)),
    decreases tools.len(),
{
    reveal(Seq::filter);
    if tools.len() > 0 {
        let front = tools.drop_last();
        assert(names_distinct(front)) by {
            assert forall|i: int, j: int| 0 <= i < j < front.len() implies (#[trigger] front[i]).name
                != (#[trigger] front[j]).name by {
                assert(tools[i].name != tools[j].name);
            }
        }
        lemma_filter_names(front, p);
        if p(tools.last()) {
            let kept = front.filter(p);
            let all = tools.filter(p);
            assert(all == kept.push(tools.last()));
            assert forall|i: int, j: int| 0 <= i < j < all.len() implies (#[trigger] all[i]).name
                != (#[trigger] all[j]).name by {
                if j == kept.len() {
                    assert(kept.contains(kept[i]));
                    crate::seqs::lemma_filter_contains(front, p, kept[i]);
                    let k = choose|k: int| 0 <= k < front.len() && front[k] == kept[i];
                    assert(tools[k].name != tools[tools.len() - 1].name);
                } else {
                    assert(kept[i].name != kept[j].name);
                }
            }
        }
    }
}

} // verus!
