//! What becomes of the permissions of tools.
use vstd::prelude::*;
use crate::agent::{blocked, chosen, entry_of, name_of, permission_in, with_permissions, with_remote, without_tools, AsteriaView};
use crate::agent_loop::{permitted, without_tool};
use crate::mcp::manager::{ManagerView, McpServerState};
use crate::mcp::tool::AdapterView;
use crate::permission::ToolPermission;
use crate::session_laws::law_permissions_are_kept_once;
use crate::tools::registry::{names_distinct, position, sorted_permissions, ToolEntry};
use crate::tools::registry_laws::{law_missing_tools_are_not_found, law_permissions_are_listed_by_name, law_registering_changes_one_tool, law_the_first_tool_of_a_name_is_found, tool_of};

verus! {

/// The first entry of a list for a tool counts.
pub proof fn law_the_first_permission_counts(
    list: Seq<(Seq<char>, ToolPermission)>,
    name: Seq<char>,
    k: int,
)
    requires
        0 <= k < list.len(),
        list[k].0 == name,
        forall|i: int| 0 <= i < k ==> (#[trigger] list[i]).0 != name,
    ensures
        permission_in(list, name) == Some(list[k].1),
    decreases list.len(),
{
    let front = list.drop_last();
    assert forall|i: int| 0 <= i < k implies (#[trigger] front[i]).0 != name by {
        assert(front[i] == list[i]);
    }
    if k < front.len() {
        law_the_first_permission_counts(front, name, k);
    } else {
        lemma_no_permission(front, name);
    }
}

proof fn lemma_no_permission(list: Seq<(Seq<char>, ToolPermission)>, name: Seq<char>)
    requires
        forall|i: int| 0 <= i < list.len() ==> (#[trigger] list[i]).0 != name,
    ensures
        permission_in(list, name) is None,
    decreases list.len(),
{
    if list.len() > 0 {
        let front = list.drop_last();
        assert(list[list.len() - 1].0 != name);
        assert forall|i: int| 0 <= i < front.len() implies (#[trigger] front[i]).0 != name by {
            assert(front[i] == list[i]);
        }
        lemma_no_permission(front, name);
    }
}

proof fn lemma_permitted(
    tools: Seq<ToolEntry>,
    name: Seq<char>,
    permission: ToolPermission,
    other: Seq<char>,
)
    ensures
        permitted(tools, name, permission).len() == tools.len(),
        forall|i: int|
            0 <= i < tools.len() ==> (#[trigger] permitted(tools, name, permission)[i]).name
                == tools[i].name && permitted(tools, name, permission)[i].schema == tools[i].schema,
        other != name ==> tool_of(permitted(tools, name, permission), other) == tool_of(
            tools,
            other,
        ),
        tool_of(tools, name) is Some ==> tool_of(permitted(tools, name, permission), name) == Some(
            ToolEntry { permission, ..tool_of(tools, name)->0 },
        ),
        tool_of(tools, name) is None ==> permitted(tools, name, permission) == tools,
{
    let after = permitted(tools, name, permission);
    law_missing_tools_are_not_found(tools, name);
    law_missing_tools_are_not_found(tools, other);
    if let Some(i) = position(tools, name) {
        assert forall|j: int| 0 <= j < i implies (#[trigger] after[j]).name != name by {
            assert(tools[j].name != name);
        }
        law_the_first_tool_of_a_name_is_found(after, name, i);
    }
    match position(tools, other) {
        Some(k) => {
            assert forall|j: int| 0 <= j < k implies (#[trigger] after[j]).name != other by {
                assert(tools[j].name != other);
            }
            law_the_first_tool_of_a_name_is_found(after, other, k);
        },
        None => {
            assert forall|j: int| 0 <= j < after.len() implies (#[trigger] after[j]).name
                != other by {
                assert(tools[j].name != other);
            }
            law_missing_tools_are_not_found(after, other);
        },
    }
}

/// Giving permissions to tools changes nothing but permissions: a tool has that
/// of the last entry for it, and one without an entry keeps its own.
pub proof fn law_the_last_permission_is_given(
    tools: Seq<ToolEntry>,
    list: Seq<(Seq<char>, ToolPermission)>,
    name: Seq<char>,
)
    ensures
        with_permissions(tools, list).len() == tools.len(),
        forall|i: int|
            0 <= i < tools.len() ==> (#[trigger] with_permissions(tools, list)[i]).name
                == tools[i].name && with_permissions(tools, list)[i].schema == tools[i].schema,
        (forall|i: int| 0 <= i < list.len() ==> (#[trigger] list[i]).0 != name) ==> tool_of(
            with_permissions(tools, list),
            name,
        ) == tool_of(tools, name),
        forall|k: int|
            0 <= k < list.len() && (#[trigger] list[k]).0 == name && (forall|i: int|
                k < i < list.len() ==> (#[trigger] list[i]).0 != name) && tool_of(tools, name) is Some
                ==> tool_of(with_permissions(tools, list), name) == Some(
                ToolEntry { permission: list[k].1, ..tool_of(tools, name)->0 },
            ),
        tool_of(with_permissions(tools, list), name) is Some <==> tool_of(tools, name) is Some,
        tool_of(tools, name) is Some ==> tool_of(with_permissions(tools, list), name)->0
            == (ToolEntry {
            permission: tool_of(with_permissions(tools, list), name)->0.permission,
            ..tool_of(tools, name)->0
        }),
    decreases list.len(),
{
    if list.len() > 0 {
        let front = list.drop_last();
        let before = with_permissions(tools, front);
        let last = list.len() - 1;
        law_the_last_permission_is_given(tools, front, name);
        lemma_permitted(before, list.last().0, list.last().1, name);
        assert forall|i: int| 0 <= i < tools.len() implies (#[trigger] with_permissions(
            tools,
            list,
        )[i]).name == tools[i].name && with_permissions(tools, list)[i].schema
            == tools[i].schema by {
            assert(before[i].name == tools[i].name);
        }
        if forall|i: int| 0 <= i < list.len() ==> (#[trigger] list[i]).0 != name {
            assert(list[last].0 != name);
            assert forall|i: int| 0 <= i < front.len() implies (#[trigger] front[i]).0 != name by {
                assert(list[i].0 != name);
            }
        }
        assert forall|k: int|
            0 <= k < list.len() && (#[trigger] list[k]).0 == name && (forall|i: int|
                k < i < list.len() ==> (#[trigger] list[i]).0 != name) && tool_of(
                tools,
                name,
            ) is Some implies tool_of(with_permissions(tools, list), name) == Some(
            ToolEntry { permission: list[k].1, ..tool_of(tools, name)->0 },
        ) by {
            if k < last {
                assert(list[last].0 != name);
                assert(front[k] == list[k]);
                assert forall|i: int| k < i < front.len() implies (#[trigger] front[i]).0
                    != name by {
                    assert(list[i].0 != name);
                }
            }
        }
    }
}

/// A remote tool is registered with the permission that it had, or that of the
/// session that was restored, or has to ask; tools of other names stay.
pub proof fn law_remote_tools_keep_their_permission(
    tools: Seq<ToolEntry>,
    list: Seq<AdapterView>,
    current: Seq<ToolEntry>,
    restored: Seq<(Seq<char>, ToolPermission)>,
    name: Seq<char>,
)
    ensures
        (forall|i: int| 0 <= i < list.len() ==> name_of(#[trigger] list[i]) != name) ==> tool_of(
            with_remote(tools, list, current, restored),
            name,
        ) == tool_of(tools, name),
        (exists|i: int| 0 <= i < list.len() && name_of(#[trigger] list[i]) == name) ==> (tool_of(
            with_remote(tools, list, current, restored),
            name,
        ) matches Some(t) && t.name == name && t.permission == match tool_of(current, name) {
            Some(c) => c.permission,
            None => match permission_in(restored, name) {
                Some(p) => p,
                None => ToolPermission::Ask,
            },
        }),
    decreases list.len(),
{
    if list.len() > 0 {
        let front = list.drop_last();
        let before = with_remote(tools, front, current, restored);
        let last = list.last();
        let n = list.len() - 1;
        law_remote_tools_keep_their_permission(tools, front, current, restored, name);
        law_registering_changes_one_tool(
            before,
            entry_of(last, chosen(current, restored, name_of(last))),
            name,
        );
        if forall|i: int| 0 <= i < list.len() ==> name_of(#[trigger] list[i]) != name {
            assert(name_of(list[n]) != name);
            assert forall|i: int| 0 <= i < front.len() implies name_of(#[trigger] front[i])
                != name by {
                assert(name_of(list[i]) != name);
            }
        }
        if exists|i: int| 0 <= i < list.len() && name_of(#[trigger] list[i]) == name {
            let i = choose|i: int| 0 <= i < list.len() && name_of(#[trigger] list[i]) == name;
            if i < n {
                assert(front[i] == list[i]);
            }
        }
    }
}

proof fn lemma_one_taken_out(tools: Seq<ToolEntry>, name: Seq<char>, other: Seq<char>)
    requires
        names_distinct(tools),
    ensures
        names_distinct(without_tool(tools, name)),
        tool_of(without_tool(tools, name), name) is None,
        other != name ==> tool_of(without_tool(tools, name), other) == tool_of(tools, other),
{
    let after = without_tool(tools, name);
    law_missing_tools_are_not_found(tools, name);
    law_missing_tools_are_not_found(tools, other);
    if let Some(i) = position(tools, name) {
        assert forall|a: int| 0 <= a < after.len() implies #[trigger] after[a] == tools[if a < i {
            a
        } else {
            a + 1
        }] by {}
        assert forall|a: int, b: int| 0 <= a < b < after.len() implies (#[trigger] after[a]).name
            != (#[trigger] after[b]).name by {
            let (x, y) = (
                if a < i {
                    a
                } else {
                    a + 1
                },
                if b < i {
                    b
                } else {
                    b + 1
                },
            );
            assert(tools[x].name != tools[y].name);
        }
        assert forall|a: int| 0 <= a < after.len() implies (#[trigger] after[a]).name != name by {
            if a < i {
                assert(tools[a].name != tools[i].name);
            } else {
                assert(tools[i].name != tools[a + 1].name);
            }
        }
        law_missing_tools_are_not_found(after, name);
        if other != name {
            match position(tools, other) {
                Some(k) => {
                    let at = if k < i {
                        k
                    } else {
                        k - 1
                    };
                    assert(after[at] == tools[k]);
                    assert forall|j: int| 0 <= j < at implies (#[trigger] after[j]).name != other by {
                        if j < i {
                            assert(tools[j].name != other);
                        } else {
                            assert(tools[j + 1].name != other);
                        }
                    }
                    law_the_first_tool_of_a_name_is_found(after, other, at);
                },
                None => {
                    assert forall|j: int| 0 <= j < after.len() implies (#[trigger] after[j]).name
                        != other by {
                        if j < i {
                            assert(tools[j].name != other);
                        } else {
                            assert(tools[j + 1].name != other);
                        }
                    }
                    law_missing_tools_are_not_found(after, other);
                },
            }
        }
    }
}

/// Tools that are taken out are gone, and all others stay as they are.
pub proof fn law_only_the_named_tools_are_taken_out(
    tools: Seq<ToolEntry>,
    names: Seq<Seq<char>>,
    name: Seq<char>,
)
    requires
        names_distinct(tools),
    ensures
        names_distinct(without_tools(tools, names)),
        tool_of(without_tools(tools, names), name) == if names.contains(name) {
            None
        } else {
            tool_of(tools, name)
        },
    decreases names.len(),
{
    if names.len() > 0 {
        let front = names.drop_last();
        law_only_the_named_tools_are_taken_out(tools, front, name);
        lemma_one_taken_out(without_tools(tools, front), names.last(), name);
        if front.contains(name) {
            let i = choose|i: int| 0 <= i < front.len() && front[i] == name;
            assert(names[i] == name);
        }
        if names.contains(name) {
            let i = choose|i: int| 0 <= i < names.len() && names[i] == name;
            if i < front.len() {
                assert(front[i] == name);
            }
        }
        if names.last() == name {
            assert(names[names.len() - 1] == name);
        }
    }
}

/// Servers are refused exactly where one of them failed; one that only asks for
/// signing in is none that failed.
pub proof fn law_only_failures_refuse(m: ManagerView)
    ensures
        blocked(m) <==> exists|i: int|
            0 <= i < m.statuses.len() && (#[trigger] m.statuses[i]).state == McpServerState::Failed,
        (forall|i: int|
            0 <= i < m.statuses.len() ==> (#[trigger] m.statuses[i]).state
                != McpServerState::Failed) ==> !blocked(m),
{
}

/// The session keeps the permissions of all tools, and of no others.
pub proof fn law_sessions_keep_all_permissions(
    a: AsteriaView,
    tools: Seq<ToolEntry>,
    i: int,
    j: int,
)
    requires
        0 <= i < tools.len(),
        0 <= j < a.with_kept_tools(tools).session.state.permissions.len(),
    ensures
        a.with_kept_tools(tools).tools() == tools,
        exists|k: int|
            0 <= k < a.with_kept_tools(tools).session.state.permissions.len() && (
            #[trigger] a.with_kept_tools(tools).session.state.permissions[k]).0 == tools[i].name,
        exists|k: int|
            0 <= k < tools.len() && (
                (#[trigger] tools[k]).name,
                tools[k].permission,
            ) == a.with_kept_tools(tools).session.state.permissions[j],
        a.with_kept_tools(tools).memory == a.memory,
        a.with_kept_tools(tools).session.state.usage == a.session.state.usage,
{
    broadcast use vstd::seq_lib::group_to_multiset_ensures;

    let list = sorted_permissions(tools);
    let f = |t: ToolEntry| (t.name, t.permission);
    let all = tools.map_values(f);
    law_permissions_are_listed_by_name(tools);
    law_permissions_are_kept_once(a.session.state, list);
    let kept = a.session.state.with_permissions(list).permissions;
    assert(a.with_kept_tools(tools).session.state.permissions == kept);
    let mine = f(tools[i]);
    assert(all[i] == mine);
    assert(all.contains(mine));
    assert(all.to_multiset().contains(mine));
    assert(list.to_multiset().contains(mine));
    assert(list.contains(mine));
    let at = choose|at: int| 0 <= at < list.len() && list[at] == mine;
    assert(list[at].0 == tools[i].name);
    let k = choose|k: int|
        0 <= k < a.session.state.with_permissions(list).permissions.len() && (
        #[trigger] a.session.state.with_permissions(list).permissions[k]).0 == list[at].0;
    assert(a.with_kept_tools(tools).session.state.permissions[k].0 == tools[i].name);
    let x = kept[j];
    assert(kept.contains(x));
    assert(list.contains(x));
    assert(list.to_multiset().contains(x));
    assert(all.to_multiset().contains(x));
    assert(all.contains(x));
    let m = choose|m: int| 0 <= m < all.len() && all[m] == x;
    assert(f(tools[m]) == x);
}

} // verus!
