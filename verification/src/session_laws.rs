//! What a session adds up to.
use vstd::prelude::*;
use crate::events::TraceView;
use crate::path_laws::{is_name, law_extensions_are_replaced, law_file_names_come_last, law_names_are_stem_and_extension, law_paths_end_with_their_name};
use crate::paths::{file_name_spec, stem_and_extension, text_order, within_spec, Order};
use crate::permission::ToolPermission;
use crate::provider::turn::TokenUsage;
use crate::session::{audit_records, empty_replay, in_name_order, locations_spec, paths_in, restored, traces_of, without_repeats, ContextRecordView, LegacyView, MigrationView, Replay, StateView, TraceRecordView};
use crate::text::laws::law_text_order_is_total;
use crate::tools::registry_laws::{lemma_insert_name, permissions_in_order};

verus! {

/// Usages are added number by number.
pub proof fn law_usages_add_up(a: TokenUsage, b: TokenUsage)
    ensures
        a.plus(b) == b.plus(a),
        a.prompt_tokens + b.prompt_tokens <= usize::MAX ==> a.plus(b).prompt_tokens
            == a.prompt_tokens + b.prompt_tokens,
        a.completion_tokens + b.completion_tokens <= usize::MAX ==> a.plus(b).completion_tokens
            == a.completion_tokens + b.completion_tokens,
        a.total_tokens + b.total_tokens <= usize::MAX ==> a.plus(b).total_tokens == a.total_tokens
            + b.total_tokens,
        a.prompt_tokens + b.prompt_tokens > usize::MAX ==> a.plus(b).prompt_tokens == usize::MAX,
{
}

proof fn lemma_in_name_order(list: Seq<(Seq<char>, ToolPermission)>)
    ensures
        permissions_in_order(in_name_order(list)),
        in_name_order(list).to_multiset() == list.to_multiset(),
    decreases list.len(),
{
    broadcast use vstd::seq_lib::group_to_multiset_ensures;

    if list.len() > 0 {
        let front = list.drop_last();
        lemma_in_name_order(front);
        lemma_insert_name(in_name_order(front), list.last());
        assert(list =~= front.push(list.last()));
    } else {
        assert(list =~= Seq::empty());
    }
}

pub open spec fn names_ascend(s: Seq<(Seq<char>, ToolPermission)>) -> bool {
    forall|i: int, j: int|
        #![trigger s[i], s[j]]
        0 <= i < j < s.len() ==> text_order(s[i].0, s[j].0) == Order::Less
}

proof fn lemma_without_repeats(s: Seq<(Seq<char>, ToolPermission)>)
    requires
        permissions_in_order(s),
    ensures
        names_ascend(without_repeats(s)),
        forall|x: (Seq<char>, ToolPermission)| #[trigger]
            without_repeats(s).contains(x) ==> s.contains(x),
        forall|i: int|
            0 <= i < s.len() ==> exists|j: int|
                0 <= j < without_repeats(s).len() && (#[trigger] without_repeats(s)[j]).0 == (
                #[trigger] s[i]).0,
        s.len() > 0 ==> without_repeats(s).len() > 0 && without_repeats(s).last().0 == s.last().0,
    decreases s.len(),
{
    if s.len() > 0 {
        let front = s.drop_last();
        let before = without_repeats(front);
        let r = without_repeats(s);
        let last = s.len() - 1;
        assert forall|i: int, j: int|
            #![trigger front[i], front[j]]
            0 <= i < j < front.len() implies text_order(front[j].0, front[i].0) != Order::Less by {
            assert(front[i] == s[i] && front[j] == s[j]);
        }
        lemma_without_repeats(front);
        assert forall|x: (Seq<char>, ToolPermission)| #[trigger] r.contains(x) implies s.contains(
            x,
        ) by {
            let j = choose|j: int| 0 <= j < r.len() && r[j] == x;
            if j < before.len() {
                assert(before[j] == x);
                assert(before.contains(x));
                let k = choose|k: int| 0 <= k < front.len() && front[k] == x;
                assert(s[k] == x);
            } else {
                assert(s[last] == x);
            }
        }
        assert forall|i: int| 0 <= i < s.len() implies exists|j: int|
            0 <= j < r.len() && (#[trigger] r[j]).0 == (#[trigger] s[i]).0 by {
            if i < last {
                assert(front[i] == s[i]);
                let j = choose|j: int| 0 <= j < before.len() && (#[trigger] before[j]).0 == front[i].0;
                assert(r[j] == before[j]);
            } else {
                assert(r[r.len() - 1].0 == s[i].0);
            }
        }
        assert forall|i: int, j: int|
            #![trigger r[i], r[j]]
            0 <= i < j < r.len() implies text_order(r[i].0, r[j].0) == Order::Less by {
            assert(r[i] == before[i]);
            if j < before.len() {
                assert(r[j] == before[j]);
            } else {
                assert(before.last().0 != s.last().0);
                assert(front.last() == s[last - 1]);
                let (a, b) = (before.last().0, s.last().0);
                assert(text_order(s[last].0, s[last - 1].0) != Order::Less);
                law_text_order_is_total(a, b);
                law_text_order_is_total(b, a);
                assert(text_order(a, b) == Order::Less);
                if i < before.len() - 1 {
                    assert(text_order(before[i].0, before[before.len() - 1].0) == Order::Less);
                    lemma_less_twice(before[i].0, a, b);
                }
            }
        }
    }
}

proof fn lemma_less_twice(a: Seq<char>, b: Seq<char>, c: Seq<char>)
    requires
        text_order(a, b) == Order::Less,
        text_order(b, c) == Order::Less,
    ensures
        text_order(a, c) == Order::Less,
{
    law_text_order_is_total(a, b);
    law_text_order_is_total(b, a);
    law_text_order_is_total(b, c);
    law_text_order_is_total(c, b);
    law_text_order_is_total(a, c);
    law_text_order_is_total(c, a);
    crate::text::laws::law_text_order_is_transitive(a, b, c);
    if a == c {
        assert(text_order(b, a) == Order::Less);
    }
}

/// The permissions that are kept with a session stand in the order of the names,
/// each name once; every name of the list is among them, and each permission is
/// one of the list. Nothing else of the state changes.
pub proof fn law_permissions_are_kept_once(
    s: StateView,
    list: Seq<(Seq<char>, ToolPermission)>,
)
    ensures
        names_ascend(s.with_permissions(list).permissions),
        forall|x: (Seq<char>, ToolPermission)| #[trigger]
            s.with_permissions(list).permissions.contains(x) ==> list.contains(x),
        forall|i: int|
            0 <= i < list.len() ==> exists|j: int|
                0 <= j < s.with_permissions(list).permissions.len() && (
                #[trigger] s.with_permissions(list).permissions[j]).0 == (#[trigger] list[i]).0,
        s.with_permissions(list).usage == s.usage,
        s.with_permissions(list).next_turn_id == s.next_turn_id,
        s.with_permissions(list).version == s.version,
{
    broadcast use vstd::seq_lib::group_to_multiset_ensures;

    let sorted = in_name_order(list);
    lemma_in_name_order(list);
    lemma_without_repeats(sorted);
    let kept = without_repeats(sorted);
    assert forall|x: (Seq<char>, ToolPermission)| #[trigger] kept.contains(x) implies list.contains(
        x,
    ) by {
        assert(sorted.contains(x));
        assert(sorted.to_multiset().contains(x));
        assert(list.to_multiset().contains(x));
    }
    assert forall|i: int| 0 <= i < list.len() implies exists|j: int|
        0 <= j < kept.len() && (#[trigger] kept[j]).0 == (#[trigger] list[i]).0 by {
        assert(list.contains(list[i]));
        assert(list.to_multiset().contains(list[i]));
        assert(sorted.to_multiset().contains(list[i]));
        assert(sorted.contains(list[i]));
        let k = choose|k: int| 0 <= k < sorted.len() && sorted[k] == list[i];
        assert(sorted[k].0 == list[i].0);
    }
    assert(s.with_permissions(list).permissions == kept);
    assert forall|i: int| 0 <= i < list.len() implies exists|j: int|
        0 <= j < s.with_permissions(list).permissions.len() && (
        #[trigger] s.with_permissions(list).permissions[j]).0 == (#[trigger] list[i]).0 by {
        let j = choose|j: int| 0 <= j < kept.len() && (#[trigger] kept[j]).0 == list[i].0;
        assert(s.with_permissions(list).permissions[j].0 == list[i].0);
    }
}

/// The records of tool calls are handed back in their order, all of them or those
/// of one turn.
pub proof fn law_tool_records_are_found_by_turn(
    records: Seq<TraceRecordView>,
    turn_id: Option<u64>,
)
    ensures
        traces_of(records, turn_id) == records.filter(
            |r: TraceRecordView|
                r matches TraceRecordView::Tool(t) && (turn_id is None || turn_id == Some(t.turn_id)),
        ).map_values(|r: TraceRecordView| r->Tool_0),
    decreases records.len(),
{
    reveal(Seq::filter);
    let p = |r: TraceRecordView|
        r matches TraceRecordView::Tool(t) && (turn_id is None || turn_id == Some(t.turn_id));
    let f = |r: TraceRecordView| r->Tool_0;
    if records.len() == 0 {
        assert(records.filter(p).map_values(f) =~= Seq::<TraceView>::empty());
    } else {
        let front = records.drop_last();
        law_tool_records_are_found_by_turn(front, turn_id);
        if p(records.last()) {
            assert(front.filter(p).push(records.last()).map_values(f) =~= front.filter(
                p,
            ).map_values(f).push(f(records.last())));
        }
    }
}

/// The state that is taken over agrees with what the records taken over add up
/// to.
pub open spec fn agrees(m: MigrationView) -> bool {
    let r = empty_replay().take_all(m.context);
    r.next_turn_id == m.state.next_turn_id && r.usage == m.state.usage
}

/// Taking over a record of an older session keeps the state in agreement with the
/// records, and loses no record: each goes to the context, to the trace or to the
/// permissions.
pub proof fn law_older_records_are_all_taken_over(m: MigrationView, r: LegacyView)
    ensures
        agrees(m) ==> agrees(m.take(r)),
        m.take(r).context.len() + m.take(r).trace.len() == m.context.len() + m.trace.len()
            + if r is PermissionChanged {
            0int
        } else {
            1
        },
        r matches LegacyView::PermissionChanged(tool, permission)
            ==> m.take(r).state.permissions.contains((tool, permission)),
        r matches LegacyView::Message(x) ==> m.take(r).context.last() == ContextRecordView::Message(
            x,
        ),
        m.context.is_prefix_of(m.take(r).context),
        m.trace.is_prefix_of(m.take(r).trace),
{
    let after = m.take(r);
    match r {
        LegacyView::Message(x) => {
            assert(after.context.drop_last() =~= m.context);
        },
        LegacyView::TurnCompleted(_, _) => {
            assert(after.context.drop_last() =~= m.context);
        },
        LegacyView::PermissionChanged(tool, permission) => {
            let list = after.state.permissions;
            assert(list[list.len() - 1] == (tool, permission));
        },
        _ => {},
    }
}

/// A session goes on with the number behind the last turn, from the records or the
/// state, whichever is later, with the messages of complete turns and the
/// permissions of the state.
pub proof fn law_sessions_go_on_where_they_ended(prompt: Seq<char>, s: StateView, r: Replay)
    ensures
        restored(prompt, s, r).next_turn_id >= r.next_turn_id,
        restored(prompt, s, r).next_turn_id >= s.next_turn_id,
        restored(prompt, s, r).next_turn_id == r.next_turn_id || restored(prompt, s, r).next_turn_id
            == s.next_turn_id,
        restored(prompt, s, r).context.messages == r.messages,
        restored(prompt, s, r).context.system_prompt == prompt,
        restored(prompt, s, r).permissions == s.permissions,
        restored(prompt, s, r).usage == if r.any_turn {
            r.usage
        } else {
            s.usage
        },
{
}

/// The permission of another tool stays as it was.
pub proof fn law_other_permissions_stay(
    s: StateView,
    tool: Seq<char>,
    permission: ToolPermission,
    x: (Seq<char>, ToolPermission),
)
    requires
        x.0 != tool,
    ensures
        s.with_permission(tool, permission).permissions.contains(x) <==> s.permissions.contains(x),
{
    let p = crate::session::not_named(tool);
    let kept = s.permissions.filter(p);
    let after = s.with_permission(tool, permission).permissions;
    crate::seqs::lemma_filter_contains(s.permissions, p, x);
    if kept.contains(x) {
        let j = choose|j: int| 0 <= j < kept.len() && kept[j] == x;
        assert(after[j] == x);
    }
    if after.contains(x) {
        let j = choose|j: int| 0 <= j < after.len() && after[j] == x;
        assert(kept[j] == x);
    }
}

/// The tool calls that a turn records are read back from its records, in order.
pub proof fn law_recorded_calls_are_read_back(
    turn_id: u64,
    sources: Seq<crate::rag::sources::SourceRefView>,
    traces: Seq<TraceView>,
)
    ensures
        traces_of(audit_records(turn_id, sources, traces), None) == traces,
        sources.len() > 0 ==> audit_records(turn_id, sources, traces).contains(
            TraceRecordView::RetrievalSources(turn_id, sources),
        ),
{
    let f = |t: TraceView| TraceRecordView::Tool(t);
    let tools = traces.map_values(f);
    lemma_tool_records(traces);
    let all = audit_records(turn_id, sources, traces);
    if sources.len() > 0 {
        assert(all.drop_last() =~= tools);
        assert(all[all.len() - 1] == TraceRecordView::RetrievalSources(turn_id, sources));
    }
}

proof fn lemma_tool_records(traces: Seq<TraceView>)
    ensures
        traces_of(traces.map_values(|t: TraceView| TraceRecordView::Tool(t)), None) == traces,
    decreases traces.len(),
{
    let f = |t: TraceView| TraceRecordView::Tool(t);
    let records = traces.map_values(f);
    if traces.len() == 0 {
        assert(traces =~= Seq::empty());
    } else {
        let front = traces.drop_last();
        lemma_tool_records(front);
        assert(records.drop_last() =~= front.map_values(f));
        assert(front.push(traces.last()) =~= traces);
    }
}

/// A session is found at the same place whether its directory or the single file
/// of an older session is named.
pub proof fn law_both_names_mean_one_session(base: Seq<char>, name: Seq<char>)
    requires
        name.len() > 0,
        !name.contains('/'),
        !name.contains('.'),
    ensures
        locations_spec(base + seq!['/'] + name) == (
            base + seq!['/'] + name,
            base + seq!['/'] + name + ".jsonl"@,
        ),
        locations_spec(base + seq!['/'] + (name + ".jsonl"@)) == (
            base + seq!['/'] + name,
            base + seq!['/'] + name + ".jsonl"@,
        ),
{
    reveal_strlit("jsonl");
    reveal_strlit(".jsonl");
    reveal_strlit(".");
    reveal_strlit("");
    let path = base + seq!['/'] + name;
    let file = base + seq!['/'] + (name + ".jsonl"@);
    lemma_names_of_sessions(name);
    law_extensions_are_replaced(base, name, "jsonl"@);
    law_extensions_are_replaced(base, name + ".jsonl"@, ""@);
    law_paths_end_with_their_name(base, name);
    law_paths_end_with_their_name(base, name + ".jsonl"@);
    assert("."@ + "jsonl"@ =~= ".jsonl"@);
    assert(path + "."@ + "jsonl"@ =~= path + ".jsonl"@);
    assert(file =~= path + ".jsonl"@);
}

proof fn lemma_names_of_sessions(name: Seq<char>)
    requires
        name.len() > 0,
        !name.contains('/'),
        !name.contains('.'),
    ensures
        is_name(name),
        is_name(name + ".jsonl"@),
        stem_and_extension(name) == (name, None::<Seq<char>>),
        stem_and_extension(name + ".jsonl"@) == (name, Some("jsonl"@)),
{
    reveal_strlit("jsonl");
    reveal_strlit(".jsonl");
    reveal_strlit(".");
    reveal_strlit("..");
    let n = name.len() as int;
    let file = name + ".jsonl"@;
    assert("."@[0] == '.' && ".."@[0] == '.');
    assert(name.contains(name[0]));
    assert(file.len() > 2);
    assert(!file.contains('/')) by {
        if file.contains('/') {
            let i = choose|i: int| 0 <= i < file.len() && file[i] == '/';
            if i < n {
                assert(name[i] == '/');
            }
        }
    }
    assert forall|i: int| 0 <= i < file.len() && i != n implies file[i] != '.' by {
        if i < n {
            assert(name.contains(name[i]));
        }
    }
    law_names_are_stem_and_extension(name);
    law_names_are_stem_and_extension(file);
    if let Some(x) = stem_and_extension(name).1 {
        let k = stem_and_extension(name).0.len() as int;
        assert(name[k] == '.');
    }
    assert(file[n] == '.');
    let (stem, extension) = stem_and_extension(file);
    assert(extension is Some);
    let k = stem.len() as int;
    assert(file[k] == '.');
    assert(k == n);
    let whole = stem + seq!['.'] + extension->0;
    assert(file == whole);
    assert(stem =~= whole.take(n));
    assert(name =~= file.take(n));
    assert(extension->0 =~= whole.skip(n + 1));
    assert(file.skip(n + 1) =~= "jsonl"@);
}

/// The three files of a session lie in its directory under names of their own.
pub proof fn law_sessions_lie_in_their_directory(directory: Seq<char>)
    ensures
        paths_in(directory).directory == directory,
        file_name_spec(paths_in(directory).context) == Some("context.jsonl"@),
        file_name_spec(paths_in(directory).trace) == Some("trace.jsonl"@),
        file_name_spec(paths_in(directory).state) == Some("state.json"@),
        within_spec(paths_in(directory).context, directory),
        within_spec(paths_in(directory).trace, directory),
        within_spec(paths_in(directory).state, directory),
{
    reveal_strlit("context.jsonl");
    reveal_strlit("trace.jsonl");
    reveal_strlit("state.json");
    reveal_strlit(".");
    reveal_strlit("..");
    assert("."@.len() == 1 && ".."@.len() == 2);
    law_file_names_come_last(directory, "context.jsonl"@);
    law_file_names_come_last(directory, "trace.jsonl"@);
    law_file_names_come_last(directory, "state.json"@);
}

} // verus!
