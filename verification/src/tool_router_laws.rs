//! What the routing of tools keeps.
use vstd::prelude::*;
use crate::intent::schema_name;
use crate::json::JsonView;
use crate::message::MessageView;
use crate::paths::{text_order, Order};
use crate::text::chars::{ascii_lower, byte_len, is_ascii_alnum, lower_char};
use crate::text::laws::{law_text_order_is_total, law_text_order_is_transitive};
use crate::text::pieces::{pieces, CharClass};
use crate::text::search::{find_from, has_prefix, has_text, lemma_find_from, occurs_at};
use crate::tool_router::{ascii_terms, calls_name, change_words, core_tool_fits, description_term_hits, docs_words, has_any_term, has_search_term, insert_tool, intent_score, intents, is_generic, is_plain_word, is_required, is_shown_core, latest_user, name_term_hits, normalized, relevance, remote_parts, routed, routing, routing_query, schema_description, server_fits, shows_before, wait_words, RankedView, Routing};

verus! {

proof fn lemma_insert_contains(s: Seq<RankedView>, x: RankedView, y: RankedView)
    ensures
        insert_tool(s, x).contains(y) <==> s.contains(y) || y == x,
        insert_tool(s, x).len() == s.len() + 1,
    decreases s.len(),
{
    let r = insert_tool(s, x);
    if s.len() == 0 {
        assert(seq![x][0] == x);
    } else if shows_before(x, s[0]) {
        assert(r[0] == x);
        if s.contains(y) {
            let j = choose|j: int| 0 <= j < s.len() && s[j] == y;
            assert(r[j + 1] == y);
        }
        if r.contains(y) && y != x {
            let j = choose|j: int| 0 <= j < r.len() && r[j] == y;
            assert(s[j - 1] == y);
        }
    } else {
        let rest = s.skip(1);
        let w = insert_tool(rest, x);
        lemma_insert_contains(rest, x, y);
        if s.contains(y) {
            let j = choose|j: int| 0 <= j < s.len() && s[j] == y;
            if j == 0 {
                assert(r[0] == y);
            } else {
                assert(rest[j - 1] == y);
                assert(rest.contains(y));
            }
        }
        if w.contains(y) {
            let j = choose|j: int| 0 <= j < w.len() && w[j] == y;
            assert(r[j + 1] == y);
        }
        if r.contains(y) {
            let j = choose|j: int| 0 <= j < r.len() && r[j] == y;
            if j == 0 {
                assert(s[0] == y);
            } else {
                assert(w[j - 1] == y);
                assert(w.contains(y));
                if rest.contains(y) {
                    let k = choose|k: int| 0 <= k < rest.len() && rest[k] == y;
                    assert(s[k + 1] == y);
                }
            }
        }
    }
}

/// The tool is filed as one that must be shown.
pub open spec fn is_filed(r: Routing, tool: JsonView, name: Seq<char>) -> bool {
    if has_prefix(name, "mcp__"@) {
        r.required.contains(RankedView { score: 0, name, tool })
    } else {
        r.core.contains(tool)
    }
}

proof fn lemma_filed(ms: Seq<MessageView>, tools: Seq<JsonView>, k: int, name: Seq<char>)
    requires
        0 <= k < tools.len(),
        schema_name(tools[k]) == Some(name),
        if has_prefix(name, "mcp__"@) {
            is_required(ms, name)
        } else {
            is_shown_core(ms, name)
        },
    ensures
        is_filed(routing(ms, tools), tools[k], name),
    decreases tools.len(),
{
    let front = tools.drop_last();
    let before = routing(ms, front);
    let after = routing(ms, tools);
    let entry = RankedView { score: 0, name, tool: tools[k] };
    if k < front.len() {
        lemma_filed(ms, front, k, name);
        if !has_prefix(name, "mcp__"@) {
            let j = choose|j: int| 0 <= j < before.core.len() && before.core[j] == tools[k];
            assert(after.core[j] == tools[k]);
        } else if let Some(other) = schema_name(tools.last()) {
            lemma_insert_contains(
                before.required,
                RankedView { score: 0, name: other, tool: tools.last() },
                entry,
            );
        }
    } else if has_prefix(name, "mcp__"@) {
        lemma_insert_contains(before.required, entry, entry);
    } else {
        assert(after.core[before.core.len() as int] == tools[k]);
    }
}

/// A tool that the question names, or that was called since the question, is
/// never hidden, and neither is a local tool that fits the question.
pub proof fn law_needed_tools_are_shown(
    ms: Seq<MessageView>,
    tools: Seq<JsonView>,
    limit: int,
    k: int,
    name: Seq<char>,
)
    requires
        0 <= limit,
        0 <= k < tools.len(),
        schema_name(tools[k]) == Some(name),
        if has_prefix(name, "mcp__"@) {
            is_required(ms, name)
        } else {
            is_shown_core(ms, name)
        },
    ensures
        routing(ms, tools).shown(limit).contains(tools[k]),
{
    lemma_filed(ms, tools, k, name);
    let r = routing(ms, tools);
    let shown = r.shown(limit);
    if has_prefix(name, "mcp__"@) {
        let entry = RankedView { score: 0, name, tool: tools[k] };
        let j = choose|j: int| 0 <= j < r.required.len() && r.required[j] == entry;
        assert(r.required.map_values(|t: RankedView| t.tool)[j] == tools[k]);
        assert(shown[r.core.len() + j] == tools[k]);
    } else {
        let j = choose|j: int| 0 <= j < r.core.len() && r.core[j] == tools[k];
        assert(shown[j] == tools[k]);
    }
}

/// Reading, searching files, calculating and asking for the time are open to
/// the model whatever the question.
pub proof fn law_basic_tools_always_fit(query: Seq<char>)
    ensures
        core_tool_fits("Read"@, query),
        core_tool_fits("Glob"@, query),
        core_tool_fits("Grep"@, query),
        core_tool_fits("calculate"@, query),
        core_tool_fits("current_time"@, query),
{
    reveal_strlit("Read");
    reveal_strlit("Glob");
    reveal_strlit("Grep");
    reveal_strlit("calculate");
    reveal_strlit("current_time");
    reveal_strlit("Write");
    reveal_strlit("Edit");
    reveal_strlit("Bash");
    reveal_strlit("wait_for");
    reveal_strlit("search_docs");
    assert("Read"@[0] == 'R' && "Glob"@[0] == 'G' && "Grep"@[0] == 'G' && "calculate"@[0] == 'c'
        && "current_time"@[0] == 'c');
    assert("Write"@[0] == 'W' && "Edit"@[0] == 'E' && "Bash"@[0] == 'B' && "wait_for"@[0] == 'w'
        && "search_docs"@[0] == 's');
}

/// Every tool of a ranking is one of the given tools.
pub open spec fn all_given(s: Seq<RankedView>, tools: Seq<JsonView>) -> bool {
    forall|i: int| 0 <= i < s.len() ==> tools.contains((#[trigger] s[i]).tool)
}

proof fn lemma_given(ms: Seq<MessageView>, tools: Seq<JsonView>)
    ensures
        forall|i: int|
            0 <= i < routing(ms, tools).core.len() ==> tools.contains(
                #[trigger] routing(ms, tools).core[i],
            ),
        all_given(routing(ms, tools).required, tools),
        all_given(routing(ms, tools).relevant, tools),
    decreases tools.len(),
{
    if tools.len() > 0 {
        let front = tools.drop_last();
        lemma_given(ms, front);
        let before = routing(ms, front);
        let after = routing(ms, tools);
        assert(tools[tools.len() - 1] == tools.last());
        assert(tools.contains(tools.last()));
        assert forall|x: JsonView| front.contains(x) implies tools.contains(x) by {
            let j = choose|j: int| 0 <= j < front.len() && front[j] == x;
            assert(tools[j] == x);
        }
        if let Some(name) = schema_name(tools.last()) {
            let zero = RankedView { score: 0, name, tool: tools.last() };
            let scored = RankedView {
                score: relevance(name, schema_description(tools.last()), routing_query(ms)),
                name,
                tool: tools.last(),
            };
            assert forall|i: int| 0 <= i < after.required.len() implies tools.contains(
                (#[trigger] after.required[i]).tool,
            ) by {
                let y = after.required[i];
                lemma_insert_contains(before.required, zero, y);
                assert(after.required.contains(y));
                if before.required.contains(y) {
                    let j = choose|j: int| 0 <= j < before.required.len() && before.required[j] == y;
                    assert(front.contains(before.required[j].tool));
                }
            }
            assert forall|i: int| 0 <= i < after.relevant.len() implies tools.contains(
                (#[trigger] after.relevant[i]).tool,
            ) by {
                let y = after.relevant[i];
                lemma_insert_contains(before.relevant, scored, y);
                assert(after.relevant.contains(y));
                if before.relevant.contains(y) {
                    let j = choose|j: int| 0 <= j < before.relevant.len() && before.relevant[j] == y;
                    assert(front.contains(before.relevant[j].tool));
                }
            }
            assert forall|i: int| 0 <= i < after.core.len() implies tools.contains(
                #[trigger] after.core[i],
            ) by {
                if i < before.core.len() {
                    assert(after.core[i] == before.core[i]);
                    assert(front.contains(before.core[i]));
                }
            }
        } else {
            assert(after == before);
            assert forall|i: int| 0 <= i < after.core.len() implies tools.contains(
                #[trigger] after.core[i],
            ) by {
                assert(front.contains(before.core[i]));
            }
            assert forall|i: int| 0 <= i < after.required.len() implies tools.contains(
                (#[trigger] after.required[i]).tool,
            ) by {
                assert(front.contains(before.required[i].tool));
            }
            assert forall|i: int| 0 <= i < after.relevant.len() implies tools.contains(
                (#[trigger] after.relevant[i]).tool,
            ) by {
                assert(front.contains(before.relevant[i].tool));
            }
        }
    }
}

/// Only given tools are shown, and of the remote ones no more than the limit,
/// unless more than that are required.
pub proof fn law_only_given_tools_within_the_limit(
    ms: Seq<MessageView>,
    tools: Seq<JsonView>,
    limit: int,
)
    requires
        0 <= limit,
    ensures
        forall|i: int|
            0 <= i < routing(ms, tools).shown(limit).len() ==> tools.contains(
                #[trigger] routing(ms, tools).shown(limit)[i],
            ),
        routing(ms, tools).shown(limit).len() - routing(ms, tools).core.len() <= if routing(
            ms,
            tools,
        ).required.len() > limit {
            routing(ms, tools).required.len() as int
        } else {
            limit
        },
{
    lemma_given(ms, tools);
    let r = routing(ms, tools);
    let shown = r.shown(limit);
    let (c, q) = (r.core.len() as int, r.required.len() as int);
    assert forall|i: int| 0 <= i < shown.len() implies tools.contains(#[trigger] shown[i]) by {
        if i < c {
            assert(shown[i] == r.core[i]);
        } else if i < c + q {
            assert(shown[i] == r.required[i - c].tool);
        } else {
            assert(shown[i] == r.relevant[i - c - q].tool);
        }
    }
}

/// A tool with a name that does not mark it as one of a server.
pub open spec fn is_local(tool: JsonView) -> bool {
    schema_name(tool) matches Some(name) && !has_prefix(name, "mcp__"@)
}

/// A remote tool that must be shown.
pub open spec fn is_needed(ms: Seq<MessageView>, tool: JsonView) -> bool {
    schema_name(tool) matches Some(name) && has_prefix(name, "mcp__"@) && is_required(ms, name)
}

/// A remote tool that is shown for its relevance, or not at all.
pub open spec fn is_optional(ms: Seq<MessageView>, tool: JsonView) -> bool {
    schema_name(tool) matches Some(name) && has_prefix(name, "mcp__"@) && !is_required(ms, name)
}

/// How much a tool has to do with the latest question.
pub open spec fn relevance_of(ms: Seq<MessageView>, tool: JsonView) -> nat {
    match schema_name(tool) {
        Some(name) => relevance(name, schema_description(tool), routing_query(ms)),
        None => 0,
    }
}

/// The one tool is more relevant than the other, or as relevant and not behind
/// it by name.
pub open spec fn leads(ms: Seq<MessageView>, a: JsonView, b: JsonView) -> bool {
    relevance_of(ms, a) > relevance_of(ms, b) || (relevance_of(ms, a) == relevance_of(ms, b)
        && text_order(schema_name(b)->0, schema_name(a)->0) != Order::Less)
}

spec fn in_order(s: Seq<RankedView>) -> bool {
    forall|i: int, j: int|
        #![trigger s[i], s[j]]
        0 <= i < j < s.len() ==> s[i].score > s[j].score || (s[i].score == s[j].score && text_order(
            s[j].name,
            s[i].name,
        ) != Order::Less)
}

spec fn not_behind(a: RankedView, b: RankedView) -> bool {
    a.score > b.score || (a.score == b.score && text_order(b.name, a.name) != Order::Less)
}

proof fn lemma_not_behind(a: RankedView, b: RankedView, c: RankedView)
    requires
        not_behind(a, b),
        not_behind(b, c),
    ensures
        not_behind(a, c),
{
    if a.score == c.score {
        law_text_order_is_transitive(a.name, b.name, c.name);
    }
}

proof fn lemma_insert_in_order(s: Seq<RankedView>, x: RankedView)
    requires
        in_order(s),
    ensures
        in_order(insert_tool(s, x)),
    decreases s.len(),
{
    let r = insert_tool(s, x);
    if s.len() == 0 {
    } else if shows_before(x, s[0]) {
        law_text_order_is_total(x.name, s[0].name);
        assert(not_behind(x, s[0]));
        assert forall|i: int, j: int|
            #![trigger r[i], r[j]]
            0 <= i < j < r.len() implies not_behind(r[i], r[j]) by {
            assert(r[j] == s[j - 1]);
            if i > 0 {
                assert(r[i] == s[i - 1]);
                assert(not_behind(s[i - 1], s[j - 1]));
            } else if j > 1 {
                assert(not_behind(s[0], s[j - 1]));
                lemma_not_behind(x, s[0], s[j - 1]);
            }
        }
    } else {
        let rest = s.skip(1);
        let w = insert_tool(rest, x);
        assert forall|i: int, j: int|
            #![trigger rest[i], rest[j]]
            0 <= i < j < rest.len() implies not_behind(rest[i], rest[j]) by {
            assert(rest[i] == s[i + 1] && rest[j] == s[j + 1]);
        }
        lemma_insert_in_order(rest, x);
        assert(not_behind(s[0], x));
        assert forall|i: int, j: int|
            #![trigger r[i], r[j]]
            0 <= i < j < r.len() implies not_behind(r[i], r[j]) by {
            assert(r[j] == w[j - 1]);
            if i > 0 {
                assert(r[i] == w[i - 1]);
                assert(not_behind(w[i - 1], w[j - 1]));
            } else {
                lemma_insert_contains(rest, x, w[j - 1]);
                assert(w.contains(w[j - 1]));
                if rest.contains(w[j - 1]) {
                    let k = choose|k: int| 0 <= k < rest.len() && rest[k] == w[j - 1];
                    assert(s[k + 1] == w[j - 1]);
                    assert(not_behind(s[0], s[k + 1]));
                }
            }
        }
    }
}

spec fn entry_of(ms: Seq<MessageView>, tool: JsonView) -> RankedView {
    RankedView { score: relevance_of(ms, tool), name: schema_name(tool)->0, tool }
}

spec fn shown_here(ms: Seq<MessageView>) -> spec_fn(JsonView) -> bool {
    |t: JsonView| is_local(t) && is_shown_core(ms, schema_name(t)->0)
}

spec fn well_routed(ms: Seq<MessageView>, tools: Seq<JsonView>, r: Routing) -> bool {
    &&& r.core == tools.filter(shown_here(ms))
    &&& forall|i: int|
        0 <= i < r.required.len() ==> is_needed(ms, (#[trigger] r.required[i]).tool)
            && r.required[i].score == 0 && schema_name(r.required[i].tool) == Some(
            r.required[i].name,
        )
    &&& forall|i: int|
        0 <= i < r.relevant.len() ==> is_optional(ms, (#[trigger] r.relevant[i]).tool)
            && r.relevant[i] == entry_of(ms, r.relevant[i].tool) && relevance_of(
            ms,
            r.relevant[i].tool,
        ) > 0
    &&& in_order(r.required)
    &&& in_order(r.relevant)
    &&& r.required.len() == tools.filter(|t: JsonView| is_needed(ms, t)).len()
    &&& r.relevant.len() == tools.filter(
        |t: JsonView| is_optional(ms, t) && relevance_of(ms, t) > 0,
    ).len()
    &&& forall|k: int|
        0 <= k < tools.len() && is_optional(ms, #[trigger] tools[k]) && relevance_of(ms, tools[k])
            > 0 ==> r.relevant.contains(entry_of(ms, tools[k]))
}

proof fn lemma_well_routed(ms: Seq<MessageView>, tools: Seq<JsonView>)
    ensures
        well_routed(ms, tools, routing(ms, tools)),
    decreases tools.len(),
{
    reveal(Seq::filter);
    let r = routing(ms, tools);
    if tools.len() == 0 {
        assert(r.core =~= tools.filter(shown_here(ms)));
    } else {
        let front = tools.drop_last();
        let last = tools.last();
        lemma_well_routed(ms, front);
        let before = routing(ms, front);
        assert(r == before.file(ms, last));
        assert(tools[tools.len() - 1] == last);
        if let Some(name) = schema_name(last) {
            if has_prefix(name, "mcp__"@) {
                let zero = RankedView { score: 0, name, tool: last };
                let scored = entry_of(ms, last);
                lemma_insert_in_order(before.required, zero);
                lemma_insert_in_order(before.relevant, scored);
                lemma_insert_contains(before.required, zero, zero);
                lemma_insert_contains(before.relevant, scored, scored);
                assert forall|i: int| 0 <= i < r.required.len() implies is_needed(
                    ms,
                    (#[trigger] r.required[i]).tool,
                ) && r.required[i].score == 0 && schema_name(r.required[i].tool) == Some(
                    r.required[i].name,
                ) by {
                    let y = r.required[i];
                    assert(r.required.contains(y));
                    lemma_insert_contains(before.required, zero, y);
                    if before.required.contains(y) {
                        let j = choose|j: int|
                            0 <= j < before.required.len() && before.required[j] == y;
                    }
                }
                assert forall|i: int| 0 <= i < r.relevant.len() implies is_optional(
                    ms,
                    (#[trigger] r.relevant[i]).tool,
                ) && r.relevant[i] == entry_of(ms, r.relevant[i].tool) && relevance_of(
                    ms,
                    r.relevant[i].tool,
                ) > 0 by {
                    let y = r.relevant[i];
                    assert(r.relevant.contains(y));
                    lemma_insert_contains(before.relevant, scored, y);
                    if before.relevant.contains(y) {
                        let j = choose|j: int|
                            0 <= j < before.relevant.len() && before.relevant[j] == y;
                    }
                }
                assert forall|k: int|
                    0 <= k < tools.len() && is_optional(ms, #[trigger] tools[k]) && relevance_of(
                        ms,
                        tools[k],
                    ) > 0 implies r.relevant.contains(entry_of(ms, tools[k])) by {
                    let y = entry_of(ms, tools[k]);
                    lemma_insert_contains(before.relevant, scored, y);
                    if k < front.len() {
                        assert(front[k] == tools[k]);
                    }
                }
            }
        }
        assert forall|k: int|
            0 <= k < tools.len() && is_optional(ms, #[trigger] tools[k]) && relevance_of(
                ms,
                tools[k],
            ) > 0 implies r.relevant.contains(entry_of(ms, tools[k])) by {
            if k < front.len() {
                assert(front[k] == tools[k]);
            }
        }
    }
}

/// The tool at a position of what is shown.
proof fn lemma_shown_at(r: Routing, limit: int, i: int)
    requires
        0 <= limit,
        0 <= i < r.shown(limit).len(),
    ensures
        ({
            let (c, q) = (r.core.len() as int, r.required.len() as int);
            &&& i < c ==> r.shown(limit)[i] == r.core[i]
            &&& c <= i < c + q ==> r.shown(limit)[i] == r.required[i - c].tool
            &&& c + q <= i ==> i - c - q < r.relevant.len() && r.shown(limit)[i] == r.relevant[i - c
                - q].tool && i - c < limit
        }),
{
}

proof fn lemma_core_local(ms: Seq<MessageView>, tools: Seq<JsonView>, i: int)
    requires
        0 <= i < routing(ms, tools).core.len(),
    ensures
        is_local(routing(ms, tools).core[i]),
        is_shown_core(ms, schema_name(routing(ms, tools).core[i])->0),
{
    lemma_well_routed(ms, tools);
    crate::seqs::lemma_filter_holds(tools, shown_here(ms));
    assert(shown_here(ms)(tools.filter(shown_here(ms))[i]));
}

/// Of the remote tools that need not be shown, those that are shown stand in
/// descending relevance, and in the order of their names where they are equally
/// relevant.
pub proof fn law_shown_tools_descend_in_relevance(
    ms: Seq<MessageView>,
    tools: Seq<JsonView>,
    limit: int,
    i: int,
    j: int,
)
    requires
        0 <= limit,
        0 <= i < j < routing(ms, tools).shown(limit).len(),
        is_optional(ms, routing(ms, tools).shown(limit)[i]),
        is_optional(ms, routing(ms, tools).shown(limit)[j]),
    ensures
        leads(ms, routing(ms, tools).shown(limit)[i], routing(ms, tools).shown(limit)[j]),
        relevance_of(ms, routing(ms, tools).shown(limit)[i]) >= relevance_of(
            ms,
            routing(ms, tools).shown(limit)[j],
        ),
{
    let r = routing(ms, tools);
    lemma_well_routed(ms, tools);
    lemma_shown_at(r, limit, i);
    lemma_shown_at(r, limit, j);
    let (c, q) = (r.core.len() as int, r.required.len() as int);
    if i < c {
        lemma_core_local(ms, tools, i);
    } else if i < c + q {
        assert(is_needed(ms, r.required[i - c].tool));
    } else {
        let (a, b) = (i - c - q, j - c - q);
        assert(r.relevant[a] == entry_of(ms, r.relevant[a].tool));
        assert(r.relevant[b] == entry_of(ms, r.relevant[b].tool));
    }
}

/// Of the remote tools that need not be shown, no tool that is hidden is more
/// relevant than one that is shown.
pub proof fn law_no_hidden_tool_is_more_relevant(
    ms: Seq<MessageView>,
    tools: Seq<JsonView>,
    limit: int,
    hidden: JsonView,
    other: JsonView,
)
    requires
        0 <= limit,
        tools.contains(hidden),
        is_optional(ms, hidden),
        !routing(ms, tools).shown(limit).contains(hidden),
        is_optional(ms, other),
        routing(ms, tools).shown(limit).contains(other),
    ensures
        leads(ms, other, hidden),
        relevance_of(ms, other) >= relevance_of(ms, hidden),
{
    let r = routing(ms, tools);
    let shown = r.shown(limit);
    lemma_well_routed(ms, tools);
    let j = choose|j: int| 0 <= j < shown.len() && shown[j] == other;
    lemma_shown_at(r, limit, j);
    let (c, q) = (r.core.len() as int, r.required.len() as int);
    if j < c {
        lemma_core_local(ms, tools, j);
    } else if j < c + q {
        assert(is_needed(ms, r.required[j - c].tool));
    } else {
        let b = j - c - q;
        assert(r.relevant[b] == entry_of(ms, r.relevant[b].tool));
        if relevance_of(ms, hidden) > 0 {
            let k = choose|k: int| 0 <= k < tools.len() && tools[k] == hidden;
            assert(is_optional(ms, tools[k]));
            assert(r.relevant.contains(entry_of(ms, hidden)));
            let a = choose|a: int| 0 <= a < r.relevant.len() && r.relevant[a] == entry_of(ms, hidden);
            if a <= b {
                assert(shown[c + q + a] == r.relevant[a].tool);
            }
        }
    }
}

proof fn lemma_remote_behind(ms: Seq<MessageView>, tools: Seq<JsonView>, limit: int, i: int)
    requires
        0 <= limit,
        0 <= i < routing(ms, tools).shown(limit).len(),
    ensures
        is_local(routing(ms, tools).shown(limit)[i]) <==> i < routing(ms, tools).core.len(),
{
    let r = routing(ms, tools);
    lemma_well_routed(ms, tools);
    lemma_shown_at(r, limit, i);
    let (c, q) = (r.core.len() as int, r.required.len() as int);
    if i < c {
        lemma_core_local(ms, tools, i);
    } else if i < c + q {
        assert(is_needed(ms, r.required[i - c].tool));
    } else {
        assert(is_optional(ms, r.relevant[i - c - q].tool));
    }
}

proof fn lemma_remote_count(ms: Seq<MessageView>, tools: Seq<JsonView>, limit: int)
    requires
        0 <= limit,
    ensures
        routing(ms, tools).shown(limit).filter(|t: JsonView| !is_local(t)).len() == routing(
            ms,
            tools,
        ).shown(limit).len() - routing(ms, tools).core.len(),
{
    let shown = routing(ms, tools).shown(limit);
    let c = routing(ms, tools).core.len() as int;
    assert(shown.len() >= c);
    let f = |t: JsonView| !is_local(t);
    let (front, back) = (shown.take(c), shown.skip(c));
    assert(shown =~= front + back);
    assert forall|i: int| 0 <= i < front.len() implies !f(#[trigger] front[i]) by {
        lemma_remote_behind(ms, tools, limit, i);
    }
    assert forall|i: int| 0 <= i < back.len() implies f(#[trigger] back[i]) by {
        lemma_remote_behind(ms, tools, limit, c + i);
    }
    crate::seqs::lemma_filter_none(front, f);
    crate::seqs::lemma_filter_all(back, f);
    crate::seqs::lemma_filter_concat(front, back, f);
}

/// A remote tool with some relevance is hidden only where the limit is reached.
pub proof fn law_relevant_tools_are_hidden_only_for_the_limit(
    ms: Seq<MessageView>,
    tools: Seq<JsonView>,
    limit: int,
    hidden: JsonView,
)
    requires
        0 <= limit,
        tools.contains(hidden),
        is_optional(ms, hidden),
        relevance_of(ms, hidden) > 0,
        !routing(ms, tools).shown(limit).contains(hidden),
    ensures
        routing(ms, tools).shown(limit).filter(|t: JsonView| !is_local(t)).len() >= limit,
{
    let r = routing(ms, tools);
    let shown = r.shown(limit);
    lemma_well_routed(ms, tools);
    lemma_remote_count(ms, tools, limit);
    let k = choose|k: int| 0 <= k < tools.len() && tools[k] == hidden;
    assert(is_optional(ms, tools[k]));
    let a = choose|a: int| 0 <= a < r.relevant.len() && r.relevant[a] == entry_of(ms, hidden);
    let at = r.core.len() + r.required.len() + a;
    if shown.len() - r.core.len() < limit {
        assert(shown[at] == r.relevant[a].tool);
    }
}

/// Every tool that is shown has its reason: a local one that fits the question, a
/// remote one that must be shown, or one with some relevance. The local ones come
/// first, as they were given, then those that must be shown, then the others.
pub proof fn law_shown_tools_have_their_reason(
    ms: Seq<MessageView>,
    tools: Seq<JsonView>,
    limit: int,
    i: int,
    j: int,
)
    requires
        0 <= limit,
        0 <= i <= j < routing(ms, tools).shown(limit).len(),
    ensures
        ({
            let shown = routing(ms, tools).shown(limit);
            &&& is_local(shown[i]) ==> is_shown_core(ms, schema_name(shown[i])->0)
            &&& is_local(shown[i]) || is_needed(ms, shown[i]) || (is_optional(ms, shown[i])
                && relevance_of(ms, shown[i]) > 0)
            &&& is_local(shown[j]) ==> is_local(shown[i])
            &&& is_needed(ms, shown[j]) ==> !is_optional(ms, shown[i])
        }),
        routing(ms, tools).shown(limit).take(routing(ms, tools).core.len() as int) == tools.filter(
            |t: JsonView| is_local(t) && is_shown_core(ms, schema_name(t)->0),
        ),
{
    let r = routing(ms, tools);
    let shown = r.shown(limit);
    lemma_well_routed(ms, tools);
    lemma_shown_at(r, limit, i);
    lemma_shown_at(r, limit, j);
    let (c, q) = (r.core.len() as int, r.required.len() as int);
    assert(shown.take(c) =~= r.core);
    if i < c {
        lemma_core_local(ms, tools, i);
    } else if i < c + q {
        assert(is_needed(ms, r.required[i - c].tool));
    } else {
        assert(is_optional(ms, r.relevant[i - c - q].tool));
    }
    if j < c {
        lemma_core_local(ms, tools, j);
    } else if j < c + q {
        assert(is_needed(ms, r.required[j - c].tool));
    } else {
        assert(is_optional(ms, r.relevant[j - c - q].tool));
    }
}

/// What is no array of tools stays as it is, and an array stays one.
pub proof fn law_only_arrays_are_routed(ms: Seq<MessageView>, tools: JsonView, limit: int)
    ensures
        !(tools is Array) ==> routed(ms, tools, limit) == tools,
        tools matches JsonView::Array(items) ==> routed(ms, tools, limit) == JsonView::Array(
            routing(ms, items).shown(limit),
        ),
{
}

proof fn lemma_latest_is(ms: Seq<MessageView>, i: int)
    requires
        0 <= i < ms.len(),
        ms[i] is User,
        forall|j: int| i < j < ms.len() ==> !((#[trigger] ms[j]) is User),
    ensures
        latest_user(ms) == Some(i),
    decreases ms.len(),
{
    if i < ms.len() - 1 {
        assert(!(ms[ms.len() - 1] is User));
        let front = ms.drop_last();
        assert forall|j: int| i < j < front.len() implies !((#[trigger] front[j]) is User) by {
            assert(front[j] == ms[j]);
        }
        lemma_latest_is(front, i);
    }
}

/// A remote tool must be shown where the latest question names it, in whatever
/// case, or where it was called behind that question; what was asked or called
/// before does not count.
pub proof fn law_required_tools_are_named_or_called(
    ms: Seq<MessageView>,
    i: int,
    name: Seq<char>,
)
    requires
        0 <= i < ms.len(),
        ms[i] is User,
        forall|j: int| i < j < ms.len() ==> !((#[trigger] ms[j]) is User),
    ensures
        routing_query(ms) == normalized(ms[i]->User_content),
        is_required(ms, name) <==> has_text(normalized(ms[i]->User_content), ascii_lower(name))
            || exists|j: int, k: int|
            i < j < ms.len() && ms[j] is Assistant && 0 <= k < ms[j]->Assistant_tool_calls.len()
                && (#[trigger] ms[j]->Assistant_tool_calls[k]).name == name,
{
    lemma_latest_is(ms, i);
    let tail = ms.skip(i);
    if calls_name(tail, name) {
        let (a, b) = choose|a: int, b: int|
            0 <= a < tail.len() && tail[a] is Assistant && 0 <= b
                < tail[a]->Assistant_tool_calls.len() && (
            #[trigger] tail[a]->Assistant_tool_calls[b]).name == name;
        assert(tail[a] == ms[i + a]);
        assert(ms[i + a]->Assistant_tool_calls[b].name == name);
    }
    if exists|j: int, k: int|
        i < j < ms.len() && ms[j] is Assistant && 0 <= k < ms[j]->Assistant_tool_calls.len() && (
        #[trigger] ms[j]->Assistant_tool_calls[k]).name == name {
        let (j, k) = choose|j: int, k: int|
            i < j < ms.len() && ms[j] is Assistant && 0 <= k < ms[j]->Assistant_tool_calls.len()
                && (#[trigger] ms[j]->Assistant_tool_calls[k]).name == name;
        assert(tail[j - i] == ms[j]);
        assert(tail[j - i]->Assistant_tool_calls[k].name == name);
    }
}

proof fn lemma_intents_count(
    name: Seq<char>,
    query: Seq<char>,
    list: Seq<(&str, Seq<&str>)>,
    k: int,
)
    requires
        0 <= k < list.len(),
        has_text(name, list[k].0@),
        has_any_term(query, list[k].1),
    ensures
        intent_score(name, query, list) >= 30,
    decreases list.len(),
{
    if k < list.len() - 1 {
        assert(list.drop_last()[k] == list[k]);
        lemma_intents_count(name, query, list.drop_last(), k);
    }
}

proof fn lemma_no_intents(name: Seq<char>, query: Seq<char>, list: Seq<(&str, Seq<&str>)>)
    requires
        forall|k: int|
            0 <= k < list.len() && has_text(name, (#[trigger] list[k]).0@) ==> !has_any_term(
                query,
                list[k].1,
            ),
    ensures
        intent_score(name, query, list) == 0,
    decreases list.len(),
{
    if list.len() > 0 {
        let front = list.drop_last();
        assert forall|k: int|
            0 <= k < front.len() && has_text(name, (#[trigger] front[k]).0@) implies !has_any_term(
            query,
            front[k].1,
        ) by {
            assert(front[k] == list[k]);
        }
        lemma_no_intents(name, query, front);
        assert(list[list.len() - 1] == list.last());
    }
}

/// What makes a remote tool relevant: that the question names its server or is
/// about what the server is for, that it has a word of the tool's name of at
/// least three letters or a telling word of its description of at least four, or
/// that it shares an intent with the tool's name. Each counts, and a tool with
/// none of these has no relevance.
pub proof fn law_relevance_has_its_grounds(
    name: Seq<char>,
    description: Seq<char>,
    query: Seq<char>,
    server: Seq<char>,
    remote: Seq<char>,
)
    requires
        remote_parts(name) == Some((server, remote)),
    ensures
        has_text(query, normalized(server)) ==> relevance(name, description, query) >= 80,
        server_fits(server, query) ==> relevance(name, description, query) >= 60,
        (has_text(query, normalized(server)) && server_fits(server, query)) ==> relevance(
            name,
            description,
            query,
        ) >= 140,
        forall|t: Seq<char>| #[trigger]
            ascii_terms(remote).contains(t) && byte_len(t) >= 3 && has_search_term(query, t)
                ==> relevance(name, description, query) >= 18,
        forall|t: Seq<char>| #[trigger]
            ascii_terms(description).contains(t) && byte_len(t) >= 4 && !is_generic(t)
                && has_search_term(query, t) ==> relevance(name, description, query) >= 3,
        forall|k: int|
            0 <= k < intents().len() && has_text(
                normalized(remote),
                (#[trigger] intents()[k]).0@,
            ) && has_any_term(query, intents()[k].1) ==> relevance(name, description, query) >= 30,
        relevance(name, description, query) > 0 ==> has_text(query, normalized(server))
            || server_fits(server, query) || (exists|t: Seq<char>| #[trigger]
            ascii_terms(remote).contains(t) && byte_len(t) >= 3 && has_search_term(query, t)) || (
        exists|t: Seq<char>| #[trigger]
            ascii_terms(description).contains(t) && byte_len(t) >= 4 && !is_generic(t)
                && has_search_term(query, t)) || (exists|k: int|
            0 <= k < intents().len() && has_text(
                normalized(remote),
                (#[trigger] intents()[k]).0@,
            ) && has_any_term(query, intents()[k].1)),
{
    let words = ascii_terms(remote);
    let told = ascii_terms(description);
    let (p, q) = (name_term_hits(query), description_term_hits(query));
    let total = relevance(name, description, query);
    assert forall|t: Seq<char>| #[trigger]
        words.contains(t) && byte_len(t) >= 3 && has_search_term(query, t) implies total >= 18 by {
        crate::seqs::lemma_filter_contains(words, p, t);
        assert(words.filter(p).contains(t));
    }
    assert forall|t: Seq<char>| #[trigger]
        told.contains(t) && byte_len(t) >= 4 && !is_generic(t) && has_search_term(
            query,
            t,
        ) implies total >= 3 by {
        crate::seqs::lemma_filter_contains(told, q, t);
        assert(told.filter(q).contains(t));
    }
    assert forall|k: int|
        0 <= k < intents().len() && has_text(normalized(remote), (#[trigger] intents()[k]).0@)
            && has_any_term(query, intents()[k].1) implies total >= 30 by {
        lemma_intents_count(normalized(remote), query, intents(), k);
    }
    if total > 0 {
        if words.filter(p).len() > 0 {
            let t = words.filter(p)[0];
            crate::seqs::lemma_filter_contains(words, p, t);
            assert(words.filter(p).contains(t));
            assert(words.contains(t));
        } else if told.filter(q).len() > 0 {
            let t = told.filter(q)[0];
            crate::seqs::lemma_filter_contains(told, q, t);
            assert(told.filter(q).contains(t));
            assert(told.contains(t));
        } else if !(exists|k: int|
            0 <= k < intents().len() && has_text(
                normalized(remote),
                (#[trigger] intents()[k]).0@,
            ) && has_any_term(query, intents()[k].1)) {
            lemma_no_intents(normalized(remote), query, intents());
        }
    }
}

/// An ASCII word is found in a question exactly where it stands there between
/// other characters than letters and digits; anything else is found wherever it
/// stands.
pub proof fn law_words_are_found_as_words(query: Seq<char>, word: Seq<char>)
    ensures
        has_search_term(query, word) ==> has_text(query, word),
        !is_plain_word(word) ==> (has_search_term(query, word) <==> has_text(query, word)),
        is_plain_word(word) && has_search_term(query, word) ==> exists|at: int|
            0 <= at <= at + word.len() <= query.len() && #[trigger] query.subrange(
                at,
                at + word.len(),
            ) == word && (at == 0 || !is_ascii_alnum(query[at - 1])) && (at + word.len()
                == query.len() || !is_ascii_alnum(query[at + word.len()])),
        is_plain_word(word) ==> forall|at: int|
            0 <= at <= at + word.len() <= query.len() && #[trigger] query.subrange(
                at,
                at + word.len(),
            ) == word && (at == 0 || !is_ascii_alnum(query[at - 1])) && (at + word.len()
                == query.len() || !is_ascii_alnum(query[at + word.len()])) ==> has_search_term(
                query,
                word,
            ),
{
    let class = CharClass::NotAsciiAlnum;
    if is_plain_word(word) {
        let list = pieces(query, class);
        if list.contains(word) {
            let i = choose|i: int| 0 <= i < list.len() && list[i] == word;
            let at = crate::text::laws::law_pieces_stand_in_the_text(query, class, i);
            assert(query.subrange(at, at + word.len()) == word);
            assert(occurs_at(query, word, at));
        }
        assert forall|at: int|
            0 <= at <= at + word.len() <= query.len() && #[trigger] query.subrange(
                at,
                at + word.len(),
            ) == word && (at == 0 || !is_ascii_alnum(query[at - 1])) && (at + word.len()
                == query.len() || !is_ascii_alnum(query[at + word.len()])) implies has_search_term(
            query,
            word,
        ) by {
            let (a, b) = (query.take(at), query.skip(at + word.len()));
            assert(query =~= a + word + b);
            assert forall|i: int| 0 <= i < word.len() implies !class.holds(#[trigger] word[i]) by {
                assert(is_ascii_alnum(word[i]));
            }
            crate::text::laws::law_words_are_pieces(a, word, b, class);
        }
    }
}

/// Neither case nor backticks, line feeds and tabs of a question matter; every
/// other character stays in its place between two spaces.
pub proof fn law_questions_are_compared_in_lower_case(s: Seq<char>, i: int)
    requires
        0 <= i < s.len(),
    ensures
        normalized(s).len() == s.len() + 2,
        normalized(s)[0] == ' ',
        normalized(s).last() == ' ',
        normalized(s)[i + 1] == if s[i] == '`' || s[i] == '\n' || s[i] == '\t' {
            ' '
        } else {
            ascii_lower(s)[i]
        },
        normalized(ascii_lower(s)) == normalized(s),
{
    reveal_strlit(" ");
    let low = ascii_lower(s);
    assert forall|k: int| 0 <= k < s.len() implies lower_char(low[k]) == low[k] by {
        crate::event_laws::lemma_lower_twice(s[k]);
    }
    assert(ascii_lower(low) =~= low);
    crate::event_laws::lemma_lower_keeps(s[i]);
}

/// Changing tools are shown for questions about changes, waiting for questions
/// about waiting, searching for questions about documents; every other local tool
/// always is.
pub proof fn law_local_tools_fit_their_questions(query: Seq<char>, name: Seq<char>)
    ensures
        forall|k: int|
            0 <= k < change_words().len() && has_search_term(query, (#[trigger] change_words()[k])@)
                ==> core_tool_fits("Write"@, query) && core_tool_fits("Edit"@, query)
                && core_tool_fits("Bash"@, query),
        forall|k: int|
            0 <= k < docs_words().len() && has_search_term(query, (#[trigger] docs_words()[k])@)
                ==> core_tool_fits("search_docs"@, query),
        forall|k: int|
            0 <= k < wait_words().len() && has_search_term(query, (#[trigger] wait_words()[k])@)
                ==> core_tool_fits("wait_for"@, query),
        query.len() == 0 ==> !core_tool_fits("Write"@, query) && !core_tool_fits("Edit"@, query)
            && !core_tool_fits("Bash"@, query),
        name != "Write"@ && name != "Edit"@ && name != "Bash"@ && name != "wait_for"@ && name
            != "search_docs"@ ==> core_tool_fits(name, query),
{
    reveal_strlit("Write");
    reveal_strlit("Edit");
    reveal_strlit("Bash");
    reveal_strlit("wait_for");
    reveal_strlit("search_docs");
    assert("Write"@[0] == 'W' && "Edit"@[0] == 'E' && "Bash"@[0] == 'B' && "wait_for"@[0] == 'w'
        && "search_docs"@[0] == 's');
    if query.len() == 0 {
        assert forall|k: int| 0 <= k < change_words().len() implies !has_search_term(
            query,
            (#[trigger] change_words()[k])@,
        ) by {
            law_words_are_found_as_words(query, change_words()[k]@);
            lemma_change_words_hold_text(k);
            if has_text(query, change_words()[k]@) {
                let i = choose|i: int| occurs_at(query, change_words()[k]@, i);
            }
        }
    }
}

proof fn lemma_change_words_hold_text(k: int)
    requires
        0 <= k < change_words().len(),
    ensures
        change_words()[k]@.len() > 0,
{
    reveal_strlit("修改");
    reveal_strlit("编辑");
    reveal_strlit("编写");
    reveal_strlit("开发");
    reveal_strlit("修复");
    reveal_strlit("优化");
    reveal_strlit("实现");
    reveal_strlit("新增");
    reveal_strlit("添加");
    reveal_strlit("删除");
    reveal_strlit("重构");
    reveal_strlit("运行");
    reveal_strlit("执行");
    reveal_strlit("测试");
    reveal_strlit("构建");
    reveal_strlit("编译");
    reveal_strlit("命令");
    reveal_strlit("write");
    reveal_strlit("edit");
    reveal_strlit("fix");
    reveal_strlit("implement");
    reveal_strlit("refactor");
    reveal_strlit("run");
    reveal_strlit("test");
    reveal_strlit("build");
    reveal_strlit("cargo");
    reveal_strlit("git ");
    reveal_strlit("shell");
    reveal_strlit("bash");
}

proof fn lemma_intent_sum(name: Seq<char>, query: Seq<char>, list: Seq<(&str, Seq<&str>)>)
    ensures
        intent_score(name, query, list) == 30 * list.filter(
            |x: (&str, Seq<&str>)| has_text(name, x.0@) && has_any_term(query, x.1),
        ).len(),
    decreases list.len(),
{
    reveal(Seq::filter);
    if list.len() > 0 {
        lemma_intent_sum(name, query, list.drop_last());
    }
}

/// Each ground of a tool's relevance has its weight: eighty for the server's name,
/// sixty for what the server is for, eighteen for each word of the tool's name,
/// three for each telling word of its description and thirty for each intent.
pub proof fn law_grounds_have_their_weights(
    name: Seq<char>,
    description: Seq<char>,
    query: Seq<char>,
    server: Seq<char>,
    remote: Seq<char>,
)
    requires
        remote_parts(name) == Some((server, remote)),
    ensures
        ({
            let named = if has_text(query, normalized(server)) {
                80int
            } else {
                0
            };
            let fitting = if server_fits(server, query) {
                60int
            } else {
                0
            };
            let words = ascii_terms(remote).filter(
                |t: Seq<char>| byte_len(t) >= 3 && has_search_term(query, t),
            ).len();
            let told = ascii_terms(description).filter(
                |t: Seq<char>| byte_len(t) >= 4 && !is_generic(t) && has_search_term(query, t),
            ).len();
            let shared = intents().filter(
                |x: (&str, Seq<&str>)|
                    has_text(normalized(remote), x.0@) && has_any_term(query, x.1),
            ).len();
            relevance(name, description, query) == named + fitting + 18 * words + 3 * told + 30
                * shared
        }),
{
    lemma_intent_sum(normalized(remote), query, intents());
    assert(name_term_hits(query) =~= (|t: Seq<char>|
        byte_len(t) >= 3 && has_search_term(query, t)));
    assert(description_term_hits(query) =~= (|t: Seq<char>|
        byte_len(t) >= 4 && !is_generic(t) && has_search_term(query, t)));
}

/// The server and the tool are the two sides of the first double underscore behind
/// the mark of remote tools.
pub proof fn law_remote_names_have_two_sides(server: Seq<char>, tool: Seq<char>)
    requires
        !has_text(server + "_"@, "__"@),
    ensures
        remote_parts("mcp__"@ + server + "__"@ + tool) == Some((server, tool)),
{
    reveal_strlit("mcp__");
    reveal_strlit("__");
    reveal_strlit("_");
    let name = "mcp__"@ + server + "__"@ + tool;
    let rest = server + "__"@ + tool;
    assert(name.subrange(0, 5) =~= "mcp__"@);
    assert(name.skip(5) =~= rest);
    let n = server.len() as int;
    lemma_find_from(rest, "__"@, 0);
    assert(rest.subrange(n, n + 2) =~= "__"@);
    assert(occurs_at(rest, "__"@, n));
    let i = find_from(rest, "__"@, 0)->0;
    if i < n {
        assert((server + "_"@).subrange(i, i + 2) =~= rest.subrange(i, i + 2));
        assert(occurs_at(server + "_"@, "__"@, i));
    }
    assert(rest.take(n) =~= server);
    assert(rest.skip(n + 2) =~= tool);
}

} // verus!
