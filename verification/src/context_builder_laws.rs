//! What every prepared context keeps.
use vstd::prelude::*;
use crate::context::{awaiting, complete, lemma_fault_stays, ContextFault, ContextView};
use crate::context_builder::{base_cost, calls_cost, counted, excerpt, first_kept, first_question, last_answer, lemma_turn_starts, message_cost, messages_cost, prepared, shrunk, summary_spec, text_cost, turn, turn_end, turn_starts, ContextPolicy, PrepareFault, TokenEstimator};
use crate::intent::{asked_tool, needs_calculation, needs_search, open_question, visible, visible_all};
use crate::json::{json_text, JsonView};
use crate::message::{CallView, MessageView};
use crate::text::number::dec;
use crate::text::pieces::words_spec;
use crate::text::search::join_spec;

verus! {

proof fn lemma_first_kept<E: TokenEstimator>(
    e: &E,
    ms: Seq<MessageView>,
    k: int,
    used: nat,
    target: int,
    keep: int,
)
    requires
        0 <= k < turn_starts(ms).len(),
        keep >= 1,
        turn_starts(ms).len() - k <= keep,
    ensures
        0 <= first_kept(e, ms, k, used, target, keep) <= k,
        turn_starts(ms).len() - first_kept(e, ms, k, used, target, keep) <= keep,
    decreases k,
{
    if k > 0 && turn_starts(ms).len() - k < keep {
        let next = counted(used + messages_cost(e, turn(ms, k - 1)));
        if next <= target {
            lemma_first_kept(e, ms, k - 1, next, target, keep);
        }
    }
}

/// A prepared context never exceeds the input limit of the policy.
pub proof fn law_prepared_fits_the_window<E: TokenEstimator>(
    e: &E,
    policy: ContextPolicy,
    memory: ContextView,
    tools: JsonView,
)
    ensures
        prepared(e, policy, memory, tools) matches Ok(p) ==> p.estimated_tokens
            <= policy.hard_limit(),
{
}

/// A prepared context ends with the whole current turn: its messages are the
/// visible ones from the start of some turn on, and it is marked as truncated
/// exactly where earlier messages were left out. Where turns were left out,
/// at most as many stay as the policy allows.
pub proof fn law_prepared_keeps_whole_turns<E: TokenEstimator>(
    e: &E,
    policy: ContextPolicy,
    memory: ContextView,
    tools: JsonView,
)
    ensures
        prepared(e, policy, memory, tools) matches Ok(p) ==> ({
            let ms = visible_all(memory.messages);
            exists|k: int|
                0 <= k <= ms.len() && #[trigger] ms.skip(k) == p.messages && p.truncated == (k > 0)
                    && (k > 0 ==> k < ms.len() && ms[k] is User) && (ms.len() > 0 ==> k
                    <= turn_starts(ms).last()) && (p.truncated ==> turns_from(ms, k) <= (
                if policy.recent_turns_to_keep < 1 {
                    1
                } else {
                    policy.recent_turns_to_keep as int
                }))
        }),
{
    let ms = visible_all(memory.messages);
    lemma_turn_starts(ms);
    if let Ok(p) = prepared(e, policy, memory, tools) {
        let base = base_cost(e, memory.system_prompt, json_text(tools));
        let all = counted(base + messages_cost(e, ms));
        let count = turn_starts(ms).len() as int;
        if all <= policy.target() || count == 0 {
            assert(ms.skip(0) =~= ms);
            assert(p.messages =~= ms.skip(0));
        } else {
            let current = counted(base + messages_cost(e, turn(ms, count - 1)));
            let keep = if policy.recent_turns_to_keep < 1 {
                1
            } else {
                policy.recent_turns_to_keep as int
            };
            lemma_first_kept(e, ms, count - 1, current, policy.target(), keep);
            let j = first_kept(e, ms, count - 1, current, policy.target(), keep);
            let k = turn_starts(ms)[j];
            assert(p.messages == ms.skip(k));
            lemma_turns_from(ms, j);
        }
    }
}

/// The number of turns that begin at or behind a position.
pub open spec fn turns_from(ms: Seq<MessageView>, from: int) -> int
{
    turn_starts(ms).filter(|s: int| s >= from).len() as int
}

proof fn lemma_turns_from(ms: Seq<MessageView>, j: int)
    requires
        0 <= j < turn_starts(ms).len(),
    ensures
        turns_from(ms, turn_starts(ms)[j]) == turn_starts(ms).len() - j,
{
    lemma_turn_starts(ms);
    lemma_count_from(turn_starts(ms), j, turn_starts(ms).len() as int);
    assert(turn_starts(ms).take(turn_starts(ms).len() as int) =~= turn_starts(ms));
}

proof fn lemma_count_from(s: Seq<int>, j: int, n: int)
    requires
        0 <= j < s.len(),
        0 <= n <= s.len(),
        forall|a: int, b: int| 0 <= a < b < s.len() ==> s[a] < s[b],
    ensures
        s.take(n).filter(|x: int| x >= s[j]).len() == if n > j {
            n - j
        } else {
            0
        },
    decreases n,
{
    let p = |x: int| x >= s[j];
    if n == 0 {
        crate::seqs::lemma_filter_empty(s, p);
    } else {
        lemma_count_from(s, j, n - 1);
        crate::seqs::lemma_filter_step(s, n - 1, p);
    }
}

proof fn lemma_awaiting_append(a: Seq<MessageView>, b: Seq<MessageView>)
    requires
        awaiting(a) == Ok::<Seq<Seq<char>>, ContextFault>(Seq::empty()),
    ensures
        awaiting(a + b) == awaiting(b),
    decreases b.len(),
{
    if b.len() == 0 {
        assert(a + b =~= a);
    } else {
        assert((a + b).drop_last() =~= a + b.drop_last());
        lemma_awaiting_append(a, b.drop_last());
    }
}

proof fn lemma_complete_before_question(ms: Seq<MessageView>, k: int)
    requires
        0 <= k < ms.len(),
        ms[k] is User,
        awaiting(ms) is Ok,
    ensures
        awaiting(ms.take(k)) == Ok::<Seq<Seq<char>>, ContextFault>(Seq::empty()),
{
    let upto = ms.take(k + 1);
    assert(upto.drop_last() =~= ms.take(k));
    if awaiting(upto) is Err {
        lemma_fault_stays(ms, k + 1);
    }
    if awaiting(ms.take(k)) is Ok {
        assert(awaiting(ms.take(k))->Ok_0 =~= Seq::empty());
    }
}

proof fn lemma_visible_awaiting(ms: Seq<MessageView>)
    ensures
        awaiting(visible_all(ms)) == awaiting(ms),
    decreases ms.len(),
{
    if ms.len() > 0 {
        assert(visible_all(ms).drop_last() =~= visible_all(ms.drop_last()));
        lemma_visible_awaiting(ms.drop_last());
    } else {
        assert(visible_all(ms) =~= ms);
    }
}

/// No tool call is parted from its result: the messages of a prepared context
/// are a complete history by themselves.
pub proof fn law_prepared_is_complete<E: TokenEstimator>(
    e: &E,
    policy: ContextPolicy,
    memory: ContextView,
    tools: JsonView,
)
    ensures
        prepared(e, policy, memory, tools) matches Ok(p) ==> complete(p.messages),
{
    let ms = visible_all(memory.messages);
    if let Ok(p) = prepared(e, policy, memory, tools) {
        lemma_visible_awaiting(memory.messages);
        law_prepared_keeps_whole_turns(e, policy, memory, tools);
        let k = choose|k: int|
            0 <= k <= ms.len() && #[trigger] ms.skip(k) == p.messages && p.truncated == (k > 0) && (
            k > 0 ==> k < ms.len() && ms[k] is User);
        if k > 0 {
            lemma_complete_before_question(ms, k);
            assert(ms.take(k) + ms.skip(k) =~= ms);
            lemma_awaiting_append(ms.take(k), ms.skip(k));
        } else {
            assert(ms.skip(0) =~= ms);
        }
    }
}

/// Nothing is left out of a conversation that fits the target.
pub proof fn law_small_conversations_stay_whole<E: TokenEstimator>(
    e: &E,
    policy: ContextPolicy,
    memory: ContextView,
    tools: JsonView,
)
    requires
        counted(
            base_cost(e, memory.system_prompt, json_text(tools)) + messages_cost(
                e,
                visible_all(memory.messages),
            ),
        ) <= policy.target(),
    ensures
        prepared(e, policy, memory, tools) matches Ok(p) ==> p.messages == visible_all(
            memory.messages,
        ) && !p.truncated && p.summary is None,
        complete(memory.messages) && policy.window_ok() && policy.compact_at_tokens > 0 ==> prepared(
            e,
            policy,
            memory,
            tools,
        ) is Ok,
{
}

/// The turns of a conversation follow one another without a gap, from its
/// first message to its last.
pub proof fn law_turns_partition_the_conversation(ms: Seq<MessageView>, k: int)
    requires
        0 <= k < turn_starts(ms).len(),
    ensures
        turn_starts(ms)[0] == 0,
        turn_starts(ms)[k] < turn_end(ms, k) <= ms.len(),
        k + 1 < turn_starts(ms).len() ==> turn_end(ms, k) == turn_starts(ms)[k + 1],
        k + 1 == turn_starts(ms).len() ==> turn_end(ms, k) == ms.len(),
{
    lemma_turn_starts(ms);
}

/// A turn begins at the first message and wherever the user speaks, and nowhere
/// else.
pub proof fn law_turns_begin_where_the_user_speaks(ms: Seq<MessageView>, i: int)
    ensures
        turn_starts(ms).contains(i) <==> 0 <= i < ms.len() && (i == 0 || ms[i] is User),
    decreases ms.len(),
{
    if ms.len() > 0 {
        let front = ms.drop_last();
        law_turns_begin_where_the_user_speaks(front, i);
        let before = turn_starts(front);
        let after = turn_starts(ms);
        if before.contains(i) {
            let j = choose|j: int| 0 <= j < before.len() && before[j] == i;
            assert(after[j] == i);
        }
        if after.contains(i) && i != ms.len() - 1 {
            let j = choose|j: int| 0 <= j < after.len() && after[j] == i;
            assert(before[j] == i);
        }
        if i == ms.len() - 1 && after.len() > before.len() {
            assert(after[before.len() as int] == i);
        }
        if i == ms.len() - 1 && after.contains(i) {
            lemma_turn_starts(front);
            let j = choose|j: int| 0 <= j < after.len() && after[j] == i;
        }
    }
}

/// The tokens of messages add up.
pub proof fn law_costs_add_up<E: TokenEstimator>(
    e: &E,
    a: Seq<MessageView>,
    b: Seq<MessageView>,
)
    ensures
        messages_cost(e, a + b) == messages_cost(e, a) + messages_cost(e, b),
    decreases b.len(),
{
    if b.len() == 0 {
        assert(a + b =~= a);
    } else {
        assert((a + b).drop_last() =~= a + b.drop_last());
        law_costs_add_up(e, a, b.drop_last());
    }
}

/// The tokens of all texts of a message.
pub open spec fn texts_of(m: MessageView) -> Seq<Seq<char>> {
    match m {
        MessageView::User { content } => seq![content],
        MessageView::Assistant { content, tool_calls } => (match content {
            Some(text) => seq![text],
            None => Seq::empty(),
        }) + texts_of_calls(tool_calls),
        MessageView::Tool { call_id, content, .. } => seq![call_id, content],
    }
}

pub open spec fn texts_of_calls(calls: Seq<CallView>) -> Seq<Seq<char>>
    decreases calls.len(),
{
    if calls.len() == 0 {
        Seq::empty()
    } else {
        texts_of_calls(calls.drop_last()) + seq![
            calls.last().id,
            calls.last().name,
            calls.last().arguments,
        ]
    }
}

pub open spec fn tokens_of_texts<E: TokenEstimator>(e: &E, texts: Seq<Seq<char>>) -> nat
    decreases texts.len(),
{
    if texts.len() == 0 {
        0
    } else {
        tokens_of_texts(e, texts.drop_last()) + e.tokens_of(texts.last())
    }
}

proof fn lemma_tokens_of_three<E: TokenEstimator>(
    e: &E,
    front: Seq<Seq<char>>,
    a: Seq<char>,
    b: Seq<char>,
    c: Seq<char>,
)
    ensures
        tokens_of_texts(e, front + seq![a, b, c]) == tokens_of_texts(e, front) + e.tokens_of(a)
            + e.tokens_of(b) + e.tokens_of(c),
{
    let one = front + seq![a];
    let two = front + seq![a, b];
    let all = front + seq![a, b, c];
    assert(all.drop_last() =~= two);
    assert(two.drop_last() =~= one);
    assert(one.drop_last() =~= front);
    assert(tokens_of_texts(e, one) == tokens_of_texts(e, front) + e.tokens_of(a));
    assert(tokens_of_texts(e, two) == tokens_of_texts(e, one) + e.tokens_of(b));
    assert(tokens_of_texts(e, all) == tokens_of_texts(e, two) + e.tokens_of(c));
}

proof fn lemma_tokens_of_calls<E: TokenEstimator>(
    e: &E,
    front: Seq<Seq<char>>,
    calls: Seq<CallView>,
)
    ensures
        tokens_of_texts(e, front + texts_of_calls(calls)) + 8 * calls.len() <= tokens_of_texts(
            e,
            front,
        ) + calls_cost(e, calls),
    decreases calls.len(),
{
    if calls.len() == 0 {
        assert(front + texts_of_calls(calls) =~= front);
    } else {
        let c = calls.last();
        let before = front + texts_of_calls(calls.drop_last());
        lemma_tokens_of_calls(e, front, calls.drop_last());
        lemma_tokens_of_three(e, before, c.id, c.name, c.arguments);
        assert(front + texts_of_calls(calls) =~= before + seq![c.id, c.name, c.arguments]);
    }
}

/// Every text of a message is counted, and the message itself with four tokens
/// more at least.
pub proof fn law_every_text_is_counted<E: TokenEstimator>(e: &E, m: MessageView)
    ensures
        message_cost(e, m) >= 4 + tokens_of_texts(e, texts_of(m)),
        messages_cost(e, seq![m]) == message_cost(e, m),
{
    assert(seq![m].drop_last() =~= Seq::empty());
    assert(messages_cost(e, Seq::<MessageView>::empty()) == 0);
    let none = Seq::<Seq<char>>::empty();
    assert(tokens_of_texts(e, none) == 0);
    match m {
        MessageView::User { content } => {
            assert(seq![content].drop_last() =~= none);
            assert(tokens_of_texts(e, seq![content]) == e.tokens_of(content));
        },
        MessageView::Tool { call_id, content, .. } => {
            assert(seq![call_id, content].drop_last() =~= seq![call_id]);
            assert(seq![call_id].drop_last() =~= none);
            assert(tokens_of_texts(e, seq![call_id]) == e.tokens_of(call_id));
        },
        MessageView::Assistant { content, tool_calls } => {
            match content {
                Some(text) => {
                    assert(seq![text].drop_last() =~= none);
                    assert(tokens_of_texts(e, seq![text]) == e.tokens_of(text));
                    lemma_tokens_of_calls(e, seq![text], tool_calls);
                },
                None => {
                    lemma_tokens_of_calls(e, none, tool_calls);
                },
            }
        },
    }
}

proof fn lemma_counted_sum(a: nat, b: nat)
    ensures
        counted(counted(a) + b) == counted(a + b),
{
}

proof fn lemma_turn_and_rest<E: TokenEstimator>(e: &E, ms: Seq<MessageView>, k: int)
    requires
        0 < k < turn_starts(ms).len(),
    ensures
        messages_cost(e, ms.skip(turn_starts(ms)[k - 1])) == messages_cost(e, turn(ms, k - 1))
            + messages_cost(e, ms.skip(turn_starts(ms)[k])),
{
    lemma_turn_starts(ms);
    let (a, b) = (turn_starts(ms)[k - 1], turn_starts(ms)[k]);
    assert(ms.skip(a) =~= turn(ms, k - 1) + ms.skip(b));
    law_costs_add_up(e, turn(ms, k - 1), ms.skip(b));
}

/// What is kept fits the target, and one turn more does not.
proof fn lemma_kept_is_maximal<E: TokenEstimator>(
    e: &E,
    ms: Seq<MessageView>,
    k: int,
    base: nat,
    target: int,
    keep: int,
)
    requires
        0 <= k < turn_starts(ms).len(),
        keep >= 1,
        turn_starts(ms).len() - k <= keep,
    ensures
        ({
            let used = counted(base + messages_cost(e, ms.skip(turn_starts(ms)[k])));
            let j = first_kept(e, ms, k, used, target, keep);
            &&& 0 <= j <= k
            &&& turn_starts(ms).len() - j <= keep
            &&& j < k ==> counted(base + messages_cost(e, ms.skip(turn_starts(ms)[j]))) <= target
            &&& j > 0 && turn_starts(ms).len() - j < keep ==> counted(
                base + messages_cost(e, ms.skip(turn_starts(ms)[j - 1])),
            ) > target
        }),
    decreases k,
{
    if k > 0 && turn_starts(ms).len() - k < keep {
        lemma_turn_and_rest(e, ms, k);
        lemma_counted_sum(
            base + messages_cost(e, ms.skip(turn_starts(ms)[k])),
            messages_cost(e, turn(ms, k - 1)),
        );
        lemma_kept_is_maximal(e, ms, k - 1, base, target, keep);
    }
}

/// How often the user speaks.
pub open spec fn questions(ms: Seq<MessageView>) -> nat {
    ms.filter(|m: MessageView| m is User).len()
}

proof fn lemma_questions(ms: Seq<MessageView>)
    ensures
        questions(ms) == turn_starts(ms).len() - if ms.len() > 0 && !(ms[0] is User) {
            1int
        } else {
            0
        },
    decreases ms.len(),
{
    reveal(Seq::filter);
    if ms.len() > 0 {
        let front = ms.drop_last();
        lemma_questions(front);
        if front.len() > 0 {
            assert(front[0] == ms[0]);
        }
    }
}

proof fn lemma_starts_behind(ms: Seq<MessageView>, at: int)
    requires
        0 < at < ms.len(),
        ms[at] is User,
    ensures
        turn_starts(ms.skip(at)).len() + turn_starts(ms.take(at)).len() == turn_starts(ms).len(),
    decreases ms.len(),
{
    let front = ms.drop_last();
    if at == ms.len() - 1 {
        assert(ms.take(at) =~= front);
        assert(ms.skip(at) =~= seq![ms.last()]);
        assert(ms.skip(at).drop_last() =~= Seq::empty());
        assert(turn_starts(Seq::<MessageView>::empty()).len() == 0);
    } else {
        assert(front[at] == ms[at]);
        lemma_starts_behind(front, at);
        assert(front.skip(at) =~= ms.skip(at).drop_last());
        assert(front.take(at) =~= ms.take(at));
        assert(ms.skip(at).last() == ms.last());
    }
}

proof fn lemma_start_number(ms: Seq<MessageView>, j: int)
    requires
        0 <= j < turn_starts(ms).len(),
    ensures
        turn_starts(ms.take(turn_starts(ms)[j])).len() == j,
    decreases ms.len(),
{
    lemma_turn_starts(ms);
    let front = ms.drop_last();
    let before = turn_starts(front);
    let at = turn_starts(ms)[j];
    if j < before.len() {
        lemma_turn_starts(front);
        lemma_start_number(front, j);
        assert(before[j] == at);
        assert(front.take(at) =~= ms.take(at));
    } else {
        assert(at == ms.len() - 1);
        assert(ms.take(at) =~= front);
    }
}

/// The selection of turns is maximal. Where earlier turns are left out and fewer
/// are kept than the policy allows, the turn just before those that are kept
/// would take the context over the target.
pub proof fn law_no_turn_that_fits_is_left_out<E: TokenEstimator>(
    e: &E,
    policy: ContextPolicy,
    memory: ContextView,
    tools: JsonView,
    k: int,
    j: int,
)
    requires
        ({
            let ms = visible_all(memory.messages);
            &&& 0 <= j < k < ms.len()
            &&& j == 0 || ms[j] is User
            &&& forall|i: int| j < i < k ==> !((#[trigger] ms[i]) is User)
            &&& prepared(e, policy, memory, tools) matches Ok(p) && p.messages == ms.skip(k)
            &&& questions(ms.skip(k)) < policy.recent_turns_to_keep
        }),
    ensures
        counted(
            base_cost(e, memory.system_prompt, json_text(tools)) + messages_cost(
                e,
                visible_all(memory.messages).skip(j),
            ),
        ) > policy.target(),
{
    let ms = visible_all(memory.messages);
    let p = prepared(e, policy, memory, tools)->Ok_0;
    let base = base_cost(e, memory.system_prompt, json_text(tools));
    let count = turn_starts(ms).len() as int;
    lemma_turn_starts(ms);
    if counted(base + messages_cost(e, ms)) <= policy.target() {
        assert(p.messages.len() == ms.len());
    } else {
        let keep = policy.recent_turns_to_keep as int;
        let last = turn_starts(ms)[count - 1];
        assert(turn(ms, count - 1) =~= ms.skip(last));
        lemma_kept_is_maximal(e, ms, count - 1, base, policy.target(), keep);
        let current = counted(base + messages_cost(e, turn(ms, count - 1)));
        let f = first_kept(e, ms, count - 1, current, policy.target(), keep);
        let at = turn_starts(ms)[f];
        assert(p.messages == ms.skip(at));
        assert(ms.skip(at).len() == ms.len() - at && ms.skip(k).len() == ms.len() - k);
        assert(at == k);
        lemma_start_number(ms, f);
        lemma_starts_behind(ms, k);
        lemma_questions(ms.skip(k));
        assert(ms.skip(k)[0] == ms[k]);
        let earlier = turn_starts(ms)[f - 1];
        law_turns_begin_where_the_user_speaks(ms, j);
        let q = choose|q: int| 0 <= q < count && turn_starts(ms)[q] == j;
        assert(q < f) by {
            if q >= f {
                assert(turn_starts(ms)[f] <= turn_starts(ms)[q]);
            }
        }
        if q < f - 1 {
            assert(turn_starts(ms)[q] < turn_starts(ms)[f - 1] < turn_starts(ms)[f]);
            assert(ms[turn_starts(ms)[f - 1]] is User);
        }
    }
}

/// The messages that are kept fit the target, unless they are one turn only.
pub proof fn law_kept_turns_fit_the_target<E: TokenEstimator>(
    e: &E,
    policy: ContextPolicy,
    memory: ContextView,
    tools: JsonView,
)
    ensures
        prepared(e, policy, memory, tools) matches Ok(p) ==> counted(
            base_cost(e, memory.system_prompt, json_text(tools)) + messages_cost(e, p.messages),
        ) <= policy.target() || p.messages.len() == 0 || questions(p.messages.skip(1)) == 0,
{
    let ms = visible_all(memory.messages);
    if let Ok(p) = prepared(e, policy, memory, tools) {
        let base = base_cost(e, memory.system_prompt, json_text(tools));
        let count = turn_starts(ms).len() as int;
        lemma_turn_starts(ms);
        if counted(base + messages_cost(e, ms)) > policy.target() && count > 0 {
            let keep = if policy.recent_turns_to_keep < 1 {
                1
            } else {
                policy.recent_turns_to_keep as int
            };
            let last = turn_starts(ms)[count - 1];
            assert(turn(ms, count - 1) =~= ms.skip(last));
            lemma_kept_is_maximal(e, ms, count - 1, base, policy.target(), keep);
            let current = counted(base + messages_cost(e, turn(ms, count - 1)));
            let f = first_kept(e, ms, count - 1, current, policy.target(), keep);
            if f == count - 1 {
                let rest = p.messages.skip(1);
                assert forall|i: int| 0 <= i < rest.len() implies !((#[trigger] rest[i]) is User) by {
                    assert(rest[i] == ms[last + 1 + i]);
                    law_turns_begin_where_the_user_speaks(ms, last + 1 + i);
                    if ms[last + 1 + i] is User {
                        let q = choose|q: int|
                            0 <= q < count && turn_starts(ms)[q] == last + 1 + i;
                        assert(turn_starts(ms)[q] <= last);
                    }
                }
                crate::seqs::lemma_filter_none(rest, |m: MessageView| m is User);
            }
        }
    }
}

/// The estimate of a context counts the prompt, the tools, the summary and the
/// messages that it holds.
pub proof fn law_estimate_counts_what_is_sent<E: TokenEstimator>(
    e: &E,
    policy: ContextPolicy,
    memory: ContextView,
    tools: JsonView,
)
    ensures
        prepared(e, policy, memory, tools) matches Ok(p) ==> p.estimated_tokens == counted(
            base_cost(e, p.system_prompt, json_text(tools)) + messages_cost(e, p.messages)
                + match p.summary {
                Some(text) => text_cost(e, text),
                None => 0,
            },
        ) && p.system_prompt == memory.system_prompt,
{
    let ms = visible_all(memory.messages);
    if turn_starts(ms).len() == 0 {
        lemma_turn_starts(ms);
        assert(messages_cost(e, Seq::<MessageView>::empty()) == 0);
    }
}

/// A summary stands only where turns were left out. It begins as the full one
/// does, which says how many turns were left out, and it fits the window.
pub proof fn law_summary_tells_what_was_left_out<E: TokenEstimator>(
    e: &E,
    policy: ContextPolicy,
    memory: ContextView,
    tools: JsonView,
)
    ensures
        prepared(e, policy, memory, tools) matches Ok(p) ==> ({
            let ms = visible_all(memory.messages);
            let left_out = ms.take(ms.len() - p.messages.len());
            match p.summary {
                None => true,
                Some(text) => p.truncated && left_out.len() > 0 && (text == "…"@ || text.is_prefix_of(
                    summary_spec(left_out)->0,
                )),
            }
        }),
{
    let ms = visible_all(memory.messages);
    lemma_turn_starts(ms);
    if let Ok(p) = prepared(e, policy, memory, tools) {
        let base = base_cost(e, memory.system_prompt, json_text(tools));
        let count = turn_starts(ms).len() as int;
        if counted(base + messages_cost(e, ms)) > policy.target() && count > 0 {
            let keep = if policy.recent_turns_to_keep < 1 {
                1
            } else {
                policy.recent_turns_to_keep as int
            };
            let last = turn_starts(ms)[count - 1];
            assert(turn(ms, count - 1) =~= ms.skip(last));
            lemma_kept_is_maximal(e, ms, count - 1, base, policy.target(), keep);
            let current = counted(base + messages_cost(e, turn(ms, count - 1)));
            let f = first_kept(e, ms, count - 1, current, policy.target(), keep);
            let at = turn_starts(ms)[f];
            assert(p.messages == ms.skip(at));
            let kept_cost = counted(base + messages_cost(e, ms.skip(at)));
            if let Some(full) = summary_spec(ms.take(at)) {
                if kept_cost < policy.hard_limit() {
                    let max = (policy.hard_limit() - kept_cost) as nat;
                    lemma_shrunk_is_a_prefix(e, full, max);
                }
            }
        }
    }
}

proof fn lemma_shrunk_is_a_prefix<E: TokenEstimator>(e: &E, s: Seq<char>, max: nat)
    ensures
        shrunk(e, s, max).is_prefix_of(s),
    decreases s.len(),
{
    if s.len() > 0 && e.tokens_of(s) > max {
        let cut = s.take(
            s.len() - if s.len() / 10 > 1 {
                s.len() / 10
            } else {
                1
            },
        );
        lemma_shrunk_is_a_prefix(e, cut, max);
    }
}

/// The full summary of messages that are left out: how many turns there were,
/// what the user asked first, and what the assistant said last.
pub proof fn law_summary_names_the_first_question_and_the_last_answer(
    ms: Seq<MessageView>,
    i: int,
    j: int,
)
    requires
        0 <= i < ms.len(),
        ms[i] is User,
        forall|k: int| 0 <= k < i ==> !((#[trigger] ms[k]) is User),
        0 <= j < ms.len(),
        ms[j] matches MessageView::Assistant { content: Some(_), .. },
        forall|k: int|
            j < k < ms.len() ==> !((#[trigger] ms[k]) matches MessageView::Assistant {
                content: Some(_),
                ..
            }),
    ensures
        summary_spec(ms) == Some(
            "已省略 "@ + dec(
                questions(ms) + if ms[0] is User {
                    0nat
                } else {
                    1
                },
            ) + " 个较早 Turn"@ + "；"@ + ("早期用户主题："@ + excerpt(ms[i]->User_content)) + "；"@ + (
            "早期助手结论片段："@ + excerpt(ms[j]->Assistant_content->0))
                + "。如需精确信息，请重新询问。"@,
        ),
{
    lemma_first_question(ms, i);
    lemma_last_answer(ms, j);
    lemma_questions(ms);
    let count = "已省略 "@ + dec(turn_starts(ms).len()) + " 个较早 Turn"@;
    let topic = "早期用户主题："@ + excerpt(ms[i]->User_content);
    let conclusion = "早期助手结论片段："@ + excerpt(ms[j]->Assistant_content->0);
    let list = seq![count] + seq![topic] + seq![conclusion];
    assert(list.drop_last() =~= seq![count] + seq![topic]);
    assert(list.drop_last().drop_last() =~= seq![count]);
    assert(list.last() == conclusion);
    assert(list.drop_last().last() == topic);
    reveal_with_fuel(crate::text::search::join_spec, 4);
}

proof fn lemma_first_question(ms: Seq<MessageView>, i: int)
    requires
        0 <= i < ms.len(),
        ms[i] is User,
        forall|k: int| 0 <= k < i ==> !((#[trigger] ms[k]) is User),
    ensures
        first_question(ms) == Some(ms[i]->User_content),
    decreases ms.len(),
{
    let front = ms.drop_last();
    if i < front.len() {
        assert forall|k: int| 0 <= k < i implies !((#[trigger] front[k]) is User) by {
            assert(front[k] == ms[k]);
        }
        lemma_first_question(front, i);
    } else {
        assert forall|k: int| 0 <= k < front.len() implies !((#[trigger] front[k]) is User) by {
            assert(front[k] == ms[k]);
        }
        lemma_no_question(front);
    }
}

proof fn lemma_no_question(ms: Seq<MessageView>)
    requires
        forall|k: int| 0 <= k < ms.len() ==> !((#[trigger] ms[k]) is User),
    ensures
        first_question(ms) is None,
    decreases ms.len(),
{
    if ms.len() > 0 {
        let front = ms.drop_last();
        assert forall|k: int| 0 <= k < front.len() implies !((#[trigger] front[k]) is User) by {
            assert(front[k] == ms[k]);
        }
        lemma_no_question(front);
        assert(ms[ms.len() - 1] == ms.last());
    }
}

proof fn lemma_last_answer(ms: Seq<MessageView>, j: int)
    requires
        0 <= j < ms.len(),
        ms[j] matches MessageView::Assistant { content: Some(_), .. },
        forall|k: int|
            j < k < ms.len() ==> !((#[trigger] ms[k]) matches MessageView::Assistant {
                content: Some(_),
                ..
            }),
    ensures
        last_answer(ms) == Some(ms[j]->Assistant_content->0),
    decreases ms.len(),
{
    let front = ms.drop_last();
    assert(ms[ms.len() - 1] == ms.last());
    if j < front.len() {
        assert forall|k: int| j < k < front.len() implies !((
        #[trigger] front[k]) matches MessageView::Assistant { content: Some(_), .. }) by {
            assert(front[k] == ms[k]);
        }
        lemma_last_answer(front, j);
        assert(front[j] == ms[j]);
    }
}

proof fn lemma_questions_behind_the_first(ms: Seq<MessageView>)
    requires
        ms.len() > 0,
    ensures
        questions(ms.skip(1)) + 1 == turn_starts(ms).len(),
{
    let p = |m: MessageView| m is User;
    lemma_questions(ms);
    let first = seq![ms[0]];
    assert(ms =~= first + ms.skip(1));
    crate::seqs::lemma_filter_concat(first, ms.skip(1), p);
    if ms[0] is User {
        crate::seqs::lemma_filter_all(first, p);
    } else {
        crate::seqs::lemma_filter_none(first, p);
    }
}

/// Where a conversation is over the target, no more turns are kept than the
/// policy allows, but for one at least.
pub proof fn law_no_more_turns_are_kept_than_allowed<E: TokenEstimator>(
    e: &E,
    policy: ContextPolicy,
    memory: ContextView,
    tools: JsonView,
)
    requires
        counted(
            base_cost(e, memory.system_prompt, json_text(tools)) + messages_cost(
                e,
                visible_all(memory.messages),
            ),
        ) > policy.target(),
    ensures
        prepared(e, policy, memory, tools) matches Ok(p) ==> p.messages.len() == 0 || questions(
            p.messages.skip(1),
        ) == 0 || questions(p.messages.skip(1)) < policy.recent_turns_to_keep,
{
    let ms = visible_all(memory.messages);
    lemma_turn_starts(ms);
    if let Ok(p) = prepared(e, policy, memory, tools) {
        let base = base_cost(e, memory.system_prompt, json_text(tools));
        let count = turn_starts(ms).len() as int;
        if count > 0 {
            let keep = if policy.recent_turns_to_keep < 1 {
                1
            } else {
                policy.recent_turns_to_keep as int
            };
            let last = turn_starts(ms)[count - 1];
            assert(turn(ms, count - 1) =~= ms.skip(last));
            lemma_kept_is_maximal(e, ms, count - 1, base, policy.target(), keep);
            let current = counted(base + messages_cost(e, turn(ms, count - 1)));
            let f = first_kept(e, ms, count - 1, current, policy.target(), keep);
            let at = turn_starts(ms)[f];
            assert(p.messages == ms.skip(at));
            lemma_start_number(ms, f);
            if at > 0 {
                law_turns_begin_where_the_user_speaks(ms, at);
                assert(turn_starts(ms).contains(at));
                lemma_starts_behind(ms, at);
            } else {
                assert(ms.skip(at) =~= ms);
                assert(ms.take(at) =~= Seq::empty());
                assert(turn_starts(Seq::<MessageView>::empty()).len() == 0);
            }
            lemma_questions_behind_the_first(ms.skip(at));
        }
    }
}

/// Where turns are left out and there is room beside those that are kept, a
/// summary stands for them, the full one where it fits.
pub proof fn law_left_out_turns_are_summarized<E: TokenEstimator>(
    e: &E,
    policy: ContextPolicy,
    memory: ContextView,
    tools: JsonView,
)
    ensures
        prepared(e, policy, memory, tools) matches Ok(p) ==> p.truncated ==> ({
            let ms = visible_all(memory.messages);
            let full = summary_spec(ms.take(ms.len() - p.messages.len()))->0;
            let used = counted(
                base_cost(e, memory.system_prompt, json_text(tools)) + messages_cost(e, p.messages),
            );
            &&& p.summary is Some <==> used < policy.hard_limit()
            &&& used + text_cost(e, full) <= policy.hard_limit() ==> p.summary == Some(full)
        }),
{
    let ms = visible_all(memory.messages);
    lemma_turn_starts(ms);
    if let Ok(p) = prepared(e, policy, memory, tools) {
        if p.truncated {
            let base = base_cost(e, memory.system_prompt, json_text(tools));
            let count = turn_starts(ms).len() as int;
            let keep = if policy.recent_turns_to_keep < 1 {
                1
            } else {
                policy.recent_turns_to_keep as int
            };
            let last = turn_starts(ms)[count - 1];
            assert(turn(ms, count - 1) =~= ms.skip(last));
            lemma_kept_is_maximal(e, ms, count - 1, base, policy.target(), keep);
            let current = counted(base + messages_cost(e, turn(ms, count - 1)));
            let f = first_kept(e, ms, count - 1, current, policy.target(), keep);
            let at = turn_starts(ms)[f];
            assert(p.messages == ms.skip(at));
            assert(ms.len() - p.messages.len() == at);
            assert(ms.take(at).len() > 0);
        }
    }
}

/// A context is refused for its size only where the prompt and the tools, or
/// these with the last turn, are over the window.
pub proof fn law_contexts_are_refused_for_what_cannot_be_left_out<E: TokenEstimator>(
    e: &E,
    policy: ContextPolicy,
    memory: ContextView,
    tools: JsonView,
    j: int,
)
    requires
        0 <= j < memory.messages.len(),
        j == 0 || memory.messages[j] is User,
        forall|i: int| j < i < memory.messages.len() ==> !((#[trigger] memory.messages[i]) is User),
    ensures
        ({
            let ms = visible_all(memory.messages);
            let base = base_cost(e, memory.system_prompt, json_text(tools));
            let with_last = counted(base + messages_cost(e, ms.skip(j)));
            match prepared(e, policy, memory, tools) {
                Ok(_) => base <= policy.hard_limit() && with_last <= policy.hard_limit(),
                Err(PrepareFault::BaseTooLarge) => base > policy.hard_limit(),
                Err(PrepareFault::TurnTooLarge) => base <= policy.hard_limit() && with_last
                    > policy.hard_limit(),
                _ => true,
            }
        }),
{
    let ms = visible_all(memory.messages);
    let base = base_cost(e, memory.system_prompt, json_text(tools));
    let count = turn_starts(ms).len() as int;
    lemma_turn_starts(ms);
    assert(ms[j] is User <==> memory.messages[j] is User);
    law_turns_begin_where_the_user_speaks(ms, j);
    let q = choose|q: int| 0 <= q < count && turn_starts(ms)[q] == j;
    let last = turn_starts(ms)[count - 1];
    if q < count - 1 {
        assert(turn_starts(ms)[q] < last);
        assert(turn_starts(ms).contains(last));
        law_turns_begin_where_the_user_speaks(ms, last);
        assert(memory.messages[last] is User);
    }
    assert(turn(ms, count - 1) =~= ms.skip(last));
    assert(ms =~= ms.take(j) + ms.skip(j));
    law_costs_add_up(e, ms.take(j), ms.skip(j));
}

/// The tokens of texts, each of which counts as one token at least.
pub open spec fn cost_of_texts<E: TokenEstimator>(e: &E, texts: Seq<Seq<char>>) -> nat
    decreases texts.len(),
{
    if texts.len() == 0 {
        0
    } else {
        cost_of_texts(e, texts.drop_last()) + if e.tokens_of(texts.last()) > 1 {
            e.tokens_of(texts.last())
        } else {
            1
        }
    }
}

proof fn lemma_cost_of_calls<E: TokenEstimator>(
    e: &E,
    front: Seq<Seq<char>>,
    calls: Seq<CallView>,
)
    ensures
        cost_of_texts(e, front + texts_of_calls(calls)) + 8 * calls.len() == cost_of_texts(e, front)
            + calls_cost(e, calls),
    decreases calls.len(),
{
    if calls.len() == 0 {
        assert(front + texts_of_calls(calls) =~= front);
    } else {
        let c = calls.last();
        let before = front + texts_of_calls(calls.drop_last());
        lemma_cost_of_calls(e, front, calls.drop_last());
        let one = before.push(c.id);
        let two = one.push(c.name);
        let all = two.push(c.arguments);
        assert(all.drop_last() =~= two);
        assert(two.drop_last() =~= one);
        assert(one.drop_last() =~= before);
        assert(front + texts_of_calls(calls) =~= all);
        assert(cost_of_texts(e, one) == cost_of_texts(e, before) + text_cost(e, c.id));
        assert(cost_of_texts(e, two) == cost_of_texts(e, one) + text_cost(e, c.name));
        assert(cost_of_texts(e, all) == cost_of_texts(e, two) + text_cost(e, c.arguments));
    }
}

/// A message takes four tokens, eight for each of its calls, and those of its
/// texts, each of which counts as one token at least.
pub proof fn law_messages_cost_their_texts<E: TokenEstimator>(e: &E, m: MessageView)
    ensures
        message_cost(e, m) == 4 + cost_of_texts(e, texts_of(m)) + if m is Assistant {
            8 * m->Assistant_tool_calls.len()
        } else {
            0
        },
{
    let none = Seq::<Seq<char>>::empty();
    assert(cost_of_texts(e, none) == 0);
    match m {
        MessageView::User { content } => {
            assert(seq![content].drop_last() =~= none);
            assert(cost_of_texts(e, seq![content]) == text_cost(e, content));
        },
        MessageView::Tool { call_id, content, .. } => {
            assert(seq![call_id, content].drop_last() =~= seq![call_id]);
            assert(seq![call_id].drop_last() =~= none);
            assert(cost_of_texts(e, seq![call_id]) == text_cost(e, call_id));
            assert(cost_of_texts(e, seq![call_id, content]) == text_cost(e, call_id) + text_cost(
                e,
                content,
            ));
        },
        MessageView::Assistant { content, tool_calls } => {
            match content {
                Some(text) => {
                    assert(seq![text].drop_last() =~= none);
                    assert(cost_of_texts(e, seq![text]) == text_cost(e, text));
                    lemma_cost_of_calls(e, seq![text], tool_calls);
                },
                None => {
                    lemma_cost_of_calls(e, none, tool_calls);
                },
            }
        },
    }
}

/// A summary is shortened only as far as it has to be: what is left fits, and a
/// beginning that is longer by no more than a tenth does not.
pub proof fn law_summaries_are_shortened_step_by_step<E: TokenEstimator>(
    e: &E,
    s: Seq<char>,
    max: nat,
) -> (n: int)
    requires
        s.len() > 0,
        e.tokens_of(s) > max,
    ensures
        shrunk(e, s, max).len() == 0 || e.tokens_of(shrunk(e, s, max)) <= max,
        shrunk(e, s, max).len() < n <= s.len(),
        e.tokens_of(s.take(n)) > max,
        n - shrunk(e, s, max).len() <= n / 10 || n - shrunk(e, s, max).len() == 1,
    decreases s.len(),
{
    let less = s.len() - if s.len() / 10 > 1 {
        s.len() / 10
    } else {
        1
    };
    let cut = s.take(less);
    if cut.len() == 0 || e.tokens_of(cut) <= max {
        assert(s.take(s.len() as int) =~= s);
        s.len() as int
    } else {
        let n = law_summaries_are_shortened_step_by_step(e, cut, max);
        assert(cut.take(n) =~= s.take(n));
        n
    }
}

/// What a context forces: the tool that the open question asks for; where it asks
/// for none, a calculation or a search where the question needs one, and not both.
pub proof fn law_contexts_force_what_was_asked_for<E: TokenEstimator>(
    e: &E,
    policy: ContextPolicy,
    memory: ContextView,
    tools: JsonView,
)
    ensures
        prepared(e, policy, memory, tools) matches Ok(p) ==> ({
            let question = open_question(visible_all(memory.messages));
            &&& question is None ==> p.forced_tool_name is None && !p.force_calculation
                && !p.force_search_docs
            &&& question matches Some(q) ==> {
                &&& p.forced_tool_name == asked_tool(q, tools.items())
                &&& p.force_calculation <==> p.forced_tool_name is None && needs_calculation(q)
                &&& p.force_search_docs <==> p.forced_tool_name is None && !needs_calculation(q)
                    && needs_search(q)
            }
        }),
{
}

/// An excerpt holds the words of a text with single spaces between them, up to a
/// hundred and twenty characters, and tells where it was cut.
pub proof fn law_excerpts_hold_the_words(text: Seq<char>)
    ensures
        ({
            let words = join_spec(words_spec(text), " "@);
            &&& words.len() <= 120 ==> excerpt(text) == words
            &&& words.len() > 120 ==> excerpt(text).len() == 121 && excerpt(text).last() == '…'
                && excerpt(text).drop_last() == words.take(120)
        }),
{
    let words = join_spec(words_spec(text), " "@);
    if words.len() > 120 {
        assert(excerpt(text).drop_last() =~= words.take(120));
    }
}

} // verus!
