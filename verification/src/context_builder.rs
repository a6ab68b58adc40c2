//! The part of a conversation that a model gets to see, within a budget.
use vstd::prelude::*;
use crate::context::{history_fault, ContextError, ContextFault, ContextMemory, ContextView};
use crate::intent::{explicit_tool, latest_explicit_tool_request, latest_requires_calculation, latest_requires_search_docs, needs_calculation, needs_search, open_question, visible_all, visible_messages};
use crate::json::{compact, json_text, Json, JsonView};
use crate::message::{calls_view, copy_messages, messages_view, CallView, Message, MessageView, ToolCall};
use crate::text::chars::{chars_of, lemma_views_push, take_chars, text_of, view_opt, views};
use crate::text::number::{dec, decimal_size};
use crate::text::pieces::{words, words_spec};
use crate::text::search::{join, join_spec};
use crate::tokens::{estimate, tokens};

verus! {

/// The window of a model, what is kept free for its answer, the size at which
/// older turns are left out, and how many turns stay at most.
#[derive(Clone, Copy, Debug, PartialEq, Eq, Structural)]
pub struct ContextPolicy {
    pub max_context_tokens: usize,
    pub reserved_output_tokens: usize,
    pub compact_at_tokens: usize,
    pub recent_turns_to_keep: usize,
}

/// The budget where nothing else is set.
pub open spec fn default_policy() -> ContextPolicy {
    ContextPolicy {
        max_context_tokens: 1_000_000,
        reserved_output_tokens: 100_000,
        compact_at_tokens: 800_000,
        recent_turns_to_keep: 20,
    }
}

impl Default for ContextPolicy {
    fn default() -> (r: ContextPolicy)
        ensures
            r == default_policy(),
    {
        ContextPolicy {
            max_context_tokens: 1_000_000,
            reserved_output_tokens: 100_000,
            compact_at_tokens: 800_000,
            recent_turns_to_keep: 20,
        }
    }
}

/// Why no context can be prepared.
#[derive(Clone, Debug, PartialEq)]
pub enum PrepareError {
    Context(ContextError),
    /// The window is not larger than what is kept free for the answer.
    WindowTooSmall,
    /// The size at which older turns are left out is zero.
    ThresholdZero,
    /// The prompt and the tools alone exceed the limit.
    BaseTooLarge,
    /// The current turn does not fit.
    TurnTooLarge,
    /// The summary does not fit.
    SummaryTooLarge,
}

#[verifier::ext_equal]
pub enum PrepareFault {
    Context(ContextFault),
    WindowTooSmall,
    ThresholdZero,
    BaseTooLarge,
    TurnTooLarge,
    SummaryTooLarge,
}

impl View for PrepareError {
    type V = PrepareFault;

    open spec fn view(&self) -> PrepareFault {
        match self {
            PrepareError::Context(e) => PrepareFault::Context(e@),
            PrepareError::WindowTooSmall => PrepareFault::WindowTooSmall,
            PrepareError::ThresholdZero => PrepareFault::ThresholdZero,
            PrepareError::BaseTooLarge => PrepareFault::BaseTooLarge,
            PrepareError::TurnTooLarge => PrepareFault::TurnTooLarge,
            PrepareError::SummaryTooLarge => PrepareFault::SummaryTooLarge,
        }
    }
}

impl PrepareFault {
    pub open spec fn text(self) -> Seq<char> {
        match self {
            PrepareFault::Context(fault) => fault.text(),
            PrepareFault::WindowTooSmall => "上下文窗口必须大于输出预留 Token"@,
            PrepareFault::ThresholdZero => "上下文整理阈值必须大于 0"@,
            PrepareFault::BaseTooLarge => "系统提示和工具定义已经超过上下文输入上限"@,
            PrepareFault::TurnTooLarge => "系统提示、工具定义和当前 Turn 已超过上下文输入上限"@,
            PrepareFault::SummaryTooLarge => "摘要和当前上下文超过输入上限"@,
        }
    }
}

impl PrepareError {
    /// The message shown for the error.
    pub fn message(&self) -> (r: String)
        ensures
            r@ == self@.text(),
    {
        match self {
            PrepareError::Context(e) => e.message(),
            PrepareError::WindowTooSmall => "上下文窗口必须大于输出预留 Token".to_owned(),
            PrepareError::ThresholdZero => "上下文整理阈值必须大于 0".to_owned(),
            PrepareError::BaseTooLarge => "系统提示和工具定义已经超过上下文输入上限".to_owned(),
            PrepareError::TurnTooLarge => {
                "系统提示、工具定义和当前 Turn 已超过上下文输入上限".to_owned()
            },
            PrepareError::SummaryTooLarge => "摘要和当前上下文超过输入上限".to_owned(),
        }
    }
}

impl ContextPolicy {
    pub open spec fn window_ok(self) -> bool {
        self.reserved_output_tokens < self.max_context_tokens
    }

    /// The most tokens that the input may have.
    pub open spec fn hard_limit(self) -> int {
        self.max_context_tokens - self.reserved_output_tokens
    }

    /// The size that the input is reduced to where it can be.
    pub open spec fn target(self) -> int {
        if self.compact_at_tokens < self.hard_limit() {
            self.compact_at_tokens as int
        } else {
            self.hard_limit()
        }
    }

    /// The most tokens that the input may have.
    pub fn hard_input_limit(&self) -> (r: Result<usize, PrepareError>)
        ensures
            match r {
                Ok(n) => self.window_ok() && n == self.hard_limit(),
                Err(e) => !self.window_ok() && e@ == PrepareFault::WindowTooSmall,
            },
    {
        if self.max_context_tokens <= self.reserved_output_tokens {
            return Err(PrepareError::WindowTooSmall);
        }
        Ok(self.max_context_tokens - self.reserved_output_tokens)
    }

    fn target_input_tokens(&self) -> (r: Result<usize, PrepareError>)
        ensures
            match r {
                Ok(n) => self.compact_at_tokens > 0 && self.window_ok() && n == self.target(),
                Err(e) => if self.compact_at_tokens == 0 {
                    e@ == PrepareFault::ThresholdZero
                } else {
                    !self.window_ok() && e@ == PrepareFault::WindowTooSmall
                },
            },
    {
        if self.compact_at_tokens == 0 {
            return Err(PrepareError::ThresholdZero);
        }
        match self.hard_input_limit() {
            Ok(limit) => Ok(
                if self.compact_at_tokens < limit {
                    self.compact_at_tokens
                } else {
                    limit
                },
            ),
            Err(e) => Err(e),
        }
    }
}

/// An estimate of how many tokens a text takes.
pub trait TokenEstimator {
    /// How many tokens a text takes: one for each character, unless an
    /// estimator counts otherwise.
    open spec fn tokens_of(&self, text: Seq<char>) -> nat {
        text.len()
    }

    /// The estimate for a text.
    fn estimate_text(&self, text: &str) -> (r: usize)
        ensures
            r == self.tokens_of(text@),
    ;
}

/// An estimate by the characters of a text, without a tokenizer.
#[derive(Clone, Copy, Debug, PartialEq, Eq, Structural)]
pub struct HeuristicTokenEstimator;

impl Default for HeuristicTokenEstimator {
    fn default() -> (r: HeuristicTokenEstimator)
        ensures
            r == HeuristicTokenEstimator,
    {
        HeuristicTokenEstimator
    }
}

impl TokenEstimator for HeuristicTokenEstimator {
    open spec fn tokens_of(&self, text: Seq<char>) -> nat {
        tokens(text)
    }

    fn estimate_text(&self, text: &str) -> (r: usize) {
        estimate(text)
    }
}

/// A number of tokens as it is counted: at most `usize::MAX`.
pub open spec fn counted(n: nat) -> nat {
    if n <= usize::MAX {
        n
    } else {
        usize::MAX as nat
    }
}

/// The tokens of a text, at least one.
pub open spec fn text_cost<E: TokenEstimator>(e: &E, text: Seq<char>) -> nat {
    if e.tokens_of(text) == 0 {
        1
    } else {
        e.tokens_of(text)
    }
}

/// The tokens of a tool call with its protocol fields.
pub open spec fn call_cost<E: TokenEstimator>(e: &E, c: CallView) -> nat {
    8 + text_cost(e, c.id) + text_cost(e, c.name) + text_cost(e, c.arguments)
}

pub open spec fn calls_cost<E: TokenEstimator>(e: &E, calls: Seq<CallView>) -> nat
    decreases calls.len(),
{
    if calls.len() == 0 {
        0
    } else {
        calls_cost(e, calls.drop_last()) + call_cost(e, calls.last())
    }
}

/// The tokens of a message with its role.
pub open spec fn message_cost<E: TokenEstimator>(e: &E, m: MessageView) -> nat {
    match m {
        MessageView::User { content } => 4 + text_cost(e, content),
        MessageView::Assistant { content, tool_calls } => 4 + (match content {
            Some(text) => text_cost(e, text),
            None => 0,
        }) + calls_cost(e, tool_calls),
        MessageView::Tool { call_id, content, .. } => 4 + text_cost(e, call_id) + text_cost(
            e,
            content,
        ),
    }
}

pub open spec fn messages_cost<E: TokenEstimator>(e: &E, ms: Seq<MessageView>) -> nat
    decreases ms.len(),
{
    if ms.len() == 0 {
        0
    } else {
        messages_cost(e, ms.drop_last()) + message_cost(e, ms.last())
    }
}

/// Where the turns of a conversation begin: at its first message and at every
/// later message of the user.
pub open spec fn turn_starts(ms: Seq<MessageView>) -> Seq<int>
    decreases ms.len(),
{
    if ms.len() == 0 {
        Seq::empty()
    } else {
        let before = turn_starts(ms.drop_last());
        if ms.len() == 1 || ms.last() is User {
            before.push(ms.len() - 1)
        } else {
            before
        }
    }
}

/// The end of the turn at position `k` of the starts.
pub open spec fn turn_end(ms: Seq<MessageView>, k: int) -> int {
    if k + 1 < turn_starts(ms).len() {
        turn_starts(ms)[k + 1]
    } else {
        ms.len() as int
    }
}

/// The messages of a turn.
pub open spec fn turn(ms: Seq<MessageView>, k: int) -> Seq<MessageView> {
    ms.subrange(turn_starts(ms)[k], turn_end(ms, k))
}

/// The starts ascend from zero and lie within the conversation.
pub proof fn lemma_turn_starts(ms: Seq<MessageView>)
    ensures
        ms.len() > 0 ==> turn_starts(ms).len() > 0 && turn_starts(ms)[0] == 0,
        ms.len() == 0 ==> turn_starts(ms).len() == 0,
        turn_starts(ms).len() <= ms.len(),
        forall|i: int|
            0 <= i < turn_starts(ms).len() ==> 0 <= #[trigger] turn_starts(ms)[i] < ms.len(),
        forall|i: int, j: int|
            0 <= i < j < turn_starts(ms).len() ==> turn_starts(ms)[i] < turn_starts(ms)[j],
        forall|i: int|
            0 < i < turn_starts(ms).len() ==> ms[#[trigger] turn_starts(ms)[i]] is User,
    decreases ms.len(),
{
    if ms.len() > 0 {
        let front = ms.drop_last();
        lemma_turn_starts(front);
        let before = turn_starts(front);
        assert forall|i: int| 0 < i < turn_starts(ms).len() implies ms[#[trigger] turn_starts(
            ms,
        )[i]] is User by {
            if i < before.len() {
                assert(front[before[i]] is User);
            }
        }
    }
}

/// The first 120 characters of a text with its white space folded.
pub open spec fn excerpt(text: Seq<char>) -> Seq<char> {
    let folded = join_spec(words_spec(text), " "@);
    if folded.len() > 120 {
        folded.take(120).push('…')
    } else {
        folded
    }
}

/// The first 120 characters of a text with its white space folded.
pub fn compact_text(text: &str) -> (r: String)
    ensures
        r@ == excerpt(text@),
{
    let folded = join(&words(text), " ");
    let mut r = take_chars(&folded, 120);
    if folded.as_str().unicode_len() > 120 {
        r.push('…');
    }
    r
}

/// The first question of a conversation.
pub open spec fn first_question(ms: Seq<MessageView>) -> Option<Seq<char>>
    decreases ms.len(),
{
    if ms.len() == 0 {
        None
    } else {
        match first_question(ms.drop_last()) {
            Some(q) => Some(q),
            None => match ms.last() {
                MessageView::User { content } => Some(content),
                _ => None,
            },
        }
    }
}

/// The last text of the assistant.
pub open spec fn last_answer(ms: Seq<MessageView>) -> Option<Seq<char>>
    decreases ms.len(),
{
    if ms.len() == 0 {
        None
    } else {
        match ms.last() {
            MessageView::Assistant { content: Some(text), .. } => Some(text),
            _ => last_answer(ms.drop_last()),
        }
    }
}

/// The summary of messages that are left out.
pub open spec fn summary_spec(ms: Seq<MessageView>) -> Option<Seq<char>> {
    if ms.len() == 0 {
        None
    } else {
        let count = "已省略 "@ + dec(turn_starts(ms).len()) + " 个较早 Turn"@;
        let topic = match first_question(ms) {
            Some(q) => seq!["早期用户主题："@ + excerpt(q)],
            None => Seq::empty(),
        };
        let conclusion = match last_answer(ms) {
            Some(a) => seq!["早期助手结论片段："@ + excerpt(a)],
            None => Seq::empty(),
        };
        Some(
            join_spec(seq![count] + topic + conclusion, "；"@) + "。如需精确信息，请重新询问。"@,
        )
    }
}

/// A text shortened by a tenth at a time until it fits.
pub open spec fn shrunk<E: TokenEstimator>(e: &E, s: Seq<char>, max: nat) -> Seq<char>
    decreases s.len(),
{
    if s.len() == 0 || e.tokens_of(s) <= max {
        s
    } else {
        shrunk(
            e,
            s.take(
                s.len() - if s.len() / 10 > 1 {
                    s.len() / 10
                } else {
                    1
                },
            ),
            max,
        )
    }
}

/// A summary cut to a budget; of one that does not fit at all an ellipsis
/// stays.
pub open spec fn fitted_summary<E: TokenEstimator>(e: &E, s: Seq<char>, max: nat) -> Seq<char> {
    if text_cost(e, s) <= max {
        s
    } else {
        let cut = shrunk(e, s, max);
        if cut.len() == 0 {
            "…"@
        } else {
            cut
        }
    }
}

/// What a model gets to see.
#[verifier::ext_equal]
pub struct PreparedView {
    pub system_prompt: Seq<char>,
    pub summary: Option<Seq<char>>,
    pub messages: Seq<MessageView>,
    pub estimated_tokens: nat,
    pub truncated: bool,
    pub forced_tool_name: Option<Seq<char>>,
    pub force_calculation: bool,
    pub force_search_docs: bool,
}

/// The tokens of the prompt and of the tools as they are written.
pub open spec fn base_cost<E: TokenEstimator>(e: &E, prompt: Seq<char>, written: Seq<char>) -> nat {
    counted(text_cost(e, prompt) + text_cost(e, written))
}

/// The first turn that is kept, when those from `k` on are and take `used`
/// tokens: as many more as the target and the number of turns allow.
pub open spec fn first_kept<E: TokenEstimator>(
    e: &E,
    ms: Seq<MessageView>,
    k: int,
    used: nat,
    target: int,
    keep: int,
) -> int
    decreases k,
{
    if k <= 0 || turn_starts(ms).len() - k >= keep {
        k
    } else {
        let next = counted(used + messages_cost(e, turn(ms, k - 1)));
        if next > target {
            k
        } else {
            first_kept(e, ms, k - 1, next, target, keep)
        }
    }
}

/// The context over the visible messages `ms`, all of which has been checked
/// but the budget.
pub open spec fn budgeted<E: TokenEstimator>(
    e: &E,
    policy: ContextPolicy,
    prompt: Seq<char>,
    ms: Seq<MessageView>,
    tools: JsonView,
    written: Seq<char>,
) -> Result<PreparedView, PrepareFault> {
    let hard = policy.hard_limit();
    let target = policy.target();
    let base = base_cost(e, prompt, written);
    let forced = explicit_tool(ms, tools);
    let question = open_question(ms);
    let calculation = forced is None && question is Some && needs_calculation(question->0);
    let all = counted(base + messages_cost(e, ms));
    let whole = PreparedView {
        system_prompt: prompt,
        summary: None,
        messages: ms,
        estimated_tokens: all,
        truncated: false,
        forced_tool_name: forced,
        force_calculation: calculation,
        force_search_docs: forced is None && !calculation && question is Some && needs_search(
            question->0,
        ),
    };
    let count = turn_starts(ms).len() as int;
    if base > hard {
        Err(PrepareFault::BaseTooLarge)
    } else if all <= target {
        Ok(whole)
    } else if count == 0 {
        Ok(PreparedView { messages: Seq::empty(), estimated_tokens: base, ..whole })
    } else {
        let current = counted(base + messages_cost(e, turn(ms, count - 1)));
        let keep = if policy.recent_turns_to_keep < 1 {
            1
        } else {
            policy.recent_turns_to_keep as int
        };
        let k = first_kept(e, ms, count - 1, current, target, keep);
        let first = turn_starts(ms)[k];
        let kept = ms.skip(first);
        let kept_cost = counted(base + messages_cost(e, kept));
        let summary = match summary_spec(ms.take(first)) {
            Some(text) => if kept_cost < hard {
                Some(fitted_summary(e, text, (hard - kept_cost) as nat))
            } else {
                None
            },
            None => None,
        };
        let summary_cost = match summary {
            Some(text) => text_cost(e, text),
            None => 0,
        };
        let selected = counted(base + summary_cost + messages_cost(e, kept));
        if current > hard {
            Err(PrepareFault::TurnTooLarge)
        } else if selected > hard {
            Err(PrepareFault::SummaryTooLarge)
        } else {
            Ok(
                PreparedView {
                    summary,
                    messages: kept,
                    estimated_tokens: selected,
                    truncated: first > 0,
                    ..whole
                },
            )
        }
    }
}

/// The context that a policy prepares from a history.
pub open spec fn prepared<E: TokenEstimator>(
    e: &E,
    policy: ContextPolicy,
    memory: ContextView,
    tools: JsonView,
) -> Result<PreparedView, PrepareFault> {
    prepared_from(e, policy, memory, tools, json_text(tools))
}

/// The context that a policy prepares from a history, given the tools as they
/// are written.
pub open spec fn prepared_from<E: TokenEstimator>(
    e: &E,
    policy: ContextPolicy,
    memory: ContextView,
    tools: JsonView,
    written: Seq<char>,
) -> Result<PreparedView, PrepareFault> {
    match history_fault(memory.messages) {
        Some(fault) => Err(PrepareFault::Context(fault)),
        None => if !policy.window_ok() {
            Err(PrepareFault::WindowTooSmall)
        } else if policy.compact_at_tokens == 0 {
            Err(PrepareFault::ThresholdZero)
        } else {
            budgeted(
                e,
                policy,
                memory.system_prompt,
                visible_all(memory.messages),
                tools,
                written,
            )
        },
    }
}

/// What a model gets to see.
#[derive(Clone, Debug)]
pub struct PreparedContext {
    system_prompt: String,
    summary: Option<String>,
    messages: Vec<Message>,
    estimated_tokens: usize,
    truncated: bool,
    forced_tool_name: Option<String>,
    force_calculation: bool,
    force_search_docs: bool,
}

impl View for PreparedContext {
    type V = PreparedView;

    closed spec fn view(&self) -> PreparedView {
        PreparedView {
            system_prompt: self.system_prompt@,
            summary: view_opt(self.summary),
            messages: messages_view(self.messages@),
            estimated_tokens: self.estimated_tokens as nat,
            truncated: self.truncated,
            forced_tool_name: view_opt(self.forced_tool_name),
            force_calculation: self.force_calculation,
            force_search_docs: self.force_search_docs,
        }
    }
}

fn opt_str(o: &Option<String>) -> (r: Option<&str>)
    ensures
        match r {
            Some(t) => view_opt(*o) == Some(t@),
            None => view_opt(*o) is None,
        },
{
    match o {
        Some(t) => Some(t.as_str()),
        None => None,
    }
}

impl PreparedContext {
    /// The system prompt of the request.
    pub fn system_prompt(&self) -> (r: &str)
        ensures
            r@ == self@.system_prompt,
    {
        self.system_prompt.as_str()
    }

    /// The messages that the model sees.
    pub fn messages(&self) -> (r: &[Message])
        ensures
            messages_view(r@) == self@.messages,
    {
        self.messages.as_slice()
    }

    /// The summary of the turns that were left out.
    pub fn summary(&self) -> (r: Option<&str>)
        ensures
            match r {
                Some(t) => self@.summary == Some(t@),
                None => self@.summary is None,
            },
    {
        opt_str(&self.summary)
    }

    /// The estimated tokens of the prompt, the tools, the summary and the
    /// messages.
    pub fn estimated_tokens(&self) -> (r: usize)
        ensures
            r == self@.estimated_tokens,
    {
        self.estimated_tokens
    }

    /// Whether earlier turns were left out.
    pub fn truncated(&self) -> (r: bool)
        ensures
            r == self@.truncated,
    {
        self.truncated
    }

    /// The tool that the user asked for by name.
    pub fn forced_tool_name(&self) -> (r: Option<&str>)
        ensures
            match r {
                Some(t) => self@.forced_tool_name == Some(t@),
                None => self@.forced_tool_name is None,
            },
    {
        opt_str(&self.forced_tool_name)
    }

    /// Whether the model has to calculate with the tool.
    pub fn force_calculation(&self) -> (r: bool)
        ensures
            r == self@.force_calculation,
    {
        self.force_calculation
    }

    /// Whether the model has to search the local documents.
    pub fn force_search_docs(&self) -> (r: bool)
        ensures
            r == self@.force_search_docs,
    {
        self.force_search_docs
    }
}

/// The turns of a conversation as ranges of its messages.
pub fn turn_ranges(messages: &[Message]) -> (r: Vec<(usize, usize)>)
    ensures
        r@.len() == turn_starts(messages_view(messages@)).len(),
        forall|k: int|
            0 <= k < r@.len() ==> (#[trigger] r@[k]).0 == turn_starts(messages_view(messages@))[k]
                && r@[k].1 == turn_end(messages_view(messages@), k) && r@[k].0 <= r@[k].1
                <= messages@.len(),
{
    let ghost all = messages_view(messages@);
    let mut starts: Vec<usize> = Vec::new();
    let total: usize = messages.len();
    assert(all.take(0) =~= Seq::empty());
    for i in 0..total
        invariant
            total == messages@.len(),
            all == messages_view(messages@),
            starts@.map_values(|n: usize| n as int) =~= turn_starts(all.take(i as int)),
    {
        assert(all.take(i + 1).drop_last() =~= all.take(i as int));
        assert(all.take(i + 1).last() == messages@[i as int]@);
        let opens = match &messages[i] {
            Message::User { content: _ } => true,
            _ => i == 0,
        };
        if opens {
            assert(starts@.push(i).map_values(|n: usize| n as int) =~= starts@.map_values(
                |n: usize| n as int,
            ).push(i as int));
            starts.push(i);
        }
    }
    proof {
        assert(all.take(total as int) =~= all);
        lemma_turn_starts(all);
    }
    let ghost want = turn_starts(all);
    let count: usize = starts.len();
    let mut r: Vec<(usize, usize)> = Vec::new();
    assert(forall|k: int| 0 <= k < count ==> #[trigger] starts@[k] as int == want[k]) by {
        assert forall|k: int| 0 <= k < count implies #[trigger] starts@[k] as int == want[k] by {
            assert(starts@.map_values(|n: usize| n as int)[k] == want[k]);
        }
    }
    for k in 0..count
        invariant
            count == starts@.len(),
            count == want.len(),
            want == turn_starts(all),
            all.len() == total,
            forall|j: int| 0 <= j < count ==> #[trigger] starts@[j] as int == want[j],
            forall|j: int| 0 <= j < count ==> 0 <= #[trigger] want[j] < total,
            forall|i: int, j: int| 0 <= i < j < count ==> want[i] < want[j],
            r@.len() == k,
            forall|j: int|
                0 <= j < k ==> (#[trigger] r@[j]).0 == want[j] && r@[j].1 == turn_end(all, j)
                    && r@[j].0 <= r@[j].1 <= total,
    {
        let end: usize = if k + 1 < count {
            starts[k + 1]
        } else {
            total
        };
        assert(want[k as int] < total);
        r.push((starts[k], end));
    }
    r
}

/// The summary of messages that are left out.
pub fn summarize_messages(messages: &[Message]) -> (r: Option<String>)
    ensures
        view_opt(r) == summary_spec(messages_view(messages@)),
{
    let ghost all = messages_view(messages@);
    let total: usize = messages.len();
    if total == 0 {
        return None;
    }
    let count: usize = turn_ranges(messages).len();
    let mut topic: Option<String> = None;
    let mut conclusion: Option<String> = None;
    assert(all.take(0) =~= Seq::empty());
    for i in 0..total
        invariant
            total == messages@.len(),
            all == messages_view(messages@),
            match topic {
                Some(t) => first_question(all.take(i as int)) is Some && t@ == excerpt(
                    first_question(all.take(i as int))->0,
                ),
                None => first_question(all.take(i as int)) is None,
            },
            match conclusion {
                Some(t) => last_answer(all.take(i as int)) is Some && t@ == excerpt(
                    last_answer(all.take(i as int))->0,
                ),
                None => last_answer(all.take(i as int)) is None,
            },
    {
        assert(all.take(i + 1).drop_last() =~= all.take(i as int));
        assert(all.take(i + 1).last() == messages@[i as int]@);
        match &messages[i] {
            Message::User { content } => {
                if topic.is_none() {
                    topic = Some(compact_text(content));
                }
            },
            Message::Assistant { content: Some(text), tool_calls: _ } => {
                conclusion = Some(compact_text(text));
            },
            _ => {},
        }
    }
    assert(all.take(total as int) =~= all);
    let mut head = "已省略 ".to_owned();
    head.append(decimal_size(count).as_str());
    head.append(" 个较早 Turn");
    let ghost head_view = head@;
    let mut parts: Vec<String> = Vec::new();
    parts.push(head);
    assert(views(parts@) =~= seq![head_view]);
    if let Some(t) = topic {
        let mut part = "早期用户主题：".to_owned();
        part.append(t.as_str());
        proof {
            lemma_views_push(parts@, part);
        }
        parts.push(part);
    }
    if let Some(t) = conclusion {
        let mut part = "早期助手结论片段：".to_owned();
        part.append(t.as_str());
        proof {
            lemma_views_push(parts@, part);
        }
        parts.push(part);
    }
    proof {
        let t = match first_question(all) {
            Some(q) => seq!["早期用户主题："@ + excerpt(q)],
            None => Seq::empty(),
        };
        let c = match last_answer(all) {
            Some(a) => seq!["早期助手结论片段："@ + excerpt(a)],
            None => Seq::empty(),
        };
        assert(views(parts@) =~= seq![head_view] + t + c);
    }
    let mut r = join(&parts, "；");
    r.append("。如需精确信息，请重新询问。");
    Some(r)
}

/// A summary cut to a budget.
pub fn fit_summary<E: TokenEstimator>(estimator: &E, summary: &str, max_tokens: usize) -> (r: String)
    ensures
        r@ == fitted_summary(estimator, summary@, max_tokens as nat),
{
    let whole: usize = estimator.estimate_text(summary);
    if (if whole < 1 {
        1
    } else {
        whole
    }) <= max_tokens {
        return summary.to_owned();
    }
    let mut cut = summary.to_owned();
    let mut c = chars_of(summary);
    while c.len() > 0 && estimator.estimate_text(&cut) > max_tokens
        invariant
            cut@ == c@,
            shrunk(estimator, summary@, max_tokens as nat) == shrunk(
                estimator,
                c@,
                max_tokens as nat,
            ),
        decreases c@.len(),
    {
        let n: usize = c.len();
        let drop: usize = if n / 10 > 1 {
            n / 10
        } else {
            1
        };
        let ghost before = c@;
        c.truncate(n - drop);
        assert(c@ =~= before.take(n - drop));
        cut = text_of(&c);
    }
    if c.len() == 0 {
        "…".to_owned()
    } else {
        cut
    }
}

/// Prepares contexts under a policy.
pub struct ContextBuilder<E> {
    policy: ContextPolicy,
    estimator: E,
}

impl<E: TokenEstimator> ContextBuilder<E> {
    pub closed spec fn policy(&self) -> ContextPolicy {
        self.policy
    }

    pub closed spec fn estimator(&self) -> E {
        self.estimator
    }

    /// A builder with a policy and an estimate of tokens.
    pub fn new(policy: ContextPolicy, estimator: E) -> (r: ContextBuilder<E>)
        ensures
            r.policy() == policy,
            r.estimator() == estimator,
    {
        ContextBuilder { policy, estimator }
    }

    fn estimate_text(&self, text: &str) -> (r: usize)
        ensures
            r == text_cost(&self.estimator(), text@),
    {
        let n: usize = self.estimator.estimate_text(text);
        if n < 1 {
            1
        } else {
            n
        }
    }

    fn estimate_tool_call(&self, call: &ToolCall) -> (r: usize)
        ensures
            r == counted(call_cost(&self.estimator(), call@)),
    {
        let n: usize = self.estimate_text(&call.id).saturating_add(8);
        n.saturating_add(self.estimate_text(&call.name)).saturating_add(
            self.estimate_text(&call.arguments),
        )
    }

    fn estimate_message(&self, message: &Message) -> (r: usize)
        ensures
            r == counted(message_cost(&self.estimator(), message@)),
    {
        match message {
            Message::User { content } => self.estimate_text(content).saturating_add(4),
            Message::Assistant { content, tool_calls } => {
                let ghost all = calls_view(tool_calls@);
                let text: usize = match content {
                    Some(t) => self.estimate_text(t),
                    None => 0,
                };
                let mut sum: usize = 0;
                assert(all.take(0) =~= Seq::empty());
                for i in 0..tool_calls.len()
                    invariant
                        all == calls_view(tool_calls@),
                        sum == counted(calls_cost(&self.estimator(), all.take(i as int))),
                {
                    assert(all.take(i + 1).drop_last() =~= all.take(i as int));
                    assert(all.take(i + 1).last() == tool_calls@[i as int]@);
                    sum = sum.saturating_add(self.estimate_tool_call(&tool_calls[i]));
                }
                assert(all.take(tool_calls@.len() as int) =~= all);
                text.saturating_add(4).saturating_add(sum)
            },
            Message::Tool { call_id, content, is_error: _ } => {
                self.estimate_text(call_id).saturating_add(4).saturating_add(
                    self.estimate_text(content),
                )
            },
        }
    }

    fn estimate_messages(&self, messages: &[Message], from: usize, to: usize) -> (r: usize)
        requires
            from <= to <= messages@.len(),
        ensures
            r == counted(
                messages_cost(
                    &self.estimator(),
                    messages_view(messages@).subrange(from as int, to as int),
                ),
            ),
    {
        let ghost all = messages_view(messages@).subrange(from as int, to as int);
        let mut sum: usize = 0;
        assert(all.take(0) =~= Seq::empty());
        for i in from..to
            invariant
                from <= to <= messages@.len(),
                all == messages_view(messages@).subrange(from as int, to as int),
                sum == counted(messages_cost(&self.estimator(), all.take(i - from))),
        {
            assert(all.take(i - from + 1).drop_last() =~= all.take(i - from));
            assert(all.take(i - from + 1).last() == messages@[i as int]@);
            sum = sum.saturating_add(self.estimate_message(&messages[i]));
        }
        assert(all.take(to - from) =~= all);
        sum
    }
}

pub open spec fn prepared_outcome(r: Result<PreparedContext, PrepareError>) -> Result<
    PreparedView,
    PrepareFault,
> {
    match r {
        Ok(p) => Ok(p@),
        Err(e) => Err(e@),
    }
}

impl<E: TokenEstimator> ContextBuilder<E> {
    /// The first turn that is kept, when the last one is and takes `current`
    /// tokens.
    fn choose_first(
        &self,
        messages: &Vec<Message>,
        ranges: &Vec<(usize, usize)>,
        current: usize,
        target: usize,
        keep: usize,
    ) -> (r: usize)
        requires
            ranges@.len() > 0,
            ranges@.len() == turn_starts(messages_view(messages@)).len(),
            forall|k: int|
                0 <= k < ranges@.len() ==> (#[trigger] ranges@[k]).0 == turn_starts(
                    messages_view(messages@),
                )[k] && ranges@[k].1 == turn_end(messages_view(messages@), k) && ranges@[k].0
                    <= ranges@[k].1 <= messages@.len(),
        ensures
            r < ranges@.len(),
            r == first_kept(
                &self.estimator(),
                messages_view(messages@),
                ranges@.len() - 1,
                current as nat,
                target as int,
                keep as int,
            ),
    {
        let ghost ms = messages_view(messages@);
        let ghost e = self.estimator();
        let count: usize = ranges.len();
        let mut k: usize = count - 1;
        let mut used: usize = current;
        let ghost chosen = first_kept(
            &e,
            ms,
            count - 1,
            current as nat,
            target as int,
            keep as int,
        );
        while k > 0 && count - k < keep
            invariant
                e == self.estimator(),
                ms == messages_view(messages@),
                count == ranges@.len(),
                count == turn_starts(ms).len(),
                k < count,
                forall|k: int|
                    0 <= k < ranges@.len() ==> (#[trigger] ranges@[k]).0 == turn_starts(ms)[k]
                        && ranges@[k].1 == turn_end(ms, k) && ranges@[k].0 <= ranges@[k].1
                        <= messages@.len(),
                chosen == first_kept(
                    &self.estimator(),
                    messages_view(messages@),
                    ranges@.len() - 1,
                    current as nat,
                    target as int,
                    keep as int,
                ),
                chosen == first_kept(&e, ms, k as int, used as nat, target as int, keep as int),
            decreases k,
        {
            let range: (usize, usize) = ranges[k - 1];
            let next: usize = used.saturating_add(
                self.estimate_messages(messages, range.0, range.1),
            );
            assert(next == counted(used as nat + messages_cost(&e, turn(ms, k - 1))));
            if next > target {
                return k;
            }
            k -= 1;
            used = next;
        }
        k
    }

    /// The summary of messages cut to what remains of a budget.
    fn fit_summary_of(&self, messages: &[Message], remaining: usize) -> (r: Option<String>)
        ensures
            view_opt(r) == match summary_spec(messages_view(messages@)) {
                Some(text) => if remaining > 0 {
                    Some(fitted_summary(&self.estimator(), text, remaining as nat))
                } else {
                    None
                },
                None => None,
            },
    {
        match summarize_messages(messages) {
            Some(text) => if remaining > 0 {
                Some(fit_summary(&self.estimator, &text, remaining))
            } else {
                None
            },
            None => None,
        }
    }

    /// Prepares what the model gets to see of a history: all of it where it
    /// fits, and otherwise the current turn, as many turns before it as the
    /// policy allows, and a summary of the others.
    pub fn prepare(&self, memory: &ContextMemory, tools: &Json) -> (r: Result<
        PreparedContext,
        PrepareError,
    >)
        ensures
            prepared_outcome(r) == prepared(&self.estimator(), self.policy(), memory@, tools@),
    {
        self.prepare_from(memory, tools, &compact(tools))
    }

    /// Prepares what the model gets to see of a history, given the tools as
    /// they are written.
    #[verifier::rlimit(60)]
    pub fn prepare_from(&self, memory: &ContextMemory, tools: &Json, written: &str) -> (r: Result<
        PreparedContext,
        PrepareError,
    >)
        ensures
            prepared_outcome(r) == prepared_from(
                &self.estimator(),
                self.policy(),
                memory@,
                tools@,
                written@,
            ),
    {
        match memory.validate() {
            Ok(_) => {},
            Err(e) => {
                return Err(PrepareError::Context(e));
            },
        }
        let hard_limit: usize = match self.policy.hard_input_limit() {
            Ok(n) => n,
            Err(e) => {
                return Err(e);
            },
        };
        let target: usize = match self.policy.target_input_tokens() {
            Ok(n) => n,
            Err(e) => {
                return Err(e);
            },
        };
        let messages = visible_messages(memory.messages());
        let ghost ms = messages_view(messages@);
        let ghost e = self.estimator();
        let forced_tool_name = latest_explicit_tool_request(&messages, tools);
        let force_calculation = forced_tool_name.is_none() && latest_requires_calculation(
            &messages,
        );
        let force_search_docs = forced_tool_name.is_none() && !force_calculation
            && latest_requires_search_docs(&messages);
        let base_tokens: usize = self.estimate_text(memory.system_prompt()).saturating_add(
            self.estimate_text(written),
        );
        if base_tokens > hard_limit {
            return Err(PrepareError::BaseTooLarge);
        }
        let ranges = turn_ranges(&messages);
        let total: usize = messages.len();
        assert(ms.subrange(0, total as int) =~= ms);
        let all_tokens: usize = base_tokens.saturating_add(
            self.estimate_messages(&messages, 0, total),
        );
        if all_tokens <= target {
            return Ok(
                PreparedContext {
                    system_prompt: memory.system_prompt().to_owned(),
                    summary: None,
                    messages,
                    estimated_tokens: all_tokens,
                    truncated: false,
                    forced_tool_name,
                    force_calculation,
                    force_search_docs,
                },
            );
        }
        let count: usize = ranges.len();
        if count == 0 {
            let none: Vec<Message> = Vec::new();
            assert(messages_view(none@) =~= Seq::empty());
            return Ok(
                PreparedContext {
                    system_prompt: memory.system_prompt().to_owned(),
                    summary: None,
                    messages: none,
                    estimated_tokens: base_tokens,
                    truncated: false,
                    forced_tool_name,
                    force_calculation,
                    force_search_docs,
                },
            );
        }
        let current: (usize, usize) = ranges[count - 1];
        let current_tokens: usize = base_tokens.saturating_add(
            self.estimate_messages(&messages, current.0, current.1),
        );
        assert(current_tokens == counted(
            base_tokens as nat + messages_cost(&e, turn(ms, count - 1)),
        ));
        if current_tokens > hard_limit {
            return Err(PrepareError::TurnTooLarge);
        }
        let keep: usize = if self.policy.recent_turns_to_keep < 1 {
            1
        } else {
            self.policy.recent_turns_to_keep
        };
        let k: usize = self.choose_first(&messages, &ranges, current_tokens, target, keep);
        let first: usize = ranges[k].0;
        let ghost kept = ms.skip(first as int);
        assert(ms.subrange(first as int, total as int) =~= kept);
        let kept_tokens: usize = self.estimate_messages(&messages, first, total);
        let remaining: usize = hard_limit.saturating_sub(base_tokens.saturating_add(kept_tokens));
        let head = vstd::slice::slice_subrange(messages.as_slice(), 0, first);
        assert(messages_view(head@) =~= ms.take(first as int));
        let summary = self.fit_summary_of(head, remaining);
        let summary_tokens: usize = match &summary {
            Some(text) => self.estimate_text(text),
            None => 0,
        };
        let selected: usize = base_tokens.saturating_add(summary_tokens).saturating_add(
            kept_tokens,
        );
        if selected > hard_limit {
            return Err(PrepareError::SummaryTooLarge);
        }
        Ok(
            PreparedContext {
                system_prompt: memory.system_prompt().to_owned(),
                summary,
                messages: copy_messages(&messages, first, total),
                estimated_tokens: selected,
                truncated: first > 0,
                forced_tool_name,
                force_calculation,
                force_search_docs,
            },
        )
    }
}

} // verus!
