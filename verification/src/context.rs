//! The conversation's history and the order its messages keep.
use vstd::prelude::*;
use crate::message::{calls_view, copy_messages, lemma_calls_push, lemma_messages_push, messages_view, CallView, Message, MessageView, ToolCall};
use crate::seqs::{lemma_filter_empty, lemma_filter_step};
use crate::text::chars::{copy_opt, lemma_views_push, member, same, view_opt, views};
use crate::text::pieces::{is_blank, trim_spec};
use crate::text::search::{has_prefix, join, join_spec, starts_with};

verus! {

/// Why a history, or a message to be added to it, is refused.
#[derive(Clone, Debug, PartialEq)]
pub enum ContextError {
    /// A user message stands where tool results are awaited.
    ResultsMustFollow,
    /// An assistant message stands where tool results are awaited.
    BatchUnfinished,
    /// A call has no identifier or no name, or repeats an identifier.
    InvalidCall,
    /// A tool result answers no awaited call.
    OrphanResult(String),
    /// The history ends while these calls await their results.
    Pending(Vec<String>),
    /// An assistant message has neither text nor calls.
    EmptyAssistant,
    /// The result to be added answers no awaited call.
    UnmatchedResult(String),
    /// The checkpoint lies behind the end of the history.
    CheckpointOutOfRange,
}

/// `ContextError` as a mathematical value.
#[verifier::ext_equal]
pub enum ContextFault {
    ResultsMustFollow,
    BatchUnfinished,
    InvalidCall,
    OrphanResult(Seq<char>),
    Pending(Seq<Seq<char>>),
    EmptyAssistant,
    UnmatchedResult(Seq<char>),
    CheckpointOutOfRange,
}

impl View for ContextError {
    type V = ContextFault;

    open spec fn view(&self) -> ContextFault {
        match self {
            ContextError::ResultsMustFollow => ContextFault::ResultsMustFollow,
            ContextError::BatchUnfinished => ContextFault::BatchUnfinished,
            ContextError::InvalidCall => ContextFault::InvalidCall,
            ContextError::OrphanResult(id) => ContextFault::OrphanResult(id@),
            ContextError::Pending(ids) => ContextFault::Pending(views(ids@)),
            ContextError::EmptyAssistant => ContextFault::EmptyAssistant,
            ContextError::UnmatchedResult(id) => ContextFault::UnmatchedResult(id@),
            ContextError::CheckpointOutOfRange => ContextFault::CheckpointOutOfRange,
        }
    }
}

impl ContextFault {
    /// The message shown for a fault.
    pub open spec fn text(self) -> Seq<char> {
        match self {
            ContextFault::ResultsMustFollow => "工具结果必须紧跟对应的助手工具调用"@,
            ContextFault::BatchUnfinished => "上一批工具调用尚未完成"@,
            ContextFault::InvalidCall => "工具调用 ID 或名称无效"@,
            ContextFault::OrphanResult(id) => "孤立或重复的工具结果: "@ + id,
            ContextFault::Pending(ids) => "仍有未完成的工具调用: "@ + join_spec(ids, ", "@),
            ContextFault::EmptyAssistant => "助手响应既没有正文，也没有工具调用"@,
            ContextFault::UnmatchedResult(id) => "工具结果没有匹配的待处理调用: "@ + id,
            ContextFault::CheckpointOutOfRange => "上下文压缩检查点越界"@,
        }
    }
}

impl ContextError {
    /// The message shown for the error.
    pub fn message(&self) -> (r: String)
        ensures
            r@ == self@.text(),
    {
        match self {
            ContextError::ResultsMustFollow => "工具结果必须紧跟对应的助手工具调用".to_owned(),
            ContextError::BatchUnfinished => "上一批工具调用尚未完成".to_owned(),
            ContextError::InvalidCall => "工具调用 ID 或名称无效".to_owned(),
            ContextError::OrphanResult(id) => {
                let mut text = "孤立或重复的工具结果: ".to_owned();
                text.append(id.as_str());
                text
            },
            ContextError::Pending(ids) => {
                let mut text = "仍有未完成的工具调用: ".to_owned();
                text.append(join(ids, ", ").as_str());
                text
            },
            ContextError::EmptyAssistant => "助手响应既没有正文，也没有工具调用".to_owned(),
            ContextError::UnmatchedResult(id) => {
                let mut text = "工具结果没有匹配的待处理调用: ".to_owned();
                text.append(id.as_str());
                text
            },
            ContextError::CheckpointOutOfRange => "上下文压缩检查点越界".to_owned(),
        }
    }
}

pub open spec fn call_ids(calls: Seq<CallView>) -> Seq<Seq<char>> {
    calls.map_values(|c: CallView| c.id)
}

/// Every call has an identifier and a name, and no identifier occurs twice.
pub open spec fn calls_valid(calls: Seq<CallView>) -> bool {
    &&& forall|i: int|
        0 <= i < calls.len() ==> (#[trigger] calls[i]).id.len() > 0 && calls[i].name.len() > 0
    &&& call_ids(calls).no_duplicates()
}

/// Being another text than `id`.
pub open spec fn other_than(id: Seq<char>) -> spec_fn(Seq<char>) -> bool {
    |x: Seq<char>| x != id
}

/// Not being one of `ids`.
pub open spec fn outside_of(ids: Seq<Seq<char>>) -> spec_fn(Seq<char>) -> bool {
    |x: Seq<char>| !ids.contains(x)
}

/// `ids` without `id`.
pub open spec fn without(ids: Seq<Seq<char>>, id: Seq<char>) -> Seq<Seq<char>> {
    ids.filter(other_than(id))
}

/// The calls that await a result after one more message.
pub open spec fn await_step(pending: Seq<Seq<char>>, m: MessageView) -> Result<
    Seq<Seq<char>>,
    ContextFault,
> {
    match m {
        MessageView::User { .. } => if pending.len() > 0 {
            Err(ContextFault::ResultsMustFollow)
        } else {
            Ok(pending)
        },
        MessageView::Assistant { tool_calls, .. } => if pending.len() > 0 {
            Err(ContextFault::BatchUnfinished)
        } else if calls_valid(tool_calls) {
            Ok(call_ids(tool_calls))
        } else {
            Err(ContextFault::InvalidCall)
        },
        MessageView::Tool { call_id, .. } => if pending.contains(call_id) {
            Ok(without(pending, call_id))
        } else {
            Err(ContextFault::OrphanResult(call_id))
        },
    }
}

/// The calls that await a result at the end of a history, in the order of
/// the calls, or the fault of the first message that is out of place.
pub open spec fn awaiting(ms: Seq<MessageView>) -> Result<Seq<Seq<char>>, ContextFault>
    decreases ms.len(),
{
    if ms.len() == 0 {
        Ok(Seq::empty())
    } else {
        match awaiting(ms.drop_last()) {
            Ok(pending) => await_step(pending, ms.last()),
            Err(fault) => Err(fault),
        }
    }
}

/// What is wrong with a history as a whole, if anything.
pub open spec fn history_fault(ms: Seq<MessageView>) -> Option<ContextFault> {
    match awaiting(ms) {
        Ok(pending) => if pending.len() > 0 {
            Some(ContextFault::Pending(pending))
        } else {
            None
        },
        Err(fault) => Some(fault),
    }
}

/// Every call of the history has its result, right behind it.
pub open spec fn complete(ms: Seq<MessageView>) -> bool {
    history_fault(ms) is None
}

/// An assistant message with neither text nor calls.
pub open spec fn says_nothing(content: Option<Seq<char>>, calls: Seq<CallView>) -> bool {
    calls.len() == 0 && match content {
        Some(text) => trim_spec(text).len() == 0,
        None => true,
    }
}

/// Which tools a compaction removes.
pub enum ToolSelector<'a> {
    /// The tool of that name.
    Named(&'a str),
    /// The tools whose name begins so.
    Prefixed(&'a str),
}

impl<'a> ToolSelector<'a> {
    pub open spec fn picks(&self, name: Seq<char>) -> bool {
        match self {
            ToolSelector::Named(n) => name == n@,
            ToolSelector::Prefixed(p) => has_prefix(name, p@),
        }
    }

    fn test(&self, name: &str) -> (r: bool)
        ensures
            r == self.picks(name@),
    {
        match self {
            ToolSelector::Named(n) => same(name, n),
            ToolSelector::Prefixed(p) => starts_with(name, p),
        }
    }
}

/// The identifiers of the calls of `ms` that the selector picks.
pub open spec fn picked_ids(ms: Seq<MessageView>, sel: ToolSelector) -> Seq<Seq<char>>
    decreases ms.len(),
{
    if ms.len() == 0 {
        Seq::empty()
    } else {
        let before = picked_ids(ms.drop_last(), sel);
        match ms.last() {
            MessageView::Assistant { tool_calls, .. } => before + picked_of(tool_calls, sel),
            _ => before,
        }
    }
}

/// The identifiers of the calls of one batch that the selector picks.
pub open spec fn picked_of(calls: Seq<CallView>, sel: ToolSelector) -> Seq<Seq<char>> {
    call_ids(calls.filter(|c: CallView| sel.picks(c.name)))
}

/// The calls that the selector does not pick.
pub open spec fn kept_calls(calls: Seq<CallView>, sel: ToolSelector) -> Seq<CallView> {
    calls.filter(|c: CallView| !sel.picks(c.name))
}

/// The batch that a result behind `ms` answers: the calls of the latest
/// assistant message, unless the user has spoken since.
pub open spec fn batch_before(ms: Seq<MessageView>) -> Seq<CallView>
    decreases ms.len(),
{
    if ms.len() == 0 {
        Seq::empty()
    } else {
        match ms.last() {
            MessageView::Assistant { tool_calls, .. } => tool_calls,
            MessageView::Tool { .. } => batch_before(ms.drop_last()),
            MessageView::User { .. } => Seq::empty(),
        }
    }
}

/// The messages without the calls that the selector picks and the results
/// that answer them; an assistant message that says nothing any more goes too.
pub open spec fn without_calls(ms: Seq<MessageView>, sel: ToolSelector) -> Seq<MessageView>
    decreases ms.len(),
{
    if ms.len() == 0 {
        Seq::empty()
    } else {
        let before = without_calls(ms.drop_last(), sel);
        match ms.last() {
            MessageView::Assistant { content, tool_calls } => {
                let kept = kept_calls(tool_calls, sel);
                if says_nothing(content, kept) {
                    before
                } else {
                    before.push(MessageView::Assistant { content, tool_calls: kept })
                }
            },
            MessageView::Tool { call_id, .. } => if picked_of(
                batch_before(ms.drop_last()),
                sel,
            ).contains(call_id) {
                before
            } else {
                before.push(ms.last())
            },
            MessageView::User { .. } => before.push(ms.last()),
        }
    }
}

/// The contents of the results that answer calls that the selector picks.
pub open spec fn results_of(ms: Seq<MessageView>, sel: ToolSelector) -> Seq<Seq<char>>
    decreases ms.len(),
{
    if ms.len() == 0 {
        Seq::empty()
    } else {
        let before = results_of(ms.drop_last(), sel);
        match ms.last() {
            MessageView::Tool { call_id, content, .. } if picked_of(
                batch_before(ms.drop_last()),
                sel,
            ).contains(call_id) => before.push(content),
            _ => before,
        }
    }
}

/// The history after the exchanges behind `checkpoint` that the selector
/// picks have been removed.
pub open spec fn compacted(ms: Seq<MessageView>, checkpoint: int, sel: ToolSelector) -> Seq<
    MessageView,
> {
    let tail = ms.skip(checkpoint);
    if picked_ids(tail, sel).len() == 0 {
        ms
    } else {
        ms.take(checkpoint) + without_calls(tail, sel)
    }
}

/// Why a compaction is refused, if it is.
pub open spec fn compaction_fault(
    ms: Seq<MessageView>,
    checkpoint: int,
    sel: ToolSelector,
) -> Option<ContextFault> {
    if checkpoint > ms.len() {
        Some(ContextFault::CheckpointOutOfRange)
    } else if !complete(ms) {
        history_fault(ms)
    } else {
        history_fault(compacted(ms, checkpoint, sel))
    }
}

/// The outcome of a compaction: the results removed, or the fault with the
/// history as it was.
pub open spec fn compaction_ok(
    before: Seq<MessageView>,
    after: Seq<MessageView>,
    checkpoint: int,
    sel: ToolSelector,
    r: Result<Vec<String>, ContextError>,
) -> bool {
    match r {
        Ok(removed) => {
            &&& compaction_fault(before, checkpoint, sel) is None
            &&& after == compacted(before, checkpoint, sel)
            &&& views(removed@) == results_of(before.skip(checkpoint), sel)
        },
        Err(e) => {
            &&& compaction_fault(before, checkpoint, sel) == Some(e@)
            &&& after == before
        },
    }
}

/// The history of a conversation under its system prompt.
pub struct ContextMemory {
    system_prompt: String,
    messages: Vec<Message>,
}

#[verifier::ext_equal]
pub struct ContextView {
    pub system_prompt: Seq<char>,
    pub messages: Seq<MessageView>,
}

impl View for ContextMemory {
    type V = ContextView;

    closed spec fn view(&self) -> ContextView {
        ContextView { system_prompt: self.system_prompt@, messages: messages_view(self.messages@) }
    }
}

/// The identifiers of a batch of calls, where the batch is valid.
fn batch_ids(calls: &Vec<ToolCall>) -> (r: Option<Vec<String>>)
    ensures
        match r {
            Some(ids) => calls_valid(calls_view(calls@)) && views(ids@) == call_ids(
                calls_view(calls@),
            ),
            None => !calls_valid(calls_view(calls@)),
        },
{
    let ghost all = calls_view(calls@);
    let mut ids: Vec<String> = Vec::new();
    assert(views(ids@) =~= call_ids(all.take(0)));
    for i in 0..calls.len()
        invariant
            all == calls_view(calls@),
            views(ids@) == call_ids(all.take(i as int)),
            calls_valid(all.take(i as int)),
    {
        let call = &calls[i];
        let ghost done = all.take(i as int);
        assert(all[i as int] == call@);
        if call.id.as_str().unicode_len() == 0 || call.name.as_str().unicode_len() == 0 {
            return None;
        }
        if member(&ids, &call.id) {
            proof {
                let j = choose|j: int| 0 <= j < views(ids@).len() && views(ids@)[j] == call.id@;
                assert(call_ids(all)[j] == call_ids(done)[j]);
                assert(call_ids(all)[i as int] == call.id@);
            }
            return None;
        }
        let id = call.id.clone();
        proof {
            let next = all.take(i + 1);
            lemma_views_push(ids@, id);
            assert(call_ids(next) =~= call_ids(done).push(id@));
            assert forall|a: int, b: int|
                0 <= a < b < call_ids(next).len() implies call_ids(next)[a] != call_ids(
                next,
            )[b] by {
                if b == i {
                    assert(views(ids@).contains(views(ids@)[a]));
                }
            }
            assert forall|a: int| 0 <= a < next.len() implies (#[trigger] next[a]).id.len() > 0
                && next[a].name.len() > 0 by {
                if a < i {
                    assert(done[a] == next[a]);
                }
            }
        }
        ids.push(id);
    }
    assert(all.take(calls@.len() as int) =~= all);
    Some(ids)
}

/// `ids` without `id`.
fn remove_id(ids: &Vec<String>, id: &str) -> (r: Vec<String>)
    ensures
        views(r@) == without(views(ids@), id@),
{
    let ghost all = views(ids@);
    let ghost p = other_than(id@);
    let mut r: Vec<String> = Vec::new();
    proof {
        lemma_filter_empty(all, p);
        assert(views(r@) =~= Seq::empty());
    }
    for i in 0..ids.len()
        invariant
            all == views(ids@),
            p == other_than(id@),
            views(r@) == all.take(i as int).filter(p),
    {
        proof {
            lemma_filter_step(all, i as int, p);
        }
        if !same(&ids[i], id) {
            let kept = ids[i].clone();
            proof {
                lemma_views_push(r@, kept);
            }
            r.push(kept);
        }
    }
    assert(all.take(ids@.len() as int) =~= all);
    r
}

/// The calls that await a result at the end of a history.
fn scan(messages: &Vec<Message>) -> (r: Result<Vec<String>, ContextError>)
    ensures
        match r {
            Ok(ids) => awaiting(messages_view(messages@)) == Ok::<Seq<Seq<char>>, ContextFault>(
                views(ids@),
            ),
            Err(e) => awaiting(messages_view(messages@)) == Err::<Seq<Seq<char>>, ContextFault>(
                e@,
            ),
        },
{
    let ghost all = messages_view(messages@);
    let mut pending: Vec<String> = Vec::new();
    assert(views(pending@) =~= Seq::empty());
    assert(all.take(0) =~= Seq::empty());
    for i in 0..messages.len()
        invariant
            all == messages_view(messages@),
            awaiting(all.take(i as int)) == Ok::<Seq<Seq<char>>, ContextFault>(views(pending@)),
    {
        proof {
            assert(all.take(i + 1).drop_last() =~= all.take(i as int));
            assert(all.take(i + 1).last() == messages@[i as int]@);
        }
        match &messages[i] {
            Message::User { content: _ } => {
                if pending.len() > 0 {
                    proof {
                        lemma_fault_stays(all, i + 1);
                    }
                    return Err(ContextError::ResultsMustFollow);
                }
            },
            Message::Assistant { content: _, tool_calls } => {
                if pending.len() > 0 {
                    proof {
                        lemma_fault_stays(all, i + 1);
                    }
                    return Err(ContextError::BatchUnfinished);
                }
                match batch_ids(tool_calls) {
                    Some(ids) => {
                        pending = ids;
                    },
                    None => {
                        proof {
                            lemma_fault_stays(all, i + 1);
                        }
                        return Err(ContextError::InvalidCall);
                    },
                }
            },
            Message::Tool { call_id, content: _, is_error: _ } => {
                if !member(&pending, call_id) {
                    proof {
                        lemma_fault_stays(all, i + 1);
                    }
                    return Err(ContextError::OrphanResult(call_id.clone()));
                }
                pending = remove_id(&pending, call_id);
            },
        }
    }
    assert(all.take(messages@.len() as int) =~= all);
    Ok(pending)
}

/// A fault in a part of a history is the fault of the whole.
pub proof fn lemma_fault_stays(ms: Seq<MessageView>, i: int)
    requires
        0 <= i <= ms.len(),
        awaiting(ms.take(i)) is Err,
    ensures
        awaiting(ms) == awaiting(ms.take(i)),
    decreases ms.len(),
{
    if i < ms.len() {
        assert(ms.drop_last().take(i) =~= ms.take(i));
        lemma_fault_stays(ms.drop_last(), i);
    } else {
        assert(ms.take(i) =~= ms);
    }
}

/// What is wrong with a history, if anything.
fn check_history(messages: &Vec<Message>) -> (r: Result<(), ContextError>)
    ensures
        match r {
            Ok(_) => history_fault(messages_view(messages@)) is None,
            Err(e) => history_fault(messages_view(messages@)) == Some(e@),
        },
{
    match scan(messages) {
        Ok(pending) => {
            if pending.len() > 0 {
                Err(ContextError::Pending(pending))
            } else {
                Ok(())
            }
        },
        Err(e) => Err(e),
    }
}

/// Whether an assistant message has neither text nor calls.
fn nothing_said(content: &Option<String>, calls: &Vec<ToolCall>) -> (r: bool)
    ensures
        r == says_nothing(view_opt(*content), calls_view(calls@)),
{
    calls.len() == 0 && match content {
        Some(text) => is_blank(text),
        None => true,
    }
}

/// The calls that the selector does not pick.
fn keep_calls(calls: &Vec<ToolCall>, sel: &ToolSelector) -> (r: Vec<ToolCall>)
    ensures
        calls_view(r@) == kept_calls(calls_view(calls@), *sel),
{
    let ghost all = calls_view(calls@);
    let ghost p = |c: CallView| !sel.picks(c.name);
    let mut r: Vec<ToolCall> = Vec::new();
    proof {
        lemma_filter_empty(all, p);
        assert(calls_view(r@) =~= Seq::empty());
    }
    for i in 0..calls.len()
        invariant
            all == calls_view(calls@),
            p == (|c: CallView| !sel.picks(c.name)),
            calls_view(r@) == all.take(i as int).filter(p),
    {
        proof {
            lemma_filter_step(all, i as int, p);
        }
        if !sel.test(&calls[i].name) {
            let kept = calls[i].copy();
            proof {
                lemma_calls_push(r@, kept);
            }
            r.push(kept);
        }
    }
    assert(all.take(calls@.len() as int) =~= all);
    r
}

/// The identifiers of the calls of a batch that the selector picks.
fn picked_in(calls: &Vec<ToolCall>, sel: &ToolSelector) -> (r: Vec<String>)
    ensures
        views(r@) == picked_of(calls_view(calls@), *sel),
{
    let ghost all = calls_view(calls@);
    let ghost p = |c: CallView| sel.picks(c.name);
    let mut r: Vec<String> = Vec::new();
    proof {
        lemma_filter_empty(all, p);
        assert(views(r@) =~= call_ids(all.take(0).filter(p)));
    }
    for i in 0..calls.len()
        invariant
            all == calls_view(calls@),
            p == (|c: CallView| sel.picks(c.name)),
            views(r@) == call_ids(all.take(i as int).filter(p)),
    {
        let ghost done = all.take(i as int).filter(p);
        proof {
            lemma_filter_step(all, i as int, p);
        }
        if sel.test(&calls[i].name) {
            let id = calls[i].id.clone();
            proof {
                lemma_views_push(r@, id);
                assert(call_ids(done.push(all[i as int])) =~= call_ids(done).push(id@));
            }
            r.push(id);
        }
    }
    assert(all.take(calls@.len() as int) =~= all);
    r
}

impl ContextMemory {
    /// A memory over a replayed history, which has to be complete.
    pub fn restore(system_prompt: &str, messages: Vec<Message>) -> (r: Result<
        ContextMemory,
        ContextError,
    >)
        ensures
            match r {
                Ok(memory) => complete(messages_view(messages@)) && memory@ == (ContextView {
                    system_prompt: system_prompt@,
                    messages: messages_view(messages@),
                }),
                Err(e) => history_fault(messages_view(messages@)) == Some(e@),
            },
    {
        match check_history(&messages) {
            Ok(_) => Ok(ContextMemory { system_prompt: system_prompt.to_owned(), messages }),
            Err(e) => Err(e),
        }
    }

    /// An empty memory under a system prompt.
    pub fn new(system_prompt: &str) -> (r: ContextMemory)
        ensures
            r@ == (ContextView { system_prompt: system_prompt@, messages: Seq::empty() }),
    {
        let r = ContextMemory { system_prompt: system_prompt.to_owned(), messages: Vec::new() };
        assert(r@.messages =~= Seq::empty());
        r
    }

    /// The number of messages, to which `rollback` can return.
    pub fn checkpoint(&self) -> (r: usize)
        ensures
            r == self@.messages.len(),
    {
        self.messages.len()
    }

    /// Drops the messages behind a checkpoint; one behind the end drops none.
    pub fn rollback(&mut self, checkpoint: usize)
        ensures
            final(self)@.system_prompt == old(self)@.system_prompt,
            final(self)@.messages == if checkpoint < old(self)@.messages.len() {
                old(self)@.messages.take(checkpoint as int)
            } else {
                old(self)@.messages
            },
    {
        if checkpoint < self.messages.len() {
            self.messages.truncate(checkpoint);
            assert(self@.messages =~= old(self)@.messages.take(checkpoint as int));
        }
    }

    /// Removes the exchanges with one tool behind a checkpoint, and returns
    /// the contents of the results that went. The user's questions, the other
    /// tools and the answers stay.
    pub fn compact_tool_exchanges_since(&mut self, checkpoint: usize, tool_name: &str) -> (r:
        Result<Vec<String>, ContextError>)
        ensures
            final(self)@.system_prompt == old(self)@.system_prompt,
            compaction_ok(
                old(self)@.messages,
                final(self)@.messages,
                checkpoint as int,
                ToolSelector::Named(tool_name),
                r,
            ),
    {
        self.compact_tool_exchanges_matching_since(checkpoint, ToolSelector::Named(tool_name))
    }

    /// Removes the exchanges with the tools whose name begins with
    /// `tool_prefix`, behind a checkpoint.
    pub fn compact_tool_exchanges_with_prefix_since(
        &mut self,
        checkpoint: usize,
        tool_prefix: &str,
    ) -> (r: Result<Vec<String>, ContextError>)
        ensures
            final(self)@.system_prompt == old(self)@.system_prompt,
            compaction_ok(
                old(self)@.messages,
                final(self)@.messages,
                checkpoint as int,
                ToolSelector::Prefixed(tool_prefix),
                r,
            ),
    {
        self.compact_tool_exchanges_matching_since(checkpoint, ToolSelector::Prefixed(tool_prefix))
    }

    fn compact_tool_exchanges_matching_since(
        &mut self,
        checkpoint: usize,
        sel: ToolSelector,
    ) -> (r: Result<Vec<String>, ContextError>)
        ensures
            final(self)@.system_prompt == old(self)@.system_prompt,
            compaction_ok(
                old(self)@.messages,
                final(self)@.messages,
                checkpoint as int,
                sel,
                r,
            ),
    {
        if checkpoint > self.messages.len() {
            return Err(ContextError::CheckpointOutOfRange);
        }
        match check_history(&self.messages) {
            Ok(_) => {},
            Err(e) => {
                return Err(e);
            },
        }
        let ghost all = self@.messages;
        let ghost tail = all.skip(checkpoint as int);
        let total: usize = self.messages.len();

        let mut ids: Vec<String> = Vec::new();
        assert(tail.take(0) =~= Seq::empty());
        assert(views(ids@) =~= Seq::empty());
        for i in checkpoint..total
            invariant
                total == self.messages@.len(),
                checkpoint <= total,
                all == messages_view(self.messages@),
                tail == all.skip(checkpoint as int),
                views(ids@) == picked_ids(tail.take(i - checkpoint), sel),
        {
            let ghost k = i - checkpoint;
            proof {
                assert(tail.take(k + 1).drop_last() =~= tail.take(k));
                assert(tail.take(k + 1).last() == self.messages@[i as int]@);
            }
            match &self.messages[i] {
                Message::Assistant { content: _, tool_calls } => {
                    let mut more = picked_in(tool_calls, &sel);
                    let ghost before = ids@;
                    let ghost added = more@;
                    ids.append(&mut more);
                    assert(views(before + added) =~= views(before) + views(added));
                },
                _ => {},
            }
        }
        assert(tail.take(total - checkpoint) =~= tail);

        if ids.len() == 0 {
            let removed: Vec<String> = Vec::new();
            proof {
                lemma_no_results(tail, sel);
                assert(views(removed@) =~= Seq::empty());
            }
            return Ok(removed);
        }
        let mut removed: Vec<String> = Vec::new();
        let mut kept: Vec<Message> = copy_messages(&self.messages, 0, checkpoint);
        proof {
            assert(all.subrange(0, checkpoint as int) =~= all.take(checkpoint as int));
            assert(views(removed@) =~= Seq::empty());
            assert(tail.take(0) =~= Seq::empty());
            assert(all.take(checkpoint as int) + Seq::<MessageView>::empty() =~= all.take(
                checkpoint as int,
            ));
        }
        let ghost head = all.take(checkpoint as int);
        let mut batch: Vec<String> = Vec::new();
        proof {
            lemma_picked_of_none(sel);
            assert(views(batch@) =~= Seq::empty());
        }
        for i in checkpoint..total
            invariant
                total == self.messages@.len(),
                checkpoint <= total,
                all == messages_view(self.messages@),
                tail == all.skip(checkpoint as int),
                views(batch@) == picked_of(batch_before(tail.take(i - checkpoint)), sel),
                views(removed@) == results_of(tail.take(i - checkpoint), sel),
                messages_view(kept@) == head + without_calls(tail.take(i - checkpoint), sel),
        {
            let ghost k = i - checkpoint;
            let ghost before = without_calls(tail.take(k), sel);
            proof {
                assert(tail.take(k + 1).drop_last() =~= tail.take(k));
                assert(tail.take(k + 1).last() == self.messages@[i as int]@);
                assert forall|m: MessageView| #[trigger]
                    (head + before).push(m) == head + before.push(m) by {
                    assert((head + before).push(m) =~= head + before.push(m));
                }
            }
            match &self.messages[i] {
                Message::Assistant { content, tool_calls } => {
                    batch = picked_in(tool_calls, &sel);
                    let retained = keep_calls(tool_calls, &sel);
                    if !nothing_said(content, &retained) {
                        let message = Message::Assistant {
                            content: copy_opt(content),
                            tool_calls: retained,
                        };
                        proof {
                            lemma_messages_push(kept@, message);
                        }
                        kept.push(message);
                    }
                },
                Message::Tool { call_id, content, is_error: _ } => {
                    if member(&batch, call_id) {
                        let text = content.clone();
                        proof {
                            lemma_views_push(removed@, text);
                        }
                        removed.push(text);
                    } else {
                        let message = self.messages[i].copy();
                        proof {
                            lemma_messages_push(kept@, message);
                        }
                        kept.push(message);
                    }
                },
                Message::User { content: _ } => {
                    let message = self.messages[i].copy();
                    batch = Vec::new();
                    proof {
                        lemma_messages_push(kept@, message);
                        lemma_picked_of_none(sel);
                        assert(views(batch@) =~= Seq::empty());
                    }
                    kept.push(message);
                },
            }
        }
        assert(tail.take(total - checkpoint) =~= tail);
        match check_history(&kept) {
            Ok(_) => {
                self.messages = kept;
                Ok(removed)
            },
            Err(e) => Err(e),
        }
    }

    /// Drops every message and keeps the system prompt.
    pub fn reset(&mut self)
        ensures
            final(self)@ == (ContextView {
                system_prompt: old(self)@.system_prompt,
                messages: Seq::empty(),
            }),
    {
        self.messages.clear();
        assert(self@.messages =~= Seq::empty());
    }

    /// The system prompt.
    pub fn system_prompt(&self) -> (r: &str)
        ensures
            r@ == self@.system_prompt,
    {
        self.system_prompt.as_str()
    }

    /// Replaces the system prompt and leaves the messages.
    pub fn set_system_prompt(&mut self, prompt: &str)
        ensures
            final(self)@ == (ContextView {
                system_prompt: prompt@,
                messages: old(self)@.messages,
            }),
    {
        self.system_prompt = prompt.to_owned();
    }

    /// The messages of the history.
    pub fn messages(&self) -> (r: &[Message])
        ensures
            messages_view(r@) == self@.messages,
    {
        self.messages.as_slice()
    }

    /// Checks that every tool call of the history has its result.
    pub fn validate(&self) -> (r: Result<(), ContextError>)
        ensures
            match r {
                Ok(_) => history_fault(self@.messages) is None,
                Err(e) => history_fault(self@.messages) == Some(e@),
            },
    {
        check_history(&self.messages)
    }

    /// Adds a user message, unless a tool call awaits its result.
    pub fn append_user(&mut self, content: &str) -> (r: Result<(), ContextError>)
        ensures
            final(self)@.system_prompt == old(self)@.system_prompt,
            match r {
                Ok(_) => history_fault(old(self)@.messages) is None && final(self)@.messages
                    == old(self)@.messages.push(MessageView::User { content: content@ }),
                Err(e) => history_fault(old(self)@.messages) == Some(e@) && final(self)@ == old(
                    self,
                )@,
            },
    {
        match check_history(&self.messages) {
            Ok(_) => {},
            Err(e) => {
                return Err(e);
            },
        }
        let message = Message::User { content: content.to_owned() };
        proof {
            lemma_messages_push(self.messages@, message);
        }
        self.messages.push(message);
        Ok(())
    }

    /// Adds an assistant message, unless a tool call awaits its result or the
    /// message has neither text nor calls.
    pub fn append_assistant(&mut self, content: Option<String>, tool_calls: Vec<ToolCall>) -> (r:
        Result<(), ContextError>)
        ensures
            final(self)@.system_prompt == old(self)@.system_prompt,
            match r {
                Ok(_) => {
                    &&& history_fault(old(self)@.messages) is None
                    &&& !says_nothing(view_opt(content), calls_view(tool_calls@))
                    &&& final(self)@.messages == old(self)@.messages.push(
                        MessageView::Assistant {
                            content: view_opt(content),
                            tool_calls: calls_view(tool_calls@),
                        },
                    )
                },
                Err(e) => {
                    &&& final(self)@ == old(self)@
                    &&& Some(e@) == match history_fault(old(self)@.messages) {
                        Some(fault) => Some(fault),
                        None => Some(ContextFault::EmptyAssistant),
                    }
                    &&& history_fault(old(self)@.messages) is None ==> says_nothing(
                        view_opt(content),
                        calls_view(tool_calls@),
                    )
                },
            },
    {
        match check_history(&self.messages) {
            Ok(_) => {},
            Err(e) => {
                return Err(e);
            },
        }
        if nothing_said(&content, &tool_calls) {
            return Err(ContextError::EmptyAssistant);
        }
        let message = Message::Assistant { content, tool_calls };
        proof {
            lemma_messages_push(self.messages@, message);
        }
        self.messages.push(message);
        Ok(())
    }

    /// Adds a tool result, which has to answer a call that awaits one.
    pub fn append_tool_result(&mut self, call_id: &str, content: &str, is_error: bool) -> (r:
        Result<(), ContextError>)
        ensures
            final(self)@.system_prompt == old(self)@.system_prompt,
            match r {
                Ok(_) => {
                    &&& awaiting(old(self)@.messages) matches Ok(pending) && pending.contains(
                        call_id@,
                    )
                    &&& final(self)@.messages == old(self)@.messages.push(
                        MessageView::Tool { call_id: call_id@, content: content@, is_error },
                    )
                },
                Err(e) => {
                    &&& final(self)@ == old(self)@
                    &&& match awaiting(old(self)@.messages) {
                        Err(fault) => e@ == fault,
                        Ok(pending) => !pending.contains(call_id@) && e@
                            == ContextFault::UnmatchedResult(call_id@),
                    }
                },
            },
    {
        match scan(&self.messages) {
            Ok(pending) => {
                if !member(&pending, call_id) {
                    return Err(ContextError::UnmatchedResult(call_id.to_owned()));
                }
            },
            Err(e) => {
                return Err(e);
            },
        }
        let message = Message::Tool {
            call_id: call_id.to_owned(),
            content: content.to_owned(),
            is_error,
        };
        proof {
            lemma_messages_push(self.messages@, message);
        }
        self.messages.push(message);
        Ok(())
    }

    /// The identifiers of the calls that await a result.
    pub fn pending_tool_ids(&self) -> (r: Result<Vec<String>, ContextError>)
        ensures
            match r {
                Ok(ids) => awaiting(self@.messages) == Ok::<Seq<Seq<char>>, ContextFault>(
                    views(ids@),
                ),
                Err(e) => awaiting(self@.messages) == Err::<Seq<Seq<char>>, ContextFault>(e@),
            },
    {
        scan(&self.messages)
    }
}

/// Nothing is picked from an empty batch.
pub proof fn lemma_picked_of_none(sel: ToolSelector)
    ensures
        picked_of(Seq::empty(), sel) == Seq::<Seq<char>>::empty(),
{
    reveal(Seq::filter);
    assert(picked_of(Seq::empty(), sel) =~= Seq::<Seq<char>>::empty());
}

/// Where nothing is picked, no result answers a picked call.
proof fn lemma_no_results(ms: Seq<MessageView>, sel: ToolSelector)
    requires
        picked_ids(ms, sel).len() == 0,
    ensures
        results_of(ms, sel) == Seq::<Seq<char>>::empty(),
        picked_of(batch_before(ms), sel).len() == 0,
    decreases ms.len(),
{
    if ms.len() > 0 {
        lemma_no_results(ms.drop_last(), sel);
    }
    lemma_picked_of_none(sel);
}

} // verus!
