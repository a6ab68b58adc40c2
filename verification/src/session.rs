//! What is kept of a session: the messages of complete turns, a record of
//! what happened, and the state to go on from.
use vstd::prelude::*;
use crate::clock::{is_rfc3339, utc_now};
use crate::context::{complete, history_fault, ContextError, ContextMemory, ContextView};
use crate::events::{AgentEvent, ToolTrace, TraceView};
use crate::json::Json;
use crate::message::{lemma_messages_push, messages_view, Message, MessageView};
use crate::paths::{count_solid, file_name, file_name_spec, join_path, join_path_spec, lemma_solid, solid_len, split_extension, stem_and_extension};
use crate::permission::ToolPermission;
use crate::provider::turn::{no_usage, TokenUsage};
use crate::rag::sources::{refs_view, RagSourceRef, SourceRefView};
use crate::text::chars::{lemma_views_push, same, view_opt, views};
use crate::text::pieces::{pieces, split_at_class, CharClass};
use crate::text::search::{has_suffix, join, join_spec};
use crate::tools::registry::{add_name, insert_name, permissions_view};

verus! {

/// The state of a session that can be read without its messages.
#[derive(Clone, Debug, PartialEq)]
pub struct SessionState {
    pub version: u32,
    pub legacy_migration_version: u32,
    pub next_turn_id: u64,
    pub usage: TokenUsage,
    pub permissions: Vec<(String, ToolPermission)>,
}

#[verifier::ext_equal]
pub struct StateView {
    pub version: u32,
    pub legacy_migration_version: u32,
    pub next_turn_id: u64,
    pub usage: TokenUsage,
    pub permissions: Seq<(Seq<char>, ToolPermission)>,
}

impl View for SessionState {
    type V = StateView;

    open spec fn view(&self) -> StateView {
        StateView {
            version: self.version,
            legacy_migration_version: self.legacy_migration_version,
            next_turn_id: self.next_turn_id,
            usage: self.usage,
            permissions: permissions_view(self.permissions@),
        }
    }
}

/// The state of a session that has not begun.
pub open spec fn fresh_state() -> StateView {
    StateView {
        version: 1,
        legacy_migration_version: 0,
        next_turn_id: 1,
        usage: no_usage(),
        permissions: Seq::empty(),
    }
}

impl Default for SessionState {
    fn default() -> (r: SessionState)
        ensures
            r@ == fresh_state(),
    {
        let r = SessionState {
            version: 1,
            legacy_migration_version: 0,
            next_turn_id: 1,
            usage: TokenUsage::default(),
            permissions: Vec::new(),
        };
        assert(r@ =~= fresh_state());
        r
    }
}

pub open spec fn later(a: u64, b: u64) -> u64 {
    if a < b {
        b
    } else {
        a
    }
}

fn later_of(a: u64, b: u64) -> (r: u64)
    ensures
        r == later(a, b),
{
    if a < b {
        b
    } else {
        a
    }
}

/// The permissions of other tools.
pub open spec fn not_named(tool: Seq<char>) -> spec_fn((Seq<char>, ToolPermission)) -> bool {
    |p: (Seq<char>, ToolPermission)| p.0 != tool
}

/// The permissions without repeated names, which stand next to each other.
pub open spec fn without_repeats(s: Seq<(Seq<char>, ToolPermission)>) -> Seq<
    (Seq<char>, ToolPermission),
>
    decreases s.len(),
{
    if s.len() == 0 {
        Seq::empty()
    } else {
        let before = without_repeats(s.drop_last());
        if before.len() > 0 && before.last().0 == s.last().0 {
            before
        } else {
            before.push(s.last())
        }
    }
}

/// The permissions in the order of the names.
pub open spec fn in_name_order(s: Seq<(Seq<char>, ToolPermission)>) -> Seq<
    (Seq<char>, ToolPermission),
>
    decreases s.len(),
{
    if s.len() == 0 {
        Seq::empty()
    } else {
        insert_name(in_name_order(s.drop_last()), s.last())
    }
}

impl StateView {
    /// The state after a turn was completed.
    pub open spec fn after_turn(self, turn_id: u64, usage: TokenUsage) -> StateView {
        StateView {
            next_turn_id: later(self.next_turn_id, turn_id.saturating_add(1)),
            usage: self.usage.plus(usage),
            ..self
        }
    }

    /// The state after the permission of a tool was changed.
    pub open spec fn with_permission(self, tool: Seq<char>, permission: ToolPermission) -> StateView {
        StateView {
            permissions: self.permissions.filter(not_named(tool)).push((tool, permission)),
            ..self
        }
    }

    /// The state after everything was forgotten, but for whether older records
    /// were taken over.
    pub open spec fn cleared(self) -> StateView {
        StateView { legacy_migration_version: self.legacy_migration_version, ..fresh_state() }
    }

    /// Whether older records have still to be taken over.
    pub open spec fn migration_due(self) -> bool {
        self.legacy_migration_version < 1
    }

    /// The state with other permissions, in the order of the names and each
    /// name once.
    pub open spec fn with_permissions(self, list: Seq<(Seq<char>, ToolPermission)>) -> StateView {
        StateView { permissions: without_repeats(in_name_order(list)), ..self }
    }
}

impl SessionState {
    /// Counts a turn that was completed.
    pub fn complete_turn(&mut self, turn_id: u64, usage: &TokenUsage)
        ensures
            final(self)@ == old(self)@.after_turn(turn_id, *usage),
    {
        self.next_turn_id = later_of(self.next_turn_id, turn_id.saturating_add(1));
        self.usage = self.usage.sum(usage);
    }

    /// A copy of the state.
    pub fn copy(&self) -> (r: SessionState)
        ensures
            r@ == self@,
    {
        let mut permissions: Vec<(String, ToolPermission)> = Vec::new();
        for i in 0..self.permissions.len()
            invariant
                permissions_view(permissions@) =~= permissions_view(self.permissions@).take(
                    i as int,
                ),
        {
            let entry = (self.permissions[i].0.clone(), self.permissions[i].1);
            assert(permissions_view(permissions@.push(entry)) =~= permissions_view(
                permissions@,
            ).push((entry.0@, entry.1)));
            permissions.push(entry);
        }
        assert(permissions_view(self.permissions@).take(self.permissions@.len() as int)
            =~= permissions_view(self.permissions@));
        SessionState {
            version: self.version,
            legacy_migration_version: self.legacy_migration_version,
            next_turn_id: self.next_turn_id,
            usage: self.usage,
            permissions,
        }
    }

    /// Changes the permission of a tool.
    pub fn set_permission(&mut self, tool: &str, permission: ToolPermission)
        ensures
            final(self)@ == old(self)@.with_permission(tool@, permission),
    {
        let ghost all = permissions_view(self.permissions@);
        let ghost p = not_named(tool@);
        let mut kept: Vec<(String, ToolPermission)> = Vec::new();
        proof {
            crate::seqs::lemma_filter_empty(all, p);
            assert(permissions_view(kept@) =~= Seq::empty());
        }
        for i in 0..self.permissions.len()
            invariant
                all == permissions_view(self.permissions@),
                p == not_named(tool@),
                self@ == old(self)@,
                permissions_view(kept@) == all.take(i as int).filter(p),
        {
            proof {
                crate::seqs::lemma_filter_step(all, i as int, p);
                assert(all[i as int].0 == self.permissions@[i as int].0@);
            }
            if !same(&self.permissions[i].0, tool) {
                let entry = (self.permissions[i].0.clone(), self.permissions[i].1);
                assert(permissions_view(kept@.push(entry)) =~= permissions_view(kept@).push(
                    (entry.0@, entry.1),
                ));
                kept.push(entry);
            }
        }
        assert(all.take(self.permissions@.len() as int) =~= all);
        let entry = (tool.to_owned(), permission);
        assert(permissions_view(kept@.push(entry)) =~= permissions_view(kept@).push(
            (tool@, permission),
        ));
        kept.push(entry);
        self.permissions = kept;
    }

    /// Replaces all permissions.
    pub fn set_permissions(&mut self, permissions: &Vec<(String, ToolPermission)>)
        ensures
            final(self)@ == old(self)@.with_permissions(permissions_view(permissions@)),
    {
        let ghost all = permissions_view(permissions@);
        let mut sorted: Vec<(String, ToolPermission)> = Vec::new();
        assert(permissions_view(sorted@) =~= in_name_order(all.take(0)));
        for i in 0..permissions.len()
            invariant
                all == permissions_view(permissions@),
                permissions_view(sorted@) == in_name_order(all.take(i as int)),
        {
            assert(all.take(i + 1).drop_last() =~= all.take(i as int));
            assert(all.take(i + 1).last() == (
                permissions@[i as int].0@,
                permissions@[i as int].1,
            ));
            add_name(&mut sorted, (permissions[i].0.clone(), permissions[i].1));
        }
        assert(all.take(permissions@.len() as int) =~= all);
        let ghost order = permissions_view(sorted@);
        let mut kept: Vec<(String, ToolPermission)> = Vec::new();
        assert(permissions_view(kept@) =~= without_repeats(order.take(0)));
        for i in 0..sorted.len()
            invariant
                order == permissions_view(sorted@),
                permissions_view(kept@) == without_repeats(order.take(i as int)),
        {
            assert(order.take(i + 1).drop_last() =~= order.take(i as int));
            assert(order.take(i + 1).last() == (sorted@[i as int].0@, sorted@[i as int].1));
            let n: usize = kept.len();
            assert(permissions_view(kept@).len() == n);
            let repeated = n > 0 && same(&kept[n - 1].0, &sorted[i].0);
            if !repeated {
                let entry = (sorted[i].0.clone(), sorted[i].1);
                assert(permissions_view(kept@.push(entry)) =~= permissions_view(kept@).push(
                    (entry.0@, entry.1),
                ));
                kept.push(entry);
            }
        }
        assert(order.take(sorted@.len() as int) =~= order);
        self.permissions = kept;
    }
}

/// A record of the messages: a message, or the end of a turn that makes the
/// messages before it count.
#[derive(Clone, Debug, PartialEq)]
pub enum ContextRecord {
    Message(Message),
    TurnCompleted(u64, TokenUsage),
}

#[verifier::ext_equal]
pub enum ContextRecordView {
    Message(MessageView),
    TurnCompleted(u64, TokenUsage),
}

impl View for ContextRecord {
    type V = ContextRecordView;

    open spec fn view(&self) -> ContextRecordView {
        match self {
            ContextRecord::Message(m) => ContextRecordView::Message(m@),
            ContextRecord::TurnCompleted(id, usage) => ContextRecordView::TurnCompleted(
                *id,
                *usage,
            ),
        }
    }
}

pub open spec fn records_view(v: Seq<ContextRecord>) -> Seq<ContextRecordView> {
    v.map_values(|r: ContextRecord| r@)
}

/// What the records say so far: the messages of complete turns, those of a
/// turn that is not complete, and what the complete turns add up to.
#[verifier::ext_equal]
pub struct Replay {
    pub messages: Seq<MessageView>,
    pub pending: Seq<MessageView>,
    pub next_turn_id: u64,
    pub usage: TokenUsage,
    pub any_turn: bool,
}

pub open spec fn empty_replay() -> Replay {
    Replay {
        messages: Seq::empty(),
        pending: Seq::empty(),
        next_turn_id: 1,
        usage: no_usage(),
        any_turn: false,
    }
}

impl Replay {
    /// Takes a record. The user's message opens a turn: what stands before it
    /// of a turn that was never completed is dropped.
    pub open spec fn take(self, r: ContextRecordView) -> Replay {
        match r {
            ContextRecordView::Message(m) => Replay {
                pending: if m is User {
                    seq![m]
                } else {
                    self.pending.push(m)
                },
                ..self
            },
            ContextRecordView::TurnCompleted(id, usage) => Replay {
                messages: self.messages + self.pending,
                pending: Seq::empty(),
                next_turn_id: later(self.next_turn_id, id.saturating_add(1)),
                usage: self.usage.plus(usage),
                any_turn: true,
            },
        }
    }

    pub open spec fn take_all(self, records: Seq<ContextRecordView>) -> Replay
        decreases records.len(),
    {
        if records.len() == 0 {
            self
        } else {
            self.take_all(records.drop_last()).take(records.last())
        }
    }
}

/// What a session is continued from.
pub struct RestoredSession {
    pub context: ContextMemory,
    pub next_turn_id: u64,
    pub usage: TokenUsage,
    pub permissions: Vec<(String, ToolPermission)>,
}

#[verifier::ext_equal]
pub struct RestoredView {
    pub context: ContextView,
    pub next_turn_id: u64,
    pub usage: TokenUsage,
    pub permissions: Seq<(Seq<char>, ToolPermission)>,
}

impl View for RestoredSession {
    type V = RestoredView;

    open spec fn view(&self) -> RestoredView {
        RestoredView {
            context: self.context@,
            next_turn_id: self.next_turn_id,
            usage: self.usage,
            permissions: permissions_view(self.permissions@),
        }
    }
}

/// What a session is continued from: the messages of complete turns. The
/// usage is that of the turns on record, or of the state where there is none.
pub open spec fn restored(prompt: Seq<char>, state: StateView, r: Replay) -> RestoredView {
    RestoredView {
        context: ContextView { system_prompt: prompt, messages: r.messages },
        next_turn_id: later(r.next_turn_id, state.next_turn_id),
        usage: if r.any_turn {
            r.usage
        } else {
            state.usage
        },
        permissions: state.permissions,
    }
}

/// What a session is continued from, given its state and its records.
pub fn restore_session(
    system_prompt: &str,
    state: SessionState,
    records: Vec<ContextRecord>,
) -> (r: Result<RestoredSession, ContextError>)
    ensures
        ({
            let replay = empty_replay().take_all(records_view(records@));
            match r {
                Ok(s) => history_fault(replay.messages) is None && s@ == restored(
                    system_prompt@,
                    state@,
                    replay,
                ),
                Err(e) => history_fault(replay.messages) == Some(e@),
            }
        }),
{
    let ghost all = records_view(records@);
    let mut messages: Vec<Message> = Vec::new();
    let mut pending: Vec<Message> = Vec::new();
    let mut next_turn_id: u64 = 1;
    let mut usage = TokenUsage::default();
    let mut any_turn = false;
    proof {
        assert(all.take(0) =~= Seq::empty());
        assert(messages_view(messages@) =~= Seq::empty());
    }
    for i in 0..records.len()
        invariant
            all == records_view(records@),
            (Replay {
                messages: messages_view(messages@),
                pending: messages_view(pending@),
                next_turn_id,
                usage,
                any_turn,
            }) == empty_replay().take_all(all.take(i as int)),
    {
        proof {
            assert(all.take(i + 1).drop_last() =~= all.take(i as int));
            assert(all.take(i + 1).last() == records@[i as int]@);
        }
        match &records[i] {
            ContextRecord::Message(m) => {
                let copy = m.copy();
                if let Message::User { content: _ } = m {
                    pending = Vec::new();
                    assert(messages_view(pending@) =~= Seq::empty());
                }
                proof {
                    lemma_messages_push(pending@, copy);
                    assert(Seq::<MessageView>::empty().push(copy@) =~= seq![copy@]);
                }
                pending.push(copy);
            },
            ContextRecord::TurnCompleted(id, turn_usage) => {
                proof {
                    assert(messages_view(messages@ + pending@) =~= messages_view(messages@)
                        + messages_view(pending@));
                }
                messages.append(&mut pending);
                assert(messages_view(pending@) =~= Seq::empty());
                next_turn_id = later_of(next_turn_id, id.saturating_add(1));
                usage = usage.sum(turn_usage);
                any_turn = true;
            },
        }
    }
    assert(all.take(records@.len() as int) =~= all);
    match ContextMemory::restore(system_prompt, messages) {
        Ok(context) => Ok(
            RestoredSession {
                context,
                next_turn_id: later_of(next_turn_id, state.next_turn_id),
                usage: if any_turn {
                    usage
                } else {
                    state.usage
                },
                permissions: state.permissions,
            },
        ),
        Err(e) => Err(e),
    }
}

/// A record of what happened, which takes no part in the context.
#[derive(Clone, Debug, PartialEq)]
pub enum TraceRecord {
    Event(AgentEvent),
    RetrievalSources(u64, Vec<RagSourceRef>),
    Tool(ToolTrace),
    McpLifecycle(McpLifecycle),
}

/// A change to the connection with a remote server.
#[derive(Clone, Debug, PartialEq)]
pub struct McpLifecycle {
    pub action: String,
    pub server: Option<String>,
    pub succeeded: bool,
    pub detail: Option<String>,
    pub occurred_at: String,
}

#[verifier::ext_equal]
pub struct LifecycleView {
    pub action: Seq<char>,
    pub server: Option<Seq<char>>,
    pub succeeded: bool,
    pub detail: Option<Seq<char>>,
    pub occurred_at: Seq<char>,
}

impl View for McpLifecycle {
    type V = LifecycleView;

    open spec fn view(&self) -> LifecycleView {
        LifecycleView {
            action: self.action@,
            server: view_opt(self.server),
            succeeded: self.succeeded,
            detail: view_opt(self.detail),
            occurred_at: self.occurred_at@,
        }
    }
}

/// The record of an event. Volatile events have none.
pub fn event_record(event: AgentEvent) -> (r: Option<TraceRecord>)
    ensures
        r == if event is AssistantDelta {
            None
        } else {
            Some(TraceRecord::Event(event))
        },
{
    if event.is_volatile() {
        None
    } else {
        Some(TraceRecord::Event(event))
    }
}

/// A record of the trace, as far as it is spoken of.
#[verifier::ext_equal]
pub enum TraceRecordView {
    Event,
    RetrievalSources(u64, Seq<SourceRefView>),
    Tool(TraceView),
    McpLifecycle(LifecycleView),
}

impl View for TraceRecord {
    type V = TraceRecordView;

    open spec fn view(&self) -> TraceRecordView {
        match self {
            TraceRecord::Event(_) => TraceRecordView::Event,
            TraceRecord::RetrievalSources(id, refs) => TraceRecordView::RetrievalSources(
                *id,
                refs_view(refs@),
            ),
            TraceRecord::Tool(t) => TraceRecordView::Tool(t@),
            TraceRecord::McpLifecycle(l) => TraceRecordView::McpLifecycle(l@),
        }
    }
}

pub open spec fn trace_view(v: Seq<TraceRecord>) -> Seq<TraceRecordView> {
    v.map_values(|r: TraceRecord| r@)
}

pub open spec fn tool_traces_view(v: Seq<ToolTrace>) -> Seq<TraceView> {
    v.map_values(|t: ToolTrace| t@)
}

fn copy_trace(t: &ToolTrace) -> (r: ToolTrace)
    ensures
        r@ == t@,
{
    ToolTrace {
        turn_id: t.turn_id,
        step: t.step,
        call_id: t.call_id.clone(),
        tool_name: t.tool_name.clone(),
        arguments_preview: t.arguments_preview.clone(),
        arguments_hash: t.arguments_hash.clone(),
        status: t.status,
        duration_ms: t.duration_ms,
        result_hash: t.result_hash.clone(),
        completed_at: t.completed_at.clone(),
    }
}

fn copy_refs(refs: &Vec<RagSourceRef>) -> (r: Vec<RagSourceRef>)
    ensures
        refs_view(r@) == refs_view(refs@),
{
    let mut r: Vec<RagSourceRef> = Vec::new();
    for i in 0..refs.len()
        invariant
            refs_view(r@) =~= refs_view(refs@).take(i as int),
    {
        let mut numbers: Vec<usize> = Vec::new();
        let count: usize = refs[i].chunk_indices.len();
        for j in 0..count
            invariant
                i < refs@.len(),
                count == refs@[i as int].chunk_indices@.len(),
                numbers@ =~= refs@[i as int].chunk_indices@.take(j as int),
        {
            numbers.push(refs[i].chunk_indices[j]);
        }
        assert(numbers@ =~= refs@[i as int].chunk_indices@);
        let copy = RagSourceRef { source: refs[i].source.clone(), chunk_indices: numbers };
        assert(refs_view(r@.push(copy)) =~= refs_view(r@).push(copy@));
        assert(refs_view(refs@).take(i + 1) =~= refs_view(refs@).take(i as int).push(copy@));
        r.push(copy);
    }
    assert(refs_view(refs@).take(refs@.len() as int) =~= refs_view(refs@));
    r
}

/// What is written when a turn is completed: first the trace, then the
/// messages with the record that makes them count.
#[derive(Clone, Debug)]
pub struct TurnBatch {
    pub trace: Vec<TraceRecord>,
    pub context: Vec<ContextRecord>,
}

/// The records of a turn's messages.
pub open spec fn turn_records(
    messages: Seq<MessageView>,
    turn_id: u64,
    usage: TokenUsage,
) -> Seq<ContextRecordView> {
    messages.map_values(|m: MessageView| ContextRecordView::Message(m)).push(
        ContextRecordView::TurnCompleted(turn_id, usage),
    )
}

/// The records of a turn's tools and of the sources that it quoted.
pub open spec fn audit_records(
    turn_id: u64,
    sources: Seq<SourceRefView>,
    traces: Seq<TraceView>,
) -> Seq<TraceRecordView> {
    let tools = traces.map_values(|t: TraceView| TraceRecordView::Tool(t));
    if sources.len() > 0 {
        tools.push(TraceRecordView::RetrievalSources(turn_id, sources))
    } else {
        tools
    }
}

/// The files of a session.
#[derive(Clone, Debug, PartialEq)]
pub struct SessionPaths {
    pub directory: String,
    pub context: String,
    pub trace: String,
    pub state: String,
}

#[verifier::ext_equal]
pub struct PathsView {
    pub directory: Seq<char>,
    pub context: Seq<char>,
    pub trace: Seq<char>,
    pub state: Seq<char>,
}

impl View for SessionPaths {
    type V = PathsView;

    open spec fn view(&self) -> PathsView {
        PathsView {
            directory: self.directory@,
            context: self.context@,
            trace: self.trace@,
            state: self.state@,
        }
    }
}

pub open spec fn paths_in(directory: Seq<char>) -> PathsView {
    PathsView {
        directory,
        context: join_path_spec(directory, "context.jsonl"@),
        trace: join_path_spec(directory, "trace.jsonl"@),
        state: join_path_spec(directory, "state.json"@),
    }
}

/// A session: where it is kept and its state. It decides what is written;
/// writing is up to its user.
pub struct SessionStore {
    paths: SessionPaths,
    state: SessionState,
}

#[verifier::ext_equal]
pub struct StoreView {
    pub paths: PathsView,
    pub state: StateView,
}

impl View for SessionStore {
    type V = StoreView;

    closed spec fn view(&self) -> StoreView {
        StoreView { paths: self.paths@, state: self.state@ }
    }
}

impl SessionStore {
    /// A session in a directory, with the state that was read there.
    pub fn at(directory: &str, state: SessionState) -> (r: SessionStore)
        ensures
            r@ == (StoreView { paths: paths_in(directory@), state: state@ }),
    {
        SessionStore {
            paths: SessionPaths {
                directory: directory.to_owned(),
                context: join_path(directory, "context.jsonl"),
                trace: join_path(directory, "trace.jsonl"),
                state: join_path(directory, "state.json"),
            },
            state,
        }
    }

    /// The directory of the session.
    pub fn path(&self) -> (r: &str)
        ensures
            r@ == self@.paths.directory,
    {
        self.paths.directory.as_str()
    }

    /// The files of the session.
    pub fn paths(&self) -> (r: &SessionPaths)
        ensures
            r@ == self@.paths,
    {
        &self.paths
    }

    /// The state of the session.
    pub fn state(&self) -> (r: &SessionState)
        ensures
            r@ == self@.state,
    {
        &self.state
    }

    /// What the session is continued from, given its records.
    pub fn restore(&self, system_prompt: &str, records: Vec<ContextRecord>) -> (r: Result<
        RestoredSession,
        ContextError,
    >)
        ensures
            ({
                let replay = empty_replay().take_all(records_view(records@));
                match r {
                    Ok(s) => history_fault(replay.messages) is None && s@ == restored(
                        system_prompt@,
                        self@.state,
                        replay,
                    ),
                    Err(e) => history_fault(replay.messages) == Some(e@),
                }
            }),
    {
        restore_session(system_prompt, self.state.copy(), records)
    }

    /// The tool calls on record, of all turns or of one.
    pub fn tool_traces(&self, records: &Vec<TraceRecord>, turn_id: Option<u64>) -> (r: Vec<
        ToolTrace,
    >)
        ensures
            tool_traces_view(r@) == traces_of(trace_view(records@), turn_id),
    {
        tool_traces(records, turn_id)
    }

    /// Takes over a state that was read again.
    pub fn set_state(&mut self, state: SessionState)
        ensures
            final(self)@ == (StoreView { state: state@, ..old(self)@ }),
    {
        self.state = state;
    }

    /// Changes the permission of a tool.
    pub fn append_permission(&mut self, tool: &str, permission: ToolPermission)
        ensures
            final(self)@ == (StoreView {
                state: old(self)@.state.with_permission(tool@, permission),
                ..old(self)@
            }),
    {
        self.state.set_permission(tool, permission)
    }

    /// Replaces all permissions, which drops those of tools that are gone.
    pub fn replace_permissions(&mut self, permissions: &Vec<(String, ToolPermission)>)
        ensures
            final(self)@ == (StoreView {
                state: old(self)@.state.with_permissions(permissions_view(permissions@)),
                ..old(self)@
            }),
    {
        self.state.set_permissions(permissions)
    }

    /// Completes a turn without sources or tools. The messages are those of one
    /// turn, which the user's question opens and in which there is no other: of
    /// a batch with two questions, what stands before the second is not read
    /// back.
    pub fn append_turn(&mut self, messages: &[Message], turn_id: u64, usage: &TokenUsage) -> (r:
        TurnBatch)
        ensures
            records_view(r.context@) == turn_records(messages_view(messages@), turn_id, *usage),
            r.trace@.len() == 0,
            final(self)@ == (StoreView {
                state: old(self)@.state.after_turn(turn_id, *usage),
                ..old(self)@
            }),
    {
        let none: Vec<RagSourceRef> = Vec::new();
        let r = self.append_turn_with_sources(messages, turn_id, usage, &none);
        assert(trace_view(r.trace@).len() == r.trace@.len());
        r
    }

    /// Completes a turn that quoted sources. The messages are those of one turn
    /// with one question.
    pub fn append_turn_with_sources(
        &mut self,
        messages: &[Message],
        turn_id: u64,
        usage: &TokenUsage,
        sources: &Vec<RagSourceRef>,
    ) -> (r: TurnBatch)
        ensures
            records_view(r.context@) == turn_records(messages_view(messages@), turn_id, *usage),
            trace_view(r.trace@) == audit_records(turn_id, refs_view(sources@), Seq::empty()),
            final(self)@ == (StoreView {
                state: old(self)@.state.after_turn(turn_id, *usage),
                ..old(self)@
            }),
    {
        let none: Vec<ToolTrace> = Vec::new();
        assert(tool_traces_view(none@) =~= Seq::empty());
        self.append_turn_with_audit(messages, turn_id, usage, sources, &none)
    }

    /// Completes a turn: what is to be written, trace first. The messages are
    /// those of one turn with one question.
    pub fn append_turn_with_audit(
        &mut self,
        messages: &[Message],
        turn_id: u64,
        usage: &TokenUsage,
        sources: &Vec<RagSourceRef>,
        traces: &Vec<ToolTrace>,
    ) -> (r: TurnBatch)
        ensures
            records_view(r.context@) == turn_records(messages_view(messages@), turn_id, *usage),
            trace_view(r.trace@) == audit_records(
                turn_id,
                refs_view(sources@),
                tool_traces_view(traces@),
            ),
            final(self)@ == (StoreView {
                state: old(self)@.state.after_turn(turn_id, *usage),
                ..old(self)@
            }),
    {
        let mut trace: Vec<TraceRecord> = trace_records(traces);
        assert(refs_view(sources@).len() == sources@.len());
        if sources.len() > 0 {
            let record = TraceRecord::RetrievalSources(turn_id, copy_refs(sources));
            assert(trace_view(trace@.push(record)) =~= trace_view(trace@).push(record@));
            trace.push(record);
        }
        let ghost all = messages_view(messages@);
        let ghost f = |m: MessageView| ContextRecordView::Message(m);
        let mut context: Vec<ContextRecord> = Vec::new();
        for i in 0..messages.len()
            invariant
                all == messages_view(messages@),
                f == (|m: MessageView| ContextRecordView::Message(m)),
                records_view(context@) =~= all.take(i as int).map_values(f),
        {
            let record = ContextRecord::Message(messages[i].copy());
            assert(records_view(context@.push(record)) =~= records_view(context@).push(record@));
            assert(all.take(i + 1).map_values(f) =~= all.take(i as int).map_values(f).push(
                record@,
            ));
            context.push(record);
        }
        assert(all.take(messages@.len() as int) =~= all);
        let end = ContextRecord::TurnCompleted(turn_id, *usage);
        assert(records_view(context@.push(end)) =~= records_view(context@).push(end@));
        context.push(end);
        self.state.complete_turn(turn_id, usage);
        TurnBatch { trace, context }
    }

    /// The record of an event. Volatile events have none.
    pub fn append_agent_event(&self, event: AgentEvent) -> (r: Option<TraceRecord>)
        ensures
            r == if event is AssistantDelta {
                None
            } else {
                Some(TraceRecord::Event(event))
            },
    {
        event_record(event)
    }

    /// The records of the tool calls of a turn that was not completed.
    pub fn append_tool_traces(&self, traces: &Vec<ToolTrace>) -> (r: Vec<TraceRecord>)
        ensures
            trace_view(r@) == tool_traces_view(traces@).map_values(
                |t: TraceView| TraceRecordView::Tool(t),
            ),
    {
        trace_records(traces)
    }

    /// The record of a change, made now, to the connection with a server.
    pub fn append_mcp_lifecycle(
        &self,
        action: &str,
        server: Option<String>,
        succeeded: bool,
        detail: Option<String>,
    ) -> (r: TraceRecord)
        ensures
            r matches TraceRecord::McpLifecycle(l) && l@ == (LifecycleView {
                action: action@,
                server: view_opt(server),
                succeeded,
                detail: view_opt(detail),
                occurred_at: l@.occurred_at,
            }) && is_rfc3339(l@.occurred_at) && has_suffix(l@.occurred_at, "+00:00"@),
    {
        TraceRecord::McpLifecycle(
            McpLifecycle {
                action: action.to_owned(),
                server,
                succeeded,
                detail,
                occurred_at: utc_now(),
            },
        )
    }

    /// Forgets the session's state. Older records that were taken over are not
    /// taken over again.
    pub fn clear(&mut self)
        ensures
            final(self)@ == (StoreView { state: old(self)@.state.cleared(), ..old(self)@ }),
    {
        let version: u32 = self.state.legacy_migration_version;
        self.state = SessionState::default();
        self.state.legacy_migration_version = version;
    }
}

/// The records of tool calls.
pub fn trace_records(traces: &Vec<ToolTrace>) -> (r: Vec<TraceRecord>)
    ensures
        trace_view(r@) == tool_traces_view(traces@).map_values(
            |t: TraceView| TraceRecordView::Tool(t),
        ),
{
    let ghost all = tool_traces_view(traces@);
    let ghost f = |t: TraceView| TraceRecordView::Tool(t);
    let mut r: Vec<TraceRecord> = Vec::new();
    for i in 0..traces.len()
        invariant
            all == tool_traces_view(traces@),
            f == (|t: TraceView| TraceRecordView::Tool(t)),
            trace_view(r@) =~= all.take(i as int).map_values(f),
    {
        let record = TraceRecord::Tool(copy_trace(&traces[i]));
        assert(trace_view(r@.push(record)) =~= trace_view(r@).push(record@));
        assert(all.take(i + 1).map_values(f) =~= all.take(i as int).map_values(f).push(record@));
        r.push(record);
    }
    assert(all.take(traces@.len() as int) =~= all);
    r
}

/// The records of tool calls among others, all of them or those of a turn.
pub open spec fn traces_of(records: Seq<TraceRecordView>, turn_id: Option<u64>) -> Seq<TraceView>
    decreases records.len(),
{
    if records.len() == 0 {
        Seq::empty()
    } else {
        let before = traces_of(records.drop_last(), turn_id);
        match records.last() {
            TraceRecordView::Tool(t) => if turn_id is None || turn_id == Some(t.turn_id) {
                before.push(t)
            } else {
                before
            },
            _ => before,
        }
    }
}

/// The records of tool calls among others, all of them or those of a turn.
pub fn tool_traces(records: &Vec<TraceRecord>, turn_id: Option<u64>) -> (r: Vec<ToolTrace>)
    ensures
        tool_traces_view(r@) == traces_of(trace_view(records@), turn_id),
{
    let ghost all = trace_view(records@);
    let mut r: Vec<ToolTrace> = Vec::new();
    assert(tool_traces_view(r@) =~= traces_of(all.take(0), turn_id));
    for i in 0..records.len()
        invariant
            all == trace_view(records@),
            tool_traces_view(r@) == traces_of(all.take(i as int), turn_id),
    {
        assert(all.take(i + 1).drop_last() =~= all.take(i as int));
        assert(all.take(i + 1).last() == records@[i as int]@);
        if let TraceRecord::Tool(t) = &records[i] {
            let wanted = match turn_id {
                Some(id) => id == t.turn_id,
                None => true,
            };
            if wanted {
                let copy = copy_trace(t);
                assert(tool_traces_view(r@.push(copy)) =~= tool_traces_view(r@).push(copy@));
                r.push(copy);
            }
        }
    }
    assert(all.take(records@.len() as int) =~= all);
    r
}

/// A record of the single file in which older sessions were kept.
#[derive(Debug)]
pub enum LegacyRecord {
    Message(Message),
    TurnCompleted(u64, TokenUsage),
    PermissionChanged(String, ToolPermission),
    RetrievalSources(u64, Vec<RagSourceRef>),
    Tool(ToolTrace),
    /// An event, whose text is taken over as it is.
    Event(String),
}

/// A line of the trace: a record, or a text that is taken over as it is.
#[derive(Debug)]
pub enum TraceLine {
    Record(TraceRecord),
    Text(String),
}

#[verifier::ext_equal]
pub enum TraceLineView {
    Record(TraceRecordView),
    Text(Seq<char>),
}

impl View for TraceLine {
    type V = TraceLineView;

    open spec fn view(&self) -> TraceLineView {
        match self {
            TraceLine::Record(r) => TraceLineView::Record(r@),
            TraceLine::Text(t) => TraceLineView::Text(t@),
        }
    }
}

pub open spec fn lines_view(v: Seq<TraceLine>) -> Seq<TraceLineView> {
    v.map_values(|l: TraceLine| l@)
}

#[verifier::ext_equal]
pub enum LegacyView {
    Message(MessageView),
    TurnCompleted(u64, TokenUsage),
    PermissionChanged(Seq<char>, ToolPermission),
    RetrievalSources(u64, Seq<SourceRefView>),
    Tool(TraceView),
    Event(Seq<char>),
}

impl View for LegacyRecord {
    type V = LegacyView;

    open spec fn view(&self) -> LegacyView {
        match self {
            LegacyRecord::Message(m) => LegacyView::Message(m@),
            LegacyRecord::TurnCompleted(id, usage) => LegacyView::TurnCompleted(*id, *usage),
            LegacyRecord::PermissionChanged(tool, p) => LegacyView::PermissionChanged(tool@, *p),
            LegacyRecord::RetrievalSources(id, refs) => LegacyView::RetrievalSources(
                *id,
                refs_view(refs@),
            ),
            LegacyRecord::Tool(t) => LegacyView::Tool(t@),
            LegacyRecord::Event(t) => LegacyView::Event(t@),
        }
    }
}

/// A session in its present form, as far as it was taken over.
pub struct Migration {
    pub context: Vec<ContextRecord>,
    pub trace: Vec<TraceLine>,
    pub state: SessionState,
}

#[verifier::ext_equal]
pub struct MigrationView {
    pub context: Seq<ContextRecordView>,
    pub trace: Seq<TraceLineView>,
    pub state: StateView,
}

impl View for Migration {
    type V = MigrationView;

    open spec fn view(&self) -> MigrationView {
        MigrationView {
            context: records_view(self.context@),
            trace: lines_view(self.trace@),
            state: self.state@,
        }
    }
}

impl MigrationView {
    /// Takes over a record: messages and the ends of turns go to the context,
    /// permissions and what turns add up to go to the state, and all else to
    /// the trace.
    pub open spec fn take(self, r: LegacyView) -> MigrationView {
        match r {
            LegacyView::Message(m) => MigrationView {
                context: self.context.push(ContextRecordView::Message(m)),
                ..self
            },
            LegacyView::TurnCompleted(id, usage) => MigrationView {
                context: self.context.push(ContextRecordView::TurnCompleted(id, usage)),
                state: self.state.after_turn(id, usage),
                ..self
            },
            LegacyView::PermissionChanged(tool, p) => MigrationView {
                state: self.state.with_permission(tool, p),
                ..self
            },
            LegacyView::RetrievalSources(id, refs) => MigrationView {
                trace: self.trace.push(
                    TraceLineView::Record(TraceRecordView::RetrievalSources(id, refs)),
                ),
                ..self
            },
            LegacyView::Tool(t) => MigrationView {
                trace: self.trace.push(TraceLineView::Record(TraceRecordView::Tool(t))),
                ..self
            },
            LegacyView::Event(text) => MigrationView {
                trace: self.trace.push(TraceLineView::Text(text)),
                ..self
            },
        }
    }
}

impl MigrationView {
    /// The session at the end, marked so that the records are not taken over
    /// again.
    pub open spec fn finished(self) -> MigrationView {
        MigrationView {
            state: StateView { legacy_migration_version: 1, ..self.state },
            ..self
        }
    }
}

impl Migration {
    /// A session that nothing has been taken over to.
    pub fn new() -> (r: Migration)
        ensures
            r@ == (MigrationView {
                context: Seq::empty(),
                trace: Seq::empty(),
                state: fresh_state(),
            }),
    {
        let r = Migration {
            context: Vec::new(),
            trace: Vec::new(),
            state: SessionState::default(),
        };
        assert(r@.context =~= Seq::empty());
        assert(r@.trace =~= Seq::empty());
        r
    }

    /// Takes over a record.
    pub fn migrate_legacy_record(&mut self, record: LegacyRecord)
        ensures
            final(self)@ == old(self)@.take(record@),
    {
        match record {
            LegacyRecord::Message(m) => {
                let r = ContextRecord::Message(m);
                assert(records_view(self.context@.push(r)) =~= records_view(self.context@).push(
                    r@,
                ));
                self.context.push(r);
            },
            LegacyRecord::TurnCompleted(id, usage) => {
                let r = ContextRecord::TurnCompleted(id, usage);
                assert(records_view(self.context@.push(r)) =~= records_view(self.context@).push(
                    r@,
                ));
                self.context.push(r);
                self.state.complete_turn(id, &usage);
            },
            LegacyRecord::PermissionChanged(tool, permission) => {
                self.state.set_permission(&tool, permission);
            },
            LegacyRecord::RetrievalSources(id, refs) => {
                let l = TraceLine::Record(TraceRecord::RetrievalSources(id, refs));
                assert(lines_view(self.trace@.push(l)) =~= lines_view(self.trace@).push(l@));
                self.trace.push(l);
            },
            LegacyRecord::Tool(t) => {
                let l = TraceLine::Record(TraceRecord::Tool(t));
                assert(lines_view(self.trace@.push(l)) =~= lines_view(self.trace@).push(l@));
                self.trace.push(l);
            },
            LegacyRecord::Event(text) => {
                let l = TraceLine::Text(text);
                assert(lines_view(self.trace@.push(l)) =~= lines_view(self.trace@).push(l@));
                self.trace.push(l);
            },
        }
    }

    /// The state at the end, marked so that the records are not taken over
    /// again.
    pub fn finish(&mut self)
        ensures
            final(self)@ == old(self)@.finished(),
    {
        self.state.legacy_migration_version = 1;
    }
}

/// Whether an older record is an event, whose text is taken over as it is.
pub fn is_legacy_event(record: &Json) -> (r: bool)
    ensures
        r == (record@.at("type"@).as_text() == Some("AgentEvent"@)),
{
    match record.text_at("type") {
        Some(kind) => same(kind, "AgentEvent"),
        None => false,
    }
}

/// Whether older records have still to be taken over.
pub fn needs_migration(state: &SessionState) -> (r: bool)
    ensures
        r == state@.migration_due(),
{
    state.legacy_migration_version < 1
}

/// The extension of a path's last component.
pub open spec fn extension_of(path: Seq<char>) -> Option<Seq<char>> {
    match file_name_spec(path) {
        Some(name) => stem_and_extension(name).1,
        None => None,
    }
}

/// A path up to the end of its file name's stem, and the extension behind it.
/// An empty extension adds nothing; a path without a file name stays.
pub open spec fn with_extension_spec(path: Seq<char>, extension: Seq<char>) -> Seq<char> {
    match file_name_spec(path) {
        Some(name) => {
            let list = pieces(path, CharClass::Only('/'));
            let base = join_spec(
                list.take(solid_len(list) - 1).push(stem_and_extension(name).0),
                "/"@,
            );
            if extension.len() == 0 {
                base
            } else {
                base + "."@ + extension
            }
        },
        None => path,
    }
}

/// A path with the extension of its file name replaced.
pub fn with_extension(path: &str, extension: &str) -> (r: String)
    ensures
        r@ == with_extension_spec(path@, extension@),
{
    match file_name(path) {
        Some(name) => {
            let mut list = split_at_class(path, CharClass::Only('/'));
            let ghost all = views(list@);
            let n: usize = count_solid(&list);
            proof {
                lemma_solid(all);
            }
            list.truncate(n - 1);
            assert(views(list@) =~= all.take(n - 1));
            let stem = split_extension(&name).0;
            proof {
                lemma_views_push(list@, stem);
            }
            list.push(stem);
            let mut r = join(&list, "/");
            if extension.unicode_len() > 0 {
                r.append(".");
                r.append(extension);
            }
            r
        },
        None => path.to_owned(),
    }
}

/// Where a session is kept, and the single file of an older one: a path with
/// the extension `jsonl` names the older file, any other the directory.
pub open spec fn locations_spec(configured: Seq<char>) -> (Seq<char>, Seq<char>) {
    if extension_of(configured) == Some("jsonl"@) {
        (with_extension_spec(configured, ""@), configured)
    } else {
        (configured, with_extension_spec(configured, "jsonl"@))
    }
}

/// Where a session is kept, and the single file of an older one. Without a
/// setting it is kept in `.asteria/session`.
pub fn session_locations(configured: Option<String>) -> (r: (String, String))
    ensures
        (r.0@, r.1@) == locations_spec(
            match configured {
                Some(path) => path@,
                None => ".asteria/session"@,
            },
        ),
{
    let path = match configured {
        Some(p) => p,
        None => ".asteria/session".to_owned(),
    };
    let single = match file_name(&path) {
        Some(name) => match split_extension(&name).1 {
            Some(e) => same(&e, "jsonl"),
            None => false,
        },
        None => false,
    };
    if single {
        let directory = with_extension(&path, "");
        (directory, path)
    } else {
        let legacy = with_extension(&path, "jsonl");
        (path, legacy)
    }
}

proof fn lemma_take_all_concat(r: Replay, a: Seq<ContextRecordView>, b: Seq<ContextRecordView>)
    ensures
        r.take_all(a + b) == r.take_all(a).take_all(b),
    decreases b.len(),
{
    if b.len() == 0 {
        assert(a + b =~= a);
    } else {
        assert((a + b).drop_last() =~= a + b.drop_last());
        lemma_take_all_concat(r, a, b.drop_last());
    }
}

/// Whether the user's message opens a batch.
pub open spec fn opens_turn(messages: Seq<MessageView>) -> bool {
    messages.len() > 0 && messages[0] is User
}

/// The user speaks in a batch at most once, at the start.
pub open spec fn one_question(messages: Seq<MessageView>) -> bool {
    forall|i: int| 0 < i < messages.len() ==> !((#[trigger] messages[i]) is User)
}

proof fn lemma_take_turn(r: Replay, messages: Seq<MessageView>)
    requires
        one_question(messages),
    ensures
        r.take_all(messages.map_values(|m: MessageView| ContextRecordView::Message(m)))
            == (Replay {
            pending: if opens_turn(messages) {
                messages
            } else {
                r.pending + messages
            },
            ..r
        }),
    decreases messages.len(),
{
    let f = |m: MessageView| ContextRecordView::Message(m);
    let records = messages.map_values(f);
    if messages.len() == 0 {
        assert(r.pending + messages =~= r.pending);
    } else {
        let front = messages.drop_last();
        assert forall|i: int| 0 < i < front.len() implies !((#[trigger] front[i]) is User) by {
            assert(front[i] == messages[i]);
        }
        lemma_take_turn(r, front);
        assert(records.drop_last() =~= front.map_values(f));
        assert(records.last() == f(messages.last()));
        assert(messages[messages.len() - 1] == messages.last());
        if messages.len() == 1 {
            assert(seq![messages[0]] =~= messages);
            assert(r.pending.push(messages[0]) =~= r.pending + messages);
            assert(r.pending + front =~= r.pending);
        } else {
            assert(front[0] == messages[0]);
            assert(front.push(messages.last()) =~= messages);
            assert((r.pending + front).push(messages.last()) =~= r.pending + messages);
        }
    }
}

/// A turn that was completed is read back whole: its messages behind those of
/// the complete turns, its number counted and its usage added. Where the
/// user's message opens it, whatever a turn left that was never completed
/// stays out.
pub proof fn law_completed_turn_is_read_back(
    records: Seq<ContextRecordView>,
    messages: Seq<MessageView>,
    turn_id: u64,
    usage: TokenUsage,
)
    requires
        one_question(messages),
        opens_turn(messages) || empty_replay().take_all(records).pending.len() == 0,
    ensures
        ({
            let before = empty_replay().take_all(records);
            empty_replay().take_all(records + turn_records(messages, turn_id, usage)) == (Replay {
                messages: before.messages + messages,
                pending: Seq::empty(),
                next_turn_id: later(before.next_turn_id, turn_id.saturating_add(1)),
                usage: before.usage.plus(usage),
                any_turn: true,
            })
        }),
{
    let before = empty_replay().take_all(records);
    let f = |m: MessageView| ContextRecordView::Message(m);
    let batch = turn_records(messages, turn_id, usage);
    lemma_take_all_concat(empty_replay(), records, batch);
    assert(batch.drop_last() =~= messages.map_values(f));
    lemma_take_turn(before, messages);
    if before.pending.len() == 0 {
        assert(before.pending + messages =~= messages);
    }
}

proof fn lemma_take_messages(r: Replay, messages: Seq<MessageView>)
    ensures
        ({
            let after = r.take_all(
                messages.map_values(|m: MessageView| ContextRecordView::Message(m)),
            );
            after == (Replay { pending: after.pending, ..r })
        }),
    decreases messages.len(),
{
    let f = |m: MessageView| ContextRecordView::Message(m);
    if messages.len() > 0 {
        let front = messages.drop_last();
        lemma_take_messages(r, front);
        assert(messages.map_values(f).drop_last() =~= front.map_values(f));
    }
}

/// The messages of a turn that was never completed do not count.
pub proof fn law_unfinished_turn_is_ignored(
    records: Seq<ContextRecordView>,
    messages: Seq<MessageView>,
)
    ensures
        ({
            let before = empty_replay().take_all(records);
            let after = empty_replay().take_all(
                records + messages.map_values(|m: MessageView| ContextRecordView::Message(m)),
            );
            after.messages == before.messages && after.next_turn_id == before.next_turn_id
                && after.usage == before.usage && after.any_turn == before.any_turn
        }),
{
    let f = |m: MessageView| ContextRecordView::Message(m);
    lemma_take_all_concat(empty_replay(), records, messages.map_values(f));
    lemma_take_messages(empty_replay().take_all(records), messages);
}

/// A turn that was never completed leaves no trace in what is read back once a
/// later turn is completed.
pub proof fn law_unfinished_turn_stays_out(
    records: Seq<ContextRecordView>,
    unfinished: Seq<MessageView>,
    messages: Seq<MessageView>,
    turn_id: u64,
    usage: TokenUsage,
)
    requires
        one_question(messages),
        opens_turn(messages),
    ensures
        empty_replay().take_all(
            records + unfinished.map_values(|m: MessageView| ContextRecordView::Message(m))
                + turn_records(messages, turn_id, usage),
        ) == empty_replay().take_all(records + turn_records(messages, turn_id, usage)),
{
    let f = |m: MessageView| ContextRecordView::Message(m);
    law_unfinished_turn_is_ignored(records, unfinished);
    law_completed_turn_is_read_back(records, messages, turn_id, usage);
    law_completed_turn_is_read_back(
        records + unfinished.map_values(f),
        messages,
        turn_id,
        usage,
    );
}

/// Older records are taken over once: neither forgetting the session nor
/// anything that is recorded later makes a migration due again.
pub proof fn law_older_records_are_taken_over_once(
    m: MigrationView,
    s: StateView,
    turn_id: u64,
    usage: TokenUsage,
    tool: Seq<char>,
    permission: ToolPermission,
    permissions: Seq<(Seq<char>, ToolPermission)>,
)
    requires
        !s.migration_due(),
    ensures
        !m.finished().state.migration_due(),
        !m.finished().state.cleared().migration_due(),
        m.finished().state.cleared().next_turn_id == 1,
        !s.cleared().migration_due(),
        !s.after_turn(turn_id, usage).migration_due(),
        !s.with_permission(tool, permission).migration_due(),
        !s.with_permissions(permissions).migration_due(),
{
}

/// After a turn the number of the next is larger than the turn's own.
pub proof fn law_turn_numbers_grow(s: StateView, turn_id: u64, usage: TokenUsage)
    requires
        turn_id < u64::MAX,
    ensures
        s.after_turn(turn_id, usage).next_turn_id > turn_id,
        s.after_turn(turn_id, usage).next_turn_id >= s.next_turn_id,
{
}

/// The permission that was set last for a tool is the only one on record.
pub proof fn law_permission_is_replaced(s: StateView, tool: Seq<char>, permission: ToolPermission)
    ensures
        ({
            let list = s.with_permission(tool, permission).permissions;
            list.last() == (tool, permission) && forall|i: int|
                0 <= i < list.len() - 1 ==> (#[trigger] list[i]).0 != tool
        }),
{
    let kept = s.permissions.filter(not_named(tool));
    crate::seqs::lemma_filter_holds(s.permissions, not_named(tool));
    let list = s.with_permission(tool, permission).permissions;
    assert forall|i: int| 0 <= i < list.len() - 1 implies (#[trigger] list[i]).0 != tool by {
        assert(list[i] == kept[i]);
        assert(not_named(tool)(kept[i]));
    }
}

} // verus!
