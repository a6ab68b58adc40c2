//! A turn of the agent: ask the model, run the tools it calls, and ask again,
//! until it answers.
//!
//! The loop itself makes no request and runs no tool. It says what to do next
//! and takes the outcome.
use vstd::prelude::*;
use crate::context::{awaiting, complete, history_fault, says_nothing, ContextFault, ContextMemory, ContextView};
use crate::context_builder::{default_policy, prepared, ContextBuilder, ContextPolicy, HeuristicTokenEstimator, PreparedContext, PreparedView};
use crate::json::{Json, JsonView};
use crate::message::{calls_view, copy_calls, CallView, MessageView, ToolCall};
use crate::provider::turn::{no_usage, AssistantTurn, ModelProvider, TokenUsage, TurnView};
use crate::retry::{default_retry, Duration, RetryPolicy};
use crate::text::chars::{copy_opt, view_opt};
use crate::text::number::{dec, decimal, decimal_size};
use crate::tool_router::{route, routed, DEFAULT_MAX_MCP_TOOLS};
use crate::tools::output::{OutputView, ToolOutput};
use crate::permission::ToolPermission;
use crate::tools::registry::{named_otherwise, position, with_permission, with_tool, RegistryView, ToolEntry, ToolRegistry};

verus! {

/// Where a turn stands.
#[derive(Clone, Copy, Debug, PartialEq, Eq, Structural)]
pub enum TurnState {
    Running,
    WaitingForTools,
    Completed,
    Failed,
    Cancelled,
}

/// What is known of a turn: its number, how many steps it took, the states it
/// went through and its answer.
#[derive(Clone, Debug, PartialEq)]
pub struct TurnReport {
    pub id: u64,
    pub steps: usize,
    pub state: TurnState,
    pub state_history: Vec<TurnState>,
    pub answer: Option<String>,
    pub latest_context_tokens: usize,
    pub context_truncated: bool,
    pub usage: TokenUsage,
    pub retries: usize,
}

#[verifier::ext_equal]
pub struct ReportView {
    pub id: u64,
    pub steps: usize,
    pub state: TurnState,
    pub state_history: Seq<TurnState>,
    pub answer: Option<Seq<char>>,
    pub latest_context_tokens: nat,
    pub context_truncated: bool,
    pub usage: TokenUsage,
    pub retries: usize,
}

impl View for TurnReport {
    type V = ReportView;

    open spec fn view(&self) -> ReportView {
        ReportView {
            id: self.id,
            steps: self.steps,
            state: self.state,
            state_history: self.state_history@,
            answer: view_opt(self.answer),
            latest_context_tokens: self.latest_context_tokens as nat,
            context_truncated: self.context_truncated,
            usage: self.usage,
            retries: self.retries,
        }
    }
}

/// The report of a turn that begins.
pub open spec fn new_report(id: u64) -> ReportView {
    ReportView {
        id,
        steps: 0,
        state: TurnState::Running,
        state_history: seq![TurnState::Running],
        answer: None,
        latest_context_tokens: 0,
        context_truncated: false,
        usage: no_usage(),
        retries: 0,
    }
}

impl ReportView {
    /// The report in another state; the history holds changes only.
    pub open spec fn enter(self, state: TurnState) -> ReportView {
        ReportView {
            state,
            state_history: if self.state_history.len() > 0 && self.state_history.last() == state {
                self.state_history
            } else {
                self.state_history.push(state)
            },
            ..self
        }
    }
}

/// How many steps a turn may take.
#[derive(Clone, Copy, Debug, PartialEq, Eq, Structural)]
pub struct LoopConfig {
    pub max_steps_per_turn: usize,
}

impl Default for LoopConfig {
    fn default() -> (r: LoopConfig)
        ensures
            r.max_steps_per_turn == 8,
    {
        LoopConfig { max_steps_per_turn: 8 }
    }
}

/// What the loop waits for.
#[verifier::ext_equal]
pub enum PhaseView {
    /// No turn is under way.
    Idle,
    /// The model's reply, to the attempt of that number.
    Asking(usize),
    /// The end of the delay before the next attempt.
    Waiting(usize),
    /// The output of the call at that position of the batch.
    Running(Seq<CallView>, nat),
}

enum Phase {
    Idle,
    Asking(usize),
    Waiting(usize),
    Running(Vec<ToolCall>, usize),
}

impl View for Phase {
    type V = PhaseView;

    closed spec fn view(&self) -> PhaseView {
        match self {
            Phase::Idle => PhaseView::Idle,
            Phase::Asking(n) => PhaseView::Asking(*n),
            Phase::Waiting(n) => PhaseView::Waiting(*n),
            Phase::Running(calls, i) => PhaseView::Running(calls_view(calls@), *i as nat),
        }
    }
}

/// What to do next.
#[derive(Clone, Debug, PartialEq)]
pub enum LoopAction {
    /// Ask the model with the prepared context.
    Ask,
    /// Show the notice and wait.
    Wait(Duration, String),
    /// Run the tool.
    RunTool(ToolCall),
    /// The turn is complete with this answer.
    Finished(String),
    /// The turn has ended for this reason, and its messages are gone.
    Stopped(String),
    /// Nothing: the outcome was not waited for.
    Nothing,
}

#[verifier::ext_equal]
pub enum ActionView {
    Ask,
    Wait(Duration, Seq<char>),
    RunTool(CallView),
    Finished(Seq<char>),
    Stopped(Seq<char>),
    Nothing,
}

impl View for LoopAction {
    type V = ActionView;

    open spec fn view(&self) -> ActionView {
        match self {
            LoopAction::Ask => ActionView::Ask,
            LoopAction::Wait(d, notice) => ActionView::Wait(*d, notice@),
            LoopAction::RunTool(call) => ActionView::RunTool(call@),
            LoopAction::Finished(answer) => ActionView::Finished(answer@),
            LoopAction::Stopped(reason) => ActionView::Stopped(reason@),
            LoopAction::Nothing => ActionView::Nothing,
        }
    }
}

/// The outcome of what was done.
#[derive(Clone, Debug)]
pub enum LoopEvent {
    Reply(AssistantTurn),
    /// The request failed for this reason; whether it is worth another try.
    RequestFailed(String, bool),
    /// The request was given up for a cancellation.
    RequestCancelled,
    /// The delay is over, or was cut short by a cancellation.
    Waited,
    ToolDone(ToolOutput),
    /// The tool was given up for a cancellation.
    ToolCancelled,
}

#[verifier::ext_equal]
pub enum EventView {
    Reply(TurnView),
    RequestFailed(Seq<char>, bool),
    RequestCancelled,
    Waited,
    ToolDone(OutputView),
    ToolCancelled,
}

impl View for LoopEvent {
    type V = EventView;

    open spec fn view(&self) -> EventView {
        match self {
            LoopEvent::Reply(t) => EventView::Reply(t@),
            LoopEvent::RequestFailed(e, retryable) => EventView::RequestFailed(e@, *retryable),
            LoopEvent::RequestCancelled => EventView::RequestCancelled,
            LoopEvent::Waited => EventView::Waited,
            LoopEvent::ToolDone(o) => EventView::ToolDone(o@),
            LoopEvent::ToolCancelled => EventView::ToolCancelled,
        }
    }
}

/// The state of the loop.
#[verifier::ext_equal]
pub struct LoopView {
    pub max_steps: usize,
    pub next_turn_id: u64,
    pub report: Option<ReportView>,
    pub policy: ContextPolicy,
    pub session_usage: TokenUsage,
    pub retry: RetryPolicy,
    pub registry: RegistryView,
    pub checkpoint: usize,
    pub phase: PhaseView,
    pub prepared: Option<PreparedView>,
}

/// The loop together with the history that it works on.
#[verifier::ext_equal]
pub struct World {
    pub state: LoopView,
    pub memory: ContextView,
}

pub open spec fn tool_schemas(r: RegistryView) -> JsonView {
    JsonView::Array(r.tools.map_values(|t: ToolEntry| t.schema))
}

/// The tools that the model is shown in a conversation: those of the registry
/// that have to do with it.
pub open spec fn shown_tools(r: RegistryView, messages: Seq<MessageView>) -> JsonView {
    routed(messages, tool_schemas(r), DEFAULT_MAX_MCP_TOOLS as int)
}

impl World {
    pub open spec fn with_report(self, r: ReportView) -> World {
        World { state: LoopView { report: Some(r), ..self.state }, ..self }
    }

    /// The turn ends without an answer: everything it added is taken back.
    pub open spec fn give_up(self, state: TurnState, reason: Seq<char>) -> (World, ActionView) {
        let kept = if self.state.checkpoint < self.memory.messages.len() {
            self.memory.messages.take(self.state.checkpoint as int)
        } else {
            self.memory.messages
        };
        (
            World {
                state: LoopView {
                    report: match self.state.report {
                        Some(r) => Some(r.enter(state)),
                        None => None,
                    },
                    phase: PhaseView::Idle,
                    prepared: None,
                    ..self.state
                },
                memory: ContextView { messages: kept, ..self.memory },
            },
            ActionView::Stopped(reason),
        )
    }

    pub open spec fn cancel(self) -> (World, ActionView) {
        self.give_up(TurnState::Cancelled, "当前 Turn 已取消"@)
    }

    /// The next step, unless the turn has taken as many as it may.
    pub open spec fn next_step(self, cancelled: bool) -> (World, ActionView) {
        let r = self.state.report->0;
        if r.steps >= self.state.max_steps {
            self.give_up(TurnState::Failed, "工具调用 Step 过多，已停止"@)
        } else if cancelled {
            self.cancel()
        } else {
            let counted = ReportView { steps: (r.steps + 1) as usize, ..r };
            match prepared(
                &HeuristicTokenEstimator,
                self.state.policy,
                self.memory,
                shown_tools(self.state.registry, self.memory.messages),
            ) {
                Err(fault) => self.with_report(counted).give_up(TurnState::Failed, fault.text()),
                Ok(p) => (
                    World {
                        state: LoopView {
                            report: Some(
                                ReportView {
                                    latest_context_tokens: p.estimated_tokens,
                                    context_truncated: r.context_truncated || p.truncated,
                                    ..counted
                                },
                            ),
                            phase: PhaseView::Asking(1),
                            prepared: Some(p),
                            ..self.state
                        },
                        memory: self.memory,
                    },
                    ActionView::Ask,
                ),
            }
        }
    }

    /// A turn begins with a question.
    pub open spec fn start(self, input: Seq<char>, cancelled: bool) -> (World, ActionView) {
        let begun = World {
            state: LoopView {
                next_turn_id: (self.state.next_turn_id + 1) as u64,
                report: Some(new_report(self.state.next_turn_id)),
                checkpoint: self.memory.messages.len() as usize,
                phase: PhaseView::Idle,
                prepared: None,
                ..self.state
            },
            memory: self.memory,
        };
        if cancelled {
            begun.cancel()
        } else {
            match history_fault(self.memory.messages) {
                Some(fault) => begun.give_up(TurnState::Failed, fault.text()),
                None => World {
                    memory: ContextView {
                        messages: self.memory.messages.push(MessageView::User { content: input }),
                        ..self.memory
                    },
                    ..begun
                }.next_step(cancelled),
            }
        }
    }

    /// The model has replied.
    pub open spec fn on_reply(self, t: TurnView, cancelled: bool) -> (World, ActionView) {
        let r = self.state.report->0;
        let counted = match t.usage {
            Some(u) => World {
                state: LoopView {
                    report: Some(ReportView { usage: r.usage.plus(u), ..r }),
                    session_usage: self.state.session_usage.plus(u),
                    ..self.state
                },
                ..self
            },
            None => self,
        };
        if cancelled {
            counted.cancel()
        } else {
            match history_fault(self.memory.messages) {
                Some(fault) => counted.give_up(TurnState::Failed, fault.text()),
                None => if says_nothing(t.content, t.tool_calls) {
                    counted.give_up(TurnState::Failed, ContextFault::EmptyAssistant.text())
                } else {
                    let said = ContextView {
                        messages: self.memory.messages.push(
                            MessageView::Assistant {
                                content: t.content,
                                tool_calls: t.tool_calls,
                            },
                        ),
                        ..self.memory
                    };
                    if t.tool_calls.len() == 0 {
                        let answer = match t.content {
                            Some(text) => text,
                            None => Seq::empty(),
                        };
                        (
                            World {
                                state: LoopView {
                                    report: Some(
                                        ReportView {
                                            answer: Some(answer),
                                            ..counted.state.report->0
                                        }.enter(TurnState::Completed),
                                    ),
                                    phase: PhaseView::Idle,
                                    prepared: None,
                                    ..counted.state
                                },
                                memory: said,
                            },
                            ActionView::Finished(answer),
                        )
                    } else {
                        (
                            World {
                                state: LoopView {
                                    report: Some(
                                        counted.state.report->0.enter(TurnState::WaitingForTools),
                                    ),
                                    phase: PhaseView::Running(t.tool_calls, 0),
                                    prepared: None,
                                    ..counted.state
                                },
                                memory: said,
                            },
                            ActionView::RunTool(t.tool_calls[0]),
                        )
                    }
                },
            }
        }
    }

    /// The request has failed.
    pub open spec fn on_failure(
        self,
        attempt: usize,
        reason: Seq<char>,
        retryable: bool,
        cancelled: bool,
    ) -> (World, ActionView) {
        if cancelled {
            self.cancel()
        } else if attempt >= self.state.retry.max_attempts || !retryable {
            self.give_up(TurnState::Failed, reason)
        } else {
            let r = self.state.report->0;
            let delay = self.state.retry.delay_nanos(attempt);
            (
                World {
                    state: LoopView {
                        report: Some(ReportView { retries: r.retries.saturating_add(1), ..r }),
                        phase: PhaseView::Waiting(attempt),
                        ..self.state
                    },
                    ..self
                },
                ActionView::Wait(
                    Duration { nanos: delay as u128 },
                    retry_notice((attempt + 1) as nat, self.state.retry.max_attempts as nat, delay),
                ),
            )
        }
    }

    /// The delay before the next attempt is over.
    pub open spec fn on_waited(self, attempt: usize, cancelled: bool) -> (World, ActionView) {
        if cancelled {
            self.cancel()
        } else {
            (
                World {
                    state: LoopView {
                        phase: PhaseView::Asking((attempt + 1) as usize),
                        ..self.state
                    },
                    ..self
                },
                ActionView::Ask,
            )
        }
    }

    /// A tool has handed back its output.
    pub open spec fn on_output(
        self,
        calls: Seq<CallView>,
        i: int,
        output: OutputView,
        cancelled: bool,
    ) -> (World, ActionView) {
        match awaiting(self.memory.messages) {
            Err(fault) => self.give_up(TurnState::Failed, fault.text()),
            Ok(pending) => if !pending.contains(calls[i].id) {
                self.give_up(
                    TurnState::Failed,
                    ContextFault::UnmatchedResult(calls[i].id).text(),
                )
            } else {
                let answered = World {
                    memory: ContextView {
                        messages: self.memory.messages.push(
                            MessageView::Tool {
                                call_id: calls[i].id,
                                content: output.content,
                                is_error: output.is_error,
                            },
                        ),
                        ..self.memory
                    },
                    ..self
                };
                if i + 1 < calls.len() {
                    if cancelled {
                        answered.cancel()
                    } else {
                        (
                            World {
                                state: LoopView {
                                    phase: PhaseView::Running(calls, (i + 1) as nat),
                                    ..answered.state
                                },
                                ..answered
                            },
                            ActionView::RunTool(calls[i + 1]),
                        )
                    }
                } else {
                    answered.with_report(
                        self.state.report->0.enter(TurnState::Running),
                    ).next_step(cancelled)
                }
            },
        }
    }

    /// What follows an outcome. One that was not waited for changes nothing.
    pub open spec fn advance(self, event: EventView, cancelled: bool) -> (World, ActionView) {
        match (self.state.phase, event) {
            (PhaseView::Asking(_), EventView::Reply(t)) => self.on_reply(t, cancelled),
            (
                PhaseView::Asking(attempt),
                EventView::RequestFailed(reason, retryable),
            ) => self.on_failure(attempt, reason, retryable, cancelled),
            (PhaseView::Asking(_), EventView::RequestCancelled) => self.cancel(),
            (PhaseView::Waiting(attempt), EventView::Waited) => self.on_waited(attempt, cancelled),
            (PhaseView::Running(calls, i), EventView::ToolDone(output)) => self.on_output(
                calls,
                i as int,
                output,
                cancelled,
            ),
            (PhaseView::Running(_, _), EventView::ToolCancelled) => self.cancel(),
            _ => (self, ActionView::Nothing),
        }
    }
}

impl LoopView {
    /// The loop with other tools.
    pub open spec fn with_tools(self, tools: Seq<ToolEntry>) -> LoopView {
        LoopView { registry: RegistryView { tools, ..self.registry }, ..self }
    }
}

/// The tools with the permission of one changed, where there is one of that
/// name.
pub open spec fn permitted(tools: Seq<ToolEntry>, name: Seq<char>, permission: ToolPermission) -> Seq<
    ToolEntry,
> {
    match position(tools, name) {
        Some(i) => with_permission(tools, i, permission),
        None => tools,
    }
}

/// The tools without the one of a name.
pub open spec fn without_tool(tools: Seq<ToolEntry>, name: Seq<char>) -> Seq<ToolEntry> {
    match position(tools, name) {
        Some(i) => tools.remove(i),
        None => tools,
    }
}

/// The notice before another attempt.
pub open spec fn retry_notice(next: nat, max: nat, delay_nanos: int) -> Seq<char> {
    "[Retry] attempt="@ + dec(next) + "/"@ + dec(max) + " delay="@ + dec(
        (delay_nanos / 1_000_000) as nat,
    ) + "ms"@
}

/// What holds between the steps of a turn: a turn that is under way has a
/// report, another attempt can be counted, and a batch has a call left to run.
pub open spec fn loop_ok(s: LoopView) -> bool {
    match s.phase {
        PhaseView::Idle => true,
        PhaseView::Asking(n) => s.report is Some && 1 <= n && s.prepared is Some,
        PhaseView::Waiting(n) => s.report is Some && 1 <= n < usize::MAX
            && s.prepared is Some,
        PhaseView::Running(calls, i) => s.report is Some && i < calls.len(),
    }
}

/// A loop that has run no turn.
pub open spec fn unused_loop(max_steps: usize, policy: ContextPolicy) -> LoopView {
    LoopView {
        max_steps,
        next_turn_id: 1,
        report: None,
        policy,
        session_usage: no_usage(),
        retry: default_retry(),
        registry: crate::tools::registry::default_registry(),
        checkpoint: 0,
        phase: PhaseView::Idle,
        prepared: None,
    }
}

/// Runs the turns of a conversation with a model.
pub struct AgentLoop<P> {
    provider: P,
    config: LoopConfig,
    next_turn_id: u64,
    last_turn: Option<TurnReport>,
    context_builder: ContextBuilder<HeuristicTokenEstimator>,
    session_usage: TokenUsage,
    retry_policy: RetryPolicy,
    tool_registry: ToolRegistry,
    checkpoint: usize,
    phase: Phase,
    prepared: Option<PreparedContext>,
}

pub open spec fn report_opt(o: Option<TurnReport>) -> Option<ReportView> {
    match o {
        Some(r) => Some(r@),
        None => None,
    }
}

pub open spec fn prepared_opt(o: Option<PreparedContext>) -> Option<PreparedView> {
    match o {
        Some(p) => Some(p@),
        None => None,
    }
}

impl<P: ModelProvider> View for AgentLoop<P> {
    type V = LoopView;

    closed spec fn view(&self) -> LoopView {
        LoopView {
            max_steps: self.config.max_steps_per_turn,
            next_turn_id: self.next_turn_id,
            report: report_opt(self.last_turn),
            policy: self.context_builder.policy(),
            session_usage: self.session_usage,
            retry: self.retry_policy,
            registry: self.tool_registry@,
            checkpoint: self.checkpoint,
            phase: self.phase@,
            prepared: prepared_opt(self.prepared),
        }
    }
}

fn enter_state(report: &mut TurnReport, state: TurnState)
    ensures
        final(report)@ == old(report)@.enter(state),
{
    report.state = state;
    let n: usize = report.state_history.len();
    if n == 0 || report.state_history[n - 1] != state {
        report.state_history.push(state);
    }
}

impl<P: ModelProvider> AgentLoop<P> {
    /// The provider that requests go to.
    pub closed spec fn held(&self) -> P {
        self.provider
    }

    /// A loop with the default budget.
    pub fn new(provider: P, config: LoopConfig) -> (r: AgentLoop<P>)
        ensures
            r.held() == provider,
            r@ == unused_loop(config.max_steps_per_turn, default_policy()),
            loop_ok(r@),
    {
        AgentLoop::with_context_policy(provider, config, ContextPolicy::default())
    }

    /// A loop with a budget.
    pub fn with_context_policy(provider: P, config: LoopConfig, context_policy: ContextPolicy) -> (r:
        AgentLoop<P>)
        ensures
            r.held() == provider,
            r@ == unused_loop(config.max_steps_per_turn, context_policy),
            loop_ok(r@),
    {
        AgentLoop {
            provider,
            config,
            next_turn_id: 1,
            last_turn: None,
            context_builder: ContextBuilder::new(context_policy, HeuristicTokenEstimator),
            session_usage: TokenUsage::default(),
            retry_policy: RetryPolicy::default(),
            tool_registry: ToolRegistry::default(),
            checkpoint: 0,
            phase: Phase::Idle,
            prepared: None,
        }
    }

    /// The name of the model.
    pub fn model(&self) -> (r: &str)
        ensures
            r@ == self.held().model_name(),
    {
        self.provider.model()
    }

    /// The provider of the model.
    pub fn provider(&self) -> (r: &P)
        ensures
            *r == self.held(),
    {
        &self.provider
    }

    /// Sets how requests are tried again; at least one attempt is needed.
    pub fn set_retry_policy(&mut self, policy: RetryPolicy) -> (r: Result<(), String>)
        ensures
            final(self).held() == old(self).held(),
            match r {
                Ok(_) => policy.max_attempts > 0 && final(self)@ == (LoopView {
                    retry: policy,
                    ..old(self)@
                }),
                Err(e) => policy.max_attempts == 0 && e@ == "max_attempts 必须大于零"@
                    && final(self)@ == old(self)@,
            },
    {
        if policy.max_attempts == 0 {
            return Err("max_attempts 必须大于零".to_owned());
        }
        self.retry_policy = policy;
        Ok(())
    }

    /// The report of the latest turn.
    pub fn last_turn(&self) -> (r: Option<&TurnReport>)
        ensures
            match r {
                Some(t) => self@.report == Some(t@),
                None => self@.report is None,
            },
    {
        match &self.last_turn {
            Some(t) => Some(t),
            None => None,
        }
    }

    /// The tokens that all turns have used.
    pub fn session_usage(&self) -> (r: &TokenUsage)
        ensures
            *r == self@.session_usage,
    {
        &self.session_usage
    }

    /// The number of the next turn.
    pub fn next_turn_id(&self) -> (r: u64)
        ensures
            r == self@.next_turn_id,
    {
        self.next_turn_id
    }

    /// Continues the numbers and the usage of a session.
    pub fn restore_session_state(&mut self, next_turn_id: u64, usage: TokenUsage)
        ensures
            final(self).held() == old(self).held(),
            final(self)@ == (LoopView { next_turn_id, session_usage: usage, ..old(self)@ }),
    {
        self.next_turn_id = next_turn_id;
        self.session_usage = usage;
    }

    /// The registered tools.
    pub fn registry(&self) -> (r: &ToolRegistry)
        ensures
            r@ == self@.registry,
    {
        &self.tool_registry
    }

    /// Replaces the registered tools.
    pub fn set_registry(&mut self, registry: ToolRegistry)
        ensures
            final(self).held() == old(self).held(),
            final(self)@ == (LoopView { registry: registry@, ..old(self)@ }),
    {
        self.tool_registry = registry;
    }

    /// Changes the permission of a tool. There has to be a tool of that name.
    pub fn set_tool_permission(&mut self, name: &str, permission: ToolPermission) -> (r: Result<
        (),
        String,
    >)
        ensures
            final(self).held() == old(self).held(),
            match r {
                Ok(_) => position(old(self)@.registry.tools, name@) is Some,
                Err(e) => position(old(self)@.registry.tools, name@) is None && e@
                    == "未知工具: "@ + name@,
            },
            final(self)@ == old(self)@.with_tools(
                permitted(old(self)@.registry.tools, name@, permission),
            ),
    {
        self.tool_registry.set_permission(name, permission)
    }

    /// Registers a tool with a permission.
    pub fn register_tool_with_permission(
        &mut self,
        name: &str,
        schema: Json,
        permission: ToolPermission,
    )
        ensures
            final(self).held() == old(self).held(),
            final(self)@ == old(self)@.with_tools(
                with_tool(
                    old(self)@.registry.tools,
                    ToolEntry { name: name@, schema: schema@, permission },
                ),
            ),
    {
        self.tool_registry.register_with_permission(name, schema, permission)
    }

    /// Removes a tool.
    pub fn unregister_tool(&mut self, name: &str)
        ensures
            final(self).held() == old(self).held(),
            final(self)@ == old(self)@.with_tools(without_tool(old(self)@.registry.tools, name@)),
    {
        let _found = self.tool_registry.unregister(name);
    }

    /// Removes the tools whose names begin with a prefix.
    pub fn unregister_tools_with_prefix(&mut self, prefix: &str)
        ensures
            final(self).held() == old(self).held(),
            final(self)@ == old(self)@.with_tools(
                old(self)@.registry.tools.filter(named_otherwise(prefix@)),
            ),
    {
        self.tool_registry.unregister_with_prefix(prefix)
    }

    /// Says that there is someone to ask.
    pub fn set_tool_approver(&mut self)
        ensures
            final(self).held() == old(self).held(),
            final(self)@ == (LoopView {
                registry: RegistryView { has_approver: true, ..old(self)@.registry },
                ..old(self)@
            }),
    {
        self.tool_registry.set_approver()
    }

    /// Begins the numbers and the usage of a session anew. No turn is under way
    /// then.
    pub fn reset_session_state(&mut self)
        ensures
            final(self).held() == old(self).held(),
            final(self)@ == (LoopView {
                next_turn_id: 1,
                session_usage: no_usage(),
                report: None,
                phase: PhaseView::Idle,
                prepared: None,
                ..old(self)@
            }),
    {
        self.next_turn_id = 1;
        self.session_usage = TokenUsage::default();
        self.last_turn = None;
        self.phase = Phase::Idle;
        self.prepared = None;
    }

    /// How many messages the history held when the latest turn began.
    pub fn checkpoint(&self) -> (r: usize)
        ensures
            r == self@.checkpoint,
    {
        self.checkpoint
    }

    /// The tools that the model is shown in a conversation.
    pub fn shown_tools(&self, context: &ContextMemory) -> (r: Json)
        ensures
            r@ == shown_tools(self@.registry, context@.messages),
    {
        route(context.messages(), &self.tool_registry.schema())
    }

    /// The context to ask the model with, while its reply is waited for.
    pub fn prepared(&self) -> (r: Option<&PreparedContext>)
        ensures
            match r {
                Some(p) => self@.prepared == Some(p@),
                None => self@.prepared is None,
            },
    {
        match &self.prepared {
            Some(p) => Some(p),
            None => None,
        }
    }

    fn give_up(&mut self, context: &mut ContextMemory, state: TurnState, reason: String) -> (r:
        LoopAction)
        ensures
            final(self).held() == old(self).held(),
            (World { state: final(self)@, memory: final(context)@ }, r@) == (World {
                state: old(self)@,
                memory: old(context)@,
            }).give_up(state, reason@),
    {
        context.rollback(self.checkpoint);
        if let Some(report) = &mut self.last_turn {
            enter_state(report, state);
        }
        self.phase = Phase::Idle;
        self.prepared = None;
        LoopAction::Stopped(reason)
    }

    fn cancel(&mut self, context: &mut ContextMemory) -> (r: LoopAction)
        ensures
            final(self).held() == old(self).held(),
            (World { state: final(self)@, memory: final(context)@ }, r@) == (World {
                state: old(self)@,
                memory: old(context)@,
            }).cancel(),
    {
        self.give_up(context, TurnState::Cancelled, "当前 Turn 已取消".to_owned())
    }

    fn next_step(&mut self, context: &mut ContextMemory, cancelled: bool) -> (r: LoopAction)
        requires
            old(self)@.report is Some,
        ensures
            final(self).held() == old(self).held(),
            (World { state: final(self)@, memory: final(context)@ }, r@) == (World {
                state: old(self)@,
                memory: old(context)@,
            }).next_step(cancelled),
    {
        let steps: usize = match &self.last_turn {
            Some(t) => t.steps,
            None => 0,
        };
        if steps >= self.config.max_steps_per_turn {
            return self.give_up(
                context,
                TurnState::Failed,
                "工具调用 Step 过多，已停止".to_owned(),
            );
        }
        if cancelled {
            return self.cancel(context);
        }
        if let Some(report) = &mut self.last_turn {
            report.steps = steps + 1;
        }
        let schemas = self.shown_tools(context);
        match self.context_builder.prepare(context, &schemas) {
            Err(e) => self.give_up(context, TurnState::Failed, e.message()),
            Ok(prepared) => {
                if let Some(report) = &mut self.last_turn {
                    report.latest_context_tokens = prepared.estimated_tokens();
                    report.context_truncated = report.context_truncated || prepared.truncated();
                }
                self.phase = Phase::Asking(1);
                self.prepared = Some(prepared);
                LoopAction::Ask
            },
        }
    }

    /// Begins a turn with a question.
    pub fn start_turn(&mut self, context: &mut ContextMemory, input: &str, cancelled: bool) -> (r:
        LoopAction)
        requires
            old(self)@.next_turn_id < u64::MAX,
        ensures
            final(self).held() == old(self).held(),
            (World { state: final(self)@, memory: final(context)@ }, r@) == (World {
                state: old(self)@,
                memory: old(context)@,
            }).start(input@, cancelled),
            loop_ok(final(self)@),
    {
        proof {
            crate::agent_loop_laws::lemma_start_is_ok(
                World { state: self@, memory: context@ },
                input@,
                cancelled,
            );
        }
        let id: u64 = self.next_turn_id;
        self.next_turn_id = id + 1;
        let mut history: Vec<TurnState> = Vec::new();
        history.push(TurnState::Running);
        let report = TurnReport {
            id,
            steps: 0,
            state: TurnState::Running,
            state_history: history,
            answer: None,
            latest_context_tokens: 0,
            context_truncated: false,
            usage: TokenUsage::default(),
            retries: 0,
        };
        assert(report@ =~= new_report(id));
        self.last_turn = Some(report);
        self.checkpoint = context.checkpoint();
        self.phase = Phase::Idle;
        self.prepared = None;
        if cancelled {
            return self.cancel(context);
        }
        match context.append_user(input) {
            Err(e) => self.give_up(context, TurnState::Failed, e.message()),
            Ok(_) => self.next_step(context, cancelled),
        }
    }

    fn on_reply(&mut self, context: &mut ContextMemory, turn: AssistantTurn, cancelled: bool) -> (r:
        LoopAction)
        requires
            old(self)@.report is Some,
        ensures
            final(self).held() == old(self).held(),
            (World { state: final(self)@, memory: final(context)@ }, r@) == (World {
                state: old(self)@,
                memory: old(context)@,
            }).on_reply(turn@, cancelled),
    {
        if let Some(usage) = turn.usage {
            if let Some(report) = &mut self.last_turn {
                report.usage = report.usage.sum(&usage);
            }
            self.session_usage = self.session_usage.sum(&usage);
        }
        if cancelled {
            return self.cancel(context);
        }
        let content = copy_opt(&turn.content);
        let calls = copy_calls(&turn.tool_calls);
        match context.append_assistant(content, calls) {
            Err(e) => self.give_up(context, TurnState::Failed, e.message()),
            Ok(_) => {
                self.prepared = None;
                if turn.tool_calls.len() == 0 {
                    let answer = match turn.content {
                        Some(text) => text,
                        None => String::new(),
                    };
                    if let Some(report) = &mut self.last_turn {
                        report.answer = Some(answer.clone());
                        enter_state(report, TurnState::Completed);
                    }
                    self.phase = Phase::Idle;
                    LoopAction::Finished(answer)
                } else {
                    if let Some(report) = &mut self.last_turn {
                        enter_state(report, TurnState::WaitingForTools);
                    }
                    let first = turn.tool_calls[0].copy();
                    self.phase = Phase::Running(turn.tool_calls, 0);
                    LoopAction::RunTool(first)
                }
            },
        }
    }

    fn on_failure(
        &mut self,
        context: &mut ContextMemory,
        attempt: usize,
        reason: String,
        retryable: bool,
        cancelled: bool,
    ) -> (r: LoopAction)
        requires
            old(self)@.report is Some,
        ensures
            final(self).held() == old(self).held(),
            (World { state: final(self)@, memory: final(context)@ }, r@) == (World {
                state: old(self)@,
                memory: old(context)@,
            }).on_failure(attempt, reason@, retryable, cancelled),
    {
        if cancelled {
            return self.cancel(context);
        }
        if attempt >= self.retry_policy.max_attempts || !retryable {
            return self.give_up(context, TurnState::Failed, reason);
        }
        let delay = self.retry_policy.delay(attempt);
        if let Some(report) = &mut self.last_turn {
            report.retries = report.retries.saturating_add(1);
        }
        let mut notice = "[Retry] attempt=".to_owned();
        notice.append(decimal_size(attempt + 1).as_str());
        notice.append("/");
        notice.append(decimal_size(self.retry_policy.max_attempts).as_str());
        notice.append(" delay=");
        notice.append(decimal(delay.as_millis()).as_str());
        notice.append("ms");
        self.phase = Phase::Waiting(attempt);
        LoopAction::Wait(delay, notice)
    }

    fn on_output(
        &mut self,
        context: &mut ContextMemory,
        calls: Vec<ToolCall>,
        i: usize,
        output: ToolOutput,
        cancelled: bool,
    ) -> (r: LoopAction)
        requires
            old(self)@.report is Some,
            i < calls@.len(),
        ensures
            final(self).held() == old(self).held(),
            (World { state: final(self)@, memory: final(context)@ }, r@) == (World {
                state: old(self)@,
                memory: old(context)@,
            }).on_output(calls_view(calls@), i as int, output@, cancelled),
    {
        let ghost all = calls_view(calls@);
        let count: usize = calls.len();
        assert(all[i as int] == calls@[i as int]@);
        match context.append_tool_result(&calls[i].id, &output.content, output.is_error) {
            Err(e) => self.give_up(context, TurnState::Failed, e.message()),
            Ok(_) => {
                if i + 1 < count {
                    if cancelled {
                        return self.cancel(context);
                    }
                    let next = calls[i + 1].copy();
                    assert(all[i + 1] == calls@[i + 1]@);
                    self.phase = Phase::Running(calls, i + 1);
                    LoopAction::RunTool(next)
                } else {
                    if let Some(report) = &mut self.last_turn {
                        enter_state(report, TurnState::Running);
                    }
                    self.next_step(context, cancelled)
                }
            },
        }
    }

    /// Takes an outcome, and says what to do next.
    pub fn advance(&mut self, context: &mut ContextMemory, event: LoopEvent, cancelled: bool) -> (r:
        LoopAction)
        requires
            loop_ok(old(self)@),
        ensures
            final(self).held() == old(self).held(),
            (World { state: final(self)@, memory: final(context)@ }, r@) == (World {
                state: old(self)@,
                memory: old(context)@,
            }).advance(event@, cancelled),
            loop_ok(final(self)@),
    {
        proof {
            crate::agent_loop_laws::lemma_loop_stays_ok(
                World { state: self@, memory: context@ },
                event@,
                cancelled,
            );
        }
        match (&self.phase, event) {
            (Phase::Asking(_), LoopEvent::Reply(turn)) => self.on_reply(context, turn, cancelled),
            (Phase::Asking(attempt), LoopEvent::RequestFailed(reason, retryable)) => {
                let n: usize = *attempt;
                self.on_failure(context, n, reason, retryable, cancelled)
            },
            (Phase::Asking(_), LoopEvent::RequestCancelled) => self.cancel(context),
            (Phase::Waiting(attempt), LoopEvent::Waited) => {
                let n: usize = *attempt;
                if cancelled {
                    return self.cancel(context);
                }
                self.phase = Phase::Asking(n + 1);
                LoopAction::Ask
            },
            (Phase::Running(calls, i), LoopEvent::ToolDone(output)) => {
                let n: usize = *i;
                let batch = copy_calls(calls);
                assert(calls_view(batch@).len() == batch@.len());
                self.on_output(context, batch, n, output, cancelled)
            },
            (Phase::Running(_, _), LoopEvent::ToolCancelled) => self.cancel(context),
            _ => LoopAction::Nothing,
        }
    }
}

} // verus!
