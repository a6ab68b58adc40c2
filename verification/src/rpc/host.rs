//! The decisions of the host: what a command does while a turn runs, and what
//! it does while none runs.
use vstd::prelude::*;
use crate::agent_loop::{ReportView, TurnReport, TurnState};
use crate::commands::{approval_usage, classify_slash, permission_usage, slash_spec, SlashAction, SlashView};
use crate::rpc::client::{preview_arguments, ClientEvent, ClientView};
use crate::rpc::command::{CommandView, RpcCommand};
use crate::text::chars::{first_chars, lemma_views_push, views};
use crate::text::number::{dec, decimal, decimal_size};
use crate::text::pieces::{trim, trim_spec};
use crate::tui::approval::{drop_id, has_id, laid_out, without_id};
use crate::tui::render::{display_tool_name, shown_name};

verus! {

/// What the host is to do.
#[derive(Clone, Debug, PartialEq)]
pub enum HostAction {
    /// Tell the client.
    Emit(ClientEvent),
    /// Answer the request of that number.
    Reply(u64, bool),
    /// Carry out a command and tell the client its result.
    RunSlash(SlashAction),
    /// Ask the assistant.
    StartTurn(String),
    /// Cancel the turn that runs.
    CancelTurn,
    /// Begin a new session and tell the client.
    NewSession,
    /// Leave.
    Quit,
}

#[verifier::ext_equal]
pub enum ActionView {
    Emit(ClientView),
    Reply(u64, bool),
    RunSlash(SlashView),
    StartTurn(Seq<char>),
    CancelTurn,
    NewSession,
    Quit,
}

impl View for HostAction {
    type V = ActionView;

    open spec fn view(&self) -> ActionView {
        match self {
            HostAction::Emit(e) => ActionView::Emit(e@),
            HostAction::Reply(id, allowed) => ActionView::Reply(*id, *allowed),
            HostAction::RunSlash(a) => ActionView::RunSlash(a@),
            HostAction::StartTurn(t) => ActionView::StartTurn(t@),
            HostAction::CancelTurn => ActionView::CancelTurn,
            HostAction::NewSession => ActionView::NewSession,
            HostAction::Quit => ActionView::Quit,
        }
    }
}

pub open spec fn action_views(v: Seq<HostAction>) -> Seq<ActionView> {
    v.map_values(|a: HostAction| a@)
}

/// The inputs that wait, the requests that are unanswered, and whether a turn
/// runs.
pub struct RpcHost {
    pub queued: Vec<String>,
    pub pending: Vec<u64>,
    pub running: bool,
}

#[verifier::ext_equal]
pub struct HostView {
    pub queued: Seq<Seq<char>>,
    pub pending: Seq<u64>,
    pub running: bool,
}

impl View for RpcHost {
    type V = HostView;

    open spec fn view(&self) -> HostView {
        HostView { queued: views(self.queued@), pending: self.pending@, running: self.running }
    }
}

pub open spec fn note(text: Seq<char>) -> ActionView {
    ActionView::Emit(ClientView::Log(text))
}

pub open spec fn denials(ids: Seq<u64>) -> Seq<ActionView> {
    ids.map_values(|id: u64| ActionView::Reply(id, false))
}

impl HostView {
    /// An answer of the user to a request. It counts where the request is
    /// pending and still waited for.
    pub open spec fn resolve(self, id: u64, allowed: bool, waiting: Seq<u64>) -> (
        HostView,
        Seq<ActionView>,
    ) {
        (
            HostView { pending: without_id(self.pending, id), ..self },
            if self.pending.contains(id) && waiting.contains(id) {
                seq![
                    ActionView::Reply(id, allowed),
                    note(
                        "审批 #"@ + dec(id as nat) + " "@ + (if allowed {
                            "已批准"@
                        } else {
                            "已拒绝"@
                        }) + "（仅本次）"@,
                    ),
                ]
            } else {
                seq![
                    ActionView::Emit(
                        ClientView::Error("没有编号 #"@ + dec(id as nat) + " 的有效审批"@),
                    ),
                ]
            },
        )
    }

    /// A new session: all requests are denied and nothing waits any more.
    pub open spec fn restart(self) -> (HostView, Seq<ActionView>) {
        (
            HostView { queued: Seq::empty(), pending: Seq::empty(), ..self },
            denials(self.pending).push(ActionView::NewSession),
        )
    }

    /// An input while no turn runs.
    pub open spec fn input(self, text: Seq<char>, waiting: Seq<u64>) -> (
        HostView,
        Seq<ActionView>,
    ) {
        let t = trim_spec(text);
        let told = ActionView::Emit(ClientView::Command(t));
        if t.len() == 0 {
            (self, Seq::empty())
        } else {
            match slash_spec(t) {
                None => (
                    HostView { running: true, ..self },
                    seq![
                        ActionView::Emit(ClientView::User(t)),
                        ActionView::Emit(ClientView::Status("正在处理 · 可继续输入排队"@)),
                        ActionView::StartTurn(t),
                    ],
                ),
                Some(SlashView::NewSession) => {
                    let (s, acts) = self.restart();
                    (s, seq![told] + acts)
                },
                Some(SlashView::Cancel) => (
                    self,
                    seq![told, note("当前没有运行中的 Turn。"@)],
                ),
                Some(SlashView::Exit) => (
                    self,
                    seq![told, ActionView::Emit(ClientView::Exit), ActionView::Quit],
                ),
                Some(SlashView::Approve(id)) => {
                    let (s, acts) = self.resolve(id, true, waiting);
                    (s, seq![told] + acts)
                },
                Some(SlashView::Deny(id)) => {
                    let (s, acts) = self.resolve(id, false, waiting);
                    (s, seq![told] + acts)
                },
                Some(SlashView::ApprovalUsage) => (
                    self,
                    seq![
                        told,
                        ActionView::Emit(
                            ClientView::CommandResult("用法：/approve <编号> 或 /deny <编号>"@),
                        ),
                    ],
                ),
                Some(SlashView::PermissionUsage) => (
                    self,
                    seq![
                        told,
                        ActionView::Emit(
                            ClientView::CommandResult(
                                "用法：/permissions 或 /permission <工具名> allow|deny|ask"@,
                            ),
                        ),
                    ],
                ),
                Some(action) => (self, seq![told, ActionView::RunSlash(action)]),
            }
        }
    }

    /// A command while no turn runs.
    pub open spec fn idle(self, c: CommandView, waiting: Seq<u64>) -> (HostView, Seq<ActionView>) {
        match c {
            CommandView::Ask(text) => self.input(text, waiting),
            CommandView::Approve(id) => self.resolve(id, true, waiting),
            CommandView::Deny(id) => self.resolve(id, false, waiting),
            CommandView::NewSession => self.restart(),
            CommandView::Cancel => (self, seq![note("当前没有运行中的 Turn。"@)]),
            CommandView::Status => (self, seq![note("空闲。"@)]),
            CommandView::Unknown(method) => (
                self,
                seq![ActionView::Emit(ClientView::Error("未知命令："@ + method))],
            ),
        }
    }

    /// A command while a turn runs: requests can be answered and the turn can
    /// be cancelled, other inputs wait.
    pub open spec fn busy(self, c: CommandView, waiting: Seq<u64>) -> (HostView, Seq<ActionView>) {
        match c {
            CommandView::Cancel => (self, seq![ActionView::CancelTurn]),
            CommandView::Approve(id) => self.resolve(id, true, waiting),
            CommandView::Deny(id) => self.resolve(id, false, waiting),
            CommandView::NewSession => (
                self,
                seq![note("当前回合进行中，结束后再新建会话。"@)],
            ),
            CommandView::Ask(text) => {
                let t = trim_spec(text);
                if t.len() == 0 {
                    (self, Seq::empty())
                } else {
                    match slash_spec(t) {
                        Some(SlashView::Cancel) => (self, seq![ActionView::CancelTurn]),
                        Some(SlashView::Approve(id)) => self.resolve(id, true, waiting),
                        Some(SlashView::Deny(id)) => self.resolve(id, false, waiting),
                        Some(SlashView::ApprovalUsage) => (
                            self,
                            seq![
                                ActionView::Emit(
                                    ClientView::CommandResult(
                                        "用法：/approve <编号> 或 /deny <编号>"@,
                                    ),
                                ),
                            ],
                        ),
                        Some(SlashView::NewSession) => (
                            self,
                            seq![note("当前回合进行中，结束后再新建会话。"@)],
                        ),
                        _ => (
                            HostView { queued: self.queued.push(t), ..self },
                            seq![
                                note(
                                    "已排队，当前有 "@ + dec((self.queued.len() + 1) as nat)
                                        + " 条待处理输入"@,
                                ),
                            ],
                        ),
                    }
                }
            },
            _ => (self, Seq::empty()),
        }
    }

    /// A command.
    pub open spec fn command(self, c: CommandView, waiting: Seq<u64>) -> (
        HostView,
        Seq<ActionView>,
    ) {
        if self.running {
            self.busy(c, waiting)
        } else {
            self.idle(c, waiting)
        }
    }

    /// The first input that waits, once no turn runs.
    pub open spec fn next(self, waiting: Seq<u64>) -> Option<(HostView, Seq<ActionView>)> {
        if self.running || self.queued.len() == 0 {
            None
        } else {
            let rest = HostView { queued: self.queued.skip(1), ..self };
            let (s, acts) = rest.input(self.queued[0], waiting);
            Some((s, seq![note("开始处理排队问题"@)] + acts))
        }
    }

    /// The end of a turn: requests that are still unanswered are denied.
    pub open spec fn ended(self, failure: Option<Seq<char>>, report: Option<ReportView>) -> (
        HostView,
        Seq<ActionView>,
    ) {
        (
            HostView { pending: Seq::empty(), running: false, ..self },
            denials(self.pending) + (match (failure, report) {
                (None, Some(turn)) => seq![
                    ActionView::Emit(
                        ClientView::TurnCompleted(
                            turn.steps,
                            turn.usage.total_tokens,
                            turn.retries,
                        ),
                    ),
                ],
                (None, None) => Seq::empty(),
                (Some(message), _) => if report is Some && report->0.state
                    == TurnState::Cancelled {
                    seq![ActionView::Emit(ClientView::TurnCancelled)]
                } else {
                    seq![ActionView::Emit(ClientView::Error(message))]
                },
            }),
        )
    }
}

fn log(text: &str) -> (r: HostAction)
    ensures
        r@ == note(text@),
{
    HostAction::Emit(ClientEvent::Log { text: text.to_owned() })
}

impl RpcHost {
    /// No turn runs and nothing waits.
    pub fn new() -> (r: RpcHost)
        ensures
            r@ == (HostView { queued: Seq::empty(), pending: Seq::empty(), running: false }),
    {
        let r = RpcHost { queued: Vec::new(), pending: Vec::new(), running: false };
        assert(views(r.queued@) =~= Seq::empty());
        r
    }

    /// Takes an answer of the user to a request; `waiting` are the requests
    /// that are still waited for.
    pub fn resolve_approval(&mut self, id: u64, allowed: bool, waiting: &Vec<u64>) -> (r: Vec<
        HostAction,
    >)
        ensures
            (final(self)@, action_views(r@)) == old(self)@.resolve(id, allowed, waiting@),
    {
        let counts = has_id(&self.pending, id) && has_id(waiting, id);
        self.pending = drop_id(&self.pending, id);
        let mut acts: Vec<HostAction> = Vec::new();
        if counts {
            let mut t = "审批 #".to_owned();
            t.append(decimal(id as u128).as_str());
            t.append(" ");
            t.append(
                if allowed {
                    "已批准"
                } else {
                    "已拒绝"
                },
            );
            t.append("（仅本次）");
            acts.push(HostAction::Reply(id, allowed));
            acts.push(HostAction::Emit(ClientEvent::Log { text: t }));
        } else {
            let mut t = "没有编号 #".to_owned();
            t.append(decimal(id as u128).as_str());
            t.append(" 的有效审批");
            acts.push(HostAction::Emit(ClientEvent::Error { message: t }));
        }
        assert(action_views(acts@) =~= old(self)@.resolve(id, allowed, waiting@).1);
        acts
    }

    /// Denies all requests that are unanswered.
    fn deny_all(&mut self) -> (r: Vec<HostAction>)
        ensures
            final(self)@ == (HostView { pending: Seq::empty(), ..old(self)@ }),
            action_views(r@) == denials(old(self)@.pending),
    {
        let mut acts: Vec<HostAction> = Vec::new();
        for i in 0..self.pending.len()
            invariant
                self@ == old(self)@,
                acts@.len() == i,
                forall|j: int| 0 <= j < i ==> (#[trigger] acts@[j])@ == ActionView::Reply(
                    self.pending@[j],
                    false,
                ),
        {
            acts.push(HostAction::Reply(self.pending[i], false));
        }
        assert(action_views(acts@) =~= denials(old(self)@.pending));
        self.pending = Vec::new();
        acts
    }

    /// Begins a new session.
    pub fn reset_session(&mut self) -> (r: Vec<HostAction>)
        ensures
            (final(self)@, action_views(r@)) == old(self)@.restart(),
    {
        let mut acts = self.deny_all();
        self.queued = Vec::new();
        assert(views(self.queued@) =~= Seq::empty());
        let ghost before = acts@;
        acts.push(HostAction::NewSession);
        assert(action_views(acts@) =~= action_views(before).push(ActionView::NewSession));
        acts
    }

    /// Takes an input while no turn runs.
    pub fn handle_user_input(&mut self, text: &str, waiting: &Vec<u64>) -> (r: Vec<HostAction>)
        requires
            !old(self).running,
        ensures
            (final(self)@, action_views(r@)) == old(self)@.input(text@, waiting@),
    {
        let t = trim(text);
        let ghost want = old(self)@.input(text@, waiting@);
        let mut acts: Vec<HostAction> = Vec::new();
        if t.as_str().unicode_len() == 0 {
            assert(action_views(acts@) =~= Seq::empty());
            return acts;
        }
        match classify_slash(&t) {
            None => {
                self.running = true;
                acts.push(HostAction::Emit(ClientEvent::User { text: t.clone() }));
                acts.push(
                    HostAction::Emit(
                        ClientEvent::Status { text: "正在处理 · 可继续输入排队".to_owned() },
                    ),
                );
                acts.push(HostAction::StartTurn(t));
                assert(action_views(acts@) =~= want.1);
                acts
            },
            Some(action) => {
                acts.push(HostAction::Emit(ClientEvent::Command { text: t }));
                match action {
                    SlashAction::NewSession => {
                        let mut more = self.reset_session();
                        let ghost tail = more@;
                        acts.append(&mut more);
                        assert(action_views(acts@) =~= seq![acts@[0]@] + action_views(tail));
                    },
                    SlashAction::Cancel => acts.push(log("当前没有运行中的 Turn。")),
                    SlashAction::Exit => {
                        acts.push(HostAction::Emit(ClientEvent::Exit));
                        acts.push(HostAction::Quit);
                    },
                    SlashAction::Approve { id } => {
                        let mut more = self.resolve_approval(id, true, waiting);
                        let ghost tail = more@;
                        acts.append(&mut more);
                        assert(action_views(acts@) =~= seq![acts@[0]@] + action_views(tail));
                    },
                    SlashAction::Deny { id } => {
                        let mut more = self.resolve_approval(id, false, waiting);
                        let ghost tail = more@;
                        acts.append(&mut more);
                        assert(action_views(acts@) =~= seq![acts@[0]@] + action_views(tail));
                    },
                    SlashAction::ApprovalUsage => acts.push(
                        HostAction::Emit(
                            ClientEvent::CommandResult { text: approval_usage().to_owned() },
                        ),
                    ),
                    SlashAction::PermissionUsage => acts.push(
                        HostAction::Emit(
                            ClientEvent::CommandResult { text: permission_usage().to_owned() },
                        ),
                    ),
                    other => acts.push(HostAction::RunSlash(other)),
                }
                assert(action_views(acts@) =~= want.1);
                acts
            },
        }
    }

    /// Takes a command while no turn runs.
    pub fn idle_command(&mut self, command: RpcCommand, waiting: &Vec<u64>) -> (r: Vec<HostAction>)
        requires
            !old(self).running,
        ensures
            (final(self)@, action_views(r@)) == old(self)@.idle(command@, waiting@),
    {
        let ghost want = old(self)@.idle(command@, waiting@);
        let mut acts: Vec<HostAction> = Vec::new();
        match command {
            RpcCommand::Ask { text } => {
                return self.handle_user_input(&text, waiting);
            },
            RpcCommand::Approve { approval_id } => {
                return self.resolve_approval(approval_id, true, waiting);
            },
            RpcCommand::Deny { approval_id } => {
                return self.resolve_approval(approval_id, false, waiting);
            },
            RpcCommand::NewSession => {
                return self.reset_session();
            },
            RpcCommand::Cancel => acts.push(log("当前没有运行中的 Turn。")),
            RpcCommand::Status => acts.push(log("空闲。")),
            RpcCommand::Unknown { method } => {
                let mut t = "未知命令：".to_owned();
                t.append(method.as_str());
                acts.push(HostAction::Emit(ClientEvent::Error { message: t }));
            },
        }
        assert(action_views(acts@) =~= want.1);
        acts
    }

    /// Takes a command while a turn runs.
    pub fn busy_command(&mut self, command: RpcCommand, waiting: &Vec<u64>) -> (r: Vec<HostAction>)
        requires
            old(self).running,
        ensures
            (final(self)@, action_views(r@)) == old(self)@.busy(command@, waiting@),
    {
        let ghost want = old(self)@.busy(command@, waiting@);
        let mut acts: Vec<HostAction> = Vec::new();
        match command {
            RpcCommand::Cancel => acts.push(HostAction::CancelTurn),
            RpcCommand::Approve { approval_id } => {
                return self.resolve_approval(approval_id, true, waiting);
            },
            RpcCommand::Deny { approval_id } => {
                return self.resolve_approval(approval_id, false, waiting);
            },
            RpcCommand::NewSession => acts.push(log("当前回合进行中，结束后再新建会话。")),
            RpcCommand::Ask { text } => {
                let t = trim(&text);
                if t.as_str().unicode_len() > 0 {
                    match classify_slash(&t) {
                        Some(SlashAction::Cancel) => acts.push(HostAction::CancelTurn),
                        Some(SlashAction::Approve { id }) => {
                            return self.resolve_approval(id, true, waiting);
                        },
                        Some(SlashAction::Deny { id }) => {
                            return self.resolve_approval(id, false, waiting);
                        },
                        Some(SlashAction::ApprovalUsage) => acts.push(
                            HostAction::Emit(
                                ClientEvent::CommandResult { text: approval_usage().to_owned() },
                            ),
                        ),
                        Some(SlashAction::NewSession) => acts.push(
                            log("当前回合进行中，结束后再新建会话。"),
                        ),
                        _ => {
                            proof {
                                lemma_views_push(self.queued@, t);
                            }
                            self.queued.push(t);
                            let n: usize = self.queued.len();
                            let mut said = "已排队，当前有 ".to_owned();
                            said.append(decimal_size(n).as_str());
                            said.append(" 条待处理输入");
                            acts.push(HostAction::Emit(ClientEvent::Log { text: said }));
                        },
                    }
                }
            },
            _ => {},
        }
        assert(action_views(acts@) =~= want.1);
        acts
    }

    /// Takes a command.
    pub fn command(&mut self, command: RpcCommand, waiting: &Vec<u64>) -> (r: Vec<HostAction>)
        ensures
            (final(self)@, action_views(r@)) == old(self)@.command(command@, waiting@),
    {
        if self.running {
            self.busy_command(command, waiting)
        } else {
            self.idle_command(command, waiting)
        }
    }

    /// Takes up the first input that waits. Nothing comes of it while a turn
    /// runs, or where none waits.
    pub fn next_input(&mut self, waiting: &Vec<u64>) -> (r: Option<Vec<HostAction>>)
        ensures
            match r {
                Some(acts) => old(self)@.next(waiting@) == Some(
                    (final(self)@, action_views(acts@)),
                ),
                None => old(self)@.next(waiting@) is None && final(self)@ == old(self)@,
            },
    {
        if self.running || self.queued.len() == 0 {
            return None;
        }
        let ghost before = self@;
        let text = self.queued.remove(0);
        assert(views(self.queued@) =~= before.queued.skip(1));
        let mut acts: Vec<HostAction> = Vec::new();
        acts.push(log("开始处理排队问题"));
        let mut more = self.handle_user_input(&text, waiting);
        let ghost tail = more@;
        acts.append(&mut more);
        assert(action_views(acts@) =~= seq![acts@[0]@] + action_views(tail));
        Some(acts)
    }

    /// The client is gone: the turn that runs is cancelled, and the host
    /// leaves once none runs and nothing waits.
    pub fn input_closed(&self) -> (r: Option<HostAction>)
        ensures
            match r {
                Some(a) => a@ == if self.running {
                    ActionView::CancelTurn
                } else {
                    ActionView::Quit
                } && (self.running || self.queued@.len() == 0),
                None => !self.running && self.queued@.len() > 0,
            },
    {
        if self.running {
            Some(HostAction::CancelTurn)
        } else if self.queued.len() == 0 {
            Some(HostAction::Quit)
        } else {
            None
        }
    }

    /// Shows a request to the client; one that is no longer waited for is
    /// passed over.
    pub fn present_approval(&mut self, id: u64, tool: &str, arguments: &str, waited_for: bool) -> (r:
        Option<ClientEvent>)
        ensures
            match r {
                Some(e) => waited_for && e@ == ClientView::Approval(
                    id,
                    shown_name(tool@),
                    first_chars(laid_out(arguments@), 800),
                ) && final(self)@ == (HostView {
                    pending: without_id(old(self)@.pending, id).push(id),
                    ..old(self)@
                }),
                None => !waited_for && final(self)@ == old(self)@,
            },
    {
        if !waited_for {
            return None;
        }
        let mut pending = drop_id(&self.pending, id);
        pending.push(id);
        self.pending = pending;
        Some(
            ClientEvent::Approval {
                id,
                tool: display_tool_name(tool),
                arguments: preview_arguments(arguments),
            },
        )
    }

    /// Takes the end of a turn: how it failed, where it did, and its report.
    pub fn turn_ended(&mut self, failure: Option<String>, report: Option<&TurnReport>) -> (r: Vec<
        HostAction,
    >)
        ensures
            (final(self)@, action_views(r@)) == old(self)@.ended(
                match failure {
                    Some(f) => Some(f@),
                    None => None,
                },
                match report {
                    Some(t) => Some(t@),
                    None => None,
                },
            ),
    {
        let mut acts = self.deny_all();
        self.running = false;
        let ghost before = acts@;
        match failure {
            None => {
                if let Some(turn) = report {
                    acts.push(
                        HostAction::Emit(
                            ClientEvent::TurnCompleted {
                                steps: turn.steps,
                                tokens: turn.usage.total_tokens,
                                retries: turn.retries,
                            },
                        ),
                    );
                    assert(action_views(acts@) =~= action_views(before) + seq![acts@.last()@]);
                } else {
                    assert(action_views(acts@) =~= action_views(before) + Seq::empty());
                }
            },
            Some(message) => {
                let cancelled = match report {
                    Some(turn) => turn.state == TurnState::Cancelled,
                    None => false,
                };
                if cancelled {
                    acts.push(HostAction::Emit(ClientEvent::TurnCancelled));
                } else {
                    acts.push(HostAction::Emit(ClientEvent::Error { message }));
                }
                assert(action_views(acts@) =~= action_views(before) + seq![acts@.last()@]);
            },
        }
        acts
    }
}

/// What the client is told of a new session.
pub fn session_event(failure: Option<String>) -> (r: ClientEvent)
    ensures
        r@ == match failure {
            None => ClientView::SessionCleared,
            Some(f) => ClientView::Error(f@),
        },
{
    match failure {
        None => ClientEvent::SessionCleared,
        Some(message) => ClientEvent::Error { message },
    }
}

/// No request outlives its turn: at the end of a turn every unanswered
/// request is denied, and none is left.
pub proof fn law_no_request_outlives_its_turn(
    h: HostView,
    failure: Option<Seq<char>>,
    report: Option<ReportView>,
    id: u64,
)
    requires
        h.pending.contains(id),
    ensures
        h.ended(failure, report).0.pending.len() == 0,
        h.ended(failure, report).1.contains(ActionView::Reply(id, false)),
{
    let i = choose|i: int| 0 <= i < h.pending.len() && h.pending[i] == id;
    let acts = h.ended(failure, report).1;
    assert(denials(h.pending)[i] == ActionView::Reply(id, false));
    assert(acts[i] == denials(h.pending)[i]);
}

/// Turns do not overlap: while one runs, no command starts another or ends the
/// one that runs, and what waits keeps its order.
pub proof fn law_turns_do_not_overlap(h: HostView, c: CommandView, waiting: Seq<u64>)
    requires
        h.running,
    ensures
        h.command(c, waiting).0.running,
        forall|i: int|
            0 <= i < h.command(c, waiting).1.len() ==> !(#[trigger] h.command(c, waiting).1[i]
                is StartTurn),
        h.queued.is_prefix_of(h.command(c, waiting).0.queued),
        h.next(waiting) is None,
{
}

/// Inputs that wait are taken up in the order in which they came: the one
/// taken up is the first, and it leaves.
pub proof fn law_inputs_are_taken_up_in_order(h: HostView, waiting: Seq<u64>)
    requires
        !h.running,
        h.queued.len() > 0,
        slash_spec(trim_spec(h.queued[0])) is None,
        trim_spec(h.queued[0]).len() > 0,
    ensures
        match h.next(waiting) {
            Some((rest, acts)) => {
                &&& rest.queued == h.queued.skip(1)
                &&& acts.last() == ActionView::StartTurn(trim_spec(h.queued[0]))
            },
            None => false,
        },
{
}

} // verus!
