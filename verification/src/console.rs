//! The decisions of the interactive program: what a line does while a turn
//! runs, and what it does while none runs.
use vstd::prelude::*;
use crate::terminal::InputEvent;
use crate::text::chars::{lemma_views_push, same, views};
use crate::text::number::{dec, decimal_size};
use crate::text::pieces::{trim, trim_spec, words, words_spec};
use crate::text::search::{has_prefix, starts_with};
use crate::tui::approval::{answer_of, without_id, ApprovalUi, Response, ResponseView};

verus! {

/// What a line asks for while no turn runs.
#[derive(Clone, Debug, PartialEq)]
pub enum IdleAction {
    Permissions,
    Permission(String, String),
    PermissionUsage,
    ShowVerbose,
    SetVerbose(bool),
    VerboseUsage,
    Exit,
    NothingRuns,
    Context,
    Usage,
    Mcp(String),
    Trace(String),
    Session,
    NewSession,
    Reset,
    Nothing,
    Ask(String),
}

#[verifier::ext_equal]
pub enum IdleView {
    Permissions,
    Permission(Seq<char>, Seq<char>),
    PermissionUsage,
    ShowVerbose,
    SetVerbose(bool),
    VerboseUsage,
    Exit,
    NothingRuns,
    Context,
    Usage,
    Mcp(Seq<char>),
    Trace(Seq<char>),
    Session,
    NewSession,
    Reset,
    Nothing,
    Ask(Seq<char>),
}

impl View for IdleAction {
    type V = IdleView;

    open spec fn view(&self) -> IdleView {
        match self {
            IdleAction::Permissions => IdleView::Permissions,
            IdleAction::Permission(n, v) => IdleView::Permission(n@, v@),
            IdleAction::PermissionUsage => IdleView::PermissionUsage,
            IdleAction::ShowVerbose => IdleView::ShowVerbose,
            IdleAction::SetVerbose(on) => IdleView::SetVerbose(*on),
            IdleAction::VerboseUsage => IdleView::VerboseUsage,
            IdleAction::Exit => IdleView::Exit,
            IdleAction::NothingRuns => IdleView::NothingRuns,
            IdleAction::Context => IdleView::Context,
            IdleAction::Usage => IdleView::Usage,
            IdleAction::Mcp(c) => IdleView::Mcp(c@),
            IdleAction::Trace(c) => IdleView::Trace(c@),
            IdleAction::Session => IdleView::Session,
            IdleAction::NewSession => IdleView::NewSession,
            IdleAction::Reset => IdleView::Reset,
            IdleAction::Nothing => IdleView::Nothing,
            IdleAction::Ask(t) => IdleView::Ask(t@),
        }
    }
}

/// What a line asks for while no turn runs.
pub open spec fn idle_spec(line: Seq<char>) -> IdleView {
    let parts = words_spec(line);
    let text = trim_spec(line);
    if parts.len() > 0 && parts[0] == "/permissions"@ && parts.len() == 1 {
        IdleView::Permissions
    } else if parts.len() == 3 && parts[0] == "/permission"@ {
        IdleView::Permission(parts[1], parts[2])
    } else if parts.len() > 0 && (parts[0] == "/permissions"@ || parts[0] == "/permission"@) {
        IdleView::PermissionUsage
    } else if parts.len() > 0 && parts[0] == "/verbose"@ {
        if parts.len() == 1 {
            IdleView::ShowVerbose
        } else if parts.len() == 2 && parts[1] == "on"@ {
            IdleView::SetVerbose(true)
        } else if parts.len() == 2 && parts[1] == "off"@ {
            IdleView::SetVerbose(false)
        } else {
            IdleView::VerboseUsage
        }
    } else if text == "/exit"@ {
        IdleView::Exit
    } else if text == "/cancel"@ {
        IdleView::NothingRuns
    } else if text == "/context"@ {
        IdleView::Context
    } else if text == "/usage"@ {
        IdleView::Usage
    } else if has_prefix(text, "/mcp"@) {
        IdleView::Mcp(text)
    } else if has_prefix(text, "/trace"@) {
        IdleView::Trace(text)
    } else if text == "/session"@ {
        IdleView::Session
    } else if text == "/new-session"@ {
        IdleView::NewSession
    } else if text == "/reset"@ {
        IdleView::Reset
    } else if text.len() == 0 {
        IdleView::Nothing
    } else {
        IdleView::Ask(text)
    }
}

/// What a line asks for while no turn runs. A command that is not known is a
/// question.
pub fn idle_action(line: &str) -> (r: IdleAction)
    ensures
        r@ == idle_spec(line@),
{
    let parts = words(line);
    let n: usize = parts.len();
    assert(views(parts@).len() == n);
    assert(forall|i: int| 0 <= i < n ==> views(parts@)[i] == (#[trigger] parts@[i])@);
    if n > 0 {
        if same(&parts[0], "/permissions") && n == 1 {
            return IdleAction::Permissions;
        }
        if n == 3 && same(&parts[0], "/permission") {
            return IdleAction::Permission(parts[1].clone(), parts[2].clone());
        }
        if same(&parts[0], "/permissions") || same(&parts[0], "/permission") {
            return IdleAction::PermissionUsage;
        }
        if same(&parts[0], "/verbose") {
            if n == 1 {
                return IdleAction::ShowVerbose;
            }
            if n == 2 && same(&parts[1], "on") {
                return IdleAction::SetVerbose(true);
            }
            if n == 2 && same(&parts[1], "off") {
                return IdleAction::SetVerbose(false);
            }
            return IdleAction::VerboseUsage;
        }
    }
    let text = trim(line);
    if same(&text, "/exit") {
        IdleAction::Exit
    } else if same(&text, "/cancel") {
        IdleAction::NothingRuns
    } else if same(&text, "/context") {
        IdleAction::Context
    } else if same(&text, "/usage") {
        IdleAction::Usage
    } else if starts_with(&text, "/mcp") {
        IdleAction::Mcp(text)
    } else if starts_with(&text, "/trace") {
        IdleAction::Trace(text)
    } else if same(&text, "/session") {
        IdleAction::Session
    } else if same(&text, "/new-session") {
        IdleAction::NewSession
    } else if same(&text, "/reset") {
        IdleAction::Reset
    } else if text.as_str().unicode_len() == 0 {
        IdleAction::Nothing
    } else {
        IdleAction::Ask(text)
    }
}

/// What an input does while a turn runs.
#[derive(Clone, Debug, PartialEq)]
pub enum BusyAction {
    Nothing,
    /// Show this text.
    Say(String),
    /// Answer the request of that number.
    Reply(u64, bool),
    /// Show this text and cancel the turn.
    Cancel(String),
    /// Cancel the turn, which fails with this text.
    Fail(String),
    /// Nothing comes in any more: deny these requests and let the turn go on.
    Deny(Vec<u64>),
}

#[verifier::ext_equal]
pub enum BusyView {
    Nothing,
    Say(Seq<char>),
    Reply(u64, bool),
    Cancel(Seq<char>),
    Fail(Seq<char>),
    Deny(Seq<u64>),
}

impl View for BusyAction {
    type V = BusyView;

    open spec fn view(&self) -> BusyView {
        match self {
            BusyAction::Nothing => BusyView::Nothing,
            BusyAction::Say(t) => BusyView::Say(t@),
            BusyAction::Reply(id, allowed) => BusyView::Reply(*id, *allowed),
            BusyAction::Cancel(t) => BusyView::Cancel(t@),
            BusyAction::Fail(t) => BusyView::Fail(t@),
            BusyAction::Deny(ids) => BusyView::Deny(ids@),
        }
    }
}

/// The inputs that wait and the requests that are unanswered.
pub struct Console {
    pub queued: Vec<String>,
    pub approvals: ApprovalUi,
    pub input_open: bool,
}

#[verifier::ext_equal]
pub struct ConsoleView {
    pub queued: Seq<Seq<char>>,
    pub pending: Seq<u64>,
    pub open: bool,
}

impl View for Console {
    type V = ConsoleView;

    open spec fn view(&self) -> ConsoleView {
        ConsoleView {
            queued: views(self.queued@),
            pending: self.approvals.pending@,
            open: self.input_open,
        }
    }
}

impl ConsoleView {
    /// A line while a turn runs: an answer to a request, a cancellation, or an
    /// input that waits.
    pub open spec fn line(self, line: Seq<char>) -> (ConsoleView, BusyView) {
        if trim_spec(line) == "/cancel"@ {
            (self, BusyView::Cancel("[取消] 收到 /cancel，正在取消当前 Turn。"@))
        } else if trim_spec(line).len() == 0 {
            (self, BusyView::Nothing)
        } else {
            match answer_of(line, self.pending) {
                ResponseView::Say(t) => (self, BusyView::Say(t)),
                ResponseView::Reply(id, allowed) => (
                    ConsoleView { pending: without_id(self.pending, id), ..self },
                    BusyView::Reply(id, allowed),
                ),
                ResponseView::NotAnAnswer => (
                    ConsoleView { queued: self.queued.push(line), ..self },
                    BusyView::Say(
                        "[已排队] 当前有 "@ + dec((self.queued.len() + 1) as nat)
                            + " 条待处理输入，将按顺序执行。"@,
                    ),
                ),
            }
        }
    }

    /// What comes from the editor while a turn runs; `None` is the end of the
    /// input, which cancels nothing.
    pub open spec fn busy(self, event: Option<InputEvent>) -> (ConsoleView, BusyView) {
        match event {
            None => (
                ConsoleView { pending: Seq::empty(), open: false, ..self },
                BusyView::Deny(self.pending),
            ),
            Some(InputEvent::Cancel) => (
                self,
                BusyView::Cancel("[取消] 收到 Ctrl+C，正在取消当前 Turn。"@),
            ),
            Some(InputEvent::Error(e)) => (self, BusyView::Fail("输入错误: "@ + e@)),
            Some(InputEvent::Line(l)) => self.line(l@),
        }
    }
}

impl Console {
    /// Nothing waits.
    pub fn new() -> (r: Console)
        ensures
            r@ == (ConsoleView { queued: Seq::empty(), pending: Seq::empty(), open: true }),
    {
        let r = Console { queued: Vec::new(), approvals: ApprovalUi::new(), input_open: true };
        assert(views(r.queued@) =~= Seq::empty());
        r
    }

    /// Takes up the first input that waits.
    pub fn next_input(&mut self) -> (r: Option<String>)
        ensures
            match r {
                Some(t) => {
                    &&& old(self)@.queued.len() > 0
                    &&& t@ == old(self)@.queued[0]
                    &&& final(self)@ == (ConsoleView {
                        queued: old(self)@.queued.skip(1),
                        ..old(self)@
                    })
                },
                None => old(self)@.queued.len() == 0 && final(self)@ == old(self)@,
            },
    {
        if self.queued.len() == 0 {
            return None;
        }
        let text = self.queued.remove(0);
        assert(views(self.queued@) =~= old(self)@.queued.skip(1));
        Some(text)
    }

    /// A turn starts: the input is watched again.
    pub fn begin_turn(&mut self)
        ensures
            final(self)@ == (ConsoleView { open: true, ..old(self)@ }),
    {
        self.input_open = true;
    }

    /// Takes what comes from the editor while a turn runs; `None` is the end of
    /// the input.
    pub fn busy_event(&mut self, event: Option<InputEvent>) -> (r: BusyAction)
        ensures
            (final(self)@, r@) == old(self)@.busy(event),
    {
        match event {
            None => {
                self.input_open = false;
                BusyAction::Deny(self.approvals.clear())
            },
            Some(InputEvent::Cancel) => BusyAction::Cancel(
                "[取消] 收到 Ctrl+C，正在取消当前 Turn。".to_owned(),
            ),
            Some(InputEvent::Error(error)) => {
                let mut t = "输入错误: ".to_owned();
                t.append(error.as_str());
                BusyAction::Fail(t)
            },
            Some(InputEvent::Line(line)) => {
                let text = trim(&line);
                if same(&text, "/cancel") {
                    return BusyAction::Cancel(
                        "[取消] 收到 /cancel，正在取消当前 Turn。".to_owned(),
                    );
                }
                if text.as_str().unicode_len() == 0 {
                    return BusyAction::Nothing;
                }
                match self.approvals.respond(&line) {
                    Response::Say(t) => BusyAction::Say(t),
                    Response::Reply(id, allowed) => BusyAction::Reply(id, allowed),
                    Response::NotAnAnswer => {
                        proof {
                            lemma_views_push(self.queued@, line);
                        }
                        self.queued.push(line);
                        let n: usize = self.queued.len();
                        let mut t = "[已排队] 当前有 ".to_owned();
                        t.append(decimal_size(n).as_str());
                        t.append(" 条待处理输入，将按顺序执行。");
                        BusyAction::Say(t)
                    },
                }
            },
        }
    }
}

/// What is shown at the end of a turn: the answer, where it was not shown as it
/// arrived, or why there is none.
pub fn ending_text(answer: Result<String, String>, streamed: bool, cancelled: bool) -> (r: Option<
    String,
>)
    ensures
        match r {
            Some(t) => t@ == match answer {
                Ok(a) => "\nAsteria\n"@ + a@,
                Err(e) => if cancelled {
                    "=== Turn 已取消 ===\n当前问题没有完成，可以继续提问。"@
                } else {
                    "=== 执行失败 ===\n原因："@ + e@
                },
            } && !(answer is Ok && streamed),
            None => answer is Ok && streamed,
        },
{
    match answer {
        Ok(a) => {
            if streamed {
                return None;
            }
            let mut t = "\nAsteria\n".to_owned();
            t.append(a.as_str());
            Some(t)
        },
        Err(e) => {
            if cancelled {
                return Some("=== Turn 已取消 ===\n当前问题没有完成，可以继续提问。".to_owned());
            }
            let mut t = "=== 执行失败 ===\n原因：".to_owned();
            t.append(e.as_str());
            Some(t)
        },
    }
}

/// What is shown when the program has started.
pub fn banner(model: &str, rag: &str, mcp: &str) -> (r: String)
    ensures
        r@ == "Asteria · "@ + model@ + "\n"@ + rag@ + " · "@ + mcp@
            + "\n/usage /trace /mcp /permissions /verbose · Ctrl+C 取消 · /exit 退出"@,
{
    let mut t = "Asteria · ".to_owned();
    t.append(model);
    t.append("\n");
    t.append(rag);
    t.append(" · ");
    t.append(mcp);
    t.append("\n/usage /trace /mcp /permissions /verbose · Ctrl+C 取消 · /exit 退出");
    t
}

/// What is shown when an input that waited is taken up.
pub fn queue_notice(line: &str) -> (r: String)
    ensures
        r@ == "[开始处理排队输入] "@ + line@,
{
    let mut t = "[开始处理排队输入] ".to_owned();
    t.append(line);
    t
}

/// A cancellation leaves the inputs that wait.
pub proof fn law_cancellation_keeps_the_queue(c: ConsoleView)
    ensures
        c.busy(Some(InputEvent::Cancel)).0 == c,
        c.busy(None).0.queued == c.queued,
{
}

/// Lines that wait are kept in order and lose none: a line either answers a
/// request, cancels, says nothing, or is put behind those that wait.
pub proof fn law_lines_wait_in_order(c: ConsoleView, line: Seq<char>)
    ensures
        c.line(line).0.queued == c.queued || c.line(line).0.queued == c.queued.push(line),
        trim_spec(line) != "/cancel"@ && trim_spec(line).len() > 0 && answer_of(
            line,
            c.pending,
        ) is NotAnAnswer ==> c.line(line).0.queued == c.queued.push(line),
{
}

} // verus!
