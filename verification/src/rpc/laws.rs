//! What a client is told, and what its commands bring about.
use vstd::prelude::*;
use crate::commands::{slash_spec, SlashView};
use crate::events::AgentEvent;
use crate::json::JsonView;
use crate::rpc::client::{ClientView, SinkView};
use crate::rpc::command::{command_spec, CommandView, NamesView};
use crate::rpc::host::{denials, ActionView, HostView};
use crate::text::pieces::trim_spec;
use crate::tui::render::shown_name;

verus! {

/// What is remembered behind events, and all that the client was told.
pub open spec fn told_of(s: SinkView, events: Seq<AgentEvent>) -> (SinkView, Seq<ClientView>)
    decreases events.len(),
{
    if events.len() == 0 {
        (s, Seq::empty())
    } else {
        let (before, told) = told_of(s, events.drop_last());
        let (after, more) = before.publish(events.last());
        (after, told + more)
    }
}

/// The text of the answer that the client was told.
pub open spec fn answer_told(told: Seq<ClientView>) -> Seq<char>
    decreases told.len(),
{
    if told.len() == 0 {
        Seq::empty()
    } else {
        answer_told(told.drop_last()) + match told.last() {
            ClientView::AssistantDelta(t) => t,
            _ => Seq::empty(),
        }
    }
}

/// The text of the answer in the events.
pub open spec fn answer_in(events: Seq<AgentEvent>) -> Seq<char>
    decreases events.len(),
{
    if events.len() == 0 {
        Seq::empty()
    } else {
        answer_in(events.drop_last()) + match events.last() {
            AgentEvent::AssistantDelta { delta, .. } => delta@,
            _ => Seq::empty(),
        }
    }
}

proof fn lemma_answer_told(a: Seq<ClientView>, b: Seq<ClientView>)
    ensures
        answer_told(a + b) == answer_told(a) + answer_told(b),
    decreases b.len(),
{
    if b.len() == 0 {
        assert(a + b =~= a);
        assert(answer_told(a) + answer_told(b) =~= answer_told(a));
    } else {
        assert((a + b).drop_last() =~= a + b.drop_last());
        lemma_answer_told(a, b.drop_last());
        let last = match b.last() {
            ClientView::AssistantDelta(t) => t,
            _ => Seq::empty(),
        };
        assert(answer_told(a) + answer_told(b.drop_last()) + last =~= answer_told(a) + (
        answer_told(b.drop_last()) + last));
    }
}

/// The client is told the whole answer, in order.
pub proof fn law_clients_are_told_the_answer(s: SinkView, events: Seq<AgentEvent>)
    ensures
        answer_told(told_of(s, events).1) == answer_in(events),
    decreases events.len(),
{
    if events.len() > 0 {
        let front = events.drop_last();
        law_clients_are_told_the_answer(s, front);
        let (before, told) = told_of(s, front);
        let (_, more) = before.publish(events.last());
        lemma_answer_told(told, more);
        let none = Seq::<ClientView>::empty();
        assert(answer_told(none) =~= Seq::empty());
        if more.len() == 1 {
            assert(more.drop_last() =~= none);
            if let ClientView::AssistantDelta(t) = more.last() {
                assert(answer_told(none) + t =~= t);
            }
        } else if more.len() == 2 {
            let one = more.drop_last();
            assert(one.drop_last() =~= none);
            assert(answer_told(one) =~= Seq::empty());
            if let ClientView::AssistantDelta(t) = more.last() {
                assert(answer_told(one) + t =~= t);
            }
        } else {
            assert(more =~= none);
        }
        if let AgentEvent::AssistantDelta { delta, .. } = events.last() {
            if delta@.len() == 0 {
                assert(delta@ =~= Seq::<char>::empty());
            }
        }
        assert(answer_told(more) =~= match events.last() {
            AgentEvent::AssistantDelta { delta, .. } => delta@,
            _ => Seq::empty(),
        });
    }
}

/// A part of an answer follows a beginning, and a tool, a retry or a new turn ends
/// what was begun.
pub proof fn law_answers_begin_before_their_text(s: SinkView, e: AgentEvent)
    ensures
        e is AssistantDelta && e->AssistantDelta_delta@.len() > 0 ==> s.publish(e).0.open && (
        !s.open ==> s.publish(e).1[0] == ClientView::AssistantBegin) && (s.open ==> s.publish(e).1
            == seq![ClientView::AssistantDelta(e->AssistantDelta_delta@)]),
        e is ToolCallStarted || e is StepRetrying || e is TurnStarted ==> !s.publish(e).0.open,
{
}

/// The end of a call is told under the name that the call began with, and whether
/// it succeeded.
pub proof fn law_results_are_told_under_their_tool(s: SinkView, start: AgentEvent, end: AgentEvent)
    requires
        start is ToolCallStarted,
        end is ToolResult,
        start->ToolCallStarted_call_id@ == end->ToolResult_call_id@,
    ensures
        s.publish(start).0.publish(end).1 == seq![
            ClientView::ToolResult(
                shown_name(start->ToolCallStarted_name@),
                !end->ToolResult_is_error,
                end->ToolResult_duration_ms,
            ),
        ],
{
}

/// The command is an answer to the request of that number, typed or sent.
pub open spec fn answers(c: CommandView, id: u64, allowed: bool) -> bool {
    match c {
        CommandView::Approve(n) => n == id && allowed,
        CommandView::Deny(n) => n == id && !allowed,
        CommandView::Ask(text) => slash_spec(trim_spec(text)) == Some(
            if allowed {
                SlashView::Approve(id)
            } else {
                SlashView::Deny(id)
            },
        ),
        _ => false,
    }
}

/// A request is approved only by the command that approves it, and only while it
/// is pending and waited for; that command passes the approval on, once.
pub proof fn law_only_approvals_approve(
    h: HostView,
    c: CommandView,
    waiting: Seq<u64>,
    id: u64,
)
    ensures
        h.command(c, waiting).1.contains(ActionView::Reply(id, true)) <==> answers(c, id, true)
            && h.pending.contains(id) && waiting.contains(id),
        answers(c, id, true) || answers(c, id, false) ==> !h.command(c, waiting).0.pending.contains(
            id,
        ),
{
    let acts = h.command(c, waiting).1;
    let wanted = ActionView::Reply(id, true);
    lemma_nothing_is_no_command();
    crate::tui::approval::law_requests_are_answered_once(h.pending, id);
    lemma_denials(h.pending, id);
    if answers(c, id, true) && h.pending.contains(id) && waiting.contains(id) {
        let (_, replies) = h.resolve(id, true, waiting);
        assert(replies[0] == wanted);
        if c is Ask && !h.running {
            assert(acts[1] == wanted);
        } else {
            assert(acts[0] == wanted);
        }
    }
    if acts.contains(wanted) {
        let i = choose|i: int| 0 <= i < acts.len() && acts[i] == wanted;
        let d = denials(h.pending);
        if c is NewSession && !h.running {
            if i < d.len() {
                assert(d[i] == wanted);
            }
        }
        if c is Ask && !h.running && slash_spec(trim_spec(c->Ask_0)) == Some(
            SlashView::NewSession,
        ) {
            if 0 < i && i - 1 < d.len() {
                assert(acts[i] == d[i - 1]);
            }
        }
    }
}

proof fn lemma_nothing_is_no_command()
    ensures
        forall|t: Seq<char>| t.len() == 0 ==> #[trigger] slash_spec(t) is None,
{
    reveal_strlit("/");
    assert forall|t: Seq<char>| t.len() == 0 implies #[trigger] slash_spec(t) is None by {
        crate::text::pieces::lemma_trim_len(t, crate::text::pieces::CharClass::White);
        assert(trim_spec(t).len() == 0);
    }
}

proof fn lemma_denials(ids: Seq<u64>, id: u64)
    ensures
        !denials(ids).contains(ActionView::Reply(id, true)),
        denials(ids).contains(ActionView::Reply(id, false)) <==> ids.contains(id),
{
    let d = denials(ids);
    if ids.contains(id) {
        let i = choose|i: int| 0 <= i < ids.len() && ids[i] == id;
        assert(d[i] == ActionView::Reply(id, false));
    }
    if d.contains(ActionView::Reply(id, false)) {
        let i = choose|i: int| 0 <= i < d.len() && d[i] == ActionView::Reply(id, false);
        assert(ids[i] == id);
    }
}

/// A new session denies all requests that are pending.
pub proof fn law_new_sessions_deny_what_is_pending(h: HostView, id: u64)
    ensures
        h.restart().0.pending.len() == 0,
        h.restart().0.queued.len() == 0,
        h.pending.contains(id) ==> h.restart().1.contains(ActionView::Reply(id, false)),
        h.restart().1.last() == ActionView::NewSession,
{
    lemma_denials(h.pending, id);
    let d = denials(h.pending);
    if h.pending.contains(id) {
        let i = choose|i: int| 0 <= i < d.len() && d[i] == ActionView::Reply(id, false);
        assert(h.restart().1[i] == ActionView::Reply(id, false));
    }
}

/// A message means the command that its method names, with its parameters.
pub proof fn law_messages_mean_their_method(v: JsonView, method: Seq<char>)
    requires
        v is Object,
        v.field("method"@) == Some(JsonView::Text(method)),
    ensures
        method == "ask"@ ==> (v.at("params"@).at("text"@) matches JsonView::Text(t) ==> command_spec(
            v,
        ) == Ok::<CommandView, Seq<char>>(CommandView::Ask(t))),
        method == "approve"@ ==> (v.at("params"@).at("approval_id"@) matches JsonView::Unsigned(id)
            ==> command_spec(v) == Ok::<CommandView, Seq<char>>(CommandView::Approve(id))),
        method == "deny"@ ==> (v.at("params"@).at("approval_id"@) matches JsonView::Unsigned(id)
            ==> command_spec(v) == Ok::<CommandView, Seq<char>>(CommandView::Deny(id))),
        method == "approve"@ || method == "deny"@ ==> !(v.at("params"@).at(
            "approval_id"@,
        ) is Unsigned) ==> command_spec(v) is Err,
        method == "cancel"@ ==> command_spec(v) == Ok::<CommandView, Seq<char>>(
            CommandView::Cancel,
        ),
        method == "status"@ ==> command_spec(v) == Ok::<CommandView, Seq<char>>(
            CommandView::Status,
        ),
        method == "new_session"@ ==> command_spec(v) == Ok::<CommandView, Seq<char>>(
            CommandView::NewSession,
        ),
{
    reveal_strlit("ask");
    reveal_strlit("approve");
    reveal_strlit("deny");
    reveal_strlit("cancel");
    reveal_strlit("status");
    reveal_strlit("new_session");
    assert("ask"@.len() == 3 && "approve"@.len() == 7 && "deny"@.len() == 4 && "cancel"@.len() == 6
        && "status"@.len() == 6 && "new_session"@.len() == 11);
    assert("cancel"@[0] == 'c' && "status"@[0] == 's');
}

/// A string in the text of a message counts as one, whatever brackets and commas
/// it holds: it is noted as a name exactly where a name of the outermost object
/// is due.
pub proof fn law_strings_count_as_one(n: NamesView, body: Seq<char>)
    requires
        !n.string,
        !n.escaped,
        !body.contains('"'),
        !body.contains('\\'),
    ensures
        ({
            let token = seq!['"'] + body + seq!['"'];
            let after = n.take_all(token);
            &&& after.depth == n.depth
            &&& !after.string
            &&& !after.escaped
            &&& n.depth == 1 && n.name_next ==> after.names == n.names.push(token)
                && !after.name_next
            &&& !(n.depth == 1 && n.name_next) ==> after.names == n.names && after.name_next
                == n.name_next
        }),
{
    let token = seq!['"'] + body + seq!['"'];
    assert(token.drop_last() =~= seq!['"'] + body);
    lemma_open_string(n, body);
    assert(seq!['"'] + body.push('"') =~= token);
    assert((seq!['"'] + body).push('"') =~= token);
}

proof fn lemma_open_string(n: NamesView, body: Seq<char>)
    requires
        !n.string,
        !n.escaped,
        !body.contains('"'),
        !body.contains('\\'),
    ensures
        n.take_all(seq!['"'] + body) == (NamesView {
            string: true,
            token: seq!['"'] + body,
            ..n
        }),
    decreases body.len(),
{
    let text = seq!['"'] + body;
    if body.len() == 0 {
        assert(text =~= seq!['"']);
        assert(text.drop_last() =~= Seq::empty());
        assert(n.take_all(Seq::empty()) == n);
    } else {
        let front = body.drop_last();
        assert(!front.contains('"') && !front.contains('\\')) by {
            if front.contains('"') {
                let i = choose|i: int| 0 <= i < front.len() && front[i] == '"';
                assert(body[i] == '"');
            }
            if front.contains('\\') {
                let i = choose|i: int| 0 <= i < front.len() && front[i] == '\\';
                assert(body[i] == '\\');
            }
        }
        lemma_open_string(n, front);
        assert(text.drop_last() =~= seq!['"'] + front);
        assert(body[body.len() - 1] == body.last());
        assert(body.contains(body.last()));
        assert((seq!['"'] + front).push(body.last()) =~= text);
    }
}

} // verus!
