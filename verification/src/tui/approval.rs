//! Asking the user to permit a tool call.
use vstd::prelude::*;
use crate::json::{json_parse, json_pretty, parse, pretty};
use crate::text::chars::{lemma_views_push, same, views};
use crate::text::number::{dec, decimal, number_spec, parse_number};
use crate::text::pieces::{lines, lines_spec, words, words_spec};
use crate::text::search::{join, join_spec};
use crate::tui::render::{display_tool_name, shown_name};

verus! {

/// The most lines of arguments that are shown.
pub const MAX_ARGUMENT_LINES: usize = 6;

/// The most characters of arguments that are shown.
pub const MAX_ARGUMENT_CHARS: usize = 800;

/// The first lines as far as the bounds allow, and whether one was left out.
pub open spec fn clipped(list: Seq<Seq<char>>) -> (Seq<char>, bool)
    decreases list.len(),
{
    if list.len() == 0 {
        (Seq::empty(), false)
    } else {
        let (text, cut) = clipped(list.drop_last());
        let line = list.last();
        if cut || list.len() > MAX_ARGUMENT_LINES || text.len() + line.len() > MAX_ARGUMENT_CHARS {
            (text, true)
        } else if text.len() > 0 {
            (text.push('\n') + line, false)
        } else {
            (text + line, false)
        }
    }
}

/// What is shown of arguments.
pub open spec fn arguments_text(formatted: Seq<char>) -> Seq<char> {
    let (text, cut) = clipped(lines_spec(formatted));
    if cut {
        text + "\n… 参数预览已截断"@
    } else if text.len() == 0 {
        "{}"@
    } else {
        text
    }
}

/// What is shown of arguments that were laid out.
pub fn clip_arguments(formatted: &str) -> (r: String)
    ensures
        r@ == arguments_text(formatted@),
{
    let list = lines(formatted);
    let ghost all = views(list@);
    let mut text = String::new();
    let mut cut = false;
    assert(all.take(0) =~= Seq::empty());
    assert(text@ =~= Seq::empty());
    for i in 0..list.len()
        invariant
            all == views(list@),
            (text@, cut) == clipped(all.take(i as int)),
            text@.len() <= MAX_ARGUMENT_CHARS + i,
    {
        assert(all.take(i + 1).drop_last() =~= all.take(i as int));
        assert(all.take(i + 1).last() == list@[i as int]@);
        let used: usize = text.as_str().unicode_len();
        let more: usize = list[i].as_str().unicode_len();
        if cut || i >= MAX_ARGUMENT_LINES || used > MAX_ARGUMENT_CHARS || more > MAX_ARGUMENT_CHARS
            - used {
            cut = true;
        } else {
            if used > 0 {
                text.push('\n');
            }
            text.append(list[i].as_str());
        }
    }
    assert(all.take(list@.len() as int) =~= all);
    if cut {
        text.append("\n… 参数预览已截断");
        return text;
    }
    if text.as_str().unicode_len() == 0 {
        return "{}".to_owned();
    }
    text
}

/// Arguments laid out where they are JSON, and as they are otherwise.
pub open spec fn laid_out(raw: Seq<char>) -> Seq<char> {
    match json_parse(raw) {
        Ok(v) => json_pretty(v),
        Err(_) => raw,
    }
}

/// Arguments laid out where they are JSON.
pub fn lay_out_arguments(raw: &str) -> (r: String)
    ensures
        r@ == laid_out(raw@),
{
    match parse(raw) {
        Ok(v) => pretty(&v),
        Err(_) => raw.to_owned(),
    }
}

/// What is shown of the text of a call's arguments.
pub fn format_arguments(raw: &str) -> (r: String)
    ensures
        r@ == arguments_text(laid_out(raw@)),
{
    clip_arguments(&lay_out_arguments(raw))
}

/// The request for a permission as it is shown.
pub open spec fn request_text(id: u64, tool: Seq<char>, arguments: Seq<char>) -> Seq<char> {
    let inner = lines_spec(arguments).map_values(|l: Seq<char>| "│   "@ + l);
    "╭─ 需要批准 #"@ + dec(id as nat) + "\n│ 工具："@ + shown_name(tool) + "\n│ 参数：\n"@
        + join_spec(inner, "\n"@) + "\n╰─ /approve "@ + dec(id as nat) + " 批准一次 · /deny "@
        + dec(id as nat) + " 拒绝 · /cancel 取消 Turn"@
}

/// The request for a permission as it is shown; the arguments are those that
/// are to be shown.
pub fn request_panel(id: u64, tool: &str, arguments: &str) -> (r: String)
    ensures
        r@ == request_text(id, tool@, arguments@),
{
    let list = lines(arguments);
    let ghost all = views(list@);
    let ghost f = |l: Seq<char>| "│   "@ + l;
    let mut inner: Vec<String> = Vec::new();
    for i in 0..list.len()
        invariant
            all == views(list@),
            f == (|l: Seq<char>| "│   "@ + l),
            views(inner@) =~= all.take(i as int).map_values(f),
    {
        let mut line = "│   ".to_owned();
        line.append(list[i].as_str());
        proof {
            lemma_views_push(inner@, line);
            assert(all.take(i + 1).map_values(f) =~= all.take(i as int).map_values(f).push(line@));
        }
        inner.push(line);
    }
    assert(all.take(list@.len() as int) =~= all);
    let number = decimal(id as u128);
    let mut t = "╭─ 需要批准 #".to_owned();
    t.append(number.as_str());
    t.append("\n│ 工具：");
    t.append(display_tool_name(tool).as_str());
    t.append("\n│ 参数：\n");
    t.append(join(&inner, "\n").as_str());
    t.append("\n╰─ /approve ");
    t.append(number.as_str());
    t.append(" 批准一次 · /deny ");
    t.append(number.as_str());
    t.append(" 拒绝 · /cancel 取消 Turn");
    t
}

pub open spec fn other_id(id: u64) -> spec_fn(u64) -> bool {
    |x: u64| x != id
}

/// The numbers without one.
pub open spec fn without_id(s: Seq<u64>, id: u64) -> Seq<u64> {
    s.filter(other_id(id))
}

/// The numbers without one.
pub fn drop_id(ids: &Vec<u64>, id: u64) -> (r: Vec<u64>)
    ensures
        r@ == without_id(ids@, id),
{
    let ghost p = other_id(id);
    let mut r: Vec<u64> = Vec::new();
    proof {
        crate::seqs::lemma_filter_empty(ids@, p);
    }
    for i in 0..ids.len()
        invariant
            p == other_id(id),
            r@ == ids@.take(i as int).filter(p),
    {
        proof {
            crate::seqs::lemma_filter_step(ids@, i as int, p);
        }
        if ids[i] != id {
            r.push(ids[i]);
        }
    }
    assert(ids@.take(ids@.len() as int) =~= ids@);
    r
}

/// Whether a number is among others.
pub fn has_id(ids: &Vec<u64>, id: u64) -> (r: bool)
    ensures
        r == ids@.contains(id),
{
    for i in 0..ids.len()
        invariant
            forall|j: int| 0 <= j < i ==> ids@[j] != id,
    {
        if ids[i] == id {
            return true;
        }
    }
    false
}

/// What to do about a request: what to show, and whether it is denied at once.
#[derive(Clone, Debug, PartialEq)]
pub struct Presentation {
    pub text: String,
    pub denied: bool,
}

/// What to do about a line of the user.
#[derive(Clone, Debug, PartialEq)]
pub enum Response {
    /// It is no answer to a request.
    NotAnAnswer,
    /// Show this text.
    Say(String),
    /// Answer the request of that number.
    Reply(u64, bool),
}

#[verifier::ext_equal]
pub enum ResponseView {
    NotAnAnswer,
    Say(Seq<char>),
    Reply(u64, bool),
}

impl View for Response {
    type V = ResponseView;

    open spec fn view(&self) -> ResponseView {
        match self {
            Response::NotAnAnswer => ResponseView::NotAnAnswer,
            Response::Say(t) => ResponseView::Say(t@),
            Response::Reply(id, allowed) => ResponseView::Reply(*id, *allowed),
        }
    }
}

/// What became of an answer.
#[derive(Clone, Copy, Debug, PartialEq, Eq, Structural)]
pub enum Delivery {
    /// It arrived.
    Delivered,
    /// Nobody waited for it any more.
    Closed,
    /// It could not be handed over.
    Lost,
}

/// What a line of the user answers. Only the exact command with the number of
/// a pending request counts.
pub open spec fn answer_of(line: Seq<char>, pending: Seq<u64>) -> ResponseView {
    let parts = words_spec(line);
    if parts.len() == 0 || (parts[0] != "/approve"@ && parts[0] != "/deny"@) {
        ResponseView::NotAnAnswer
    } else if parts.len() != 2 {
        ResponseView::Say("用法：/approve <编号> 或 /deny <编号>"@)
    } else {
        match number_spec(parts[1], u64::MAX as nat) {
            None => ResponseView::Say("审批编号必须是整数。"@),
            Some(n) => if pending.contains(n as u64) {
                ResponseView::Reply(n as u64, parts[0] == "/approve"@)
            } else {
                ResponseView::Say("没有该编号的有效审批，请使用当前显示的编号。"@)
            },
        }
    }
}

/// What is said of an answer.
pub open spec fn delivery_text(id: u64, allowed: bool, d: Delivery) -> Seq<char> {
    match d {
        Delivery::Delivered => (if allowed {
            "✓"@
        } else {
            "×"@
        }) + " 审批 #"@ + dec(id as nat) + " "@ + (if allowed {
            "已批准"@
        } else {
            "已拒绝"@
        }) + "（仅本次）"@,
        Delivery::Closed => "没有该编号的有效审批，请使用当前显示的编号。"@,
        Delivery::Lost => "审批已失效，工具不会因此启动。"@,
    }
}

/// What is said of an answer.
pub fn reply_text(id: u64, allowed: bool, delivery: Delivery) -> (r: String)
    ensures
        r@ == delivery_text(id, allowed, delivery),
{
    match delivery {
        Delivery::Delivered => {
            let mut t = if allowed {
                "✓".to_owned()
            } else {
                "×".to_owned()
            };
            t.append(" 审批 #");
            t.append(decimal(id as u128).as_str());
            t.append(" ");
            t.append(
                if allowed {
                    "已批准"
                } else {
                    "已拒绝"
                },
            );
            t.append("（仅本次）");
            t
        },
        Delivery::Closed => "没有该编号的有效审批，请使用当前显示的编号。".to_owned(),
        Delivery::Lost => "审批已失效，工具不会因此启动。".to_owned(),
    }
}

/// The requests that the user has not answered.
pub struct ApprovalUi {
    pub pending: Vec<u64>,
}

impl ApprovalUi {
    /// No requests.
    pub fn new() -> (r: ApprovalUi)
        ensures
            r.pending@ == Seq::<u64>::empty(),
    {
        ApprovalUi { pending: Vec::new() }
    }

    /// Shows a request. Where nobody can answer any more, it is denied.
    pub fn present(&mut self, id: u64, tool: &str, arguments: &str, input_open: bool) -> (r:
        Presentation)
        ensures
            if input_open {
                &&& !r.denied
                &&& r.text@ == request_text(id, tool@, arguments_text(laid_out(arguments@)))
                &&& final(self).pending@ == without_id(old(self).pending@, id).push(id)
            } else {
                &&& r.denied
                &&& r.text@ == "× 输入已关闭，工具请求已拒绝。"@
                &&& final(self).pending@ == old(self).pending@
            },
    {
        if !input_open {
            return Presentation {
                text: "× 输入已关闭，工具请求已拒绝。".to_owned(),
                denied: true,
            };
        }
        let text = request_panel(id, tool, &format_arguments(arguments));
        let mut pending = drop_id(&self.pending, id);
        pending.push(id);
        self.pending = pending;
        Presentation { text, denied: false }
    }

    /// Takes a line of the user. A request is answered once.
    pub fn respond(&mut self, line: &str) -> (r: Response)
        ensures
            r@ == answer_of(line@, old(self).pending@),
            final(self).pending@ == match r {
                Response::Reply(id, _) => without_id(old(self).pending@, id),
                _ => old(self).pending@,
            },
    {
        let parts = words(line);
        let n: usize = parts.len();
        assert(views(parts@).len() == n);
        assert(forall|i: int| 0 <= i < n ==> views(parts@)[i] == (#[trigger] parts@[i])@);
        if n == 0 {
            return Response::NotAnAnswer;
        }
        let allowed = same(&parts[0], "/approve");
        if !allowed && !same(&parts[0], "/deny") {
            return Response::NotAnAnswer;
        }
        if n != 2 {
            return Response::Say("用法：/approve <编号> 或 /deny <编号>".to_owned());
        }
        match parse_number(&parts[1], u64::MAX) {
            None => Response::Say("审批编号必须是整数。".to_owned()),
            Some(id) => {
                if has_id(&self.pending, id) {
                    self.pending = drop_id(&self.pending, id);
                    Response::Reply(id, allowed)
                } else {
                    Response::Say("没有该编号的有效审批，请使用当前显示的编号。".to_owned())
                }
            },
        }
    }

    /// Takes out all requests, which are denied.
    pub fn clear(&mut self) -> (r: Vec<u64>)
        ensures
            r@ == old(self).pending@,
            final(self).pending@ == Seq::<u64>::empty(),
    {
        let mut all: Vec<u64> = Vec::new();
        all.append(&mut self.pending);
        assert(all@ =~= old(self).pending@);
        all
    }
}

/// A request that was answered cannot be answered again.
pub proof fn law_requests_are_answered_once(pending: Seq<u64>, id: u64)
    ensures
        !without_id(pending, id).contains(id),
        forall|x: u64| x != id ==> (#[trigger] pending.contains(x) <==> without_id(
            pending,
            id,
        ).contains(x)),
{
    crate::seqs::lemma_filter_contains(pending, other_id(id), id);
    assert forall|x: u64| x != id implies (#[trigger] pending.contains(x) <==> without_id(
        pending,
        id,
    ).contains(x)) by {
        crate::seqs::lemma_filter_contains(pending, other_id(id), x);
    }
}

/// Nothing is approved in advance: a line answers only a request that is
/// pending.
pub proof fn law_nothing_is_approved_in_advance(line: Seq<char>, pending: Seq<u64>)
    ensures
        answer_of(line, pending) matches ResponseView::Reply(id, _) ==> pending.contains(id),
        pending.len() == 0 ==> !(answer_of(line, pending) is Reply),
{
}

} // verus!
