//! What the user's commands mean, and what their answers show.
use vstd::prelude::*;
use crate::commands::{all_offered_lines, all_server_lines, context_lines, id_of, mcp_command_spec, message_line, server_lines, slash_spec, trace_entry, trace_report, trace_turn, usage_line, McpCommandView, SlashView};
use crate::console::{idle_spec, IdleView};
use crate::events::TraceView;
use crate::mcp::laws::is_word;
use crate::mcp::manager::StatusView;
use crate::message::MessageView;
use crate::provider::stream_laws::all_white;
use crate::provider::turn::TokenUsage;
use crate::seqs::{lemma_filter_all, lemma_filter_concat, lemma_filter_none};
use crate::text::chars::is_white;
use crate::text::laws::{law_decimal_form_has_the_value, law_one_piece_stays_whole, law_pieces_in_two, law_trimming_gives_the_text_back, lemma_decimal_holds_digits, lemma_join_first};
use crate::text::number::dec;
use crate::text::pieces::{pieces, trim_spec, words_spec, CharClass};
use crate::text::search::{has_prefix, join_spec};

verus! {

proof fn lemma_words_in_two(a: Seq<char>, c: char, b: Seq<char>)
    requires
        is_white(c),
    ensures
        words_spec(a + seq![c] + b) == words_spec(a) + words_spec(b),
{
    law_pieces_in_two(a, c, b, CharClass::White);
    lemma_filter_concat(
        pieces(a, CharClass::White),
        pieces(b, CharClass::White),
        |p: Seq<char>| p.len() > 0,
    );
}

proof fn lemma_one_word(w: Seq<char>)
    requires
        is_word(w),
    ensures
        words_spec(w) == seq![w],
{
    law_one_piece_stays_whole(w, CharClass::White);
    lemma_filter_all(seq![w], |p: Seq<char>| p.len() > 0);
}

proof fn lemma_no_word(a: Seq<char>)
    requires
        all_white(a),
    ensures
        words_spec(a) == Seq::<Seq<char>>::empty(),
    decreases a.len(),
{
    let none = Seq::<char>::empty();
    if a.len() == 0 {
        assert(pieces(a, CharClass::White) == seq![none]);
        lemma_filter_none(seq![none], |p: Seq<char>| p.len() > 0);
    } else {
        let front = a.drop_last();
        assert forall|i: int| 0 <= i < front.len() implies is_white(#[trigger] front[i]) by {
            assert(front[i] == a[i]);
        }
        assert(is_white(a[a.len() - 1]));
        lemma_no_word(front);
        lemma_no_word_of_nothing();
        lemma_words_in_two(front, a.last(), none);
        assert(front + seq![a.last()] + none =~= a);
        assert(Seq::<Seq<char>>::empty() + Seq::<Seq<char>>::empty() =~= Seq::<
            Seq<char>,
        >::empty());
    }
}

proof fn lemma_no_word_of_nothing()
    ensures
        words_spec(Seq::<char>::empty()) == Seq::<Seq<char>>::empty(),
{
    let none = Seq::<char>::empty();
    assert(pieces(none, CharClass::White) == seq![none]);
    lemma_filter_none(seq![none], |p: Seq<char>| p.len() > 0);
}

pub open spec fn all_words(words: Seq<Seq<char>>) -> bool {
    forall|i: int| 0 <= i < words.len() ==> is_word(#[trigger] words[i])
}

proof fn lemma_joined_words(words: Seq<Seq<char>>)
    requires
        all_words(words),
    ensures
        words_spec(join_spec(words, " "@)) == words,
        words.len() > 0 ==> join_spec(words, " "@).len() > 0 && join_spec(words, " "@)[0]
            == words[0][0] && join_spec(words, " "@).last() == words.last().last(),
    decreases words.len(),
{
    reveal_strlit(" ");
    if words.len() == 0 {
        lemma_no_word_of_nothing();
        assert(join_spec(words, " "@) =~= Seq::<char>::empty());
        assert(words =~= Seq::empty());
    } else if words.len() == 1 {
        assert(is_word(words[0]));
        lemma_one_word(words[0]);
        assert(seq![words[0]] =~= words);
    } else {
        let front = words.drop_last();
        assert forall|i: int| 0 <= i < front.len() implies is_word(#[trigger] front[i]) by {
            assert(is_word(words[i]));
        }
        lemma_joined_words(front);
        assert(is_word(words[words.len() - 1]));
        lemma_one_word(words.last());
        assert(" "@ =~= seq![' ']);
        lemma_words_in_two(join_spec(front, " "@), ' ', words.last());
        assert(front + seq![words.last()] =~= words);
        assert(front[0] == words[0]);
    }
}

/// The words of a line are those that white space separates in it.
pub proof fn law_words_of_a_line(a: Seq<char>, words: Seq<Seq<char>>, b: Seq<char>)
    requires
        all_white(a),
        all_words(words),
        all_white(b),
        words.len() > 0,
    ensures
        words_spec(a + join_spec(words, " "@) + b) == words,
        trim_spec(a + join_spec(words, " "@) + b) == join_spec(words, " "@),
{
    let text = join_spec(words, " "@);
    lemma_joined_words(words);
    let first = words[0];
    let last = words[words.len() - 1];
    assert(is_word(first) && is_word(last));
    assert(!is_white(first[0]));
    assert(!is_white(last[last.len() - 1]));
    law_trimming_gives_the_text_back(a, text, b, CharClass::White);
    let line = a + text + b;
    lemma_no_word(a);
    lemma_no_word(b);
    let none = Seq::<Seq<char>>::empty();
    assert(words_spec(a + text) == words) by {
        if a.len() > 0 {
            let front = a.drop_last();
            assert forall|i: int| 0 <= i < front.len() implies is_white(#[trigger] front[i]) by {
                assert(front[i] == a[i]);
            }
            lemma_no_word(front);
            assert(is_white(a[a.len() - 1]));
            lemma_words_in_two(front, a.last(), text);
            assert(front + seq![a.last()] + text =~= a + text);
            assert(none + words =~= words);
        } else {
            assert(a + text =~= text);
        }
    }
    if b.len() > 0 {
        let rest = b.skip(1);
        assert forall|i: int| 0 <= i < rest.len() implies is_white(#[trigger] rest[i]) by {
            assert(rest[i] == b[i + 1]);
        }
        lemma_no_word(rest);
        assert(is_white(b[0]));
        lemma_words_in_two(a + text, b[0], rest);
        assert(a + text + seq![b[0]] + rest =~= line);
        assert(words + none =~= words);
    } else {
        assert(line =~= a + text);
    }
}

proof fn lemma_slash_words()
    ensures
        "/exit"@.len() == 5,
        "/cancel"@.len() == 7,
        "/context"@.len() == 8,
        "/usage"@.len() == 6,
        "/session"@.len() == 8,
        "/new-session"@.len() == 12,
        "/reset"@.len() == 6,
        "/permissions"@.len() == 12,
        "/permission"@.len() == 11,
        "/mcp"@.len() == 4,
        "/trace"@.len() == 6,
        "/verbose"@.len() == 8,
        "/approve"@.len() == 8,
        "/deny"@.len() == 5,
        "/exit"@[1] == 'e',
        "/deny"@[1] == 'd',
        "/context"@[1] == 'c',
        "/session"@[1] == 's',
        "/verbose"@[1] == 'v',
        "/approve"@[1] == 'a',
        "/usage"@[1] == 'u',
        "/reset"@[1] == 'r',
        "/trace"@[1] == 't',
        "/new-session"@[1] == 'n',
        "/permissions"@[1] == 'p',
        "/exit"@[0] == '/',
        "/cancel"@[0] == '/',
        "/context"@[0] == '/',
        "/usage"@[0] == '/',
        "/session"@[0] == '/',
        "/new-session"@[0] == '/',
        "/reset"@[0] == '/',
        "/permissions"@[0] == '/',
        "/permission"@[0] == '/',
        "/mcp"@[0] == '/',
        "/trace"@[0] == '/',
        "/verbose"@[0] == '/',
        "/approve"@[0] == '/',
        "/deny"@[0] == '/',
        "/"@ == seq!['/'],
{
    reveal_strlit("/exit");
    reveal_strlit("/cancel");
    reveal_strlit("/context");
    reveal_strlit("/usage");
    reveal_strlit("/session");
    reveal_strlit("/new-session");
    reveal_strlit("/reset");
    reveal_strlit("/permissions");
    reveal_strlit("/permission");
    reveal_strlit("/mcp");
    reveal_strlit("/trace");
    reveal_strlit("/verbose");
    reveal_strlit("/approve");
    reveal_strlit("/deny");
    reveal_strlit("/");
    assert("/"@ =~= seq!['/']);
}

proof fn lemma_number_word(id: u64)
    ensures
        is_word(dec(id as nat)),
        id_of(dec(id as nat)) == Some(id),
{
    law_decimal_form_has_the_value(id as nat);
    let w = dec(id as nat);
    assert forall|i: int| 0 <= i < w.len() implies !is_white(#[trigger] w[i]) by {
        assert(CharClass::Digit.holds(w[i]));
    }
    lemma_decimal_holds_digits(id as nat, '+');
    assert(w[0] != '+');
}

/// A line means the command that its first word names, with the words behind it,
/// however much white space stands around.
pub proof fn law_lines_mean_their_commands(
    a: Seq<char>,
    words: Seq<Seq<char>>,
    b: Seq<char>,
    id: u64,
)
    requires
        all_white(a),
        all_words(words),
        all_white(b),
        words.len() > 0,
    ensures
        ({
            let meant = slash_spec(a + join_spec(words, " "@) + b);
            &&& words[0][0] != '/' ==> meant is None
            &&& words == seq!["/exit"@] ==> meant == Some(SlashView::Exit)
            &&& words == seq!["/cancel"@] ==> meant == Some(SlashView::Cancel)
            &&& words == seq!["/context"@] ==> meant == Some(SlashView::Context)
            &&& words == seq!["/usage"@] ==> meant == Some(SlashView::Usage)
            &&& words == seq!["/session"@] ==> meant == Some(SlashView::Session)
            &&& words == seq!["/new-session"@] ==> meant == Some(SlashView::NewSession)
            &&& words == seq!["/reset"@] ==> meant == Some(SlashView::Reset)
            &&& words == seq!["/permissions"@] ==> meant == Some(SlashView::Permissions)
            &&& words.len() == 3 && words[0] == "/permission"@ ==> meant == Some(
                SlashView::Permission(words[1], words[2]),
            )
            &&& words == seq!["/approve"@, dec(id as nat)] ==> meant == Some(SlashView::Approve(id))
            &&& words == seq!["/deny"@, dec(id as nat)] ==> meant == Some(SlashView::Deny(id))
            &&& words.len() != 2 && (words[0] == "/approve"@ || words[0] == "/deny"@) ==> meant
                == Some(SlashView::ApprovalUsage)
            &&& words[0] == "/mcp"@ ==> meant == Some(SlashView::Mcp(join_spec(words, " "@)))
            &&& words[0] == "/trace"@ ==> meant == Some(SlashView::Trace(join_spec(words, " "@)))
            &&& words[0] == "/verbose"@ ==> meant == Some(
                SlashView::Verbose(join_spec(words, " "@)),
            )
        }),
{
    law_words_of_a_line(a, words, b);
    lemma_joined_words(words);
    lemma_slash_words();
    lemma_number_word(id);
    let text = join_spec(words, " "@);
    assert(text.subrange(0, 1) =~= seq![text[0]]);
    if has_prefix(text, "/"@) {
        assert(text.subrange(0, 1)[0] == '/');
    }
    assert(is_word(words[0]));
    assert(words_spec(text) == words);
}

/// The commands about servers.
pub proof fn law_server_commands_name_their_server(
    a: Seq<char>,
    words: Seq<Seq<char>>,
    b: Seq<char>,
)
    requires
        all_white(a),
        all_words(words),
        all_white(b),
        words.len() > 0,
        words[0] == "/mcp"@,
    ensures
        ({
            let meant = mcp_command_spec(a + join_spec(words, " "@) + b);
            &&& words.len() == 1 ==> meant is Status
            &&& words.len() == 2 && words[1] == "reload"@ ==> meant is Reload
            &&& words.len() == 2 && words[1] == "tools"@ ==> meant is Tools
            &&& words.len() == 2 && words[1] == "trust"@ ==> meant is Trust
            &&& words.len() == 2 && words[1] == "untrust"@ ==> meant is Untrust
            &&& words.len() == 3 && words[1] == "connect"@ ==> meant == McpCommandView::Connect(
                words[2],
            )
            &&& words.len() == 3 && words[1] == "auth"@ ==> meant == McpCommandView::Auth(words[2])
            &&& words.len() == 3 && words[1] == "disconnect"@ ==> meant
                == McpCommandView::Disconnect(words[2])
            &&& words.len() == 3 && words[1] == "logout"@ ==> meant == McpCommandView::Logout(
                words[2],
            )
            &&& words.len() > 3 ==> meant is Usage
        }),
{
    law_words_of_a_line(a, words, b);
    reveal_strlit("status");
    reveal_strlit("tools");
    reveal_strlit("trust");
    reveal_strlit("untrust");
    reveal_strlit("reload");
    reveal_strlit("connect");
    reveal_strlit("auth");
    reveal_strlit("disconnect");
    reveal_strlit("logout");
    assert("status"@[0] == 's' && "reload"@[0] == 'r');
    assert("tools"@[1] == 'o' && "trust"@[1] == 'r');
    assert("connect"@.len() == 7 && "untrust"@.len() == 7 && "disconnect"@.len() == 10
        && "auth"@.len() == 4 && "logout"@.len() == 6 && "status"@.len() == 6 && "reload"@.len()
        == 6);
}

/// The tool calls of a turn are shown for the number that is given, and for the
/// latest turn where none is.
pub proof fn law_traces_are_asked_for_by_number(
    a: Seq<char>,
    b: Seq<char>,
    id: u64,
    last: Option<u64>,
)
    requires
        all_white(a),
        all_white(b),
    ensures
        trace_turn(a + join_spec(seq!["/trace"@, dec(id as nat)], " "@) + b, last) == Ok::<
            u64,
            Seq<char>,
        >(id),
        last matches Some(n) ==> trace_turn(a + "/trace"@ + b, last) == Ok::<u64, Seq<char>>(n),
        last is None ==> trace_turn(a + "/trace"@ + b, last) is Err,
{
    lemma_number_word(id);
    reveal_strlit("/trace");
    assert(is_word("/trace"@));
    let two = seq!["/trace"@, dec(id as nat)];
    assert(all_words(two));
    law_words_of_a_line(a, two, b);
    let one = seq!["/trace"@];
    assert(all_words(one));
    law_words_of_a_line(a, one, b);
    assert(join_spec(one, " "@) == "/trace"@);
}

/// While no turn runs, a line that is no command is a question, without the white
/// space around it, and an empty line is nothing.
pub proof fn law_other_lines_are_questions(a: Seq<char>, words: Seq<Seq<char>>, b: Seq<char>)
    requires
        all_white(a),
        all_words(words),
        all_white(b),
    ensures
        words.len() > 0 && words[0][0] != '/' ==> idle_spec(a + join_spec(words, " "@) + b)
            == IdleView::Ask(join_spec(words, " "@)),
        idle_spec(a) is Nothing,
{
    lemma_slash_words();
    reveal_strlit("/mcp");
    reveal_strlit("/trace");
    if words.len() > 0 {
        law_words_of_a_line(a, words, b);
        lemma_joined_words(words);
        let text = join_spec(words, " "@);
        if words[0][0] != '/' {
            if has_prefix(text, "/mcp"@) {
                assert(text.subrange(0, 4)[0] == '/');
            }
            if has_prefix(text, "/trace"@) {
                assert(text.subrange(0, 6)[0] == '/');
            }
        }
    }
    lemma_no_word(a);
    crate::text::laws::law_trimming_cuts_the_ends(a, CharClass::White);
    let t = trim_spec(a);
    let (i, j) = choose|i: int, j: int|
        0 <= i <= j <= a.len() && #[trigger] a.subrange(i, j) == t && (forall|k: int|
            0 <= k < i || j <= k < a.len() ==> CharClass::White.holds(#[trigger] a[k]));
    if t.len() > 0 {
        assert(t[0] == a[i]);
        assert(is_white(a[i]));
    }
    if has_prefix(t, "/mcp"@) || has_prefix(t, "/trace"@) {
        assert(t.len() > 0);
    }
}

/// A history is shown message by message, each behind its number, from one on.
pub proof fn law_messages_are_shown_with_their_numbers(
    prompt: Seq<char>,
    ms: Seq<MessageView>,
    i: int,
)
    requires
        0 <= i < ms.len(),
    ensures
        context_lines(prompt, ms).len() == ms.len() + 2,
        context_lines(prompt, ms)[i + 2] == dec((i + 1) as nat) + ": "@ + message_line(ms[i]),
{
}

/// A usage is shown with its three numbers.
pub proof fn law_usages_are_shown_with_their_numbers(u: TokenUsage)
    ensures
        ("输入 "@ + dec(u.prompt_tokens as nat) + " · 输出 "@ + dec(u.completion_tokens as nat)).is_prefix_of(
            usage_line(u),
        ),
        (" · 合计 "@ + dec(u.total_tokens as nat)).is_suffix_of(usage_line(u)),
{
    let head = "输入 "@ + dec(u.prompt_tokens as nat) + " · 输出 "@ + dec(u.completion_tokens as nat);
    let tail = " · 合计 "@ + dec(u.total_tokens as nat);
    let line = usage_line(u);
    assert(line =~= head + tail);
    assert(line.take(head.len() as int) =~= head);
    assert(line.skip(line.len() - tail.len()) =~= tail);
}

/// The tool calls of a turn are shown one after the other behind a heading, each
/// behind its number, from one on, with its step, its name and its outcome.
pub proof fn law_calls_are_shown_with_their_numbers(turn_id: u64, traces: Seq<TraceView>) -> (entries:
    Seq<Seq<char>>)
    requires
        traces.len() > 0,
    ensures
        entries.len() == traces.len(),
        trace_report(turn_id, traces) == "[ToolTrace] Turn "@ + dec(turn_id as nat) + " · "@ + dec(
            traces.len(),
        ) + " 次调用（审计记录不参与模型上下文）"@ + "\n"@ + join_spec(entries, "\n"@),
        forall|i: int|
            0 <= i < traces.len() ==> (dec((i + 1) as nat) + ". Step "@ + dec(traces[i].step as nat)
                + " · "@ + traces[i].tool_name).is_prefix_of(#[trigger] entries[i]),
{
    let entries = Seq::new(traces.len(), |i: int| trace_entry((i + 1) as nat, traces[i]));
    let head = "[ToolTrace] Turn "@ + dec(turn_id as nat) + " · "@ + dec(traces.len())
        + " 次调用（审计记录不参与模型上下文）"@;
    lemma_join_first(head, entries, "\n"@);
    assert forall|i: int| 0 <= i < traces.len() implies (dec((i + 1) as nat) + ". Step "@ + dec(
        traces[i].step as nat,
    ) + " · "@ + traces[i].tool_name).is_prefix_of(#[trigger] entries[i]) by {
        let t = traces[i];
        let open = dec((i + 1) as nat) + ". Step "@ + dec(t.step as nat) + " · "@ + t.tool_name;
        let e = entries[i];
        assert(e == trace_entry((i + 1) as nat, t));
        assert(e.take(open.len() as int) =~= open);
    }
    entries
}

/// The lines about servers are those about each of them, in order, and the tools
/// of all of them are counted.
pub proof fn law_servers_are_shown_in_order(a: Seq<StatusView>, b: Seq<StatusView>, s: StatusView)
    ensures
        all_server_lines(a + b) == all_server_lines(a) + all_server_lines(b),
        all_server_lines(seq![s]) == server_lines(s),
        all_offered_lines(a + b) == all_offered_lines(a) + all_offered_lines(b),
        all_offered_lines(seq![s]).len() == s.tools.len(),
        forall|i: int|
            0 <= i < s.tools.len() ==> #[trigger] all_offered_lines(seq![s])[i] == s.name + ": "@
                + s.tools[i],
        ("- "@ + s.name + ": "@ + s.state.word()).is_prefix_of(server_lines(s)[0]),
    decreases b.len(),
{
    let one = seq![s];
    assert(one.drop_last() =~= Seq::empty());
    assert(all_server_lines(Seq::<StatusView>::empty()) =~= Seq::empty());
    assert(all_offered_lines(Seq::<StatusView>::empty()) =~= Seq::empty());
    assert(all_server_lines(one) =~= server_lines(s));
    assert(all_offered_lines(one) =~= crate::commands::offered_lines(s));
    let open = "- "@ + s.name + ": "@ + s.state.word();
    let line = server_lines(s)[0];
    assert(line.take(open.len() as int) =~= open);
    if b.len() == 0 {
        assert(a + b =~= a);
        assert(b =~= Seq::empty());
        assert(all_server_lines(a) + all_server_lines(b) =~= all_server_lines(a));
        assert(all_offered_lines(a) + all_offered_lines(b) =~= all_offered_lines(a));
    } else {
        law_servers_are_shown_in_order(a, b.drop_last(), s);
        assert((a + b).drop_last() =~= a + b.drop_last());
        assert(all_server_lines(a + b) =~= all_server_lines(a) + all_server_lines(b));
        assert(all_offered_lines(a + b) =~= all_offered_lines(a) + all_offered_lines(b));
    }
}

} // verus!
