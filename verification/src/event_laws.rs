//! What is kept of calls for the record, and what is hidden.
use vstd::prelude::*;
use crate::events::{hash_digits, is_sensitive, plain_key, preview_spec, redacted, secret_marks, shortened, trace_spec, ToolTraceStatus};
use crate::json::{json_parse, json_text, txt, JsonView};
use crate::message::CallView;
use crate::text::chars::{ascii_lower, is_ascii_upper, lower_char};
use crate::text::search::{has_any, has_text, occurs_at};

verus! {

/// Hiding secrets changes nothing else: objects keep their members' names and
/// order, arrays their items, and every value that is not under a sensitive name
/// stays as it is.
pub proof fn law_redaction_keeps_the_rest(v: JsonView)
    ensures
        match v {
            JsonView::Object(members) => redacted(v) matches JsonView::Object(out) && out.len()
                == members.len() && forall|i: int|
                0 <= i < members.len() ==> (#[trigger] out[i]).0 == members[i].0 && out[i].1 == if is_sensitive(
                    members[i].0,
                ) {
                    txt("[REDACTED]"@)
                } else {
                    redacted(members[i].1)
                },
            JsonView::Array(items) => redacted(v) matches JsonView::Array(out) && out.len()
                == items.len() && forall|i: int|
                0 <= i < items.len() ==> (#[trigger] out[i]) == redacted(items[i]),
            _ => redacted(v) == v,
        },
{
}

pub proof fn lemma_lower_twice(c: char)
    ensures
        lower_char(lower_char(c)) == lower_char(c),
{
    if is_ascii_upper(c) {
        let b = c as u8;
        assert(65 <= b <= 90);
        let d = (b + 0x20) as u8;
        assert(lower_char(c) == d as char);
        assert(97 <= d <= 122);
    }
}

/// Neither the case of its letters nor underscores and dashes make a name less
/// sensitive.
pub proof fn law_spelling_does_not_matter(a: Seq<char>, b: Seq<char>)
    ensures
        is_sensitive(ascii_lower(a)) == is_sensitive(a),
        is_sensitive(a + seq!['_'] + b) == is_sensitive(a + b),
        is_sensitive(a + seq!['-'] + b) == is_sensitive(a + b),
{
    let p = |c: char| c != '_' && c != '-';
    let (x, y) = (ascii_lower(a), ascii_lower(b));
    assert(ascii_lower(x) =~= x) by {
        assert forall|i: int| 0 <= i < x.len() implies lower_char(x[i]) == x[i] by {
            lemma_lower_twice(a[i]);
        }
    }
    assert(ascii_lower(a + b) =~= x + y);
    assert(ascii_lower(a + seq!['_'] + b) =~= x + seq!['_'] + y);
    assert(ascii_lower(a + seq!['-'] + b) =~= x + seq!['-'] + y);
    crate::seqs::lemma_filter_concat(x, y, p);
    crate::seqs::lemma_filter_concat(x + seq!['_'], y, p);
    crate::seqs::lemma_filter_concat(x, seq!['_'], p);
    crate::seqs::lemma_filter_concat(x + seq!['-'], y, p);
    crate::seqs::lemma_filter_concat(x, seq!['-'], p);
    crate::seqs::lemma_filter_none(seq!['_'], p);
    crate::seqs::lemma_filter_none(seq!['-'], p);
    assert(x.filter(p) + Seq::<char>::empty() =~= x.filter(p));
    assert(plain_key(a + seq!['_'] + b) == plain_key(a + b));
    assert(plain_key(a + seq!['-'] + b) == plain_key(a + b));
}

/// A name that holds the word for a credential is sensitive, whatever stands
/// around it.
pub proof fn law_words_for_credentials_are_sensitive(a: Seq<char>, k: int, b: Seq<char>)
    requires
        0 <= k < secret_marks().len(),
        forall|i: int|
            0 <= i < secret_marks()[k]@.len() ==> lower_char(#[trigger] secret_marks()[k]@[i])
                == secret_marks()[k]@[i] && secret_marks()[k]@[i] != '_' && secret_marks()[k]@[i]
                != '-',
    ensures
        is_sensitive(a + secret_marks()[k]@ + b),
{
    let mark = secret_marks()[k]@;
    let p = |c: char| c != '_' && c != '-';
    let (x, y) = (ascii_lower(a), ascii_lower(b));
    assert(ascii_lower(mark) =~= mark);
    assert(ascii_lower(a + mark + b) =~= x + mark + y);
    crate::seqs::lemma_filter_concat(x + mark, y, p);
    crate::seqs::lemma_filter_concat(x, mark, p);
    assert forall|i: int| 0 <= i < mark.len() implies p(#[trigger] mark[i]) by {}
    crate::seqs::lemma_filter_all(mark, p);
    let plain = plain_key(a + mark + b);
    let at = x.filter(p).len() as int;
    assert(plain == x.filter(p) + mark + y.filter(p));
    assert(plain.subrange(at, at + mark.len()) =~= mark);
    assert(occurs_at(plain, mark, at));
    assert(has_text(plain, secret_marks()[k]@));
    assert(has_any(plain, secret_marks()));
}

/// The words for credentials are these.
pub proof fn law_these_names_are_sensitive(a: Seq<char>, b: Seq<char>)
    ensures
        is_sensitive(a + "password"@ + b),
        is_sensitive(a + "secret"@ + b),
        is_sensitive(a + "token"@ + b),
        is_sensitive(a + "apikey"@ + b),
        is_sensitive(a + "authorization"@ + b),
        is_sensitive(a + "credential"@ + b),
        is_sensitive(a + "privatekey"@ + b),
        is_sensitive(a + "accesskey"@ + b),
        is_sensitive(a + "passwd"@ + b),
        is_sensitive("content"@),
        is_sensitive("key"@),
        !is_sensitive("path"@),
{
    reveal_strlit("password");
    reveal_strlit("passwd");
    reveal_strlit("secret");
    reveal_strlit("token");
    reveal_strlit("apikey");
    reveal_strlit("authorization");
    reveal_strlit("credential");
    reveal_strlit("privatekey");
    reveal_strlit("accesskey");
    reveal_strlit("content");
    reveal_strlit("key");
    reveal_strlit("path");
    reveal_strlit("oldstring");
    reveal_strlit("newstring");
    law_words_for_credentials_are_sensitive(a, 0, b);
    law_words_for_credentials_are_sensitive(a, 1, b);
    law_words_for_credentials_are_sensitive(a, 2, b);
    law_words_for_credentials_are_sensitive(a, 3, b);
    law_words_for_credentials_are_sensitive(a, 4, b);
    law_words_for_credentials_are_sensitive(a, 5, b);
    law_words_for_credentials_are_sensitive(a, 6, b);
    law_words_for_credentials_are_sensitive(a, 7, b);
    law_words_for_credentials_are_sensitive(a, 8, b);
    let p = |c: char| c != '_' && c != '-';
    assert(ascii_lower("content"@) =~= "content"@);
    assert(ascii_lower("key"@) =~= "key"@);
    assert(ascii_lower("path"@) =~= "path"@);
    crate::seqs::lemma_filter_all("content"@, p);
    crate::seqs::lemma_filter_all("key"@, p);
    crate::seqs::lemma_filter_all("path"@, p);
    assert(plain_key("path"@) == "path"@);
    assert forall|k: int| 0 <= k < secret_marks().len() implies !has_text(
        "path"@,
        (#[trigger] secret_marks()[k])@,
    ) by {
        assert(secret_marks()[k]@.len() > 4);
    }
}

/// A text is shortened only where it is too long; then it has exactly the most
/// characters that are allowed, begins as it did, and ends with an ellipsis.
pub proof fn law_shortening_marks_the_cut(text: Seq<char>, max: int)
    requires
        max >= 1,
    ensures
        shortened(text, max).len() <= max,
        text.len() <= max ==> shortened(text, max) == text,
        text.len() > max ==> shortened(text, max).len() == max && shortened(text, max).last() == '…'
            && shortened(text, max).drop_last().is_prefix_of(text),
{
}

pub proof fn lemma_lower_keeps(c: char)
    ensures
        c == '`' || c == '\n' || c == '\t' ==> lower_char(c) == c,
        lower_char(c) == '`' || lower_char(c) == '\n' || lower_char(c) == '\t' ==> lower_char(c) == c,
{
    if is_ascii_upper(c) {
        let b = c as u8;
        assert(65 <= b <= 90);
        let d = (b + 0x20) as u8;
        assert(lower_char(c) == d as char);
        assert(97 <= d <= 122);
    }
}

/// The record of a call holds the call's own identifier and name, whether it
/// failed, how long it took, and the hashes of its arguments and of its result.
pub proof fn law_records_hold_their_call(
    turn_id: u64,
    step: usize,
    call: CallView,
    result: Seq<char>,
    is_error: bool,
    duration_ms: u128,
    completed_at: Seq<char>,
)
    ensures
        ({
            let t = trace_spec(turn_id, step, call, result, is_error, duration_ms, completed_at);
            &&& t.turn_id == turn_id && t.step == step
            &&& t.call_id == call.id && t.tool_name == call.name
            &&& t.status == ToolTraceStatus::Error <==> is_error
            &&& duration_ms <= u64::MAX ==> t.duration_ms == duration_ms
            &&& duration_ms > u64::MAX ==> t.duration_ms == u64::MAX
            &&& t.arguments_hash == hash_digits(call.arguments)
            &&& t.result_hash == hash_digits(result)
            &&& t.completed_at == completed_at
        }),
{
}

/// A preview of arguments has at most two hundred and forty characters; a shorter
/// text of them is shown whole, with its secrets hidden.
pub proof fn law_previews_are_short_and_hide_secrets(v: JsonView, raw: Seq<char>)
    requires
        json_parse(raw) == Ok::<JsonView, Seq<char>>(v),
    ensures
        preview_spec(raw).len() <= 240,
        json_text(redacted(v)).len() <= 240 ==> preview_spec(raw) == json_text(redacted(v)),
        json_text(redacted(v)).len() > 240 ==> preview_spec(raw).drop_last().is_prefix_of(
            json_text(redacted(v)),
        ) && preview_spec(raw).len() == 240,
{
    law_shortening_marks_the_cut(json_text(redacted(v)), 240);
}

} // verus!
