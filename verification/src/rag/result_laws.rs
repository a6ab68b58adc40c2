//! What the text for search results shows, and what is read back from it.
use vstd::prelude::*;
use crate::paths::{lemma_parts_order_equal, parts_spec, path_order, same_path_spec, Order};
use crate::rag::format::{collapsed, content_hash_spec, fitted, lay_out, layout_tokens, result_header, room_left, separator_tokens, ResultView};
use crate::rag::sources::{quoted, refs_of_lines, refs_of_outputs, with_index, with_ref, SourceRefView};
use crate::text::chars::is_white;
use crate::text::laws::{law_decimal_form_has_the_value, lemma_decimal_holds_digits};
use crate::text::number::dec;
use crate::text::pieces::lines_spec;
use crate::text::search::{find_from, lemma_find_from, occurs_at, split_spec};
use crate::tokens::{ascii_count, fitting_length, fitting_prefix, lemma_ascii_count, lemma_fitting_prefix, tokens};

verus! {

/// The estimate counts each character beyond ASCII as one token and three ASCII
/// characters as one, rounded up.
pub proof fn law_tokens_are_counted_by_script(s: Seq<char>)
    ensures
        ({
            let plain = s.filter(|c: char| (c as u32) < 128).len();
            let rest = s.len() - plain;
            &&& tokens(s) >= rest
            &&& plain <= 3 * (tokens(s) - rest) < plain + 3
        }),
    decreases s.len(),
{
    lemma_plain_count(s);
    lemma_ascii_count(s);
}

proof fn lemma_plain_count(s: Seq<char>)
    ensures
        ascii_count(s) == s.filter(|c: char| (c as u32) < 128).len(),
    decreases s.len(),
{
    reveal(Seq::filter);
    if s.len() > 0 {
        lemma_plain_count(s.drop_last());
    }
}

/// A text cut to a budget is the longest beginning of it that fits.
pub proof fn law_fitting_prefix_is_the_longest(s: Seq<char>, budget: int, n: int)
    requires
        0 <= budget,
    ensures
        fitting_prefix(s, budget).is_prefix_of(s),
        tokens(fitting_prefix(s, budget)) <= budget,
        fitting_prefix(s, budget).len() < n <= s.len() ==> tokens(s.take(n)) > budget,
{
    lemma_fitting_prefix(s, s.len() as int, budget);
    lemma_longer_does_not_fit(s, s.len() as int, budget, n);
}

proof fn lemma_longer_does_not_fit(s: Seq<char>, m: int, budget: int, n: int)
    requires
        0 <= m <= s.len(),
    ensures
        fitting_length(s, m, budget) < n <= m ==> tokens(s.take(n)) > budget,
    decreases m,
{
    if m > 0 && tokens(s.take(m)) > budget {
        lemma_longer_does_not_fit(s, m - 1, budget, n);
    }
}

/// What is put behind a text that was cut.
pub open spec fn cut_mark() -> Seq<char> {
    "\n[片段因 Token 预算截断]"@
}

/// The text itself, a beginning of it with the mark behind, or, where there is
/// no room for more, a beginning of the mark.
pub open spec fn is_shown_as(text: Seq<char>, shown: Seq<char>) -> bool {
    ||| shown == text
    ||| shown.is_prefix_of(cut_mark())
    ||| exists|n: int| 0 <= n <= text.len() && shown == #[trigger] text.take(n) + cut_mark()
}

proof fn lemma_first_fits(s: Seq<char>, n: int, budget: int)
    requires
        1 <= n <= s.len(),
        tokens(s.take(1)) <= budget,
    ensures
        fitting_length(s, n, budget) >= 1,
    decreases n,
{
    if n > 1 && tokens(s.take(n)) > budget {
        lemma_first_fits(s, n - 1, budget);
    }
}

/// A text that fits its budget is shown whole; one that does not is cut no more
/// than it has to be, and marked.
pub proof fn law_cut_texts_are_marked(text: Seq<char>, budget: int)
    ensures
        is_shown_as(text, fitted(text, budget)) || budget <= 0,
        budget > 0 && tokens(text) <= budget ==> fitted(text, budget) == text,
        budget > 0 && text.len() > 0 ==> fitted(text, budget).len() > 0,
        tokens(text) > budget && budget > tokens(cut_mark()) ==> exists|n: int|
            0 <= n < text.len() && fitted(text, budget) == #[trigger] text.take(n) + cut_mark()
                && tokens(text.take(n)) + tokens(cut_mark()) <= budget && tokens(text.take(n + 1))
                + tokens(cut_mark()) > budget,
{
    let mark = cut_mark();
    reveal_strlit("\n[片段因 Token 预算截断]");
    if budget > 0 && tokens(text) > budget {
        if budget <= tokens(mark) {
            lemma_fitting_prefix(mark, mark.len() as int, budget);
            assert(mark.take(1) =~= seq!['\n']);
            assert(mark.take(1).drop_last() =~= Seq::empty());
            assert(ascii_count(mark.take(1)) == 1) by {
                assert(ascii_count(Seq::<char>::empty()) == 0);
                assert(mark.take(1).last() == '\n');
            }
            lemma_first_fits(mark, mark.len() as int, budget);
        } else {
            let room = budget - tokens(mark);
            lemma_fitting_prefix(text, text.len() as int, room);
            let n = fitting_length(text, text.len() as int, room);
            assert(fitted(text, budget) == text.take(n) + mark);
            law_fitting_prefix_is_the_longest(text, room, n + 1);
            assert(text.take(text.len() as int) =~= text);
            assert(text.take(n).len() == n);
        }
    }
}

/// A section of the layout that shows a result under its number: its header line
/// and its text, which is cut only where the whole of it would not fit behind the
/// sections `before` it.
pub open spec fn shows_result(
    section: Seq<char>,
    n: nat,
    r: ResultView,
    before: Seq<Seq<char>>,
    budget: nat,
) -> bool {
    exists|shown: Seq<char>|
        section == #[trigger] (result_header(n, r) + "\n"@ + shown) && shown.len() > 0 && is_shown_as(
            r.chunk.text,
            shown,
        ) && (shown == r.chunk.text || layout_tokens(before) + separator_tokens(before) + tokens(
            result_header(n, r),
        ) + tokens("\n"@) + tokens(r.chunk.text) > budget)
}

/// The layout ends in front of the result: the budget is used up, it has no room
/// for more than a header, or the result has no text.
pub open spec fn ends_before(sections: Seq<Seq<char>>, r: ResultView, budget: nat) -> bool {
    ||| layout_tokens(sections) >= budget
    ||| layout_tokens(sections) + separator_tokens(sections) + tokens(
        result_header(sections.len() + 1, r),
    ) + tokens("\n"@) >= budget
    ||| r.chunk.text.len() == 0
}

/// A result whose content an earlier one among those shown has.
pub open spec fn is_repeat(results: Seq<ResultView>, ks: Seq<int>, k: int) -> bool {
    exists|j: int|
        0 <= j < ks.len() && (#[trigger] ks[j]) < k && content_hash_spec(results[ks[j]].chunk.text)
            == content_hash_spec(results[k].chunk.text)
}

pub open spec fn ks_ascend(ks: Seq<int>, len: int) -> bool {
    &&& forall|i: int| 0 <= i < ks.len() ==> 0 <= #[trigger] ks[i] < len
    &&& forall|i: int, j: int| 0 <= i < j < ks.len() ==> (#[trigger] ks[i]) < (#[trigger] ks[j])
}

spec fn laid_out(
    results: Seq<ResultView>,
    seen: Seq<u64>,
    sections: Seq<Seq<char>>,
    all: Seq<Seq<char>>,
    budget: nat,
    ks: Seq<int>,
) -> bool {
    let n = sections.len() as int;
    &&& all.len() == n + ks.len()
    &&& all.take(n) == sections
    &&& ks_ascend(ks, results.len() as int)
    &&& forall|i: int|
        0 <= i < ks.len() ==> shows_result(
            all[n + i],
            (n + i + 1) as nat,
            results[#[trigger] ks[i]],
            all.take(n + i),
            budget,
        )
    &&& forall|k: int|
        0 <= k < results.len() && !ks.contains(k) ==> seen.contains(
            content_hash_spec((#[trigger] results[k]).chunk.text),
        ) || is_repeat(results, ks, k) || exists|s: int|
            0 <= s <= k && ends_before(all, #[trigger] results[s], budget)
}

proof fn lemma_laid_out(
    results: Seq<ResultView>,
    seen: Seq<u64>,
    sections: Seq<Seq<char>>,
    used: nat,
    budget: nat,
) -> (ks: Seq<int>)
    requires
        used == layout_tokens(sections),
    ensures
        laid_out(
            results,
            seen,
            sections,
            lay_out(results, seen, sections, used, budget),
            budget,
            ks,
        ),
    decreases results.len(),
{
    let all = lay_out(results, seen, sections, used, budget);
    let n = sections.len() as int;
    if results.len() == 0 {
        assert(all.take(n) =~= sections);
        Seq::empty()
    } else {
        let r = results[0];
        let rest = results.skip(1);
        let hash = content_hash_spec(r.chunk.text);
        let header = result_header((n + 1) as nat, r);
        let room = room_left(sections, used, budget, header);
        let text = fitted(r.chunk.text, room);
        let section = header + "\n"@ + text;
        let more = sections.push(section);
        let total = used + separator_tokens(sections) + tokens(section);
        law_cut_texts_are_marked(r.chunk.text, room);
        if seen.contains(hash) {
            let later = lemma_laid_out(rest, seen, sections, used, budget);
            let ks = later.map_values(|k: int| k + 1);
            assert forall|i: int| 0 <= i < ks.len() implies shows_result(
                all[n + i],
                (n + i + 1) as nat,
                results[#[trigger] ks[i]],
                all.take(n + i),
                budget,
            ) by {
                assert(rest[later[i]] == results[ks[i]]);
            }
            assert forall|k: int| 0 <= k < results.len() && !ks.contains(k) implies seen.contains(
                content_hash_spec((#[trigger] results[k]).chunk.text),
            ) || is_repeat(results, ks, k) || exists|s: int|
                0 <= s <= k && ends_before(all, #[trigger] results[s], budget) by {
                if k > 0 {
                    lemma_shifted(results, later, ks, k, 0);
                    assert(rest[k - 1] == results[k]);
                    if exists|s: int| 0 <= s <= k - 1 && ends_before(all, #[trigger] rest[s], budget) {
                        let s = choose|s: int|
                            0 <= s <= k - 1 && ends_before(all, #[trigger] rest[s], budget);
                        assert(results[s + 1] == rest[s]);
                    }
                }
            }
            assert forall|i: int, j: int| 0 <= i < j < ks.len() implies (#[trigger] ks[i]) < (
            #[trigger] ks[j]) by {
                assert(later[i] < later[j]);
            }
            assert forall|i: int| 0 <= i < ks.len() implies 0 <= #[trigger] ks[i]
                < results.len() by {
                assert(0 <= later[i] < rest.len());
            }
            ks
        } else if text.len() == 0 {
            let ks = Seq::<int>::empty();
            assert(all.take(n) =~= sections);
            assert(ends_before(all, results[0], budget));
            ks
        } else if total >= budget {
            let ks = seq![0int];
            assert(all == more);
            assert(all.take(n) =~= sections);
            assert(more.drop_last() =~= sections);
            assert(layout_tokens(all) == total);
            assert(section == result_header((n + 1) as nat, r) + "\n"@ + text);
            assert(shows_result(section, (n + 1) as nat, r, sections, budget));
            assert forall|k: int| 0 <= k < results.len() && !ks.contains(k) implies exists|s: int|
                0 <= s <= k && ends_before(all, #[trigger] results[s], budget) by {
                assert(ends_before(all, results[k], budget));
            }
            ks
        } else {
            assert(more.drop_last() =~= sections);
            assert(layout_tokens(more) == total);
            let later = lemma_laid_out(rest, seen.push(hash), more, total, budget);
            let ks = seq![0int] + later.map_values(|k: int| k + 1);
            assert(all.take(n) =~= sections) by {
                assert(all.take(n + 1).take(n) =~= all.take(n));
                assert(more.take(n) =~= sections);
            }
            assert(all[n] == section) by {
                assert(all.take(n + 1)[n] == more[n]);
            }
            assert(section == result_header((n + 1) as nat, r) + "\n"@ + text);
            assert(shows_result(section, (n + 1) as nat, r, sections, budget));
            assert forall|i: int| 0 <= i < ks.len() implies shows_result(
                all[n + i],
                (n + i + 1) as nat,
                results[#[trigger] ks[i]],
                all.take(n + i),
                budget,
            ) by {
                if i > 0 {
                    assert(ks[i] == later[i - 1] + 1);
                    assert(rest[later[i - 1]] == results[ks[i]]);
                    let m = n + 1;
                    assert(m + (i - 1) == n + i);
                }
            }
            assert forall|i: int, j: int| 0 <= i < j < ks.len() implies (#[trigger] ks[i]) < (
            #[trigger] ks[j]) by {
                assert(ks[j] == later[j - 1] + 1);
                assert(0 <= later[j - 1]);
                if i > 0 {
                    assert(ks[i] == later[i - 1] + 1);
                    assert(later[i - 1] < later[j - 1]);
                }
            }
            assert forall|i: int| 0 <= i < ks.len() implies 0 <= #[trigger] ks[i]
                < results.len() by {
                if i > 0 {
                    assert(0 <= later[i - 1] < rest.len());
                }
            }
            assert forall|k: int| 0 <= k < results.len() && !ks.contains(k) implies seen.contains(
                content_hash_spec((#[trigger] results[k]).chunk.text),
            ) || is_repeat(results, ks, k) || exists|s: int|
                0 <= s <= k && ends_before(all, #[trigger] results[s], budget) by {
                assert(ks[0] == 0);
                assert(k > 0);
                lemma_shifted(results, later, ks, k, 1);
                assert(rest[k - 1] == results[k]);
                let h = content_hash_spec(results[k].chunk.text);
                if seen.push(hash).contains(h) {
                    let j = choose|j: int|
                        0 <= j < seen.push(hash).len() && seen.push(hash)[j] == h;
                    if j < seen.len() {
                        assert(seen[j] == h);
                    } else {
                        assert(ks[0] < k);
                        assert(is_repeat(results, ks, k));
                    }
                }
                if exists|s: int| 0 <= s <= k - 1 && ends_before(all, #[trigger] rest[s], budget) {
                    let s = choose|s: int|
                        0 <= s <= k - 1 && ends_before(all, #[trigger] rest[s], budget);
                    assert(results[s + 1] == rest[s]);
                }
            }
            ks
        }
    }
}

/// What holds of the later results holds of them behind the first.
proof fn lemma_shifted(results: Seq<ResultView>, later: Seq<int>, ks: Seq<int>, k: int, by: int)
    requires
        0 < k < results.len(),
        0 <= by,
        ks.len() == later.len() + by,
        ks_ascend(later, results.len() - 1),
        forall|i: int| 0 <= i < later.len() ==> ks[by + i] == (#[trigger] later[i]) + 1,
    ensures
        later.contains(k - 1) ==> ks.contains(k),
        is_repeat(results.skip(1), later, k - 1) ==> is_repeat(results, ks, k),
{
    let rest = results.skip(1);
    if later.contains(k - 1) {
        let i = choose|i: int| 0 <= i < later.len() && later[i] == k - 1;
        assert(ks[by + i] == k);
    }
    if is_repeat(rest, later, k - 1) {
        let j = choose|j: int|
            0 <= j < later.len() && (#[trigger] later[j]) < k - 1 && content_hash_spec(
                rest[later[j]].chunk.text,
            ) == content_hash_spec(rest[k - 1].chunk.text);
        assert(ks[by + j] == later[j] + 1);
        assert(results[ks[by + j]] == rest[later[j]]);
        assert(results[k] == rest[k - 1]);
    }
}

/// The text for search results shows them in their order under numbers from one
/// on, each with its source, its chunk number and its score. A result is left out
/// only where one that is shown has the same content, or behind the point where
/// the budget is used up; and a text is cut only where it would not fit.
pub proof fn law_results_are_shown_in_order(results: Seq<ResultView>, budget: nat) -> (ks: Seq<int>)
    ensures
        ({
            let all = lay_out(results, Seq::empty(), Seq::empty(), 0, budget);
            &&& all.len() == ks.len()
            &&& ks_ascend(ks, results.len() as int)
            &&& forall|i: int|
                0 <= i < ks.len() ==> shows_result(
                    all[i],
                    (i + 1) as nat,
                    results[#[trigger] ks[i]],
                    all.take(i),
                    budget,
                )
            &&& forall|k: int|
                0 <= k < results.len() && !ks.contains(k) ==> is_repeat(results, ks, k) || exists|
                    s: int,
                |
                    0 <= s <= k && ends_before(all, #[trigger] results[s], budget)
        }),
{
    let none = Seq::<Seq<char>>::empty();
    let all = lay_out(results, Seq::empty(), none, 0, budget);
    let ks = lemma_laid_out(results, Seq::empty(), none, 0, budget);
    assert forall|i: int| 0 <= i < ks.len() implies shows_result(
        all[i],
        (i + 1) as nat,
        results[#[trigger] ks[i]],
        all.take(i),
        budget,
    ) by {
        assert(none.len() + i == i);
    }
    assert forall|k: int| 0 <= k < results.len() && !ks.contains(k) implies is_repeat(
        results,
        ks,
        k,
    ) || exists|s: int| 0 <= s <= k && ends_before(all, #[trigger] results[s], budget) by {
        assert(!Seq::<u64>::empty().contains(content_hash_spec(results[k].chunk.text)));
    }
    ks
}

/// Runs of white space do not matter for the content of a result: the text with
/// each of them as one space has neither two neighbouring spaces of its own nor
/// any other white space, and keeps all else.
pub proof fn law_collapsing_keeps_the_words(s: Seq<char>)
    ensures
        collapsed(s).filter(|c: char| !is_white(c)) == s.filter(|c: char| !is_white(c)),
        forall|i: int|
            0 <= i < collapsed(s).len() ==> !is_white(#[trigger] collapsed(s)[i]) || collapsed(s)[i]
                == ' ',
        forall|i: int|
            0 < i < collapsed(s).len() ==> !is_white(#[trigger] collapsed(s)[i]) || !is_white(
                collapsed(s)[i - 1],
            ),
        s.len() > 0 ==> collapsed(s).len() > 0 && (is_white(collapsed(s).last()) <==> is_white(
            s.last(),
        )),
    decreases s.len(),
{
    reveal(Seq::filter);
    let p = |c: char| !is_white(c);
    if s.len() > 0 {
        let front = s.drop_last();
        let before = collapsed(front);
        law_collapsing_keeps_the_words(front);
        let r = collapsed(s);
        if front.len() > 0 {
            assert(front.last() == s[s.len() - 2]);
        }
        if !is_white(s.last()) {
            assert(r.drop_last() =~= before);
        } else if !(s.len() > 1 && is_white(s[s.len() - 2])) {
            assert(r.drop_last() =~= before);
            assert(r.last() == ' ');
            if before.len() > 0 {
                assert(before[before.len() - 1] == before.last());
            }
        }
    }
}

proof fn lemma_field_then(p: Seq<char>, rest: Seq<char>, sep: Seq<char>)
    requires
        sep.len() > 0,
        forall|j: int| 0 <= j < p.len() ==> !occurs_at(p + sep, sep, j),
    ensures
        split_spec(p + sep + rest, sep) == seq![p] + split_spec(rest, sep),
{
    let s = p + sep + rest;
    let n = p.len() as int;
    lemma_find_from(s, sep, 0);
    assert(s.subrange(n, n + sep.len()) =~= sep);
    assert(occurs_at(s, sep, n));
    let i = find_from(s, sep, 0)->0;
    if i < n {
        assert(s.subrange(i, i + sep.len()) =~= (p + sep).subrange(i, i + sep.len()));
        assert(occurs_at(p + sep, sep, i));
    }
    assert(s.take(n) =~= p);
    assert(s.skip(n + sep.len()) =~= rest);
}

proof fn lemma_no_bar(p: Seq<char>)
    requires
        !p.contains('|'),
    ensures
        forall|j: int| 0 <= j < p.len() ==> !occurs_at(p + " | "@, " | "@, j),
        split_spec(p, " | "@) == seq![p],
{
    reveal_strlit(" | ");
    let sep = " | "@;
    let s = p + sep;
    assert forall|j: int| 0 <= j < p.len() implies !occurs_at(s, sep, j) by {
        if occurs_at(s, sep, j) {
            assert(s.subrange(j, j + 3)[1] == '|');
            if j + 1 < p.len() {
                assert(p[j + 1] == '|');
            } else {
                assert(s[j + 1] == ' ');
            }
        }
    }
    lemma_find_from(p, sep, 0);
    if find_from(p, sep, 0) is Some {
        let j = find_from(p, sep, 0)->0;
        assert(p.subrange(j, j + 3)[1] == '|');
        assert(p[j + 1] == '|');
    }
}

/// The source and the chunk number of a result can be read back from the line
/// above it, as long as the source does not itself hold the separator.
pub proof fn law_headers_are_read_back(n: nat, r: ResultView)
    requires
        forall|j: int|
            0 <= j < r.chunk.source.len() ==> !occurs_at(
                r.chunk.source + " | "@,
                " | "@,
                j,
            ),
    ensures
        quoted(result_header(n, r)) == Some((r.chunk.source, r.chunk.index)),
{
    reveal_strlit("[资料 ");
    reveal_strlit(" | ");
    reveal_strlit(" | 片段 ");
    reveal_strlit("片段 ");
    reveal_strlit(" | score=");
    reveal_strlit("score=");
    reveal_strlit("]");
    let sep = " | "@;
    let a = dec(n);
    let digits = dec(r.chunk.index as nat);
    let b = "片段 "@ + digits;
    let c = "score="@ + dec(r.score as nat);
    let last = c;
    let third = b + sep + last;
    let second = r.chunk.source + sep + third;
    let inner = a + sep + second;
    let line = result_header(n, r);
    assert(" | 片段 "@ =~= sep + "片段 "@);
    assert(" | score="@ =~= sep + "score="@);
    assert(line =~= "[资料 "@ + inner + "]"@);
    let tail = inner + "]"@;
    assert(line.subrange(0, 4) =~= "[资料 "@);
    assert(line.skip(4) =~= tail);
    assert(tail.subrange(tail.len() - 1, tail.len() as int) =~= "]"@);
    assert(tail.take(tail.len() - 1) =~= inner);
    lemma_decimal_holds_digits(n, '|');
    lemma_decimal_holds_digits(r.chunk.index as nat, '|');
    lemma_decimal_holds_digits(r.score as nat, '|');
    assert(!b.contains('|')) by {
        if b.contains('|') {
            let j = choose|j: int| 0 <= j < b.len() && b[j] == '|';
            if j >= 3 {
                assert(digits[j - 3] == '|');
            }
        }
    }
    assert(!c.contains('|')) by {
        if c.contains('|') {
            let j = choose|j: int| 0 <= j < c.len() && c[j] == '|';
            if j >= 6 {
                assert(dec(r.score as nat)[j - 6] == '|');
            }
        }
    }
    lemma_no_bar(a);
    lemma_no_bar(b);
    lemma_no_bar(c);
    lemma_field_then(a, second, sep);
    lemma_field_then(r.chunk.source, third, sep);
    lemma_field_then(b, last, sep);
    let fields = split_spec(inner, sep);
    assert(fields =~= seq![a, r.chunk.source, b, c]);
    assert(b.subrange(0, 3) =~= "片段 "@);
    assert(b.skip(3) =~= digits);
    law_decimal_form_has_the_value(r.chunk.index as nat);
    assert(digits[0] != '+') by {
        lemma_decimal_holds_digits(r.chunk.index as nat, '+');
    }
}

/// Some reference has that source, whatever the form of its path, and that
/// number.
pub open spec fn names(refs: Seq<SourceRefView>, source: Seq<char>, n: usize) -> bool {
    exists|i: int|
        0 <= i < refs.len() && same_path_spec((#[trigger] refs[i]).source, source)
            && refs[i].chunk_indices.contains(n)
}

proof fn lemma_index_added(v: Seq<usize>, n: usize, m: usize)
    ensures
        with_index(v, n).contains(m) <==> v.contains(m) || m == n,
    decreases v.len(),
{
    let r = with_index(v, n);
    if v.len() == 0 {
        assert(r[0] == n);
    } else if v[0] == n {
    } else if n < v[0] {
        assert(r[0] == n);
        if v.contains(m) {
            let j = choose|j: int| 0 <= j < v.len() && v[j] == m;
            assert(r[j + 1] == m);
        }
        if r.contains(m) && m != n {
            let j = choose|j: int| 0 <= j < r.len() && r[j] == m;
            assert(v[j - 1] == m);
        }
    } else {
        let rest = v.skip(1);
        let w = with_index(rest, n);
        lemma_index_added(rest, n, m);
        if v.contains(m) {
            let j = choose|j: int| 0 <= j < v.len() && v[j] == m;
            if j == 0 {
                assert(r[0] == m);
            } else {
                assert(rest[j - 1] == m);
                assert(rest.contains(m));
            }
        }
        if w.contains(m) {
            let j = choose|j: int| 0 <= j < w.len() && w[j] == m;
            assert(r[j + 1] == m);
        }
        if r.contains(m) {
            let j = choose|j: int| 0 <= j < r.len() && r[j] == m;
            if j == 0 {
                assert(v[0] == m);
            } else {
                assert(w[j - 1] == m);
                assert(w.contains(m));
                if rest.contains(m) {
                    let k = choose|k: int| 0 <= k < rest.len() && rest[k] == m;
                    assert(v[k + 1] == m);
                }
            }
        }
    }
}

proof fn lemma_names_step(refs: Seq<SourceRefView>, source: Seq<char>, n: usize)
    requires
        refs.len() > 0,
    ensures
        names(refs, source, n) <==> (same_path_spec(refs[0].source, source)
            && refs[0].chunk_indices.contains(n)) || names(refs.skip(1), source, n),
{
    let rest = refs.skip(1);
    if names(refs, source, n) {
        let i = choose|i: int|
            0 <= i < refs.len() && same_path_spec((#[trigger] refs[i]).source, source)
                && refs[i].chunk_indices.contains(n);
        if i > 0 {
            assert(rest[i - 1] == refs[i]);
        }
    }
    if names(rest, source, n) {
        let i = choose|i: int|
            0 <= i < rest.len() && same_path_spec((#[trigger] rest[i]).source, source)
                && rest[i].chunk_indices.contains(n);
        assert(refs[i + 1] == rest[i]);
    }
}

proof fn lemma_ref_added(
    refs: Seq<SourceRefView>,
    source: Seq<char>,
    n: usize,
    other: Seq<char>,
    m: usize,
)
    ensures
        names(with_ref(refs, source, n), other, m) <==> names(refs, other, m) || (same_path_spec(
            source,
            other,
        ) && m == n),
    decreases refs.len(),
{
    let r = with_ref(refs, source, n);
    reveal(path_order);
    lemma_names_step(r, other, m);
    assert(seq![n].contains(m) <==> m == n) by {
        assert(seq![n][0] == n);
    }
    if refs.len() == 0 {
        assert(r.skip(1) =~= refs);
    } else {
        lemma_names_step(refs, other, m);
        lemma_parts_order_equal(parts_spec(source), parts_spec(refs[0].source));
        match path_order(source, refs[0].source) {
            Order::Equal => {
                assert(r.skip(1) =~= refs.skip(1));
                lemma_index_added(refs[0].chunk_indices, n, m);
            },
            Order::Less => {
                assert(r.skip(1) =~= refs);
            },
            Order::Greater => {
                lemma_ref_added(refs.skip(1), source, n, other, m);
                assert(r.skip(1) =~= with_ref(refs.skip(1), source, n));
            },
        }
    }
}

/// A line of the list quotes that source and number.
pub open spec fn some_line_quotes(list: Seq<Seq<char>>, source: Seq<char>, n: usize) -> bool {
    exists|i: int|
        0 <= i < list.len() && (quoted(#[trigger] list[i]) matches Some(q) && same_path_spec(
            q.0,
            source,
        ) && q.1 == n)
}

proof fn lemma_refs_of_lines(
    list: Seq<Seq<char>>,
    before: Seq<SourceRefView>,
    source: Seq<char>,
    n: usize,
)
    ensures
        names(refs_of_lines(list, before), source, n) <==> names(before, source, n)
            || some_line_quotes(list, source, n),
    decreases list.len(),
{
    if list.len() > 0 {
        let front = list.drop_last();
        let last = list.len() - 1;
        lemma_refs_of_lines(front, before, source, n);
        let refs = refs_of_lines(front, before);
        if let Some((s, k)) = quoted(list.last()) {
            lemma_ref_added(refs, s, k, source, n);
            if same_path_spec(s, source) && k == n {
                assert(quoted(list[last]) is Some);
            }
        }
        if some_line_quotes(front, source, n) {
            let i = choose|i: int|
                0 <= i < front.len() && (quoted(#[trigger] front[i]) matches Some(q)
                    && same_path_spec(q.0, source) && q.1 == n);
            assert(list[i] == front[i]);
        }
        if some_line_quotes(list, source, n) {
            let i = choose|i: int|
                0 <= i < list.len() && (quoted(#[trigger] list[i]) matches Some(q)
                    && same_path_spec(q.0, source) && q.1 == n);
            if i < last {
                assert(front[i] == list[i]);
            }
        }
    }
}

/// The references of outputs name every source and chunk number that a line of
/// them quotes, and no others.
pub proof fn law_references_name_what_is_quoted(
    outputs: Seq<Seq<char>>,
    source: Seq<char>,
    n: usize,
)
    ensures
        names(refs_of_outputs(outputs), source, n) <==> exists|i: int|
            0 <= i < outputs.len() && some_line_quotes(
                lines_spec(#[trigger] outputs[i]),
                source,
                n,
            ),
    decreases outputs.len(),
{
    if outputs.len() > 0 {
        let front = outputs.drop_last();
        let last = outputs.len() - 1;
        law_references_name_what_is_quoted(front, source, n);
        lemma_refs_of_lines(lines_spec(outputs.last()), refs_of_outputs(front), source, n);
        if exists|i: int|
            0 <= i < front.len() && some_line_quotes(lines_spec(#[trigger] front[i]), source, n) {
            let i = choose|i: int|
                0 <= i < front.len() && some_line_quotes(
                    lines_spec(#[trigger] front[i]),
                    source,
                    n,
                );
            assert(outputs[i] == front[i]);
        }
        if some_line_quotes(lines_spec(outputs.last()), source, n) {
            assert(outputs[last] == outputs.last());
        }
        if exists|i: int|
            0 <= i < outputs.len() && some_line_quotes(lines_spec(#[trigger] outputs[i]), source, n) {
            let i = choose|i: int|
                0 <= i < outputs.len() && some_line_quotes(
                    lines_spec(#[trigger] outputs[i]),
                    source,
                    n,
                );
            if i < last {
                assert(front[i] == outputs[i]);
            }
        }
    }
}

/// The line above a result opens with its number and closes with its score.
pub proof fn law_headers_show_number_and_score(n: nat, r: ResultView)
    ensures
        ("[资料 "@ + dec(n) + " | "@).is_prefix_of(result_header(n, r)),
        (" | score="@ + dec(r.score as nat) + "]"@).is_suffix_of(result_header(n, r)),
{
    let line = result_header(n, r);
    let head = "[资料 "@ + dec(n) + " | "@;
    let tail = " | score="@ + dec(r.score as nat) + "]"@;
    let middle = r.chunk.source + " | 片段 "@ + dec(r.chunk.index as nat);
    assert(line =~= head + middle + tail);
    assert(line.take(head.len() as int) =~= head);
    assert(line.skip(line.len() - tail.len()) =~= tail);
}

} // verus!
