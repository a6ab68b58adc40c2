//! Search results as the text that a tool hands back, within a token budget.
use vstd::prelude::*;
use crate::hashing::{fnv1a, hash_text};
use crate::rag::chunk::{Chunk, ChunkView};
use crate::text::chars::{is_white, lemma_views_push, views, white};
use crate::text::number::{dec, decimal_size};
use crate::text::search::{join, join_spec};
use crate::tokens::{estimate, fit_text_prefix, fitting_prefix, lemma_fitting_prefix, lemma_tokens_concat, tokens};

verus! {

/// A chunk that a search found, with its score in hundredths.
#[derive(Clone, Debug, PartialEq)]
pub struct SearchResult {
    pub chunk: Chunk,
    pub score: usize,
}

#[verifier::ext_equal]
pub struct ResultView {
    pub chunk: ChunkView,
    pub score: usize,
}

impl View for SearchResult {
    type V = ResultView;

    open spec fn view(&self) -> ResultView {
        ResultView { chunk: self.chunk@, score: self.score }
    }
}

pub open spec fn results_view(v: Seq<SearchResult>) -> Seq<ResultView> {
    v.map_values(|r: SearchResult| r@)
}

impl SearchResult {
    /// A copy of the result.
    pub fn copy(&self) -> (r: SearchResult)
        ensures
            r@ == self@,
    {
        SearchResult { chunk: self.chunk.copy(), score: self.score }
    }
}

/// The text with each run of white space as one space.
pub open spec fn collapsed(s: Seq<char>) -> Seq<char>
    decreases s.len(),
{
    if s.len() == 0 {
        Seq::empty()
    } else {
        let before = collapsed(s.drop_last());
        if !is_white(s.last()) {
            before.push(s.last())
        } else if s.len() > 1 && is_white(s[s.len() - 2]) {
            before
        } else {
            before.push(' ')
        }
    }
}

/// The hash of a text in which runs of white space count as one space.
pub open spec fn content_hash_spec(text: Seq<char>) -> u64 {
    fnv1a(vstd::utf8::encode_utf8(collapsed(text)))
}

/// The hash of a text in which runs of white space count as one space.
pub fn content_hash(text: &str) -> (r: u64)
    ensures
        r == content_hash_spec(text@),
{
    let mut plain = String::new();
    let mut previous_white = false;
    assert(plain@ =~= collapsed(text@.take(0)));
    for c in it: text.chars()
        invariant
            it.seq() == text@,
            plain@ == collapsed(text@.take(it.index())),
            previous_white == (it.index() > 0 && is_white(text@[it.index() - 1])),
    {
        assert(text@.take(it.index() + 1).drop_last() =~= text@.take(it.index()));
        if white(c) {
            if !previous_white {
                plain.push(' ');
            }
            previous_white = true;
        } else {
            plain.push(c);
            previous_white = false;
        }
    }
    assert(text@.take(text@.len() as int) =~= text@);
    hash_text(&plain)
}

/// The text cut to a token budget, with a marker where something was cut.
pub open spec fn fitted(text: Seq<char>, budget: int) -> Seq<char> {
    let marker = "\n[片段因 Token 预算截断]"@;
    if budget <= 0 {
        Seq::empty()
    } else if tokens(text) <= budget {
        text
    } else if budget <= tokens(marker) {
        fitting_prefix(marker, budget)
    } else {
        fitting_prefix(text, budget - tokens(marker)) + marker
    }
}

/// The text cut to a token budget, with a marker where something was cut.
pub fn fit_text_to_token_budget(text: &str, budget: usize) -> (r: String)
    ensures
        r@ == fitted(text@, budget as int),
{
    if budget == 0 {
        return String::new();
    }
    if estimate(text) <= budget {
        return text.to_owned();
    }
    let marker = "\n[片段因 Token 预算截断]";
    let marker_tokens: usize = estimate(marker);
    if budget <= marker_tokens {
        return fit_text_prefix(marker, budget);
    }
    let mut result = fit_text_prefix(text, budget - marker_tokens);
    result.append(marker);
    result
}

/// A text cut to a budget fits it.
pub proof fn lemma_fitted(text: Seq<char>, budget: int)
    requires
        0 <= budget,
    ensures
        tokens(fitted(text, budget)) <= budget,
{
    let marker = "\n[片段因 Token 预算截断]"@;
    if budget > 0 && tokens(text) > budget {
        if budget <= tokens(marker) {
            lemma_fitting_prefix(marker, marker.len() as int, budget);
        } else {
            let room = budget - tokens(marker);
            lemma_fitting_prefix(text, text.len() as int, room);
            lemma_tokens_concat(fitting_prefix(text, room), marker);
        }
    } else if budget == 0 {
        assert(tokens(Seq::<char>::empty()) == 0);
    }
}

/// The line above a result.
pub open spec fn result_header(n: nat, r: ResultView) -> Seq<char> {
    "[资料 "@ + dec(n) + " | "@ + r.chunk.source + " | 片段 "@ + dec(r.chunk.index as nat)
        + " | score="@ + dec(r.score as nat) + "]"@
}

fn header_text(n: usize, r: &SearchResult) -> (t: String)
    ensures
        t@ == result_header(n as nat, r@),
{
    let mut t = "[资料 ".to_owned();
    t.append(decimal_size(n).as_str());
    t.append(" | ");
    t.append(r.chunk.source.as_str());
    t.append(" | 片段 ");
    t.append(decimal_size(r.chunk.index).as_str());
    t.append(" | score=");
    t.append(decimal_size(r.score).as_str());
    t.append("]");
    t
}

/// The tokens of the blank line in front of a section.
pub open spec fn separator_tokens(sections: Seq<Seq<char>>) -> nat {
    if sections.len() == 0 {
        0
    } else {
        tokens("\n\n"@)
    }
}

/// The tokens left for the text of the next result.
pub open spec fn room_left(sections: Seq<Seq<char>>, used: nat, budget: nat, header: Seq<char>) -> int {
    let taken = used + separator_tokens(sections) + (tokens(header) + tokens("\n"@));
    if taken < budget {
        budget - taken
    } else {
        0
    }
}

/// The sections for `results` behind those already laid out. A result whose
/// content was seen is skipped. Layout stops where the budget is used up.
pub open spec fn lay_out(
    results: Seq<ResultView>,
    seen: Seq<u64>,
    sections: Seq<Seq<char>>,
    used: nat,
    budget: nat,
) -> Seq<Seq<char>>
    decreases results.len(),
{
    if results.len() == 0 {
        sections
    } else {
        let r = results[0];
        let hash = content_hash_spec(r.chunk.text);
        let header = result_header(sections.len() + 1, r);
        let text = fitted(r.chunk.text, room_left(sections, used, budget, header));
        let section = header + "\n"@ + text;
        let total = used + separator_tokens(sections) + tokens(section);
        if seen.contains(hash) {
            lay_out(results.skip(1), seen, sections, used, budget)
        } else if text.len() == 0 {
            sections
        } else if total >= budget {
            sections.push(section)
        } else {
            lay_out(results.skip(1), seen.push(hash), sections.push(section), total, budget)
        }
    }
}

/// The text for a list of results within a budget.
pub open spec fn formatted(results: Seq<ResultView>, budget: nat) -> Seq<char> {
    if results.len() == 0 {
        "没有检索到相关本地资料。"@
    } else {
        let sections = lay_out(results, Seq::empty(), Seq::empty(), 0, budget);
        if sections.len() == 0 {
            "没有可放入当前 Token 预算的本地资料。"@
        } else {
            join_spec(sections, "\n\n"@)
        }
    }
}

fn seen_before(seen: &Vec<u64>, hash: u64) -> (r: bool)
    ensures
        r == seen@.contains(hash),
{
    for i in 0..seen.len()
        invariant
            forall|j: int| 0 <= j < i ==> seen@[j] != hash,
    {
        if seen[i] == hash {
            return true;
        }
    }
    false
}

fn layout_sections(results: &[SearchResult], max_tokens: usize) -> (r: Vec<String>)
    ensures
        views(r@) == lay_out(
            results_view(results@),
            Seq::empty(),
            Seq::empty(),
            0,
            max_tokens as nat,
        ),
{
    let ghost all = results_view(results@);
    let ghost budget = max_tokens as nat;
    let ghost whole = lay_out(all, Seq::empty(), Seq::empty(), 0, budget);
    let mut seen: Vec<u64> = Vec::new();
    let mut sections: Vec<String> = Vec::new();
    let mut used: usize = 0;
    let total: usize = results.len();
    let mut i: usize = 0;
    proof {
        assert(all.skip(0) =~= all);
        assert(views(sections@) =~= Seq::empty());
        assert(seen@ =~= Seq::empty());
    }
    while i < total
        invariant
            i <= total,
            total == results@.len(),
            all == results_view(results@),
            budget == max_tokens,
            sections@.len() <= i,
            whole == lay_out(all.skip(i as int), seen@, views(sections@), used as nat, budget),
            whole == lay_out(all, Seq::empty(), Seq::empty(), 0, budget),
        decreases total - i,
    {
        let result = &results[i];
        let ghost rest = all.skip(i as int);
        proof {
            assert(rest[0] == result@);
            assert(rest.skip(1) =~= all.skip(i + 1));
        }
        i += 1;
        let hash: u64 = content_hash(&result.chunk.text);
        if seen_before(&seen, hash) {
            continue;
        }
        seen.push(hash);
        let header = header_text(sections.len() + 1, result);
        let separator: usize = if sections.len() == 0 {
            0
        } else {
            estimate("\n\n")
        };
        let header_tokens: usize = estimate(&header).saturating_add(estimate("\n"));
        let taken: usize = used.saturating_add(separator).saturating_add(header_tokens);
        let remaining: usize = max_tokens.saturating_sub(taken);
        assert(remaining == room_left(views(sections@), used as nat, budget, header@));
        let text = fit_text_to_token_budget(&result.chunk.text, remaining);
        if text.as_str().unicode_len() == 0 {
            return sections;
        }
        let mut section = header;
        section.append("\n");
        section.append(text.as_str());
        let section_tokens: usize = estimate(&section);
        let next: usize = used.saturating_add(separator).saturating_add(section_tokens);
        proof {
            lemma_views_push(sections@, section);
        }
        sections.push(section);
        if next >= max_tokens {
            return sections;
        }
        used = next;
    }
    sections
}

/// The text for a list of results within a budget. Results with the same
/// content appear once.
pub fn format_within(results: &[SearchResult], max_tokens: usize) -> (r: String)
    ensures
        r@ == formatted(results_view(results@), max_tokens as nat),
{
    if results.len() == 0 {
        return "没有检索到相关本地资料。".to_owned();
    }
    let sections = layout_sections(results, max_tokens);
    if sections.len() == 0 {
        "没有可放入当前 Token 预算的本地资料。".to_owned()
    } else {
        join(&sections, "\n\n")
    }
}

/// The tokens of sections and of the blank lines between them.
pub open spec fn layout_tokens(sections: Seq<Seq<char>>) -> nat
    decreases sections.len(),
{
    if sections.len() == 0 {
        0
    } else {
        layout_tokens(sections.drop_last()) + separator_tokens(sections.drop_last()) + tokens(
            sections.last(),
        )
    }
}

proof fn lemma_join_tokens(sections: Seq<Seq<char>>)
    ensures
        tokens(join_spec(sections, "\n\n"@)) <= layout_tokens(sections),
    decreases sections.len(),
{
    if sections.len() > 1 {
        let front = sections.drop_last();
        lemma_join_tokens(front);
        lemma_tokens_concat(join_spec(front, "\n\n"@), "\n\n"@);
        lemma_tokens_concat(join_spec(front, "\n\n"@) + "\n\n"@, sections.last());
    } else if sections.len() == 1 {
        assert(layout_tokens(sections.drop_last()) == 0);
    } else {
        assert(tokens(Seq::<char>::empty()) == 0);
    }
}

proof fn lemma_layout_within(
    results: Seq<ResultView>,
    seen: Seq<u64>,
    sections: Seq<Seq<char>>,
    used: nat,
    budget: nat,
)
    requires
        used == layout_tokens(sections),
        used <= budget,
    ensures
        layout_tokens(lay_out(results, seen, sections, used, budget)) <= budget,
    decreases results.len(),
{
    if results.len() > 0 {
        let r = results[0];
        let hash = content_hash_spec(r.chunk.text);
        let header = result_header(sections.len() + 1, r);
        let room = room_left(sections, used, budget, header);
        let text = fitted(r.chunk.text, room);
        let section = header + "\n"@ + text;
        let total = used + separator_tokens(sections) + tokens(section);
        assert(sections.push(section).drop_last() =~= sections);
        if seen.contains(hash) {
            lemma_layout_within(results.skip(1), seen, sections, used, budget);
        } else if text.len() > 0 {
            lemma_fitted(r.chunk.text, room);
            lemma_tokens_concat(header + "\n"@, text);
            lemma_tokens_concat(header, "\n"@);
            if total < budget {
                lemma_layout_within(
                    results.skip(1),
                    seen.push(hash),
                    sections.push(section),
                    total,
                    budget,
                );
            }
        }
    }
}

/// The sections that are handed back fit the token budget together.
pub proof fn law_formatted_results_fit_the_budget(results: Seq<ResultView>, budget: nat)
    ensures
        ({
            let sections = lay_out(results, Seq::empty(), Seq::empty(), 0, budget);
            results.len() > 0 && sections.len() > 0 ==> formatted(results, budget) == join_spec(
                sections,
                "\n\n"@,
            ) && tokens(formatted(results, budget)) <= budget
        }),
{
    let sections = lay_out(results, Seq::empty(), Seq::empty(), 0, budget);
    lemma_layout_within(results, Seq::empty(), Seq::empty(), 0, budget);
    lemma_join_tokens(sections);
}

/// Some result has the content of this hash.
pub open spec fn has_content(results: Seq<ResultView>, hash: u64) -> bool {
    exists|i: int|
        0 <= i < results.len() && content_hash_spec((#[trigger] results[i]).chunk.text) == hash
}

proof fn lemma_repeat_skipped(
    results: Seq<ResultView>,
    extra: ResultView,
    seen: Seq<u64>,
    sections: Seq<Seq<char>>,
    used: nat,
    budget: nat,
)
    requires
        seen.contains(content_hash_spec(extra.chunk.text)) || has_content(
            results,
            content_hash_spec(extra.chunk.text),
        ),
    ensures
        lay_out(results.push(extra), seen, sections, used, budget) == lay_out(
            results,
            seen,
            sections,
            used,
            budget,
        ),
    decreases results.len(),
{
    let target = content_hash_spec(extra.chunk.text);
    if results.len() == 0 {
        reveal_with_fuel(lay_out, 2);
        assert(results.push(extra)[0] == extra);
        assert(results.push(extra).skip(1) =~= results);
    } else {
        let r = results[0];
        let rest = results.skip(1);
        let hash = content_hash_spec(r.chunk.text);
        let header = result_header(sections.len() + 1, r);
        let text = fitted(r.chunk.text, room_left(sections, used, budget, header));
        let section = header + "\n"@ + text;
        let total = used + separator_tokens(sections) + tokens(section);
        assert(results.push(extra)[0] == r);
        assert(results.push(extra).skip(1) =~= rest.push(extra));
        if hash != target && has_content(results, target) {
            let i = choose|i: int|
                0 <= i < results.len() && content_hash_spec((#[trigger] results[i]).chunk.text)
                    == target;
            assert(rest[i - 1] == results[i]);
            assert(has_content(rest, target));
        }
        if seen.contains(hash) {
            lemma_repeat_skipped(rest, extra, seen, sections, used, budget);
        } else if text.len() > 0 && total < budget {
            assert(seen.push(hash)[seen.len() as int] == hash);
            if seen.contains(target) {
                let k = choose|k: int| 0 <= k < seen.len() && seen[k] == target;
                assert(seen.push(hash)[k] == target);
            }
            lemma_repeat_skipped(
                rest,
                extra,
                seen.push(hash),
                sections.push(section),
                total,
                budget,
            );
        }
    }
}

/// A result that repeats the content of another, but for white space, adds
/// nothing to the text.
pub proof fn law_repeated_content_appears_once(
    results: Seq<ResultView>,
    extra: ResultView,
    budget: nat,
)
    requires
        has_content(results, content_hash_spec(extra.chunk.text)),
    ensures
        formatted(results.push(extra), budget) == formatted(results, budget),
{
    lemma_repeat_skipped(results, extra, Seq::empty(), Seq::empty(), 0, budget);
}

} // verus!
