//! What a search finds, and in which order.
use vstd::prelude::*;
use crate::json::JsonView;
use crate::paths::{file_name_spec, path_order, same_path_spec, Order};
use crate::rag::chunk::{document_chunks, ChunkView, SourceDocument};
use crate::rag::format::ResultView;
use crate::rag::query::{chapter_spec, mentioned_spec, outline_spec, outline_words};
use crate::rag::store::{all_chunks, chapter_chunks, chapter_heading, document_results, has_contents, has_term, in_sources, insert_ranked, is_contents, is_named, is_relevant, is_score_input, keyword_results, lists_with, named_sources, outline_first, outlines_first, position_of, ranked, ranks_before, search_results, shared_terms, sum_of_terms, term_lists, title_line, title_of_number, titles_agree, titles_of, ScoreInput};
use crate::rag::store_laws::{is_ranked, law_keyword_results_are_ranked};
use crate::rag::terms::{bigrams, is_cjk, is_content_word, is_expanded, law_terms_count_once, query_phrases, query_term_seq, stopwords, term_list, term_seq};
use crate::rag::tool::request_spec;
use crate::seqs::{lemma_filter_all, lemma_filter_contains};
use crate::text::chars::{ascii_lower, is_ascii_alnum, is_white};
use crate::text::laws::{law_decimal_form_has_the_value, law_words_are_pieces, lemma_decimal_holds_digits, lemma_trim_nothing};
use crate::text::number::dec;
use crate::text::pieces::{nonempty, pieces, trim_spec, CharClass};
use crate::text::search::{find_from, has_text, lemma_find_from, occurs_at, replace_pairs_spec, rfind_from};

verus! {

/// A chunk of the given sources that shares enough terms with the question.
pub open spec fn is_match(
    c: ChunkView,
    query: Seq<char>,
    sources: Option<Seq<Seq<char>>>,
) -> bool {
    in_sources(c.source, sources) && is_relevant(
        query_term_seq(query).filter(|t: Seq<char>| term_seq(c.text).contains(t)).len(),
        query_term_seq(query).len(),
        is_expanded(query),
    )
}

proof fn lemma_insert_contains(s: Seq<ResultView>, x: ResultView, y: ResultView)
    ensures
        insert_ranked(s, x).contains(y) <==> s.contains(y) || y == x,
        insert_ranked(s, x).len() == s.len() + 1,
    decreases s.len(),
{
    let r = insert_ranked(s, x);
    if s.len() == 0 {
        assert(seq![x][0] == x);
    } else if ranks_before(x, s[0]) {
        assert(r[0] == x);
        if s.contains(y) {
            let j = choose|j: int| 0 <= j < s.len() && s[j] == y;
            assert(r[j + 1] == y);
        }
        if r.contains(y) && y != x {
            let j = choose|j: int| 0 <= j < r.len() && r[j] == y;
            assert(s[j - 1] == y);
        }
    } else {
        let rest = s.skip(1);
        let w = insert_ranked(rest, x);
        lemma_insert_contains(rest, x, y);
        if s.contains(y) {
            let j = choose|j: int| 0 <= j < s.len() && s[j] == y;
            if j == 0 {
                assert(r[0] == y);
            } else {
                assert(rest[j - 1] == y);
                assert(rest.contains(y));
            }
        }
        if w.contains(y) {
            let j = choose|j: int| 0 <= j < w.len() && w[j] == y;
            assert(r[j + 1] == y);
        }
        if r.contains(y) {
            let j = choose|j: int| 0 <= j < r.len() && r[j] == y;
            if j == 0 {
                assert(s[0] == y);
            } else {
                assert(w[j - 1] == y);
                assert(w.contains(y));
                if rest.contains(y) {
                    let k = choose|k: int| 0 <= k < rest.len() && rest[k] == y;
                    assert(s[k + 1] == y);
                }
            }
        }
    }
}

/// The ranking holds the chunks that match, each with its score, and no others.
proof fn lemma_ranking_holds_matches(
    chunks: Seq<ChunkView>,
    query: Seq<char>,
    sources: Option<Seq<Seq<char>>>,
    scores: Seq<usize>,
    y: ResultView,
)
    requires
        scores.len() >= chunks.len(),
    ensures
        ranked(chunks, query, sources, scores).contains(y) <==> exists|k: int|
            0 <= k < chunks.len() && is_match(#[trigger] chunks[k], query, sources) && y
                == (ResultView { chunk: chunks[k], score: scores[k] }),
    decreases chunks.len(),
{
    let all = ranked(chunks, query, sources, scores);
    if chunks.len() > 0 {
        let front = chunks.drop_last();
        let before = ranked(front, query, sources, scores);
        let last = chunks.len() - 1;
        let x = ResultView { chunk: chunks.last(), score: scores[last] };
        lemma_ranking_holds_matches(front, query, sources, scores, y);
        lemma_insert_contains(before, x, y);
        let q = query_term_seq(query);
        let c = chunks.last();
        assert(q.filter(|t: Seq<char>| term_seq(c.text).contains(t)) == shared_terms(
            q,
            term_seq(c.text),
        )) by {
            assert(has_term(term_seq(c.text)) =~= (|t: Seq<char>| term_seq(c.text).contains(t)));
        }
        if before.contains(y) {
            let k = choose|k: int|
                0 <= k < front.len() && is_match(#[trigger] front[k], query, sources) && y
                    == (ResultView { chunk: front[k], score: scores[k] });
            assert(chunks[k] == front[k]);
        }
        if is_match(c, query, sources) {
            assert(chunks[last] == c);
        }
        if exists|k: int|
            0 <= k < chunks.len() && is_match(#[trigger] chunks[k], query, sources) && y
                == (ResultView { chunk: chunks[k], score: scores[k] }) {
            let k = choose|k: int|
                0 <= k < chunks.len() && is_match(#[trigger] chunks[k], query, sources) && y
                    == (ResultView { chunk: chunks[k], score: scores[k] });
            if k < last {
                assert(front[k] == chunks[k]);
            }
        }
    }
}

proof fn lemma_descending(s: Seq<ResultView>, i: int, j: int)
    requires
        is_ranked(s),
        0 <= i <= j < s.len(),
    ensures
        s[i].score >= s[j].score,
    decreases j - i,
{
    if i < j {
        lemma_descending(s, i, j - 1);
        assert(!ranks_before(s[j], s[j - 1]));
    }
}

/// What a keyword search finds stands in descending order of the scores. Of
/// neighbours with the same score the one with the lesser path, and of the same
/// path the one with the lesser number, comes first.
pub proof fn law_results_descend_in_score(
    chunks: Seq<ChunkView>,
    query: Seq<char>,
    limit: int,
    sources: Option<Seq<Seq<char>>>,
    scores: Seq<usize>,
    i: int,
    j: int,
)
    requires
        0 <= i < j < keyword_results(chunks, query, limit, sources, scores).len(),
        0 <= limit,
    ensures
        ({
            let found = keyword_results(chunks, query, limit, sources, scores);
            &&& found[i].score >= found[j].score
            &&& j == i + 1 && found[i].score == found[j].score ==> match path_order(
                found[i].chunk.source,
                found[j].chunk.source,
            ) {
                Order::Less => true,
                Order::Equal => found[i].chunk.index <= found[j].chunk.index,
                Order::Greater => false,
            }
        }),
{
    law_keyword_results_are_ranked(chunks, query, limit, sources, scores);
    let found = keyword_results(chunks, query, limit, sources, scores);
    lemma_descending(found, i, j);
    crate::rag::sources::lemma_path_order_turns(found[i].chunk.source, found[j].chunk.source);
    crate::rag::sources::lemma_path_order_turns(found[j].chunk.source, found[i].chunk.source);
    if j == i + 1 {
        assert(!ranks_before(found[j], found[i]));
    }
}

/// Every result of a keyword search is a chunk of the given sources with its own
/// score that shares a term with the question.
pub proof fn law_results_share_a_term_with_the_question(
    chunks: Seq<ChunkView>,
    query: Seq<char>,
    limit: int,
    sources: Option<Seq<Seq<char>>>,
    scores: Seq<usize>,
    i: int,
)
    requires
        scores.len() >= chunks.len(),
        0 <= limit,
        0 <= i < keyword_results(chunks, query, limit, sources, scores).len(),
    ensures
        ({
            let found = keyword_results(chunks, query, limit, sources, scores)[i];
            &&& in_sources(found.chunk.source, sources)
            &&& exists|k: int|
                0 <= k < chunks.len() && (#[trigger] chunks[k]) == found.chunk && scores[k]
                    == found.score
            &&& exists|t: Seq<char>| #[trigger]
                query_term_seq(query).contains(t) && term_seq(found.chunk.text).contains(t)
        }),
{
    let found = keyword_results(chunks, query, limit, sources, scores)[i];
    let all = ranked(chunks, query, sources, scores);
    assert(all[i] == found);
    assert(all.contains(found));
    lemma_ranking_holds_matches(chunks, query, sources, scores, found);
    let k = choose|k: int|
        0 <= k < chunks.len() && is_match(#[trigger] chunks[k], query, sources) && found
            == (ResultView { chunk: chunks[k], score: scores[k] });
    assert(chunks[k] == found.chunk);
    let q = query_term_seq(query);
    let p = |t: Seq<char>| term_seq(found.chunk.text).contains(t);
    let shared = q.filter(p);
    assert(shared.len() > 0);
    let t = shared[0];
    lemma_filter_contains(q, p, t);
    assert(shared.contains(t));
    assert(q.contains(t));
}

/// A chunk that matches the question is left out only where the limit is reached,
/// and then none of the results has a lower score.
pub proof fn law_no_chunk_left_out_scores_higher(
    chunks: Seq<ChunkView>,
    query: Seq<char>,
    limit: int,
    sources: Option<Seq<Seq<char>>>,
    scores: Seq<usize>,
    k: int,
)
    requires
        scores.len() >= chunks.len(),
        0 <= limit,
        0 <= k < chunks.len(),
        is_match(chunks[k], query, sources),
        !keyword_results(chunks, query, limit, sources, scores).contains(
            (ResultView { chunk: chunks[k], score: scores[k] }),
        ),
    ensures
        keyword_results(chunks, query, limit, sources, scores).len() == limit,
        forall|i: int|
            0 <= i < limit ==> (#[trigger] keyword_results(
                chunks,
                query,
                limit,
                sources,
                scores,
            )[i]).score >= scores[k],
{
    let y = ResultView { chunk: chunks[k], score: scores[k] };
    let all = ranked(chunks, query, sources, scores);
    let found = keyword_results(chunks, query, limit, sources, scores);
    lemma_ranking_holds_matches(chunks, query, sources, scores, y);
    let at = choose|at: int| 0 <= at < all.len() && all[at] == y;
    if all.len() <= limit {
        assert(found.contains(all[at]));
    }
    law_keyword_results_are_ranked(chunks, query, all.len() as int, sources, scores);
    assert(keyword_results(chunks, query, all.len() as int, sources, scores) == all);
    if at < limit {
        assert(found[at] == y);
    }
    assert forall|i: int| 0 <= i < limit implies (#[trigger] found[i]).score >= scores[k] by {
        assert(found[i] == all[i]);
        lemma_descending(all, i, at);
    }
}

/// How many of its terms a question has to share. A chunk with all of them is
/// found, and so is one that shares more than one that is found; a chunk with
/// none of them is not, nor one with less than a fifth of them, unless English
/// terms were added and it has two.
pub proof fn law_more_shared_terms_are_no_worse(m: nat, n: nat, terms: nat, expanded: bool)
    requires
        m <= n <= terms < usize::MAX,
    ensures
        is_relevant(m, terms, expanded) ==> is_relevant(n, terms, expanded),
        terms >= 2 ==> is_relevant(terms, terms, expanded),
        terms == 1 ==> (is_relevant(1, 1, expanded) <==> !expanded),
        !is_relevant(0, terms, expanded),
        expanded ==> (is_relevant(m, terms, expanded) <==> m >= 2),
        !expanded && is_relevant(m, terms, expanded) ==> 5 * m >= terms && 6 * m >= terms,
        !expanded && terms > 4 && is_relevant(m, terms, expanded) ==> m >= 3,
        !expanded && terms > 4 && m >= 3 && 5 * m >= terms ==> is_relevant(m, terms, expanded),
        !expanded && 0 < terms <= 4 && m >= 1 ==> is_relevant(m, terms, expanded),
{
}

/// The score of a chunk counts in how many chunks a term occurs, and how many
/// terms there are in all.
pub proof fn law_term_statistics_count_every_chunk(
    a: Seq<Seq<Seq<char>>>,
    b: Seq<Seq<Seq<char>>>,
    term: Seq<char>,
)
    ensures
        lists_with(a, term) == a.filter(|l: Seq<Seq<char>>| l.contains(term)).len(),
        lists_with(a + b, term) == lists_with(a, term) + lists_with(b, term),
        sum_of_terms(a + b) == sum_of_terms(a) + sum_of_terms(b),
        sum_of_terms(seq![term_list(term)]) == term_list(term).len(),
    decreases a.len() + b.len(),
{
    reveal(Seq::filter);
    if a.len() > 0 {
        law_term_statistics_count_every_chunk(a.drop_last(), Seq::empty(), term);
    }
    let one = seq![term_list(term)];
    assert(one.drop_last() =~= Seq::empty());
    assert(sum_of_terms(Seq::<Seq<Seq<char>>>::empty()) == 0);
    if b.len() == 0 {
        assert(a + b =~= a);
    } else {
        law_term_statistics_count_every_chunk(a, b.drop_last(), term);
        assert((a + b).drop_last() =~= a + b.drop_last());
    }
}

/// The chunks of a chapter stand one behind the other, outlines apart: from the
/// first whose heading agrees with the title, up to the next heading of a chapter,
/// the limit or the end.
pub proof fn law_chapter_is_a_run_of_chunks(
    chunks: Seq<ChunkView>,
    titles: Seq<(u32, Seq<char>)>,
    title: Seq<char>,
    limit: int,
) -> (first: int)
    requires
        limit >= 1,
    ensures
        ({
            let plain = chunks.filter(|c: ChunkView| !is_contents(c));
            let found = chapter_chunks(chunks, titles, title, false, limit);
            let end = first + found.len();
            &&& 0 <= first <= end <= plain.len()
            &&& forall|i: int|
                0 <= i < first ==> !opens_chapter(#[trigger] plain[i], titles, title)
            &&& found.len() == 0 ==> first == plain.len()
            &&& found.len() > 0 ==> opens_chapter(plain[first], titles, title)
            &&& forall|i: int|
                0 <= i < found.len() ==> (#[trigger] found[i]).chunk == plain[first + i]
            &&& forall|i: int|
                first < i < end ==> chapter_heading(#[trigger] plain[i], titles) is None
            &&& found.len() > 0 ==> found.len() == limit || end == plain.len() || chapter_heading(
                plain[end],
                titles,
            ) is Some
        }),
    decreases chunks.len(),
{
    let p = |c: ChunkView| !is_contents(c);
    let plain = chunks.filter(p);
    if chunks.len() == 0 {
        reveal(Seq::filter);
        0
    } else {
        let c = chunks[0];
        let rest = chunks.skip(1);
        lemma_filter_first(chunks, p);
        if is_contents(c) {
            law_chapter_is_a_run_of_chunks(rest, titles, title, limit)
        } else if !opens_chapter(c, titles, title) {
            let at = law_chapter_is_a_run_of_chunks(rest, titles, title, limit);
            let tail = rest.filter(p);
            assert(plain =~= seq![c] + tail);
            let found = chapter_chunks(chunks, titles, title, false, limit);
            assert forall|i: int| 0 <= i < at + 1 implies !opens_chapter(
                #[trigger] plain[i],
                titles,
                title,
            ) by {
                if i > 0 {
                    assert(plain[i] == tail[i - 1]);
                }
            }
            assert forall|i: int| 0 <= i < found.len() implies (#[trigger] found[i]).chunk
                == plain[at + 1 + i] by {
                assert(plain[at + 1 + i] == tail[at + i]);
            }
            assert forall|i: int| at + 1 < i < at + 1 + found.len() implies chapter_heading(
                #[trigger] plain[i],
                titles,
            ) is None by {
                assert(plain[i] == tail[i - 1]);
            }
            at + 1
        } else {
            let tail = rest.filter(p);
            let found = chapter_chunks(chunks, titles, title, false, limit);
            if limit > 1 {
                lemma_chapter_goes_on(rest, titles, title, limit - 1);
                let more = chapter_chunks(rest, titles, title, true, limit - 1);
                assert forall|i: int| 0 <= i < found.len() implies (#[trigger] found[i]).chunk
                    == plain[i] by {
                    if i > 0 {
                        assert(found[i] == more[i - 1]);
                        assert(plain[i] == tail[i - 1]);
                    }
                }
                assert forall|i: int| 0 < i < found.len() implies chapter_heading(
                    #[trigger] plain[i],
                    titles,
                ) is None by {
                    assert(plain[i] == tail[i - 1]);
                }
            }
            0
        }
    }
}

/// A chunk whose heading is that of the chapter.
pub open spec fn opens_chapter(
    c: ChunkView,
    titles: Seq<(u32, Seq<char>)>,
    title: Seq<char>,
) -> bool {
    chapter_heading(c, titles) matches Some(heading) && titles_agree(heading, title)
}

proof fn lemma_filter_first(chunks: Seq<ChunkView>, p: spec_fn(ChunkView) -> bool)
    requires
        chunks.len() > 0,
    ensures
        chunks.filter(p) == if p(chunks[0]) {
            seq![chunks[0]] + chunks.skip(1).filter(p)
        } else {
            chunks.skip(1).filter(p)
        },
{
    let one = seq![chunks[0]];
    assert(chunks =~= one + chunks.skip(1));
    crate::seqs::lemma_filter_concat(one, chunks.skip(1), p);
    if p(chunks[0]) {
        lemma_filter_all(one, p);
    } else {
        crate::seqs::lemma_filter_none(one, p);
        assert(Seq::<ChunkView>::empty() + chunks.skip(1).filter(p) =~= chunks.skip(1).filter(p));
    }
}

proof fn lemma_chapter_goes_on(
    chunks: Seq<ChunkView>,
    titles: Seq<(u32, Seq<char>)>,
    title: Seq<char>,
    limit: int,
)
    requires
        limit >= 1,
    ensures
        ({
            let plain = chunks.filter(|c: ChunkView| !is_contents(c));
            let found = chapter_chunks(chunks, titles, title, true, limit);
            &&& found.len() <= plain.len()
            &&& found.len() <= limit
            &&& forall|i: int| 0 <= i < found.len() ==> (#[trigger] found[i]).chunk == plain[i]
            &&& forall|i: int|
                0 <= i < found.len() ==> chapter_heading(#[trigger] plain[i], titles) is None
            &&& found.len() == limit || found.len() == plain.len() || chapter_heading(
                plain[found.len() as int],
                titles,
            ) is Some
        }),
    decreases chunks.len(),
{
    let p = |c: ChunkView| !is_contents(c);
    let plain = chunks.filter(p);
    if chunks.len() == 0 {
        reveal(Seq::filter);
    } else {
        let c = chunks[0];
        let rest = chunks.skip(1);
        lemma_filter_first(chunks, p);
        let tail = rest.filter(p);
        let found = chapter_chunks(chunks, titles, title, true, limit);
        if is_contents(c) {
            lemma_chapter_goes_on(rest, titles, title, limit);
        } else if chapter_heading(c, titles) is Some {
        } else if limit > 1 {
            lemma_chapter_goes_on(rest, titles, title, limit - 1);
            let more = chapter_chunks(rest, titles, title, true, limit - 1);
            assert forall|i: int| 0 <= i < found.len() implies (#[trigger] found[i]).chunk
                == plain[i] && chapter_heading(plain[i], titles) is None by {
                if i > 0 {
                    assert(found[i] == more[i - 1]);
                    assert(plain[i] == tail[i - 1]);
                }
            }
            assert forall|i: int| 0 <= i < found.len() implies chapter_heading(
                #[trigger] plain[i],
                titles,
            ) is None by {
                assert(found[i].chunk == plain[i]);
            }
        }
    }
}

/// A chapter number means the first title with that number.
pub proof fn law_chapter_number_means_its_title(
    titles: Seq<(u32, Seq<char>)>,
    number: u32,
    k: int,
)
    requires
        0 <= k < titles.len(),
        titles[k].0 == number,
        forall|i: int| 0 <= i < k ==> (#[trigger] titles[i]).0 != number,
    ensures
        title_of_number(titles, number) == Some(titles[k].1),
    decreases titles.len(),
{
    if k > 0 {
        let rest = titles.skip(1);
        assert(titles[0].0 != number);
        assert forall|i: int| 0 <= i < k - 1 implies (#[trigger] rest[i]).0 != number by {
            assert(rest[i] == titles[i + 1]);
        }
        law_chapter_number_means_its_title(rest, number, k - 1);
    }
}

/// The result is for the chunk: it has its path and its number.
pub open spec fn is_result_for(r: ResultView, c: ChunkView) -> bool {
    same_path_spec(r.chunk.source, c.source) && r.chunk.index == c.index
}

proof fn lemma_position(results: Seq<ResultView>, c: ChunkView)
    ensures
        position_of(results, c) matches Some(i) ==> 0 <= i < results.len() && is_result_for(
            results[i],
            c,
        ),
    decreases results.len(),
{
    if results.len() > 0 && !is_result_for(results[0], c) {
        lemma_position(results.skip(1), c);
    }
}

proof fn lemma_outline_first(results: Seq<ResultView>, c: ChunkView, y: ResultView)
    requires
        same_path_spec(c.source, c.source),
    ensures
        outline_first(results, c).len() > 0,
        is_result_for(outline_first(results, c)[0], c),
        results.contains(y) ==> outline_first(results, c).contains(y),
{
    lemma_position(results, c);
    let r = outline_first(results, c);
    if results.contains(y) {
        let j = choose|j: int| 0 <= j < results.len() && results[j] == y;
        match position_of(results, c) {
            Some(i) => {
                if j == i {
                    assert(r[0] == y);
                } else if j < i {
                    assert(r[j + 1] == y);
                } else {
                    assert(r[j] == y);
                }
            },
            None => {
                assert(r[j + 1] == y);
            },
        }
    }
}

proof fn lemma_outlines_first(
    chunks: Seq<ChunkView>,
    results: Seq<ResultView>,
    k: int,
    y: ResultView,
)
    requires
        0 <= k < chunks.len(),
        is_contents(chunks[k]),
        forall|i: int| 0 <= i < k ==> !is_contents(#[trigger] chunks[i]),
        forall|s: Seq<char>| #[trigger] same_path_spec(s, s),
    ensures
        outlines_first(chunks, results).len() > 0,
        is_result_for(outlines_first(chunks, results)[0], chunks[k]),
        results.contains(y) ==> outlines_first(chunks, results).contains(y),
    decreases chunks.len(),
{
    let front = chunks.drop_last();
    let last = chunks.last();
    let next = if is_contents(last) {
        outline_first(results, last)
    } else {
        results
    };
    lemma_outline_first(results, last, y);
    if k < front.len() {
        assert(front[k] == chunks[k]);
        assert forall|i: int| 0 <= i < k implies !is_contents(#[trigger] front[i]) by {
            assert(front[i] == chunks[i]);
        }
        lemma_outlines_first(front, next, k, y);
    } else {
        assert forall|i: int| 0 <= i < front.len() implies !is_contents(#[trigger] front[i]) by {
            assert(front[i] == chunks[i]);
        }
        lemma_no_outlines(front, next);
    }
}

proof fn lemma_no_outlines(chunks: Seq<ChunkView>, results: Seq<ResultView>)
    requires
        forall|i: int| 0 <= i < chunks.len() ==> !is_contents(#[trigger] chunks[i]),
    ensures
        outlines_first(chunks, results) == results,
    decreases chunks.len(),
{
    if chunks.len() > 0 {
        let front = chunks.drop_last();
        assert(!is_contents(chunks[chunks.len() - 1]));
        assert forall|i: int| 0 <= i < front.len() implies !is_contents(#[trigger] front[i]) by {
            assert(front[i] == chunks[i]);
        }
        lemma_no_outlines(front, results);
    }
}

/// A question for the outline finds the first outline of the documents in front
/// of everything else.
pub proof fn law_outline_comes_first(
    chunks: Seq<ChunkView>,
    query: Seq<char>,
    limit: int,
    scores: Seq<usize>,
    k: int,
)
    requires
        limit >= 1,
        outline_spec(query),
        0 <= k < chunks.len(),
        is_contents(chunks[k]),
        forall|i: int| 0 <= i < k ==> !is_contents(#[trigger] chunks[i]),
    ensures
        search_results(chunks, query, limit, scores).len() > 0,
        is_result_for(search_results(chunks, query, limit, scores)[0], chunks[k]),
{
    assert forall|s: Seq<char>| #[trigger] same_path_spec(s, s) by {
    }
    let found = keyword_results(chunks, query, limit, None, scores);
    assert(has_contents(chunks));
    lemma_outlines_first(chunks, found, k, arbitrary());
}

/// Two neighbouring characters of unspaced script are a term, wherever they
/// stand, and nothing else is one of their kind.
pub proof fn law_neighbours_are_terms(s: Seq<char>, t: Seq<char>)
    ensures
        bigrams(s).contains(t) <==> exists|i: int|
            0 <= i < s.len() - 1 && is_cjk(#[trigger] s[i]) && is_cjk(s[i + 1]) && t == seq![
                s[i],
                s[i + 1],
            ],
    decreases s.len(),
{
    if s.len() >= 2 {
        let front = s.drop_last();
        let before = bigrams(front);
        let all = bigrams(s);
        let at = s.len() - 2;
        let pair = seq![s[at], s.last()];
        law_neighbours_are_terms(front, t);
        if before.contains(t) {
            let i = choose|i: int|
                0 <= i < front.len() - 1 && is_cjk(#[trigger] front[i]) && is_cjk(front[i + 1]) && t
                    == seq![front[i], front[i + 1]];
            assert(s[i] == front[i] && s[i + 1] == front[i + 1]);
            let j = choose|j: int| 0 <= j < before.len() && before[j] == t;
            assert(all[j] == t);
        }
        if all.contains(t) && !before.contains(t) {
            let j = choose|j: int| 0 <= j < all.len() && all[j] == t;
            if j < before.len() {
                assert(before[j] == t);
            }
            assert(t == pair);
            assert(is_cjk(s[at]));
        }
        if exists|i: int|
            0 <= i < s.len() - 1 && is_cjk(#[trigger] s[i]) && is_cjk(s[i + 1]) && t == seq![
                s[i],
                s[i + 1],
            ] {
            let i = choose|i: int|
                0 <= i < s.len() - 1 && is_cjk(#[trigger] s[i]) && is_cjk(s[i + 1]) && t == seq![
                    s[i],
                    s[i + 1],
                ];
            if i < at {
                assert(front[i] == s[i] && front[i + 1] == s[i + 1]);
            } else {
                assert(all[before.len() as int] == pair);
            }
        }
    } else {
        assert(bigrams(s).len() == 0);
    }
}

/// Every ASCII word of a text is one of its terms, in lower case.
pub proof fn law_words_are_terms(a: Seq<char>, w: Seq<char>, b: Seq<char>)
    requires
        w.len() > 0,
        forall|i: int| 0 <= i < w.len() ==> is_ascii_alnum(#[trigger] w[i]),
        a.len() > 0 ==> !is_ascii_alnum(a.last()),
        b.len() > 0 ==> !is_ascii_alnum(b[0]),
    ensures
        term_list(a + w + b).contains(ascii_lower(w)),
{
    let s = a + w + b;
    let class = CharClass::NotAsciiAlnum;
    law_words_are_pieces(a, w, b, class);
    let p = |x: Seq<char>| x.len() > 0;
    lemma_filter_contains(pieces(s, class), p, w);
    let words = nonempty(pieces(s, class));
    assert(words.contains(w));
    let i = choose|i: int| 0 <= i < words.len() && words[i] == w;
    assert(term_list(s)[i] == ascii_lower(w));
}

/// A name means the files of exactly that name, whatever the case of its letters,
/// where there are any; only where there are none, those whose stems hold its
/// stem.
pub proof fn law_exact_names_come_first(chunks: Seq<ChunkView>, name: Seq<char>, k: int)
    requires
        0 <= k < chunks.len(),
        file_name_spec(chunks[k].source) matches Some(n) && ascii_lower(n) == ascii_lower(name),
    ensures
        named_sources(chunks, name).contains(chunks[k].source),
        forall|i: int|
            0 <= i < named_sources(chunks, name).len() ==> (file_name_spec(
                #[trigger] named_sources(chunks, name)[i],
            ) matches Some(n) && ascii_lower(n) == ascii_lower(name)),
{
    let p = is_named(name);
    let kept = chunks.filter(p);
    lemma_filter_contains(chunks, p, chunks[k]);
    assert(chunks.contains(chunks[k]));
    assert(kept.contains(chunks[k]));
    let j = choose|j: int| 0 <= j < kept.len() && kept[j] == chunks[k];
    let found = named_sources(chunks, name);
    assert(found[j] == chunks[k].source);
    crate::seqs::lemma_filter_holds(chunks, p);
    assert forall|i: int| 0 <= i < found.len() implies (file_name_spec(
        #[trigger] found[i],
    ) matches Some(n) && ascii_lower(n) == ascii_lower(name)) by {
        assert(found[i] == kept[i].source);
        assert(p(kept[i]));
    }
}

/// The chunks of a named document come in their order, and none is passed over
/// within the limit.
pub proof fn law_documents_are_read_from_the_front(
    chunks: Seq<ChunkView>,
    name: Seq<char>,
    limit: int,
    i: int,
)
    requires
        0 <= limit,
        0 <= i < document_results(chunks, name, limit).len(),
    ensures
        ({
            let all = chunks.filter(
                |c: ChunkView| in_sources(c.source, Some(named_sources(chunks, name))),
            );
            &&& document_results(chunks, name, limit)[i].chunk == all[i]
            &&& document_results(chunks, name, limit).len() == if all.len() < limit {
                all.len() as int
            } else {
                limit
            }
        }),
{
    let list = named_sources(chunks, name);
    assert(crate::rag::store::from_sources(list) =~= (|c: ChunkView|
        in_sources(c.source, Some(list))));
}

/// Documents are cut one after the other: the chunks of two collections together
/// are those of the one and then those of the other.
pub proof fn law_collections_add_up(
    a: Seq<SourceDocument>,
    b: Seq<SourceDocument>,
    d: SourceDocument,
    size: int,
    overlap: int,
)
    ensures
        all_chunks(a + b, size, overlap) == all_chunks(a, size, overlap) + all_chunks(
            b,
            size,
            overlap,
        ),
        all_chunks(seq![d], size, overlap) == document_chunks(d, size, overlap),
    decreases b.len(),
{
    assert(seq![d].drop_last() =~= Seq::empty());
    assert(all_chunks(Seq::<SourceDocument>::empty(), size, overlap) =~= Seq::empty());
    assert(all_chunks(seq![d], size, overlap) =~= document_chunks(d, size, overlap));
    if b.len() == 0 {
        assert(a + b =~= a);
        assert(all_chunks(a, size, overlap) + all_chunks(b, size, overlap) =~= all_chunks(
            a,
            size,
            overlap,
        ));
    } else {
        law_collections_add_up(a, b.drop_last(), d, size, overlap);
        assert((a + b).drop_last() =~= a + b.drop_last());
        assert(all_chunks(a + b, size, overlap) =~= all_chunks(a, size, overlap) + all_chunks(
            b,
            size,
            overlap,
        ));
    }
}

/// A question for a chapter is none for the outline, and one that holds a word
/// for it and names no chapter is.
pub proof fn law_outlines_are_asked_for_by_words(query: Seq<char>, k: int)
    requires
        0 <= k < outline_words().len(),
    ensures
        chapter_spec(query) is Some ==> !outline_spec(query),
        chapter_spec(query) is None && has_text(query, outline_words()[k]@) ==> outline_spec(query),
        chapter_spec(query) is None && has_text(ascii_lower(query), outline_words()[k]@)
            ==> outline_spec(query),
{
}

proof fn lemma_extension_found(head: Seq<char>, n: int, rest: Seq<char>)
    requires
        0 <= n,
        head.len() == n + 5,
        head.skip(n) == ".docx"@,
        forall|j: int| 0 <= j < n ==> !occurs_at(ascii_lower(head), ".docx"@, j),
    ensures
        find_from(ascii_lower(head + rest), ".docx"@, 0) == Some(n),
{
    reveal_strlit(".docx");
    let q = head + rest;
    let low = ascii_lower(q);
    let short = ascii_lower(head);
    assert forall|k: int| 0 <= k < 5 implies low[n + k] == ".docx"@[k] by {
        assert(head[n + k] == head.skip(n)[k]);
    }
    assert(low.subrange(n, n + 5) =~= ".docx"@);
    assert(occurs_at(low, ".docx"@, n));
    lemma_find_from(low, ".docx"@, 0);
    let i = find_from(low, ".docx"@, 0)->0;
    if i < n {
        assert(short.subrange(i, i + 5) =~= low.subrange(i, i + 5));
        assert(occurs_at(short, ".docx"@, i));
    }
}

proof fn lemma_last_slash(dir: Seq<char>, name: Seq<char>)
    requires
        !name.contains('/'),
    ensures
        rfind_from(dir + seq!['/'] + name, "/"@, (dir + seq!['/'] + name).len() as int) == Some(
            dir.len() as int,
        ),
{
    reveal_strlit("/");
    let head = dir + seq!['/'] + name;
    let at = dir.len() as int;
    assert(head.subrange(at, at + 1) =~= "/"@);
    assert(occurs_at(head, "/"@, at));
    assert forall|j: int| at < j <= head.len() implies !occurs_at(head, "/"@, j) by {
        if occurs_at(head, "/"@, j) {
            assert(head.subrange(j, j + 1)[0] == '/');
            assert(name[j - at - 1] == '/');
        }
    }
    crate::intent_laws::lemma_rfind(head, "/"@, head.len() as int, at);
}

/// A Word file that a question mentions is the component of the path that ends
/// with the extension.
pub proof fn law_mentioned_files_are_found(dir: Seq<char>, stem: Seq<char>, rest: Seq<char>)
    requires
        stem.len() > 0,
        !stem.contains('/'),
        !CharClass::Quote.holds(stem[0]),
        forall|j: int|
            0 <= j < dir.len() + 1 + stem.len() ==> !occurs_at(
                ascii_lower(dir + seq!['/'] + (stem + ".docx"@)),
                ".docx"@,
                j,
            ),
    ensures
        mentioned_spec(dir + seq!['/'] + (stem + ".docx"@) + rest) == Some(stem + ".docx"@),
{
    reveal_strlit(".docx");
    reveal_strlit("/");
    let name = stem + ".docx"@;
    let head = dir + seq!['/'] + name;
    let q = head + rest;
    let n = dir.len() as int + 1 + stem.len();
    assert(head.skip(n) =~= ".docx"@);
    lemma_extension_found(head, n, rest);
    assert(q.take(n + 5) =~= head);
    assert(!name.contains('/')) by {
        if name.contains('/') {
            let i = choose|i: int| 0 <= i < name.len() && name[i] == '/';
            if i < stem.len() {
                assert(stem[i] == '/');
            }
        }
    }
    lemma_last_slash(dir, name);
    assert(head.skip(dir.len() as int + 1) =~= name);
    assert(name[0] == stem[0] && name.last() == 'x');
    lemma_trim_nothing(name, CharClass::Quote);
}

/// A line of an outline with a number and a title behind it names that chapter.
pub proof fn law_outline_lines_name_their_chapter(n: nat, title: Seq<char>)
    requires
        n <= u32::MAX,
        title.len() > 0,
        !is_white(title[0]),
        !is_white(title.last()),
    ensures
        title_line(dec(n) + " "@ + title) == Some((n as u32, title)),
{
    reveal_strlit(" ");
    let digits = dec(n);
    let line = digits + " "@ + title;
    law_decimal_form_has_the_value(n);
    lemma_decimal_holds_digits(n, ' ');
    lemma_decimal_holds_digits(n, '+');
    assert(CharClass::Digit.holds(digits[0]));
    assert(digits[0] != '+');
    assert(line[0] == digits[0] && line.last() == title.last());
    lemma_trim_nothing(line, CharClass::White);
    let at = digits.len() as int;
    lemma_find_from(line, " "@, 0);
    assert(line.subrange(at, at + 1) =~= " "@);
    assert(occurs_at(line, " "@, at));
    let i = find_from(line, " "@, 0)->0;
    if i < at {
        assert(line.subrange(i, i + 1)[0] == ' ');
        assert(digits[i] == ' ');
    }
    assert(line.take(at) =~= digits);
    assert(line.skip(at + 1) =~= title);
    lemma_trim_nothing(title, CharClass::White);
}

/// The titles of an outline are those of its lines that name a chapter, in order.
pub proof fn law_outlines_hold_their_titles(a: Seq<Seq<char>>, line: Seq<char>)
    ensures
        titles_of(a.push(line)) == match title_line(line) {
            Some(t) => titles_of(a).push(t),
            None => titles_of(a),
        },
        titles_of(Seq::empty()).len() == 0,
{
    assert(a.push(line).drop_last() =~= a);
}

/// The best-known numbers for a score are those of the chunk, of all chunks, and
/// of the chunks with each shared term.
pub proof fn law_scores_are_made_of_counts(
    input: ScoreInput,
    chunks: Seq<ChunkView>,
    query: Seq<char>,
    i: int,
)
    requires
        0 <= i < chunks.len(),
        is_score_input(input, chunks, query, i),
    ensures
        input.documents == chunks.len(),
        input.terms == term_seq(chunks[i].text).len(),
        input.document_counts@.len() == query_term_seq(query).filter(
            |t: Seq<char>| term_seq(chunks[i].text).contains(t),
        ).len(),
        forall|k: int|
            0 <= k < input.document_counts@.len() ==> 1 <= #[trigger] input.document_counts@[k]
                <= chunks.len(),
{
    let q = query_term_seq(query);
    let text = term_seq(chunks[i].text);
    let lists = term_lists(chunks);
    assert(lists[i] == text);
    assert(has_term(text) =~= (|t: Seq<char>| text.contains(t)));
    let shared = shared_terms(q, text);
    let counts = input.document_counts@.map_values(|n: usize| n as nat);
    assert(counts.len() == shared.len());
    assert forall|k: int| 0 <= k < input.document_counts@.len() implies 1
        <= #[trigger] input.document_counts@[k] <= chunks.len() by {
        assert(counts[k] == lists_with(lists, shared[k]));
        crate::seqs::lemma_filter_holds(q, has_term(text));
        assert(has_term(text)(shared[k]));
        lemma_lists_with(lists, shared[k], i);
    }
}

proof fn lemma_lists_with(lists: Seq<Seq<Seq<char>>>, term: Seq<char>, i: int)
    requires
        0 <= i < lists.len(),
        lists[i].contains(term),
    ensures
        1 <= lists_with(lists, term) <= lists.len(),
    decreases lists.len(),
{
    lemma_lists_at_most(lists, term);
    if i < lists.len() - 1 {
        assert(lists.drop_last()[i] == lists[i]);
        lemma_lists_with(lists.drop_last(), term, i);
    }
}

proof fn lemma_lists_at_most(lists: Seq<Seq<Seq<char>>>, term: Seq<char>)
    ensures
        lists_with(lists, term) <= lists.len(),
    decreases lists.len(),
{
    if lists.len() > 0 {
        lemma_lists_at_most(lists.drop_last(), term);
    }
}

/// A request for a search needs a question of at most five hundred characters; the
/// white space around it does not count. A document that is named is the one to
/// search, and otherwise the one that the question mentions.
pub proof fn law_requests_hold_the_question(args: JsonView, raw: Seq<char>, name: Seq<char>)
    requires
        args.field("query"@) == Some(JsonView::Text(raw)),
    ensures
        request_spec(args) is Ok <==> 1 <= trim_spec(raw).len() <= 500,
        request_spec(args) matches Ok(q) ==> q.query == trim_spec(raw),
        args.field("document"@) == Some(JsonView::Text(name)) && trim_spec(name).len() > 0 ==> (
        request_spec(args) matches Ok(q) ==> q.document == Some(trim_spec(name))),
        args.field("document"@) is None ==> (request_spec(args) matches Ok(q) ==> q.document
            == mentioned_spec(trim_spec(raw))),
        request_spec(args) matches Err(o) ==> o.is_error,
{
}

/// Function words are never terms; every other word of the list of terms is one.
pub proof fn law_function_words_are_no_terms(text: Seq<char>, word: Seq<char>)
    ensures
        stopwords().contains(word) ==> !term_seq(text).contains(word),
        !stopwords().contains(word) ==> (term_seq(text).contains(word) <==> term_list(
            replace_pairs_spec(text, query_phrases()),
        ).contains(word)),
{
    law_terms_count_once(text);
    lemma_filter_contains(
        term_list(replace_pairs_spec(text, query_phrases())),
        is_content_word(),
        word,
    );
}

} // verus!
