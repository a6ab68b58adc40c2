//! What a search keeps.
use vstd::prelude::*;
use crate::rag::chunk::ChunkView;
use crate::rag::format::ResultView;
use crate::rag::query::chapter_spec;
use crate::rag::sources::lemma_path_order_turns;
use crate::rag::store::{at_most, chapter_chunks, in_document_results, in_sources, insert_ranked, is_contents, keyword_results, named_sources, ranked, ranks_before, search_results, store_titles, title_of_number};

verus! {

/// No result stands right behind one that it ranks before.
pub open spec fn is_ranked(s: Seq<ResultView>) -> bool {
    forall|i: int, j: int|
        0 <= i < s.len() && j == i + 1 && j < s.len() ==> !ranks_before(
            #[trigger] s[j],
            #[trigger] s[i],
        )
}

proof fn lemma_before_turns(a: ResultView, b: ResultView)
    ensures
        ranks_before(a, b) ==> !ranks_before(b, a),
{
    lemma_path_order_turns(a.chunk.source, b.chunk.source);
    lemma_path_order_turns(b.chunk.source, a.chunk.source);
}

proof fn lemma_ranked_cons(x: ResultView, s: Seq<ResultView>)
    requires
        is_ranked(s),
        s.len() > 0 ==> !ranks_before(s[0], x),
    ensures
        is_ranked(seq![x] + s),
{
    let r = seq![x] + s;
    assert forall|i: int, j: int| 0 <= i < r.len() && j == i + 1 && j < r.len() implies !ranks_before(
        #[trigger] r[j],
        #[trigger] r[i],
    ) by {
        assert(r[j] == s[j - 1]);
        if i > 0 {
            assert(r[i] == s[i - 1]);
        }
    }
}

proof fn lemma_insert_ranked(s: Seq<ResultView>, x: ResultView)
    requires
        is_ranked(s),
    ensures
        is_ranked(insert_ranked(s, x)),
        insert_ranked(s, x).len() == s.len() + 1,
        insert_ranked(s, x)[0] == x || s.len() > 0 && insert_ranked(s, x)[0] == s[0],
        insert_ranked(s, x).to_multiset() == s.to_multiset().insert(x),
    decreases s.len(),
{
    broadcast use vstd::seq_lib::group_to_multiset_ensures;

    if s.len() == 0 {
        assert(s =~= Seq::empty());
        assert(seq![x] =~= Seq::<ResultView>::empty().push(x));
    } else if ranks_before(x, s[0]) {
        lemma_before_turns(x, s[0]);
        lemma_ranked_cons(x, s);
        assert(seq![x] + s =~= s.insert(0, x));
    } else {
        let rest = s.skip(1);
        assert forall|i: int, j: int|
            0 <= i < rest.len() && j == i + 1 && j < rest.len() implies !ranks_before(
            #[trigger] rest[j],
            #[trigger] rest[i],
        ) by {
            assert(rest[j] == s[j + 1] && rest[i] == s[i + 1]);
        }
        lemma_insert_ranked(rest, x);
        let w = insert_ranked(rest, x);
        if rest.len() > 0 {
            assert(s[1] == rest[0]);
        }
        lemma_ranked_cons(s[0], w);
        assert(seq![s[0]] + w =~= w.insert(0, s[0]));
        assert(s =~= rest.insert(0, s[0]));
        assert(w.insert(0, s[0]).to_multiset() == w.to_multiset().insert(s[0]));
        assert(rest.to_multiset().insert(x).insert(s[0]) =~= rest.to_multiset().insert(
            s[0],
        ).insert(x));
    }
}

/// A keyword search hands its results back best first, ties by path and by
/// number.
pub proof fn law_keyword_results_are_ranked(
    chunks: Seq<ChunkView>,
    query: Seq<char>,
    limit: int,
    sources: Option<Seq<Seq<char>>>,
    scores: Seq<usize>,
)
    requires
        0 <= limit,
    ensures
        is_ranked(keyword_results(chunks, query, limit, sources, scores)),
        keyword_results(chunks, query, limit, sources, scores).len() <= limit,
{
    lemma_ranked(chunks, query, sources, scores);
    let all = ranked(chunks, query, sources, scores);
    let cut = at_most(all, limit);
    assert forall|i: int, j: int|
        0 <= i < cut.len() && j == i + 1 && j < cut.len() implies !ranks_before(
        #[trigger] cut[j],
        #[trigger] cut[i],
    ) by {
        assert(cut[i] == all[i] && cut[j] == all[j]);
    }
}

proof fn lemma_ranked(
    chunks: Seq<ChunkView>,
    query: Seq<char>,
    sources: Option<Seq<Seq<char>>>,
    scores: Seq<usize>,
)
    ensures
        is_ranked(ranked(chunks, query, sources, scores)),
    decreases chunks.len(),
{
    if chunks.len() > 0 {
        lemma_ranked(chunks.drop_last(), query, sources, scores);
        lemma_insert_ranked(
            ranked(chunks.drop_last(), query, sources, scores),
            ResultView { chunk: chunks.last(), score: scores[chunks.len() - 1] },
        );
    }
}

proof fn lemma_insert_keeps(s: Seq<ResultView>, x: ResultView, p: spec_fn(ResultView) -> bool)
    requires
        p(x),
        forall|i: int| 0 <= i < s.len() ==> p(#[trigger] s[i]),
    ensures
        forall|i: int| 0 <= i < insert_ranked(s, x).len() ==> p(#[trigger] insert_ranked(s, x)[i]),
    decreases s.len(),
{
    let r = insert_ranked(s, x);
    if s.len() == 0 {
    } else if ranks_before(x, s[0]) {
        assert forall|i: int| 0 <= i < r.len() implies p(#[trigger] r[i]) by {
            if i > 0 {
                assert(r[i] == s[i - 1]);
            }
        }
    } else {
        let rest = s.skip(1);
        assert forall|i: int| 0 <= i < rest.len() implies p(#[trigger] rest[i]) by {
            assert(rest[i] == s[i + 1]);
        }
        lemma_insert_keeps(rest, x, p);
        assert(p(s[0]));
        assert forall|i: int| 0 <= i < r.len() implies p(#[trigger] r[i]) by {
            if i > 0 {
                assert(r[i] == insert_ranked(rest, x)[i - 1]);
            }
        }
    }
}

pub open spec fn result_in(sources: Option<Seq<Seq<char>>>) -> spec_fn(ResultView) -> bool {
    |r: ResultView| in_sources(r.chunk.source, sources)
}

proof fn lemma_ranked_in_sources(
    chunks: Seq<ChunkView>,
    query: Seq<char>,
    sources: Option<Seq<Seq<char>>>,
    scores: Seq<usize>,
)
    ensures
        forall|i: int|
            0 <= i < ranked(chunks, query, sources, scores).len() ==> result_in(sources)(
                #[trigger] ranked(chunks, query, sources, scores)[i],
            ),
    decreases chunks.len(),
{
    if chunks.len() > 0 {
        lemma_ranked_in_sources(chunks.drop_last(), query, sources, scores);
        let x = ResultView { chunk: chunks.last(), score: scores[chunks.len() - 1] };
        if in_sources(x.chunk.source, sources) {
            lemma_insert_keeps(
                ranked(chunks.drop_last(), query, sources, scores),
                x,
                result_in(sources),
            );
        }
    }
}

/// A search in a named file finds chunks of that file only.
pub proof fn law_document_search_stays_in_the_document(
    chunks: Seq<ChunkView>,
    name: Seq<char>,
    query: Seq<char>,
    limit: int,
    scores: Seq<usize>,
)
    requires
        0 <= limit,
    ensures
        forall|i: int|
            0 <= i < in_document_results(chunks, name, query, limit, scores).len() ==> in_sources(
                (#[trigger] in_document_results(chunks, name, query, limit, scores)[i]).chunk.source,
                Some(named_sources(chunks, name)),
            ),
{
    let list = Some(named_sources(chunks, name));
    lemma_ranked_in_sources(chunks, query, list, scores);
    let all = ranked(chunks, query, list, scores);
    let found = in_document_results(chunks, name, query, limit, scores);
    assert forall|i: int| 0 <= i < found.len() implies in_sources(
        (#[trigger] found[i]).chunk.source,
        list,
    ) by {
        assert(found[i] == all[i]);
        assert(result_in(list)(all[i]));
    }
}

/// The chunks of a chapter never include an outline, and are at most as many
/// as asked for.
pub proof fn law_chapter_has_no_outline(
    chunks: Seq<ChunkView>,
    titles: Seq<(u32, Seq<char>)>,
    title: Seq<char>,
    started: bool,
    limit: int,
)
    requires
        limit >= 1,
    ensures
        chapter_chunks(chunks, titles, title, started, limit).len() <= limit,
        forall|i: int|
            0 <= i < chapter_chunks(chunks, titles, title, started, limit).len() ==> !is_contents(
                (#[trigger] chapter_chunks(chunks, titles, title, started, limit)[i]).chunk,
            ),
    decreases chunks.len(),
{
    if chunks.len() > 0 {
        let rest = chunks.skip(1);
        law_chapter_has_no_outline(rest, titles, title, started, limit);
        law_chapter_has_no_outline(rest, titles, title, false, limit);
        if limit > 1 {
            law_chapter_has_no_outline(rest, titles, title, true, limit - 1);
        }
        let r = chapter_chunks(chunks, titles, title, started, limit);
        let tail = chapter_chunks(rest, titles, title, true, limit - 1);
        assert forall|i: int| 0 <= i < r.len() implies !is_contents((#[trigger] r[i]).chunk) by {
            if i > 0 && r =~= seq![r[0]] + tail {
                assert(r[i] == tail[i - 1]);
            }
        }
    }
}

/// A search never finds more than it was asked for, whatever the question.
pub proof fn law_search_stays_within_the_limit(
    chunks: Seq<ChunkView>,
    query: Seq<char>,
    limit: int,
    scores: Seq<usize>,
)
    requires
        0 <= limit,
    ensures
        search_results(chunks, query, limit, scores).len() <= limit,
{
    law_keyword_results_are_ranked(chunks, query, limit, None, scores);
    if limit >= 1 {
        if let Some(n) = chapter_spec(query) {
            let titles = store_titles(chunks);
            if let Some(title) = title_of_number(titles, n as u32) {
                law_chapter_has_no_outline(chunks, titles, title, false, limit);
            }
        }
    }
}

} // verus!
