//! The knowledge base: chapters, keyword search and file lookup.
use vstd::prelude::*;
use crate::paths::{file_name, file_name_spec, order_paths, path_order, same_path, same_path_spec, split_extension, stem_and_extension, Order};
use crate::rag::chunk::{chunk_document, chunks_view, document_chunks, split_document, Chunk, ChunkView, SourceDocument};
use crate::rag::format::{format_within, formatted, results_view, ResultView, SearchResult};
use crate::rag::query::{chapter_spec, is_outline_query, outline_spec, requested_chapter_number};
use crate::rag::store_laws::law_search_stays_within_the_limit;
use crate::rag::terms::{is_expanded, minimum_relevance_score, minimum_score, query_term_seq, query_terms, term_seq, terms};
use crate::seqs::{lemma_filter_empty, lemma_filter_step};
use crate::text::chars::{alphanumeric, ascii_lower, byte_len, char_lowercase, chars_of, is_alphanumeric, lemma_views_push, lower_of_char, member, same, same_ignoring_case, utf8_len, view_opt, views};
use crate::text::number::{number_spec, parse_number};
use crate::text::pieces::{lines, lines_spec, trim, trim_spec};
use crate::text::search::{after_prefix, contains, halves, has_prefix, has_text, split_once, starts_with, strip_prefix};

verus! {

/// The chunks of a collection of documents.
pub struct RagStore {
    chunks: Vec<Chunk>,
}

impl View for RagStore {
    type V = Seq<ChunkView>;

    closed spec fn view(&self) -> Seq<ChunkView> {
        chunks_view(self.chunks@)
    }
}

/// A chunk that holds a document's outline.
pub open spec fn is_contents(c: ChunkView) -> bool {
    has_prefix(c.text, "# Contents"@)
}

/// Whether a chunk holds a document's outline.
pub fn is_contents_chunk(c: &Chunk) -> (r: bool)
    ensures
        r == is_contents(c@),
{
    starts_with(&c.text, "# Contents")
}

/// The number and the title of a line of an outline.
pub open spec fn title_line(line: Seq<char>) -> Option<(u32, Seq<char>)> {
    match halves(trim_spec(line), " "@) {
        Some((number, title)) => match number_spec(number, u32::MAX as nat) {
            Some(n) => Some((n as u32, trim_spec(title))),
            None => None,
        },
        None => None,
    }
}

/// The numbered titles of an outline's lines.
pub open spec fn titles_of(list: Seq<Seq<char>>) -> Seq<(u32, Seq<char>)>
    decreases list.len(),
{
    if list.len() == 0 {
        Seq::empty()
    } else {
        let before = titles_of(list.drop_last());
        match title_line(list.last()) {
            Some(t) => before.push(t),
            None => before,
        }
    }
}

pub open spec fn titles_view(v: Seq<(u32, String)>) -> Seq<(u32, Seq<char>)> {
    v.map_values(|t: (u32, String)| (t.0, t.1@))
}

/// The numbered titles of an outline.
pub fn numbered_chapter_titles(outline: &str) -> (r: Vec<(u32, String)>)
    ensures
        titles_view(r@) == titles_of(lines_spec(outline@)),
{
    let list = lines(outline);
    let ghost all = views(list@);
    let mut r: Vec<(u32, String)> = Vec::new();
    assert(titles_view(r@) =~= titles_of(all.take(0)));
    for i in 0..list.len()
        invariant
            all == views(list@),
            titles_view(r@) == titles_of(all.take(i as int)),
    {
        assert(all.take(i + 1).drop_last() =~= all.take(i as int));
        assert(all.take(i + 1).last() == list@[i as int]@);
        let line = trim(&list[i]);
        if let Some(pair) = split_once(&line, " ") {
            if let Some(n) = parse_number(&pair.0, u32::MAX as u64) {
                let title = (n as u32, trim(&pair.1));
                assert(titles_view(r@.push(title)) =~= titles_view(r@).push((title.0, title.1@)));
                r.push(title);
            }
        }
    }
    assert(all.take(list@.len() as int) =~= all);
    r
}

/// The titles of the first outline among the chunks.
pub open spec fn store_titles(chunks: Seq<ChunkView>) -> Seq<(u32, Seq<char>)>
    decreases chunks.len(),
{
    if chunks.len() == 0 {
        Seq::empty()
    } else if is_contents(chunks[0]) {
        titles_of(lines_spec(chunks[0].text))
    } else {
        store_titles(chunks.skip(1))
    }
}

/// One of two titles begins with the other.
pub open spec fn titles_agree(a: Seq<char>, b: Seq<char>) -> bool {
    a == b || has_prefix(a, b) || has_prefix(b, a)
}

fn agree(a: &str, b: &str) -> (r: bool)
    ensures
        r == titles_agree(a@, b@),
{
    same(a, b) || starts_with(a, b) || starts_with(b, a)
}

pub open spec fn is_known_title(heading: Seq<char>, titles: Seq<(u32, Seq<char>)>) -> bool {
    exists|i: int| 0 <= i < titles.len() && titles_agree(heading, (#[trigger] titles[i]).1)
}

/// The heading with which a chunk opens a chapter of the outline.
pub open spec fn chapter_heading(c: ChunkView, titles: Seq<(u32, Seq<char>)>) -> Option<Seq<char>> {
    let list = lines_spec(c.text);
    if list.len() == 0 {
        None
    } else {
        match after_prefix(list[0], "# "@) {
            None => None,
            Some(first) => {
                let heading = trim_spec(first);
                if has_prefix(first, "#"@) || !is_known_title(heading, titles) {
                    None
                } else {
                    Some(heading)
                }
            },
        }
    }
}

fn chapter_heading_of(c: &Chunk, titles: &Vec<(u32, String)>) -> (r: Option<String>)
    ensures
        view_opt(r) == chapter_heading(c@, titles_view(titles@)),
{
    let list = lines(&c.text);
    if list.len() == 0 {
        return None;
    }
    assert(views(list@)[0] == list@[0]@);
    let first = match strip_prefix(&list[0], "# ") {
        Some(t) => t,
        None => {
            return None;
        },
    };
    if starts_with(&first, "#") {
        return None;
    }
    let heading = trim(&first);
    let ghost all = titles_view(titles@);
    for i in 0..titles.len()
        invariant
            all == titles_view(titles@),
            forall|j: int| 0 <= j < i ==> !titles_agree(heading@, (#[trigger] all[j]).1),
            view_opt(Some(first)) == after_prefix(lines_spec(c@.text)[0], "# "@),
            lines_spec(c@.text).len() > 0,
            heading@ == trim_spec(first@),
            !has_prefix(first@, "#"@),
    {
        assert(all[i as int].1 == titles@[i as int].1@);
        if agree(&heading, &titles[i].1) {
            assert(titles_agree(heading@, all[i as int].1));
            return Some(heading);
        }
    }
    None
}

/// The title of a chapter number.
pub open spec fn title_of_number(titles: Seq<(u32, Seq<char>)>, number: u32) -> Option<Seq<char>>
    decreases titles.len(),
{
    if titles.len() == 0 {
        None
    } else if titles[0].0 == number {
        Some(titles[0].1)
    } else {
        title_of_number(titles.skip(1), number)
    }
}

/// The chunks of a chapter: from the one whose heading agrees with the title
/// up to the next chapter heading, at most `limit`. Outlines do not count.
pub open spec fn chapter_chunks(
    chunks: Seq<ChunkView>,
    titles: Seq<(u32, Seq<char>)>,
    title: Seq<char>,
    started: bool,
    limit: int,
) -> Seq<ResultView>
    decreases chunks.len(),
{
    if chunks.len() == 0 {
        Seq::empty()
    } else {
        let c = chunks[0];
        let heading = chapter_heading(c, titles);
        let begins = heading is Some && titles_agree(heading->0, title);
        if is_contents(c) {
            chapter_chunks(chunks.skip(1), titles, title, started, limit)
        } else if started && heading is Some {
            Seq::empty()
        } else if !started && !begins {
            chapter_chunks(chunks.skip(1), titles, title, false, limit)
        } else if limit <= 1 {
            seq![ResultView { chunk: c, score: 100 }]
        } else {
            seq![ResultView { chunk: c, score: 100 }] + chapter_chunks(
                chunks.skip(1),
                titles,
                title,
                true,
                limit - 1,
            )
        }
    }
}

/// The chunks of the chapter of that number.
pub open spec fn chapter_results(chunks: Seq<ChunkView>, number: u32, limit: int) -> Seq<
    ResultView,
> {
    let titles = store_titles(chunks);
    match title_of_number(titles, number) {
        Some(title) => chapter_chunks(chunks, titles, title, false, limit),
        None => Seq::empty(),
    }
}

/// The terms of a question that a document has.
pub open spec fn shared_terms(query: Seq<Seq<char>>, document: Seq<Seq<char>>) -> Seq<Seq<char>> {
    query.filter(has_term(document))
}

pub open spec fn has_term(document: Seq<Seq<char>>) -> spec_fn(Seq<char>) -> bool {
    |t: Seq<char>| document.contains(t)
}

/// Whether a chunk that shares `matched` of the question's terms is relevant:
/// it has to share the minimum, and a fifth of the question's terms or, where
/// English terms were added, two of them.
pub open spec fn is_relevant(matched: nat, query_len: nat, expanded: bool) -> bool {
    let minimum = if expanded {
        2
    } else {
        minimum_score(query_len)
    };
    matched >= minimum && (expanded && matched >= 2 || matched * 5 >= query_len)
}

/// A path among those of a list.
pub open spec fn is_listed(source: Seq<char>, list: Seq<Seq<char>>) -> bool {
    exists|i: int| 0 <= i < list.len() && #[trigger] same_path_spec(source, list[i])
}

/// A source among the given ones; without any given, every source.
pub open spec fn in_sources(source: Seq<char>, sources: Option<Seq<Seq<char>>>) -> bool {
    match sources {
        Some(list) => is_listed(source, list),
        None => true,
    }
}

/// `a` comes before `b` in a ranking: by score, then by path and number.
pub open spec fn ranks_before(a: ResultView, b: ResultView) -> bool {
    a.score > b.score || (a.score == b.score && match path_order(a.chunk.source, b.chunk.source) {
        Order::Less => true,
        Order::Equal => a.chunk.index < b.chunk.index,
        Order::Greater => false,
    })
}

/// A ranking with one more result, behind those it does not come before.
pub open spec fn insert_ranked(s: Seq<ResultView>, x: ResultView) -> Seq<ResultView>
    decreases s.len(),
{
    if s.len() == 0 {
        seq![x]
    } else if ranks_before(x, s[0]) {
        seq![x] + s
    } else {
        seq![s[0]] + insert_ranked(s.skip(1), x)
    }
}

/// The relevant chunks, ranked by the given scores.
pub open spec fn ranked(
    chunks: Seq<ChunkView>,
    query: Seq<char>,
    sources: Option<Seq<Seq<char>>>,
    scores: Seq<usize>,
) -> Seq<ResultView>
    decreases chunks.len(),
{
    if chunks.len() == 0 {
        Seq::empty()
    } else {
        let before = ranked(chunks.drop_last(), query, sources, scores);
        let c = chunks.last();
        let q = query_term_seq(query);
        let matched = shared_terms(q, term_seq(c.text)).len();
        if in_sources(c.source, sources) && is_relevant(matched, q.len(), is_expanded(query)) {
            insert_ranked(before, ResultView { chunk: c, score: scores[chunks.len() - 1] })
        } else {
            before
        }
    }
}

pub open spec fn at_most<A>(s: Seq<A>, n: int) -> Seq<A> {
    if s.len() <= n {
        s
    } else {
        s.take(n)
    }
}

/// The best `limit` relevant chunks.
pub open spec fn keyword_results(
    chunks: Seq<ChunkView>,
    query: Seq<char>,
    limit: int,
    sources: Option<Seq<Seq<char>>>,
    scores: Seq<usize>,
) -> Seq<ResultView> {
    at_most(ranked(chunks, query, sources, scores), limit)
}

/// The position of the result for a chunk.
pub open spec fn position_of(results: Seq<ResultView>, c: ChunkView) -> Option<int>
    decreases results.len(),
{
    if results.len() == 0 {
        None
    } else if same_path_spec(results[0].chunk.source, c.source) && results[0].chunk.index
        == c.index {
        Some(0)
    } else {
        match position_of(results.skip(1), c) {
            Some(i) => Some(i + 1),
            None => None,
        }
    }
}

/// The results with an outline in front: moved there where it was found, and
/// otherwise added with a score above the best.
pub open spec fn outline_first(results: Seq<ResultView>, c: ChunkView) -> Seq<ResultView> {
    match position_of(results, c) {
        Some(i) => seq![results[i]] + results.remove(i),
        None => seq![
            ResultView {
                chunk: c,
                score: if results.len() > 0 {
                    results[0].score.saturating_add(1)
                } else {
                    1
                },
            },
        ] + results,
    }
}

/// The results with the outlines of `chunks` in front, in their order.
pub open spec fn outlines_first(chunks: Seq<ChunkView>, results: Seq<ResultView>) -> Seq<ResultView>
    decreases chunks.len(),
{
    if chunks.len() == 0 {
        results
    } else if is_contents(chunks.last()) {
        outlines_first(chunks.drop_last(), outline_first(results, chunks.last()))
    } else {
        outlines_first(chunks.drop_last(), results)
    }
}

pub open spec fn has_contents(chunks: Seq<ChunkView>) -> bool {
    exists|i: int| 0 <= i < chunks.len() && is_contents(#[trigger] chunks[i])
}

/// What a search finds, at most `limit` results. A question for a chapter
/// finds its chunks; any other question, and one for a chapter that there is
/// not, finds the chunks that share its keywords. A question for the outline
/// has the outlines in front.
pub open spec fn search_results(
    chunks: Seq<ChunkView>,
    query: Seq<char>,
    limit: int,
    scores: Seq<usize>,
) -> Seq<ResultView> {
    let chapter = match chapter_spec(query) {
        Some(n) => chapter_results(chunks, n as u32, limit),
        None => Seq::empty(),
    };
    if limit <= 0 {
        Seq::empty()
    } else if chapter.len() > 0 {
        chapter
    } else {
        let found = keyword_results(chunks, query, limit, None, scores);
        if outline_spec(query) && has_contents(chunks) {
            at_most(outlines_first(chunks, found), limit)
        } else {
            found
        }
    }
}

/// A text's letters and digits in lower case.
pub open spec fn plain_name(s: Seq<char>) -> Seq<char>
    decreases s.len(),
{
    if s.len() == 0 {
        Seq::empty()
    } else if is_alphanumeric(s.last()) {
        plain_name(s.drop_last()) + char_lowercase(s.last())
    } else {
        plain_name(s.drop_last())
    }
}

/// The stem of a file name, its letters and digits in lower case.
pub open spec fn stem_key(name: Seq<char>) -> Seq<char> {
    plain_name(
        match file_name_spec(name) {
            Some(n) => stem_and_extension(n).0,
            None => name,
        },
    )
}

/// The stem of a file name, its letters and digits in lower case.
pub fn normalized_file_stem(name: &str) -> (r: String)
    ensures
        r@ == stem_key(name@),
{
    let stem = match file_name(name) {
        Some(n) => split_extension(&n).0,
        None => name.to_owned(),
    };
    let mut r = String::new();
    assert(r@ =~= plain_name(stem@.take(0)));
    let c = chars_of(&stem);
    for i in 0..c.len()
        invariant
            c@ == stem@,
            r@ == plain_name(stem@.take(i as int)),
    {
        assert(stem@.take(i + 1).drop_last() =~= stem@.take(i as int));
        if alphanumeric(c[i]) {
            r.append(lower_of_char(c[i]).as_str());
        }
    }
    assert(stem@.take(stem@.len() as int) =~= stem@);
    r
}

/// A chunk of a file of exactly that name, but for the case of ASCII letters.
pub open spec fn is_named(name: Seq<char>) -> spec_fn(ChunkView) -> bool {
    |c: ChunkView|
        file_name_spec(c.source) is Some && ascii_lower(file_name_spec(c.source)->0) == ascii_lower(
            name,
        )
}

/// A chunk of a file whose stem holds the stem of that name.
pub open spec fn is_named_like(name: Seq<char>) -> spec_fn(ChunkView) -> bool {
    |c: ChunkView|
        file_name_spec(c.source) is Some && has_text(
            stem_key(file_name_spec(c.source)->0),
            stem_key(name),
        )
}

pub open spec fn sources_where(chunks: Seq<ChunkView>, p: spec_fn(ChunkView) -> bool) -> Seq<
    Seq<char>,
> {
    chunks.filter(p).map_values(|c: ChunkView| c.source)
}

/// The sources that a file name means: those of exactly that name, else those
/// whose stem holds its stem, which then has to have four bytes or more.
pub open spec fn named_sources(chunks: Seq<ChunkView>, name: Seq<char>) -> Seq<Seq<char>> {
    let exact = sources_where(chunks, is_named(name));
    if exact.len() > 0 {
        exact
    } else if byte_len(stem_key(name)) < 4 {
        Seq::empty()
    } else {
        sources_where(chunks, is_named_like(name))
    }
}

pub open spec fn from_sources(list: Seq<Seq<char>>) -> spec_fn(ChunkView) -> bool {
    |c: ChunkView| in_sources(c.source, Some(list))
}

/// The first chunks of the files of that name.
pub open spec fn document_results(chunks: Seq<ChunkView>, name: Seq<char>, limit: int) -> Seq<
    ResultView,
> {
    at_most(chunks.filter(from_sources(named_sources(chunks, name))), limit).map_values(
        |c: ChunkView| ResultView { chunk: c, score: 0 },
    )
}

/// What a keyword search in the files of that name finds.
pub open spec fn in_document_results(
    chunks: Seq<ChunkView>,
    name: Seq<char>,
    query: Seq<char>,
    limit: int,
    scores: Seq<usize>,
) -> Seq<ResultView> {
    let list = named_sources(chunks, name);
    if list.len() == 0 {
        Seq::empty()
    } else {
        keyword_results(chunks, query, limit, Some(list), scores)
    }
}

proof fn lemma_results_push(v: Seq<SearchResult>, x: SearchResult)
    ensures
        results_view(v.push(x)) == results_view(v).push(x@),
{
    assert(results_view(v.push(x)) =~= results_view(v).push(x@));
}

fn before(a: &SearchResult, b: &SearchResult) -> (r: bool)
    ensures
        r == ranks_before(a@, b@),
{
    if a.score != b.score {
        return a.score > b.score;
    }
    match order_paths(&a.chunk.source, &b.chunk.source) {
        Order::Less => true,
        Order::Equal => a.chunk.index < b.chunk.index,
        Order::Greater => false,
    }
}

fn add_ranked(results: &mut Vec<SearchResult>, x: SearchResult)
    ensures
        results_view(final(results)@) == insert_ranked(results_view(old(results)@), x@),
{
    let ghost all = results_view(results@);
    let mut i: usize = 0;
    assert(all.skip(0) =~= all);
    assert(all.take(0) + insert_ranked(all, x@) =~= insert_ranked(all, x@));
    while i < results.len() && !before(&x, &results[i])
        invariant
            i <= results@.len(),
            all == results_view(results@),
            results@ == old(results)@,
            insert_ranked(all, x@) == all.take(i as int) + insert_ranked(all.skip(i as int), x@),
        decreases results@.len() - i,
    {
        let ghost rest = all.skip(i as int);
        proof {
            assert(rest[0] == results@[i as int]@);
            assert(rest.skip(1) =~= all.skip(i + 1));
            assert(all.take(i as int) + (seq![rest[0]] + insert_ranked(rest.skip(1), x@))
                =~= all.take(i + 1) + insert_ranked(all.skip(i + 1), x@));
        }
        i += 1;
    }
    proof {
        let rest = all.skip(i as int);
        if rest.len() > 0 {
            assert(rest[0] == results@[i as int]@);
        }
        assert(insert_ranked(rest, x@) =~= seq![x@] + rest);
        assert(results_view(results@.insert(i as int, x)) =~= all.take(i as int) + (seq![x@]
            + rest));
    }
    results.insert(i, x);
}

fn among(source: &str, sources: &Vec<String>) -> (r: bool)
    ensures
        r == in_sources(source@, Some(views(sources@))),
{
    let ghost list = views(sources@);
    for i in 0..sources.len()
        invariant
            list == views(sources@),
            forall|j: int| 0 <= j < i ==> !#[trigger] same_path_spec(source@, list[j]),
    {
        assert(list[i as int] == sources@[i as int]@);
        if same_path(source, &sources[i]) {
            assert(same_path_spec(source@, list[i as int]));
            return true;
        }
    }
    false
}

fn count_shared(query: &Vec<String>, document: &Vec<String>) -> (r: usize)
    ensures
        r == shared_terms(views(query@), views(document@)).len(),
{
    let ghost q = views(query@);
    let ghost p = has_term(views(document@));
    let mut n: usize = 0;
    proof {
        lemma_filter_empty(q, p);
    }
    for i in 0..query.len()
        invariant
            q == views(query@),
            p == has_term(views(document@)),
            n <= i,
            n == q.take(i as int).filter(p).len(),
    {
        proof {
            lemma_filter_step(q, i as int, p);
        }
        if member(document, &query[i]) {
            n += 1;
        }
    }
    assert(q.take(query@.len() as int) =~= q);
    n
}

fn relevant(matched: usize, query_len: usize, expanded: bool) -> (r: bool)
    ensures
        r == is_relevant(matched as nat, query_len as nat, expanded),
{
    let minimum: usize = if expanded {
        2
    } else {
        minimum_relevance_score(query_len)
    };
    let fifth: usize = query_len / 5 + if query_len % 5 > 0 {
        1
    } else {
        0
    };
    assert(matched >= fifth <==> matched * 5 >= query_len) by (nonlinear_arith)
        requires
            fifth == query_len / 5 + (if query_len % 5 > 0 {
                1int
            } else {
                0
            }),
    ;
    matched >= minimum && ((expanded && matched >= 2) || matched >= fifth)
}

/// Why a knowledge base cannot be built.
#[derive(Clone, Debug, PartialEq)]
pub enum RagError {
    /// The chunk size is not larger than the overlap.
    InvalidChunking,
    /// A remote document is larger than two mebibytes.
    TooLarge,
    /// A remote document is no UTF-8 text.
    NotUtf8,
}

impl RagError {
    pub open spec fn text(self, url: Seq<char>) -> Seq<char> {
        match self {
            RagError::InvalidChunking => "chunk_chars 必须大于 overlap_chars，且不能为 0"@,
            RagError::TooLarge => "远端文档超过 2 MiB 限制: "@ + url,
            RagError::NotUtf8 => "远端文档不是 UTF-8 文本 "@ + url,
        }
    }

    /// The message shown for the error, about the document at `url`.
    pub fn message(&self, url: &str) -> (r: String)
        ensures
            r@ == self.text(url@),
    {
        match self {
            RagError::InvalidChunking => "chunk_chars 必须大于 overlap_chars，且不能为 0".to_owned(),
            RagError::TooLarge => {
                let mut t = "远端文档超过 2 MiB 限制: ".to_owned();
                t.append(url);
                t
            },
            RagError::NotUtf8 => {
                let mut t = "远端文档不是 UTF-8 文本 ".to_owned();
                t.append(url);
                t
            },
        }
    }
}

/// Whether documents can be cut so.
pub open spec fn chunking_ok(chunk_chars: usize, overlap_chars: usize) -> bool {
    overlap_chars < chunk_chars
}

/// The chunks of documents, one after the other.
pub open spec fn all_chunks(docs: Seq<SourceDocument>, size: int, overlap: int) -> Seq<ChunkView>
    decreases docs.len(),
{
    if docs.len() == 0 {
        Seq::empty()
    } else {
        all_chunks(docs.drop_last(), size, overlap) + document_chunks(docs.last(), size, overlap)
    }
}

/// The most bytes that a remote document may have.
pub const REMOTE_LIMIT: u64 = 2097152;

/// `String::from_utf8`: the text that the bytes encode, where they are UTF-8.
#[verifier::external_body]
fn text_of_bytes(bytes: Vec<u8>) -> (r: Option<String>)
    ensures
        match r {
            Some(t) => vstd::utf8::encode_utf8(t@) == bytes@,
            None => !vstd::utf8::valid_utf8(bytes@),
        },
{
    String::from_utf8(bytes).ok()
}

/// What the score of a chunk is computed from: the number of chunks and of
/// all their terms, the number of the chunk's own terms, and for each term
/// that it shares with the question the number of chunks that have it.
#[derive(Clone, Debug, PartialEq)]
pub struct ScoreInput {
    pub documents: usize,
    pub total_terms: u128,
    pub terms: usize,
    pub document_counts: Vec<usize>,
}

pub open spec fn term_lists(chunks: Seq<ChunkView>) -> Seq<Seq<Seq<char>>> {
    chunks.map_values(|c: ChunkView| term_seq(c.text))
}

/// The number of all terms.
pub open spec fn sum_of_terms(lists: Seq<Seq<Seq<char>>>) -> nat
    decreases lists.len(),
{
    if lists.len() == 0 {
        0
    } else {
        sum_of_terms(lists.drop_last()) + lists.last().len()
    }
}

/// The number of term lists that hold a term.
pub open spec fn lists_with(lists: Seq<Seq<Seq<char>>>, term: Seq<char>) -> nat
    decreases lists.len(),
{
    if lists.len() == 0 {
        0
    } else {
        lists_with(lists.drop_last(), term) + if lists.last().contains(term) {
            1nat
        } else {
            0
        }
    }
}

/// The counts of the terms that a question shares with a chunk.
pub open spec fn shared_counts(
    query: Seq<Seq<char>>,
    lists: Seq<Seq<Seq<char>>>,
    document: Seq<Seq<char>>,
) -> Seq<nat> {
    shared_terms(query, document).map_values(|t: Seq<char>| lists_with(lists, t))
}

/// The input for the score of chunk `i`.
pub open spec fn is_score_input(
    input: ScoreInput,
    chunks: Seq<ChunkView>,
    query: Seq<char>,
    i: int,
) -> bool {
    let lists = term_lists(chunks);
    &&& input.documents == chunks.len()
    &&& input.total_terms == sum_of_terms(lists)
    &&& input.terms == lists[i].len()
    &&& input.document_counts@.map_values(|n: usize| n as nat) == shared_counts(
        query_term_seq(query),
        lists,
        lists[i],
    )
}

pub open spec fn lists_view(v: Seq<Vec<String>>) -> Seq<Seq<Seq<char>>> {
    v.map_values(|l: Vec<String>| views(l@))
}

fn count_lists_with(lists: &Vec<Vec<String>>, term: &str) -> (r: usize)
    ensures
        r == lists_with(lists_view(lists@), term@),
{
    let ghost all = lists_view(lists@);
    let mut n: usize = 0;
    assert(all.take(0) =~= Seq::empty());
    for i in 0..lists.len()
        invariant
            all == lists_view(lists@),
            n <= i,
            n == lists_with(all.take(i as int), term@),
    {
        assert(all.take(i + 1).drop_last() =~= all.take(i as int));
        assert(all.take(i + 1).last() == views(lists@[i as int]@));
        if member(&lists[i], term) {
            n += 1;
        }
    }
    assert(all.take(lists@.len() as int) =~= all);
    n
}

fn sum_terms(lists: &Vec<Vec<String>>) -> (r: u128)
    ensures
        r == sum_of_terms(lists_view(lists@)),
{
    let ghost all = lists_view(lists@);
    let mut n: u128 = 0;
    let total: usize = lists.len();
    assert(all.take(0) =~= Seq::empty());
    for i in 0..total
        invariant
            total == lists@.len(),
            all == lists_view(lists@),
            n <= i * 0xffff_ffff_ffff_ffff,
            n == sum_of_terms(all.take(i as int)),
    {
        assert(all.take(i + 1).drop_last() =~= all.take(i as int));
        assert(all.take(i + 1).last() == views(lists@[i as int]@));
        let more: usize = lists[i].len();
        assert(n + more <= (i + 1) * 0xffff_ffff_ffff_ffff && (i + 1) * 0xffff_ffff_ffff_ffff
            <= u128::MAX) by (nonlinear_arith)
            requires
                n <= i * 0xffff_ffff_ffff_ffff,
                more <= 0xffff_ffff_ffff_ffff,
                0 <= i < 0xffff_ffff_ffff_ffff,
        ;
        n = n + more as u128;
    }
    assert(all.take(total as int) =~= all);
    n
}

fn copy_where(chunks: &Vec<Chunk>, name: &str, like: bool) -> (r: Vec<String>)
    ensures
        views(r@) == sources_where(
            chunks_view(chunks@),
            if like {
                is_named_like(name@)
            } else {
                is_named(name@)
            },
        ),
{
    let ghost all = chunks_view(chunks@);
    let ghost p = if like {
        is_named_like(name@)
    } else {
        is_named(name@)
    };
    let ghost f = |c: ChunkView| c.source;
    let wanted = normalized_file_stem(name);
    let mut r: Vec<String> = Vec::new();
    proof {
        lemma_filter_empty(all, p);
        assert(views(r@) =~= all.take(0).filter(p).map_values(f));
    }
    for i in 0..chunks.len()
        invariant
            all == chunks_view(chunks@),
            wanted@ == stem_key(name@),
            p == if like {
                is_named_like(name@)
            } else {
                is_named(name@)
            },
            f == (|c: ChunkView| c.source),
            views(r@) == all.take(i as int).filter(p).map_values(f),
    {
        proof {
            lemma_filter_step(all, i as int, p);
            assert(all[i as int] == chunks@[i as int]@);
        }
        let hit = match file_name(&chunks[i].source) {
            Some(n) => if like {
                contains(&normalized_file_stem(&n), &wanted)
            } else {
                same_ignoring_case(&n, name)
            },
            None => false,
        };
        assert(hit == p(all[i as int]));
        if hit {
            let source = chunks[i].source.clone();
            proof {
                lemma_views_push(r@, source);
                let done = all.take(i as int).filter(p);
                assert(done.push(all[i as int]).map_values(f) =~= done.map_values(f).push(
                    source@,
                ));
            }
            r.push(source);
        }
    }
    assert(all.take(chunks@.len() as int) =~= all);
    r
}

impl RagStore {
    /// A store over chunks that were cut before.
    pub fn from_chunks(chunks: Vec<Chunk>) -> (r: RagStore)
        ensures
            r@ == chunks_view(chunks@),
    {
        RagStore { chunks }
    }

    /// The chunks of the store.
    pub fn chunks(&self) -> (r: &Vec<Chunk>)
        ensures
            chunks_view(r@) == self@,
    {
        &self.chunks
    }

    /// A store over the documents of a directory, in the order given.
    pub fn from_dir(documents: &Vec<SourceDocument>, chunk_chars: usize, overlap_chars: usize) -> (r:
        Result<RagStore, RagError>)
        ensures
            match r {
                Ok(store) => chunking_ok(chunk_chars, overlap_chars) && store@ == all_chunks(
                    documents@,
                    chunk_chars as int,
                    overlap_chars as int,
                ),
                Err(e) => !chunking_ok(chunk_chars, overlap_chars) && e
                    == RagError::InvalidChunking,
            },
    {
        if chunk_chars == 0 || overlap_chars >= chunk_chars {
            return Err(RagError::InvalidChunking);
        }
        let ghost (size, overlap) = (chunk_chars as int, overlap_chars as int);
        let mut chunks: Vec<Chunk> = Vec::new();
        assert(documents@.take(0) =~= Seq::empty());
        assert(chunks_view(chunks@) =~= Seq::empty());
        for i in 0..documents.len()
            invariant
                overlap_chars < chunk_chars,
                size == chunk_chars,
                overlap == overlap_chars,
                chunks_view(chunks@) == all_chunks(documents@.take(i as int), size, overlap),
        {
            assert(documents@.take(i + 1).drop_last() =~= documents@.take(i as int));
            let mut more = chunk_document(&documents[i], chunk_chars, overlap_chars);
            assert(chunks_view(chunks@ + more@) =~= chunks_view(chunks@) + chunks_view(more@));
            chunks.append(&mut more);
        }
        assert(documents@.take(documents@.len() as int) =~= documents@);
        Ok(RagStore { chunks })
    }

    /// Whether a remote document may be fetched, given the length that the
    /// server announced.
    pub fn accepts_remote(declared: Option<u64>) -> (r: bool)
        ensures
            r == !(declared is Some && declared->0 > REMOTE_LIMIT),
    {
        match declared {
            Some(n) => n <= REMOTE_LIMIT,
            None => true,
        }
    }

    /// Adds a remote document to the store. `declared` is the length that the
    /// server announced, `bytes` what it sent.
    pub fn add_remote(
        &mut self,
        url: &str,
        declared: Option<u64>,
        bytes: Vec<u8>,
        chunk_chars: usize,
        overlap_chars: usize,
    ) -> (r: Result<(), RagError>)
        ensures
            match r {
                Ok(_) => {
                    &&& chunking_ok(chunk_chars, overlap_chars)
                    &&& !(declared is Some && declared->0 > REMOTE_LIMIT)
                    &&& bytes@.len() <= REMOTE_LIMIT
                    &&& exists|text: Seq<char>|
                        #![trigger vstd::utf8::encode_utf8(text)]
                        vstd::utf8::encode_utf8(text) == bytes@ && final(self)@ == old(self)@
                            + crate::rag::chunk::numbered(
                            url@,
                            crate::rag::chunk::chunk_texts(
                                text,
                                chunk_chars as int,
                                overlap_chars as int,
                            ),
                            0,
                        )
                },
                Err(e) => {
                    &&& final(self)@ == old(self)@
                    &&& e == if !chunking_ok(chunk_chars, overlap_chars) {
                        RagError::InvalidChunking
                    } else if declared is Some && declared->0 > REMOTE_LIMIT || bytes@.len()
                        > REMOTE_LIMIT {
                        RagError::TooLarge
                    } else {
                        RagError::NotUtf8
                    }
                    &&& e == RagError::NotUtf8 ==> !vstd::utf8::valid_utf8(bytes@)
                },
            },
    {
        if chunk_chars == 0 || overlap_chars >= chunk_chars {
            return Err(RagError::InvalidChunking);
        }
        if !RagStore::accepts_remote(declared) {
            return Err(RagError::TooLarge);
        }
        if bytes.len() as u64 > REMOTE_LIMIT {
            return Err(RagError::TooLarge);
        }
        match text_of_bytes(bytes) {
            Some(text) => {
                let mut more = split_document(url, &text, chunk_chars, overlap_chars);
                assert(chunks_view(self.chunks@ + more@) =~= chunks_view(self.chunks@)
                    + chunks_view(more@));
                self.chunks.append(&mut more);
                assert(vstd::utf8::encode_utf8(text@) == bytes@);
                Ok(())
            },
            None => Err(RagError::NotUtf8),
        }
    }

    /// The number of chunks.
    pub fn len(&self) -> (r: usize)
        ensures
            r == self@.len(),
    {
        self.chunks.len()
    }

    /// Whether there is no chunk.
    pub fn is_empty(&self) -> (r: bool)
        ensures
            r == (self@.len() == 0),
    {
        self.chunks.len() == 0
    }

    fn numbered_chapter_titles(&self) -> (r: Vec<(u32, String)>)
        ensures
            titles_view(r@) == store_titles(self@),
    {
        let ghost all = self@;
        assert(all.skip(0) =~= all);
        for i in 0..self.chunks.len()
            invariant
                all == self@,
                store_titles(all) == store_titles(all.skip(i as int)),
        {
            assert(all.skip(i as int)[0] == self.chunks@[i as int]@);
            assert(all.skip(i as int).skip(1) =~= all.skip(i + 1));
            if is_contents_chunk(&self.chunks[i]) {
                return numbered_chapter_titles(&self.chunks[i].text);
            }
        }
        let r: Vec<(u32, String)> = Vec::new();
        assert(titles_view(r@) =~= Seq::empty());
        r
    }

    /// The chunks of the chapter of that number, at most `limit`, which is at
    /// least one.
    fn search_chapter(&self, number: u32, limit: usize) -> (r: Vec<SearchResult>)
        requires
            limit >= 1,
        ensures
            results_view(r@) == chapter_results(self@, number, limit as int),
    {
        let titles = self.numbered_chapter_titles();
        let ghost known = titles_view(titles@);
        let mut found: Option<usize> = None;
        let mut k: usize = 0;
        assert(known.skip(0) =~= known);
        while k < titles.len() && found.is_none()
            invariant
                k <= titles@.len(),
                known == titles_view(titles@),
                match found {
                    Some(j) => j < titles@.len() && title_of_number(known, number) == Some(
                        titles@[j as int].1@,
                    ),
                    None => title_of_number(known, number) == title_of_number(
                        known.skip(k as int),
                        number,
                    ),
                },
            decreases titles@.len() - k,
        {
            assert(known.skip(k as int)[0] == (titles@[k as int].0, titles@[k as int].1@));
            assert(known.skip(k as int).skip(1) =~= known.skip(k + 1));
            if titles[k].0 == number {
                found = Some(k);
            }
            k += 1;
        }
        let mut results: Vec<SearchResult> = Vec::new();
        assert(results_view(results@) =~= Seq::empty());
        let title = match found {
            Some(j) => titles[j].1.clone(),
            None => {
                return results;
            },
        };
        let ghost all = self@;
        let ghost whole = chapter_chunks(all, known, title@, false, limit as int);
        let mut started = false;
        assert(all.skip(0) =~= all);
        assert(results_view(results@) + whole =~= whole);
        for i in 0..self.chunks.len()
            invariant
                all == self@,
                known == titles_view(titles@),
                results@.len() < limit,
                whole == chapter_results(all, number, limit as int),
                whole == results_view(results@) + chapter_chunks(
                    all.skip(i as int),
                    known,
                    title@,
                    started,
                    limit - results@.len(),
                ),
        {
            let ghost rest = all.skip(i as int);
            let ghost got = results_view(results@);
            let c = &self.chunks[i];
            proof {
                assert(rest[0] == c@);
                assert(rest.skip(1) =~= all.skip(i + 1));
            }
            if !is_contents_chunk(c) {
                if let Some(heading) = chapter_heading_of(c, &titles) {
                    if started {
                        assert(got + Seq::<ResultView>::empty() =~= got);
                        return results;
                    }
                    if agree(&heading, &title) {
                        started = true;
                    }
                }
                if started {
                    let hit = SearchResult { chunk: c.copy(), score: 100 };
                    proof {
                        lemma_results_push(results@, hit);
                    }
                    results.push(hit);
                    if results.len() >= limit {
                        assert(got.push(hit@) =~= got + seq![hit@]);
                        return results;
                    }
                    proof {
                        let tail = chapter_chunks(
                            all.skip(i + 1),
                            known,
                            title@,
                            true,
                            limit - results@.len(),
                        );
                        assert(got.push(hit@) + tail =~= got + (seq![hit@] + tail));
                    }
                }
            }
        }
        assert(whole =~= results_view(results@));
        results
    }

    /// The relevant chunks by rank, at most `top_k`. `scores` holds a score
    /// for each chunk.
    fn search_keywords_in_sources(
        &self,
        query: &str,
        top_k: usize,
        sources: Option<&Vec<String>>,
        scores: &Vec<usize>,
    ) -> (r: Vec<SearchResult>)
        requires
            scores@.len() == self@.len(),
        ensures
            results_view(r@) == keyword_results(
                self@,
                query@,
                top_k as int,
                match sources {
                    Some(v) => Some(views(v@)),
                    None => None,
                },
                scores@,
            ),
    {
        let (wanted, expanded) = query_terms(query);
        let ghost all = self@;
        let ghost list = match sources {
            Some(v) => Some(views(v@)),
            None => None,
        };
        let mut results: Vec<SearchResult> = Vec::new();
        assert(results_view(results@) =~= ranked(all.take(0), query@, list, scores@));
        for i in 0..self.chunks.len()
            invariant
                all == self@,
                scores@.len() == all.len(),
                views(wanted@) == query_term_seq(query@),
                expanded == is_expanded(query@),
                list == match sources {
                    Some(v) => Some(views(v@)),
                    None => None,
                },
                results_view(results@) == ranked(all.take(i as int), query@, list, scores@),
        {
            let c = &self.chunks[i];
            proof {
                assert(all.take(i + 1).drop_last() =~= all.take(i as int));
                assert(all.take(i + 1).last() == c@);
            }
            let inside = match sources {
                Some(v) => among(&c.source, v),
                None => true,
            };
            let matched: usize = count_shared(&wanted, &terms(&c.text));
            if inside && relevant(matched, wanted.len(), expanded) {
                add_ranked(&mut results, SearchResult { chunk: c.copy(), score: scores[i] });
            }
        }
        assert(all.take(self.chunks@.len() as int) =~= all);
        if top_k < results.len() {
            let ghost full = results_view(results@);
            results.truncate(top_k);
            assert(results_view(results@) =~= full.take(top_k as int));
        }
        results
    }

    /// What the score of each chunk is computed from.
    pub fn score_inputs(&self, query: &str) -> (r: Vec<ScoreInput>)
        ensures
            r@.len() == self@.len(),
            forall|i: int|
                0 <= i < r@.len() ==> is_score_input(#[trigger] r@[i], self@, query@, i),
    {
        let wanted = query_terms(query).0;
        let ghost q = views(wanted@);
        let ghost want = term_lists(self@);
        let mut lists: Vec<Vec<String>> = Vec::new();
        for i in 0..self.chunks.len()
            invariant
                want == term_lists(self@),
                lists_view(lists@) =~= want.take(i as int),
        {
            let list = terms(&self.chunks[i].text);
            assert(self@[i as int] == self.chunks@[i as int]@);
            assert(lists_view(lists@.push(list)) =~= lists_view(lists@).push(views(list@)));
            assert(want.take(i + 1) =~= want.take(i as int).push(views(list@)));
            lists.push(list);
        }
        assert(want.take(self.chunks@.len() as int) =~= want);
        let mut counts: Vec<usize> = Vec::new();
        for i in 0..wanted.len()
            invariant
                q == views(wanted@),
                lists_view(lists@) == want,
                counts@.len() == i,
                forall|j: int|
                    0 <= j < i ==> #[trigger] counts@[j] as nat == lists_with(want, q[j]),
        {
            assert(q[i as int] == wanted@[i as int]@);
            counts.push(count_lists_with(&lists, &wanted[i]));
        }
        let total: u128 = sum_terms(&lists);
        let mut r: Vec<ScoreInput> = Vec::new();
        for i in 0..lists.len()
            invariant
                q == views(wanted@),
                q == query_term_seq(query@),
                lists_view(lists@) == want,
                want == term_lists(self@),
                want.len() == self@.len(),
                total == sum_of_terms(want),
                counts@.len() == q.len(),
                forall|j: int|
                    0 <= j < q.len() ==> #[trigger] counts@[j] as nat == lists_with(want, q[j]),
                r@.len() == i,
                forall|j: int| 0 <= j < i ==> is_score_input(#[trigger] r@[j], self@, query@, j),
        {
            let ghost document = want[i as int];
            assert(document == views(lists@[i as int]@));
            let ghost p = has_term(document);
            let ghost f = |t: Seq<char>| lists_with(want, t);
            let ghost g = |n: usize| n as nat;
            let mut shared: Vec<usize> = Vec::new();
            proof {
                lemma_filter_empty(q, p);
                assert(shared@.map_values(g) =~= q.take(0).filter(p).map_values(f));
            }
            for k in 0..wanted.len()
                invariant
                    q == views(wanted@),
                    p == has_term(document),
                    i < lists@.len(),
                    document == views(lists@[i as int]@),
                    f == (|t: Seq<char>| lists_with(want, t)),
                    g == (|n: usize| n as nat),
                    counts@.len() == q.len(),
                    forall|j: int|
                        0 <= j < q.len() ==> #[trigger] counts@[j] as nat == lists_with(
                            want,
                            q[j],
                        ),
                    shared@.map_values(g) == q.take(k as int).filter(p).map_values(f),
            {
                proof {
                    lemma_filter_step(q, k as int, p);
                    let done = q.take(k as int).filter(p);
                    assert(done.push(q[k as int]).map_values(f) =~= done.map_values(f).push(
                        lists_with(want, q[k as int]),
                    ));
                    assert(shared@.push(counts@[k as int]).map_values(g) =~= shared@.map_values(
                        g,
                    ).push(counts@[k as int] as nat));
                }
                if member(&lists[i], &wanted[k]) {
                    shared.push(counts[k]);
                }
            }
            assert(q.take(wanted@.len() as int) =~= q);
            let input = ScoreInput {
                documents: self.chunks.len(),
                total_terms: total,
                terms: lists[i].len(),
                document_counts: shared,
            };
            assert(is_score_input(input, self@, query@, i as int));
            r.push(input);
        }
        r
    }

    /// The sources that a file name means.
    pub fn document_sources(&self, name: &str) -> (r: Vec<String>)
        ensures
            views(r@) == named_sources(self@, name@),
    {
        let exact = copy_where(&self.chunks, name, false);
        if exact.len() > 0 {
            return exact;
        }
        let r: Vec<String> = Vec::new();
        assert(views(r@) =~= Seq::empty());
        if utf8_len(&normalized_file_stem(name)) < 4 {
            return r;
        }
        copy_where(&self.chunks, name, true)
    }

    /// The first chunks of the files of that name, at most `top_k`.
    pub fn search_document(&self, file_name: &str, top_k: usize) -> (r: Vec<SearchResult>)
        ensures
            results_view(r@) == document_results(self@, file_name@, top_k as int),
    {
        let sources = self.document_sources(file_name);
        let ghost all = self@;
        let ghost p = from_sources(views(sources@));
        let ghost f = |c: ChunkView| ResultView { chunk: c, score: 0 };
        let mut r: Vec<SearchResult> = Vec::new();
        let mut i: usize = 0;
        proof {
            lemma_filter_empty(all, p);
            assert(results_view(r@) =~= at_most(all.take(0).filter(p), top_k as int).map_values(
                f,
            ));
        }
        while i < self.chunks.len()
            invariant
                i <= self.chunks@.len(),
                all == self@,
                p == from_sources(views(sources@)),
                f == (|c: ChunkView| ResultView { chunk: c, score: 0 }),
                results_view(r@) == at_most(
                    all.take(i as int).filter(p),
                    top_k as int,
                ).map_values(f),
            decreases self.chunks@.len() - i,
        {
            let ghost done = all.take(i as int).filter(p);
            proof {
                lemma_filter_step(all, i as int, p);
                assert(all[i as int] == self.chunks@[i as int]@);
                assert(results_view(r@).len() == r@.len());
            }
            if among(&self.chunks[i].source, &sources) {
                if r.len() < top_k {
                    let hit = SearchResult { chunk: self.chunks[i].copy(), score: 0 };
                    proof {
                        lemma_results_push(r@, hit);
                        assert(done.push(all[i as int]).map_values(f) =~= done.map_values(f).push(
                            hit@,
                        ));
                    }
                    r.push(hit);
                } else {
                    assert(at_most(done.push(all[i as int]), top_k as int) =~= at_most(
                        done,
                        top_k as int,
                    ));
                }
            }
            i += 1;
        }
        assert(all.take(self.chunks@.len() as int) =~= all);
        r
    }

    /// What a keyword search in the files of that name finds.
    pub fn search_in_document(
        &self,
        file_name: &str,
        query: &str,
        top_k: usize,
        scores: &Vec<usize>,
    ) -> (r: Vec<SearchResult>)
        requires
            scores@.len() == self@.len(),
        ensures
            results_view(r@) == in_document_results(
                self@,
                file_name@,
                query@,
                top_k as int,
                scores@,
            ),
    {
        let sources = self.document_sources(file_name);
        if sources.len() == 0 {
            let r: Vec<SearchResult> = Vec::new();
            assert(results_view(r@) =~= Seq::empty());
            return r;
        }
        self.search_keywords_in_sources(query, top_k, Some(&sources), scores)
    }
}

fn find_result(results: &Vec<SearchResult>, c: &Chunk) -> (r: Option<usize>)
    ensures
        match r {
            Some(i) => i < results@.len() && position_of(results_view(results@), c@) == Some(
                i as int,
            ),
            None => position_of(results_view(results@), c@) is None,
        },
{
    let ghost all = results_view(results@);
    assert(all.skip(0) =~= all);
    for i in 0..results.len()
        invariant
            all == results_view(results@),
            position_of(all, c@) == match position_of(all.skip(i as int), c@) {
                Some(k) => Some(k + i),
                None => None,
            },
    {
        assert(all.skip(i as int)[0] == results@[i as int]@);
        assert(all.skip(i as int).skip(1) =~= all.skip(i + 1));
        if results[i].chunk.index == c.index && same_path(&results[i].chunk.source, &c.source) {
            return Some(i);
        }
    }
    None
}

fn put_outline_first(results: &mut Vec<SearchResult>, c: &Chunk)
    ensures
        results_view(final(results)@) == outline_first(results_view(old(results)@), c@),
{
    let ghost all = results_view(results@);
    match find_result(results, c) {
        Some(i) => {
            let hit = results.remove(i);
            results.insert(0, hit);
            assert(results_view(results@) =~= seq![all[i as int]] + all.remove(i as int));
        },
        None => {
            let score: usize = if results.len() > 0 {
                results[0].score.saturating_add(1)
            } else {
                1
            };
            let hit = SearchResult { chunk: c.copy(), score };
            results.insert(0, hit);
            assert(results_view(results@) =~= seq![hit@] + all);
        },
    }
}

impl RagStore {
    /// The outlines of the store in front of the results, at most `top_k` in
    /// all; without an outline the results stay as they are.
    fn prepend_contents_chunks(&self, results: &mut Vec<SearchResult>, top_k: usize)
        ensures
            results_view(final(results)@) == if has_contents(self@) {
                at_most(outlines_first(self@, results_view(old(results)@)), top_k as int)
            } else {
                results_view(old(results)@)
            },
    {
        let ghost all = self@;
        let ghost start = results_view(results@);
        let mut any = false;
        let mut i: usize = self.chunks.len();
        assert(all.take(i as int) =~= all);
        while i > 0
            invariant
                i <= self.chunks@.len(),
                all == self@,
                start == results_view(old(results)@),
                outlines_first(all, start) == outlines_first(
                    all.take(i as int),
                    results_view(results@),
                ),
                any == exists|j: int| i <= j < all.len() && is_contents(#[trigger] all[j]),
                !any ==> results@ == old(results)@,
            decreases i,
        {
            i -= 1;
            assert(all.take(i + 1).drop_last() =~= all.take(i as int));
            assert(all.take(i + 1).last() == self.chunks@[i as int]@);
            assert(all[i as int] == self.chunks@[i as int]@);
            if is_contents_chunk(&self.chunks[i]) {
                put_outline_first(results, &self.chunks[i]);
                any = true;
            }
        }
        assert(all.take(0) =~= Seq::empty());
        if any && top_k < results.len() {
            let ghost full = results_view(results@);
            results.truncate(top_k);
            assert(results_view(results@) =~= full.take(top_k as int));
        }
    }

    /// Searches the store for at most `top_k` results. `scores` holds a score
    /// for each chunk.
    pub fn search(&self, query: &str, top_k: usize, scores: &Vec<usize>) -> (r: Vec<SearchResult>)
        requires
            scores@.len() == self@.len(),
        ensures
            results_view(r@) == search_results(self@, query@, top_k as int, scores@),
            r@.len() <= top_k,
    {
        proof {
            law_search_stays_within_the_limit(self@, query@, top_k as int, scores@);
        }
        if top_k == 0 {
            let none: Vec<SearchResult> = Vec::new();
            assert(results_view(none@) =~= Seq::empty());
            return none;
        }
        if let Some(number) = requested_chapter_number(query) {
            let found = self.search_chapter(number, top_k);
            assert(results_view(found@).len() == found@.len());
            if found.len() > 0 {
                return found;
            }
        }
        let mut results = self.search_keywords_in_sources(query, top_k, None, scores);
        if is_outline_query(query) {
            self.prepend_contents_chunks(&mut results, top_k);
        }
        assert(results_view(results@).len() == results@.len());
        results
    }

    /// The results as the text that a tool hands back.
    pub fn format_results(&self, results: &Vec<SearchResult>) -> (r: String)
        ensures
            r@ == formatted(results_view(results@), SEARCH_DOCS_MAX_RESULT_TOKENS as nat),
    {
        format_within(results, SEARCH_DOCS_MAX_RESULT_TOKENS)
    }

    /// The results as a text within a token budget. Results with the same
    /// content appear once.
    pub fn format_results_with_token_budget(
        &self,
        results: &Vec<SearchResult>,
        max_tokens: usize,
    ) -> (r: String)
        ensures
            r@ == formatted(results_view(results@), max_tokens as nat),
    {
        format_within(results, max_tokens)
    }

    /// A question with the material that it is to be answered from.
    pub fn build_prompt(&self, query: &str, top_k: usize, scores: &Vec<usize>) -> (r: String)
        requires
            scores@.len() == self@.len(),
        ensures
            r@ == grounded_prompt(
                query@,
                search_results(self@, query@, top_k as int, scores@),
            ),
    {
        let results = self.search(query, top_k, scores);
        self.build_prompt_from_results(query, &results)
    }

    /// A question with the given results to be answered from.
    pub fn build_prompt_from_results(&self, query: &str, results: &Vec<SearchResult>) -> (r: String)
        ensures
            r@ == grounded_prompt(query@, results_view(results@)),
    {
        let mut r =
            "请只根据下面的本地资料回答问题；资料不足时明确说不知道。\n\n本地资料：\n".to_owned();
        r.append(self.format_results(results).as_str());
        r.append("\n\n问题：");
        r.append(query);
        r
    }
}

/// The most tokens of the results that a tool hands back.
pub const SEARCH_DOCS_MAX_RESULT_TOKENS: usize = 2000;

/// A question with the material that it is to be answered from.
pub open spec fn grounded_prompt(query: Seq<char>, results: Seq<ResultView>) -> Seq<char> {
    "请只根据下面的本地资料回答问题；资料不足时明确说不知道。\n\n本地资料：\n"@ + formatted(
        results,
        SEARCH_DOCS_MAX_RESULT_TOKENS as nat,
    ) + "\n\n问题："@ + query
}

} // verus!
