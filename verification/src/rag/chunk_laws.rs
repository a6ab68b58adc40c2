//! What cutting a document into chunks keeps.
use vstd::prelude::*;
use crate::rag::chunk::{chunk_texts, document_chunks, heading1, pack, sections, slices, Packing, SourceDocument};
use crate::seqs::{lemma_filter_all, lemma_filter_concat, lemma_filter_contains, lemma_filter_holds, lemma_filter_none};
use crate::text::chars::{is_white, view_opt};
use crate::text::laws::{law_split_parts_make_the_text, law_trimming_cuts_the_ends, lemma_join_first, lemma_trim_nothing};
use crate::text::pieces::{lemma_trim_len, nonempty, trim_spec, CharClass};
use crate::text::search::{find_from, has_text, join_spec, lemma_find_from, occurs_at, split_spec};

verus! {

/// Every text is non-empty and has at most `size` characters.
pub open spec fn all_sized(texts: Seq<Seq<char>>, size: int) -> bool {
    forall|i: int| 0 <= i < texts.len() ==> 0 < (#[trigger] texts[i]).len() <= size
}

proof fn lemma_slices_sized(section: Seq<char>, start: int, size: int, overlap: int)
    requires
        0 <= overlap < size,
    ensures
        all_sized(slices(section, start, size, overlap), size),
    decreases section.len() - start,
{
    if 0 <= start < section.len() && section.len() - start > size {
        lemma_slices_sized(section, start + size - overlap, size, overlap);
    }
}

proof fn lemma_flush_sized(p: Packing, condition: bool, size: int)
    requires
        all_sized(p.done, size),
        p.current.len() <= size,
    ensures
        all_sized(p.flush_if(condition).done, size),
        p.flush_if(condition).current.len() <= size,
{
    lemma_trim_len(p.current, CharClass::White);
}

proof fn lemma_pack_sized(list: Seq<Seq<char>>, size: int, overlap: int)
    requires
        0 <= overlap < size,
        forall|i: int| 0 <= i < list.len() ==> (#[trigger] list[i]).len() > 0,
    ensures
        all_sized(pack(list, size, overlap).done, size),
        pack(list, size, overlap).current.len() <= size,
    decreases list.len(),
{
    if list.len() > 0 {
        let front = list.drop_last();
        let section = list.last();
        assert forall|i: int| 0 <= i < front.len() implies (#[trigger] front[i]).len() > 0 by {
            assert(list[i].len() > 0);
        }
        lemma_pack_sized(front, size, overlap);
        let before = pack(front, size, overlap);
        lemma_flush_sized(before, heading1(section), size);
        let opened = before.flush_if(heading1(section));
        if section.len() > size {
            lemma_flush_sized(opened, true, size);
            lemma_slices_sized(section, 0, size, overlap);
        } else {
            lemma_flush_sized(opened, opened.current.len() + 2 + section.len() > size, size);
            reveal_strlit("\n\n");
        }
    }
}

/// Every chunk holds text, and none is longer than the chunk size.
pub proof fn law_chunks_are_sized(text: Seq<char>, size: int, overlap: int)
    requires
        0 <= overlap < size,
    ensures
        all_sized(chunk_texts(text, size, overlap), size),
{
    let p = |s: Seq<char>| s.len() > 0;
    let parts = split_spec(text, "\n\n"@).map_values(|s: Seq<char>| trim_spec(s));
    lemma_filter_holds(parts, p);
    let list = sections(text);
    assert(list =~= parts.filter(p));
    assert forall|i: int| 0 <= i < list.len() implies (#[trigger] list[i]).len() > 0 by {
        assert(p(parts.filter(p)[i]));
    }
    lemma_pack_sized(list, size, overlap);
    lemma_flush_sized(pack(list, size, overlap), true, size);
}

/// The texts joined again, each but the first without the `overlap`
/// characters that repeat the end of the one before.
pub open spec fn rejoin(texts: Seq<Seq<char>>, overlap: int) -> Seq<char>
    decreases texts.len(),
{
    if texts.len() == 0 {
        Seq::empty()
    } else if texts.len() == 1 {
        texts[0]
    } else {
        texts[0] + rejoin(texts.skip(1), overlap).skip(overlap)
    }
}

/// Slicing a section loses nothing: without their overlaps the slices give
/// the section back.
pub proof fn law_slices_cover_the_section(section: Seq<char>, start: int, size: int, overlap: int)
    requires
        0 <= overlap < size,
        0 <= start < section.len(),
    ensures
        rejoin(slices(section, start, size, overlap), overlap) == section.skip(start),
        slices(section, start, size, overlap).len() > 0,
    decreases section.len() - start,
{
    if section.len() - start > size {
        let next = start + size - overlap;
        law_slices_cover_the_section(section, next, size, overlap);
        let rest = slices(section, next, size, overlap);
        let all = seq![section.subrange(start, start + size)] + rest;
        assert(all.skip(1) =~= rest);
        assert(all[0] + section.skip(next).skip(overlap) =~= section.skip(start));
    } else {
        assert(slices(section, start, size, overlap)[0] == section.skip(start));
    }
}

/// A heading of the first level opens a chunk of its own.
pub proof fn law_heading_opens_a_chunk(p: Packing, section: Seq<char>, size: int, overlap: int)
    requires
        heading1(section),
        section.len() <= size,
    ensures
        p.take_section(section, size, overlap).current == section,
{
}

/// A text that neither begins nor ends with white space.
pub open spec fn is_trimmed(s: Seq<char>) -> bool {
    s.len() > 0 && !is_white(s[0]) && !is_white(s.last())
}

pub open spec fn all_trimmed(list: Seq<Seq<char>>) -> bool {
    forall|i: int| 0 <= i < list.len() ==> is_trimmed(#[trigger] list[i])
}

proof fn lemma_sections_trimmed(text: Seq<char>)
    ensures
        all_trimmed(sections(text)),
        forall|i: int|
            0 <= i < sections(text).len() ==> !has_text(#[trigger] sections(text)[i], "\n\n"@),
{
    reveal_strlit("\n\n");
    let sep = "\n\n"@;
    let f = |s: Seq<char>| trim_spec(s);
    let raw = split_spec(text, sep);
    let parts = raw.map_values(f);
    let p = |s: Seq<char>| s.len() > 0;
    let list = sections(text);
    assert(list =~= parts.filter(p));
    law_split_parts_make_the_text(text, sep);
    assert forall|i: int| 0 <= i < list.len() implies is_trimmed(#[trigger] list[i]) && !has_text(
        list[i],
        sep,
    ) by {
        lemma_filter_contains(parts, p, list[i]);
        assert(parts.filter(p).contains(list[i]));
        let k = choose|k: int| 0 <= k < parts.len() && parts[k] == list[i];
        assert(list[i] == trim_spec(raw[k]));
        law_trimming_cuts_the_ends(raw[k], CharClass::White);
        if has_text(list[i], sep) {
            let at = choose|at: int| occurs_at(list[i], sep, at);
            let (a, b) = choose|a: int, b: int|
                0 <= a <= b <= raw[k].len() && #[trigger] raw[k].subrange(a, b) == list[i];
            assert(raw[k].subrange(a + at, a + at + sep.len()) =~= list[i].subrange(
                at,
                at + sep.len(),
            ));
            assert(occurs_at(raw[k], sep, a + at));
        }
    }
}

/// The chunks as they would be if the text ended here.
spec fn so_far(p: Packing) -> Seq<Seq<char>> {
    if p.current.len() > 0 {
        p.done.push(p.current)
    } else {
        p.done
    }
}

proof fn lemma_flush_keeps(p: Packing, condition: bool)
    requires
        p.current.len() > 0 ==> is_trimmed(p.current),
    ensures
        so_far(p.flush_if(condition)) == so_far(p),
        p.flush_if(true).done == so_far(p),
        p.flush_if(condition).current.len() > 0 ==> p.flush_if(condition) == p,
        condition ==> p.flush_if(condition).current.len() == 0,
{
    if p.current.len() > 0 {
        lemma_trim_nothing(p.current, CharClass::White);
    }
}

/// Where a section stands among the chunks: in the first of them at an offset,
/// or in slices from the first to the last of them.
pub struct Place {
    pub first: int,
    pub offset: int,
    pub last: int,
}

/// The section stands whole in one chunk, or is covered by slices where it is
/// longer than a chunk.
pub open spec fn stands_at(
    section: Seq<char>,
    chunks: Seq<Seq<char>>,
    p: Place,
    size: int,
    overlap: int,
) -> bool {
    &&& 0 <= p.first <= p.last < chunks.len()
    &&& 0 <= p.offset
    &&& if section.len() <= size {
        p.first == p.last && p.offset + section.len() <= chunks[p.first].len()
            && chunks[p.first].subrange(p.offset, p.offset + section.len()) == section
    } else {
        p.offset == 0 && rejoin(chunks.subrange(p.first, p.last + 1), overlap) == section
    }
}

/// A section of `len` characters at the one place ends before the other begins.
pub open spec fn ends_before(p: Place, len: int, q: Place, size: int) -> bool {
    p.last < q.first || (len <= size && p.last == q.first && p.offset + len < q.offset)
}

/// Every section has its place, and they keep their order.
pub open spec fn all_placed(
    list: Seq<Seq<char>>,
    chunks: Seq<Seq<char>>,
    places: Seq<Place>,
    size: int,
    overlap: int,
) -> bool {
    &&& places.len() == list.len()
    &&& forall|i: int|
        0 <= i < list.len() ==> stands_at(
            #[trigger] list[i],
            chunks,
            places[i],
            size,
            overlap,
        )
    &&& forall|i: int, j: int|
        #![trigger places[i], places[j]]
        0 <= i < j < list.len() ==> ends_before(places[i], list[i].len() as int, places[j], size)
}

/// A section shares the chunk of the one before it where both fit into one and
/// it is no heading of the first level; a heading opens a chunk.
pub open spec fn well_filled(
    list: Seq<Seq<char>>,
    chunks: Seq<Seq<char>>,
    places: Seq<Place>,
    size: int,
) -> bool {
    &&& forall|i: int|
        0 <= i < list.len() && heading1(#[trigger] list[i]) ==> places[i].offset == 0
    &&& forall|i: int, j: int|
        #![trigger list[i], list[j]]
        0 <= i && j == i + 1 && j < list.len() && list[i].len() <= size && list[j].len() <= size
            && !heading1(list[j]) && places[j].first != places[i].first
            ==> chunks[places[i].first].len() + 2 + list[j].len() > size
}

proof fn lemma_placed(list: Seq<Seq<char>>, size: int, overlap: int) -> (places: Seq<Place>)
    requires
        0 <= overlap < size,
        all_trimmed(list),
    ensures
        ({
            let p = pack(list, size, overlap);
            &&& all_placed(list, so_far(p), places, size, overlap)
            &&& well_filled(list, so_far(p), places, size)
            &&& p.current.len() > 0 ==> is_trimmed(p.current) && list.len() > 0
                && list.last().len() <= size && places.last().first == so_far(p).len() - 1
                && places.last().offset + list.last().len() == p.current.len()
            &&& p.current.len() == 0 && list.len() > 0 ==> list.last().len() > size
        }),
    decreases list.len(),
{
    reveal_strlit("\n\n");
    if list.len() == 0 {
        Seq::empty()
    } else {
        let front = list.drop_last();
        let section = list.last();
        let n = front.len() as int;
        assert forall|i: int| 0 <= i < front.len() implies is_trimmed(#[trigger] front[i]) by {
            assert(front[i] == list[i]);
        }
        assert(is_trimmed(list[n]));
        let before = lemma_placed(front, size, overlap);
        let p = pack(front, size, overlap);
        let old_chunks = so_far(p);
        lemma_flush_keeps(p, heading1(section));
        let opened = p.flush_if(heading1(section));
        let after = pack(list, size, overlap);
        let chunks = so_far(after);
        assert(after == p.take_section(section, size, overlap));
        if section.len() > size {
            lemma_flush_keeps(opened, true);
            law_slices_cover_the_section(section, 0, size, overlap);
            let parts = slices(section, 0, size, overlap);
            assert(chunks =~= old_chunks + parts);
            assert(section.skip(0) =~= section);
            assert(chunks.subrange(old_chunks.len() as int, chunks.len() as int) =~= parts);
            let places = before.push(
                Place { first: old_chunks.len() as int, offset: 0, last: chunks.len() - 1 },
            );
            assert(chunks.take(old_chunks.len() as int) =~= old_chunks);
            lemma_places_kept(front, old_chunks, chunks, before, size, overlap);
            assert forall|i: int| 0 <= i < list.len() implies stands_at(
                #[trigger] list[i],
                chunks,
                places[i],
                size,
                overlap,
            ) by {
                if i < n {
                    assert(front[i] == list[i]);
                }
            }
            assert forall|i: int, j: int|
                #![trigger places[i], places[j]]
                0 <= i < j < list.len() implies ends_before(
                places[i],
                list[i].len() as int,
                places[j],
                size,
            ) by {
                assert(front[i] == list[i]);
                assert(stands_at(front[i], old_chunks, before[i], size, overlap));
                if j < n {
                    assert(ends_before(before[i], front[i].len() as int, before[j], size));
                }
            }
            assert(places.drop_last() =~= before);
            lemma_filled_kept(list, old_chunks, chunks, before, places, size, overlap);
            places
        } else {
            let tight = opened.current.len() + 2 + section.len() > size;
            lemma_flush_keeps(opened, tight);
            let room = opened.flush_if(tight);
            if room.current.len() > 0 {
                assert(room == p);
                assert(!heading1(section));
                let at = old_chunks.len() - 1;
                let place = Place { first: at, offset: p.current.len() as int + 2, last: at };
                let places = before.push(place);
                assert(chunks == old_chunks.drop_last().push(p.current + "\n\n"@ + section));
                assert(chunks[at].subrange(place.offset, place.offset + section.len()) =~= section);
                assert(is_trimmed(after.current));
                assert forall|i: int| 0 <= i < list.len() implies stands_at(
                    #[trigger] list[i],
                    chunks,
                    places[i],
                    size,
                    overlap,
                ) by {
                    if i < n {
                        assert(front[i] == list[i]);
                        assert(stands_at(front[i], old_chunks, before[i], size, overlap));
                        let q = before[i];
                        if i < n - 1 {
                            assert(ends_before(before[i], front[i].len() as int, before[n - 1], size));
                        }
                        if front[i].len() <= size {
                            if q.first == at {
                                assert(chunks[at].subrange(q.offset, q.offset + front[i].len())
                                    =~= old_chunks[at].subrange(
                                    q.offset,
                                    q.offset + front[i].len(),
                                ));
                            }
                        } else {
                            assert(q.last < at);
                            assert(chunks.subrange(q.first, q.last + 1) =~= old_chunks.subrange(
                                q.first,
                                q.last + 1,
                            ));
                        }
                    }
                }
                assert forall|i: int, j: int|
                    #![trigger places[i], places[j]]
                    0 <= i < j < list.len() implies ends_before(
                    places[i],
                    list[i].len() as int,
                    places[j],
                    size,
                ) by {
                    assert(front[i] == list[i]);
                    assert(stands_at(front[i], old_chunks, before[i], size, overlap));
                    if j < n {
                        assert(ends_before(before[i], front[i].len() as int, before[j], size));
                    } else if i < n - 1 {
                        assert(ends_before(before[i], front[i].len() as int, before[n - 1], size));
                    }
                }
                assert forall|i: int| 0 <= i < list.len() && heading1(#[trigger] list[i]) implies places[i].offset
                    == 0 by {
                    assert(front[i] == list[i]);
                }
                assert forall|i: int, j: int|
                    #![trigger list[i], list[j]]
                    0 <= i && j == i + 1 && j < list.len() && list[i].len() <= size && list[j].len()
                        <= size && !heading1(list[j]) && places[j].first
                        != places[i].first implies chunks[places[i].first].len() + 2 + list[j].len()
                    > size by {
                    assert(front[i] == list[i]);
                    if j < n {
                        assert(front[j] == list[j]);
                        assert(ends_before(before[i], front[i].len() as int, before[j], size));
                        assert(stands_at(front[j], old_chunks, before[j], size, overlap));
                        assert(chunks[before[i].first] == old_chunks[before[i].first]);
                    }
                }
                places
            } else {
                assert(chunks == old_chunks.push(section));
                let at = old_chunks.len() as int;
                let place = Place { first: at, offset: 0, last: at };
                let places = before.push(place);
                assert(chunks[at].subrange(0, section.len() as int) =~= section);
                assert(chunks.take(old_chunks.len() as int) =~= old_chunks);
                lemma_places_kept(front, old_chunks, chunks, before, size, overlap);
                assert forall|i: int| 0 <= i < list.len() implies stands_at(
                    #[trigger] list[i],
                    chunks,
                    places[i],
                    size,
                    overlap,
                ) by {
                    if i < n {
                        assert(front[i] == list[i]);
                    }
                }
                assert forall|i: int, j: int|
                    #![trigger places[i], places[j]]
                    0 <= i < j < list.len() implies ends_before(
                    places[i],
                    list[i].len() as int,
                    places[j],
                    size,
                ) by {
                    assert(front[i] == list[i]);
                    assert(stands_at(front[i], old_chunks, before[i], size, overlap));
                    if j < n {
                        assert(ends_before(before[i], front[i].len() as int, before[j], size));
                    }
                }
                if !heading1(section) && n > 0 && front.last().len() <= size {
                    assert(opened == p);
                    assert(tight);
                    assert(chunks[before[n - 1].first] == p.current);
                }
                assert(places.drop_last() =~= before);
            lemma_filled_kept(list, old_chunks, chunks, before, places, size, overlap);
                places
            }
        }
    }
}

proof fn lemma_places_kept(
    list: Seq<Seq<char>>,
    chunks: Seq<Seq<char>>,
    more: Seq<Seq<char>>,
    places: Seq<Place>,
    size: int,
    overlap: int,
)
    requires
        all_placed(list, chunks, places, size, overlap),
        chunks.len() <= more.len(),
        more.take(chunks.len() as int) == chunks,
    ensures
        all_placed(list, more, places, size, overlap),
{
    assert forall|i: int| 0 <= i < list.len() implies stands_at(
        #[trigger] list[i],
        more,
        places[i],
        size,
        overlap,
    ) by {
        let q = places[i];
        assert(stands_at(list[i], chunks, q, size, overlap));
        assert(more.take(chunks.len() as int)[q.first] == more[q.first]);
        assert(more.subrange(q.first, q.last + 1) =~= chunks.subrange(q.first, q.last + 1)) by {
            assert forall|k: int| q.first <= k <= q.last implies more[k] == chunks[k] by {
                assert(more.take(chunks.len() as int)[k] == more[k]);
            }
        }
    }
}

proof fn lemma_filled_kept(
    list: Seq<Seq<char>>,
    chunks: Seq<Seq<char>>,
    more: Seq<Seq<char>>,
    before: Seq<Place>,
    places: Seq<Place>,
    size: int,
    overlap: int,
)
    requires
        list.len() > 0,
        all_placed(list.drop_last(), chunks, before, size, overlap),
        well_filled(list.drop_last(), chunks, before, size),
        chunks.len() <= more.len(),
        more.take(chunks.len() as int) == chunks,
        places.len() == list.len(),
        places.drop_last() == before,
        places.last().offset == 0,
        list.len() > 1 && list.last().len() <= size && list[list.len() - 2].len() <= size
            && !heading1(list.last()) ==> more[before.last().first].len() + 2 + list.last().len()
            > size,
    ensures
        well_filled(list, more, places, size),
{
    let front = list.drop_last();
    assert forall|i: int| 0 <= i < front.len() implies places[i] == before[i] by {
        assert(places.drop_last()[i] == places[i]);
    }
    assert forall|i: int| 0 <= i < list.len() && heading1(#[trigger] list[i]) implies places[i].offset
        == 0 by {
        if i < front.len() {
            assert(front[i] == list[i]);
        }
    }
    assert forall|i: int, j: int|
        #![trigger list[i], list[j]]
        0 <= i && j == i + 1 && j < list.len() && list[i].len() <= size && list[j].len() <= size
            && !heading1(list[j]) && places[j].first
            != places[i].first implies more[places[i].first].len() + 2 + list[j].len() > size by {
        assert(front[i] == list[i]);
        assert(stands_at(front[i], chunks, before[i], size, overlap));
        assert(more.take(chunks.len() as int)[before[i].first] == more[before[i].first]);
        if j < front.len() {
            assert(front[j] == list[j]);
        }
    }
}

/// Cutting a text into chunks loses none of it. Every section stands whole in a
/// chunk, or, where it is longer than a chunk, is covered by slices, which give
/// it back when joined without their overlaps. The sections keep their order. A
/// heading of the first level opens a chunk, and any other section shares the
/// chunk of the one before it unless they do not both fit.
pub proof fn law_chunks_hold_every_section(text: Seq<char>, size: int, overlap: int) -> (places:
    Seq<Place>)
    requires
        0 <= overlap < size,
    ensures
        all_placed(sections(text), chunk_texts(text, size, overlap), places, size, overlap),
        well_filled(sections(text), chunk_texts(text, size, overlap), places, size),
{
    lemma_sections_trimmed(text);
    let places = lemma_placed(sections(text), size, overlap);
    lemma_flush_keeps(pack(sections(text), size, overlap), true);
    places
}

/// A chunk that holds consecutive sections, with blank lines between them, or
/// a slice of a section that is longer than a chunk.
pub open spec fn made_of(chunk: Seq<char>, list: Seq<Seq<char>>, size: int) -> bool {
    ||| exists|a: int, b: int|
        0 <= a < b <= list.len() && chunk == join_spec(#[trigger] list.subrange(a, b), "\n\n"@)
    ||| exists|i: int, a: int, b: int|
        0 <= i < list.len() && list[i].len() > size && 0 <= a < b <= list[i].len() && chunk
            == #[trigger] list[i].subrange(a, b)
}

proof fn lemma_slice_of(section: Seq<char>, start: int, size: int, overlap: int)
    requires
        0 <= overlap < size,
        0 <= start,
    ensures
        forall|k: int|
            0 <= k < slices(section, start, size, overlap).len() ==> exists|a: int, b: int|
                0 <= a < b <= section.len() && #[trigger] section.subrange(a, b) == (
                #[trigger] slices(section, start, size, overlap)[k]),
    decreases section.len() - start,
{
    let list = slices(section, start, size, overlap);
    if start < section.len() {
        if section.len() - start > size {
            lemma_slice_of(section, start + size - overlap, size, overlap);
            let rest = slices(section, start + size - overlap, size, overlap);
            assert forall|k: int| 0 <= k < list.len() implies exists|a: int, b: int|
                0 <= a < b <= section.len() && #[trigger] section.subrange(a, b) == (
                #[trigger] list[k]) by {
                if k == 0 {
                    assert(list[0] == section.subrange(start, start + size));
                } else {
                    assert(list[k] == rest[k - 1]);
                }
            }
        } else {
            assert(section.subrange(start, section.len() as int) =~= list[0]);
        }
    }
}

proof fn lemma_made_of_more(chunk: Seq<char>, list: Seq<Seq<char>>, next: Seq<char>, size: int)
    requires
        made_of(chunk, list, size),
    ensures
        made_of(chunk, list.push(next), size),
{
    let more = list.push(next);
    if exists|a: int, b: int|
        0 <= a < b <= list.len() && chunk == join_spec(#[trigger] list.subrange(a, b), "\n\n"@) {
        let (a, b) = choose|a: int, b: int|
            0 <= a < b <= list.len() && chunk == join_spec(#[trigger] list.subrange(a, b), "\n\n"@);
        assert(more.subrange(a, b) =~= list.subrange(a, b));
    } else {
        let (i, a, b) = choose|i: int, a: int, b: int|
            0 <= i < list.len() && list[i].len() > size && 0 <= a < b <= list[i].len() && chunk
                == #[trigger] list[i].subrange(a, b);
        assert(more[i] == list[i]);
        assert(chunk == more[i].subrange(a, b));
    }
}

proof fn lemma_made_of(list: Seq<Seq<char>>, size: int, overlap: int) -> (open: int)
    requires
        0 <= overlap < size,
        all_trimmed(list),
    ensures
        ({
            let p = pack(list, size, overlap);
            &&& forall|c: int| 0 <= c < p.done.len() ==> made_of(#[trigger] p.done[c], list, size)
            &&& p.current.len() > 0 ==> 0 <= open < list.len() && is_trimmed(p.current)
                && p.current == join_spec(list.skip(open), "\n\n"@)
        }),
    decreases list.len(),
{
    reveal_strlit("\n\n");
    if list.len() == 0 {
        0
    } else {
        let front = list.drop_last();
        let section = list.last();
        assert forall|i: int| 0 <= i < front.len() implies is_trimmed(#[trigger] front[i]) by {
            assert(front[i] == list[i]);
        }
        assert(is_trimmed(list[list.len() - 1]));
        let start = lemma_made_of(front, size, overlap);
        let p = pack(front, size, overlap);
        let after = pack(list, size, overlap);
        assert(after == p.take_section(section, size, overlap));
        assert(front.push(section) =~= list);
        let all = so_far(p);
        lemma_flush_keeps(p, heading1(section));
        assert forall|c: int| 0 <= c < all.len() implies made_of(#[trigger] all[c], list, size) by {
            if c < p.done.len() {
                assert(all[c] == p.done[c]);
                lemma_made_of_more(all[c], front, section, size);
            } else {
                assert(front.subrange(start, front.len() as int) =~= front.skip(start));
                assert(made_of(all[c], front, size));
                lemma_made_of_more(all[c], front, section, size);
            }
        }
        let opened = p.flush_if(heading1(section));
        if section.len() > size {
            lemma_flush_keeps(opened, true);
            let parts = slices(section, 0, size, overlap);
            lemma_slice_of(section, 0, size, overlap);
            assert(after.done == all + parts);
            assert forall|c: int| 0 <= c < after.done.len() implies made_of(
                #[trigger] after.done[c],
                list,
                size,
            ) by {
                if c < all.len() {
                    assert(after.done[c] == all[c]);
                } else {
                    let k = c - all.len();
                    assert(after.done[c] == parts[k]);
                    let (a, b) = choose|a: int, b: int|
                        0 <= a < b <= section.len() && #[trigger] section.subrange(a, b)
                            == parts[k];
                    let i = list.len() - 1;
                    assert(list[i].subrange(a, b) == parts[k]);
                }
            }
            0
        } else {
            let tight = opened.current.len() + 2 + section.len() > size;
            lemma_flush_keeps(opened, tight);
            let room = opened.flush_if(tight);
            assert forall|c: int| 0 <= c < after.done.len() implies made_of(
                #[trigger] after.done[c],
                list,
                size,
            ) by {
                assert(after.done == room.done);
                assert(so_far(room)[c] == room.done[c]);
                assert(after.done[c] == all[c]);
            }
            if room.current.len() > 0 {
                assert(room == p);
                assert(list.skip(start).drop_last() =~= front.skip(start));
                assert(list.skip(start).last() == section);
                start
            } else {
                let last = list.len() - 1;
                assert(list.skip(last) =~= seq![section]);
                last
            }
        }
    }
}

/// Chunks hold nothing but the text: each holds consecutive sections with blank
/// lines between them, or a slice of a section that is longer than a chunk.
pub proof fn law_chunks_hold_nothing_else(text: Seq<char>, size: int, overlap: int)
    requires
        0 <= overlap < size,
    ensures
        forall|c: int|
            0 <= c < chunk_texts(text, size, overlap).len() ==> made_of(
                #[trigger] chunk_texts(text, size, overlap)[c],
                sections(text),
                size,
            ),
{
    lemma_sections_trimmed(text);
    let list = sections(text);
    let start = lemma_made_of(list, size, overlap);
    let p = pack(list, size, overlap);
    lemma_flush_keeps(p, true);
    let all = chunk_texts(text, size, overlap);
    assert forall|c: int| 0 <= c < all.len() implies made_of(#[trigger] all[c], list, size) by {
        if c < p.done.len() {
            assert(all[c] == p.done[c]);
        } else {
            assert(list.subrange(start, list.len() as int) =~= list.skip(start));
        }
    }
}

proof fn lemma_first_split(p: Seq<char>, rest: Seq<char>, sep: Seq<char>)
    requires
        sep == "\n\n"@,
        is_trimmed(p),
        !has_text(p, sep),
    ensures
        find_from(p + sep + rest, sep, 0) == Some(p.len() as int),
{
    reveal_strlit("\n\n");
    let s = p + sep + rest;
    let n = p.len() as int;
    lemma_find_from(s, sep, 0);
    assert(s.subrange(n, n + 2) =~= sep);
    assert(occurs_at(s, sep, n));
    let i = find_from(s, sep, 0)->0;
    if i < n {
        assert(s.subrange(i, i + 2)[0] == '\n');
        assert(s.subrange(i, i + 2)[1] == '\n');
        if i == n - 1 {
            assert(s[i] == p.last());
        } else {
            assert(p.subrange(i, i + 2) =~= s.subrange(i, i + 2));
            assert(occurs_at(p, sep, i));
        }
    }
}

proof fn lemma_split_joined(list: Seq<Seq<char>>)
    requires
        list.len() > 0,
        all_trimmed(list),
        forall|i: int| 0 <= i < list.len() ==> !has_text(#[trigger] list[i], "\n\n"@),
    ensures
        split_spec(join_spec(list, "\n\n"@), "\n\n"@) == list,
    decreases list.len(),
{
    reveal_strlit("\n\n");
    let sep = "\n\n"@;
    assert(is_trimmed(list[0]) && !has_text(list[0], sep));
    if list.len() == 1 {
        lemma_find_from(list[0], sep, 0);
        assert(split_spec(list[0], sep) =~= list);
    } else {
        let rest = list.skip(1);
        assert forall|i: int| 0 <= i < rest.len() implies is_trimmed(#[trigger] rest[i]) && !has_text(
            rest[i],
            sep,
        ) by {
            assert(rest[i] == list[i + 1]);
        }
        lemma_split_joined(rest);
        assert(seq![list[0]] + rest =~= list);
        lemma_join_first(list[0], rest, sep);
        let tail = join_spec(rest, sep);
        lemma_first_split(list[0], tail, sep);
        let s = list[0] + sep + tail;
        assert(s.take(list[0].len() as int) =~= list[0]);
        assert(s.skip(list[0].len() as int + 2) =~= tail);
    }
}

/// Blank lines separate sections, and nothing else does: the sections of texts
/// joined by blank lines are these texts.
pub proof fn law_blank_lines_separate_sections(list: Seq<Seq<char>>)
    requires
        list.len() > 0,
        all_trimmed(list),
        forall|i: int| 0 <= i < list.len() ==> !has_text(#[trigger] list[i], "\n\n"@),
    ensures
        sections(join_spec(list, "\n\n"@)) == list,
{
    lemma_split_joined(list);
    let f = |s: Seq<char>| trim_spec(s);
    assert forall|i: int| 0 <= i < list.len() implies f(list[i]) == list[i] by {
        assert(is_trimmed(list[i]));
        lemma_trim_nothing(list[i], CharClass::White);
    }
    assert(list.map_values(f) =~= list);
    assert forall|i: int| 0 <= i < list.len() implies (#[trigger] list[i]).len() > 0 by {
        assert(is_trimmed(list[i]));
    }
    lemma_filter_all(list, |p: Seq<char>| p.len() > 0);
}

/// The characters of a text that are no white space.
pub open spec fn ink(s: Seq<char>) -> Seq<char> {
    s.filter(|c: char| !is_white(c))
}

proof fn lemma_ink_of_trimmed(s: Seq<char>)
    ensures
        ink(trim_spec(s)) == ink(s),
{
    let p = |c: char| !is_white(c);
    law_trimming_cuts_the_ends(s, CharClass::White);
    let t = trim_spec(s);
    let (i, j) = choose|i: int, j: int|
        0 <= i <= j <= s.len() && #[trigger] s.subrange(i, j) == t && (forall|k: int|
            0 <= k < i || j <= k < s.len() ==> CharClass::White.holds(#[trigger] s[k]));
    let (a, b) = (s.take(i), s.skip(j));
    assert(s =~= a + t + b);
    assert forall|k: int| 0 <= k < a.len() implies !p(#[trigger] a[k]) by {
        assert(CharClass::White.holds(s[k]));
    }
    assert forall|k: int| 0 <= k < b.len() implies !p(#[trigger] b[k]) by {
        assert(CharClass::White.holds(s[j + k]));
    }
    lemma_filter_none(a, p);
    lemma_filter_none(b, p);
    lemma_filter_concat(a + t, b, p);
    lemma_filter_concat(a, t, p);
    assert(Seq::<char>::empty() + t.filter(p) + Seq::<char>::empty() =~= t.filter(p));
}

proof fn lemma_ink_of_parts(parts: Seq<Seq<char>>)
    ensures
        ink(join_spec(parts, "\n\n"@)) == ink(parts.flatten_alt()),
        ink(parts.map_values(|s: Seq<char>| trim_spec(s)).flatten_alt()) == ink(
            parts.flatten_alt(),
        ),
        nonempty(parts).flatten_alt() == parts.flatten_alt(),
    decreases parts.len(),
{
    reveal_strlit("\n\n");
    reveal(Seq::filter);
    let p = |c: char| !is_white(c);
    let f = |s: Seq<char>| trim_spec(s);
    let sep = "\n\n"@;
    if parts.len() == 0 {
        assert(parts.flatten_alt() =~= Seq::empty());
        assert(parts.map_values(f) =~= Seq::empty());
        assert(nonempty(parts) =~= Seq::empty());
        assert(parts =~= Seq::empty());
    } else {
        let front = parts.drop_last();
        let last = parts.last();
        lemma_ink_of_parts(front);
        lemma_ink_of_trimmed(last);
        assert(parts.map_values(f) =~= front.map_values(f).push(f(last)));
        assert(front.map_values(f).push(f(last)).drop_last() =~= front.map_values(f));
        lemma_filter_concat(front.map_values(f).flatten_alt(), f(last), p);
        lemma_filter_concat(front.flatten_alt(), last, p);
        if parts.len() == 1 {
            assert(front =~= Seq::empty());
            assert(front.flatten_alt() =~= Seq::empty());
            assert(parts.flatten_alt() =~= last);
        } else {
            lemma_filter_concat(join_spec(front, sep) + sep, last, p);
            lemma_filter_concat(join_spec(front, sep), sep, p);
            assert forall|k: int| 0 <= k < sep.len() implies !p(#[trigger] sep[k]) by {}
            lemma_filter_none(sep, p);
            assert(join_spec(front, sep).filter(p) + Seq::<char>::empty() =~= join_spec(
                front,
                sep,
            ).filter(p));
        }
        let kept = nonempty(front);
        if last.len() > 0 {
            assert(nonempty(parts) == kept.push(last));
            assert(kept.push(last).drop_last() =~= kept);
        } else {
            assert(nonempty(parts) == kept);
            assert(front.flatten_alt() + last =~= front.flatten_alt());
        }
    }
}

/// The sections of a text hold all of it but for white space, in order.
pub proof fn law_sections_hold_the_text(text: Seq<char>)
    ensures
        ink(sections(text).flatten_alt()) == ink(text),
        all_trimmed(sections(text)),
        forall|i: int|
            0 <= i < sections(text).len() ==> !has_text(#[trigger] sections(text)[i], "\n\n"@),
{
    reveal_strlit("\n\n");
    lemma_sections_trimmed(text);
    let raw = split_spec(text, "\n\n"@);
    law_split_parts_make_the_text(text, "\n\n"@);
    lemma_ink_of_parts(raw);
    lemma_ink_of_parts(raw.map_values(|s: Seq<char>| trim_spec(s)));
}

/// The chunks of a document carry its path and are numbered from zero on; an
/// outline is the first of them, and the text follows.
pub proof fn law_chunks_are_numbered(d: SourceDocument, size: int, overlap: int, i: int)
    requires
        0 <= i < document_chunks(d, size, overlap).len() <= usize::MAX,
    ensures
        document_chunks(d, size, overlap)[i].source == d.path@,
        document_chunks(d, size, overlap)[i].index == i,
        document_chunks(d, size, overlap)[i].text == match view_opt(d.outline) {
            Some(outline) => if i == 0 {
                outline
            } else {
                chunk_texts(d.text@, size, overlap)[i - 1]
            },
            None => chunk_texts(d.text@, size, overlap)[i],
        },
        document_chunks(d, size, overlap).len() == chunk_texts(d.text@, size, overlap).len() + if d.outline is Some {
            1int
        } else {
            0
        },
{
}

} // verus!
