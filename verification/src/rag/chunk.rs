//! Cutting documents into chunks.
use vstd::prelude::*;
use crate::text::chars::{chars_of, lemma_views_push, text_between, view_opt, views};
use crate::text::pieces::{keep_nonempty, nonempty, trim, trim_spec};
use crate::text::search::{has_prefix, split, split_spec, starts_with};

verus! {

/// A part of a document that can be retrieved.
#[derive(Clone, Debug, PartialEq)]
pub struct Chunk {
    pub source: String,
    pub index: usize,
    pub text: String,
}

#[verifier::ext_equal]
pub struct ChunkView {
    pub source: Seq<char>,
    pub index: usize,
    pub text: Seq<char>,
}

impl View for Chunk {
    type V = ChunkView;

    open spec fn view(&self) -> ChunkView {
        ChunkView { source: self.source@, index: self.index, text: self.text@ }
    }
}

pub open spec fn chunks_view(v: Seq<Chunk>) -> Seq<ChunkView> {
    v.map_values(|c: Chunk| c@)
}

impl Chunk {
    /// A copy of the chunk.
    pub fn copy(&self) -> (r: Chunk)
        ensures
            r@ == self@,
    {
        Chunk { source: self.source.clone(), index: self.index, text: self.text.clone() }
    }
}

/// The trimmed, non-empty sections of a text, which blank lines separate.
pub open spec fn sections(text: Seq<char>) -> Seq<Seq<char>> {
    nonempty(split_spec(text, "\n\n"@).map_values(|s: Seq<char>| trim_spec(s)))
}

/// A section that begins with a heading of the first level.
pub open spec fn heading1(section: Seq<char>) -> bool {
    has_prefix(section, "# "@) && !has_prefix(section, "## "@)
}

/// Whether a section begins with a heading of the first level.
pub fn is_heading1(section: &str) -> (r: bool)
    ensures
        r == heading1(section@),
{
    starts_with(section, "# ") && !starts_with(section, "## ")
}

/// The slices of at most `size` characters of a long section from `start`
/// on, each beginning `overlap` characters before the end of the one before.
pub open spec fn slices(section: Seq<char>, start: int, size: int, overlap: int) -> Seq<Seq<char>>
    decreases section.len() - start,
{
    if !(0 <= start < section.len() && 0 <= overlap < size) {
        Seq::empty()
    } else if section.len() - start <= size {
        seq![section.skip(start)]
    } else {
        seq![section.subrange(start, start + size)] + slices(
            section,
            start + size - overlap,
            size,
            overlap,
        )
    }
}

/// The chunks made so far and the one being filled.
#[verifier::ext_equal]
pub struct Packing {
    pub done: Seq<Seq<char>>,
    pub current: Seq<char>,
}

impl Packing {
    /// Closes the chunk being filled.
    pub open spec fn flush(self) -> Packing {
        let text = trim_spec(self.current);
        Packing {
            done: if text.len() > 0 {
                self.done.push(text)
            } else {
                self.done
            },
            current: Seq::empty(),
        }
    }

    pub open spec fn flush_if(self, condition: bool) -> Packing {
        if condition && self.current.len() > 0 {
            self.flush()
        } else {
            self
        }
    }

    /// Adds a section. A heading opens a chunk; a section longer than a chunk
    /// is sliced; any other joins the chunk being filled where it fits.
    pub open spec fn take_section(self, section: Seq<char>, size: int, overlap: int) -> Packing {
        let opened = self.flush_if(heading1(section));
        if section.len() > size {
            let closed = opened.flush_if(true);
            Packing {
                done: closed.done + slices(section, 0, size, overlap),
                current: closed.current,
            }
        } else {
            let room = opened.flush_if(opened.current.len() + 2 + section.len() > size);
            Packing {
                done: room.done,
                current: if room.current.len() > 0 {
                    room.current + "\n\n"@ + section
                } else {
                    section
                },
            }
        }
    }
}

/// The state after the sections of `list`.
pub open spec fn pack(list: Seq<Seq<char>>, size: int, overlap: int) -> Packing
    decreases list.len(),
{
    if list.len() == 0 {
        Packing { done: Seq::empty(), current: Seq::empty() }
    } else {
        pack(list.drop_last(), size, overlap).take_section(list.last(), size, overlap)
    }
}

/// The texts of the chunks of a document.
pub open spec fn chunk_texts(text: Seq<char>, size: int, overlap: int) -> Seq<Seq<char>> {
    pack(sections(text), size, overlap).flush_if(true).done
}

/// The chunks that hold `texts`, numbered from `first` on.
pub open spec fn numbered(source: Seq<char>, texts: Seq<Seq<char>>, first: int) -> Seq<ChunkView> {
    Seq::new(
        texts.len(),
        |i: int| ChunkView { source, index: (first + i) as usize, text: texts[i] },
    )
}

fn section_list(text: &str) -> (r: Vec<String>)
    ensures
        views(r@) == sections(text@),
{
    proof {
        reveal_strlit("\n\n");
    }
    let parts = split(text, "\n\n");
    let ghost f = |s: Seq<char>| trim_spec(s);
    let mut trimmed: Vec<String> = Vec::new();
    for i in 0..parts.len()
        invariant
            f == (|s: Seq<char>| trim_spec(s)),
            views(trimmed@) =~= views(parts@).take(i as int).map_values(f),
    {
        let part = trim(&parts[i]);
        proof {
            lemma_views_push(trimmed@, part);
            assert(views(parts@).take(i + 1).map_values(f) =~= views(parts@).take(
                i as int,
            ).map_values(f).push(part@));
        }
        trimmed.push(part);
    }
    assert(views(parts@).take(parts@.len() as int) =~= views(parts@));
    keep_nonempty(trimmed)
}

fn flush_current(done: &mut Vec<String>, current: &mut String)
    ensures
        (Packing { done: views(final(done)@), current: final(current)@ }) == (Packing {
            done: views(old(done)@),
            current: old(current)@,
        }).flush(),
{
    let text = trim(current);
    if text.as_str().unicode_len() > 0 {
        proof {
            lemma_views_push(done@, text);
        }
        done.push(text);
    }
    *current = String::new();
    assert(current@ =~= Seq::empty());
}

fn push_slices(done: &mut Vec<String>, section: &str, size: usize, overlap: usize)
    requires
        overlap < size,
    ensures
        views(final(done)@) == views(old(done)@) + slices(
            section@,
            0,
            size as int,
            overlap as int,
        ),
{
    let c = chars_of(section);
    let ghost whole = views(done@) + slices(section@, 0, size as int, overlap as int);
    let mut start: usize = 0;
    let total: usize = c.len();
    while start < total
        invariant
            overlap < size,
            c@ == section@,
            total == c@.len(),
            start <= total,
            views(done@) + slices(section@, start as int, size as int, overlap as int) == whole,
            whole == views(old(done)@) + slices(section@, 0, size as int, overlap as int),
        decreases total - start,
    {
        let ghost before = views(done@);
        if total - start <= size {
            let part = text_between(&c, start, total);
            proof {
                assert(part@ =~= section@.skip(start as int));
                lemma_views_push(done@, part);
                assert(before.push(part@) =~= before + seq![part@]);
            }
            done.push(part);
            return;
        }
        let part = text_between(&c, start, start + size);
        let next: usize = start + size - overlap;
        proof {
            lemma_views_push(done@, part);
            assert(before.push(part@) + slices(
                section@,
                next as int,
                size as int,
                overlap as int,
            ) =~= before + (seq![part@] + slices(
                section@,
                next as int,
                size as int,
                overlap as int,
            )));
        }
        done.push(part);
        start = next;
    }
    assert(whole =~= views(done@));
}

/// The chunks of a document: short sections share a chunk, headings of the
/// first level open one, and sections longer than a chunk are sliced.
pub fn split_document(source: &str, text: &str, chunk_chars: usize, overlap_chars: usize) -> (r:
    Vec<Chunk>)
    requires
        overlap_chars < chunk_chars,
    ensures
        chunks_view(r@) == numbered(
            source@,
            chunk_texts(text@, chunk_chars as int, overlap_chars as int),
            0,
        ),
{
    let list = section_list(text);
    let ghost all = views(list@);
    let ghost (size, overlap) = (chunk_chars as int, overlap_chars as int);
    let mut done: Vec<String> = Vec::new();
    let mut current = String::new();
    proof {
        assert(all.take(0) =~= Seq::empty());
        assert(views(done@) =~= Seq::empty());
        assert(current@ =~= Seq::empty());
    }
    for i in 0..list.len()
        invariant
            overlap_chars < chunk_chars,
            size == chunk_chars,
            overlap == overlap_chars,
            all == views(list@),
            (Packing { done: views(done@), current: current@ }) == pack(
                all.take(i as int),
                size,
                overlap,
            ),
    {
        let section = &list[i];
        let ghost before = pack(all.take(i as int), size, overlap);
        proof {
            assert(all.take(i + 1).drop_last() =~= all.take(i as int));
            assert(all.take(i + 1).last() == section@);
        }
        if is_heading1(section) && current.as_str().unicode_len() > 0 {
            flush_current(&mut done, &mut current);
        }
        let ghost opened = before.flush_if(heading1(section@));
        assert(opened == (Packing { done: views(done@), current: current@ }));
        let section_chars: usize = section.as_str().unicode_len();
        if section_chars > chunk_chars {
            if current.as_str().unicode_len() > 0 {
                flush_current(&mut done, &mut current);
            }
            push_slices(&mut done, section, chunk_chars, overlap_chars);
        } else {
            let room: usize = chunk_chars - section_chars;
            let used: usize = current.as_str().unicode_len();
            if used > 0 && (used > room || room - used < 2) {
                flush_current(&mut done, &mut current);
            }
            if current.as_str().unicode_len() > 0 {
                current.append("\n\n");
                current.append(section);
            } else {
                current = section.clone();
            }
        }
    }
    assert(all.take(list@.len() as int) =~= all);
    if current.as_str().unicode_len() > 0 {
        flush_current(&mut done, &mut current);
    }
    let ghost texts = chunk_texts(text@, size, overlap);
    assert(views(done@) == texts);
    let mut chunks: Vec<Chunk> = Vec::new();
    for i in 0..done.len()
        invariant
            views(done@) == texts,
            chunks@.len() == i,
            forall|j: int|
                0 <= j < i ==> (#[trigger] chunks@[j])@ == (ChunkView {
                    source: source@,
                    index: j as usize,
                    text: texts[j],
                }),
    {
        assert(texts[i as int] == done@[i as int]@);
        chunks.push(Chunk { source: source.to_owned(), index: i, text: done[i].clone() });
    }
    assert(chunks_view(chunks@) =~= numbered(source@, texts, 0));
    chunks
}

/// A document as it was read: its text and, where it has one, its outline.
#[derive(Clone, Debug)]
pub struct SourceDocument {
    pub path: String,
    pub text: String,
    pub outline: Option<String>,
}

/// The chunks of a document that was read: the outline is a chunk of its own,
/// in front of the others.
pub open spec fn document_chunks(d: SourceDocument, size: int, overlap: int) -> Seq<ChunkView> {
    let texts = chunk_texts(d.text@, size, overlap);
    match view_opt(d.outline) {
        Some(outline) => seq![ChunkView { source: d.path@, index: 0, text: outline }] + numbered(
            d.path@,
            texts,
            1,
        ),
        None => numbered(d.path@, texts, 0),
    }
}

/// The chunks of a document that was read.
pub fn chunk_document(document: &SourceDocument, chunk_chars: usize, overlap_chars: usize) -> (r:
    Vec<Chunk>)
    requires
        overlap_chars < chunk_chars,
    ensures
        chunks_view(r@) == document_chunks(*document, chunk_chars as int, overlap_chars as int),
{
    let parts = split_document(&document.path, &document.text, chunk_chars, overlap_chars);
    let ghost texts = chunk_texts(document.text@, chunk_chars as int, overlap_chars as int);
    match &document.outline {
        None => parts,
        Some(outline) => {
            let mut chunks: Vec<Chunk> = Vec::new();
            chunks.push(
                Chunk { source: document.path.clone(), index: 0, text: outline.clone() },
            );
            let count: usize = parts.len();
            assert(numbered(document.path@, texts, 0).len() == chunks_view(parts@).len());
            for i in 0..count
                invariant
                    count == parts@.len(),
                    count == texts.len(),
                    chunks_view(parts@) == numbered(document.path@, texts, 0),
                    chunks@.len() == i + 1,
                    chunks@[0]@ == (ChunkView {
                        source: document.path@,
                        index: 0,
                        text: outline@,
                    }),
                    forall|j: int|
                        0 <= j < i ==> (#[trigger] chunks@[j + 1])@ == numbered(
                            document.path@,
                            texts,
                            1,
                        )[j],
            {
                assert(chunks_view(parts@)[i as int] == parts@[i as int]@);
                assert(parts@[i as int]@ == numbered(document.path@, texts, 0)[i as int]);
                let index: usize = parts[i].index;
                chunks.push(
                    Chunk {
                        source: document.path.clone(),
                        index: index + 1,
                        text: parts[i].text.clone(),
                    },
                );
            }
            proof {
                let want = document_chunks(*document, chunk_chars as int, overlap_chars as int);
                assert(chunks_view(chunks@).len() == want.len());
                assert forall|j: int| 0 <= j < want.len() implies chunks_view(chunks@)[j]
                    == want[j] by {
                    if j > 0 {
                        assert(chunks@[(j - 1) + 1]@ == numbered(document.path@, texts, 1)[j - 1]);
                    }
                }
                assert(chunks_view(chunks@) =~= want);
            }
            chunks
        },
    }
}

} // verus!
