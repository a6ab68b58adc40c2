//! What of a Word document becomes text.
use vstd::prelude::*;
use crate::rag::docx::{attribute, is_tag, local_part, outline_entry, read_events, tab_fields, DocxFault, DocxView, XmlView};
use crate::seqs::lemma_filter_all;
use crate::text::chars::is_white;
use crate::text::laws::{law_joined_texts_are_its_pieces, lemma_trim_nothing};
use crate::text::number::all_digits;
use crate::text::pieces::{trim_spec, CharClass};
use crate::text::search::join_spec;

verus! {

/// Events that neither end the reading nor fail it.
pub open spec fn all_plain(events: Seq<XmlView>) -> bool {
    forall|i: int|
        0 <= i < events.len() ==> !((#[trigger] events[i]) is Eof) && !(events[i] is Failed) && !(
        events[i] matches XmlView::Text(Err(_)))
}

/// The state behind the events.
pub open spec fn state_after(st: DocxView, events: Seq<XmlView>) -> DocxView
    decreases events.len(),
{
    if events.len() == 0 {
        st
    } else {
        state_after(st, events.drop_last()).step(events.last())
    }
}

proof fn lemma_state_first(st: DocxView, events: Seq<XmlView>)
    requires
        events.len() > 0,
    ensures
        state_after(st, events) == state_after(st.step(events[0]), events.skip(1)),
    decreases events.len(),
{
    let rest = events.skip(1);
    if events.len() == 1 {
        assert(events.drop_last() =~= Seq::empty());
        assert(rest =~= Seq::empty());
        assert(state_after(st, events.drop_last()) == st);
    } else {
        lemma_state_first(st, events.drop_last());
        assert(events.drop_last().skip(1) =~= rest.drop_last());
        assert(rest.last() == events.last());
    }
}

/// A document is read event by event up to its end: its body and outline are
/// those behind all the events.
pub proof fn law_documents_are_read_to_their_end(st: DocxView, events: Seq<XmlView>)
    requires
        all_plain(events),
    ensures
        read_events(st, events.push(XmlView::Eof)) == Ok::<
            (Seq<char>, Option<Seq<char>>),
            DocxFault,
        >((state_after(st, events).body, state_after(st, events).outline_text())),
    decreases events.len(),
{
    let all = events.push(XmlView::Eof);
    if events.len() == 0 {
        assert(all[0] == XmlView::Eof);
    } else {
        let rest = events.skip(1);
        assert(all.skip(1) =~= rest.push(XmlView::Eof));
        assert(all[0] == events[0]);
        assert(all_plain(rest)) by {
            assert forall|i: int| 0 <= i < rest.len() implies !((#[trigger] rest[i]) is Eof) && !(
            rest[i] is Failed) && !(rest[i] matches XmlView::Text(Err(_))) by {
                assert(rest[i] == events[i + 1]);
            }
        }
        law_documents_are_read_to_their_end(st.step(events[0]), rest);
        lemma_state_first(st, events);
    }
}

/// A document that cannot be read on is refused with the reason.
pub proof fn law_damaged_documents_are_refused(st: DocxView, events: Seq<XmlView>, e: Seq<char>)
    requires
        all_plain(events),
    ensures
        read_events(st, events.push(XmlView::Failed(e))) == Err::<
            (Seq<char>, Option<Seq<char>>),
            DocxFault,
        >(DocxFault::BadXml(e)),
    decreases events.len(),
{
    let all = events.push(XmlView::Failed(e));
    if events.len() == 0 {
        assert(all[0] == XmlView::Failed(e));
    } else {
        let rest = events.skip(1);
        assert(all.skip(1) =~= rest.push(XmlView::Failed(e)));
        assert(all[0] == events[0]);
        assert(all_plain(rest)) by {
            assert forall|i: int| 0 <= i < rest.len() implies !((#[trigger] rest[i]) is Eof) && !(
            rest[i] is Failed) && !(rest[i] matches XmlView::Text(Err(_))) by {
                assert(rest[i] == events[i + 1]);
            }
        }
        law_damaged_documents_are_refused(st.step(events[0]), rest, e);
    }
}

/// The events of texts, one after the other.
pub open spec fn text_events(texts: Seq<Seq<char>>) -> Seq<XmlView> {
    texts.map_values(|t: Seq<char>| XmlView::Text(Ok(t)))
}

/// The texts of a paragraph are joined as they come, outside of fields.
pub proof fn law_texts_of_a_paragraph_are_joined(st: DocxView, texts: Seq<Seq<char>>)
    requires
        !st.skip_field,
    ensures
        state_after(st, text_events(texts)) == (DocxView {
            paragraph: st.paragraph + texts.flatten_alt(),
            ..st
        }),
    decreases texts.len(),
{
    let events = text_events(texts);
    if texts.len() == 0 {
        assert(texts.flatten_alt() =~= Seq::empty());
        assert(st.paragraph + Seq::<char>::empty() =~= st.paragraph);
    } else {
        let front = texts.drop_last();
        law_texts_of_a_paragraph_are_joined(st, front);
        assert(events.drop_last() =~= text_events(front));
        assert(st.paragraph + front.flatten_alt() + texts.last() =~= st.paragraph + (
        front.flatten_alt() + texts.last()));
    }
}

proof fn lemma_tag_names()
    ensures
        forall|local: Seq<char>| #[trigger] is_tag(local, local),
        is_tag("w:p"@, "p"@),
        is_tag("w:t"@, "t"@),
        is_tag("w:tc"@, "tc"@),
        is_tag("w:tr"@, "tr"@),
        is_tag("w:tbl"@, "tbl"@),
        !is_tag("w:tc"@, "p"@),
        !is_tag("w:tr"@, "p"@),
        !is_tag("w:tr"@, "tc"@),
        !is_tag("w:tbl"@, "p"@),
        !is_tag("w:tbl"@, "tc"@),
        !is_tag("w:tbl"@, "tr"@),
{
    reveal_strlit("w:");
    reveal_strlit("p");
    reveal_strlit("t");
    reveal_strlit("tc");
    reveal_strlit("tr");
    reveal_strlit("tbl");
    reveal_strlit("w:p");
    reveal_strlit("w:t");
    reveal_strlit("w:tc");
    reveal_strlit("w:tr");
    reveal_strlit("w:tbl");
    assert("w:p"@.subrange(0, 2) =~= "w:"@);
    assert("w:t"@.subrange(0, 2) =~= "w:"@);
    assert("w:tc"@.subrange(0, 2) =~= "w:"@);
    assert("w:tr"@.subrange(0, 2) =~= "w:"@);
    assert("w:tbl"@.subrange(0, 2) =~= "w:"@);
    assert("w:p"@.skip(2) =~= "p"@);
    assert("w:t"@.skip(2) =~= "t"@);
    assert("w:tc"@.skip(2) =~= "tc"@);
    assert("w:tr"@.skip(2) =~= "tr"@);
    assert("w:tbl"@.skip(2) =~= "tbl"@);
    assert("tc"@[1] != "tr"@[1]);
}

/// Texts between the beginning and the end of a paragraph of the plain style,
/// outside of tables and fields, become a paragraph of the body: joined, trimmed,
/// and with a blank line behind. A paragraph of white space adds nothing.
pub proof fn law_paragraphs_make_up_the_body(st: DocxView, texts: Seq<Seq<char>>)
    requires
        !st.skip_field,
        st.table_depth == 0,
        st.paragraph.len() == 0,
        st.style.len() == 0,
    ensures
        ({
            let text = trim_spec(texts.flatten_alt());
            let after = state_after(st, text_events(texts).push(XmlView::End("w:p"@)));
            &&& after.paragraph.len() == 0
            &&& after.style.len() == 0
            &&& after.outline == st.outline
            &&& after.table_depth == st.table_depth
            &&& !after.skip_field
            &&& after.body == if text.len() == 0 {
                st.body
            } else {
                st.body + text + "\n\n"@
            }
        }),
{
    lemma_tag_names();
    law_texts_of_a_paragraph_are_joined(st, texts);
    let events = text_events(texts).push(XmlView::End("w:p"@));
    assert(events.drop_last() =~= text_events(texts));
    assert(st.paragraph + texts.flatten_alt() =~= texts.flatten_alt());
    reveal_strlit("TOC1");
    reveal_strlit("TOC2");
    reveal_strlit("TOC");
    reveal_strlit("Heading1");
    reveal_strlit("Title1");
    reveal_strlit("Title");
    reveal_strlit("Heading2");
    reveal_strlit("Heading3");
    reveal_strlit("");
    assert(st.style =~= ""@);
    assert(st.body + ""@ =~= st.body);
}

/// A paragraph of a heading style becomes a heading of that level, and one of a
/// table of contents goes to the outline and not to the body.
pub proof fn law_styles_make_headings_and_outlines(st: DocxView)
    requires
        st.table_depth == 0,
        trim_spec(st.paragraph).len() > 0,
    ensures
        ({
            let after = st.step(XmlView::End("w:p"@));
            let text = trim_spec(st.paragraph);
            &&& st.style == "Heading1"@ || st.style == "Title"@ || st.style == "Title1"@
                ==> after.body == st.body + "# "@ + text + "\n\n"@
            &&& st.style == "Heading2"@ ==> after.body == st.body + "## "@ + text + "\n\n"@
            &&& st.style == "Heading3"@ ==> after.body == st.body + "### "@ + text + "\n\n"@
            &&& st.style == "TOC1"@ || st.style == "TOC2"@ ==> after.body == st.body && (
            outline_entry(st.paragraph) matches Some(entry) ==> after.outline == st.outline.push(
                entry,
            ))
            &&& st.style == "TOC3"@ ==> after.body == st.body && after.outline == st.outline
        }),
{
    lemma_tag_names();
    reveal_strlit("TOC1");
    reveal_strlit("TOC2");
    reveal_strlit("TOC3");
    reveal_strlit("TOC");
    reveal_strlit("Heading1");
    reveal_strlit("Title1");
    reveal_strlit("Title");
    reveal_strlit("Heading2");
    reveal_strlit("Heading3");
    assert("Heading1"@[7] == '1' && "Heading2"@[7] == '2' && "Heading3"@[7] == '3');
    assert("TOC1"@[3] == '1' && "TOC2"@[3] == '2' && "TOC3"@[3] == '3');
    assert("TOC1"@[0] == 'T' && "TOC1"@[1] == 'O');
    assert("TOC3"@.subrange(0, 3) =~= "TOC"@);
    if st.style == "Title"@ || st.style == "Title1"@ {
        assert(st.style[1] == 'i');
        assert(st.style.subrange(0, 3)[1] == 'i');
        assert("TOC"@[1] == 'O');
    }
    if st.style == "Heading1"@ || st.style == "Heading2"@ || st.style == "Heading3"@ {
        assert(st.style[0] == 'H');
        assert(st.style.subrange(0, 3)[0] == 'H');
        assert("TOC"@[0] == 'T');
    }
}

/// In a table the texts of paragraphs stand behind each other, a bar ends a cell
/// and a line feed a row.
pub proof fn law_tables_become_lines_of_cells(st: DocxView)
    requires
        st.table_depth > 0,
    ensures
        st.step(XmlView::End("w:p"@)).body == st.body + trim_spec(st.paragraph),
        st.step(XmlView::End("w:tc"@)).body == st.body + " | "@,
        st.step(XmlView::End("w:tr"@)).body == st.body.push('\n'),
        st.step(XmlView::End("w:tbl"@)).body == st.body + "\n\n"@,
        st.step(XmlView::End("w:tbl"@)).table_depth == st.table_depth - 1,
{
    lemma_tag_names();
}

/// No event takes text of the body or entries of the outline away.
pub proof fn law_events_only_add(st: DocxView, events: Seq<XmlView>)
    ensures
        st.body.is_prefix_of(state_after(st, events).body),
        st.outline.is_prefix_of(state_after(st, events).outline),
    decreases events.len(),
{
    if events.len() > 0 {
        let before = state_after(st, events.drop_last());
        law_events_only_add(st, events.drop_last());
        let after = before.step(events.last());
        assert(before.body.is_prefix_of(after.body));
        assert(before.outline.is_prefix_of(after.outline));
        assert(st.body =~= before.body.take(st.body.len() as int));
        assert(after.body.take(before.body.len() as int).take(st.body.len() as int)
            =~= after.body.take(st.body.len() as int));
        assert(after.outline.take(before.outline.len() as int).take(st.outline.len() as int)
            =~= after.outline.take(st.outline.len() as int));
    }
}

/// A field of a line of the table of contents: trimmed, and without tabs.
pub open spec fn is_field(s: Seq<char>) -> bool {
    s.len() > 0 && !is_white(s[0]) && !is_white(s.last()) && !s.contains('\t')
}

proof fn lemma_fields_of_joined(list: Seq<Seq<char>>)
    requires
        list.len() > 0,
        forall|i: int| 0 <= i < list.len() ==> is_field(#[trigger] list[i]),
    ensures
        tab_fields(join_spec(list, seq!['\t'])) == list,
{
    assert forall|i: int| 0 <= i < list.len() implies !(#[trigger] list[i]).contains('\t') by {
        assert(is_field(list[i]));
    }
    law_joined_texts_are_its_pieces(list, '\t');
    let f = |s: Seq<char>| trim_spec(s);
    assert forall|i: int| 0 <= i < list.len() implies f(list[i]) == list[i] by {
        assert(is_field(list[i]));
        lemma_trim_nothing(list[i], CharClass::White);
    }
    assert(list.map_values(f) =~= list);
    assert forall|i: int| 0 <= i < list.len() implies (#[trigger] list[i]).len() > 0 by {
        assert(is_field(list[i]));
    }
    lemma_filter_all(list, |p: Seq<char>| p.len() > 0);
}

/// A line of the table of contents keeps its fields, with spaces between them,
/// but for the page number at its end.
pub proof fn law_outline_entries_drop_the_page(list: Seq<Seq<char>>, page: Seq<char>)
    requires
        list.len() > 0,
        forall|i: int| 0 <= i < list.len() ==> is_field(#[trigger] list[i]),
        is_field(page),
    ensures
        all_digits(page) ==> outline_entry(join_spec(list.push(page), seq!['\t'])) == Some(
            join_spec(list, " "@),
        ),
        !all_digits(page) ==> outline_entry(join_spec(list.push(page), seq!['\t'])) == Some(
            join_spec(list.push(page), " "@),
        ),
{
    let all = list.push(page);
    assert forall|i: int| 0 <= i < all.len() implies is_field(#[trigger] all[i]) by {
        if i < list.len() {
            assert(all[i] == list[i]);
        }
    }
    lemma_fields_of_joined(all);
    assert(all.drop_last() =~= list);
}

/// An attribute is found by its name, with or without a prefix, and the first
/// such counts.
pub proof fn law_attributes_are_found_by_name(
    list: Seq<Option<(Seq<char>, Seq<char>)>>,
    local: Seq<char>,
    k: int,
)
    requires
        0 <= k < list.len(),
        list[k] matches Some(a) && (a.0 == local || local_part(a.0) == local),
        forall|i: int|
            0 <= i < k ==> ((#[trigger] list[i]) matches Some(a) ==> a.0 != local && local_part(a.0)
                != local),
    ensures
        attribute(list, local) == Some((list[k]->Some_0).1),
    decreases list.len(),
{
    if k > 0 {
        let rest = list.skip(1);
        assert forall|i: int| 0 <= i < k - 1 implies ((#[trigger] rest[i]) matches Some(a) ==> a.0
            != local && local_part(a.0) != local) by {
            assert(rest[i] == list[i + 1]);
        }
        assert(list[0] matches Some(a) ==> a.0 != local && local_part(a.0) != local);
        law_attributes_are_found_by_name(rest, local, k - 1);
    }
}

} // verus!
