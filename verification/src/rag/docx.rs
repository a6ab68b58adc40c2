//! The visible text and the outline of a Word document.
use quick_xml::events::Event;
use std::io::Read;
use vstd::prelude::*;
use crate::text::chars::{lemma_views_push, same, view_opt, views};
use crate::text::number::all_digits;
use crate::text::pieces::{keep_nonempty, nonempty, pieces, split_at_class, trim, trim_spec, CharClass};
use crate::text::search::{after_prefix, has_prefix, join, join_spec, starts_with, strip_prefix};

verus! {

/// The element of a start tag: its name and its attributes in order. An
/// attribute that could not be read is `None`.
#[derive(Clone, Debug)]
pub struct Tag {
    pub name: String,
    pub attributes: Vec<Option<(String, String)>>,
}

#[verifier::ext_equal]
pub struct TagView {
    pub name: Seq<char>,
    pub attributes: Seq<Option<(Seq<char>, Seq<char>)>>,
}

pub open spec fn attribute_view(a: Option<(String, String)>) -> Option<(Seq<char>, Seq<char>)> {
    match a {
        Some(p) => Some((p.0@, p.1@)),
        None => None,
    }
}

impl View for Tag {
    type V = TagView;

    open spec fn view(&self) -> TagView {
        TagView {
            name: self.name@,
            attributes: self.attributes@.map_values(
                |a: Option<(String, String)>| attribute_view(a),
            ),
        }
    }
}

/// A step of reading an XML text.
#[derive(Debug)]
pub enum XmlEvent {
    Start(Tag),
    Empty(Tag),
    /// Character data with its entities resolved, or the error of one.
    Text(Result<String, String>),
    End(String),
    Other,
    Eof,
    /// The text could not be read on.
    Failed(String),
}

#[verifier::ext_equal]
pub enum XmlView {
    Start(TagView),
    Empty(TagView),
    Text(Result<Seq<char>, Seq<char>>),
    End(Seq<char>),
    Other,
    Eof,
    Failed(Seq<char>),
}

impl View for XmlEvent {
    type V = XmlView;

    open spec fn view(&self) -> XmlView {
        match self {
            XmlEvent::Start(t) => XmlView::Start(t@),
            XmlEvent::Empty(t) => XmlView::Empty(t@),
            XmlEvent::Text(Ok(t)) => XmlView::Text(Ok(t@)),
            XmlEvent::Text(Err(e)) => XmlView::Text(Err(e@)),
            XmlEvent::End(n) => XmlView::End(n@),
            XmlEvent::Other => XmlView::Other,
            XmlEvent::Eof => XmlView::Eof,
            XmlEvent::Failed(e) => XmlView::Failed(e@),
        }
    }
}

/// The reader of `quick_xml`.
#[verifier::external_type_specification]
#[verifier::external_body]
#[verifier::reject_recursive_types(R)]
pub struct ExReader<R>(quick_xml::Reader<R>);

/// A start tag of `quick_xml`.
#[verifier::external_type_specification]
#[verifier::external_body]
pub struct ExBytesStart<'a>(quick_xml::events::BytesStart<'a>);

/// What `quick_xml` reads from an XML text, up to the end or the first error.
pub uninterp spec fn xml_events(text: Seq<char>) -> Seq<XmlView>;

/// What a reader has still to give, up to the end or the first error.
pub uninterp spec fn xml_rest(reader: quick_xml::Reader<&[u8]>) -> Seq<XmlView>;

pub open spec fn is_stop(e: XmlView) -> bool {
    e is Eof || e is Failed
}

/// The events end where the text ends or cannot be read on, and only there.
pub open spec fn stops_once(events: Seq<XmlView>) -> bool {
    &&& events.len() > 0
    &&& is_stop(events.last())
    &&& forall|i: int| 0 <= i < events.len() - 1 ==> !is_stop(#[trigger] events[i])
}

/// `quick_xml::Reader::from_str`: a reader that has all of the text's events
/// to give. A text is finite, so that they come to an end.
#[verifier::external_body]
fn open_xml(text: &str) -> (r: quick_xml::Reader<&[u8]>)
    ensures
        xml_rest(r) == xml_events(text@),
        stops_once(xml_rest(r)),
{
    quick_xml::Reader::from_str(text)
}

/// The name and attributes of a start tag of `quick_xml`, which hands out
/// bytes; those that are not UTF-8 become replacement characters.
#[verifier::external_body]
fn tag_of(element: &quick_xml::events::BytesStart<'_>) -> Tag {
    Tag {
        name: String::from_utf8_lossy(element.name().as_ref()).into_owned(),
        attributes: element.attributes().map(|a| a.ok().map(|a| (
            String::from_utf8_lossy(a.key.as_ref()).into_owned(),
            String::from_utf8_lossy(&a.value).into_owned(),
        ))).collect(),
    }
}

/// `quick_xml::Reader::read_event`: the next event of the reader.
#[verifier::external_body]
fn next_event(reader: &mut quick_xml::Reader<&[u8]>) -> (r: XmlEvent)
    requires
        xml_rest(*old(reader)).len() > 0,
    ensures
        r@ == xml_rest(*old(reader))[0],
        xml_rest(*final(reader)) == xml_rest(*old(reader)).skip(1),
{
    match reader.read_event() {
        Ok(Event::Start(e)) => XmlEvent::Start(tag_of(&e)),
        Ok(Event::Empty(e)) => XmlEvent::Empty(tag_of(&e)),
        Ok(Event::Text(t)) => XmlEvent::Text(
            t.unescape().map(|s| s.into_owned()).map_err(|e| e.to_string()),
        ),
        Ok(Event::End(e)) => XmlEvent::End(
            String::from_utf8_lossy(e.name().as_ref()).into_owned(),
        ),
        Ok(Event::Eof) => XmlEvent::Eof,
        Ok(_) => XmlEvent::Other,
        Err(e) => XmlEvent::Failed(e.to_string()),
    }
}

/// Why a Word document cannot be read.
#[derive(Clone, Debug, PartialEq)]
pub enum DocxError {
    /// The bytes are no zip archive.
    NotArchive(String),
    /// The archive has no such entry.
    MissingBody(String),
    /// The entry is no UTF-8 text or is damaged.
    Unreadable(String),
    /// The XML is malformed.
    BadXml(String),
}

#[verifier::ext_equal]
pub enum DocxFault {
    NotArchive(Seq<char>),
    MissingBody(Seq<char>),
    Unreadable(Seq<char>),
    BadXml(Seq<char>),
}

impl View for DocxError {
    type V = DocxFault;

    open spec fn view(&self) -> DocxFault {
        match self {
            DocxError::NotArchive(e) => DocxFault::NotArchive(e@),
            DocxError::MissingBody(e) => DocxFault::MissingBody(e@),
            DocxError::Unreadable(e) => DocxFault::Unreadable(e@),
            DocxError::BadXml(e) => DocxFault::BadXml(e@),
        }
    }
}

impl DocxFault {
    /// The message shown for a document that cannot be read.
    pub open spec fn text(self, path: Seq<char>) -> Seq<char> {
        match self {
            DocxFault::NotArchive(e) => "不是有效的 DOCX 文件 "@ + path + ": "@ + e,
            DocxFault::MissingBody(e) => "DOCX 缺少正文 "@ + path + ": "@ + e,
            DocxFault::Unreadable(e) => e,
            DocxFault::BadXml(e) => e,
        }
    }
}

impl DocxError {
    /// The message shown for a document that cannot be read.
    pub fn message(&self, path: &str) -> (r: String)
        ensures
            r@ == self@.text(path@),
    {
        let (mut t, reason) = match self {
            DocxError::NotArchive(e) => ("不是有效的 DOCX 文件 ".to_owned(), e),
            DocxError::MissingBody(e) => ("DOCX 缺少正文 ".to_owned(), e),
            DocxError::Unreadable(e) => {
                return e.clone();
            },
            DocxError::BadXml(e) => {
                return e.clone();
            },
        };
        t.append(path);
        t.append(": ");
        t.append(reason.as_str());
        t
    }
}

/// The text of an entry of a zip archive, as the `zip` crate reads it.
pub uninterp spec fn zip_text(archive: Seq<u8>, entry: Seq<char>) -> Result<Seq<char>, DocxFault>;

/// `zip::ZipArchive::by_name` on an archive in memory: the text of an entry,
/// or which step failed and with what message.
#[verifier::external_body]
fn read_zip_text(archive: &[u8], entry: &str) -> (r: Result<String, DocxError>)
    ensures
        match r {
            Ok(t) => zip_text(archive@, entry@) == Ok::<Seq<char>, DocxFault>(t@),
            Err(e) => zip_text(archive@, entry@) == Err::<Seq<char>, DocxFault>(e@),
        },
{
    let mut zip = zip::ZipArchive::new(std::io::Cursor::new(archive)).map_err(
        |e| DocxError::NotArchive(e.to_string()),
    )?;
    let mut file = zip.by_name(entry).map_err(|e| DocxError::MissingBody(e.to_string()))?;
    let mut text = String::new();
    file.read_to_string(&mut text).map_err(|e| DocxError::Unreadable(e.to_string()))?;
    Ok(text)
}

/// A tag of the main namespace, with or without its prefix.
pub open spec fn is_tag(name: Seq<char>, local: Seq<char>) -> bool {
    name == local || after_prefix(name, "w:"@) == Some(local)
}

/// Whether a name is that of a tag, with or without its prefix.
pub fn is_docx_tag(name: &str, local: &str) -> (r: bool)
    ensures
        r == is_tag(name@, local@),
{
    if same(name, local) {
        return true;
    }
    match strip_prefix(name, "w:") {
        Some(rest) => same(&rest, local),
        None => false,
    }
}

/// The part of a name behind its last colon.
pub open spec fn local_part(key: Seq<char>) -> Seq<char> {
    pieces(key, CharClass::Only(':')).last()
}

/// The value of the first readable attribute of that local name.
pub open spec fn attribute(list: Seq<Option<(Seq<char>, Seq<char>)>>, local: Seq<char>) -> Option<
    Seq<char>,
>
    decreases list.len(),
{
    if list.len() == 0 {
        None
    } else {
        match list[0] {
            Some((key, value)) => if key == local || local_part(key) == local {
                Some(value)
            } else {
                attribute(list.skip(1), local)
            },
            None => attribute(list.skip(1), local),
        }
    }
}

/// The value of the first readable attribute of that local name.
pub fn docx_attr(tag: &Tag, local: &str) -> (r: Option<String>)
    ensures
        view_opt(r) == attribute(tag@.attributes, local@),
{
    let ghost all = tag@.attributes;
    assert(all.skip(0) =~= all);
    for i in 0..tag.attributes.len()
        invariant
            all == tag@.attributes,
            attribute(all, local@) == attribute(all.skip(i as int), local@),
    {
        assert(all.skip(i as int)[0] == attribute_view(tag.attributes@[i as int]));
        assert(all.skip(i as int).skip(1) =~= all.skip(i + 1));
        if let Some(pair) = &tag.attributes[i] {
            let names = split_at_class(&pair.0, CharClass::Only(':'));
            assert(views(names@).last() == names@[names@.len() - 1]@);
            if same(&pair.0, local) || same(&names[names.len() - 1], local) {
                return Some(pair.1.clone());
            }
        }
    }
    None
}

/// What has been read of a document.
#[verifier::ext_equal]
pub struct DocxView {
    pub body: Seq<char>,
    pub paragraph: Seq<char>,
    pub style: Seq<char>,
    pub outline: Seq<Seq<char>>,
    /// Between the start of a field and its result.
    pub skip_field: bool,
    pub table_depth: usize,
}

struct DocxState {
    body: String,
    paragraph: String,
    style: String,
    outline: Vec<String>,
    skip_field: bool,
    table_depth: usize,
}

impl View for DocxState {
    type V = DocxView;

    closed spec fn view(&self) -> DocxView {
        DocxView {
            body: self.body@,
            paragraph: self.paragraph@,
            style: self.style@,
            outline: views(self.outline@),
            skip_field: self.skip_field,
            table_depth: self.table_depth,
        }
    }
}

/// The trimmed, non-empty fields of a paragraph, which tabs separate.
pub open spec fn tab_fields(paragraph: Seq<char>) -> Seq<Seq<char>> {
    nonempty(
        pieces(paragraph, CharClass::Only('\t')).map_values(|s: Seq<char>| trim_spec(s)),
    )
}

/// A line of the table of contents: its number and title without the page.
pub open spec fn outline_entry(paragraph: Seq<char>) -> Option<Seq<char>> {
    let fields = tab_fields(paragraph);
    let kept = if fields.len() > 0 && all_digits(fields.last()) {
        fields.drop_last()
    } else {
        fields
    };
    if kept.len() == 0 {
        None
    } else {
        Some(join_spec(kept, " "@))
    }
}

fn only_digits(text: &str) -> (r: bool)
    ensures
        r == all_digits(text@),
{
    for c in it: text.chars()
        invariant
            it.seq() == text@,
            forall|j: int|
                0 <= j < it.index() ==> crate::text::chars::is_digit(#[trigger] text@[j]),
    {
        if !crate::text::chars::digit(c) {
            assert(!crate::text::chars::is_digit(text@[it.index()]));
            return false;
        }
    }
    true
}

/// A line of the table of contents: its number and title without the page.
pub fn format_outline_entry(paragraph: &str) -> (r: Option<String>)
    ensures
        view_opt(r) == outline_entry(paragraph@),
{
    let parts = split_at_class(paragraph, CharClass::Only('\t'));
    let ghost f = |s: Seq<char>| trim_spec(s);
    let mut trimmed: Vec<String> = Vec::new();
    for i in 0..parts.len()
        invariant
            f == (|s: Seq<char>| trim_spec(s)),
            views(trimmed@) =~= views(parts@).take(i as int).map_values(f),
    {
        let part = trim(&parts[i]);
        proof {
            lemma_views_push(trimmed@, part);
            assert(views(parts@).take(i + 1).map_values(f) =~= views(parts@).take(
                i as int,
            ).map_values(f).push(part@));
        }
        trimmed.push(part);
    }
    assert(views(parts@).take(parts@.len() as int) =~= views(parts@));
    let mut fields = keep_nonempty(trimmed);
    let n: usize = fields.len();
    if n > 0 {
        assert(views(fields@).last() == fields@[n - 1]@);
        if only_digits(&fields[n - 1]) {
            let ghost before = fields@;
            let _page = fields.pop();
            assert(views(fields@) =~= views(before).drop_last());
        }
    }
    if fields.len() == 0 {
        None
    } else {
        Some(join(&fields, " "))
    }
}

/// The Markdown mark of a heading style.
pub open spec fn heading_mark(style: Seq<char>) -> Seq<char> {
    if style == "Heading1"@ || style == "Title1"@ || style == "Title"@ {
        "# "@
    } else if style == "Heading2"@ {
        "## "@
    } else if style == "Heading3"@ {
        "### "@
    } else {
        ""@
    }
}

impl DocxView {
    /// The end of a paragraph: it goes to the body, or to the outline where
    /// its style is that of a table of contents.
    pub open spec fn flush(self) -> DocxView {
        let text = trim_spec(self.paragraph);
        if self.table_depth > 0 {
            DocxView { body: self.body + text, ..self }
        } else if self.style == "TOC1"@ || self.style == "TOC2"@ {
            match outline_entry(self.paragraph) {
                Some(entry) => DocxView { outline: self.outline.push(entry), ..self },
                None => self,
            }
        } else if has_prefix(self.style, "TOC"@) || text.len() == 0 {
            self
        } else {
            DocxView { body: self.body + heading_mark(self.style) + text + "\n\n"@, ..self }
        }
    }

    /// A start tag, or an empty element where `is_start` does not hold.
    pub open spec fn open_tag(self, tag: TagView, is_start: bool) -> DocxView {
        if is_tag(tag.name, "pStyle"@) {
            match attribute(tag.attributes, "val"@) {
                Some(value) => DocxView { style: value, ..self },
                None => self,
            }
        } else if is_tag(tag.name, "tab"@) {
            if self.skip_field {
                self
            } else {
                DocxView { paragraph: self.paragraph.push('\t'), ..self }
            }
        } else if is_tag(tag.name, "br"@) {
            if self.skip_field {
                self
            } else {
                DocxView { paragraph: self.paragraph.push('\n'), ..self }
            }
        } else if is_tag(tag.name, "fldChar"@) {
            let kind = attribute(tag.attributes, "fldCharType"@);
            if kind == Some("begin"@) {
                DocxView { skip_field: true, ..self }
            } else if kind == Some("separate"@) || kind == Some("end"@) {
                DocxView { skip_field: false, ..self }
            } else {
                self
            }
        } else if is_start && is_tag(tag.name, "tbl"@) {
            DocxView { table_depth: self.table_depth.saturating_add(1), ..self }
        } else {
            self
        }
    }

    pub open spec fn close_tag(self, name: Seq<char>) -> DocxView {
        if is_tag(name, "p"@) {
            DocxView { paragraph: Seq::empty(), style: Seq::empty(), ..self.flush() }
        } else if is_tag(name, "tc"@) {
            DocxView { body: self.body + " | "@, ..self }
        } else if is_tag(name, "tr"@) {
            DocxView { body: self.body.push('\n'), ..self }
        } else if is_tag(name, "tbl"@) {
            DocxView {
                table_depth: self.table_depth.saturating_sub(1),
                body: self.body + "\n\n"@,
                ..self
            }
        } else {
            self
        }
    }

    /// The state after an event that does not end the reading.
    pub open spec fn step(self, e: XmlView) -> DocxView {
        match e {
            XmlView::Start(tag) => self.open_tag(tag, true),
            XmlView::Empty(tag) => self.open_tag(tag, false),
            XmlView::Text(Ok(text)) => if self.skip_field {
                self
            } else {
                DocxView { paragraph: self.paragraph + text, ..self }
            },
            XmlView::End(name) => self.close_tag(name),
            _ => self,
        }
    }

    /// The heading line and the entries of the outline, where there are any.
    pub open spec fn outline_text(self) -> Option<Seq<char>> {
        if self.outline.len() > 0 {
            Some("# Contents\n\n"@ + join_spec(self.outline, "\n"@))
        } else {
            None
        }
    }
}

/// The body and the outline after the events, or the message of the first
/// error. An entity that cannot be resolved counts only outside of fields.
pub open spec fn read_events(st: DocxView, events: Seq<XmlView>) -> Result<
    (Seq<char>, Option<Seq<char>>),
    DocxFault,
>
    decreases events.len(),
{
    if events.len() == 0 {
        Ok((st.body, st.outline_text()))
    } else {
        match events[0] {
            XmlView::Eof => Ok((st.body, st.outline_text())),
            XmlView::Failed(e) => Err(DocxFault::BadXml(e)),
            XmlView::Text(Err(e)) => if st.skip_field {
                read_events(st, events.skip(1))
            } else {
                Err(DocxFault::BadXml(e))
            },
            e => read_events(st.step(e), events.skip(1)),
        }
    }
}

pub open spec fn empty_docx() -> DocxView {
    DocxView {
        body: Seq::empty(),
        paragraph: Seq::empty(),
        style: Seq::empty(),
        outline: Seq::empty(),
        skip_field: false,
        table_depth: 0,
    }
}

impl DocxState {
    fn flush(&mut self)
        ensures
            final(self)@ == old(self)@.flush(),
    {
        let text = trim(&self.paragraph);
        if self.table_depth > 0 {
            self.body.append(text.as_str());
            return;
        }
        if same(&self.style, "TOC1") || same(&self.style, "TOC2") {
            if let Some(entry) = format_outline_entry(&self.paragraph) {
                proof {
                    lemma_views_push(self.outline@, entry);
                }
                self.outline.push(entry);
            }
            return;
        }
        if starts_with(&self.style, "TOC") || text.as_str().unicode_len() == 0 {
            return;
        }
        let mark = if same(&self.style, "Heading1") || same(&self.style, "Title1") || same(
            &self.style,
            "Title",
        ) {
            "# "
        } else if same(&self.style, "Heading2") {
            "## "
        } else if same(&self.style, "Heading3") {
            "### "
        } else {
            ""
        };
        self.body.append(mark);
        self.body.append(text.as_str());
        self.body.append("\n\n");
    }

    fn open_tag(&mut self, tag: &Tag, is_start: bool)
        ensures
            final(self)@ == old(self)@.open_tag(tag@, is_start),
    {
        if is_docx_tag(&tag.name, "pStyle") {
            if let Some(value) = docx_attr(tag, "val") {
                self.style = value;
            }
        } else if is_docx_tag(&tag.name, "tab") {
            if !self.skip_field {
                self.paragraph.push('\t');
            }
        } else if is_docx_tag(&tag.name, "br") {
            if !self.skip_field {
                self.paragraph.push('\n');
            }
        } else if is_docx_tag(&tag.name, "fldChar") {
            if let Some(kind) = docx_attr(tag, "fldCharType") {
                if same(&kind, "begin") {
                    self.skip_field = true;
                } else if same(&kind, "separate") || same(&kind, "end") {
                    self.skip_field = false;
                }
            }
        } else if is_start && is_docx_tag(&tag.name, "tbl") {
            self.table_depth = self.table_depth.saturating_add(1);
        }
    }

    fn close_tag(&mut self, name: &str)
        ensures
            final(self)@ == old(self)@.close_tag(name@),
    {
        if is_docx_tag(name, "p") {
            self.flush();
            self.paragraph = String::new();
            self.style = String::new();
            assert(self.paragraph@ =~= Seq::empty());
            assert(self.style@ =~= Seq::empty());
        } else if is_docx_tag(name, "tc") {
            self.body.append(" | ");
        } else if is_docx_tag(name, "tr") {
            self.body.push('\n');
        } else if is_docx_tag(name, "tbl") {
            self.table_depth = self.table_depth.saturating_sub(1);
            self.body.append("\n\n");
        }
    }
}

impl DocxState {
    fn new() -> (r: DocxState)
        ensures
            r@ == empty_docx(),
    {
        let st = DocxState {
            body: String::new(),
            paragraph: String::new(),
            style: String::new(),
            outline: Vec::new(),
            skip_field: false,
            table_depth: 0,
        };
        assert(st@ =~= empty_docx());
        st
    }

    /// Takes an event, and says whether to read on.
    fn take(&mut self, event: &XmlEvent) -> (r: Result<bool, DocxError>)
        ensures
            match r {
                Ok(true) => !is_stop(event@) && final(self)@ == old(self)@.step(event@)
                    && (event@ is Text && event@->Text_0 is Err ==> old(self)@.skip_field),
                Ok(false) => event@ is Eof && final(self)@ == old(self)@,
                Err(e) => {
                    ||| event@ is Failed && e@ == DocxFault::BadXml(event@->Failed_0)
                    ||| event@ is Text && event@->Text_0 is Err && !old(self)@.skip_field && e@
                        == DocxFault::BadXml(event@->Text_0->Err_0)
                },
            },
    {
        match event {
            XmlEvent::Start(tag) => self.open_tag(tag, true),
            XmlEvent::Empty(tag) => self.open_tag(tag, false),
            XmlEvent::Text(Ok(text)) => {
                if !self.skip_field {
                    self.paragraph.append(text.as_str());
                }
            },
            XmlEvent::Text(Err(e)) => {
                if !self.skip_field {
                    return Err(DocxError::BadXml(e.clone()));
                }
            },
            XmlEvent::End(name) => self.close_tag(name),
            XmlEvent::Other => {},
            XmlEvent::Eof => {
                return Ok(false);
            },
            XmlEvent::Failed(e) => {
                return Err(DocxError::BadXml(e.clone()));
            },
        }
        Ok(true)
    }

    fn finish(self) -> (r: (String, Option<String>))
        ensures
            r.0@ == self@.body,
            view_opt(r.1) == self@.outline_text(),
    {
        let outline = if self.outline.len() > 0 {
            let mut text = "# Contents\n\n".to_owned();
            text.append(join(&self.outline, "\n").as_str());
            Some(text)
        } else {
            None
        };
        (self.body, outline)
    }
}

/// The outcome of reading a document's events.
pub open spec fn docx_outcome(r: Result<(String, Option<String>), DocxError>) -> Result<
    (Seq<char>, Option<Seq<char>>),
    DocxFault,
> {
    match r {
        Ok(d) => Ok((d.0@, view_opt(d.1))),
        Err(e) => Err(e@),
    }
}

/// The body and the outline that the events of a document give.
pub fn read_document_events(events: &Vec<XmlEvent>) -> (r: Result<
    (String, Option<String>),
    DocxError,
>)
    ensures
        docx_outcome(r) == read_events(
            empty_docx(),
            events@.map_values(|e: XmlEvent| e@),
        ),
{
    let ghost all = events@.map_values(|e: XmlEvent| e@);
    let mut st = DocxState::new();
    assert(all.skip(0) =~= all);
    for i in 0..events.len()
        invariant
            all == events@.map_values(|e: XmlEvent| e@),
            read_events(empty_docx(), all) == read_events(st@, all.skip(i as int)),
    {
        assert(all.skip(i as int)[0] == events@[i as int]@);
        assert(all.skip(i as int).skip(1) =~= all.skip(i + 1));
        match st.take(&events[i]) {
            Ok(true) => {},
            Ok(false) => {
                return Ok(st.finish());
            },
            Err(e) => {
                return Err(e);
            },
        }
    }
    Ok(st.finish())
}

/// The body and the outline of the XML of a Word document.
pub fn extract_document_xml(xml: &str) -> (r: Result<(String, Option<String>), DocxError>)
    ensures
        docx_outcome(r) == read_events(empty_docx(), xml_events(xml@)),
{
    let mut reader = open_xml(xml);
    let mut st = DocxState::new();
    loop
        invariant
            stops_once(xml_rest(reader)),
            read_events(empty_docx(), xml_events(xml@)) == read_events(st@, xml_rest(reader)),
        decreases xml_rest(reader).len(),
    {
        let ghost rest = xml_rest(reader);
        let event = next_event(&mut reader);
        match st.take(&event) {
            Ok(true) => {
                assert(rest.len() > 1);
                assert(rest.skip(1).last() == rest.last());
                assert forall|i: int| 0 <= i < rest.skip(1).len() - 1 implies !is_stop(
                    #[trigger] rest.skip(1)[i],
                ) by {
                    assert(!is_stop(rest[i + 1]));
                }
            },
            Ok(false) => {
                return Ok(st.finish());
            },
            Err(e) => {
                return Err(e);
            },
        }
    }
}

/// The body and the outline of a Word document, or why it has none.
pub open spec fn docx_spec(archive: Seq<u8>) -> Result<(Seq<char>, Option<Seq<char>>), DocxFault> {
    match zip_text(archive, "word/document.xml"@) {
        Ok(xml) => read_events(empty_docx(), xml_events(xml)),
        Err(e) => Err(e),
    }
}

/// The body and the outline of a Word document: field codes are left out,
/// tabs and line breaks are kept, and the entries of the table of contents
/// make up the outline.
pub fn extract_docx(archive: &[u8]) -> (r: Result<(String, Option<String>), DocxError>)
    ensures
        docx_outcome(r) == docx_spec(archive@),
{
    match read_zip_text(archive, "word/document.xml") {
        Ok(xml) => extract_document_xml(&xml),
        Err(e) => Err(e),
    }
}

/// The code of a field is not read: between the start of a field and its
/// result neither text nor tabs reach the paragraph.
pub proof fn law_field_codes_are_skipped(st: DocxView, text: Seq<char>, tag: TagView)
    requires
        st.skip_field,
        is_tag(tag.name, "tab"@) || is_tag(tag.name, "br"@),
    ensures
        st.step(XmlView::Text(Ok(text))) == st,
        st.step(XmlView::Empty(tag)).paragraph == st.paragraph,
        st.step(XmlView::Start(tag)).paragraph == st.paragraph,
{
}

} // verus!
