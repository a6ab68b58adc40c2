//! What a question asks for: a chapter, an outline, a file, or keywords.
use vstd::prelude::*;
use crate::text::chars::{chars_of, first_chars, skip_chars, take_chars, text_between, to_ascii_lower, ascii_lower, view_opt};
use crate::text::number::{number_spec, parse_number};
use crate::text::pieces::{lead_spec, split_lead, trim_class, trim_class_spec, trim_start, trim_start_spec, CharClass};
use crate::text::search::{contains, contains_any, find, find_from, has_any, has_text, rfind, rfind_from};

verus! {

/// The number in `第 N … 章`: the outer option says whether the phrase
/// stands in the query, the inner one whether its digits fit 32 bits.
pub open spec fn cjk_chapter(query: Seq<char>) -> Option<Option<nat>> {
    match find_from(query, "第"@, 0) {
        Some(i) => {
            let rest = trim_start_spec(query.skip(i + "第"@.len()), CharClass::White);
            let digits = lead_spec(rest, CharClass::Digit);
            let after = first_chars(trim_start_spec(rest, CharClass::Digit), 6);
            if digits.len() > 0 && has_text(after, "章"@) {
                Some(number_spec(digits, u32::MAX as nat))
            } else {
                None
            }
        },
        None => None,
    }
}

/// The first number behind the word `chapter`.
pub open spec fn english_chapter(query: Seq<char>) -> Option<nat> {
    match find_from(ascii_lower(query), "chapter"@, 0) {
        Some(i) => {
            let rest = trim_start_spec(query.skip(i + "chapter"@.len()), CharClass::NotDigit);
            let digits = lead_spec(rest, CharClass::Digit);
            if digits.len() > 0 {
                number_spec(digits, u32::MAX as nat)
            } else {
                None
            }
        },
        None => None,
    }
}

/// The chapter that a question names by its number.
pub open spec fn chapter_spec(query: Seq<char>) -> Option<nat> {
    match cjk_chapter(query) {
        Some(number) => number,
        None => english_chapter(query),
    }
}

fn parse_u32(digits: &str) -> (r: Option<u32>)
    ensures
        match r {
            Some(n) => number_spec(digits@, u32::MAX as nat) == Some(n as nat),
            None => number_spec(digits@, u32::MAX as nat) is None,
        },
{
    match parse_number(digits, u32::MAX as u64) {
        Some(n) => Some(n as u32),
        None => None,
    }
}

/// The chapter that a question names by its number.
pub fn requested_chapter_number(query: &str) -> (r: Option<u32>)
    ensures
        match r {
            Some(n) => chapter_spec(query@) == Some(n as nat),
            None => chapter_spec(query@) is None,
        },
{
    if let Some(i) = find(query, "第") {
        let tail = skip_chars(query, i + "第".unicode_len());
        let rest = trim_start(&tail, CharClass::White);
        let parts = split_lead(&rest, CharClass::Digit);
        let after = take_chars(&parts.1, 6);
        if parts.0.as_str().unicode_len() > 0 && contains(&after, "章") {
            return parse_u32(&parts.0);
        }
    }
    let lower = to_ascii_lower(query);
    if let Some(i) = find(&lower, "chapter") {
        let tail = skip_chars(query, i + "chapter".unicode_len());
        let rest = trim_start(&tail, CharClass::NotDigit);
        let parts = split_lead(&rest, CharClass::Digit);
        if parts.0.as_str().unicode_len() > 0 {
            return parse_u32(&parts.0);
        }
    }
    None
}

/// The words that ask for a table of contents.
pub open spec fn outline_words() -> Seq<&'static str> {
    seq![
        "章节",
        "目录",
        "几章",
        "多少章",
        "第几章",
        "章",
        "contents",
        "chapters",
        "how many chapter",
    ]
}

/// A question about the outline rather than about one chapter.
pub open spec fn outline_spec(query: Seq<char>) -> bool {
    chapter_spec(query) is None && (has_any(query, outline_words()) || has_any(
        ascii_lower(query),
        outline_words(),
    ))
}

/// Whether a question asks for the outline.
pub fn is_outline_query(query: &str) -> (r: bool)
    ensures
        r == outline_spec(query@),
{
    if requested_chapter_number(query).is_some() {
        return false;
    }
    let lower = to_ascii_lower(query);
    let words: [&str; 9] = [
        "章节",
        "目录",
        "几章",
        "多少章",
        "第几章",
        "章",
        "contents",
        "chapters",
        "how many chapter",
    ];
    assert(words@ =~= outline_words());
    contains_any(query, &words) || contains_any(&lower, &words)
}

/// The last path component that ends with `.docx`, without quotation marks.
pub open spec fn mentioned_spec(question: Seq<char>) -> Option<Seq<char>> {
    match find_from(ascii_lower(question), ".docx"@, 0) {
        Some(i) => {
            let head = question.take(i + ".docx"@.len());
            let start = match rfind_from(head, "/"@, head.len() as int) {
                Some(j) => j + 1,
                None => 0,
            };
            let name = trim_class_spec(head.skip(start), CharClass::Quote);
            if name.len() > 0 {
                Some(name)
            } else {
                None
            }
        },
        None => None,
    }
}

/// The Word file that a question mentions.
pub fn mentioned_document_file(question: &str) -> (r: Option<String>)
    ensures
        view_opt(r) == mentioned_spec(question@),
{
    let lower = to_ascii_lower(question);
    match find(&lower, ".docx") {
        Some(i) => {
            let c = chars_of(question);
            let end: usize = i + ".docx".unicode_len();
            let head = vstd::slice::slice_subrange(c.as_slice(), 0, end);
            assert(head@ =~= question@.take(end as int));
            let slash = chars_of("/");
            proof {
                reveal_strlit("/");
            }
            let start: usize = match rfind(head, &slash) {
                Some(j) => j + 1,
                None => 0,
            };
            let part = text_between(head, start, head.len());
            assert(part@ =~= head@.skip(start as int));
            let name = trim_class(&part, CharClass::Quote);
            if name.as_str().unicode_len() > 0 {
                Some(name)
            } else {
                None
            }
        },
        None => None,
    }
}

} // verus!
