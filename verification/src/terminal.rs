//! The input line and how a line that was entered is shown.
use vstd::prelude::*;
use crate::text::chars::{chars_of, control, is_control, same, views};
use crate::text::pieces::{pieces, split_at_class, trim, trim_spec, trim_start, trim_start_spec, CharClass};
use crate::text::search::{has_prefix, starts_with};

verus! {

/// What the editor hands over: a line, a cancellation or an error.
#[derive(Clone, Debug, PartialEq)]
pub enum InputEvent {
    Line(String),
    Cancel,
    Error(String),
}

/// What stands in front of the input.
pub open spec fn prompt_text(busy: bool) -> Seq<char> {
    if busy {
        "… "@
    } else {
        "User："@
    }
}

/// What stands in front of the input.
pub fn left_prompt(busy: bool) -> (r: &'static str)
    ensures
        r@ == prompt_text(busy),
{
    if busy {
        "… "
    } else {
        "User："
    }
}

/// Whether a line is shown as a command while it is entered.
pub fn looks_like_command(line: &str) -> (r: bool)
    ensures
        r == has_prefix(trim_start_spec(line@, CharClass::White), "/"@),
{
    starts_with(&trim_start(line, CharClass::White), "/")
}

/// The number of columns that `unicode_width` gives a text.
pub uninterp spec fn display_width(text: Seq<char>) -> nat;

/// `unicode_width::UnicodeWidthStr::width`: a function of the text alone.
#[verifier::external_body]
pub(crate) fn text_width(text: &str) -> (r: usize)
    ensures
        r == display_width(text@),
{
    unicode_width::UnicodeWidthStr::width(text)
}

/// `nu_ansi_term::Style::paint` in bold light green: the text between the
/// escape sequences for the style and for no style.
#[verifier::external_body]
fn paint_question(text: &str) -> (r: String)
    ensures
        r@ == "\x1b[1;92m"@ + text@ + "\x1b[0m"@,
{
    nu_ansi_term::Style::new().bold().fg(nu_ansi_term::Color::LightGreen).paint(text).to_string()
}

/// Line feeds and what is no control character.
pub open spec fn is_shown(c: char) -> bool {
    c == '\n' || !is_control(c)
}

pub open spec fn shown_chars() -> spec_fn(char) -> bool {
    |c: char| is_shown(c)
}

/// A text without control characters other than line feeds.
pub fn sanitize_user_text(line: &str) -> (r: String)
    ensures
        r@ == line@.filter(shown_chars()),
{
    let c = chars_of(line);
    let ghost p = shown_chars();
    let mut r = String::new();
    proof {
        crate::seqs::lemma_filter_empty(line@, p);
        assert(r@ =~= Seq::empty());
    }
    for i in 0..c.len()
        invariant
            c@ == line@,
            p == shown_chars(),
            r@ == line@.take(i as int).filter(p),
    {
        proof {
            crate::seqs::lemma_filter_step(line@, i as int, p);
        }
        if c[i] == '\n' || !control(c[i]) {
            r.push(c[i]);
        }
    }
    assert(line@.take(line@.len() as int) =~= line@);
    r
}

/// A question as it is shown.
pub open spec fn question_text(line: Seq<char>) -> Seq<char> {
    "\x1b[1;92m"@ + ("User："@ + line.filter(shown_chars())) + "\x1b[0m"@
}

/// A question as it is shown: in bold green, without control characters.
pub fn render_user_question(line: &str) -> (r: String)
    ensures
        r@ == question_text(line@),
{
    let mut text = "User：".to_owned();
    text.append(sanitize_user_text(line).as_str());
    paint_question(&text)
}

/// The rows of the screen that a part of a line takes.
pub open spec fn part_rows(width: usize, columns: usize) -> usize {
    ((width.saturating_sub(1) / columns) + 1) as usize
}

/// The rows that parts of those widths take, each behind a prompt.
pub open spec fn widths_rows(widths: Seq<usize>, prefix: usize, columns: usize) -> usize
    decreases widths.len(),
{
    if widths.len() == 0 {
        0
    } else {
        widths_rows(widths.drop_last(), prefix, columns).saturating_add(
            part_rows(prefix.saturating_add(widths.last()), columns),
        )
    }
}

pub open spec fn at_least_one(n: usize) -> usize {
    if n < 1 {
        1
    } else {
        n
    }
}

/// The rows of the screen that parts of those widths take.
pub fn rows_of_widths(widths: &Vec<usize>, prefix_width: usize, columns: usize) -> (r: usize)
    ensures
        r == at_least_one(widths_rows(widths@, prefix_width, at_least_one(columns))),
{
    let wide: usize = if columns < 1 {
        1
    } else {
        columns
    };
    let mut rows: usize = 0;
    assert(widths@.take(0) =~= Seq::empty());
    for i in 0..widths.len()
        invariant
            wide >= 1,
            rows == widths_rows(widths@.take(i as int), prefix_width, wide),
    {
        assert(widths@.take(i + 1).drop_last() =~= widths@.take(i as int));
        assert(widths@.take(i + 1).last() == widths@[i as int]);
        let width: usize = prefix_width.saturating_add(widths[i]);
        let below: usize = width.saturating_sub(1);
        let full: usize = below / wide;
        assert(full <= below) by (nonlinear_arith)
            requires
                full == below / wide,
                wide >= 1,
        ;
        assert(full < usize::MAX) by {
            if width > 0 {
                assert(below == width - 1);
            }
        }
        rows = rows.saturating_add(full + 1);
    }
    assert(widths@.take(widths@.len() as int) =~= widths@);
    if rows < 1 {
        1
    } else {
        rows
    }
}

/// The widths of the parts of a line.
pub open spec fn part_widths(line: Seq<char>) -> Seq<usize> {
    pieces(line, CharClass::Only('\n')).map_values(|p: Seq<char>| display_width(p) as usize)
}

/// The rows of the screen that an entered line takes.
pub open spec fn line_rows(line: Seq<char>, prefix: usize, columns: usize) -> usize {
    at_least_one(widths_rows(part_widths(line), prefix, at_least_one(columns)))
}

/// The rows of the screen that an entered line takes, behind a prompt of that
/// width.
pub fn submitted_screen_rows(line: &str, prefix_width: usize, columns: usize) -> (r: usize)
    ensures
        r == line_rows(line@, prefix_width, columns),
{
    let parts = split_at_class(line, CharClass::Only('\n'));
    let ghost all = views(parts@);
    let ghost f = |p: Seq<char>| display_width(p) as usize;
    let mut widths: Vec<usize> = Vec::new();
    for i in 0..parts.len()
        invariant
            all == views(parts@),
            f == (|p: Seq<char>| display_width(p) as usize),
            widths@ =~= all.take(i as int).map_values(f),
    {
        assert(all[i as int] == parts@[i as int]@);
        assert(all.take(i + 1).map_values(f) =~= all.take(i as int).map_values(f).push(
            f(all[i as int]),
        ));
        widths.push(text_width(&parts[i]));
    }
    assert(all.take(parts@.len() as int) =~= all);
    rows_of_widths(&widths, prefix_width, columns)
}

/// The rows to be erased after a line was entered, and what is shown in their
/// place: a command behind a mark, a question as such.
pub fn submitted_echo(line: &str, columns: usize, busy: bool) -> (r: (usize, String))
    ensures
        r.0 == line_rows(line@, display_width(prompt_text(busy)) as usize, columns),
        r.1@ == if has_prefix(trim_spec(line@), "/"@) {
            "› "@ + trim_spec(line@)
        } else {
            question_text(trim_spec(line@)) + "\n"@
        },
{
    let trimmed = trim(line);
    let rows: usize = submitted_screen_rows(line, text_width(left_prompt(busy)), columns);
    if starts_with(&trimmed, "/") {
        let mut t = "› ".to_owned();
        t.append(trimmed.as_str());
        (rows, t)
    } else {
        let mut t = render_user_question(&trimmed);
        t.append("\n");
        (rows, t)
    }
}

/// What the editor does with a line that was entered.
#[derive(Clone, Copy, Debug, PartialEq, Eq, Structural)]
pub struct LineStep {
    /// Show the line as entered.
    pub echo: bool,
    /// A turn begins: the prompt changes at once.
    pub busy: bool,
    /// No line follows.
    pub last: bool,
}

/// What the editor does with a line that was entered.
pub fn line_step(line: &str) -> (r: LineStep)
    ensures
        r == (LineStep {
            echo: trim_spec(line@).len() > 0,
            busy: trim_spec(line@).len() > 0 && !has_prefix(trim_spec(line@), "/"@),
            last: trim_spec(line@) == "/exit"@,
        }),
{
    let text = trim(line);
    let echo = text.as_str().unicode_len() > 0;
    LineStep { echo, busy: echo && !starts_with(&text, "/"), last: same(&text, "/exit") }
}

/// The rows to be erased on a screen of that height.
pub fn erase_rows(wanted: usize, screen_rows: usize) -> (r: usize)
    ensures
        r <= wanted,
        r == if wanted < at_least_one(screen_rows.saturating_sub(1)) {
            wanted
        } else {
            at_least_one(screen_rows.saturating_sub(1))
        },
{
    let left: usize = screen_rows.saturating_sub(1);
    let most: usize = if left < 1 {
        1
    } else {
        left
    };
    if wanted < most {
        wanted
    } else {
        most
    }
}

/// No control sequence of the user reaches the screen: what is shown of a
/// text holds no control character but line feeds.
pub proof fn law_control_characters_are_dropped(line: Seq<char>)
    ensures
        forall|i: int|
            0 <= i < line.filter(shown_chars()).len() ==> is_shown(
                #[trigger] line.filter(shown_chars())[i],
            ),
{
    crate::seqs::lemma_filter_holds(line, shown_chars());
    let kept = line.filter(shown_chars());
    assert forall|i: int| 0 <= i < kept.len() implies is_shown(#[trigger] kept[i]) by {
        assert(shown_chars()(kept[i]));
    }
}

} // verus!
