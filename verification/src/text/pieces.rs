//! Splitting a text at single characters, and trimming its ends.
use vstd::prelude::*;
use crate::text::chars::{chars_of, digit, is_digit, is_ascii_alnum, is_white, lemma_views_push, text_between, text_of, views, white, ascii_alnum};

verus! {

/// A set of characters at which a text is split or trimmed.
#[derive(Clone, Copy, Debug, PartialEq, Eq, Structural)]
pub enum CharClass {
    /// White space.
    White,
    /// Everything but ASCII letters and digits.
    NotAsciiAlnum,
    /// One character.
    Only(char),
    /// ASCII digits.
    Digit,
    /// Everything but ASCII digits.
    NotDigit,
    /// Quotation marks and backticks.
    Quote,
}

impl CharClass {
    pub open spec fn holds(self, c: char) -> bool {
        match self {
            CharClass::White => is_white(c),
            CharClass::NotAsciiAlnum => !is_ascii_alnum(c),
            CharClass::Only(d) => c == d,
            CharClass::Digit => is_digit(c),
            CharClass::NotDigit => !is_digit(c),
            CharClass::Quote => c == '"' || c == '\'' || c == '`',
        }
    }

    /// Whether `c` belongs to the class.
    pub fn test(self, c: char) -> (r: bool)
        ensures
            r == self.holds(c),
    {
        match self {
            CharClass::White => white(c),
            CharClass::NotAsciiAlnum => !ascii_alnum(c),
            CharClass::Only(d) => c == d,
            CharClass::Digit => digit(c),
            CharClass::NotDigit => !digit(c),
            CharClass::Quote => c == '"' || c == '\'' || c == '`',
        }
    }
}

/// The parts of a text between the characters of `class`: such a character
/// opens a new part, every other character belongs to the part it stands in.
pub open spec fn pieces(s: Seq<char>, class: CharClass) -> Seq<Seq<char>>
    decreases s.len(),
{
    if s.len() == 0 {
        seq![Seq::empty()]
    } else {
        let before = pieces(s.drop_last(), class);
        if class.holds(s.last()) {
            before.push(Seq::empty())
        } else {
            before.drop_last().push(before.last().push(s.last()))
        }
    }
}

/// The parts of a text between the characters of `class`.
pub fn split_at_class(s: &str, class: CharClass) -> (r: Vec<String>)
    ensures
        views(r@) == pieces(s@, class),
        r@.len() > 0,
{
    let mut r: Vec<String> = Vec::new();
    let mut part = String::new();
    assert(views(r@).push(part@) =~= pieces(s@.take(0), class));
    for c in it: s.chars()
        invariant
            it.seq() == s@,
            views(r@).push(part@) == pieces(s@.take(it.index()), class),
    {
        assert(s@.take(it.index() + 1).drop_last() =~= s@.take(it.index()));
        let ghost before = pieces(s@.take(it.index()), class);
        assert(before.drop_last() =~= views(r@));
        if class.test(c) {
            proof {
                lemma_views_push(r@, part);
            }
            r.push(part);
            part = String::new();
            assert(part@ =~= Seq::empty());
        } else {
            part.push(c);
        }
    }
    assert(s@.take(s@.len() as int) =~= s@);
    proof {
        lemma_views_push(r@, part);
    }
    r.push(part);
    r
}

/// The non-empty texts among `parts`, in order.
pub open spec fn nonempty(parts: Seq<Seq<char>>) -> Seq<Seq<char>> {
    parts.filter(|p: Seq<char>| p.len() > 0)
}

/// The words of a text: its non-empty parts between white space.
pub open spec fn words_spec(s: Seq<char>) -> Seq<Seq<char>> {
    nonempty(pieces(s, CharClass::White))
}

/// The non-empty texts among `parts`, in order.
pub fn keep_nonempty(parts: Vec<String>) -> (r: Vec<String>)
    ensures
        views(r@) == nonempty(views(parts@)),
{
    let mut r: Vec<String> = Vec::new();
    let ghost p = |p: Seq<char>| p.len() > 0;
    assert(views(parts@).take(0).filter(p) =~= Seq::empty()) by {
        reveal(Seq::filter);
    }
    for i in 0..parts.len()
        invariant
            p == (|p: Seq<char>| p.len() > 0),
            views(r@) == views(parts@).take(i as int).filter(p),
    {
        proof {
            reveal(Seq::filter);
            assert(views(parts@).take(i + 1).drop_last() =~= views(parts@).take(i as int));
        }
        if parts[i].as_str().unicode_len() > 0 {
            let s = parts[i].clone();
            proof {
                lemma_views_push(r@, s);
            }
            r.push(s);
        }
    }
    assert(views(parts@).take(parts@.len() as int) =~= views(parts@));
    r
}

/// The words of a text: its non-empty parts between white space.
pub fn words(s: &str) -> (r: Vec<String>)
    ensures
        views(r@) == words_spec(s@),
{
    keep_nonempty(split_at_class(s, CharClass::White))
}

/// The text without the characters of `class` at its start.
pub open spec fn trim_start_spec(s: Seq<char>, class: CharClass) -> Seq<char>
    decreases s.len(),
{
    if s.len() > 0 && class.holds(s[0]) {
        trim_start_spec(s.skip(1), class)
    } else {
        s
    }
}

/// The text without the characters of `class` at its end.
pub open spec fn trim_end_spec(s: Seq<char>, class: CharClass) -> Seq<char>
    decreases s.len(),
{
    if s.len() > 0 && class.holds(s.last()) {
        trim_end_spec(s.drop_last(), class)
    } else {
        s
    }
}

/// The text without the characters of `class` at both ends.
pub open spec fn trim_class_spec(s: Seq<char>, class: CharClass) -> Seq<char> {
    trim_end_spec(trim_start_spec(s, class), class)
}

/// The text without white space at both ends.
pub open spec fn trim_spec(s: Seq<char>) -> Seq<char> {
    trim_class_spec(s, CharClass::White)
}

fn trim_start_chars(s: &[char], class: CharClass) -> (r: &[char])
    ensures
        r@ == trim_start_spec(s@, class),
{
    let mut i: usize = 0;
    assert(s@.skip(0) =~= s@);
    while i < s.len() && class.test(s[i])
        invariant
            i <= s@.len(),
            trim_start_spec(s@, class) == trim_start_spec(s@.skip(i as int), class),
        decreases s@.len() - i,
    {
        assert(s@.skip(i as int).skip(1) =~= s@.skip(i + 1));
        i += 1;
    }
    let r = vstd::slice::slice_subrange(s, i, s.len());
    assert(r@ =~= s@.skip(i as int));
    r
}

fn trim_end_chars(s: &[char], class: CharClass) -> (r: &[char])
    ensures
        r@ == trim_end_spec(s@, class),
{
    let mut i: usize = s.len();
    assert(s@.take(s@.len() as int) =~= s@);
    while i > 0 && class.test(s[i - 1])
        invariant
            i <= s@.len(),
            trim_end_spec(s@, class) == trim_end_spec(s@.take(i as int), class),
        decreases i,
    {
        assert(s@.take(i as int).drop_last() =~= s@.take(i - 1));
        i -= 1;
    }
    let r = vstd::slice::slice_subrange(s, 0, i);
    assert(r@ =~= s@.take(i as int));
    r
}

/// The text without the characters of `class` at its start.
pub fn trim_start(s: &str, class: CharClass) -> (r: String)
    ensures
        r@ == trim_start_spec(s@, class),
{
    text_of(trim_start_chars(&chars_of(s), class))
}

/// The text without the characters of `class` at both ends.
pub fn trim_class(s: &str, class: CharClass) -> (r: String)
    ensures
        r@ == trim_class_spec(s@, class),
{
    let c = chars_of(s);
    text_of(trim_end_chars(trim_start_chars(&c, class), class))
}

/// The text without white space at both ends.
pub fn trim(s: &str) -> (r: String)
    ensures
        r@ == trim_spec(s@),
{
    trim_class(s, CharClass::White)
}

/// Whether a text is empty or white space only.
pub fn is_blank(s: &str) -> (r: bool)
    ensures
        r == (trim_spec(s@).len() == 0),
{
    trim(s).as_str().unicode_len() == 0
}

/// The text without one carriage return at its end.
pub open spec fn without_return(s: Seq<char>) -> Seq<char> {
    if s.len() > 0 && s.last() == '\r' {
        s.drop_last()
    } else {
        s
    }
}

/// The lines of a text. A line ends with a line feed, or with a carriage
/// return and a line feed; the end of the last line is optional.
pub open spec fn lines_spec(s: Seq<char>) -> Seq<Seq<char>> {
    let parts = pieces(s, CharClass::Only('\n'));
    let ended = parts.drop_last().map_values(|p: Seq<char>| without_return(p));
    if parts.last().len() == 0 {
        ended
    } else {
        ended.push(parts.last())
    }
}

/// The lines of a text.
pub fn lines(s: &str) -> (r: Vec<String>)
    ensures
        views(r@) == lines_spec(s@),
{
    let parts = split_at_class(s, CharClass::Only('\n'));
    let ghost all = views(parts@);
    let ghost strip = |p: Seq<char>| without_return(p);
    let mut r: Vec<String> = Vec::new();
    let last: usize = parts.len() - 1;
    assert(views(r@) =~= all.take(0).map_values(strip));
    for i in 0..last
        invariant
            all == views(parts@),
            last == parts@.len() - 1,
            strip == (|p: Seq<char>| without_return(p)),
            views(r@) == all.take(i as int).map_values(strip),
    {
        let c = chars_of(&parts[i]);
        let n: usize = c.len();
        let part = if n > 0 && c[n - 1] == '\r' {
            text_between(&c, 0, n - 1)
        } else {
            parts[i].clone()
        };
        proof {
            assert(part@ =~= without_return(parts@[i as int]@));
            lemma_views_push(r@, part);
            assert(all.take(i + 1).map_values(strip) =~= all.take(i as int).map_values(strip).push(
                part@,
            ));
        }
        r.push(part);
    }
    assert(all.take(last as int) =~= all.drop_last());
    if parts[last].as_str().unicode_len() > 0 {
        let part = parts[last].clone();
        proof {
            lemma_views_push(r@, part);
        }
        r.push(part);
    }
    r
}

/// The longest run of characters of `class` at the start of a text.
pub open spec fn lead_spec(s: Seq<char>, class: CharClass) -> Seq<char> {
    s.take(s.len() - trim_start_spec(s, class).len())
}

pub proof fn lemma_trim_start_len(s: Seq<char>, class: CharClass)
    ensures
        trim_start_spec(s, class).len() <= s.len(),
        trim_start_spec(s, class) == s.skip(s.len() - trim_start_spec(s, class).len()),
        forall|i: int|
            0 <= i < s.len() - trim_start_spec(s, class).len() ==> class.holds(#[trigger] s[i]),
    decreases s.len(),
{
    if s.len() > 0 && class.holds(s[0]) {
        let t = s.skip(1);
        lemma_trim_start_len(t, class);
        let n = t.len() - trim_start_spec(t, class).len();
        assert(t.skip(n) =~= s.skip(n + 1));
        assert forall|i: int| 0 <= i < n + 1 implies class.holds(#[trigger] s[i]) by {
            if i > 0 {
                assert(class.holds(t[i - 1]));
            }
        }
    } else {
        assert(s.skip(0) =~= s);
    }
}

/// The longest run of characters of `class` at the start of a text, and what
/// follows it.
pub fn split_lead(s: &str, class: CharClass) -> (r: (String, String))
    ensures
        r.0@ == lead_spec(s@, class),
        r.1@ == trim_start_spec(s@, class),
        s@ == r.0@ + r.1@,
{
    let c = chars_of(s);
    let rest = trim_start_chars(&c, class);
    proof {
        lemma_trim_start_len(s@, class);
    }
    let n: usize = c.len() - rest.len();
    let lead = text_between(&c, 0, n);
    assert(lead@ =~= lead_spec(s@, class));
    let rest = text_of(rest);
    assert(s@ =~= lead@ + rest@);
    (lead, rest)
}

pub proof fn lemma_trim_end_len(s: Seq<char>, class: CharClass)
    ensures
        trim_end_spec(s, class).len() <= s.len(),
        trim_end_spec(s, class) == s.take(trim_end_spec(s, class).len() as int),
    decreases s.len(),
{
    if s.len() > 0 && class.holds(s.last()) {
        let t = s.drop_last();
        lemma_trim_end_len(t, class);
        assert(t.take(trim_end_spec(t, class).len() as int) =~= s.take(
            trim_end_spec(t, class).len() as int,
        ));
    } else {
        assert(s.take(s.len() as int) =~= s);
    }
}

/// Trimming does not make a text longer.
pub proof fn lemma_trim_len(s: Seq<char>, class: CharClass)
    ensures
        trim_class_spec(s, class).len() <= s.len(),
{
    lemma_trim_start_len(s, class);
    lemma_trim_end_len(trim_start_spec(s, class), class);
}

} // verus!
