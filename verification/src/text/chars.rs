//! Characters, and the passage between texts and vectors of characters.
use vstd::prelude::*;

verus! {

/// `String::push` appends one character to the text.
pub assume_specification[ String::push ](text: &mut String, c: char)
    ensures
        final(text)@ == old(text)@.push(c),
;

/// The characters of Unicode's `White_Space` property.
pub open spec fn is_white(c: char) -> bool {
    let n = c as u32;
    ||| 0x09 <= n <= 0x0d
    ||| n == 0x20
    ||| n == 0x85
    ||| n == 0xa0
    ||| n == 0x1680
    ||| 0x2000 <= n <= 0x200a
    ||| n == 0x2028
    ||| n == 0x2029
    ||| n == 0x202f
    ||| n == 0x205f
    ||| n == 0x3000
}

/// Whether `c` is white space.
pub fn white(c: char) -> (r: bool)
    ensures
        r == is_white(c),
{
    let n: u32 = c as u32;
    (0x09 <= n && n <= 0x0d) || n == 0x20 || n == 0x85 || n == 0xa0 || n == 0x1680 || (0x2000 <= n
        && n <= 0x200a) || n == 0x2028 || n == 0x2029 || n == 0x202f || n == 0x205f || n == 0x3000
}

/// The control characters: the general category `Cc`.
pub open spec fn is_control(c: char) -> bool {
    let n = c as u32;
    n < 0x20 || 0x7f <= n < 0xa0
}

/// Whether `c` is a control character.
pub fn control(c: char) -> (r: bool)
    ensures
        r == is_control(c),
{
    let n: u32 = c as u32;
    n < 0x20 || (0x7f <= n && n < 0xa0)
}

pub open spec fn is_digit(c: char) -> bool {
    0x30 <= c as u32 <= 0x39
}

/// Whether `c` is an ASCII digit.
pub fn digit(c: char) -> (r: bool)
    ensures
        r == is_digit(c),
{
    let n: u32 = c as u32;
    0x30 <= n && n <= 0x39
}

pub open spec fn is_ascii_upper(c: char) -> bool {
    0x41 <= c as u32 <= 0x5a
}

pub open spec fn is_ascii_lower(c: char) -> bool {
    0x61 <= c as u32 <= 0x7a
}

/// ASCII letters and digits.
pub open spec fn is_ascii_alnum(c: char) -> bool {
    is_digit(c) || is_ascii_upper(c) || is_ascii_lower(c)
}

/// Whether `c` is an ASCII letter or digit.
pub fn ascii_alnum(c: char) -> (r: bool)
    ensures
        r == is_ascii_alnum(c),
{
    let n: u32 = c as u32;
    (0x30 <= n && n <= 0x39) || (0x41 <= n && n <= 0x5a) || (0x61 <= n && n <= 0x7a)
}

/// The lower-case form of an ASCII capital; every other character is itself.
pub open spec fn lower_char(c: char) -> char {
    if is_ascii_upper(c) {
        ((c as u8) + 0x20) as char
    } else {
        c
    }
}

/// The lower-case form of an ASCII capital; every other character is itself.
pub fn to_lower_char(c: char) -> (r: char)
    ensures
        r == lower_char(c),
{
    let n: u32 = c as u32;
    if 0x41 <= n && n <= 0x5a {
        ((c as u8) + 0x20) as char
    } else {
        c
    }
}

/// The text with its ASCII capitals in lower case.
pub open spec fn ascii_lower(s: Seq<char>) -> Seq<char> {
    s.map_values(|c: char| lower_char(c))
}

/// The views of a sequence of texts.
pub open spec fn views(v: Seq<String>) -> Seq<Seq<char>> {
    v.map_values(|s: String| s@)
}

/// The view of an optional text.
pub open spec fn view_opt(o: Option<String>) -> Option<Seq<char>> {
    match o {
        Some(s) => Some(s@),
        None => None,
    }
}

/// A copy of an optional text.
pub fn copy_opt(o: &Option<String>) -> (r: Option<String>)
    ensures
        view_opt(r) == view_opt(*o),
{
    match o {
        Some(s) => Some(s.clone()),
        None => None,
    }
}

pub proof fn lemma_views_push(v: Seq<String>, s: String)
    ensures
        views(v.push(s)) == views(v).push(s@),
{
    assert(views(v.push(s)) =~= views(v).push(s@));
}

/// A copy of a vector of texts.
pub fn copy_texts(v: &Vec<String>) -> (r: Vec<String>)
    ensures
        views(r@) == views(v@),
{
    let mut r: Vec<String> = Vec::new();
    for i in 0..v.len()
        invariant
            views(r@) == views(v@.take(i as int)),
    {
        assert(v@.take(i + 1) =~= v@.take(i as int).push(v@[i as int]));
        let s = v[i].clone();
        proof {
            lemma_views_push(r@, s);
            lemma_views_push(v@.take(i as int), v@[i as int]);
        }
        r.push(s);
    }
    assert(v@.take(v@.len() as int) =~= v@);
    r
}

/// The characters of a text.
pub fn chars_of(text: &str) -> (r: Vec<char>)
    ensures
        r@ == text@,
{
    let mut r: Vec<char> = Vec::new();
    for c in it: text.chars()
        invariant
            it.seq() == text@,
            r@ == text@.take(it.index()),
    {
        assert(text@.take(it.index() + 1) =~= text@.take(it.index()).push(c));
        r.push(c);
    }
    assert(text@.take(text@.len() as int) =~= text@);
    r
}

/// The text made of `chars`.
pub fn text_of(chars: &[char]) -> (r: String)
    ensures
        r@ == chars@,
{
    let mut r = String::new();
    for i in 0..chars.len()
        invariant
            r@ == chars@.take(i as int),
    {
        assert(chars@.take(i + 1) =~= chars@.take(i as int).push(chars@[i as int]));
        r.push(chars[i]);
    }
    assert(chars@.take(chars@.len() as int) =~= chars@);
    r
}

/// The characters of `chars` from `from` up to `to`, as a text.
pub fn text_between(chars: &[char], from: usize, to: usize) -> (r: String)
    requires
        from <= to <= chars@.len(),
    ensures
        r@ == chars@.subrange(from as int, to as int),
{
    text_of(vstd::slice::slice_subrange(chars, from, to))
}

/// Whether two texts are the same.
pub fn same(a: &str, b: &str) -> (r: bool)
    ensures
        r == (a@ == b@),
{
    a.to_owned() == b.to_owned()
}

/// Whether a text is one of `list`.
pub fn member(list: &Vec<String>, text: &str) -> (r: bool)
    ensures
        r == views(list@).contains(text@),
{
    let wanted = text.to_owned();
    for i in 0..list.len()
        invariant
            wanted@ == text@,
            forall|j: int| 0 <= j < i ==> list@[j]@ != text@,
    {
        if list[i] == wanted {
            assert(views(list@)[i as int] == text@);
            return true;
        }
    }
    assert forall|j: int| 0 <= j < views(list@).len() implies views(list@)[j] != text@ by {
        assert(list@[j]@ != text@);
    }
    false
}

/// The text with its ASCII capitals in lower case.
pub fn to_ascii_lower(text: &str) -> (r: String)
    ensures
        r@ == ascii_lower(text@),
{
    let mut r = String::new();
    for c in it: text.chars()
        invariant
            it.seq() == text@,
            r@ == ascii_lower(text@.take(it.index())),
    {
        assert(ascii_lower(text@.take(it.index() + 1)) =~= ascii_lower(
            text@.take(it.index()),
        ).push(lower_char(c)));
        r.push(to_lower_char(c));
    }
    assert(text@.take(text@.len() as int) =~= text@);
    r
}

/// The lower-case form that Unicode's tables give a text.
pub uninterp spec fn lowercase(text: Seq<char>) -> Seq<char>;

/// A text of ASCII characters.
pub open spec fn is_ascii_text(text: Seq<char>) -> bool {
    forall|i: int| 0 <= i < text.len() ==> ((#[trigger] text[i]) as u32) < 128
}

/// `str::to_lowercase`: a function of the text alone. Of ASCII characters only
/// the capitals change.
#[verifier::external_body]
pub(crate) fn to_lowercase(text: &str) -> (r: String)
    ensures
        r@ == lowercase(text@),
        is_ascii_text(text@) ==> r@ == ascii_lower(text@),
{
    text.to_lowercase()
}

/// Whether Unicode's tables call a character alphabetic or numeric.
pub uninterp spec fn is_alphanumeric(c: char) -> bool;

/// `char::is_alphanumeric`: a function of the character alone. Of ASCII
/// characters it holds of the letters and the digits.
#[verifier::external_body]
pub(crate) fn alphanumeric(c: char) -> (r: bool)
    ensures
        r == is_alphanumeric(c),
        (c as u32) < 128 ==> r == is_ascii_alnum(c),
{
    c.is_alphanumeric()
}

/// The lower-case form that Unicode's tables give a character.
pub uninterp spec fn char_lowercase(c: char) -> Seq<char>;

/// `char::to_lowercase`: a function of the character alone. Of ASCII
/// characters only the capitals change.
#[verifier::external_body]
pub(crate) fn lower_of_char(c: char) -> (r: String)
    ensures
        r@ == char_lowercase(c),
        (c as u32) < 128 ==> r@ == seq![lower_char(c)],
{
    c.to_lowercase().to_string()
}

/// Whether two texts are the same but for the case of ASCII letters.
pub fn same_ignoring_case(a: &str, b: &str) -> (r: bool)
    ensures
        r == (ascii_lower(a@) == ascii_lower(b@)),
{
    to_ascii_lower(a) == to_ascii_lower(b)
}

/// The first `n` characters, or the whole text where it is shorter.
pub open spec fn first_chars(s: Seq<char>, n: int) -> Seq<char> {
    if s.len() <= n {
        s
    } else {
        s.take(n)
    }
}

/// The first `n` characters of a text.
pub fn take_chars(text: &str, n: usize) -> (r: String)
    ensures
        r@ == first_chars(text@, n as int),
{
    let chars = chars_of(text);
    let end: usize = if n < chars.len() {
        n
    } else {
        chars.len()
    };
    let r = text_between(&chars, 0, end);
    assert(r@ =~= first_chars(text@, n as int));
    r
}

/// The text without its first `n` characters.
pub fn skip_chars(text: &str, n: usize) -> (r: String)
    requires
        n <= text@.len(),
    ensures
        r@ == text@.skip(n as int),
{
    let chars = chars_of(text);
    let r = text_between(&chars, n, chars.len());
    assert(r@ =~= text@.skip(n as int));
    r
}

/// The number of bytes of a text in UTF-8.
pub open spec fn byte_len(s: Seq<char>) -> nat {
    vstd::utf8::encode_utf8(s).len()
}

/// The number of bytes of a text in UTF-8.
pub fn utf8_len(text: &str) -> (r: usize)
    ensures
        r == byte_len(text@),
{
    text.as_bytes().len()
}

/// The text that bytes encode, with replacement characters for those that
/// are not UTF-8.
pub uninterp spec fn lossy_text(bytes: Seq<u8>) -> Seq<char>;

/// `String::from_utf8_lossy`: a function of the bytes alone. Bytes that are
/// UTF-8 stand for the text that they encode.
#[verifier::external_body]
pub(crate) fn decode_lossy(bytes: &[u8]) -> (r: String)
    ensures
        r@ == lossy_text(bytes@),
        vstd::utf8::valid_utf8(bytes@) ==> vstd::utf8::encode_utf8(r@) == bytes@,
{
    String::from_utf8_lossy(bytes).into_owned()
}

} // verus!
