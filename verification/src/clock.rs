//! The present time, as it is written.
use vstd::prelude::*;
use crate::text::search::has_suffix;

verus! {

pub open spec fn is_digit(c: char) -> bool {
    '0' <= c <= '9'
}

pub open spec fn two_digits(t: Seq<char>, i: int) -> bool {
    is_digit(t[i]) && is_digit(t[i + 1])
}

/// A text is a date, a time of day and an offset, in which `y` characters
/// precede the month: four digits of a year at least, and a sign where there
/// are more or the year is negative. A fraction of the second may stand before
/// the offset.
pub open spec fn stamped(t: Seq<char>, y: int) -> bool {
    let n = t.len();
    &&& 4 <= y && y + 21 <= n
    &&& two_digits(t, y - 4) && two_digits(t, y - 2)
    &&& t[y] == '-' && two_digits(t, y + 1)
    &&& t[y + 3] == '-' && two_digits(t, y + 4)
    &&& t[y + 6] == 'T' && two_digits(t, y + 7)
    &&& t[y + 9] == ':' && two_digits(t, y + 10)
    &&& t[y + 12] == ':' && two_digits(t, y + 13)
    &&& n > y + 21 ==> t[y + 15] == '.' && (forall|i: int|
        y + 15 < i < n - 6 ==> is_digit(#[trigger] t[i]))
    &&& (t[n - 6] == '+' || t[n - 6] == '-') && two_digits(t, n - 5)
    &&& t[n - 3] == ':' && two_digits(t, n - 2)
}

/// A time in the form of RFC 3339, such as `1996-12-19T16:39:57-08:00`.
pub open spec fn is_rfc3339(t: Seq<char>) -> bool {
    exists|y: int| #[trigger] stamped(t, y)
}

/// `chrono::Utc::now` and `to_rfc3339`: the present time, which is open, in the
/// form of RFC 3339 and with the offset of universal time.
#[verifier::external_body]
pub(crate) fn utc_now() -> (r: String)
    ensures
        is_rfc3339(r@),
        has_suffix(r@, "+00:00"@),
{
    chrono::Utc::now().to_rfc3339()
}

/// `chrono::Local::now` and `to_rfc3339`: the present time and the machine's
/// offset, which are open, in the form of RFC 3339.
#[verifier::external_body]
pub(crate) fn local_now() -> (r: String)
    ensures
        is_rfc3339(r@),
{
    chrono::Local::now().to_rfc3339()
}

} // verus!
