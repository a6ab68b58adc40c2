//! Numbers as texts.
use vstd::prelude::*;
use crate::text::chars::{chars_of, digit, is_digit};

verus! {

/// The ASCII digit of a number below ten.
pub open spec fn digit_char(d: nat) -> char {
    ((0x30 + d) as u8) as char
}

/// The decimal form of a number, without leading zeros.
pub open spec fn dec(n: nat) -> Seq<char>
    decreases n,
{
    if n < 10 {
        seq![digit_char(n)]
    } else {
        dec(n / 10).push(digit_char(n % 10))
    }
}

/// The decimal form of a number.
pub fn decimal(n: u128) -> (r: String)
    ensures
        r@ == dec(n as nat),
    decreases n,
{
    let mut r = String::new();
    let d: u8 = (n % 10) as u8;
    if n >= 10 {
        r = decimal(n / 10);
    }
    r.push((0x30u8 + d) as char);
    assert(r@ =~= dec(n as nat));
    r
}

/// The decimal form of a size.
pub fn decimal_size(n: usize) -> (r: String)
    ensures
        r@ == dec(n as nat),
{
    decimal(n as u128)
}

/// The hexadecimal digit of a number below sixteen.
pub open spec fn hex_char(d: nat) -> char {
    if d < 10 {
        ((0x30 + d) as u8) as char
    } else {
        ((0x57 + d) as u8) as char
    }
}

/// The hexadecimal form of a number, with leading zeros up to `width` digits.
pub open spec fn hex(n: nat, width: nat) -> Seq<char>
    decreases n, width,
{
    if n < 16 && width <= 1 {
        seq![hex_char(n)]
    } else {
        hex(n / 16, if width == 0 { 0 } else { (width - 1) as nat }).push(hex_char(n % 16))
    }
}

/// The hexadecimal form of a number, with leading zeros up to `width` digits.
pub fn hexadecimal(n: u64, width: usize) -> (r: String)
    ensures
        r@ == hex(n as nat, width as nat),
    decreases n, width,
{
    let d: u8 = (n % 16) as u8;
    let c: char = if d < 10 {
        (0x30u8 + d) as char
    } else {
        (0x57u8 + d) as char
    };
    let mut r = String::new();
    if n >= 16 || width > 1 {
        r = hexadecimal(n / 16, if width == 0 { 0 } else { width - 1 });
    }
    r.push(c);
    assert(r@ =~= hex(n as nat, width as nat));
    r
}

/// `hex` has at least `width` digits, and at least one.
pub proof fn lemma_hex_width(n: nat, width: nat)
    ensures
        hex(n, width).len() >= width,
        hex(n, width).len() >= 1,
    decreases n, width,
{
    if !(n < 16 && width <= 1) {
        lemma_hex_width(n / 16, if width == 0 { 0 } else { (width - 1) as nat });
    }
}

/// Sixteen to a power: how many numbers `width` digits can tell apart.
pub open spec fn hex_range(width: nat) -> nat
    decreases width,
{
    if width == 0 {
        1
    } else {
        16 * hex_range((width - 1) as nat)
    }
}

/// `hex` has exactly `width` digits where the number has no more.
pub proof fn lemma_hex_exact(n: nat, width: nat)
    requires
        width >= 1,
        n < hex_range(width),
    ensures
        hex(n, width).len() == width,
    decreases width,
{
    if width > 1 {
        let less = (width - 1) as nat;
        assert(n / 16 < hex_range(less)) by (nonlinear_arith)
            requires
                n < 16 * hex_range(less),
        ;
        lemma_hex_exact(n / 16, less);
    } else {
        assert(hex_range(0) == 1);
        assert(hex_range(1) == 16);
    }
}

pub open spec fn all_digits(s: Seq<char>) -> bool {
    forall|i: int| 0 <= i < s.len() ==> is_digit(#[trigger] s[i])
}

/// The number that a sequence of digits denotes.
pub open spec fn digits_value(s: Seq<char>) -> nat
    decreases s.len(),
{
    if s.len() == 0 {
        0
    } else {
        digits_value(s.drop_last()) * 10 + (s.last() as u32 - 0x30) as nat
    }
}

/// The number that a text denotes: digits, after an optional plus sign, whose
/// value is at most `limit`.
pub open spec fn number_spec(s: Seq<char>, limit: nat) -> Option<nat> {
    let body = if s.len() > 0 && s[0] == '+' {
        s.skip(1)
    } else {
        s
    };
    if body.len() > 0 && all_digits(body) && digits_value(body) <= limit {
        Some(digits_value(body))
    } else {
        None
    }
}

proof fn lemma_digits_prefix(s: Seq<char>, i: int)
    requires
        all_digits(s),
        0 <= i <= s.len(),
    ensures
        digits_value(s.take(i)) <= digits_value(s),
    decreases s.len() - i,
{
    if i < s.len() {
        assert(s.take(i + 1).drop_last() =~= s.take(i));
        assert(s.take(i + 1).last() == s[i]);
        lemma_digits_prefix(s, i + 1);
    } else {
        assert(s.take(i) =~= s);
    }
}

/// The number that a text denotes, up to `limit`.
pub fn parse_number(text: &str, limit: u64) -> (r: Option<u64>)
    ensures
        match r {
            Some(n) => number_spec(text@, limit as nat) == Some(n as nat),
            None => number_spec(text@, limit as nat) is None,
        },
{
    let c = chars_of(text);
    let start: usize = if c.len() > 0 && c[0] == '+' {
        1
    } else {
        0
    };
    let ghost body = if start == 1 {
        text@.skip(1)
    } else {
        text@
    };
    assert(body =~= c@.skip(start as int));
    if c.len() == start {
        return None;
    }
    let mut n: u64 = 0;
    for i in start..c.len()
        invariant
            start <= i <= c@.len(),
            c@ == text@,
            body == c@.skip(start as int),
            body == if text@.len() > 0 && text@[0] == '+' {
                text@.skip(1)
            } else {
                text@
            },
            all_digits(body.take(i - start)),
            n == digits_value(body.take(i - start)),
            n <= limit,
    {
        let ghost k = i - start;
        assert(body.take(k + 1).drop_last() =~= body.take(k));
        assert(body[k] == c@[i as int]);
        if !digit(c[i]) {
            assert(!is_digit(body[k]));
            return None;
        }
        let d: u64 = (c[i] as u32 - 0x30) as u64;
        proof {
            assert(body.take(k + 1).last() == c@[i as int]);
            if all_digits(body) {
                lemma_digits_prefix(body, k + 1);
            }
            assert(digits_value(body.take(k + 1)) == n * 10 + d);
        }
        if d > limit || n > (limit - d) / 10 {
            return None;
        }
        n = n * 10 + d;
        assert forall|j: int| 0 <= j < k + 1 implies is_digit(#[trigger] body.take(k + 1)[j]) by {
            if j < k {
                assert(body.take(k)[j] == body.take(k + 1)[j]);
            }
        }
    }
    assert(body.take(c@.len() - start) =~= body);
    Some(n)
}

} // verus!
