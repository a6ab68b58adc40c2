//! An estimate of how many tokens a text takes, and texts cut to fit one.
use vstd::prelude::*;
use crate::text::chars::{chars_of, text_between};

verus! {

/// The number of ASCII characters of a text.
pub open spec fn ascii_count(s: Seq<char>) -> nat
    decreases s.len(),
{
    if s.len() == 0 {
        0
    } else {
        ascii_count(s.drop_last()) + if (s.last() as u32) < 128 {
            1nat
        } else {
            0
        }
    }
}

/// One token for each character beyond ASCII, and one for each three ASCII
/// characters, rounded up.
pub open spec fn tokens(s: Seq<char>) -> nat {
    ((s.len() - ascii_count(s)) + (ascii_count(s) + 2) / 3) as nat
}

pub proof fn lemma_ascii_count(s: Seq<char>)
    ensures
        ascii_count(s) <= s.len(),
    decreases s.len(),
{
    if s.len() > 0 {
        lemma_ascii_count(s.drop_last());
    }
}

pub proof fn lemma_ascii_count_concat(a: Seq<char>, b: Seq<char>)
    ensures
        ascii_count(a + b) == ascii_count(a) + ascii_count(b),
    decreases b.len(),
{
    if b.len() == 0 {
        assert(a + b =~= a);
    } else {
        assert((a + b).drop_last() =~= a + b.drop_last());
        lemma_ascii_count_concat(a, b.drop_last());
    }
}

/// A text takes at most the tokens of its parts.
pub proof fn lemma_tokens_concat(a: Seq<char>, b: Seq<char>)
    ensures
        tokens(a + b) <= tokens(a) + tokens(b),
        tokens(a) <= tokens(a + b),
{
    lemma_ascii_count_concat(a, b);
    lemma_ascii_count(a);
    lemma_ascii_count(b);
}

/// A longer prefix takes no fewer tokens.
pub proof fn lemma_tokens_prefix(s: Seq<char>, i: int, j: int)
    requires
        0 <= i <= j <= s.len(),
    ensures
        tokens(s.take(i)) <= tokens(s.take(j)),
{
    assert(s.take(j) =~= s.take(i) + s.subrange(i, j));
    lemma_tokens_concat(s.take(i), s.subrange(i, j));
}

/// The estimate for a sequence of characters.
pub fn estimate_chars(chars: &[char]) -> (r: usize)
    ensures
        r == tokens(chars@),
{
    let mut ascii: usize = 0;
    let total: usize = chars.len();
    for i in 0..total
        invariant
            total == chars@.len(),
            ascii <= i,
            ascii == ascii_count(chars@.take(i as int)),
    {
        assert(chars@.take(i + 1).drop_last() =~= chars@.take(i as int));
        if (chars[i] as u32) < 128 {
            ascii += 1;
        }
    }
    assert(chars@.take(total as int) =~= chars@);
    let thirds: usize = ascii / 3 + if ascii % 3 > 0 {
        1
    } else {
        0
    };
    (total - ascii) + thirds
}

/// The estimate for a text.
pub fn estimate(text: &str) -> (r: usize)
    ensures
        r == tokens(text@),
{
    estimate_chars(&chars_of(text))
}

/// The length of the longest prefix of at most `n` characters that fits a
/// budget.
pub open spec fn fitting_length(s: Seq<char>, n: int, budget: int) -> int
    decreases n,
{
    if n <= 0 {
        0
    } else if tokens(s.take(n)) <= budget {
        n
    } else {
        fitting_length(s, n - 1, budget)
    }
}

/// The longest prefix of a text that fits a budget.
pub open spec fn fitting_prefix(s: Seq<char>, budget: int) -> Seq<char> {
    s.take(fitting_length(s, s.len() as int, budget))
}

proof fn lemma_fitting(s: Seq<char>, n: int, k: int, budget: int)
    requires
        0 <= k <= n <= s.len(),
        0 <= budget,
        tokens(s.take(k)) <= budget,
        forall|j: int| k < j <= n ==> tokens(#[trigger] s.take(j)) > budget,
    ensures
        fitting_length(s, n, budget) == k,
    decreases n,
{
    if k < n {
        assert(tokens(s.take(n)) > budget);
        lemma_fitting(s, n - 1, k, budget);
    }
}

/// The longest prefix that fits does fit.
pub proof fn lemma_fitting_prefix(s: Seq<char>, n: int, budget: int)
    requires
        0 <= budget,
        0 <= n <= s.len(),
    ensures
        0 <= fitting_length(s, n, budget) <= n,
        tokens(s.take(fitting_length(s, n, budget))) <= budget,
    decreases n,
{
    if n > 0 && tokens(s.take(n)) > budget {
        lemma_fitting_prefix(s, n - 1, budget);
    } else if n == 0 {
        assert(s.take(0) =~= Seq::empty());
        assert(ascii_count(s.take(0)) == 0);
    }
}

/// The longest prefix of a text that fits a budget, by bisection.
pub fn fit_text_prefix(text: &str, budget: usize) -> (r: String)
    ensures
        r@ == fitting_prefix(text@, budget as int),
{
    let c = chars_of(text);
    let total: usize = c.len();
    let mut low: usize = 0;
    let mut high: usize = total;
    assert(c@.take(0) =~= Seq::empty());
    assert(tokens(c@.take(0)) == 0);
    while low < high
        invariant
            low <= high <= total,
            total == c@.len(),
            tokens(c@.take(low as int)) <= budget,
            forall|j: int| high < j <= total ==> tokens(#[trigger] c@.take(j)) > budget,
        decreases high - low,
    {
        let middle: usize = low + (high - low - 1) / 2 + 1;
        let candidate = vstd::slice::slice_subrange(c.as_slice(), 0, middle);
        assert(candidate@ =~= c@.take(middle as int));
        if estimate_chars(candidate) <= budget {
            low = middle;
        } else {
            proof {
                assert forall|j: int| middle - 1 < j <= total implies tokens(#[trigger] c@.take(j))
                    > budget by {
                    lemma_tokens_prefix(c@, middle as int, j);
                }
            }
            high = middle - 1;
        }
    }
    proof {
        lemma_fitting(c@, total as int, low as int, budget as int);
    }
    let r = text_between(&c, 0, low);
    assert(r@ =~= c@.take(low as int));
    r
}

} // verus!
