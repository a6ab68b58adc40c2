//! What splitting, joining, trimming and writing numbers keep.
use vstd::prelude::*;
use vstd::arithmetic::power::pow;
use crate::paths::{lemma_char_number, text_order, Order};
use crate::text::chars::is_digit;
use crate::text::number::{all_digits, dec, digit_char, digits_value, hex, hex_char};
use crate::text::pieces::{lemma_trim_end_len, lemma_trim_start_len, lines_spec, pieces, trim_class_spec, trim_end_spec, trim_start_spec, without_return, CharClass};
use crate::text::search::{after_prefix, before_suffix, find_from, has_text, join_spec, lemma_find_from, occurs_at, replace_first_spec, replace_spec, split_spec};

verus! {

/// Joining a list that has one more text in front.
pub proof fn lemma_join_first(first: Seq<char>, rest: Seq<Seq<char>>, sep: Seq<char>)
    requires
        rest.len() > 0,
    ensures
        join_spec(seq![first] + rest, sep) == first + sep + join_spec(rest, sep),
    decreases rest.len(),
{
    let all = seq![first] + rest;
    assert(all.drop_last() =~= seq![first] + rest.drop_last());
    assert(all.last() == rest.last());
    if rest.len() == 1 {
        assert(all.drop_last() =~= seq![first]);
        assert(join_spec(seq![first], sep) == first);
    } else {
        lemma_join_first(first, rest.drop_last(), sep);
        assert(join_spec(all, sep) =~= first + sep + (join_spec(rest.drop_last(), sep) + sep
            + rest.last()));
    }
}

/// Joining two lists.
pub proof fn law_join_in_two(a: Seq<Seq<char>>, b: Seq<Seq<char>>, sep: Seq<char>)
    requires
        a.len() > 0,
        b.len() > 0,
    ensures
        join_spec(a + b, sep) == join_spec(a, sep) + sep + join_spec(b, sep),
    decreases b.len(),
{
    assert((a + b).last() == b.last());
    assert((a + b).drop_last() =~= a + b.drop_last());
    if b.len() == 1 {
        assert(a + b.drop_last() =~= a);
    } else {
        law_join_in_two(a, b.drop_last(), sep);
        assert(join_spec(a + b, sep) =~= join_spec(a, sep) + sep + (join_spec(b.drop_last(), sep)
            + sep + b.last()));
    }
}

/// Splitting a text loses nothing but the separators: joined again the parts
/// are the text, and no part holds a separator.
pub proof fn law_split_parts_make_the_text(s: Seq<char>, sep: Seq<char>)
    requires
        sep.len() > 0,
    ensures
        join_spec(split_spec(s, sep), sep) == s,
        split_spec(s, sep).len() > 0,
        forall|i: int|
            0 <= i < split_spec(s, sep).len() ==> !has_text(#[trigger] split_spec(s, sep)[i], sep),
    decreases s.len(),
{
    lemma_find_from(s, sep, 0);
    match find_from(s, sep, 0) {
        Some(i) => {
            let rest = s.skip(i + sep.len());
            law_split_parts_make_the_text(rest, sep);
            let parts = split_spec(rest, sep);
            lemma_join_first(s.take(i), parts, sep);
            assert(s =~= s.take(i) + sep + rest) by {
                assert(s.subrange(i, i + sep.len()) == sep);
                assert forall|k: int| 0 <= k < sep.len() implies s[i + k] == sep[k] by {
                    assert(s.subrange(i, i + sep.len())[k] == sep[k]);
                }
            }
            assert(!has_text(s.take(i), sep)) by {
                if has_text(s.take(i), sep) {
                    let j = choose|j: int| occurs_at(s.take(i), sep, j);
                    assert(s.take(i).subrange(j, j + sep.len()) =~= s.subrange(j, j + sep.len()));
                    assert(occurs_at(s, sep, j));
                }
            }
            let all = seq![s.take(i)] + parts;
            assert forall|k: int| 0 <= k < all.len() implies !has_text(#[trigger] all[k], sep) by {
                if k > 0 {
                    assert(all[k] == parts[k - 1]);
                }
            }
        },
        None => {
            if has_text(s, sep) {
                let j = choose|j: int| occurs_at(s, sep, j);
            }
        },
    }
}

/// The pieces of a text between one character hold all of it: joined again
/// they are the text, and no piece holds the character.
pub proof fn law_pieces_make_the_text(s: Seq<char>, c: char)
    ensures
        join_spec(pieces(s, CharClass::Only(c)), seq![c]) == s,
        pieces(s, CharClass::Only(c)).len() > 0,
        forall|i: int|
            0 <= i < pieces(s, CharClass::Only(c)).len() ==> !(#[trigger] pieces(
                s,
                CharClass::Only(c),
            )[i]).contains(c),
    decreases s.len(),
{
    let list = pieces(s, CharClass::Only(c));
    if s.len() == 0 {
        assert(list =~= seq![Seq::<char>::empty()]);
        assert(s =~= Seq::empty());
    } else {
        let front = s.drop_last();
        law_pieces_make_the_text(front, c);
        let before = pieces(front, CharClass::Only(c));
        assert(front.push(s.last()) =~= s);
        if s.last() == c {
            assert(list =~= before.push(Seq::empty()));
            assert(list.drop_last() =~= before);
            assert(front + seq![c] + Seq::<char>::empty() =~= s);
        } else {
            let grown = before.last().push(s.last());
            assert(list =~= before.drop_last().push(grown));
            assert(list.drop_last() =~= before.drop_last());
            assert forall|i: int| 0 <= i < list.len() implies !(#[trigger] list[i]).contains(
                c,
            ) by {
                assert(!before[i].contains(c));
                if i == list.len() - 1 && grown.contains(c) {
                    let j = choose|j: int| 0 <= j < grown.len() && grown[j] == c;
                    assert(before.last()[j] == c);
                }
            }
            if before.len() == 1 {
                assert(before[0] == before.last());
                assert(list[0] =~= s);
            } else {
                assert(join_spec(before.drop_last(), seq![c]) + seq![c] + grown =~= (join_spec(
                    before.drop_last(),
                    seq![c],
                ) + seq![c] + before.last()).push(s.last()));
            }
        }
    }
}

proof fn lemma_piece_behind(a: Seq<char>, p: Seq<char>, c: char)
    requires
        !p.contains(c),
    ensures
        pieces(a + seq![c] + p, CharClass::Only(c)) == pieces(a, CharClass::Only(c)).push(p),
    decreases p.len(),
{
    let whole = a + seq![c] + p;
    if p.len() == 0 {
        assert(whole.drop_last() =~= a);
        assert(p =~= Seq::empty());
    } else {
        assert(whole.drop_last() =~= a + seq![c] + p.drop_last());
        assert forall|d: char| p.drop_last().contains(d) implies p.contains(d) by {
            let j = choose|j: int| 0 <= j < p.len() - 1 && p.drop_last()[j] == d;
            assert(p[j] == d);
        }
        assert(p.contains(p.last()));
        lemma_piece_behind(a, p.drop_last(), c);
        let before = pieces(a, CharClass::Only(c)).push(p.drop_last());
        assert(before.drop_last() =~= pieces(a, CharClass::Only(c)));
        assert(p.drop_last().push(p.last()) =~= p);
    }
}

proof fn lemma_one_piece(p: Seq<char>, c: char)
    requires
        !p.contains(c),
    ensures
        pieces(p, CharClass::Only(c)) == seq![p],
    decreases p.len(),
{
    if p.len() > 0 {
        assert forall|d: char| p.drop_last().contains(d) implies p.contains(d) by {
            let j = choose|j: int| 0 <= j < p.len() - 1 && p.drop_last()[j] == d;
            assert(p[j] == d);
        }
        assert(p.contains(p.last()));
        lemma_one_piece(p.drop_last(), c);
        assert(p.drop_last().push(p.last()) =~= p);
        assert(seq![p.drop_last()].drop_last().push(p) =~= seq![p]);
    } else {
        assert(p =~= Seq::empty());
    }
}

/// Texts that are joined by a character that none of them holds are the pieces
/// of the whole.
pub proof fn law_joined_texts_are_its_pieces(list: Seq<Seq<char>>, c: char)
    requires
        list.len() > 0,
        forall|i: int| 0 <= i < list.len() ==> !(#[trigger] list[i]).contains(c),
    ensures
        pieces(join_spec(list, seq![c]), CharClass::Only(c)) == list,
    decreases list.len(),
{
    if list.len() == 1 {
        lemma_one_piece(list[0], c);
        assert(seq![list[0]] =~= list);
    } else {
        let front = list.drop_last();
        assert forall|i: int| 0 <= i < front.len() implies !(#[trigger] front[i]).contains(c) by {
            assert(front[i] == list[i]);
        }
        law_joined_texts_are_its_pieces(front, c);
        assert(!list[list.len() - 1].contains(c));
        lemma_piece_behind(join_spec(front, seq![c]), list.last(), c);
        assert(front.push(list.last()) =~= list);
    }
}

/// The pieces of a text between the characters of any class hold none of them,
/// and all other characters in order.
pub proof fn law_pieces_hold_the_rest(s: Seq<char>, class: CharClass)
    ensures
        pieces(s, class).len() > 0,
        pieces(s, class).flatten() == s.filter(|c: char| !class.holds(c)),
        pieces(s, class).len() == 1 + s.filter(|c: char| class.holds(c)).len(),
    decreases s.len(),
{
    let out = |c: char| !class.holds(c);
    let sep = |c: char| class.holds(c);
    reveal(Seq::filter);
    let list = pieces(s, class);
    if s.len() == 0 {
        list.lemma_flatten_and_flatten_alt_are_equivalent();
        assert(list =~= seq![Seq::<char>::empty()]);
        assert(list.drop_last() =~= Seq::empty());
        assert(Seq::<Seq<char>>::empty().flatten_alt() =~= Seq::<char>::empty());
        assert(list.last() =~= Seq::<char>::empty());
        assert(list.flatten_alt() =~= Seq::empty());
        assert(s.filter(out) =~= Seq::empty());
        assert(s.filter(sep) =~= Seq::empty());
    } else {
        let front = s.drop_last();
        law_pieces_hold_the_rest(front, class);
        let before = pieces(front, class);
        list.lemma_flatten_and_flatten_alt_are_equivalent();
        before.lemma_flatten_and_flatten_alt_are_equivalent();
        if class.holds(s.last()) {
            assert(list.drop_last() =~= before);
            assert(list.flatten_alt() =~= before.flatten_alt());
        } else {
            assert(list.drop_last() =~= before.drop_last());
            assert(list.flatten_alt() =~= before.flatten_alt().push(s.last()));
        }
    }
}

/// Trimming takes away the characters of a class at both ends, and nothing
/// else.
pub proof fn law_trimming_cuts_the_ends(s: Seq<char>, class: CharClass)
    ensures
        ({
            let t = trim_class_spec(s, class);
            &&& t.len() > 0 ==> !class.holds(t[0]) && !class.holds(t.last())
            &&& exists|i: int, j: int|
                0 <= i <= j <= s.len() && #[trigger] s.subrange(i, j) == t && (forall|k: int|
                    0 <= k < i || j <= k < s.len() ==> class.holds(#[trigger] s[k]))
        }),
{
    let a = trim_start_spec(s, class);
    let t = trim_class_spec(s, class);
    lemma_trim_start_len(s, class);
    lemma_trim_start_ends(s, class);
    lemma_trim_end_ends(a, class);
    lemma_trim_end_len(a, class);
    let i = s.len() - a.len();
    let j = i + t.len();
    assert(s.subrange(i, j) =~= t);
    assert forall|k: int| 0 <= k < i || j <= k < s.len() implies class.holds(#[trigger] s[k]) by {
        if k >= j {
            assert(a[k - i] == s[k]);
        }
    }
    if t.len() > 0 {
        assert(t[0] == a[0]);
    }
}

proof fn lemma_trim_start_ends(s: Seq<char>, class: CharClass)
    ensures
        trim_start_spec(s, class).len() > 0 ==> !class.holds(trim_start_spec(s, class)[0]),
    decreases s.len(),
{
    if s.len() > 0 && class.holds(s[0]) {
        lemma_trim_start_ends(s.skip(1), class);
    }
}

proof fn lemma_trim_end_ends(s: Seq<char>, class: CharClass)
    ensures
        trim_end_spec(s, class).len() > 0 ==> !class.holds(trim_end_spec(s, class).last()),
        forall|i: int|
            trim_end_spec(s, class).len() <= i < s.len() ==> class.holds(#[trigger] s[i]),
    decreases s.len(),
{
    if s.len() > 0 && class.holds(s.last()) {
        let t = s.drop_last();
        lemma_trim_end_ends(t, class);
        assert forall|i: int| trim_end_spec(s, class).len() <= i < s.len() implies class.holds(
            #[trigger] s[i],
        ) by {
            if i < t.len() {
                assert(t[i] == s[i]);
            }
        }
    }
}

/// A text whose ends do not belong to a class is not trimmed.
pub proof fn lemma_trim_nothing(s: Seq<char>, class: CharClass)
    requires
        s.len() > 0,
        !class.holds(s[0]),
        !class.holds(s.last()),
    ensures
        trim_class_spec(s, class) == s,
{
}

/// The lines of a text without carriage returns, joined by line feeds, are the
/// text but for a line feed at its end.
pub proof fn law_lines_make_the_text(s: Seq<char>)
    requires
        !s.contains('\r'),
    ensures
        s.len() > 0 ==> ({
            let joined = join_spec(lines_spec(s), seq!['\n']);
            s == joined || s == joined.push('\n')
        }),
        s.len() == 0 ==> lines_spec(s).len() == 0,
        forall|i: int| 0 <= i < lines_spec(s).len() ==> !(#[trigger] lines_spec(s)[i]).contains('\n'),
{
    let parts = pieces(s, CharClass::Only('\n'));
    law_pieces_make_the_text(s, '\n');
    lemma_pieces_within(s, CharClass::Only('\n'));
    let ended = parts.drop_last().map_values(|p: Seq<char>| without_return(p));
    assert forall|i: int| 0 <= i < parts.len() - 1 implies #[trigger] ended[i] == parts[i] by {
        if parts[i].len() > 0 && parts[i].last() == '\r' {
            assert(parts[i].contains('\r'));
        }
    }
    assert(ended =~= parts.drop_last());
    assert(parts[parts.len() - 1] == parts.last());
    if s.len() == 0 {
        assert(parts =~= seq![Seq::<char>::empty()]);
    } else if parts.last().len() == 0 {
        assert(parts.last() =~= Seq::empty());
        if parts.len() == 1 {
            assert(parts[0] == s);
        } else {
            assert(s =~= join_spec(ended, seq!['\n']).push('\n'));
        }
    } else {
        assert(ended.push(parts.last()) =~= parts);
    }
    assert forall|i: int| 0 <= i < lines_spec(s).len() implies !(#[trigger] lines_spec(
        s,
    )[i]).contains('\n') by {
        assert(lines_spec(s)[i] == parts[i]);
    }
}

/// The characters of the pieces are characters of the text.
pub proof fn lemma_pieces_within(s: Seq<char>, class: CharClass)
    ensures
        forall|i: int, c: char|
            #![trigger pieces(s, class)[i].contains(c)]
            0 <= i < pieces(s, class).len() && pieces(s, class)[i].contains(c) ==> s.contains(c),
    decreases s.len(),
{
    let list = pieces(s, class);
    if s.len() > 0 {
        let front = s.drop_last();
        lemma_pieces_within(front, class);
        let before = pieces(front, class);
        assert forall|i: int, c: char|
            #![trigger list[i].contains(c)]
            0 <= i < list.len() && list[i].contains(c) implies s.contains(c) by {
            let j = choose|j: int| 0 <= j < list[i].len() && list[i][j] == c;
            if i < before.len() && j < before[i].len() {
                assert(before[i][j] == c);
                assert(before[i].contains(c));
                let k = choose|k: int| 0 <= k < front.len() && front[k] == c;
                assert(s[k] == c);
            } else {
                assert(s[s.len() - 1] == c);
            }
        }
    } else {
        assert(list =~= seq![Seq::<char>::empty()]);
    }
}

/// The value of digits that stand one group behind the other.
pub proof fn law_digits_are_decimal(a: Seq<char>, b: Seq<char>)
    ensures
        digits_value(a + b) == digits_value(a) * pow(10, b.len()) + digits_value(b),
        forall|c: char| is_digit(c) ==> digits_value(#[trigger] seq![c]) == c as u32 - '0' as u32,
    decreases b.len(),
{
    assert forall|c: char| is_digit(c) implies digits_value(#[trigger] seq![c]) == c as u32
        - '0' as u32 by {
        assert(seq![c].drop_last() =~= Seq::empty());
        assert(digits_value(Seq::<char>::empty()) == 0);
    }
    if b.len() == 0 {
        assert(a + b =~= a);
        vstd::arithmetic::power::lemma_pow0(10);
        assert(digits_value(a) * 1 == digits_value(a));
    } else {
        assert((a + b).drop_last() =~= a + b.drop_last());
        assert((a + b).last() == b.last());
        law_digits_are_decimal(a, b.drop_last());
        let n = b.drop_last().len();
        vstd::arithmetic::power::lemma_pow_adds(10, n, 1);
        vstd::arithmetic::power::lemma_pow1(10);
        let x = digits_value(a) as int;
        let p = pow(10, n);
        assert((x * p) * 10 == x * (p * 10)) by (nonlinear_arith);
        assert((x * p + digits_value(b.drop_last())) * 10 == (x * p) * 10 + digits_value(
            b.drop_last(),
        ) * 10) by (nonlinear_arith);
    }
}

/// The decimal form of a number is made of digits, has the number as its value,
/// and does not begin with a zero unless it is one.
pub proof fn law_decimal_form_has_the_value(n: nat)
    ensures
        all_digits(dec(n)),
        dec(n).len() > 0,
        digits_value(dec(n)) == n,
        n > 0 ==> dec(n)[0] != '0',
    decreases n,
{
    if n < 10 {
        assert(dec(n).drop_last() =~= Seq::empty());
        assert(digits_value(Seq::<char>::empty()) == 0);
        assert(dec(n).last() == digit_char(n));
    } else {
        law_decimal_form_has_the_value(n / 10);
        assert(dec(n).drop_last() =~= dec(n / 10));
        assert(dec(n).last() == digit_char(n % 10));
        assert forall|i: int| 0 <= i < dec(n).len() implies is_digit(#[trigger] dec(n)[i]) by {
            if i < dec(n / 10).len() {
                assert(dec(n)[i] == dec(n / 10)[i]);
            }
        }
        assert(dec(n)[0] == dec(n / 10)[0]);
    }
}

/// Different numbers have different decimal forms.
pub proof fn law_decimal_forms_differ(m: nat, n: nat)
    requires
        m != n,
    ensures
        dec(m) != dec(n),
{
    law_decimal_form_has_the_value(m);
    law_decimal_form_has_the_value(n);
}

/// Texts are ordered by the first place in which they differ; a text that goes
/// on comes behind the one that ends there.
pub proof fn law_texts_are_ordered_by_their_first_difference(
    a: Seq<char>,
    b: Seq<char>,
    i: int,
)
    requires
        0 <= i <= a.len(),
        i <= b.len(),
        a.take(i) == b.take(i),
    ensures
        i < a.len() && i < b.len() && (a[i] as u32) < (b[i] as u32) ==> text_order(a, b)
            == Order::Less && text_order(b, a) == Order::Greater,
        i == a.len() && i < b.len() ==> text_order(a, b) == Order::Less && text_order(b, a)
            == Order::Greater,
        i == a.len() && i == b.len() ==> text_order(a, b) == Order::Equal,
    decreases i,
{
    if i > 0 {
        assert(a[0] == a.take(i)[0] && b[0] == b.take(i)[0]);
        assert(i < a.len() ==> a.skip(1)[i - 1] == a[i]);
        assert(i < b.len() ==> b.skip(1)[i - 1] == b[i]);
        assert(a.skip(1).take(i - 1) =~= a.take(i).skip(1));
        assert(b.skip(1).take(i - 1) =~= b.take(i).skip(1));
        law_texts_are_ordered_by_their_first_difference(a.skip(1), b.skip(1), i - 1);
    }
}

/// The order of texts is total: exactly one of two texts comes first, unless they
/// are the same.
pub proof fn law_text_order_is_total(a: Seq<char>, b: Seq<char>)
    ensures
        text_order(a, b) == Order::Less <==> text_order(b, a) == Order::Greater,
        text_order(a, b) == Order::Equal <==> a == b,
    decreases a.len(),
{
    crate::paths::lemma_text_order_equal(a, b);
    if a.len() > 0 && b.len() > 0 {
        lemma_char_number(a[0], b[0]);
        law_text_order_is_total(a.skip(1), b.skip(1));
    }
}

/// The order of texts is transitive.
pub proof fn law_text_order_is_transitive(a: Seq<char>, b: Seq<char>, c: Seq<char>)
    requires
        text_order(b, a) != Order::Less,
        text_order(c, b) != Order::Less,
    ensures
        text_order(c, a) != Order::Less,
    decreases a.len(),
{
    if a.len() > 0 && b.len() > 0 && c.len() > 0 {
        lemma_char_number(a[0], b[0]);
        lemma_char_number(b[0], c[0]);
        lemma_char_number(a[0], c[0]);
        if a[0] == b[0] && b[0] == c[0] {
            law_text_order_is_transitive(a.skip(1), b.skip(1), c.skip(1));
        }
    }
}

/// A line holds no line feed.
pub proof fn lemma_lines_hold_no_feed(s: Seq<char>)
    ensures
        forall|i: int| 0 <= i < lines_spec(s).len() ==> !(#[trigger] lines_spec(s)[i]).contains('\n'),
{
    let parts = pieces(s, CharClass::Only('\n'));
    law_pieces_make_the_text(s, '\n');
    let all = lines_spec(s);
    assert forall|i: int| 0 <= i < all.len() implies !(#[trigger] all[i]).contains('\n') by {
        assert(!parts[i].contains('\n'));
        if all[i].contains('\n') {
            let j = choose|j: int| 0 <= j < all[i].len() && all[i][j] == '\n';
            assert(parts[i][j] == '\n');
        }
    }
}

/// The digits of a number hold none of the other characters.
pub proof fn lemma_decimal_holds_digits(n: nat, c: char)
    requires
        !is_digit(c),
    ensures
        !dec(n).contains(c),
{
    law_decimal_form_has_the_value(n);
}

/// Trimming gives back a text from within the characters that stand around it.
pub proof fn law_trimming_gives_the_text_back(
    a: Seq<char>,
    x: Seq<char>,
    b: Seq<char>,
    class: CharClass,
)
    requires
        x.len() > 0,
        !class.holds(x[0]),
        !class.holds(x.last()),
        forall|k: int| 0 <= k < a.len() ==> class.holds(#[trigger] a[k]),
        forall|k: int| 0 <= k < b.len() ==> class.holds(#[trigger] b[k]),
    ensures
        trim_class_spec(a + x + b, class) == x,
{
    let s = a + x + b;
    law_trimming_cuts_the_ends(s, class);
    let t = trim_class_spec(s, class);
    let (i, j) = choose|i: int, j: int|
        0 <= i <= j <= s.len() && #[trigger] s.subrange(i, j) == t && (forall|k: int|
            0 <= k < i || j <= k < s.len() ==> class.holds(#[trigger] s[k]));
    let first = a.len() as int;
    let last = a.len() + x.len() - 1;
    assert(s[first] == x[0]);
    assert(s[last] == x.last());
    assert(t[0] == s[i]);
    assert(t.last() == s[j - 1]);
    if i < first {
        assert(s[i] == a[i]);
    }
    if j - 1 > last {
        assert(s[j - 1] == b[j - 1 - last - 1]);
    }
    assert(s.subrange(first, last + 1) =~= x);
}

/// A character of the class cuts a text in two: its pieces are those of the one
/// side and those of the other.
pub proof fn law_pieces_in_two(a: Seq<char>, c: char, b: Seq<char>, class: CharClass)
    requires
        class.holds(c),
    ensures
        pieces(a + seq![c] + b, class) == pieces(a, class) + pieces(b, class),
    decreases b.len(),
{
    let s = a + seq![c] + b;
    law_pieces_hold_the_rest(b, class);
    if b.len() == 0 {
        assert(s.drop_last() =~= a);
        assert(pieces(s, class) =~= pieces(a, class) + pieces(b, class));
    } else {
        let front = b.drop_last();
        assert(s.drop_last() =~= a + seq![c] + front);
        law_pieces_in_two(a, c, front, class);
        law_pieces_hold_the_rest(front, class);
        let (x, y) = (pieces(a, class), pieces(front, class));
        if class.holds(b.last()) {
            assert((x + y).push(Seq::empty()) =~= x + y.push(Seq::empty()));
        } else {
            assert((x + y).last() == y.last());
            assert((x + y).drop_last() =~= x + y.drop_last());
            let grown = y.last().push(b.last());
            assert((x + y.drop_last()).push(grown) =~= x + y.drop_last().push(grown));
        }
    }
}

/// A text without characters of the class is one piece.
pub proof fn law_one_piece_stays_whole(s: Seq<char>, class: CharClass)
    requires
        forall|i: int| 0 <= i < s.len() ==> !class.holds(#[trigger] s[i]),
    ensures
        pieces(s, class) == seq![s],
    decreases s.len(),
{
    if s.len() == 0 {
        assert(s =~= Seq::empty());
    } else {
        let front = s.drop_last();
        assert forall|i: int| 0 <= i < front.len() implies !class.holds(#[trigger] front[i]) by {
            assert(front[i] == s[i]);
        }
        law_one_piece_stays_whole(front, class);
        assert(!class.holds(s[s.len() - 1]));
        assert(front.push(s.last()) =~= s);
        assert(pieces(s, class) =~= seq![s]);
    }
}

/// A word that stands between characters of the class, or at an end of the text,
/// is among its pieces.
pub proof fn law_words_are_pieces(a: Seq<char>, w: Seq<char>, b: Seq<char>, class: CharClass)
    requires
        forall|i: int| 0 <= i < w.len() ==> !class.holds(#[trigger] w[i]),
        a.len() > 0 ==> class.holds(a.last()),
        b.len() > 0 ==> class.holds(b[0]),
    ensures
        pieces(a + w + b, class).contains(w),
{
    law_one_piece_stays_whole(w, class);
    let s = a + w + b;
    let right = if b.len() > 0 {
        pieces(w, class) + pieces(b.skip(1), class)
    } else {
        pieces(w, class)
    };
    assert(pieces(w + b, class) == right) by {
        if b.len() > 0 {
            assert(w + b =~= w + seq![b[0]] + b.skip(1));
            law_pieces_in_two(w, b[0], b.skip(1), class);
        } else {
            assert(w + b =~= w);
        }
    }
    assert(right[0] == w);
    if a.len() > 0 {
        let front = a.drop_last();
        assert(s =~= front + seq![a.last()] + (w + b));
        law_pieces_in_two(front, a.last(), w + b, class);
        let left = pieces(front, class);
        assert((left + right)[left.len() as int] == w);
    } else {
        assert(s =~= w + b);
    }
}

/// Replacing changes every place, from the front on, and leaves the text between
/// the places as it is.
pub proof fn law_replacing_changes_every_place(
    a: Seq<char>,
    b: Seq<char>,
    from: Seq<char>,
    to: Seq<char>,
)
    requires
        from.len() > 0,
        forall|j: int| 0 <= j < a.len() ==> !occurs_at(a + from, from, j),
    ensures
        replace_spec(a + from + b, from, to) == a + to + replace_spec(b, from, to),
        !has_text(b, from) ==> replace_spec(b, from, to) == b,
{
    let s = a + from + b;
    let n = a.len() as int;
    lemma_find_from(s, from, 0);
    assert(s.subrange(n, n + from.len()) =~= from);
    assert(occurs_at(s, from, n));
    let i = find_from(s, from, 0)->0;
    if i < n {
        assert(s.subrange(i, i + from.len()) =~= (a + from).subrange(i, i + from.len()));
        assert(occurs_at(a + from, from, i));
    }
    assert(s.take(n) =~= a);
    assert(s.skip(n + from.len()) =~= b);
    law_split_parts_make_the_text(b, from);
    lemma_join_first(a, split_spec(b, from), to);
    if !has_text(b, from) {
        lemma_find_from(b, from, 0);
        if find_from(b, from, 0) is Some {
            assert(occurs_at(b, from, find_from(b, from, 0)->0));
        }
        assert(split_spec(b, from) == seq![b]);
    }
}

/// A piece stands in the text between characters of the class, or at its ends.
pub proof fn law_pieces_stand_in_the_text(s: Seq<char>, class: CharClass, i: int) -> (at: int)
    requires
        0 <= i < pieces(s, class).len(),
    ensures
        ({
            let end = at + pieces(s, class)[i].len();
            &&& 0 <= at <= end <= s.len()
            &&& s.subrange(at, end) == pieces(s, class)[i]
            &&& at > 0 ==> class.holds(s[at - 1])
            &&& i < pieces(s, class).len() - 1 ==> end < s.len() && class.holds(s[end])
            &&& i == pieces(s, class).len() - 1 ==> end == s.len()
            &&& forall|k: int| at <= k < end ==> !class.holds(#[trigger] s[k])
        }),
    decreases s.len(),
{
    let list = pieces(s, class);
    if s.len() == 0 {
        assert(s.subrange(0, 0) =~= list[0]);
        0
    } else {
        let front = s.drop_last();
        let before = pieces(front, class);
        law_pieces_hold_the_rest(front, class);
        if class.holds(s.last()) {
            if i < before.len() {
                let at = law_pieces_stand_in_the_text(front, class, i);
                let end = at + before[i].len();
                assert(s.subrange(at, end) =~= front.subrange(at, end));
                assert forall|k: int| at <= k < end implies !class.holds(#[trigger] s[k]) by {
                    assert(front[k] == s[k]);
                }
                at
            } else {
                let at = s.len() as int;
                assert(s.subrange(at, at) =~= list[i]);
                at
            }
        } else {
            let at = law_pieces_stand_in_the_text(front, class, i);
            let end = at + before[i].len();
            if i < before.len() - 1 {
                assert(list[i] == before[i]);
                assert(s.subrange(at, end) =~= front.subrange(at, end));
            } else {
                assert(list[i] == before[i].push(s.last()));
                assert(s.subrange(at, end + 1) =~= front.subrange(at, end).push(s.last()));
            }
            assert forall|k: int| at <= k < at + list[i].len() implies !class.holds(
                #[trigger] s[k],
            ) by {
                if k < front.len() {
                    assert(front[k] == s[k]);
                }
            }
            at
        }
    }
}

/// The value of hexadecimal digits.
pub open spec fn hex_value(s: Seq<char>) -> nat
    decreases s.len(),
{
    if s.len() == 0 {
        0
    } else {
        16 * hex_value(s.drop_last()) + if is_digit(s.last()) {
            (s.last() as u32 - '0' as u32) as nat
        } else {
            (s.last() as u32 - 'a' as u32 + 10) as nat
        }
    }
}

/// The hexadecimal form of a number has its value.
pub proof fn law_hexadecimal_form_has_the_value(n: nat, width: nat)
    ensures
        hex_value(hex(n, width)) == n,
    decreases n, width,
{
    let h = hex(n, width);
    if n < 16 && width <= 1 {
        lemma_hex_char(n);
        assert(h.drop_last() =~= Seq::empty());
        assert(hex_value(h.drop_last()) == 0);
        assert(h.last() == hex_char(n));
    } else {
        let w: nat = if width == 0 {
            0
        } else {
            (width - 1) as nat
        };
        law_hexadecimal_form_has_the_value(n / 16, w);
        lemma_hex_char(n % 16);
        assert(h.drop_last() =~= hex(n / 16, w));
        assert(h.last() == hex_char(n % 16));
    }
}

proof fn lemma_hex_char(d: nat)
    requires
        d < 16,
    ensures
        is_digit(hex_char(d)) ==> hex_char(d) as u32 - '0' as u32 == d,
        !is_digit(hex_char(d)) ==> hex_char(d) as u32 - 'a' as u32 + 10 == d,
{
}

/// What stands behind a prefix, and before a suffix, is found.
pub proof fn law_prefixes_and_suffixes_are_cut(a: Seq<char>, b: Seq<char>)
    ensures
        after_prefix(a + b, a) == Some(b),
        before_suffix(a + b, b) == Some(a),
        after_prefix(b, a) matches Some(rest) ==> b == a + rest,
        before_suffix(a, b) matches Some(front) ==> a == front + b,
{
    let s = a + b;
    assert(s.subrange(0, a.len() as int) =~= a);
    assert(s.skip(a.len() as int) =~= b);
    assert(s.subrange(s.len() - b.len(), s.len() as int) =~= b);
    assert(s.take(s.len() - b.len()) =~= a);
    if let Some(rest) = after_prefix(b, a) {
        assert(b =~= b.subrange(0, a.len() as int) + rest);
    }
    if let Some(front) = before_suffix(a, b) {
        assert(a =~= front + a.subrange(a.len() - b.len(), a.len() as int));
    }
}

/// Replacing the first place changes that one and leaves all else as it is.
pub proof fn law_replacing_the_first_place(
    a: Seq<char>,
    b: Seq<char>,
    from: Seq<char>,
    to: Seq<char>,
)
    requires
        from.len() > 0,
        forall|j: int| 0 <= j < a.len() ==> !occurs_at(a + from, from, j),
    ensures
        replace_first_spec(a + from + b, from, to) == a + to + b,
        !has_text(b, from) ==> replace_first_spec(b, from, to) == b,
{
    let s = a + from + b;
    let n = a.len() as int;
    lemma_find_from(s, from, 0);
    assert(s.subrange(n, n + from.len()) =~= from);
    assert(occurs_at(s, from, n));
    let i = find_from(s, from, 0)->0;
    if i < n {
        assert(s.subrange(i, i + from.len()) =~= (a + from).subrange(i, i + from.len()));
        assert(occurs_at(a + from, from, i));
    }
    assert(s.take(n) =~= a);
    assert(s.skip(n + from.len()) =~= b);
    lemma_find_from(b, from, 0);
    if find_from(b, from, 0) is Some {
        assert(occurs_at(b, from, find_from(b, from, 0)->0));
    }
}

} // verus!
