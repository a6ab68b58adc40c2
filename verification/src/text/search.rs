//! Where one text occurs in another, and what follows from it: splitting,
//! joining, replacing, stripping.
use vstd::prelude::*;
use crate::text::chars::{chars_of, lemma_views_push, text_between, text_of, views};

verus! {

/// `needle` stands in `hay` at position `i`.
pub open spec fn occurs_at(hay: Seq<char>, needle: Seq<char>, i: int) -> bool {
    0 <= i && i + needle.len() <= hay.len() && hay.subrange(i, i + needle.len()) == needle
}

/// `needle` stands somewhere in `hay`.
pub open spec fn has_text(hay: Seq<char>, needle: Seq<char>) -> bool {
    exists|i: int| occurs_at(hay, needle, i)
}

pub open spec fn has_prefix(s: Seq<char>, p: Seq<char>) -> bool {
    occurs_at(s, p, 0)
}

pub open spec fn has_suffix(s: Seq<char>, p: Seq<char>) -> bool {
    occurs_at(s, p, s.len() - p.len())
}

/// The first position from `from` on at which `needle` stands in `hay`.
pub open spec fn find_from(hay: Seq<char>, needle: Seq<char>, from: int) -> Option<int>
    decreases hay.len() + 1 - from,
{
    if from < 0 || from + needle.len() > hay.len() {
        None
    } else if occurs_at(hay, needle, from) {
        Some(from)
    } else {
        find_from(hay, needle, from + 1)
    }
}

/// `find_from` gives the least position, and none where there is none.
pub proof fn lemma_find_from(hay: Seq<char>, needle: Seq<char>, from: int)
    requires
        0 <= from,
    ensures
        match find_from(hay, needle, from) {
            Some(i) => from <= i && occurs_at(hay, needle, i) && forall|j: int|
                from <= j < i ==> !occurs_at(hay, needle, j),
            None => forall|j: int| from <= j ==> !occurs_at(hay, needle, j),
        },
    decreases hay.len() + 1 - from,
{
    if from + needle.len() <= hay.len() && !occurs_at(hay, needle, from) {
        lemma_find_from(hay, needle, from + 1);
    }
}

/// Whether `needle` stands in `hay` at position `i`.
pub fn at(hay: &[char], needle: &[char], i: usize) -> (r: bool)
    ensures
        r == occurs_at(hay@, needle@, i as int),
{
    let total: usize = hay.len();
    if i > total || needle.len() > total - i {
        return false;
    }
    for j in 0..needle.len()
        invariant
            total == hay@.len(),
            i + needle@.len() <= total,
            forall|k: int| 0 <= k < j ==> hay@[i + k] == needle@[k],
    {
        if hay[i + j] != needle[j] {
            assert(hay@.subrange(i as int, i + needle@.len())[j as int] != needle@[j as int]);
            return false;
        }
    }
    assert(hay@.subrange(i as int, i + needle@.len()) =~= needle@);
    true
}

/// The first position from `from` on at which `needle` stands in `hay`.
pub fn find_chars(hay: &[char], needle: &[char], from: usize) -> (r: Option<usize>)
    ensures
        match r {
            Some(i) => find_from(hay@, needle@, from as int) == Some(i as int),
            None => find_from(hay@, needle@, from as int) is None,
        },
        r matches Some(i) ==> i + needle@.len() <= hay@.len() && from <= i,
{
    let mut i: usize = from;
    while i <= hay.len() && needle.len() <= hay.len() - i
        invariant
            from <= i,
            find_from(hay@, needle@, from as int) == find_from(hay@, needle@, i as int),
        decreases hay@.len() + 1 - i,
    {
        if at(hay, needle, i) {
            return Some(i);
        }
        if i == hay.len() {
            assert(hay@.subrange(i as int, i as int) =~= needle@);
            return None;
        }
        i += 1;
    }
    None
}

/// The position of `needle` in `hay`, counted in characters.
pub fn find(hay: &str, needle: &str) -> (r: Option<usize>)
    ensures
        match r {
            Some(i) => find_from(hay@, needle@, 0) == Some(i as int),
            None => find_from(hay@, needle@, 0) is None,
        },
        r matches Some(i) ==> i + needle@.len() <= hay@.len(),
        r is Some == has_text(hay@, needle@),
        hay@.len() <= usize::MAX,
{
    let h = chars_of(hay);
    let n = chars_of(needle);
    let _total: usize = h.len();
    proof {
        lemma_find_from(hay@, needle@, 0);
    }
    find_chars(&h, &n, 0)
}

/// Whether `needle` stands somewhere in `hay`.
pub fn contains(hay: &str, needle: &str) -> (r: bool)
    ensures
        r == has_text(hay@, needle@),
{
    find(hay, needle).is_some()
}

/// Whether one of the texts of `needles` stands in `hay`.
pub open spec fn has_any(hay: Seq<char>, needles: Seq<&str>) -> bool {
    exists|i: int| 0 <= i < needles.len() && has_text(hay, (#[trigger] needles[i])@)
}

/// Whether one of the texts of `needles` stands in `hay`.
pub fn contains_any(hay: &str, needles: &[&str]) -> (r: bool)
    ensures
        r == has_any(hay@, needles@),
{
    for i in 0..needles.len()
        invariant
            forall|j: int| 0 <= j < i ==> !has_text(hay@, (#[trigger] needles@[j])@),
    {
        if contains(hay, needles[i]) {
            return true;
        }
    }
    false
}

/// Whether a text begins with `p`.
pub fn starts_with(s: &str, p: &str) -> (r: bool)
    ensures
        r == has_prefix(s@, p@),
{
    at(&chars_of(s), &chars_of(p), 0)
}

/// Whether a text ends with `p`.
pub fn ends_with(s: &str, p: &str) -> (r: bool)
    ensures
        r == has_suffix(s@, p@),
{
    let s = chars_of(s);
    let p = chars_of(p);
    if p.len() > s.len() {
        return false;
    }
    at(&s, &p, s.len() - p.len())
}

/// What follows the prefix `p`, where the text has it.
pub open spec fn after_prefix(s: Seq<char>, p: Seq<char>) -> Option<Seq<char>> {
    if has_prefix(s, p) {
        Some(s.skip(p.len() as int))
    } else {
        None
    }
}

/// What follows the prefix `p`, where the text has it.
pub fn strip_prefix(s: &str, p: &str) -> (r: Option<String>)
    ensures
        crate::text::chars::view_opt(r) == after_prefix(s@, p@),
{
    let s = chars_of(s);
    let p = chars_of(p);
    if at(&s, &p, 0) {
        let r = text_between(&s, p.len(), s.len());
        assert(r@ =~= s@.skip(p@.len() as int));
        Some(r)
    } else {
        None
    }
}

/// What stands before the suffix `p`, where the text has it.
pub open spec fn before_suffix(s: Seq<char>, p: Seq<char>) -> Option<Seq<char>> {
    if has_suffix(s, p) {
        Some(s.take(s.len() - p.len()))
    } else {
        None
    }
}

/// What stands before the suffix `p`, where the text has it.
pub fn strip_suffix(s: &str, p: &str) -> (r: Option<String>)
    ensures
        crate::text::chars::view_opt(r) == before_suffix(s@, p@),
{
    let found = ends_with(s, p);
    let s = chars_of(s);
    let p = chars_of(p);
    if found {
        let r = text_between(&s, 0, s.len() - p.len());
        assert(r@ =~= s@.take(s@.len() - p@.len()));
        Some(r)
    } else {
        None
    }
}

/// The two sides of the first `sep` in a text.
pub open spec fn halves(s: Seq<char>, sep: Seq<char>) -> Option<(Seq<char>, Seq<char>)> {
    match find_from(s, sep, 0) {
        Some(i) => Some((s.take(i), s.skip(i + sep.len()))),
        None => None,
    }
}

/// The two sides of the first `sep` in a text.
pub fn split_once(s: &str, sep: &str) -> (r: Option<(String, String)>)
    ensures
        match r {
            Some(p) => halves(s@, sep@) == Some((p.0@, p.1@)),
            None => halves(s@, sep@) is None,
        },
{
    let c = chars_of(s);
    let n = chars_of(sep);
    match find_chars(&c, &n, 0) {
        Some(i) => {
            let a = text_between(&c, 0, i);
            let end: usize = c.len();
            let b = text_between(&c, i + n.len(), end);
            assert(a@ =~= s@.take(i as int));
            assert(b@ =~= s@.skip(i + sep@.len()));
            Some((a, b))
        },
        None => None,
    }
}

/// The parts of a text between the occurrences of `sep`, left to right,
/// occurrences not overlapping.
pub open spec fn split_spec(s: Seq<char>, sep: Seq<char>) -> Seq<Seq<char>>
    decreases s.len(),
{
    match find_from(s, sep, 0) {
        Some(i) => if 0 <= i && i + sep.len() <= s.len() && sep.len() > 0 {
            seq![s.take(i)] + split_spec(s.skip(i + sep.len()), sep)
        } else {
            seq![s]
        },
        None => seq![s],
    }
}

/// The parts of a text between the occurrences of `sep`.
pub fn split(s: &str, sep: &str) -> (r: Vec<String>)
    requires
        sep@.len() > 0,
    ensures
        views(r@) == split_spec(s@, sep@),
        r@.len() > 0,
{
    let c = chars_of(s);
    let n = chars_of(sep);
    let mut r: Vec<String> = Vec::new();
    let mut start: usize = 0;
    assert(s@.skip(0) =~= s@);
    assert(views(r@) + split_spec(s@, sep@) =~= split_spec(s@, sep@));
    loop
        invariant
            sep@.len() > 0,
            c@ == s@,
            n@ == sep@,
            start <= c@.len(),
            views(r@) + split_spec(s@.skip(start as int), sep@) == split_spec(s@, sep@),
        decreases c@.len() - start,
    {
        let rest = vstd::slice::slice_subrange(c.as_slice(), start, c.len());
        assert(rest@ =~= s@.skip(start as int));
        match find_chars(rest, &n, 0) {
            Some(i) => {
                let part = text_between(rest, 0, i);
                proof {
                    let tail = s@.skip(start as int);
                    assert(part@ =~= tail.take(i as int));
                    assert(tail.skip(i + sep@.len()) =~= s@.skip(start + i + sep@.len()));
                    lemma_views_push(r@, part);
                    assert(views(r@).push(part@) + split_spec(
                        s@.skip(start + i + sep@.len()),
                        sep@,
                    ) =~= views(r@) + split_spec(tail, sep@));
                }
                r.push(part);
                start = start + i + n.len();
            },
            None => {
                let part = text_of(rest);
                proof {
                    lemma_views_push(r@, part);
                    assert(views(r@).push(part@) =~= views(r@) + seq![part@]);
                }
                r.push(part);
                return r;
            },
        }
    }
}

/// The texts of `parts` one after the other, with `sep` between them.
pub open spec fn join_spec(parts: Seq<Seq<char>>, sep: Seq<char>) -> Seq<char>
    decreases parts.len(),
{
    if parts.len() == 0 {
        Seq::empty()
    } else if parts.len() == 1 {
        parts[0]
    } else {
        join_spec(parts.drop_last(), sep) + sep + parts.last()
    }
}

/// The texts of `parts` one after the other, with `sep` between them.
pub fn join(parts: &Vec<String>, sep: &str) -> (r: String)
    ensures
        r@ == join_spec(views(parts@), sep@),
{
    let mut r = String::new();
    for i in 0..parts.len()
        invariant
            r@ == join_spec(views(parts@).take(i as int), sep@),
    {
        let ghost done = views(parts@).take(i as int);
        let ghost next = views(parts@).take(i + 1);
        assert(next.drop_last() =~= done);
        assert(next.last() == parts@[i as int]@);
        if i == 0 {
            r = parts[i].clone();
        } else {
            r.append(sep);
            r.append(parts[i].as_str());
        }
    }
    assert(views(parts@).take(parts@.len() as int) =~= views(parts@));
    r
}

/// The text with every occurrence of `from` replaced by `to`.
pub open spec fn replace_spec(s: Seq<char>, from: Seq<char>, to: Seq<char>) -> Seq<char> {
    join_spec(split_spec(s, from), to)
}

/// The text with every occurrence of `from` replaced by `to`.
pub fn replace(s: &str, from: &str, to: &str) -> (r: String)
    requires
        from@.len() > 0,
    ensures
        r@ == replace_spec(s@, from@, to@),
{
    join(&split(s, from), to)
}

/// The text with the first occurrence of `from` replaced by `to`.
pub open spec fn replace_first_spec(s: Seq<char>, from: Seq<char>, to: Seq<char>) -> Seq<char> {
    match find_from(s, from, 0) {
        Some(i) => s.take(i) + to + s.skip(i + from.len()),
        None => s,
    }
}

/// The text with the first occurrence of `from` replaced by `to`.
pub fn replace_first(s: &str, from: &str, to: &str) -> (r: String)
    ensures
        r@ == replace_first_spec(s@, from@, to@),
{
    match split_once(s, from) {
        Some(p) => {
            let mut r = p.0;
            r.append(to);
            r.append(p.1.as_str());
            r
        },
        None => s.to_owned(),
    }
}

/// The last position at which `needle` stands in `hay`, at or before `from`.
pub open spec fn rfind_from(hay: Seq<char>, needle: Seq<char>, from: int) -> Option<int>
    decreases from + 1,
{
    if from < 0 {
        None
    } else if occurs_at(hay, needle, from) {
        Some(from)
    } else {
        rfind_from(hay, needle, from - 1)
    }
}

/// The last position at which `needle` stands in `hay`.
pub fn rfind(hay: &[char], needle: &[char]) -> (r: Option<usize>)
    ensures
        match r {
            Some(i) => rfind_from(hay@, needle@, hay@.len() as int) == Some(i as int),
            None => rfind_from(hay@, needle@, hay@.len() as int) is None,
        },
        r matches Some(i) ==> i + needle@.len() <= hay@.len() && occurs_at(
            hay@,
            needle@,
            i as int,
        ),
{
    let mut i: usize = hay.len();
    loop
        invariant
            i <= hay@.len(),
            rfind_from(hay@, needle@, hay@.len() as int) == rfind_from(hay@, needle@, i as int),
        decreases i,
    {
        if at(hay, needle, i) {
            return Some(i);
        }
        if i == 0 {
            reveal_with_fuel(rfind_from, 2);
            return None;
        }
        i -= 1;
    }
}

/// The text with each pair's first text replaced by its second, pair by pair.
pub open spec fn replace_pairs_spec(s: Seq<char>, pairs: Seq<(&str, &str)>) -> Seq<char>
    decreases pairs.len(),
{
    if pairs.len() == 0 {
        s
    } else {
        replace_spec(
            replace_pairs_spec(s, pairs.drop_last()),
            pairs.last().0@,
            pairs.last().1@,
        )
    }
}

/// The text with each pair's first text replaced by its second, pair by pair.
pub fn replace_pairs(s: &str, pairs: &[(&str, &str)]) -> (r: String)
    requires
        forall|i: int| 0 <= i < pairs@.len() ==> (#[trigger] pairs@[i]).0@.len() > 0,
    ensures
        r@ == replace_pairs_spec(s@, pairs@),
{
    let mut r = s.to_owned();
    for i in 0..pairs.len()
        invariant
            forall|i: int| 0 <= i < pairs@.len() ==> (#[trigger] pairs@[i]).0@.len() > 0,
            r@ == replace_pairs_spec(s@, pairs@.take(i as int)),
    {
        assert(pairs@.take(i + 1).drop_last() =~= pairs@.take(i as int));
        assert(pairs@[i as int].0@.len() > 0);
        r = replace(&r, pairs[i].0, pairs[i].1);
    }
    assert(pairs@.take(pairs@.len() as int) =~= pairs@);
    r
}

/// Whether a character stands in a text.
pub fn contains_char(s: &str, c: char) -> (r: bool)
    ensures
        r == s@.contains(c),
{
    let all = chars_of(s);
    for i in 0..all.len()
        invariant
            all@ == s@,
            forall|j: int| 0 <= j < i ==> all@[j] != c,
    {
        if all[i] == c {
            return true;
        }
    }
    false
}

} // verus!
