//! Facts about sequences that several modules use.
use vstd::prelude::*;

verus! {

/// Filtering one element more.
pub proof fn lemma_filter_step<A>(s: Seq<A>, i: int, p: spec_fn(A) -> bool)
    requires
        0 <= i < s.len(),
    ensures
        s.take(i + 1).filter(p) == if p(s[i]) {
            s.take(i).filter(p).push(s[i])
        } else {
            s.take(i).filter(p)
        },
{
    reveal(Seq::filter);
    assert(s.take(i + 1).drop_last() =~= s.take(i));
}

/// Filtering nothing.
pub proof fn lemma_filter_empty<A>(s: Seq<A>, p: spec_fn(A) -> bool)
    ensures
        s.take(0).filter(p) == Seq::<A>::empty(),
{
    reveal(Seq::filter);
    assert(s.take(0).filter(p) =~= Seq::<A>::empty());
}

/// What a filter keeps: the elements that satisfy the predicate.
pub proof fn lemma_filter_contains<A>(s: Seq<A>, p: spec_fn(A) -> bool, x: A)
    ensures
        s.filter(p).contains(x) <==> s.contains(x) && p(x),
    decreases s.len(),
{
    reveal(Seq::filter);
    if s.len() > 0 {
        let front = s.drop_last();
        lemma_filter_contains(front, p, x);
        let kept = front.filter(p);
        assert(s =~= front.push(s.last()));
        if front.contains(x) {
            let j = choose|j: int| 0 <= j < front.len() && front[j] == x;
            assert(s[j] == x);
        }
        if s.contains(x) && x != s.last() {
            let j = choose|j: int| 0 <= j < s.len() && s[j] == x;
            assert(front[j] == x);
        }
        if p(s.last()) {
            if kept.contains(x) {
                let j = choose|j: int| 0 <= j < kept.len() && kept[j] == x;
                assert(kept.push(s.last())[j] == x);
            }
            if x == s.last() {
                assert(kept.push(s.last())[kept.len() as int] == x);
            }
            if kept.push(s.last()).contains(x) && x != s.last() {
                let j = choose|j: int|
                    0 <= j < kept.push(s.last()).len() && kept.push(s.last())[j] == x;
                assert(kept[j] == x);
            }
        }
    }
}

/// A filter keeps a sequence without duplicates free of them.
pub proof fn lemma_filter_distinct<A>(s: Seq<A>, p: spec_fn(A) -> bool)
    requires
        s.no_duplicates(),
    ensures
        s.filter(p).no_duplicates(),
    decreases s.len(),
{
    reveal(Seq::filter);
    if s.len() > 0 {
        let front = s.drop_last();
        lemma_filter_distinct(front, p);
        lemma_filter_contains(front, p, s.last());
        assert(!front.contains(s.last())) by {
            if front.contains(s.last()) {
                let j = choose|j: int| 0 <= j < front.len() && front[j] == s.last();
                assert(s[j] == s[s.len() - 1]);
            }
        }
        let kept = front.filter(p);
        assert forall|i: int, j: int|
            0 <= i < j < kept.push(s.last()).len() implies kept.push(s.last())[i] != kept.push(
            s.last(),
        )[j] by {
            assert(kept.contains(kept[i]));
        }
    }
}

/// Two filters in a row keep what satisfies both.
pub proof fn lemma_filter_twice<A>(s: Seq<A>, p: spec_fn(A) -> bool, q: spec_fn(A) -> bool)
    ensures
        s.filter(p).filter(q) == s.filter(|x: A| p(x) && q(x)),
    decreases s.len(),
{
    reveal(Seq::filter);
    let both = |x: A| p(x) && q(x);
    if s.len() > 0 {
        let front = s.drop_last();
        lemma_filter_twice(front, p, q);
        if p(s.last()) {
            assert(front.filter(p).push(s.last()).drop_last() =~= front.filter(p));
        }
    } else {
        assert(s.filter(p).filter(q) =~= s.filter(both));
    }
}

/// Filters commute.
pub proof fn lemma_filter_commute<A>(s: Seq<A>, p: spec_fn(A) -> bool, q: spec_fn(A) -> bool)
    ensures
        s.filter(p).filter(q) == s.filter(q).filter(p),
    decreases s.len(),
{
    reveal(Seq::filter);
    if s.len() > 0 {
        let front = s.drop_last();
        lemma_filter_commute(front, p, q);
        if p(s.last()) {
            assert(front.filter(p).push(s.last()).drop_last() =~= front.filter(p));
        }
        if q(s.last()) {
            assert(front.filter(q).push(s.last()).drop_last() =~= front.filter(q));
        }
    }
}

/// A filter whose predicate always holds keeps everything.
pub proof fn lemma_filter_all<A>(s: Seq<A>, p: spec_fn(A) -> bool)
    requires
        forall|i: int| 0 <= i < s.len() ==> p(#[trigger] s[i]),
    ensures
        s.filter(p) == s,
    decreases s.len(),
{
    reveal(Seq::filter);
    if s.len() > 0 {
        lemma_filter_all(s.drop_last(), p);
        assert(p(s[s.len() - 1]));
        assert(s.drop_last().push(s.last()) =~= s);
    } else {
        assert(s.filter(p) =~= s);
    }
}

/// A filter whose predicate never holds keeps nothing.
pub proof fn lemma_filter_none<A>(s: Seq<A>, p: spec_fn(A) -> bool)
    requires
        forall|i: int| 0 <= i < s.len() ==> !p(#[trigger] s[i]),
    ensures
        s.filter(p) == Seq::<A>::empty(),
    decreases s.len(),
{
    reveal(Seq::filter);
    if s.len() > 0 {
        lemma_filter_none(s.drop_last(), p);
        assert(!p(s[s.len() - 1]));
    } else {
        assert(s.filter(p) =~= Seq::<A>::empty());
    }
}

/// Every element that a filter keeps satisfies the predicate.
pub proof fn lemma_filter_holds<A>(s: Seq<A>, p: spec_fn(A) -> bool)
    ensures
        forall|i: int| 0 <= i < s.filter(p).len() ==> p(#[trigger] s.filter(p)[i]),
{
    assert forall|i: int| 0 <= i < s.filter(p).len() implies p(#[trigger] s.filter(p)[i]) by {
        lemma_filter_contains(s, p, s.filter(p)[i]);
        assert(s.filter(p).contains(s.filter(p)[i]));
    }
}

/// Filtering what is concatenated.
pub proof fn lemma_filter_concat<A>(a: Seq<A>, b: Seq<A>, p: spec_fn(A) -> bool)
    ensures
        (a + b).filter(p) == a.filter(p) + b.filter(p),
    decreases b.len(),
{
    reveal(Seq::filter);
    if b.len() > 0 {
        assert((a + b).drop_last() =~= a + b.drop_last());
        lemma_filter_concat(a, b.drop_last(), p);
        assert((a + b).last() == b.last());
        assert(a.filter(p) + b.filter(p) =~= if p(b.last()) {
            (a.filter(p) + b.drop_last().filter(p)).push(b.last())
        } else {
            a.filter(p) + b.drop_last().filter(p)
        });
    } else {
        assert(a + b =~= a);
        assert(a.filter(p) + b.filter(p) =~= a.filter(p));
    }
}

/// The elements of a sequence, each at its first occurrence.
pub open spec fn distinct<A>(s: Seq<A>) -> Seq<A>
    decreases s.len(),
{
    if s.len() == 0 {
        Seq::empty()
    } else {
        let before = distinct(s.drop_last());
        if before.contains(s.last()) {
            before
        } else {
            before.push(s.last())
        }
    }
}

/// `distinct` repeats nothing and loses nothing.
pub proof fn lemma_distinct<A>(s: Seq<A>)
    ensures
        distinct(s).no_duplicates(),
        forall|x: A| distinct(s).contains(x) <==> s.contains(x),
    decreases s.len(),
{
    if s.len() > 0 {
        let front = s.drop_last();
        let before = distinct(front);
        lemma_distinct(front);
        assert(s =~= front.push(s.last()));
        assert forall|x: A| distinct(s).contains(x) <==> s.contains(x) by {
            if s.contains(x) && x != s.last() {
                let j = choose|j: int| 0 <= j < s.len() && s[j] == x;
                assert(front[j] == x);
                assert(front.contains(x));
                assert(before.contains(x));
                let k = choose|k: int| 0 <= k < before.len() && before[k] == x;
                assert(before.push(s.last())[k] == x);
            }
            if x == s.last() {
                assert(s[s.len() - 1] == x);
                if !before.contains(x) {
                    assert(before.push(x)[before.len() as int] == x);
                }
            }
            if before.contains(x) {
                assert(front.contains(x));
                let j = choose|j: int| 0 <= j < front.len() && front[j] == x;
                assert(s[j] == x);
            }
            if before.push(s.last()).contains(x) && x != s.last() {
                let k = choose|k: int|
                    0 <= k < before.push(s.last()).len() && before.push(s.last())[k] == x;
                assert(before[k] == x);
            }
        }
        if !before.contains(s.last()) {
            assert forall|i: int, j: int|
                0 <= i < j < before.push(s.last()).len() implies before.push(s.last())[i]
                != before.push(s.last())[j] by {
                assert(before.contains(before[i]));
            }
        }
    }
}

} // verus!
