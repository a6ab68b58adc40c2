//! Short references to the sources that a tool's output quotes.
use vstd::prelude::*;
use crate::paths::{lemma_char_number, order_paths, path_order, parts_order, text_order, Order, PartView, parts_spec};
use crate::text::chars::views;
use crate::text::number::{number_spec, parse_number};
use crate::text::pieces::{lines, lines_spec};
use crate::text::search::{after_prefix, before_suffix, split, split_spec, strip_prefix, strip_suffix};

verus! {

/// A source and the numbers of its chunks that were quoted.
#[derive(Clone, Debug, PartialEq)]
pub struct RagSourceRef {
    pub source: String,
    pub chunk_indices: Vec<usize>,
}

#[verifier::ext_equal]
pub struct SourceRefView {
    pub source: Seq<char>,
    pub chunk_indices: Seq<usize>,
}

impl View for RagSourceRef {
    type V = SourceRefView;

    open spec fn view(&self) -> SourceRefView {
        SourceRefView { source: self.source@, chunk_indices: self.chunk_indices@ }
    }
}

pub open spec fn refs_view(v: Seq<RagSourceRef>) -> Seq<SourceRefView> {
    v.map_values(|r: RagSourceRef| r@)
}

/// The source and chunk number of a result's header line.
pub open spec fn quoted(line: Seq<char>) -> Option<(Seq<char>, usize)> {
    match after_prefix(line, "[资料 "@) {
        None => None,
        Some(tail) => match before_suffix(tail, "]"@) {
            None => None,
            Some(header) => {
                let fields = split_spec(header, " | "@);
                if fields.len() < 4 {
                    None
                } else {
                    match after_prefix(fields[2], "片段 "@) {
                        None => None,
                        Some(digits) => match number_spec(digits, usize::MAX as nat) {
                            None => None,
                            Some(n) => Some((fields[1], n as usize)),
                        },
                    }
                }
            },
        },
    }
}

fn parse_quoted(line: &str) -> (r: Option<(String, usize)>)
    ensures
        match r {
            Some(p) => quoted(line@) == Some((p.0@, p.1)),
            None => quoted(line@) is None,
        },
{
    let tail = match strip_prefix(line, "[资料 ") {
        Some(t) => t,
        None => {
            return None;
        },
    };
    let header = match strip_suffix(&tail, "]") {
        Some(t) => t,
        None => {
            return None;
        },
    };
    proof {
        reveal_strlit(" | ");
    }
    let fields = split(&header, " | ");
    if fields.len() < 4 {
        return None;
    }
    assert(views(fields@)[2] == fields@[2]@);
    assert(views(fields@)[1] == fields@[1]@);
    match strip_prefix(&fields[2], "片段 ") {
        Some(digits) => match parse_number(&digits, usize::MAX as u64) {
            Some(n) => Some((fields[1].clone(), n as usize)),
            None => None,
        },
        None => None,
    }
}

/// `n` in its place among ascending numbers, once.
pub open spec fn with_index(v: Seq<usize>, n: usize) -> Seq<usize>
    decreases v.len(),
{
    if v.len() == 0 {
        seq![n]
    } else if v[0] == n {
        v
    } else if n < v[0] {
        seq![n] + v
    } else {
        seq![v[0]] + with_index(v.skip(1), n)
    }
}

fn add_index(v: &mut Vec<usize>, n: usize)
    ensures
        final(v)@ == with_index(old(v)@, n),
{
    let ghost all = v@;
    let mut i: usize = 0;
    assert(all.skip(0) =~= all);
    assert(all.take(0) + with_index(all, n) =~= with_index(all, n));
    while i < v.len() && v[i] < n
        invariant
            i <= v@.len(),
            v@ == all,
            with_index(all, n) == all.take(i as int) + with_index(all.skip(i as int), n),
        decreases v@.len() - i,
    {
        let ghost rest = all.skip(i as int);
        proof {
            assert(rest.skip(1) =~= all.skip(i + 1));
            assert(all.take(i as int) + (seq![rest[0]] + with_index(rest.skip(1), n)) =~= all.take(
                i + 1,
            ) + with_index(all.skip(i + 1), n));
        }
        i += 1;
    }
    if i < v.len() && v[i] == n {
        assert(all.take(i as int) + all.skip(i as int) =~= all);
        return;
    }
    proof {
        let rest = all.skip(i as int);
        if rest.len() > 0 {
            assert(with_index(rest, n) == seq![n] + rest);
        } else {
            assert(with_index(rest, n) =~= seq![n] + rest);
        }
        assert(all.insert(i as int, n) =~= all.take(i as int) + (seq![n] + rest));
    }
    v.insert(i, n);
}

/// The references with one more quotation, in the order of the paths.
pub open spec fn with_ref(refs: Seq<SourceRefView>, source: Seq<char>, n: usize) -> Seq<
    SourceRefView,
>
    decreases refs.len(),
{
    if refs.len() == 0 {
        seq![SourceRefView { source, chunk_indices: seq![n] }]
    } else {
        match path_order(source, refs[0].source) {
            Order::Equal => seq![
                SourceRefView {
                    source: refs[0].source,
                    chunk_indices: with_index(refs[0].chunk_indices, n),
                },
            ] + refs.skip(1),
            Order::Less => seq![SourceRefView { source, chunk_indices: seq![n] }] + refs,
            Order::Greater => seq![refs[0]] + with_ref(refs.skip(1), source, n),
        }
    }
}

fn add_ref(refs: &mut Vec<RagSourceRef>, source: String, n: usize)
    ensures
        refs_view(final(refs)@) == with_ref(refs_view(old(refs)@), source@, n),
{
    let ghost start = refs@;
    let ghost all = refs_view(refs@);
    let mut i: usize = 0;
    assert(all.skip(0) =~= all);
    assert(all.take(0) + with_ref(all, source@, n) =~= with_ref(all, source@, n));
    while i < refs.len()
        invariant
            i <= refs@.len(),
            refs@ == start,
            all == refs_view(start),
            with_ref(all, source@, n) == all.take(i as int) + with_ref(
                all.skip(i as int),
                source@,
                n,
            ),
            all == refs_view(old(refs)@),
        decreases refs@.len() - i,
    {
        let ghost rest = all.skip(i as int);
        assert(rest[0] == refs@[i as int]@);
        match order_paths(&source, &refs[i].source) {
            Order::Equal => {
                let mut entry = refs.remove(i);
                add_index(&mut entry.chunk_indices, n);
                refs.insert(i, entry);
                assert(refs_view(refs@) =~= all.take(i as int) + (seq![entry@] + rest.skip(1)));
                return;
            },
            Order::Less => {
                let mut chunk_indices: Vec<usize> = Vec::new();
                chunk_indices.push(n);
                let entry = RagSourceRef { source, chunk_indices };
                assert(entry@.chunk_indices =~= seq![n]);
                refs.insert(i, entry);
                assert(refs_view(refs@) =~= all.take(i as int) + (seq![entry@] + rest));
                return;
            },
            Order::Greater => {
                assert(rest.skip(1) =~= all.skip(i + 1));
                assert(all.take(i as int) + (seq![rest[0]] + with_ref(rest.skip(1), source@, n))
                    =~= all.take(i + 1) + with_ref(all.skip(i + 1), source@, n));
            },
        }
        i += 1;
    }
    let mut chunk_indices: Vec<usize> = Vec::new();
    chunk_indices.push(n);
    let entry = RagSourceRef { source, chunk_indices };
    assert(entry@.chunk_indices =~= seq![n]);
    refs.push(entry);
    assert(refs_view(refs@) =~= all.take(i as int) + seq![entry@]);
}

/// The references of a list of lines.
pub open spec fn refs_of_lines(list: Seq<Seq<char>>, before: Seq<SourceRefView>) -> Seq<
    SourceRefView,
>
    decreases list.len(),
{
    if list.len() == 0 {
        before
    } else {
        let refs = refs_of_lines(list.drop_last(), before);
        match quoted(list.last()) {
            Some((source, n)) => with_ref(refs, source, n),
            None => refs,
        }
    }
}

/// The references of a list of outputs.
pub open spec fn refs_of_outputs(outputs: Seq<Seq<char>>) -> Seq<SourceRefView>
    decreases outputs.len(),
{
    if outputs.len() == 0 {
        Seq::empty()
    } else {
        refs_of_lines(lines_spec(outputs.last()), refs_of_outputs(outputs.drop_last()))
    }
}

/// The sources that tool outputs quote, in the order of their paths, each
/// with the ascending numbers of its chunks.
pub fn source_refs_from_outputs(outputs: &[String]) -> (r: Vec<RagSourceRef>)
    ensures
        refs_view(r@) == refs_of_outputs(views(outputs@)),
{
    let ghost all = views(outputs@);
    let mut refs: Vec<RagSourceRef> = Vec::new();
    assert(refs_view(refs@) =~= Seq::empty());
    assert(all.take(0) =~= Seq::empty());
    for i in 0..outputs.len()
        invariant
            all == views(outputs@),
            refs_view(refs@) == refs_of_outputs(all.take(i as int)),
    {
        let ghost before = refs_view(refs@);
        assert(all.take(i + 1).drop_last() =~= all.take(i as int));
        assert(all.take(i + 1).last() == outputs@[i as int]@);
        let list = lines(&outputs[i]);
        let ghost texts = views(list@);
        assert(texts.take(0) =~= Seq::empty());
        for j in 0..list.len()
            invariant
                texts == views(list@),
                refs_view(refs@) == refs_of_lines(texts.take(j as int), before),
        {
            assert(texts.take(j + 1).drop_last() =~= texts.take(j as int));
            assert(texts.take(j + 1).last() == list@[j as int]@);
            if let Some(found) = parse_quoted(&list[j]) {
                add_ref(&mut refs, found.0, found.1);
            }
        }
        assert(texts.take(list@.len() as int) =~= texts);
    }
    assert(all.take(outputs@.len() as int) =~= all);
    refs
}

/// The numbers ascend.
pub open spec fn ascending(v: Seq<usize>) -> bool {
    forall|i: int, j: int| 0 <= i < j < v.len() ==> v[i] < v[j]
}

/// Neighbouring references are in the order of their paths, and the numbers
/// of each ascend.
pub open spec fn in_order(refs: Seq<SourceRefView>) -> bool {
    &&& forall|i: int, j: int|
        0 <= i < refs.len() && j == i + 1 && j < refs.len() ==> path_order(
            (#[trigger] refs[i]).source,
            (#[trigger] refs[j]).source,
        ) == Order::Less
    &&& forall|i: int| 0 <= i < refs.len() ==> ascending((#[trigger] refs[i]).chunk_indices)
}

proof fn lemma_with_index(v: Seq<usize>, n: usize)
    requires
        ascending(v),
    ensures
        ascending(with_index(v, n)),
        forall|i: int|
            0 <= i < with_index(v, n).len() ==> with_index(v, n)[i] == n || v.contains(
                #[trigger] with_index(v, n)[i],
            ),
    decreases v.len(),
{
    let r = with_index(v, n);
    if v.len() > 0 && v[0] != n && !(n < v[0]) {
        let rest = v.skip(1);
        let w = with_index(rest, n);
        lemma_with_index(rest, n);
        assert(r =~= seq![v[0]] + w);
        assert forall|i: int| 0 <= i < w.len() implies v[0] < #[trigger] w[i] by {
            if w[i] != n {
                let k = choose|k: int| 0 <= k < rest.len() && rest[k] == w[i];
                assert(v[0] < v[k + 1]);
            }
        }
        assert forall|i: int, j: int| 0 <= i < j < r.len() implies r[i] < r[j] by {
            if i > 0 {
                assert(w[i - 1] < w[j - 1]);
            } else {
                assert(v[0] < w[j - 1]);
            }
        }
        assert forall|i: int| 0 <= i < r.len() implies r[i] == n || v.contains(
            #[trigger] r[i],
        ) by {
            if i > 0 && r[i] != n {
                assert(rest.contains(w[i - 1]));
                let k = choose|k: int| 0 <= k < rest.len() && rest[k] == w[i - 1];
                assert(v[k + 1] == r[i]);
            } else if i == 0 {
                assert(v[0] == r[0]);
            }
        }
    } else if v.len() > 0 && n < v[0] {
        assert forall|i: int, j: int| 0 <= i < j < r.len() implies r[i] < r[j] by {
            if i > 0 {
                assert(v[i - 1] < v[j - 1]);
            } else if j > 1 {
                assert(v[0] < v[j - 1]);
            }
        }
        assert forall|i: int| 0 <= i < r.len() implies r[i] == n || v.contains(
            #[trigger] r[i],
        ) by {
            if i > 0 {
                assert(v[i - 1] == r[i]);
            }
        }
    }
}

/// Exchanging the sides turns an order round.
proof fn lemma_text_order_turns(a: Seq<char>, b: Seq<char>)
    ensures
        text_order(a, b) == Order::Greater <==> text_order(b, a) == Order::Less,
    decreases a.len(),
{
    if a.len() > 0 && b.len() > 0 {
        lemma_char_number(a[0], b[0]);
        lemma_text_order_turns(a.skip(1), b.skip(1));
    }
}

proof fn lemma_parts_order_turns(a: Seq<PartView>, b: Seq<PartView>)
    ensures
        parts_order(a, b) == Order::Greater <==> parts_order(b, a) == Order::Less,
    decreases a.len(),
{
    if a.len() > 0 && b.len() > 0 {
        if let (PartView::Name(x), PartView::Name(y)) = (a[0], b[0]) {
            lemma_text_order_turns(x, y);
            lemma_text_order_turns(y, x);
        }
        lemma_parts_order_turns(a.skip(1), b.skip(1));
    }
}

pub proof fn lemma_path_order_turns(a: Seq<char>, b: Seq<char>)
    ensures
        path_order(a, b) == Order::Greater <==> path_order(b, a) == Order::Less,
{
    reveal(path_order);
    lemma_parts_order_turns(parts_spec(a), parts_spec(b));
}

/// Lists in order, one element in front of the other.
proof fn lemma_in_order_cons(head: SourceRefView, tail: Seq<SourceRefView>)
    requires
        in_order(tail),
        ascending(head.chunk_indices),
        tail.len() > 0 ==> path_order(head.source, tail[0].source) == Order::Less,
    ensures
        in_order(seq![head] + tail),
{
    let r = seq![head] + tail;
    assert forall|i: int, j: int| 0 <= i < r.len() && j == i + 1 && j < r.len() implies path_order(
        (#[trigger] r[i]).source,
        (#[trigger] r[j]).source,
    ) == Order::Less by {
        if i > 0 {
            assert(r[i] == tail[i - 1] && r[j] == tail[j - 1]);
        }
    }
    assert forall|i: int| 0 <= i < r.len() implies ascending((#[trigger] r[i]).chunk_indices) by {
        if i > 0 {
            assert(r[i] == tail[i - 1]);
        }
    }
}

proof fn lemma_in_order_rest(refs: Seq<SourceRefView>)
    requires
        in_order(refs),
        refs.len() > 0,
    ensures
        in_order(refs.skip(1)),
        ascending(refs[0].chunk_indices),
        refs.len() > 1 ==> path_order(refs[0].source, refs.skip(1)[0].source) == Order::Less,
{
    let rest = refs.skip(1);
    assert forall|i: int, j: int|
        0 <= i < rest.len() && j == i + 1 && j < rest.len() implies path_order(
        (#[trigger] rest[i]).source,
        (#[trigger] rest[j]).source,
    ) == Order::Less by {
        assert(rest[i] == refs[i + 1] && rest[j] == refs[j + 1]);
    }
    assert forall|i: int| 0 <= i < rest.len() implies ascending(
        (#[trigger] rest[i]).chunk_indices,
    ) by {
        assert(rest[i] == refs[i + 1]);
    }
}

proof fn lemma_with_ref(refs: Seq<SourceRefView>, source: Seq<char>, n: usize)
    requires
        in_order(refs),
    ensures
        in_order(with_ref(refs, source, n)),
        with_ref(refs, source, n).len() > 0,
        with_ref(refs, source, n)[0].source == source || (refs.len() > 0 && with_ref(
            refs,
            source,
            n,
        )[0].source == refs[0].source),
    decreases refs.len(),
{
    let entry = SourceRefView { source, chunk_indices: seq![n] };
    assert(ascending(seq![n]));
    if refs.len() == 0 {
        lemma_in_order_cons(entry, refs);
        assert(seq![entry] + refs =~= seq![entry]);
    } else {
        let rest = refs.skip(1);
        lemma_in_order_rest(refs);
        lemma_path_order_turns(source, refs[0].source);
        match path_order(source, refs[0].source) {
            Order::Equal => {
                lemma_with_index(refs[0].chunk_indices, n);
                let changed = SourceRefView {
                    source: refs[0].source,
                    chunk_indices: with_index(refs[0].chunk_indices, n),
                };
                lemma_in_order_cons(changed, rest);
            },
            Order::Less => {
                lemma_in_order_cons(entry, refs);
            },
            Order::Greater => {
                lemma_with_ref(rest, source, n);
                lemma_in_order_cons(refs[0], with_ref(rest, source, n));
            },
        }
    }
}

proof fn lemma_lines_in_order(list: Seq<Seq<char>>, before: Seq<SourceRefView>)
    requires
        in_order(before),
    ensures
        in_order(refs_of_lines(list, before)),
    decreases list.len(),
{
    if list.len() > 0 {
        lemma_lines_in_order(list.drop_last(), before);
        if let Some((source, n)) = quoted(list.last()) {
            lemma_with_ref(refs_of_lines(list.drop_last(), before), source, n);
        }
    }
}

/// The references are always in the order of their paths, each path once,
/// and the chunk numbers of each ascend.
pub proof fn law_source_refs_are_in_order(outputs: Seq<Seq<char>>)
    ensures
        in_order(refs_of_outputs(outputs)),
    decreases outputs.len(),
{
    if outputs.len() > 0 {
        law_source_refs_are_in_order(outputs.drop_last());
        lemma_lines_in_order(lines_spec(outputs.last()), refs_of_outputs(outputs.drop_last()));
    }
}

} // verus!
