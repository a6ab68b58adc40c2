//! What reading, editing and searching files keeps.
use vstd::prelude::*;
use crate::json::JsonView;
use crate::paths::{text_order, Order};
use crate::text::chars::byte_len;
use crate::text::laws::{law_joined_texts_are_its_pieces, law_split_parts_make_the_text, law_text_order_is_total, law_text_order_is_transitive, lemma_decimal_holds_digits, lemma_lines_hold_no_feed};
use crate::text::number::dec;
use crate::text::pieces::{lines_spec, pieces, CharClass};
use crate::text::search::{has_text, join_spec, lemma_find_from, occurs_at, split_spec};
use crate::tools::files::{content_to_write, edit_spec, numbered_lines, read_lines, read_output, EditView};
use crate::tools::output::success;
use crate::tools::search::{accepted, file_hits, grep_spec, insert_text, result_list, sorted_texts, FoundFile};

verus! {

/// What is shown of a file: its lines from the one asked for on, as many as are
/// asked for and there are. Each stands on a line of its own behind its number
/// in the file, which counts from one.
pub proof fn law_lines_are_shown_with_their_numbers(content: Seq<char>, offset: int, limit: int)
    requires
        1 <= offset <= lines_spec(content).len(),
        1 <= limit,
    ensures
        ({
            let all = lines_spec(content);
            let shown = pieces(read_lines(content, offset, limit), CharClass::Only('\n'));
            &&& shown.len() <= limit
            &&& shown.len() == limit || offset - 1 + shown.len() == all.len()
            &&& offset - 1 + shown.len() <= all.len()
            &&& forall|i: int|
                0 <= i < shown.len() ==> #[trigger] shown[i] == dec((offset + i) as nat) + "|"@
                    + all[offset + i - 1]
        }),
{
    let all = lines_spec(content);
    let end = if offset - 1 + limit < all.len() {
        offset - 1 + limit
    } else {
        all.len() as int
    };
    let list = numbered_lines(all, offset - 1, end);
    lemma_lines_hold_no_feed(content);
    reveal_strlit("|");
    reveal_strlit("\n");
    assert("\n"@ =~= seq!['\n']);
    assert forall|i: int| 0 <= i < list.len() implies !(#[trigger] list[i]).contains('\n') by {
        lemma_decimal_holds_digits((offset + i) as nat, '\n');
        assert(!all[offset + i - 1].contains('\n'));
        let number = dec((offset + i) as nat);
        if list[i].contains('\n') {
            let j = choose|j: int| 0 <= j < list[i].len() && list[i][j] == '\n';
            if j < number.len() {
                assert(number[j] == '\n');
            } else if j > number.len() {
                assert(all[offset + i - 1][j - number.len() - 1] == '\n');
            }
        }
    }
    law_joined_texts_are_its_pieces(list, '\n');
}

/// Which lines a call asks for: from the given one on, or from the first, and as
/// many as are given, but at most five thousand, or two thousand.
pub proof fn law_read_goes_by_its_arguments(args: JsonView, content: Seq<char>, o: u64, l: u64)
    requires
        1 <= o <= usize::MAX,
        1 <= l <= usize::MAX,
        args.field("offset"@) is None && o == 1 || args.field("offset"@) == Some(
            JsonView::Unsigned(o),
        ),
        args.field("limit"@) is None && l == 2000 || args.field("limit"@) == Some(
            JsonView::Unsigned(l),
        ),
    ensures
        read_output(args, content) == success(
            read_lines(
                content,
                o as int,
                if l < 5000 {
                    l as int
                } else {
                    5000
                },
            ),
        ),
{
}

/// A call that begins with line zero, or asks for no line, is refused.
pub proof fn law_read_of_nothing_is_refused(args: JsonView, content: Seq<char>)
    requires
        args.field("offset"@) == Some(JsonView::Unsigned(0)) || args.field("limit"@) == Some(
            JsonView::Unsigned(0),
        ),
    ensures
        read_output(args, content).is_error,
{
}

/// What is written is the content of the call, as long as it is not too large.
pub proof fn law_content_is_written_as_given(args: JsonView, text: Seq<char>)
    requires
        args.at("content"@) == JsonView::Text(text),
    ensures
        byte_len(text) <= 5242880 ==> content_to_write(args) == Ok::<Seq<char>, Seq<char>>(text),
        byte_len(text) > 5242880 ==> content_to_write(args) is Err,
{
}

/// A change replaces the old text of its call by the new one.
pub proof fn law_edit_goes_by_its_arguments(args: JsonView, old: Seq<char>, new: Seq<char>)
    requires
        args.at("old_string"@) == JsonView::Text(old),
        args.at("new_string"@) == JsonView::Text(new),
    ensures
        old.len() > 0 && byte_len(new) <= 5242880 ==> edit_spec(args) == Ok::<EditView, Seq<char>>(
            EditView { old, new, replace_all: args.at("replace_all"@) == JsonView::Bool(true) },
        ),
        old.len() == 0 || byte_len(new) > 5242880 ==> edit_spec(args) is Err,
{
}

/// A change everywhere puts the new text wherever the old one stands, and leaves
/// all that is between; the count is that of the places.
pub proof fn law_edit_everywhere_changes_every_place(e: EditView, content: Seq<char>)
    requires
        e.replace_all,
        e.old.len() > 0,
    ensures
        e.apply(content) matches Ok(p) ==> exists|parts: Seq<Seq<char>>|
            #![trigger join_spec(parts, e.old)]
            content == join_spec(parts, e.old) && p.0 == join_spec(parts, e.new) && parts.len()
                == p.1 + 1 && p.1 >= 1 && (forall|i: int|
                0 <= i < parts.len() ==> !has_text(#[trigger] parts[i], e.old)),
{
    law_split_parts_make_the_text(content, e.old);
    let parts = split_spec(content, e.old);
    assert(content == join_spec(parts, e.old));
}

/// A change of one place is made where the old text stands once: neither before
/// nor behind that place it stands again.
pub proof fn law_edit_of_one_place_is_unambiguous(e: EditView, content: Seq<char>)
    requires
        !e.replace_all,
        e.old.len() > 0,
    ensures
        e.apply(content) matches Ok(p) ==> exists|a: Seq<char>, b: Seq<char>|
            #![trigger a + e.old + b]
            content == a + e.old + b && p.0 == a + e.new + b && !has_text(a, e.old) && !has_text(
                b,
                e.old,
            ) && p.1 == 1,
{
    if let Ok(p) = e.apply(content) {
        law_split_parts_make_the_text(content, e.old);
        let parts = split_spec(content, e.old);
        assert(parts.len() == 2);
        assert(parts.drop_last() =~= seq![parts[0]]);
        assert(join_spec(seq![parts[0]], e.old) == parts[0]);
        let (a, b) = (parts[0], parts[1]);
        assert(content == a + e.old + b);
        lemma_find_from(content, e.old, 0);
        let i = crate::text::search::find_from(content, e.old, 0)->0;
        assert(content.take(i) == a);
        assert(content.skip(i + e.old.len()) =~= b);
    }
}

/// A change is refused where the old text does not stand, and one of a single
/// place where it stands more than once.
pub proof fn law_edit_needs_its_place(e: EditView, content: Seq<char>)
    requires
        e.old.len() > 0,
    ensures
        !has_text(content, e.old) ==> e.apply(content) is Err,
        has_text(content, e.old) && e.replace_all && byte_len(
            join_spec(split_spec(content, e.old), e.new),
        ) <= 5242880 ==> e.apply(content) is Ok,
        !e.replace_all && (exists|i: int, j: int|
            0 <= i && i + e.old.len() <= j && #[trigger] occurs_at(content, e.old, i)
                && #[trigger] occurs_at(content, e.old, j)) ==> e.apply(content) is Err,
{
    lemma_find_from(content, e.old, 0);
    if has_text(content, e.old) {
        let j = choose|j: int| occurs_at(content, e.old, j);
        let i = crate::text::search::find_from(content, e.old, 0)->0;
        law_split_parts_make_the_text(content.skip(i + e.old.len()), e.old);
    }
    if !e.replace_all && (exists|i: int, j: int|
        0 <= i && i + e.old.len() <= j && #[trigger] occurs_at(content, e.old, i)
            && #[trigger] occurs_at(content, e.old, j)) && e.apply(content) is Ok {
        let (i, j) = choose|i: int, j: int|
            0 <= i && i + e.old.len() <= j && #[trigger] occurs_at(content, e.old, i)
                && #[trigger] occurs_at(content, e.old, j);
        law_edit_of_one_place_is_unambiguous(e, content);
        let (a, b) = choose|a: Seq<char>, b: Seq<char>|
            #![trigger a + e.old + b]
            content == a + e.old + b && !has_text(a, e.old) && !has_text(b, e.old);
        let n = e.old.len() as int;
        let first = crate::text::search::find_from(content, e.old, 0)->0;
        let parts = split_spec(content, e.old);
        law_split_parts_make_the_text(content, e.old);
        let rest = content.skip(first + n);
        assert(first <= i);
        assert(rest.subrange(j - first - n, j - first) =~= content.subrange(j, j + n));
        assert(occurs_at(rest, e.old, j - first - n));
        lemma_find_from(rest, e.old, 0);
        let again = crate::text::search::find_from(rest, e.old, 0)->0;
        law_split_parts_make_the_text(rest.skip(again + n), e.old);
        assert(split_spec(rest, e.old).len() >= 2);
    }
}

proof fn lemma_insert_text(s: Seq<Seq<char>>, x: Seq<char>)
    ensures
        insert_text(s, x).to_multiset() == s.to_multiset().insert(x),
        in_text_order(s) ==> in_text_order(insert_text(s, x)),
        forall|y: Seq<char>| #[trigger] insert_text(s, x).contains(y) <==> s.contains(y) || y == x,
    decreases s.len(),
{
    broadcast use vstd::seq_lib::group_to_multiset_ensures;

    let r = insert_text(s, x);
    if s.len() == 0 {
        assert(r =~= s.push(x));
        assert(r[0] == x);
    } else if text_order(x, s[0]) == Order::Less {
        assert(r =~= s.insert(0, x));
        vstd::seq_lib::to_multiset_insert(s, 0, x);
        assert(r[0] == x);
        assert forall|y: Seq<char>| s.contains(y) implies #[trigger] r.contains(y) by {
            let j = choose|j: int| 0 <= j < s.len() && s[j] == y;
            assert(r[j + 1] == y);
        }
        if in_text_order(s) {
            law_text_order_is_total(x, s[0]);
            assert forall|i: int, j: int| 0 <= i < j < r.len() implies text_order(
                #[trigger] r[j],
                #[trigger] r[i],
            ) != Order::Less by {
                if i == 0 && j > 1 {
                    assert(r[j] == s[j - 1]);
                    assert(text_order(s[j - 1], s[0]) != Order::Less);
                    law_text_order_is_transitive(x, s[0], s[j - 1]);
                } else if i > 0 {
                    assert(r[j] == s[j - 1] && r[i] == s[i - 1]);
                }
            }
        }
    } else {
        let rest = s.skip(1);
        let w = insert_text(rest, x);
        lemma_insert_text(rest, x);
        assert(s =~= rest.insert(0, s[0]));
        assert(r =~= w.insert(0, s[0]));
        vstd::seq_lib::to_multiset_insert(rest, 0, s[0]);
        vstd::seq_lib::to_multiset_insert(w, 0, s[0]);
        assert(rest.to_multiset().insert(x).insert(s[0]) =~= rest.to_multiset().insert(
            s[0],
        ).insert(x));
        assert forall|y: Seq<char>| #[trigger] r.contains(y) <==> s.contains(y) || y == x by {
            if s.contains(y) {
                let j = choose|j: int| 0 <= j < s.len() && s[j] == y;
                if j == 0 {
                    assert(r[0] == y);
                } else {
                    assert(rest[j - 1] == y);
                    assert(rest.contains(y));
                }
            }
            if w.contains(y) {
                let j = choose|j: int| 0 <= j < w.len() && w[j] == y;
                assert(r[j + 1] == y);
            }
            if r.contains(y) {
                let j = choose|j: int| 0 <= j < r.len() && r[j] == y;
                if j > 0 {
                    assert(w[j - 1] == y);
                    assert(w.contains(y));
                    if rest.contains(y) {
                        let k = choose|k: int| 0 <= k < rest.len() && rest[k] == y;
                        assert(s[k + 1] == y);
                    }
                } else {
                    assert(s[0] == y);
                }
            }
            if y == x {
                assert(w.contains(x));
            }
        }
        if in_text_order(s) {
            assert forall|i: int, j: int| 0 <= i < j < rest.len() implies text_order(
                #[trigger] rest[j],
                #[trigger] rest[i],
            ) != Order::Less by {
                assert(rest[j] == s[j + 1] && rest[i] == s[i + 1]);
            }
            assert forall|i: int, j: int| 0 <= i < j < r.len() implies text_order(
                #[trigger] r[j],
                #[trigger] r[i],
            ) != Order::Less by {
                assert(r[j] == w[j - 1]);
                if i == 0 {
                    assert(w.contains(w[j - 1]));
                    if w[j - 1] != x {
                        let k = choose|k: int| 0 <= k < rest.len() && rest[k] == w[j - 1];
                        assert(rest[k] == s[k + 1]);
                    }
                } else {
                    assert(r[i] == w[i - 1]);
                }
            }
        }
    }
}

/// No text stands behind one that it comes before.
pub open spec fn in_text_order(s: Seq<Seq<char>>) -> bool {
    forall|i: int, j: int|
        0 <= i < j < s.len() ==> text_order(#[trigger] s[j], #[trigger] s[i]) != Order::Less
}

/// Sorting puts texts in order and neither loses nor adds any.
pub proof fn law_sorting_orders_the_same_texts(s: Seq<Seq<char>>)
    ensures
        sorted_texts(s).to_multiset() == s.to_multiset(),
        in_text_order(sorted_texts(s)),
    decreases s.len(),
{
    broadcast use vstd::seq_lib::group_to_multiset_ensures;

    if s.len() > 0 {
        law_sorting_orders_the_same_texts(s.drop_last());
        lemma_insert_text(sorted_texts(s.drop_last()), s.last());
        assert(s.drop_last().push(s.last()) =~= s);
    } else {
        assert(sorted_texts(s) =~= s);
    }
}

/// The positions ascend.
pub open spec fn ascend(ks: Seq<int>) -> bool {
    forall|i: int, j: int| 0 <= i < j < ks.len() ==> #[trigger] ks[i] < #[trigger] ks[j]
}

/// A search for files finds those whose path is accepted, in the order in which
/// they were come across, and no others. Up to the limit it misses none.
pub proof fn law_accepted_files_are_found(
    files: Seq<FoundFile>,
    paths: Set<Seq<char>>,
    limit: int,
) -> (ks: Seq<int>)
    requires
        0 <= limit,
    ensures
        ascend(ks),
        accepted(files, paths, limit).len() == ks.len() <= limit,
        forall|i: int|
            0 <= i < ks.len() ==> 0 <= #[trigger] ks[i] < files.len() && paths.contains(
                files[ks[i]].relative@,
            ) && accepted(files, paths, limit)[i] == files[ks[i]].shown@,
        forall|k: int|
            0 <= k < files.len() && paths.contains((#[trigger] files[k]).relative@)
                && !ks.contains(k) ==> ks.len() == limit && (forall|i: int|
                0 <= i < ks.len() ==> #[trigger] ks[i] < k),
    decreases files.len(),
{
    if files.len() == 0 {
        Seq::empty()
    } else {
        let front = files.drop_last();
        let before = law_accepted_files_are_found(front, paths, limit);
        let n = files.len() - 1;
        assert(files[n] == files.last());
        assert forall|k: int| 0 <= k < n implies #[trigger] files[k] == front[k] by {}
        if before.len() < limit && paths.contains(files.last().relative@) {
            let ks = before.push(n);
            assert forall|k: int|
                0 <= k < files.len() && paths.contains((#[trigger] files[k]).relative@)
                    && !ks.contains(k) implies ks.len() == limit && (forall|i: int|
                0 <= i < ks.len() ==> #[trigger] ks[i] < k) by {
                assert(ks[before.len() as int] == n);
                if before.contains(k) {
                    let j = choose|j: int| 0 <= j < before.len() && before[j] == k;
                    assert(ks[j] == k);
                }
                assert(front[k] == files[k]);
            }
            ks
        } else {
            before
        }
    }
}

/// A search for lines shows the lines that match with the file, their number in
/// it and their text, in order, behind the hits before. Up to the limit it
/// misses none, and it shows no others.
pub proof fn law_matching_lines_are_found(
    before: Seq<Seq<char>>,
    shown: Seq<char>,
    all: Seq<Seq<char>>,
    wanted: Set<Seq<char>>,
    limit: int,
) -> (ks: Seq<int>)
    requires
        before.len() <= limit,
    ensures
        ascend(ks),
        file_hits(before, shown, all, wanted, limit).len() == before.len() + ks.len() <= limit,
        file_hits(before, shown, all, wanted, limit).take(before.len() as int) == before,
        forall|i: int|
            0 <= i < ks.len() ==> 0 <= #[trigger] ks[i] < all.len() && wanted.contains(all[ks[i]])
                && file_hits(before, shown, all, wanted, limit)[before.len() + i] == shown + ":"@
                + dec((ks[i] + 1) as nat) + ":"@ + all[ks[i]],
        forall|k: int|
            0 <= k < all.len() && wanted.contains(#[trigger] all[k]) && !ks.contains(k)
                ==> before.len() + ks.len() == limit && (forall|i: int|
                0 <= i < ks.len() ==> #[trigger] ks[i] < k),
    decreases all.len(),
{
    if all.len() == 0 {
        assert(before.take(before.len() as int) =~= before);
        Seq::empty()
    } else {
        let front = all.drop_last();
        let found = law_matching_lines_are_found(before, shown, front, wanted, limit);
        let so_far = file_hits(before, shown, front, wanted, limit);
        let n = all.len() - 1;
        assert(all[n] == all.last());
        assert forall|k: int| 0 <= k < n implies #[trigger] all[k] == front[k] by {}
        if so_far.len() < limit && wanted.contains(all.last()) {
            let ks = found.push(n);
            let after = file_hits(before, shown, all, wanted, limit);
            assert(after.take(before.len() as int) =~= so_far.take(before.len() as int));
            assert forall|i: int| 0 <= i < ks.len() implies 0 <= #[trigger] ks[i] < all.len()
                && wanted.contains(all[ks[i]]) && after[before.len() + i] == shown + ":"@ + dec(
                (ks[i] + 1) as nat,
            ) + ":"@ + all[ks[i]] by {
                if i < found.len() {
                    assert(ks[i] == found[i]);
                    assert(after[before.len() + i] == so_far[before.len() + i]);
                }
            }
            assert forall|k: int|
                0 <= k < all.len() && wanted.contains(#[trigger] all[k]) && !ks.contains(
                    k,
                ) implies before.len() + ks.len() == limit && (forall|i: int|
                0 <= i < ks.len() ==> #[trigger] ks[i] < k) by {
                assert(ks[found.len() as int] == n);
                if found.contains(k) {
                    let j = choose|j: int| 0 <= j < found.len() && found[j] == k;
                    assert(ks[j] == k);
                }
                assert(front[k] == all[k]);
            }
            ks
        } else {
            found
        }
    }
}

/// How many hits a search for lines hands back at most: as many as the call
/// asks for, between one and two thousand, or two hundred.
pub proof fn law_search_goes_by_its_limit(args: JsonView, n: u64)
    requires
        args.field("max_results"@) is None && n == 200 || args.field("max_results"@) == Some(
            JsonView::Unsigned(n),
        ),
        n <= usize::MAX,
    ensures
        grep_spec(args) matches Ok(q) ==> 1 <= q.limit <= 2000 && (1 <= n <= 2000 ==> q.limit == n)
            && (n > 2000 ==> q.limit == 2000),
{
}

/// Results stand one to a line.
pub proof fn law_results_stand_on_lines(results: Seq<Seq<char>>)
    requires
        results.len() > 0,
        forall|i: int| 0 <= i < results.len() ==> !(#[trigger] results[i]).contains('\n'),
    ensures
        pieces(result_list(results), CharClass::Only('\n')) == results,
{
    reveal_strlit("\n");
    assert("\n"@ =~= seq!['\n']);
    law_joined_texts_are_its_pieces(results, '\n');
}

} // verus!
