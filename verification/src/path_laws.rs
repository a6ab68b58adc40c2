//! How paths are put together and taken apart.
use vstd::prelude::*;
use crate::boot::candidates;
use crate::paths::{file_name_spec, is_absolute_spec, join_path_spec, law_parent_drops_the_last_component, parent_spec, part_order, part_text, parts_order, parts_spec, piece_part, pieces_parts, relative_spec, solid_len, stem_and_extension, within_spec, Order, PartView};
use crate::session::with_extension_spec;
use crate::text::laws::{law_joined_texts_are_its_pieces, law_pieces_hold_the_rest, law_pieces_in_two, law_pieces_make_the_text};
use crate::text::pieces::{pieces, CharClass};
use crate::text::search::{join_spec, occurs_at, rfind_from};

verus! {

proof fn lemma_parts_concat(a: Seq<Seq<char>>, b: Seq<Seq<char>>)
    ensures
        pieces_parts(a + b) == pieces_parts(a) + pieces_parts(b),
    decreases b.len(),
{
    if b.len() == 0 {
        assert(a + b =~= a);
        assert(pieces_parts(a) + pieces_parts(b) =~= pieces_parts(a));
    } else {
        assert((a + b).drop_last() =~= a + b.drop_last());
        lemma_parts_concat(a, b.drop_last());
        assert(pieces_parts(a) + pieces_parts(b.drop_last()) + piece_part(b.last())
            =~= pieces_parts(a) + (pieces_parts(b.drop_last()) + piece_part(b.last())));
    }
}

proof fn lemma_part_of_nothing()
    ensures
        pieces_parts(seq![Seq::<char>::empty()]) == Seq::<PartView>::empty(),
{
    let list = seq![Seq::<char>::empty()];
    assert(list.drop_last() =~= Seq::empty());
    assert(pieces_parts(list.drop_last()) =~= Seq::empty());
    assert(pieces_parts(list) =~= Seq::<PartView>::empty());
}

/// A relative path that does not begin with a dot of its own.
pub open spec fn is_plain_relative(path: Seq<char>) -> bool {
    path.len() > 0 && !is_absolute_spec(path) && pieces(path, CharClass::Only('/'))[0] != "."@
}

/// The components of a path behind a base are those of the base and then those of
/// the path; an absolute path stands for itself.
pub proof fn law_joined_paths_have_all_components(base: Seq<char>, path: Seq<char>)
    ensures
        is_absolute_spec(path) ==> join_path_spec(base, path) == path,
        is_plain_relative(path) ==> parts_spec(join_path_spec(base, path)) == parts_spec(base)
            + parts_spec(path),
{
    let slash = CharClass::Only('/');
    reveal_strlit("/");
    if is_plain_relative(path) {
        let list = pieces(path, slash);
        law_pieces_hold_the_rest(path, slash);
        assert(parts_spec(path) =~= pieces_parts(list));
        if base.len() == 0 {
            assert(pieces(base, slash) == seq![Seq::<char>::empty()]);
            lemma_part_of_nothing();
            reveal_strlit(".");
            assert(Seq::<char>::empty() != "."@) by {
                assert("."@.len() == 1);
            }
            assert(parts_spec(base) =~= Seq::<PartView>::empty());
            assert(parts_spec(base) + parts_spec(path) =~= parts_spec(path));
        } else {
            let front = if base.last() == '/' {
                base.drop_last()
            } else {
                base
            };
            let all = join_path_spec(base, path);
            assert("/"@ =~= seq!['/']);
            assert(all =~= front + seq!['/'] + path);
            law_pieces_in_two(front, '/', path, slash);
            let first = pieces(front, slash);
            law_pieces_hold_the_rest(front, slash);
            lemma_parts_concat(first, list);
            assert(pieces(all, slash)[0] == first[0]);
            assert(all[0] == base[0]);
            if base.last() == '/' {
                let none = Seq::<char>::empty();
                assert(base =~= front + seq!['/'] + none);
                law_pieces_in_two(front, '/', none, slash);
                assert(pieces(none, slash) == seq![none]);
                lemma_part_of_nothing();
                lemma_parts_concat(first, seq![none]);
                assert(pieces(base, slash)[0] == first[0]);
                assert(pieces_parts(pieces(base, slash)) =~= pieces_parts(first));
            }
            assert(parts_spec(all) =~= parts_spec(base) + parts_spec(path));
        }
    }
}

/// A name of a component: not empty, without slashes, and neither of the two
/// names of dots.
pub open spec fn is_name(s: Seq<char>) -> bool {
    s.len() > 0 && !s.contains('/') && s != "."@ && s != ".."@
}

pub open spec fn is_step(p: PartView) -> bool {
    match p {
        PartView::Name(n) => is_name(n),
        PartView::Up => true,
        _ => false,
    }
}

proof fn lemma_parts_are_steps(list: Seq<Seq<char>>)
    requires
        forall|i: int| 0 <= i < list.len() ==> !(#[trigger] list[i]).contains('/'),
    ensures
        forall|i: int| 0 <= i < pieces_parts(list).len() ==> is_step(#[trigger] pieces_parts(list)[i]),
    decreases list.len(),
{
    if list.len() > 0 {
        let front = list.drop_last();
        assert forall|i: int| 0 <= i < front.len() implies !(#[trigger] front[i]).contains('/') by {
            assert(front[i] == list[i]);
        }
        lemma_parts_are_steps(front);
        assert(!list[list.len() - 1].contains('/'));
        let all = pieces_parts(list);
        let before = pieces_parts(front);
        assert forall|i: int| 0 <= i < all.len() implies is_step(#[trigger] all[i]) by {
            if i < before.len() {
                assert(all[i] == before[i]);
            } else {
                assert(all[i] == piece_part(list.last())[i - before.len()]);
            }
        }
    }
}

proof fn lemma_steps_make_parts(steps: Seq<PartView>)
    requires
        forall|i: int| 0 <= i < steps.len() ==> is_step(#[trigger] steps[i]),
    ensures
        pieces_parts(steps.map_values(|p: PartView| part_text(p))) == steps,
    decreases steps.len(),
{
    let f = |p: PartView| part_text(p);
    if steps.len() == 0 {
        assert(steps.map_values(f) =~= Seq::empty());
        assert(steps =~= Seq::empty());
    } else {
        let front = steps.drop_last();
        assert forall|i: int| 0 <= i < front.len() implies is_step(#[trigger] front[i]) by {
            assert(is_step(steps[i]));
        }
        lemma_steps_make_parts(front);
        assert(steps.map_values(f).drop_last() =~= front.map_values(f));
        assert(is_step(steps[steps.len() - 1]));
        reveal_strlit("..");
        reveal_strlit(".");
        assert(".."@.len() == 2 && "."@.len() == 1);
        assert(front + seq![steps.last()] =~= steps);
    }
}

/// A path is read back from its components: names and steps up, joined by slashes,
/// are the components of the path that they make.
pub proof fn law_components_are_read_back(steps: Seq<PartView>)
    requires
        steps.len() > 0,
        forall|i: int| 0 <= i < steps.len() ==> is_step(#[trigger] steps[i]),
    ensures
        parts_spec(join_spec(steps.map_values(|p: PartView| part_text(p)), "/"@)) == steps,
        is_plain_relative(join_spec(steps.map_values(|p: PartView| part_text(p)), "/"@)),
{
    reveal_strlit("/");
    reveal_strlit("..");
    reveal_strlit(".");
    let f = |p: PartView| part_text(p);
    let list = steps.map_values(f);
    assert forall|i: int| 0 <= i < list.len() implies !(#[trigger] list[i]).contains('/') && list[i].len()
        > 0 && list[i] != "."@ by {
        assert(is_step(steps[i]));
        assert(".."@.len() == 2 && "."@.len() == 1);
    }
    assert("/"@ =~= seq!['/']);
    law_joined_texts_are_its_pieces(list, '/');
    lemma_steps_make_parts(steps);
    let path = join_spec(list, "/"@);
    lemma_first_char(list);
    assert(!is_absolute_spec(path)) by {
        if path[0] == '/' {
            assert(list[0][0] == '/');
            assert(list[0].contains('/'));
        }
    }
    assert(list[0] != "."@);
    assert(parts_spec(path) =~= steps);
}

proof fn lemma_first_char(list: Seq<Seq<char>>)
    requires
        list.len() > 0,
        list[0].len() > 0,
    ensures
        join_spec(list, "/"@).len() > 0,
        join_spec(list, "/"@)[0] == list[0][0],
    decreases list.len(),
{
    if list.len() > 1 {
        let front = list.drop_last();
        assert(front[0] == list[0]);
        lemma_first_char(front);
    }
}

proof fn lemma_steps_behind_the_head(path: Seq<char>, n: int)
    requires
        1 <= n <= parts_spec(path).len(),
    ensures
        forall|i: int|
            n <= i < parts_spec(path).len() ==> is_step(#[trigger] parts_spec(path)[i]),
{
    let slash = CharClass::Only('/');
    let list = pieces(path, slash);
    law_pieces_make_the_text(path, '/');
    lemma_parts_are_steps(list);
    let steps = pieces_parts(list);
    let all = parts_spec(path);
    let head = all.len() - steps.len();
    assert forall|i: int| n <= i < all.len() implies is_step(#[trigger] all[i]) by {
        assert(all[i] == steps[i - head]);
    }
}

/// The path of something in a directory relative to it, put behind the directory
/// again, is the same path.
pub proof fn law_relative_paths_lead_back(path: Seq<char>, base: Seq<char>)
    requires
        within_spec(path, base),
        parts_spec(base).len() > 0,
        parts_spec(path).len() > parts_spec(base).len(),
    ensures
        parts_spec(join_path_spec(base, relative_spec(path, base))) == parts_spec(path),
        parts_spec(relative_spec(path, base)) == parts_spec(path).skip(
            parts_spec(base).len() as int,
        ),
{
    let n = parts_spec(base).len() as int;
    let steps = parts_spec(path).skip(n);
    lemma_steps_behind_the_head(path, n);
    assert forall|i: int| 0 <= i < steps.len() implies is_step(#[trigger] steps[i]) by {
        assert(steps[i] == parts_spec(path)[n + i]);
    }
    law_components_are_read_back(steps);
    law_joined_paths_have_all_components(base, relative_spec(path, base));
    assert(parts_spec(path) =~= parts_spec(path).take(n) + steps);
}

/// The last component of a path is its file name.
pub proof fn law_file_names_come_last(base: Seq<char>, name: Seq<char>)
    requires
        is_name(name),
    ensures
        file_name_spec(join_path_spec(base, name)) == Some(name),
        within_spec(join_path_spec(base, name), base),
{
    let steps = seq![PartView::Name(name)];
    assert forall|i: int| 0 <= i < steps.len() implies is_step(#[trigger] steps[i]) by {}
    law_components_are_read_back(steps);
    assert(steps.map_values(|p: PartView| part_text(p)) =~= seq![name]);
    assert(join_spec(seq![name], "/"@) == name);
    law_joined_paths_have_all_components(base, name);
    let all = parts_spec(join_path_spec(base, name));
    assert(all.last() == PartView::Name(name));
    assert(all.take(parts_spec(base).len() as int) =~= parts_spec(base));
}

proof fn lemma_rfind_none(hay: Seq<char>, needle: Seq<char>, from: int)
    ensures
        match rfind_from(hay, needle, from) {
            Some(i) => 0 <= i <= from && occurs_at(hay, needle, i) && forall|j: int|
                i < j <= from ==> !occurs_at(hay, needle, j),
            None => forall|j: int| 0 <= j <= from ==> !occurs_at(hay, needle, j),
        },
    decreases from + 1,
{
    if from >= 0 && !occurs_at(hay, needle, from) {
        lemma_rfind_none(hay, needle, from - 1);
    }
}

/// A file name is its stem, a dot and its extension, which holds no dot; a name
/// without a dot behind its first character has no extension.
pub proof fn law_names_are_stem_and_extension(name: Seq<char>)
    ensures
        match stem_and_extension(name) {
            (stem, Some(extension)) => name == stem + seq!['.'] + extension && stem.len() > 0
                && !extension.contains('.'),
            (stem, None) => stem == name && forall|i: int|
                0 < i < name.len() ==> #[trigger] name[i] != '.',
        },
{
    reveal_strlit(".");
    let dot = "."@;
    lemma_rfind_none(name, dot, name.len() as int);
    match rfind_from(name, dot, name.len() as int) {
        Some(i) => {
            assert(name.subrange(i, i + 1)[0] == '.');
            assert forall|j: int| i < j < name.len() implies name[j] != '.' by {
                if name[j] == '.' {
                    assert(name.subrange(j, j + 1) =~= dot);
                    assert(occurs_at(name, dot, j));
                }
            }
            if i > 0 {
                let extension = name.skip(i + 1);
                assert(name =~= name.take(i) + seq!['.'] + extension);
                if extension.contains('.') {
                    let k = choose|k: int| 0 <= k < extension.len() && extension[k] == '.';
                    assert(name[i + 1 + k] == '.');
                }
            }
        },
        None => {
            assert forall|j: int| 0 < j < name.len() implies #[trigger] name[j] != '.' by {
                if name[j] == '.' {
                    assert(name.subrange(j, j + 1) =~= dot);
                    assert(occurs_at(name, dot, j));
                }
            }
        },
    }
}

/// Another extension takes the place of the one that a file has, and the rest of
/// the path stays.
pub proof fn law_extensions_are_replaced(base: Seq<char>, name: Seq<char>, extension: Seq<char>)
    requires
        is_name(name),
    ensures
        extension.len() > 0 ==> with_extension_spec(base + seq!['/'] + name, extension) == base
            + seq!['/'] + stem_and_extension(name).0 + "."@ + extension,
        extension.len() == 0 ==> with_extension_spec(base + seq!['/'] + name, extension) == base
            + seq!['/'] + stem_and_extension(name).0,
{
    reveal_strlit("/");
    let slash = CharClass::Only('/');
    let path = base + seq!['/'] + name;
    let first = pieces(base, slash);
    law_pieces_in_two(base, '/', name, slash);
    assert forall|i: int| 0 <= i < name.len() implies !slash.holds(#[trigger] name[i]) by {}
    crate::text::laws::law_one_piece_stays_whole(name, slash);
    law_pieces_make_the_text(base, '/');
    let list = pieces(path, slash);
    assert(list =~= first.push(name));
    assert(list.last() == name);
    assert(piece_part(name).len() > 0);
    assert(solid_len(list) == list.len());
    assert(list.take(list.len() - 1) =~= first);
    let stem = stem_and_extension(name).0;
    let short = first.push(stem);
    assert(short.drop_last() =~= first);
    assert("/"@ =~= seq!['/']);
    assert(join_spec(short, "/"@) == base + seq!['/'] + stem);
    lemma_parts_concat(first, seq![name]);
    assert(first + seq![name] =~= list);
    assert(seq![name].drop_last() =~= Seq::empty());
    assert(pieces_parts(Seq::<Seq<char>>::empty()) =~= Seq::<PartView>::empty());
    assert(seq![name].last() == name);
    assert(pieces_parts(seq![name]) == Seq::<PartView>::empty() + piece_part(name));
    assert(Seq::<PartView>::empty() + piece_part(name) =~= seq![PartView::Name(name)]);
    let all = parts_spec(path);
    assert(all.last() == PartView::Name(name));
}

/// The documents of the knowledge base are looked for under the directory itself
/// and then under each of those above it, from the inside out.
pub proof fn law_documents_are_looked_for_upwards(dir: Seq<char>, i: int) -> (above: Seq<char>)
    requires
        0 <= i < candidates(dir).len(),
    ensures
        candidates(dir)[i] == join_path_spec(above, "docs/rag-docs"@),
        parts_spec(above).len() == parts_spec(dir).len() - i,
        parts_spec(dir).take(parts_spec(dir).len() - i) == parts_spec(above),
    decreases i,
{
    law_parent_drops_the_last_component(dir);
    if i == 0 {
        assert(parts_spec(dir).take(parts_spec(dir).len() as int) =~= parts_spec(dir));
        dir
    } else {
        let up = parent_spec(dir)->0;
        let here = seq![join_path_spec(dir, "docs/rag-docs"@)];
        assert(candidates(dir) == here + candidates(up));
        let above = law_documents_are_looked_for_upwards(up, i - 1);
        let n = parts_spec(dir).len() - i;
        assert(parts_spec(dir).drop_last().take(n) =~= parts_spec(dir).take(n));
        above
    }
}

/// Paths are ordered by their first different component, and a path comes before
/// those under it.
pub proof fn law_paths_are_ordered_by_their_first_difference(
    a: Seq<PartView>,
    b: Seq<PartView>,
    i: int,
)
    requires
        0 <= i <= a.len(),
        i <= b.len(),
        a.take(i) == b.take(i),
    ensures
        i < a.len() && i < b.len() && part_order(a[i], b[i]) != Order::Equal ==> parts_order(a, b)
            == part_order(a[i], b[i]),
        i == a.len() && i < b.len() ==> parts_order(a, b) == Order::Less,
        i < a.len() && i == b.len() ==> parts_order(a, b) == Order::Greater,
    decreases i,
{
    if i > 0 {
        assert(a[0] == a.take(i)[0] && b[0] == b.take(i)[0]);
        crate::paths::lemma_text_order_equal(
            part_text(a[0]),
            part_text(b[0]),
        );
        assert(part_order(a[0], b[0]) == Order::Equal);
        assert(a.skip(1).take(i - 1) =~= a.take(i).skip(1));
        assert(b.skip(1).take(i - 1) =~= b.take(i).skip(1));
        law_paths_are_ordered_by_their_first_difference(a.skip(1), b.skip(1), i - 1);
        if i < a.len() {
            assert(a.skip(1)[i - 1] == a[i]);
        }
        if i < b.len() {
            assert(b.skip(1)[i - 1] == b[i]);
        }
    }
}

/// What stands behind the last slash of a path is its file name.
pub proof fn law_paths_end_with_their_name(base: Seq<char>, name: Seq<char>)
    requires
        is_name(name),
    ensures
        file_name_spec(base + seq!['/'] + name) == Some(name),
{
    let slash = CharClass::Only('/');
    let path = base + seq!['/'] + name;
    let first = pieces(base, slash);
    law_pieces_in_two(base, '/', name, slash);
    assert forall|i: int| 0 <= i < name.len() implies !slash.holds(#[trigger] name[i]) by {}
    crate::text::laws::law_one_piece_stays_whole(name, slash);
    lemma_parts_concat(first, seq![name]);
    assert(seq![name].drop_last() =~= Seq::empty());
    assert(pieces_parts(Seq::<Seq<char>>::empty()) =~= Seq::<PartView>::empty());
    assert(seq![name].last() == name);
    assert(pieces_parts(seq![name]) == Seq::<PartView>::empty() + piece_part(name));
    assert(Seq::<PartView>::empty() + piece_part(name) =~= seq![PartView::Name(name)]);
    assert(parts_spec(path).last() == PartView::Name(name));
}

} // verus!
