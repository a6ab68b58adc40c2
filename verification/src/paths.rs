//! File paths as texts whose components are separated by slashes.
use vstd::prelude::*;
use crate::text::chars::{chars_of, same, text_between, view_opt, views};
use crate::text::pieces::{pieces, split_at_class, CharClass};
use crate::text::search::{join, join_spec, rfind, rfind_from};

verus! {

/// How two values are ordered.
#[derive(Clone, Copy, Debug, PartialEq, Eq, Structural)]
pub enum Order {
    Less,
    Equal,
    Greater,
}

/// A component of a path, in the order in which components sort.
#[derive(Clone, Debug, PartialEq)]
pub enum Part {
    /// The root directory at the start of an absolute path.
    Root,
    /// The current directory at the start of a relative path.
    Here,
    /// The parent directory.
    Up,
    /// A file or directory.
    Name(String),
}

pub enum PartView {
    Root,
    Here,
    Up,
    Name(Seq<char>),
}

impl View for Part {
    type V = PartView;

    open spec fn view(&self) -> PartView {
        match self {
            Part::Root => PartView::Root,
            Part::Here => PartView::Here,
            Part::Up => PartView::Up,
            Part::Name(n) => PartView::Name(n@),
        }
    }
}

pub open spec fn parts_view(v: Seq<Part>) -> Seq<PartView> {
    v.map_values(|p: Part| p@)
}

/// The component that a piece between slashes stands for. Empty pieces and
/// single dots stand for none.
pub open spec fn piece_part(piece: Seq<char>) -> Seq<PartView> {
    if piece.len() == 0 || piece == "."@ {
        Seq::empty()
    } else if piece == ".."@ {
        seq![PartView::Up]
    } else {
        seq![PartView::Name(piece)]
    }
}

pub open spec fn pieces_parts(list: Seq<Seq<char>>) -> Seq<PartView>
    decreases list.len(),
{
    if list.len() == 0 {
        Seq::empty()
    } else {
        pieces_parts(list.drop_last()) + piece_part(list.last())
    }
}

/// The components of a path. Repeated slashes, slashes at the end and single
/// dots count for nothing, but for a dot at the start of a relative path.
pub open spec fn parts_spec(path: Seq<char>) -> Seq<PartView> {
    let list = pieces(path, CharClass::Only('/'));
    let head = if path.len() > 0 && path[0] == '/' {
        seq![PartView::Root]
    } else if list[0] == "."@ {
        seq![PartView::Here]
    } else {
        Seq::empty()
    };
    head + pieces_parts(list)
}

/// The components of a path.
pub fn parts(path: &str) -> (r: Vec<Part>)
    ensures
        parts_view(r@) == parts_spec(path@),
{
    let list = split_at_class(path, CharClass::Only('/'));
    let c = chars_of(path);
    let mut r: Vec<Part> = Vec::new();
    if c.len() > 0 && c[0] == '/' {
        r.push(Part::Root);
    } else if same(&list[0], ".") {
        r.push(Part::Here);
    }
    let ghost head = parts_view(r@);
    let ghost all = views(list@);
    proof {
        assert(all[0] == list@[0]@);
        assert(head =~= if path@.len() > 0 && path@[0] == '/' {
            seq![PartView::Root]
        } else if all[0] == "."@ {
            seq![PartView::Here]
        } else {
            Seq::empty()
        });
        assert(all.take(0) =~= Seq::empty());
        assert(head + pieces_parts(all.take(0)) =~= head);
    }
    for i in 0..list.len()
        invariant
            all == views(list@),
            parts_view(r@) == head + pieces_parts(all.take(i as int)),
    {
        assert(all.take(i + 1).drop_last() =~= all.take(i as int));
        let ghost before = pieces_parts(all.take(i as int));
        if list[i].as_str().unicode_len() == 0 || same(&list[i], ".") {
            assert(before + Seq::<PartView>::empty() =~= before);
        } else {
            let part = if same(&list[i], "..") {
                Part::Up
            } else {
                Part::Name(list[i].clone())
            };
            assert(parts_view(r@.push(part)) =~= parts_view(r@).push(part@));
            assert((head + before).push(part@) =~= head + (before + seq![part@]));
            r.push(part);
        }
    }
    assert(all.take(list@.len() as int) =~= all);
    r
}

/// The order of texts by their first different characters.
pub open spec fn text_order(a: Seq<char>, b: Seq<char>) -> Order
    decreases a.len(),
{
    if a.len() == 0 {
        if b.len() == 0 {
            Order::Equal
        } else {
            Order::Less
        }
    } else if b.len() == 0 {
        Order::Greater
    } else if a[0] == b[0] {
        text_order(a.skip(1), b.skip(1))
    } else if (a[0] as u32) < (b[0] as u32) {
        Order::Less
    } else {
        Order::Greater
    }
}

/// The order of two texts.
pub fn order_texts(a: &str, b: &str) -> (r: Order)
    ensures
        r == text_order(a@, b@),
{
    let x = chars_of(a);
    let y = chars_of(b);
    let mut i: usize = 0;
    assert(x@.skip(0) =~= a@);
    assert(y@.skip(0) =~= b@);
    while i < x.len() && i < y.len()
        invariant
            i <= x@.len(),
            i <= y@.len(),
            text_order(a@, b@) == text_order(x@.skip(i as int), y@.skip(i as int)),
        decreases x@.len() - i,
    {
        let (c, d): (char, char) = (x[i], y[i]);
        if c != d {
            return if (c as u32) < (d as u32) {
                Order::Less
            } else {
                Order::Greater
            };
        }
        assert(x@.skip(i as int).skip(1) =~= x@.skip(i + 1));
        assert(y@.skip(i as int).skip(1) =~= y@.skip(i + 1));
        i += 1;
    }
    if i < x.len() {
        Order::Greater
    } else if i < y.len() {
        Order::Less
    } else {
        Order::Equal
    }
}

pub open spec fn part_rank(p: PartView) -> int {
    match p {
        PartView::Root => 0,
        PartView::Here => 1,
        PartView::Up => 2,
        PartView::Name(_) => 3,
    }
}

pub open spec fn part_order(a: PartView, b: PartView) -> Order {
    if part_rank(a) < part_rank(b) {
        Order::Less
    } else if part_rank(b) < part_rank(a) {
        Order::Greater
    } else {
        match (a, b) {
            (PartView::Name(x), PartView::Name(y)) => text_order(x, y),
            _ => Order::Equal,
        }
    }
}

fn rank_of(p: &Part) -> (r: u8)
    ensures
        r == part_rank(p@),
{
    match p {
        Part::Root => 0,
        Part::Here => 1,
        Part::Up => 2,
        Part::Name(_) => 3,
    }
}

fn order_part(a: &Part, b: &Part) -> (r: Order)
    ensures
        r == part_order(a@, b@),
{
    let (x, y) = (rank_of(a), rank_of(b));
    if x < y {
        Order::Less
    } else if y < x {
        Order::Greater
    } else {
        match (a, b) {
            (Part::Name(m), Part::Name(n)) => order_texts(m, n),
            _ => Order::Equal,
        }
    }
}

pub open spec fn parts_order(a: Seq<PartView>, b: Seq<PartView>) -> Order
    decreases a.len(),
{
    if a.len() == 0 {
        if b.len() == 0 {
            Order::Equal
        } else {
            Order::Less
        }
    } else if b.len() == 0 {
        Order::Greater
    } else {
        match part_order(a[0], b[0]) {
            Order::Equal => parts_order(a.skip(1), b.skip(1)),
            o => o,
        }
    }
}

/// The order of two paths, component by component.
#[verifier::opaque]
pub open spec fn path_order(a: Seq<char>, b: Seq<char>) -> Order {
    parts_order(parts_spec(a), parts_spec(b))
}

/// The order of two paths, component by component.
pub fn order_paths(a: &str, b: &str) -> (r: Order)
    ensures
        r == path_order(a@, b@),
{
    reveal(path_order);
    let x = parts(a);
    let y = parts(b);
    let ghost xs = parts_view(x@);
    let ghost ys = parts_view(y@);
    let mut i: usize = 0;
    assert(xs.skip(0) =~= xs);
    assert(ys.skip(0) =~= ys);
    while i < x.len() && i < y.len()
        invariant
            i <= x@.len(),
            i <= y@.len(),
            xs == parts_view(x@),
            ys == parts_view(y@),
            path_order(a@, b@) == parts_order(xs, ys),
            xs == parts_spec(a@),
            ys == parts_spec(b@),
            parts_order(xs, ys) == parts_order(xs.skip(i as int), ys.skip(i as int)),
        decreases x@.len() - i,
    {
        let o = order_part(&x[i], &y[i]);
        if o != Order::Equal {
            return o;
        }
        assert(xs.skip(i as int).skip(1) =~= xs.skip(i + 1));
        assert(ys.skip(i as int).skip(1) =~= ys.skip(i + 1));
        i += 1;
    }
    if i < x.len() {
        Order::Greater
    } else if i < y.len() {
        Order::Less
    } else {
        Order::Equal
    }
}

/// The number of a character tells it from every other.
pub proof fn lemma_char_number(c: char, d: char)
    ensures
        c as u32 == d as u32 ==> c == d,
{
}

/// Texts that are ordered the same are the same.
pub proof fn lemma_text_order_equal(a: Seq<char>, b: Seq<char>)
    ensures
        text_order(a, b) == Order::Equal <==> a == b,
    decreases a.len(),
{
    if a.len() > 0 && b.len() > 0 {
        lemma_text_order_equal(a.skip(1), b.skip(1));
        assert(a =~= seq![a[0]] + a.skip(1));
        assert(b =~= seq![b[0]] + b.skip(1));
    } else if a.len() == 0 && b.len() == 0 {
        assert(a =~= b);
    }
}

/// Component lists that are ordered the same are the same.
pub proof fn lemma_parts_order_equal(a: Seq<PartView>, b: Seq<PartView>)
    ensures
        parts_order(a, b) == Order::Equal <==> a == b,
    decreases a.len(),
{
    if a.len() > 0 && b.len() > 0 {
        lemma_parts_order_equal(a.skip(1), b.skip(1));
        assert(a =~= seq![a[0]] + a.skip(1));
        assert(b =~= seq![b[0]] + b.skip(1));
        if let (PartView::Name(x), PartView::Name(y)) = (a[0], b[0]) {
            lemma_text_order_equal(x, y);
        }
    } else if a.len() == 0 && b.len() == 0 {
        assert(a =~= b);
    }
}

/// Whether two texts name the same path, component by component.
pub open spec fn same_path_spec(a: Seq<char>, b: Seq<char>) -> bool {
    parts_spec(a) == parts_spec(b)
}

/// Whether two texts name the same path.
pub fn same_path(a: &str, b: &str) -> (r: bool)
    ensures
        r == same_path_spec(a@, b@),
{
    proof {
        reveal(path_order);
        lemma_parts_order_equal(parts_spec(a@), parts_spec(b@));
    }
    order_paths(a, b) == Order::Equal
}

/// The last component of a path, where it is a name.
pub open spec fn file_name_spec(path: Seq<char>) -> Option<Seq<char>> {
    let all = parts_spec(path);
    if all.len() > 0 {
        match all.last() {
            PartView::Name(n) => Some(n),
            _ => None,
        }
    } else {
        None
    }
}

/// The last component of a path, where it is a name.
pub fn file_name(path: &str) -> (r: Option<String>)
    ensures
        view_opt(r) == file_name_spec(path@),
{
    let all = parts(path);
    let n: usize = all.len();
    if n == 0 {
        return None;
    }
    assert(parts_view(all@).last() == all@[n - 1]@);
    match &all[n - 1] {
        Part::Name(name) => Some(name.clone()),
        _ => None,
    }
}

/// A file name before its last dot and behind it. A dot at the start
/// separates nothing.
pub open spec fn stem_and_extension(name: Seq<char>) -> (Seq<char>, Option<Seq<char>>) {
    match rfind_from(name, "."@, name.len() as int) {
        Some(i) => if i > 0 {
            (name.take(i), Some(name.skip(i + 1)))
        } else {
            (name, None)
        },
        None => (name, None),
    }
}

/// A file name before its last dot and behind it.
pub fn split_extension(name: &str) -> (r: (String, Option<String>))
    ensures
        r.0@ == stem_and_extension(name@).0,
        view_opt(r.1) == stem_and_extension(name@).1,
{
    let c = chars_of(name);
    let dot = chars_of(".");
    let end: usize = c.len();
    proof {
        reveal_strlit(".");
    }
    match rfind(&c, &dot) {
        Some(i) if i > 0 => {
            let stem = text_between(&c, 0, i);
            let ext = text_between(&c, i + 1, end);
            assert(stem@ =~= name@.take(i as int));
            assert(ext@ =~= name@.skip(i + 1));
            (stem, Some(ext))
        },
        _ => (name.to_owned(), None),
    }
}

/// Whether a path begins at the root.
pub open spec fn is_absolute_spec(path: Seq<char>) -> bool {
    path.len() > 0 && path[0] == '/'
}

/// Whether a path begins at the root.
pub fn is_absolute(path: &str) -> (r: bool)
    ensures
        r == is_absolute_spec(path@),
{
    let c = chars_of(path);
    c.len() > 0 && c[0] == '/'
}

/// A path behind a base; an absolute path replaces the base.
pub open spec fn join_path_spec(base: Seq<char>, path: Seq<char>) -> Seq<char> {
    if is_absolute_spec(path) || base.len() == 0 {
        path
    } else if base.last() == '/' {
        base + path
    } else {
        base + "/"@ + path
    }
}

/// A path behind a base; an absolute path replaces the base.
pub fn join_path(base: &str, path: &str) -> (r: String)
    ensures
        r@ == join_path_spec(base@, path@),
{
    let c = chars_of(base);
    if is_absolute(path) || c.len() == 0 {
        return path.to_owned();
    }
    let mut r = base.to_owned();
    if c[c.len() - 1] != '/' {
        r.append("/");
    }
    r.append(path);
    r
}

/// Whether a path lies at or under a base, component by component.
pub open spec fn within_spec(path: Seq<char>, base: Seq<char>) -> bool {
    let p = parts_spec(path);
    let b = parts_spec(base);
    b.len() <= p.len() && p.take(b.len() as int) == b
}

/// Whether a path lies at or under a base, component by component.
pub fn within(path: &str, base: &str) -> (r: bool)
    ensures
        r == within_spec(path@, base@),
{
    let p = parts(path);
    let b = parts(base);
    let ghost ps = parts_view(p@);
    let ghost bs = parts_view(b@);
    if b.len() > p.len() {
        return false;
    }
    for i in 0..b.len()
        invariant
            ps == parts_view(p@),
            bs == parts_view(b@),
            ps == parts_spec(path@),
            bs == parts_spec(base@),
            b@.len() <= p@.len(),
            forall|j: int| 0 <= j < i ==> ps[j] == bs[j],
    {
        proof {
            lemma_part_order_equal(ps[i as int], bs[i as int]);
        }
        if order_part(&p[i], &b[i]) != Order::Equal {
            assert(ps.take(bs.len() as int)[i as int] != bs[i as int]);
            return false;
        }
    }
    assert(ps.take(bs.len() as int) =~= bs);
    true
}

proof fn lemma_part_order_equal(a: PartView, b: PartView)
    ensures
        part_order(a, b) == Order::Equal <==> a == b,
{
    if let (PartView::Name(x), PartView::Name(y)) = (a, b) {
        lemma_text_order_equal(x, y);
    }
}

pub open spec fn part_text(p: PartView) -> Seq<char> {
    match p {
        PartView::Root => "/"@,
        PartView::Here => "."@,
        PartView::Up => ".."@,
        PartView::Name(n) => n,
    }
}

/// The components of a path behind those of its base, joined by slashes.
pub open spec fn relative_spec(path: Seq<char>, base: Seq<char>) -> Seq<char> {
    join_spec(
        parts_spec(path).skip(parts_spec(base).len() as int).map_values(|p: PartView| part_text(p)),
        "/"@,
    )
}

/// The components of a path behind those of its base, joined by slashes.
pub fn relative_to(path: &str, base: &str) -> (r: String)
    requires
        within_spec(path@, base@),
    ensures
        r@ == relative_spec(path@, base@),
{
    let p = parts(path);
    let skip: usize = parts(base).len();
    let ghost tail = parts_view(p@).skip(skip as int);
    let ghost f = |p: PartView| part_text(p);
    let mut names: Vec<String> = Vec::new();
    assert(views(names@) =~= tail.take(0).map_values(f));
    for i in skip..p.len()
        invariant
            skip <= p@.len(),
            f == (|p: PartView| part_text(p)),
            tail == parts_view(p@).skip(skip as int),
            views(names@) == tail.take(i - skip).map_values(f),
    {
        let name = match &p[i] {
            Part::Root => "/".to_owned(),
            Part::Here => ".".to_owned(),
            Part::Up => "..".to_owned(),
            Part::Name(n) => n.clone(),
        };
        proof {
            crate::text::chars::lemma_views_push(names@, name);
            assert(tail.take(i - skip + 1).map_values(f) =~= tail.take(i - skip).map_values(f).push(
                name@,
            ));
        }
        names.push(name);
    }
    assert(tail.take(p@.len() - skip) =~= tail);
    join(&names, "/")
}

/// How many of the pieces of a path remain where those at the end that stand
/// for no component are left out.
pub open spec fn solid_len(list: Seq<Seq<char>>) -> int
    decreases list.len(),
{
    if list.len() == 0 || piece_part(list.last()).len() > 0 {
        list.len() as int
    } else {
        solid_len(list.drop_last())
    }
}

/// The pieces that remain stand for the same components.
pub proof fn lemma_solid(list: Seq<Seq<char>>)
    ensures
        0 <= solid_len(list) <= list.len(),
        pieces_parts(list.take(solid_len(list))) == pieces_parts(list),
        solid_len(list) > 0 ==> {
            let n = solid_len(list);
            &&& piece_part(list[n - 1]).len() == 1
            &&& pieces_parts(list) == pieces_parts(list.take(n - 1)) + piece_part(list[n - 1])
        },
        solid_len(list) == 0 ==> pieces_parts(list).len() == 0,
    decreases list.len(),
{
    if list.len() == 0 {
        assert(list.take(0) =~= list);
    } else if piece_part(list.last()).len() > 0 {
        assert(list.take(list.len() as int) =~= list);
        assert(list.take(list.len() - 1) =~= list.drop_last());
    } else {
        let front = list.drop_last();
        lemma_solid(front);
        let n = solid_len(front);
        assert(front.take(n) =~= list.take(n));
        assert(pieces_parts(front) + piece_part(list.last()) =~= pieces_parts(front));
        if n > 0 {
            assert(front.take(n - 1) =~= list.take(n - 1));
            assert(front[n - 1] == list[n - 1]);
        }
    }
}

/// How many of the pieces of a path remain without those at the end that stand
/// for no component.
pub fn count_solid(list: &Vec<String>) -> (r: usize)
    ensures
        r == solid_len(views(list@)),
        r <= list@.len(),
{
    let ghost all = views(list@);
    let mut n: usize = list.len();
    assert(all.take(n as int) =~= all);
    while n > 0
        invariant
            n <= list@.len(),
            all == views(list@),
            solid_len(all) == solid_len(all.take(n as int)),
        decreases n,
    {
        assert(all.take(n as int).last() == list@[n - 1]@);
        assert(all.take(n as int).drop_last() =~= all.take(n - 1));
        if list[n - 1].as_str().unicode_len() > 0 && !same(&list[n - 1], ".") {
            return n;
        }
        n -= 1;
    }
    0
}

/// The path without its last component. There is none where the path is empty
/// or the root.
pub open spec fn parent_spec(path: Seq<char>) -> Option<Seq<char>> {
    let list = pieces(path, CharClass::Only('/'));
    let n = solid_len(list);
    if n == 0 {
        if list[0] == "."@ {
            Some(Seq::empty())
        } else {
            None
        }
    } else {
        let m = solid_len(list.take(n - 1));
        if m > 0 {
            Some(join_spec(list.take(m), "/"@))
        } else if is_absolute_spec(path) {
            Some("/"@)
        } else if list[0] == "."@ {
            Some("."@)
        } else {
            Some(Seq::empty())
        }
    }
}

/// The path without its last component.
pub fn parent(path: &str) -> (r: Option<String>)
    ensures
        view_opt(r) == parent_spec(path@),
{
    let mut list = split_at_class(path, CharClass::Only('/'));
    let ghost all = views(list@);
    let n: usize = count_solid(&list);
    let here = same(&list[0], ".");
    assert(all[0] == list@[0]@);
    let none = String::new();
    assert(none@ =~= Seq::empty());
    if n == 0 {
        return if here {
            Some(none)
        } else {
            None
        };
    }
    list.truncate(n - 1);
    assert(views(list@) =~= all.take(n - 1));
    let m: usize = count_solid(&list);
    if m > 0 {
        list.truncate(m);
        assert(views(list@) =~= all.take(m as int));
        Some(join(&list, "/"))
    } else if is_absolute(path) {
        Some("/".to_owned())
    } else if here {
        Some(".".to_owned())
    } else {
        Some(none)
    }
}

/// A piece behind a slash is a piece of its own.
proof fn lemma_pieces_behind(a: Seq<char>, p: Seq<char>)
    requires
        !p.contains('/'),
    ensures
        pieces(a + "/"@ + p, CharClass::Only('/')) == pieces(a, CharClass::Only('/')).push(p),
    decreases p.len(),
{
    reveal_strlit("/");
    let whole = a + "/"@ + p;
    if p.len() == 0 {
        assert(whole.drop_last() =~= a);
        assert(p =~= Seq::empty());
    } else {
        assert(whole.drop_last() =~= a + "/"@ + p.drop_last());
        assert forall|c: char| p.drop_last().contains(c) implies p.contains(c) by {
            let j = choose|j: int| 0 <= j < p.len() - 1 && p.drop_last()[j] == c;
            assert(p[j] == c);
        }
        assert(p.contains(p.last()));
        lemma_pieces_behind(a, p.drop_last());
        let before = pieces(a, CharClass::Only('/')).push(p.drop_last());
        assert(before.drop_last() =~= pieces(a, CharClass::Only('/')));
        assert(p.drop_last().push(p.last()) =~= p);
    }
}

/// A text without a slash is one piece.
proof fn lemma_pieces_single(p: Seq<char>)
    requires
        !p.contains('/'),
    ensures
        pieces(p, CharClass::Only('/')) == seq![p],
    decreases p.len(),
{
    if p.len() > 0 {
        assert forall|c: char| p.drop_last().contains(c) implies p.contains(c) by {
            let j = choose|j: int| 0 <= j < p.len() - 1 && p.drop_last()[j] == c;
            assert(p[j] == c);
        }
        assert(p.contains(p.last()));
        lemma_pieces_single(p.drop_last());
        assert(p.drop_last().push(p.last()) =~= p);
        assert(seq![p.drop_last()].drop_last().push(p) =~= seq![p]);
    } else {
        assert(p =~= Seq::empty());
    }
}

/// No piece of a path holds a slash, and the first is empty exactly where the
/// path is empty or begins with a slash.
proof fn lemma_pieces_of_path(path: Seq<char>)
    ensures
        pieces(path, CharClass::Only('/')).len() > 0,
        forall|i: int|
            0 <= i < pieces(path, CharClass::Only('/')).len() ==> !(#[trigger] pieces(
                path,
                CharClass::Only('/'),
            )[i]).contains('/'),
        is_absolute_spec(path) <==> pieces(path, CharClass::Only('/')).len() > 1 && pieces(
            path,
            CharClass::Only('/'),
        )[0].len() == 0,
    decreases path.len(),
{
    if path.len() > 0 {
        let front = path.drop_last();
        lemma_pieces_of_path(front);
        let before = pieces(front, CharClass::Only('/'));
        let list = pieces(path, CharClass::Only('/'));
        if path.last() == '/' {
            assert(list =~= before.push(Seq::empty()));
            if front.len() == 0 {
                assert(front =~= Seq::empty());
                assert(before =~= seq![Seq::<char>::empty()]);
            } else if before.len() == 1 {
                assert(front[0] == path[0]);
                lemma_first_piece(front);
            }
        } else {
            assert forall|i: int| 0 <= i < list.len() implies !(#[trigger] list[i]).contains(
                '/',
            ) by {
                assert(!before[i].contains('/'));
                if i == list.len() - 1 && list[i].contains('/') {
                    let j = choose|j: int| 0 <= j < list[i].len() && list[i][j] == '/';
                    assert(before.last()[j] == '/');
                }
            }
            if before.len() > 1 {
                assert(list[0] == before[0]);
                assert(front.len() > 0);
            } else {
                assert(list[0].len() > 0);
                if front.len() == 0 {
                    assert(path[0] == path.last());
                } else {
                    lemma_first_piece(front);
                    assert(path[0] == front[0]);
                }
            }
        }
    }
}

/// Where a path is one piece, that piece is the path.
proof fn lemma_first_piece(path: Seq<char>)
    ensures
        pieces(path, CharClass::Only('/')).len() > 0,
        pieces(path, CharClass::Only('/')).len() == 1 ==> pieces(path, CharClass::Only('/'))[0]
            == path,
    decreases path.len(),
{
    if path.len() > 0 {
        lemma_first_piece(path.drop_last());
        assert(path.drop_last().push(path.last()) =~= path);
    } else {
        assert(path =~= Seq::empty());
    }
}

/// Joining pieces with slashes gives a path of these pieces.
proof fn lemma_pieces_of_joined(list: Seq<Seq<char>>)
    requires
        list.len() > 0,
        forall|i: int| 0 <= i < list.len() ==> !(#[trigger] list[i]).contains('/'),
    ensures
        pieces(join_spec(list, "/"@), CharClass::Only('/')) == list,
    decreases list.len(),
{
    if list.len() == 1 {
        lemma_pieces_single(list[0]);
        assert(seq![list[0]] =~= list);
    } else {
        let front = list.drop_last();
        assert forall|i: int| 0 <= i < front.len() implies !(#[trigger] front[i]).contains('/') by {
            assert(front[i] == list[i]);
        }
        lemma_pieces_of_joined(front);
        assert(!list[list.len() - 1].contains('/'));
        lemma_pieces_behind(join_spec(front, "/"@), list.last());
        assert(front.push(list.last()) =~= list);
    }
}

/// The parent of a path has all of its components but the last, and there is
/// one unless the path is empty or the root.
pub proof fn law_parent_drops_the_last_component(path: Seq<char>)
    ensures
        match parent_spec(path) {
            Some(p) => parts_spec(path).len() > 0 && parts_spec(p) == parts_spec(path).drop_last(),
            None => parts_spec(path).len() == 0 || parts_spec(path) == seq![PartView::Root],
        },
{
    let list = pieces(path, CharClass::Only('/'));
    let n = solid_len(list);
    let front = list.take(n - 1);
    lemma_pieces_of_path(path);
    lemma_solid(list);
    reveal_strlit("/");
    reveal_strlit(".");
    let empty = Seq::<char>::empty();
    assert(pieces(empty, CharClass::Only('/')) =~= seq![empty]);
    assert(seq![empty].drop_last() =~= Seq::empty());
    assert(pieces_parts(seq![empty]) =~= Seq::empty()) by {
        assert(pieces_parts(Seq::<Seq<char>>::empty()) =~= Seq::empty());
    }
    assert(parts_spec(empty) =~= Seq::empty());
    if n == 0 {
        assert(pieces_parts(list) =~= Seq::empty());
        if list[0] == "."@ {
            assert(parts_spec(path) =~= seq![PartView::Here]);
            assert(parts_spec(path).drop_last() =~= Seq::empty());
        } else if is_absolute_spec(path) {
            assert(parts_spec(path) =~= seq![PartView::Root]);
        }
    } else {
        lemma_solid(front);
        let m = solid_len(front);
        let head = if is_absolute_spec(path) {
            seq![PartView::Root]
        } else if list[0] == "."@ {
            seq![PartView::Here]
        } else {
            Seq::empty()
        };
        assert(parts_spec(path) =~= head + pieces_parts(list));
        assert(parts_spec(path).drop_last() =~= head + pieces_parts(front));
        if m > 0 {
            let kept = list.take(m);
            assert(front.take(m) =~= kept);
            assert forall|i: int| 0 <= i < kept.len() implies !(#[trigger] kept[i]).contains(
                '/',
            ) by {
                assert(kept[i] == list[i]);
            }
            lemma_pieces_of_joined(kept);
            let q = join_spec(kept, "/"@);
            lemma_pieces_of_path(q);
            assert(kept[0] == list[0]);
            if m == 1 {
                assert(front[0] == list[0]);
            }
            assert(parts_spec(q) =~= head + pieces_parts(kept));
        } else {
            assert(pieces_parts(front) =~= Seq::empty());
            assert(head + pieces_parts(front) =~= head);
            if is_absolute_spec(path) {
                lemma_parts_of_root();
            } else if list[0] == "."@ {
                lemma_pieces_single("."@);
                assert(pieces_parts(seq!["."@].drop_last()) =~= Seq::empty());
                assert(seq!["."@].last() == "."@);
                assert(parts_spec("."@) =~= seq![PartView::Here]);
            } else {
                assert(n == 1) by {
                    if n > 1 {
                        assert(front[0] == list[0]);
                        lemma_noise(front);
                        assert(list[0].len() == 0);
                    }
                }
            }
        }
    }
}

/// Where no piece stands for a component, the first stands for none.
proof fn lemma_noise(list: Seq<Seq<char>>)
    requires
        list.len() > 0,
        solid_len(list) == 0,
    ensures
        piece_part(list[0]).len() == 0,
    decreases list.len(),
{
    if list.len() > 1 {
        lemma_noise(list.drop_last());
    }
}

/// The root has no component but itself.
proof fn lemma_parts_of_root()
    ensures
        parts_spec("/"@) == seq![PartView::Root],
{
    reveal_strlit("/");
    let empty = Seq::<char>::empty();
    lemma_pieces_behind(empty, empty);
    assert(empty + "/"@ + empty =~= "/"@);
    let list = pieces("/"@, CharClass::Only('/'));
    assert(list.drop_last() =~= seq![empty]);
    assert(seq![empty].drop_last() =~= Seq::empty());
    assert(pieces_parts(Seq::<Seq<char>>::empty()) =~= Seq::empty());
    assert(pieces_parts(seq![empty]) =~= Seq::empty());
    assert(pieces_parts(list) =~= Seq::empty());
    assert(parts_spec("/"@) =~= seq![PartView::Root]);
}

} // verus!
