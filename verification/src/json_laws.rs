//! How members of an object are found.
use vstd::prelude::*;
use crate::json::{member_of, JsonView};

verus! {

/// Of members with the same name the first counts.
pub proof fn law_first_member_counts(
    members: Seq<(Seq<char>, JsonView)>,
    key: Seq<char>,
    k: int,
)
    requires
        0 <= k < members.len(),
        members[k].0 == key,
        forall|i: int| 0 <= i < k ==> (#[trigger] members[i]).0 != key,
    ensures
        JsonView::Object(members).field(key) == Some(members[k].1),
    decreases members.len(),
{
    if k > 0 {
        let rest = members.skip(1);
        assert(members[0].0 != key);
        assert forall|i: int| 0 <= i < k - 1 implies (#[trigger] rest[i]).0 != key by {
            assert(rest[i] == members[i + 1]);
        }
        law_first_member_counts(rest, key, k - 1);
    }
}

/// A member that an object does not name is not found.
pub proof fn law_missing_members_are_not_found(
    members: Seq<(Seq<char>, JsonView)>,
    key: Seq<char>,
)
    requires
        forall|i: int| 0 <= i < members.len() ==> (#[trigger] members[i]).0 != key,
    ensures
        JsonView::Object(members).field(key) is None,
        JsonView::Object(members).at(key) is Null,
    decreases members.len(),
{
    if members.len() > 0 {
        let rest = members.skip(1);
        assert(members[0].0 != key);
        assert forall|i: int| 0 <= i < rest.len() implies (#[trigger] rest[i]).0 != key by {
            assert(rest[i] == members[i + 1]);
        }
        law_missing_members_are_not_found(rest, key);
    }
}

/// A member that is added to an object is found by its name where there was none
/// of that name, and changes nothing for other names.
pub proof fn law_added_members_are_found(
    members: Seq<(Seq<char>, JsonView)>,
    key: Seq<char>,
    value: JsonView,
    other: Seq<char>,
)
    ensures
        JsonView::Object(members).with(key, value).field(other) == match member_of(
            members,
            other,
        ) {
            Some(v) => Some(v),
            None => if other == key {
                Some(value)
            } else {
                None
            },
        },
    decreases members.len(),
{
    let more = members.push((key, value));
    if members.len() == 0 {
        assert(more.skip(1) =~= members);
        assert(more[0] == (key, value));
    } else {
        let rest = members.skip(1);
        law_added_members_are_found(rest, key, value, other);
        assert(more.skip(1) =~= rest.push((key, value)));
        assert(more[0] == members[0]);
    }
}

} // verus!
