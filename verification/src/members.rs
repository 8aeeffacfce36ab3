//! The members of an object: a list of keys with their values, in the order
//! in which they were added.

use vstd::prelude::*;

use crate::text::str_eq;
use crate::value::{members_view, Json, JsonView, Members};

verus! {

/// Whether a list of members has a member of the given key.
pub open spec fn has_key(members: Members, key: Seq<char>) -> bool {
    exists|i: int| 0 <= i < members.len() && (#[trigger] members[i]).0 == key
}

/// The index of the first member of the given key at or after `from`, or the
/// length of the list if there is none.
pub open spec fn first_index(members: Members, key: Seq<char>, from: int) -> int
    decreases members.len() - from,
{
    if from < 0 || from >= members.len() {
        members.len() as int
    } else if members[from].0 == key {
        from
    } else {
        first_index(members, key, from + 1)
    }
}

/// The value of the first member of the given key, if there is one.
pub open spec fn lookup(members: Members, key: Seq<char>) -> Option<JsonView> {
    let i = first_index(members, key, 0);
    if i < members.len() {
        Some(members[i].1)
    } else {
        None
    }
}

/// Whether every key of the first list is a key of the second.
pub open spec fn keys_within(
    a: Members,
    b: Members,
) -> bool {
    forall|i: int| 0 <= i < a.len() ==> has_key(b, (#[trigger] a[i]).0)
}

/// Whether no two members of a list have the same key.
pub open spec fn distinct_keys(members: Members) -> bool {
    forall|i: int, j: int|
        0 <= i < j < members.len() ==> (#[trigger] members[i]).0 != (#[trigger] members[j]).0
}

/// The list with `value` under `key`: in place of the value of the first
/// member of that key, or in a new last member if there is none.
pub open spec fn put(
    members: Members,
    key: Seq<char>,
    value: JsonView,
) -> Members {
    let i = first_index(members, key, 0);
    if i < members.len() {
        members.update(i, (key, value))
    } else {
        members.push((key, value))
    }
}

/// The list after every member of `more` was put into it, first to last.
pub open spec fn put_all(
    members: Members,
    more: Members,
) -> Members
    decreases more.len(),
{
    if more.len() == 0 {
        members
    } else {
        put(put_all(members, more.drop_last()), more.last().0, more.last().1)
    }
}

/// What `first_index` returns: an index in range at which the key stands and
/// before which it does not, or the length where the key stands nowhere at or
/// after `from`.
pub proof fn lemma_first_index(members: Members, key: Seq<char>, from: int)
    requires
        0 <= from <= members.len(),
    ensures
        from <= first_index(members, key, from) <= members.len(),
        first_index(members, key, from) < members.len() ==> members[first_index(
            members,
            key,
            from,
        )].0 == key,
        forall|j: int|
            from <= j < first_index(members, key, from) ==> (#[trigger] members[j]).0 != key,
    decreases members.len() - from,
{
    if from < members.len() && members[from].0 != key {
        lemma_first_index(members, key, from + 1);
    }
}

/// An index at which the key stands and before which it does not, or the
/// length where it stands nowhere, is what `first_index` returns.
pub proof fn lemma_first_index_unique(
    members: Members,
    key: Seq<char>,
    index: int,
)
    requires
        0 <= index <= members.len(),
        index < members.len() ==> members[index].0 == key,
        forall|j: int| 0 <= j < index ==> (#[trigger] members[j]).0 != key,
    ensures
        first_index(members, key, 0) == index,
{
    lemma_first_index(members, key, 0);
    let found = first_index(members, key, 0);
    if found < index {
        assert(members[found].0 == key);
    }
    if index < found {
        assert(members[index].0 == key);
    }
}

/// A key is looked up with success exactly when the list has it.
pub proof fn lemma_lookup_has_key(members: Members, key: Seq<char>)
    ensures
        lookup(members, key) is Some <==> has_key(members, key),
{
    lemma_first_index(members, key, 0);
    let i = first_index(members, key, 0);
    if i < members.len() {
        assert(members[i].0 == key);
    }
}

/// A list of members without a key twice stays one when its last member is
/// dropped.
pub proof fn lemma_distinct_keys_drop_last(members: Members)
    requires
        distinct_keys(members),
        members.len() > 0,
    ensures
        distinct_keys(members.drop_last()),
{
    let rest = members.drop_last();
    assert forall|i: int, j: int| 0 <= i < j < rest.len() implies (#[trigger] rest[i]).0 != (
    #[trigger] rest[j]).0 by {
        assert(members[i].0 != members[j].0);
    }
}

/// After `put`, the key that was put leads to the new value and every other
/// key to the value that it led to before.
pub proof fn lemma_put_lookup(
    members: Members,
    key: Seq<char>,
    value: JsonView,
    other: Seq<char>,
)
    ensures
        lookup(put(members, key, value), other) == if other == key {
            Some(value)
        } else {
            lookup(members, other)
        },
{
    let after = put(members, key, value);
    let at = first_index(members, key, 0);
    let found = first_index(members, other, 0);
    lemma_first_index(members, key, 0);
    lemma_first_index(members, other, 0);
    if found < members.len() {
        assert forall|j: int| 0 <= j < found implies (#[trigger] after[j]).0 != other by {
            assert(members[j].0 != other);
        }
        lemma_first_index_unique(after, other, found);
    } else if other == key {
        assert forall|j: int| 0 <= j < members.len() implies (#[trigger] after[j]).0 != other by {
            assert(members[j].0 != other);
        }
        lemma_first_index_unique(after, other, members.len() as int);
    } else {
        assert forall|j: int| 0 <= j < after.len() implies (#[trigger] after[j]).0 != other by {
            if j < members.len() {
                assert(members[j].0 != other);
            }
        }
        lemma_first_index_unique(after, other, after.len() as int);
    }
}

/// After `put`, the list has the key that was put and the keys that it had,
/// and no key twice where it had none twice.
pub proof fn lemma_put_keys(members: Members, key: Seq<char>, value: JsonView)
    ensures
        forall|other: Seq<char>|
            has_key(put(members, key, value), other) <==> other == key || has_key(members, other),
        distinct_keys(members) ==> distinct_keys(put(members, key, value)),
{
    let after = put(members, key, value);
    lemma_first_index(members, key, 0);
    assert forall|other: Seq<char>|
        has_key(after, other) <==> other == key || has_key(members, other) by {
        lemma_put_lookup(members, key, value, other);
        lemma_lookup_has_key(after, other);
        lemma_lookup_has_key(members, other);
    }
    if distinct_keys(members) {
        assert forall|i: int, j: int| 0 <= i < j < after.len() implies (#[trigger] after[i]).0 != (
        #[trigger] after[j]).0 by {
            if j < members.len() {
                assert(members[i].0 != members[j].0);
            } else {
                assert(members[i].0 != key);
            }
        }
    }
}

/// After `put_all`, a key of the members that were put leads to the value
/// that it has among them, and every other key to the value that it led to
/// before: a later member overwrites an earlier one of the same key.
pub proof fn lemma_put_all_lookup(
    members: Members,
    more: Members,
    key: Seq<char>,
)
    requires
        distinct_keys(more),
    ensures
        lookup(put_all(members, more), key) == match lookup(more, key) {
            Some(value) => Some(value),
            None => lookup(members, key),
        },
    decreases more.len(),
{
    if more.len() > 0 {
        let rest = more.drop_last();
        let last = more.len() - 1;
        assert forall|i: int, j: int| 0 <= i < j < rest.len() implies (#[trigger] rest[i]).0 != (
        #[trigger] rest[j]).0 by {
            assert(more[i].0 != more[j].0);
        }
        lemma_put_all_lookup(members, rest, key);
        lemma_put_lookup(put_all(members, rest), more[last].0, more[last].1, key);
        lemma_first_index(rest, key, 0);
        let found = first_index(rest, key, 0);
        if found < rest.len() {
            assert(more[found].0 == key);
            assert forall|j: int| 0 <= j < found implies (#[trigger] more[j]).0 != key by {
                assert(rest[j].0 != key);
            }
            lemma_first_index_unique(more, key, found);
        } else {
            assert forall|j: int| 0 <= j < last implies (#[trigger] more[j]).0 != key by {
                assert(rest[j].0 != key);
            }
            if more[last].0 == key {
                lemma_first_index_unique(more, key, last);
            } else {
                lemma_first_index_unique(more, key, more.len() as int);
            }
        }
    } else {
        lemma_first_index_unique(more, key, 0);
    }
}

/// After `put_all`, the list has the keys that were put and the keys that it
/// had, and no key twice where it had none twice.
pub proof fn lemma_put_all_keys(
    members: Members,
    more: Members,
)
    ensures
        forall|key: Seq<char>|
            has_key(put_all(members, more), key) <==> has_key(more, key) || has_key(members, key),
        distinct_keys(members) ==> distinct_keys(put_all(members, more)),
    decreases more.len(),
{
    if more.len() > 0 {
        let rest = more.drop_last();
        let last = more.len() - 1;
        lemma_put_all_keys(members, rest);
        lemma_put_keys(put_all(members, rest), more[last].0, more[last].1);
        assert forall|key: Seq<char>|
            has_key(put_all(members, more), key) <==> has_key(more, key) || has_key(
                members,
                key,
            ) by {
            if has_key(more, key) {
                let i = choose|i: int| 0 <= i < more.len() && (#[trigger] more[i]).0 == key;
                if i < last {
                    assert(rest[i].0 == key);
                }
            }
            if has_key(rest, key) {
                let i = choose|i: int| 0 <= i < rest.len() && (#[trigger] rest[i]).0 == key;
                assert(more[i].0 == key);
            }
            if key == more[last].0 {
                assert(has_key(more, key));
            }
        }
    }
}

/// What holds of every value of two lists holds of every value of the one
/// put into the other.
pub proof fn lemma_put_all_values(
    members: Members,
    more: Members,
    holds: spec_fn(JsonView) -> bool,
)
    requires
        forall|i: int| 0 <= i < members.len() ==> holds((#[trigger] members[i]).1),
        forall|i: int| 0 <= i < more.len() ==> holds((#[trigger] more[i]).1),
    ensures
        forall|i: int|
            0 <= i < put_all(members, more).len() ==> holds(
                (#[trigger] put_all(members, more)[i]).1,
            ),
    decreases more.len(),
{
    if more.len() > 0 {
        let rest = more.drop_last();
        let last = more.len() - 1;
        assert forall|i: int| 0 <= i < rest.len() implies holds((#[trigger] rest[i]).1) by {
            assert(rest[i] == more[i]);
        }
        lemma_put_all_values(members, rest, holds);
        let before = put_all(members, rest);
        let after = put_all(members, more);
        lemma_first_index(before, more[last].0, 0);
        assert(holds(more[last].1));
        assert forall|i: int| 0 <= i < after.len() implies holds((#[trigger] after[i]).1) by {
            if i < before.len() && i != first_index(before, more[last].0, 0) {
                assert(after[i] == before[i]);
            }
        }
    }
}

/// A list built by putting the members of another into the empty list has
/// the keys of that list, and leads from each to the same value where that
/// list has no key twice.
pub proof fn lemma_put_all_from_empty(members: Members, key: Seq<char>)
    ensures
        lookup(put_all(Seq::empty(), members), key) is Some <==> lookup(members, key) is Some,
        distinct_keys(members) ==> lookup(put_all(Seq::empty(), members), key) == lookup(
            members,
            key,
        ),
{
    lemma_put_all_keys(Seq::empty(), members);
    lemma_lookup_has_key(put_all(Seq::empty(), members), key);
    lemma_lookup_has_key(members, key);
    lemma_lookup_has_key(Seq::empty(), key);
    if distinct_keys(members) {
        lemma_put_all_lookup(Seq::empty(), members, key);
    }
}

/// A member of the given key and value.
pub fn member(key: &str, value: Json) -> (r: (String, Json))
    ensures
        r.0@ == key@,
        r.1@ == value@,
{
    (key.to_owned(), value)
}

/// The value of the first member of the given key, if there is one.
pub fn find<'a>(members: &'a Vec<(String, Json)>, key: &str) -> (r: Option<&'a Json>)
    ensures
        match r {
            Some(value) => lookup(members_view(members@), key@) == Some(value@),
            None => lookup(members_view(members@), key@) is None,
        },
{
    let mut i: usize = 0;
    while i < members.len()
        invariant
            i <= members.len(),
            first_index(members_view(members@), key@, 0) == first_index(
                members_view(members@),
                key@,
                i as int,
            ),
        decreases members.len() - i,
    {
        if str_eq(members[i].0.as_str(), key) {
            return Some(&members[i].1);
        }
        i += 1;
    }
    None
}

/// Whether a list of members has a member of the given key.
pub fn has_member(members: &Vec<(String, Json)>, key: &str) -> (r: bool)
    ensures
        r == has_key(members_view(members@), key@),
{
    proof {
        lemma_lookup_has_key(members_view(members@), key@);
    }
    find(members, key).is_some()
}

/// Whether no two members of a list have the same key.
pub fn has_distinct_keys(members: &Vec<(String, Json)>) -> (r: bool)
    ensures
        r == distinct_keys(members_view(members@)),
{
    let ghost all = members_view(members@);
    let mut j: usize = 0;
    while j < members.len()
        invariant
            j <= members.len(),
            all == members_view(members@),
            forall|a: int, b: int|
                0 <= a < b < j ==> (#[trigger] all[a]).0 != (#[trigger] all[b]).0,
        decreases members.len() - j,
    {
        let mut i: usize = 0;
        while i < j
            invariant
                i <= j < members.len(),
                all == members_view(members@),
                forall|a: int| 0 <= a < i ==> (#[trigger] all[a]).0 != all[j as int].0,
            decreases j - i,
        {
            if members[i].0 == members[j].0 {
                assert(all[i as int].0 == all[j as int].0);
                return false;
            }
            i += 1;
        }
        j += 1;
    }
    true
}

/// Puts `value` under `key`: a later value overwrites an earlier one and
/// keeps its place.
pub fn put_member(members: &mut Vec<(String, Json)>, key: String, value: Json)
    ensures
        members_view(final(members)@) == put(members_view(old(members)@), key@, value@),
        distinct_keys(members_view(old(members)@)) ==> distinct_keys(
            members_view(final(members)@),
        ),
{
    let ghost before = members_view(members@);
    proof {
        lemma_put_keys(before, key@, value@);
    }
    let mut i: usize = 0;
    while i < members.len()
        invariant
            i <= members.len(),
            before == members_view(members@),
            *members == *old(members),
            first_index(before, key@, 0) == first_index(before, key@, i as int),
        decreases members.len() - i,
    {
        if members[i].0 == key {
            members[i] = (key, value);
            assert(members_view(members@) =~= before.update(i as int, (key@, value@)));
            return ;
        }
        i += 1;
    }
    members.push((key, value));
    assert(members_view(members@) =~= before.push((key@, value@)));
}

/// Puts a copy of every member of `more` into the list, first to last.
pub fn put_members(members: &mut Vec<(String, Json)>, more: &Vec<(String, Json)>)
    ensures
        members_view(final(members)@) == put_all(
            members_view(old(members)@),
            members_view(more@),
        ),
        distinct_keys(members_view(old(members)@)) ==> distinct_keys(
            members_view(final(members)@),
        ),
{
    let ghost start = members_view(members@);
    let ghost all = members_view(more@);
    proof {
        lemma_put_all_keys(start, all);
    }
    let mut i: usize = 0;
    while i < more.len()
        invariant
            i <= more.len(),
            all == members_view(more@),
            members_view(members@) == put_all(start, all.take(i as int)),
        decreases more.len() - i,
    {
        put_member(members, more[i].0.clone(), more[i].1.clone());
        proof {
            let next = all.take(i + 1);
            assert(next.drop_last() =~= all.take(i as int));
            assert(next.last() == all[i as int]);
        }
        i += 1;
    }
    assert(all.take(i as int) =~= all);
}

} // verus!
