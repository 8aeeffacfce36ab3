//! Structural identity of JSON values.

use vstd::prelude::*;
use vstd::std_specs::cmp::PartialEqSpecImpl;

use crate::members::{
    first_index, has_key, has_member, keys_within, lemma_first_index, lemma_lookup_has_key, lookup,
};
use crate::value::{
    items_view, lemma_array_view, lemma_object_view, members_view, Json, JsonView, Members,
};

verus! {

impl JsonView {
    /// Whether two values are structurally identical: the same scalar, arrays
    /// of the same length with identical items at each index, or objects with
    /// the same keys and identical values under each key, whatever the order
    /// of their members.
    pub open spec fn same(self, other: JsonView) -> bool
        decreases self,
    {
        match (self, other) {
            (JsonView::Null, JsonView::Null) => true,
            (JsonView::Bool(a), JsonView::Bool(b)) => a == b,
            (JsonView::Number(a), JsonView::Number(b)) => a.same(b),
            (JsonView::String(a), JsonView::String(b)) => a == b,
            (JsonView::Array(a), JsonView::Array(b)) => {
                &&& a.len() == b.len()
                &&& (forall|i: int| 0 <= i < a.len() ==> (#[trigger] a[i]).same(b[i]))
            },
            (JsonView::Object(a), JsonView::Object(b)) => {
                &&& keys_within(a, b)
                &&& keys_within(b, a)
                &&& (forall|i: int, j: int|
                    0 <= i < a.len() && 0 <= j < b.len() && (#[trigger] a[i]).0 == (
                    #[trigger] b[j]).0 ==> a[i].1.same(b[j].1))
            },
            _ => false,
        }
    }
}

impl Json {
    /// Whether two values are structurally identical.
    pub fn same_as(&self, other: &Json) -> (r: bool)
        ensures
            r == self@.same(other@),
        decreases self,
    {
        match (self, other) {
            (Json::Null, Json::Null) => true,
            (Json::Bool(a), Json::Bool(b)) => *a == *b,
            (Json::Number(a), Json::Number(b)) => *a == *b,
            (Json::String(a), Json::String(b)) => *a == *b,
            (Json::Array(a), Json::Array(b)) => {
                proof {
                    lemma_array_view(*a);
                    lemma_array_view(*b);
                }
                if a.len() != b.len() {
                    return false;
                }
                let mut i: usize = 0;
                while i < a.len()
                    invariant
                        self is Array,
                        self->Array_0 == *a,
                        self@ == JsonView::Array(items_view(a@)),
                        other@ == JsonView::Array(items_view(b@)),
                        a.len() == b.len(),
                        i <= a.len(),
                        forall|k: int|
                            0 <= k < i ==> (#[trigger] items_view(a@)[k]).same(items_view(b@)[k]),
                    decreases a.len() - i,
                {
                    if !a[i].same_as(&b[i]) {
                        assert(!items_view(a@)[i as int].same(items_view(b@)[i as int]));
                        return false;
                    }
                    i += 1;
                }
                true
            },
            (Json::Object(a), Json::Object(b)) => {
                proof {
                    lemma_object_view(*a);
                    lemma_object_view(*b);
                }
                let ghost av = members_view(a@);
                let ghost bv = members_view(b@);
                let mut i: usize = 0;
                while i < a.len()
                    invariant
                        self is Object,
                        self->Object_0 == *a,
                        self@ == JsonView::Object(av),
                        other@ == JsonView::Object(bv),
                        av == members_view(a@),
                        bv == members_view(b@),
                        i <= a.len(),
                        forall|k: int| 0 <= k < i ==> has_key(bv, (#[trigger] av[k]).0),
                        forall|k: int, m: int|
                            0 <= k < i && 0 <= m < bv.len() && (#[trigger] av[k]).0 == (
                            #[trigger] bv[m]).0 ==> av[k].1.same(bv[m].1),
                    decreases a.len() - i,
                {
                    let mut found = false;
                    let mut j: usize = 0;
                    while j < b.len()
                        invariant
                            self is Object,
                            self->Object_0 == *a,
                            self@ == JsonView::Object(av),
                            other@ == JsonView::Object(bv),
                            av == members_view(a@),
                            bv == members_view(b@),
                            i < a.len(),
                            j <= b.len(),
                            found <==> exists|m: int|
                                0 <= m < j && (#[trigger] bv[m]).0 == av[i as int].0,
                            forall|m: int|
                                0 <= m < j && (#[trigger] bv[m]).0 == av[i as int].0
                                    ==> av[i as int].1.same(bv[m].1),
                        decreases b.len() - j,
                    {
                        if a[i].0 == b[j].0 {
                            if !a[i].1.same_as(&b[j].1) {
                                assert(av[i as int].0 == bv[j as int].0);
                                return false;
                            }
                            assert(bv[j as int].0 == av[i as int].0);
                            found = true;
                        }
                        j += 1;
                    }
                    if !found {
                        assert(!has_key(bv, av[i as int].0));
                        return false;
                    }
                    i += 1;
                }
                let mut j: usize = 0;
                while j < b.len()
                    invariant
                        self@ == JsonView::Object(av),
                        other@ == JsonView::Object(bv),
                        av == members_view(a@),
                        bv == members_view(b@),
                        j <= b.len(),
                        forall|k: int| 0 <= k < av.len() ==> has_key(bv, (#[trigger] av[k]).0),
                        forall|k: int, m: int|
                            0 <= k < av.len() && 0 <= m < bv.len() && (#[trigger] av[k]).0 == (
                            #[trigger] bv[m]).0 ==> av[k].1.same(bv[m].1),
                        forall|m: int| 0 <= m < j ==> has_key(av, (#[trigger] bv[m]).0),
                    decreases b.len() - j,
                {
                    if !has_member(a, b[j].0.as_str()) {
                        assert(!has_key(av, bv[j as int].0));
                        return false;
                    }
                    j += 1;
                }
                true
            },
            _ => false,
        }
    }
}

impl PartialEq for Json {
    fn eq(&self, other: &Json) -> (r: bool) {
        self.same_as(other)
    }
}

impl PartialEqSpecImpl for Json {
    open spec fn obeys_eq_spec() -> bool {
        true
    }

    open spec fn eq_spec(&self, other: &Json) -> bool {
        self@.same(other@)
    }
}

/// A well-formed value is structurally identical to itself.
pub proof fn lemma_same_reflexive(value: JsonView)
    requires
        value.valid(),
    ensures
        value.same(value),
    decreases value,
{
    match value {
        JsonView::Array(items) => {
            assert forall|i: int| 0 <= i < items.len() implies (#[trigger] items[i]).same(
                items[i],
            ) by {
                lemma_same_reflexive(items[i]);
            }
        },
        JsonView::Object(members) => {
            assert forall|i: int, j: int|
                0 <= i < members.len() && 0 <= j < members.len() && (#[trigger] members[i]).0 == (
                #[trigger] members[j]).0 implies members[i].1.same(members[j].1) by {
                assert(i == j);
                lemma_same_reflexive(members[i].1);
            }
        },
        _ => {},
    }
}

/// Structurally identical objects have the same keys, and under each key
/// structurally identical values.
pub proof fn lemma_same_lookup(
    members1: Members,
    members2: Members,
    key: Seq<char>,
)
    requires
        JsonView::Object(members1).same(JsonView::Object(members2)),
    ensures
        lookup(members1, key) is Some <==> lookup(members2, key) is Some,
        lookup(members1, key) is Some ==> lookup(members1, key)->0.same(lookup(members2, key)->0),
{
    lemma_first_index(members1, key, 0);
    lemma_first_index(members2, key, 0);
    lemma_lookup_has_key(members1, key);
    lemma_lookup_has_key(members2, key);
    let i = first_index(members1, key, 0);
    let j = first_index(members2, key, 0);
    if i < members1.len() {
        assert(has_key(members2, members1[i].0));
    }
    if j < members2.len() {
        assert(has_key(members1, members2[j].0));
    }
    if i < members1.len() && j < members2.len() {
        assert(members1[i].0 == members2[j].0);
    }
}

} // verus!
