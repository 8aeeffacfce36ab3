//! The shape of inferred schemas: what their keys lead to, and where their
//! properties come from.

use vstd::prelude::*;

use crate::members::{
    distinct_keys, first_index, has_key, lemma_distinct_keys_drop_last, lemma_first_index,
    lemma_lookup_has_key, lookup,
};
use crate::schema::{
    inferred, is_reference, item_schemas, keys, object_schema, property_schemas, reference,
    strings, DRAFT_07,
};
use crate::sorting::sorted_texts;
use crate::value::{JsonView, Members};

verus! {

/// The keys that a schema is made of differ from each other.
pub proof fn lemma_keywords_differ()
    ensures
        "$schema"@ != "type"@,
        "$schema"@ != "properties"@,
        "$schema"@ != "required"@,
        "$schema"@ != "$ref"@,
        "$schema"@ != "items"@,
        "$schema"@ != "oneOf"@,
        "type"@ != "properties"@,
        "type"@ != "required"@,
        "type"@ != "$ref"@,
        "type"@ != "items"@,
        "type"@ != "oneOf"@,
        "properties"@ != "required"@,
        "properties"@ != "$ref"@,
        "properties"@ != "items"@,
        "properties"@ != "oneOf"@,
        "required"@ != "$ref"@,
        "required"@ != "items"@,
        "required"@ != "oneOf"@,
        "$ref"@ != "items"@,
        "$ref"@ != "oneOf"@,
        "items"@ != "oneOf"@,
{
    reveal_strlit("$schema");
    reveal_strlit("type");
    reveal_strlit("properties");
    reveal_strlit("required");
    reveal_strlit("$ref");
    reveal_strlit("items");
    reveal_strlit("oneOf");
    assert("$schema"@.len() == 7);
    assert("type"@.len() == 4);
    assert("properties"@.len() == 10);
    assert("required"@.len() == 8);
    assert("$ref"@.len() == 4);
    assert("items"@.len() == 5);
    assert("oneOf"@.len() == 5);
    assert("type"@[0] != "$ref"@[0]);
    assert("items"@[0] != "oneOf"@[0]);
}

/// What the keys of an object schema lead to: `type` to `object`,
/// `properties` to the properties, `required` to their sorted names, `$ref`
/// to the reference where there is one, `$schema` to the dialect where the
/// object is outermost; it has neither `items` nor `oneOf`.
pub proof fn lemma_object_schema_keys(
    properties: Members,
    target: Option<JsonView>,
    outermost: bool,
)
    ensures
        ({
            let schema = object_schema(properties, target, outermost)->Object_0;
            &&& lookup(schema, "type"@) == Some(JsonView::String("object"@))
            &&& lookup(schema, "properties"@) == Some(JsonView::Object(properties))
            &&& lookup(schema, "required"@) == Some(
                JsonView::Array(strings(sorted_texts(keys(properties)))),
            )
            &&& lookup(schema, "$ref"@) == target
            &&& lookup(schema, "$schema"@) == if outermost {
                Some(JsonView::String(DRAFT_07@))
            } else {
                None
            }
            &&& lookup(schema, "items"@) is None
            &&& lookup(schema, "oneOf"@) is None
        }),
{
    lemma_keywords_differ();
    let schema = object_schema(properties, target, outermost)->Object_0;
    reveal_with_fuel(first_index, 6);
    assert(schema.len() <= 5);
}

/// The schemas inferred from the items of an array are as many as the
/// items, and each is the schema inferred from the item at its index as a
/// part of the example.
pub proof fn lemma_item_schemas(items: Seq<JsonView>)
    ensures
        item_schemas(items).len() == items.len(),
        forall|i: int|
            0 <= i < items.len() ==> #[trigger] item_schemas(items)[i] == inferred(items[i], false),
    decreases items.len(),
{
    if items.len() > 0 {
        lemma_item_schemas(items.drop_last());
    }
}

/// Whether `property` is the property that the member at `index` gives: a
/// member whose key is not `$ref`, its key with the schema inferred from its
/// value.
pub open spec fn is_property_of(
    members: Members,
    index: int,
    property: (Seq<char>, JsonView),
) -> bool {
    &&& 0 <= index < members.len()
    &&& !is_reference(members[index].0)
    &&& property == (members[index].0, inferred(members[index].1, false))
}

/// Every property of an object is what one of its members gives; the
/// result is the index of such a member.
pub proof fn lemma_property_source(members: Members, i: int) -> (j: int)
    requires
        0 <= i < property_schemas(members).len(),
    ensures
        is_property_of(members, j, property_schemas(members)[i]),
    decreases members.len(),
{
    let rest = members.drop_last();
    if !is_reference(members.last().0) && i == property_schemas(rest).len() {
        members.len() - 1
    } else {
        lemma_property_source(rest, i)
    }
}

/// Every member of an object whose key is not `$ref` gives one of its
/// properties; the result is the index of that property.
pub proof fn lemma_property_present(members: Members, j: int) -> (i: int)
    requires
        0 <= j < members.len(),
        !is_reference(members[j].0),
    ensures
        0 <= i < property_schemas(members).len(),
        is_property_of(members, j, property_schemas(members)[i]),
    decreases members.len(),
{
    let rest = members.drop_last();
    if j == members.len() - 1 {
        property_schemas(rest).len() as int
    } else {
        lemma_property_present(rest, j)
    }
}

/// No two properties of an object have the same name where no two of its
/// members have the same key.
pub proof fn lemma_property_names_distinct(members: Members)
    requires
        distinct_keys(members),
    ensures
        distinct_keys(property_schemas(members)),
        keys(property_schemas(members)).no_duplicates(),
    decreases members.len(),
{
    let all = property_schemas(members);
    if members.len() > 0 {
        let rest = members.drop_last();
        let before = property_schemas(rest);
        let last = members.len() - 1;
        lemma_distinct_keys_drop_last(members);
        lemma_property_names_distinct(rest);
        assert forall|i: int, j: int| 0 <= i < j < all.len() implies (#[trigger] all[i]).0 != (
        #[trigger] all[j]).0 by {
            if j < before.len() {
                assert(before[i].0 != before[j].0);
            } else {
                let k = lemma_property_source(rest, i);
                assert(members[k].0 != members[last].0);
            }
        }
    }
    assert forall|i: int, j: int|
        0 <= i < keys(all).len() && 0 <= j < keys(all).len() && i != j implies keys(all)[i] != keys(
        all,
    )[j] by {
        if i < j {
            assert(all[i].0 != all[j].0);
        } else {
            assert(all[j].0 != all[i].0);
        }
    }
}

/// The test that a key is not `$ref`.
pub open spec fn is_plain() -> spec_fn(Seq<char>) -> bool {
    |key: Seq<char>| !is_reference(key)
}

/// The names of the properties of an object are its keys other than `$ref`,
/// in their order.
pub proof fn lemma_property_names(members: Members)
    ensures
        keys(property_schemas(members)) == keys(members).filter(is_plain()),
    decreases members.len(),
{
    reveal(Seq::filter);
    if members.len() == 0 {
        assert(keys(property_schemas(members)) =~= keys(members).filter(is_plain()));
    } else {
        let rest = members.drop_last();
        lemma_property_names(rest);
        assert(keys(members).drop_last() =~= keys(rest));
        assert(keys(members).last() == members.last().0);
        assert(keys(property_schemas(members)) =~= keys(members).filter(is_plain()));
    }
}

/// The value that `reference` finds is that of the last member of key `$ref`.
pub proof fn lemma_reference(members: Members)
    ensures
        reference(members) is Some <==> has_key(members, "$ref"@),
        reference(members) matches Some(value) ==> exists|i: int|
            0 <= i < members.len() && #[trigger] members[i] == ("$ref"@, value),
        distinct_keys(members) ==> reference(members) == lookup(members, "$ref"@),
    decreases members.len(),
{
    if members.len() > 0 {
        let rest = members.drop_last();
        let last = members.len() - 1;
        lemma_reference(rest);
        lemma_first_index(members, "$ref"@, 0);
        lemma_first_index(rest, "$ref"@, 0);
        lemma_lookup_has_key(members, "$ref"@);
        lemma_lookup_has_key(rest, "$ref"@);
        if is_reference(members[last].0) {
            assert(members[last] == ("$ref"@, members[last].1));
            if distinct_keys(members) {
                let i = first_index(members, "$ref"@, 0);
                if i < last {
                    assert(members[i].0 != members[last].0);
                }
            }
        } else {
            if has_key(members, "$ref"@) {
                let i = choose|i: int|
                    0 <= i < members.len() && (#[trigger] members[i]).0 == "$ref"@;
                assert(rest[i].0 == "$ref"@);
            }
            if has_key(rest, "$ref"@) {
                let i = choose|i: int| 0 <= i < rest.len() && (#[trigger] rest[i]).0 == "$ref"@;
                assert(members[i].0 == "$ref"@);
            }
            if reference(rest) is Some {
                let value = reference(rest)->0;
                let i = choose|i: int|
                    0 <= i < rest.len() && #[trigger] rest[i] == ("$ref"@, value);
                assert(members[i] == ("$ref"@, value));
            }
            if distinct_keys(members) {
                lemma_distinct_keys_drop_last(members);
                let i = first_index(members, "$ref"@, 0);
                let j = first_index(rest, "$ref"@, 0);
                if i < members.len() {
                    assert(rest[i].0 == "$ref"@);
                    if j < i {
                        assert(members[j].0 == "$ref"@);
                    }
                    if i < j {
                        assert(rest[i].0 != "$ref"@);
                    }
                } else {
                    if j < rest.len() {
                        assert(members[j].0 == "$ref"@);
                    }
                }
            }
        }
    }
}

} // verus!
