//! What holds of every inferred schema and of every unification.

use vstd::prelude::*;
use vstd::relations::sorted_by;

use crate::dialect::{declaring, dialect_free, lemma_inferred_dialect_free};
use crate::identity::{lemma_same_lookup, lemma_same_reflexive};
use crate::members::{
    distinct_keys, has_key, lemma_first_index, lemma_first_index_unique, lemma_put_all_from_empty,
    lemma_put_all_keys, lemma_put_all_lookup, lookup, put_all,
};
use crate::number::Number;
use crate::schema::{
    common_schema, inferred, is_reference, item_schemas, keys, merged, one_of, properties_of,
    property_schemas, reference, same_type, strings, type_of, typed, DRAFT_07,
};
use crate::shape::{
    is_plain, lemma_item_schemas, lemma_keywords_differ, lemma_object_schema_keys,
    lemma_property_names,
    lemma_property_names_distinct, lemma_property_present, lemma_property_source,
    lemma_reference,
};
use crate::sorting::{lemma_sorted_texts, sorted_texts};
use crate::text::string_order;
use crate::value::{JsonView, Members};

verus! {

/// The schema of a scalar is `{"type": name}`, where the name is `null` for
/// null, `boolean` for a boolean, `string` for a string, `integer` for an
/// integer numeral that fits a signed 64-bit integer, and `number` for every
/// other number.
pub proof fn law_scalar_types(instance: JsonView, outermost: bool)
    ensures
        instance is Null ==> inferred(instance, outermost) == typed("null"@),
        instance is Bool ==> inferred(instance, outermost) == typed("boolean"@),
        instance is String ==> inferred(instance, outermost) == typed("string"@),
        instance matches JsonView::Number(n) && n.is_integer() ==> inferred(instance, outermost)
            == typed("integer"@),
        instance matches JsonView::Number(n) && !n.is_integer() ==> inferred(instance, outermost)
            == typed("number"@),
        instance matches JsonView::Number(Number::Float(_)) ==> inferred(instance, outermost)
            == typed("number"@),
        forall|name: Seq<char>| #[trigger]
            type_of(typed(name)) == Some(JsonView::String(name)),
{
    assert forall|name: Seq<char>| #[trigger]
        type_of(typed(name)) == Some(JsonView::String(name)) by {
        lemma_first_index(typed(name)->Object_0, "type"@, 0);
    }
}

/// The schema of an array is `{"type": "array", "items": schema}`, where the
/// schema of the items is the one that stands for the schemas inferred from
/// them all, each as a part of the example: the empty schema where the array
/// is empty.
pub proof fn law_array_schema(items: Seq<JsonView>, outermost: bool)
    ensures
        inferred(JsonView::Array(items), outermost) == JsonView::Object(
            seq![
                ("type"@, JsonView::String("array"@)),
                ("items"@, common_schema(item_schemas(items))),
            ],
        ),
        items.len() == 0 ==> inferred(JsonView::Array(items), outermost) == JsonView::Object(
            seq![("type"@, JsonView::String("array"@)), ("items"@, JsonView::Object(Seq::empty()))],
        ),
        item_schemas(items).len() == items.len(),
        forall|i: int|
            0 <= i < items.len() ==> #[trigger] item_schemas(items)[i] == inferred(items[i], false),
{
    lemma_item_schemas(items);
}

/// The schema of an object holds under `properties` a mapping that has, for
/// each key of the object other than `$ref` and in their order, the schema
/// inferred from the value of that member as a part of the example.
pub proof fn law_properties(members: Members, outermost: bool)
    ensures
        ({
            let schema = inferred(JsonView::Object(members), outermost);
            let properties = property_schemas(members);
            &&& schema is Object
            &&& lookup(schema->Object_0, "type"@) == Some(JsonView::String("object"@))
            &&& lookup(schema->Object_0, "properties"@) == Some(JsonView::Object(properties))
            &&& keys(properties) == keys(members).filter(is_plain())
            &&& (forall|i: int|
                #![trigger properties[i]]
                0 <= i < properties.len() ==> has_key(members, properties[i].0))
            &&& (distinct_keys(members) ==> forall|i: int|
                #![trigger properties[i]]
                0 <= i < properties.len() ==> properties[i].1 == inferred(
                    lookup(members, properties[i].0)->0,
                    false,
                ))
        }),
{
    let properties = property_schemas(members);
    lemma_object_schema_keys(properties, reference(members), outermost);
    lemma_property_names(members);
    assert forall|i: int| #![trigger properties[i]] 0 <= i < properties.len() implies has_key(
        members,
        properties[i].0,
    ) && (distinct_keys(members) ==> properties[i].1 == inferred(
        lookup(members, properties[i].0)->0,
        false,
    )) by {
        let j = lemma_property_source(members, i);
        assert(members[j].0 == properties[i].0);
        if distinct_keys(members) {
            assert forall|k: int| 0 <= k < j implies (#[trigger] members[k]).0
                != properties[i].0 by {
                assert(members[k].0 != members[j].0);
            }
            lemma_first_index_unique(members, properties[i].0, j);
        }
    }
}

/// The names under `required` of the schema of an object are exactly the
/// keys of the object other than `$ref`, in ascending raw string order, and
/// none stands twice where the object has no key twice.
pub proof fn law_required(members: Members, outermost: bool)
    ensures
        ({
            let schema = inferred(JsonView::Object(members), outermost);
            let names = sorted_texts(keys(property_schemas(members)));
            &&& schema is Object
            &&& lookup(schema->Object_0, "required"@) == Some(JsonView::Array(strings(names)))
            &&& sorted_by(names, string_order())
            &&& (forall|key: Seq<char>|
                names.contains(key) <==> !is_reference(key) && has_key(members, key))
            &&& (distinct_keys(members) ==> names.no_duplicates())
        }),
{
    let properties = property_schemas(members);
    let names = sorted_texts(keys(properties));
    lemma_object_schema_keys(properties, reference(members), outermost);
    lemma_sorted_texts(keys(properties));
    assert forall|key: Seq<char>|
        names.contains(key) <==> !is_reference(key) && has_key(members, key) by {
        if keys(properties).contains(key) {
            let i = choose|i: int| 0 <= i < keys(properties).len() && keys(properties)[i] == key;
            let j = lemma_property_source(members, i);
            assert(members[j].0 == key);
        }
        if !is_reference(key) && has_key(members, key) {
            let j = choose|j: int| 0 <= j < members.len() && (#[trigger] members[j]).0 == key;
            let i = lemma_property_present(members, j);
            assert(keys(properties)[i] == key);
        }
    }
    if distinct_keys(members) {
        lemma_property_names_distinct(members);
    }
}

/// A member of key `$ref` gives no property and no required name: its value
/// stands, as it is, under `$ref` of the schema. A schema has `$ref` exactly
/// where the object has it.
pub proof fn law_reference(members: Members, outermost: bool)
    ensures
        ({
            let schema = inferred(JsonView::Object(members), outermost);
            &&& !has_key(property_schemas(members), "$ref"@)
            &&& !sorted_texts(keys(property_schemas(members))).contains("$ref"@)
            &&& schema is Object
            &&& lookup(schema->Object_0, "properties"@) == Some(
                JsonView::Object(property_schemas(members)),
            )
            &&& lookup(schema->Object_0, "$ref"@) == reference(members)
            &&& (reference(members) is Some <==> has_key(members, "$ref"@))
            &&& (reference(members) matches Some(value) ==> exists|i: int|
                0 <= i < members.len() && #[trigger] members[i] == ("$ref"@, value))
            &&& (distinct_keys(members) ==> reference(members) == lookup(members, "$ref"@))
        }),
{
    let properties = property_schemas(members);
    lemma_object_schema_keys(properties, reference(members), outermost);
    law_required(members, outermost);
    if has_key(properties, "$ref"@) {
        let i = choose|i: int| 0 <= i < properties.len() && (#[trigger] properties[i]).0 == "$ref"@;
        let j = lemma_property_source(members, i);
        assert(false);
    }
    let names = sorted_texts(keys(properties));
    assert(is_reference("$ref"@));
    assert(names.contains("$ref"@) <==> !is_reference("$ref"@) && has_key(members, "$ref"@));
    lemma_reference(members);
}

/// The dialect is declared once, by the schema of an outermost object and
/// before its other members: the schema of an outermost object is that of
/// the same object as a part with the declaration before it, the schema of
/// any other outermost value is that of the same value as a part, and the
/// schema of a part declares no dialect, neither itself nor in a schema
/// within it.
pub proof fn law_dialect(instance: JsonView)
    ensures
        dialect_free(inferred(instance, false)),
        instance is Object ==> inferred(instance, true) == declaring(inferred(instance, false)),
        !(instance is Object) ==> inferred(instance, true) == inferred(instance, false),
        instance is Object ==> lookup(inferred(instance, true)->Object_0, "$schema"@) == Some(
            JsonView::String(DRAFT_07@),
        ),
{
    lemma_inferred_dialect_free(instance);
    match instance {
        JsonView::Object(members) => {
            lemma_object_schema_keys(property_schemas(members), reference(members), true);
            assert(inferred(instance, true)->Object_0 =~= declaring(
                inferred(instance, false),
            )->Object_0);
        },
        _ => {},
    }
}

/// Structural identity is reflexive on well-formed values.
pub proof fn law_identity_reflexive(value: JsonView)
    requires
        value.valid(),
    ensures
        value.same(value),
{
    lemma_same_reflexive(value);
}

/// Structural identity does not depend on the order of the two values.
pub proof fn law_identity_symmetric(a: JsonView, b: JsonView)
    requires
        a.same(b),
    ensures
        b.same(a),
    decreases a,
{
    match (a, b) {
        (JsonView::Array(x), JsonView::Array(y)) => {
            assert forall|i: int| 0 <= i < y.len() implies (#[trigger] y[i]).same(x[i]) by {
                assert(x[i].same(y[i]));
                law_identity_symmetric(x[i], y[i]);
            }
        },
        (JsonView::Object(x), JsonView::Object(y)) => {
            assert forall|j: int, i: int|
                0 <= j < y.len() && 0 <= i < x.len() && (#[trigger] y[j]).0 == (
                #[trigger] x[i]).0 implies y[j].1.same(x[i].1) by {
                assert(x[i].1.same(y[j].1));
                law_identity_symmetric(x[i].1, y[j].1);
            }
        },
        _ => {},
    }
}

/// Two values that are structurally identical to a third are so to each
/// other.
pub proof fn law_identity_transitive(a: JsonView, b: JsonView, c: JsonView)
    requires
        a.same(b),
        b.same(c),
    ensures
        a.same(c),
    decreases a,
{
    match (a, b, c) {
        (JsonView::Array(x), JsonView::Array(y), JsonView::Array(z)) => {
            assert forall|i: int| 0 <= i < x.len() implies (#[trigger] x[i]).same(z[i]) by {
                assert(x[i].same(y[i]));
                assert(y[i].same(z[i]));
                law_identity_transitive(x[i], y[i], z[i]);
            }
        },
        (JsonView::Object(x), JsonView::Object(y), JsonView::Object(z)) => {
            assert forall|i: int| 0 <= i < x.len() implies has_key(z, (#[trigger] x[i]).0) by {
                assert(has_key(y, x[i].0));
                let j = choose|j: int| 0 <= j < y.len() && (#[trigger] y[j]).0 == x[i].0;
                assert(has_key(z, y[j].0));
            }
            assert forall|k: int| 0 <= k < z.len() implies has_key(x, (#[trigger] z[k]).0) by {
                assert(has_key(y, z[k].0));
                let j = choose|j: int| 0 <= j < y.len() && (#[trigger] y[j]).0 == z[k].0;
                assert(has_key(x, y[j].0));
            }
            assert forall|i: int, k: int|
                0 <= i < x.len() && 0 <= k < z.len() && (#[trigger] x[i]).0 == (
                #[trigger] z[k]).0 implies x[i].1.same(z[k].1) by {
                assert(has_key(y, x[i].0));
                let j = choose|j: int| 0 <= j < y.len() && (#[trigger] y[j]).0 == x[i].0;
                assert(x[i].1.same(y[j].1));
                assert(y[j].1.same(z[k].1));
                law_identity_transitive(x[i].1, y[j].1, z[k].1);
            }
        },
        _ => {},
    }
}

/// Unifying two structurally identical schemas gives the first of them,
/// which is structurally identical to the second.
pub proof fn law_merge_identical(schema1: JsonView, schema2: JsonView)
    requires
        schema1.same(schema2),
    ensures
        merged(schema1, schema2) == schema1,
        merged(schema1, schema2).same(schema2),
{
}

/// Unifying a well-formed schema with itself gives the schema back.
pub proof fn law_merge_idempotent(schema: JsonView)
    requires
        schema.valid(),
    ensures
        merged(schema, schema) == schema,
{
    lemma_same_reflexive(schema);
}

/// Two schemas of differing type, that is two of which one at least
/// declares a type and which do not both declare identical types, unify to
/// the two as alternatives, the first one first.
pub proof fn law_merge_differing_types(schema1: JsonView, schema2: JsonView)
    requires
        type_of(schema1) is Some || type_of(schema2) is Some,
        !same_type(schema1, schema2),
    ensures
        !schema1.same(schema2),
        merged(schema1, schema2) == one_of(schema1, schema2),
{
    if schema1.same(schema2) {
        match (schema1, schema2) {
            (JsonView::Object(members1), JsonView::Object(members2)) => {
                lemma_same_lookup(members1, members2, "type"@);
            },
            _ => {},
        }
    }
}

/// Two schemas `{"type": name}` of different names unify to the two as
/// alternatives, the first one first.
pub proof fn law_merge_differing_scalars(name1: Seq<char>, name2: Seq<char>)
    requires
        name1 != name2,
    ensures
        merged(typed(name1), typed(name2)) == one_of(typed(name1), typed(name2)),
{
    lemma_first_index(typed(name1)->Object_0, "type"@, 0);
    lemma_first_index(typed(name2)->Object_0, "type"@, 0);
    law_merge_differing_types(typed(name1), typed(name2));
}

/// Where two schemas that are not structurally identical have identical
/// types, their unification has that type and nothing else, but for
/// `properties` where both declare a mapping of them. Under each name that
/// mapping holds the property of the second schema, or that of the first
/// where the second has none of the name; it has no name twice.
pub proof fn law_merge_same_type(schema1: JsonView, schema2: JsonView)
    requires
        !schema1.same(schema2),
        same_type(schema1, schema2),
    ensures
        type_of(merged(schema1, schema2)) == type_of(schema1),
        properties_of(merged(schema1, schema2)) is Some <==> properties_of(schema1) is Some
            && properties_of(schema2) is Some,
        forall|key: Seq<char>|
            has_key(merged(schema1, schema2)->Object_0, key) ==> key == "type"@ || key
                == "properties"@,
        properties_of(merged(schema1, schema2)) matches Some(all) ==> {
            &&& distinct_keys(all)
            &&& distinct_keys(properties_of(schema1)->0) && distinct_keys(
                properties_of(schema2)->0,
            ) ==> forall|key: Seq<char>|
                #![trigger lookup(all, key)]
                lookup(all, key) == match lookup(properties_of(schema2)->0, key) {
                    Some(value) => Some(value),
                    None => lookup(properties_of(schema1)->0, key),
                }
        },
{
    lemma_keywords_differ();
    let result = merged(schema1, schema2);
    let members = result->Object_0;
    assert(members[0].0 == "type"@);
    lemma_first_index(members, "type"@, 0);
    lemma_first_index(members, "properties"@, 0);
    if properties_of(schema1) is Some && properties_of(schema2) is Some {
        let properties1 = properties_of(schema1)->0;
        let properties2 = properties_of(schema2)->0;
        let first = put_all(Seq::empty(), properties1);
        let all = put_all(first, properties2);
        assert(members[1] == ("properties"@, JsonView::Object(all)));
        lemma_put_all_keys(Seq::empty(), properties1);
        lemma_put_all_keys(first, properties2);
        if distinct_keys(properties1) && distinct_keys(properties2) {
            assert forall|key: Seq<char>| #![trigger lookup(all, key)]
                lookup(all, key) == match lookup(properties2, key) {
                    Some(value) => Some(value),
                    None => lookup(properties1, key),
                } by {
                lemma_put_all_lookup(first, properties2, key);
                lemma_put_all_from_empty(properties1, key);
            }
        }
    }
    assert forall|key: Seq<char>| has_key(members, key) implies key == "type"@ || key
        == "properties"@ by {
        let i = choose|i: int| 0 <= i < members.len() && (#[trigger] members[i]).0 == key;
        assert(i == 0 || i == 1);
    }
}

/// A list of schemas is unified from the left: the schema that stands for
/// a list with one more schema is the unification of the schema that stands
/// for the list with that schema, and alternatives nest as they arise.
pub proof fn law_common_schema_folds(schemas: Seq<JsonView>, next: JsonView)
    requires
        schemas.len() > 0,
    ensures
        common_schema(schemas.push(next)) == merged(common_schema(schemas), next),
        common_schema(seq![next]) == next,
{
    assert(schemas.push(next).drop_last() =~= schemas);
}

} // verus!
