//! Inference and unification keep values well-formed.

use vstd::prelude::*;

use crate::members::{
    distinct_keys, first_index, lemma_first_index, lemma_put_all_keys, lemma_put_all_values,
    lookup, put_all,
};
use crate::schema::{
    common_schema, inferred, item_schemas, keys, merged, properties_of, property_schemas,
    reference, same_type, strings,
};
use crate::shape::{lemma_keywords_differ, lemma_property_names_distinct, lemma_reference};
use crate::sorting::sorted_texts;
use crate::value::{all_valid, values_valid, JsonView, Members};

verus! {

/// The value that a well-formed list of members leads to is well-formed.
proof fn lemma_lookup_valid(members: Members, key: Seq<char>)
    requires
        JsonView::Object(members).valid(),
        lookup(members, key) is Some,
    ensures
        lookup(members, key)->0.valid(),
{
    lemma_first_index(members, key, 0);
    let i = first_index(members, key, 0);
    assert(members[i].1.valid());
}

/// Unifying two well-formed schemas gives a well-formed schema.
pub proof fn lemma_merged_valid(schema1: JsonView, schema2: JsonView)
    requires
        schema1.valid(),
        schema2.valid(),
    ensures
        merged(schema1, schema2).valid(),
{
    lemma_keywords_differ();
    let result = merged(schema1, schema2);
    if schema1.same(schema2) {
    } else if same_type(schema1, schema2) {
        let members = result->Object_0;
        lemma_lookup_valid(schema1->Object_0, "type"@);
        if properties_of(schema1) is Some && properties_of(schema2) is Some {
            let properties1 = properties_of(schema1)->0;
            let properties2 = properties_of(schema2)->0;
            let first = put_all(Seq::empty(), properties1);
            let all = put_all(first, properties2);
            let valid = |value: JsonView| value.valid();
            lemma_lookup_valid(schema1->Object_0, "properties"@);
            lemma_lookup_valid(schema2->Object_0, "properties"@);
            assert(values_valid(properties1));
            assert(values_valid(properties2));
            lemma_put_all_values(Seq::empty(), properties1, valid);
            lemma_put_all_values(first, properties2, valid);
            lemma_put_all_keys(Seq::empty(), properties1);
            lemma_put_all_keys(first, properties2);
            assert forall|i: int| 0 <= i < all.len() implies (#[trigger] all[i]).1.valid() by {
                assert(valid(all[i].1));
            }
            assert(JsonView::Object(all).valid());
            assert(members.len() == 2);
            assert(members[1].1 == JsonView::Object(all));
        } else {
            assert(members.len() == 1);
        }
        assert(distinct_keys(members));
        assert(values_valid(members));
    } else {
        let members = result->Object_0;
        let alternatives = seq![schema1, schema2];
        assert(members[0] == ("oneOf"@, JsonView::Array(alternatives)));
        assert(all_valid(alternatives));
        assert(distinct_keys(members));
        assert(values_valid(members));
    }
}

/// The one schema that stands for a list of well-formed schemas is
/// well-formed.
pub proof fn lemma_common_valid(schemas: Seq<JsonView>)
    requires
        all_valid(schemas),
    ensures
        common_schema(schemas).valid(),
    decreases schemas.len(),
{
    if schemas.len() == 0 {
        assert(distinct_keys(Seq::empty()));
    } else if schemas.len() == 1 {
    } else {
        let rest = schemas.drop_last();
        assert forall|i: int| 0 <= i < rest.len() implies (#[trigger] rest[i]).valid() by {
            assert(rest[i] == schemas[i]);
        }
        lemma_common_valid(rest);
        assert(schemas[schemas.len() - 1].valid());
        lemma_merged_valid(common_schema(rest), schemas.last());
    }
}

/// The schema inferred from a well-formed value is well-formed.
pub proof fn lemma_inferred_valid(instance: JsonView, outermost: bool)
    requires
        instance.valid(),
    ensures
        inferred(instance, outermost).valid(),
    decreases instance, 1nat,
{
    lemma_keywords_differ();
    let schema = inferred(instance, outermost);
    let members = schema->Object_0;
    match instance {
        JsonView::Array(items) => {
            lemma_item_schemas_valid(items);
            lemma_common_valid(item_schemas(items));
            assert(members.len() == 2);
            assert(distinct_keys(members));
            assert(values_valid(members));
        },
        JsonView::Object(object) => {
            let properties = property_schemas(object);
            let names = strings(sorted_texts(keys(properties)));
            lemma_property_schemas_valid(object);
            lemma_property_names_distinct(object);
            lemma_reference(object);
            assert(all_valid(names));
            if reference(object) is Some {
                let value = reference(object)->0;
                let i = choose|i: int|
                    0 <= i < object.len() && #[trigger] object[i] == ("$ref"@, value);
                assert(object[i].1.valid());
            }
            assert(members.len() <= 5);
            assert(distinct_keys(members));
            assert(values_valid(members));
        },
        _ => {
            assert(members.len() == 1);
            assert(distinct_keys(members));
            assert(values_valid(members));
        },
    }
}

/// The schemas inferred from the items of a well-formed array are
/// well-formed.
proof fn lemma_item_schemas_valid(items: Seq<JsonView>)
    requires
        all_valid(items),
    ensures
        all_valid(item_schemas(items)),
    decreases items, 0nat,
{
    if items.len() > 0 {
        let rest = items.drop_last();
        assert forall|i: int| 0 <= i < rest.len() implies (#[trigger] rest[i]).valid() by {
            assert(rest[i] == items[i]);
        }
        lemma_item_schemas_valid(rest);
        assert(items[items.len() - 1].valid());
        lemma_inferred_valid(items.last(), false);
    }
}

/// The schemas inferred for the properties of a well-formed object are
/// well-formed.
proof fn lemma_property_schemas_valid(members: Members)
    requires
        values_valid(members),
    ensures
        values_valid(property_schemas(members)),
    decreases members, 0nat,
{
    if members.len() > 0 {
        let rest = members.drop_last();
        assert forall|i: int| 0 <= i < rest.len() implies (#[trigger] rest[i]).1.valid() by {
            assert(rest[i] == members[i]);
        }
        lemma_property_schemas_valid(rest);
        assert(members[members.len() - 1].1.valid());
        lemma_inferred_valid(members.last().1, false);
    }
}

} // verus!
