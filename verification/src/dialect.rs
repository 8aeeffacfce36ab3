//! Where a schema declares its dialect.

use vstd::prelude::*;

use crate::members::{
    first_index, has_key, lemma_first_index, lemma_lookup_has_key, lemma_put_all_values, put_all,
};
use crate::schema::{
    common_schema, inferred, item_schemas, merged, object_members, properties_of,
    property_schemas, reference, same_type, DRAFT_07,
};
use crate::shape::{lemma_keywords_differ, lemma_object_schema_keys};
use crate::value::{JsonView, Members};

verus! {

/// The schema with the dialect declared before its other members.
pub open spec fn declaring(schema: JsonView) -> JsonView {
    JsonView::Object(seq![("$schema"@, JsonView::String(DRAFT_07@))] + object_members(schema))
}

/// Whether a schema declares no dialect, neither itself nor in a schema
/// within it: one of its properties, its items, one of its alternatives.
pub open spec fn dialect_free(schema: JsonView) -> bool
    decreases schema,
{
    match schema {
        JsonView::Object(members) => !has_key(members, "$schema"@)
            && members_dialect_free(members),
        _ => true,
    }
}

/// Whether the schemas within each member of a schema declare no dialect.
pub open spec fn members_dialect_free(members: Members) -> bool
    decreases members,
{
    forall|i: int| 0 <= i < members.len() ==> member_dialect_free(#[trigger] members[i])
}

/// Whether the schemas within a member of a schema declare no dialect: the
/// values of the mapping under `properties`, the schema under `items`, the
/// schemas of the list under `oneOf`. Another member holds no schema.
pub open spec fn member_dialect_free(member: (Seq<char>, JsonView)) -> bool
    decreases member,
{
    if member.0 == "properties"@ {
        match member.1 {
            JsonView::Object(properties) => values_dialect_free(properties),
            _ => true,
        }
    } else if member.0 == "items"@ {
        dialect_free(member.1)
    } else if member.0 == "oneOf"@ {
        match member.1 {
            JsonView::Array(alternatives) => all_dialect_free(alternatives),
            _ => true,
        }
    } else {
        true
    }
}

/// Whether no value of a mapping of schemas declares a dialect.
pub open spec fn values_dialect_free(properties: Members) -> bool
    decreases properties,
{
    forall|i: int| 0 <= i < properties.len() ==> dialect_free((#[trigger] properties[i]).1)
}

/// Whether no schema of a list declares a dialect.
pub open spec fn all_dialect_free(schemas: Seq<JsonView>) -> bool
    decreases schemas,
{
    forall|i: int| 0 <= i < schemas.len() ==> dialect_free(#[trigger] schemas[i])
}

/// The properties of a schema that declares no dialect declare none.
proof fn lemma_properties_dialect_free(schema: JsonView)
    requires
        dialect_free(schema),
        properties_of(schema) is Some,
    ensures
        values_dialect_free(properties_of(schema)->0),
{
    let members = schema->Object_0;
    lemma_first_index(members, "properties"@, 0);
    let i = first_index(members, "properties"@, 0);
    assert(member_dialect_free(members[i]));
}

/// Unifying two schemas that declare no dialect gives a schema that
/// declares none.
pub proof fn lemma_merged_dialect_free(schema1: JsonView, schema2: JsonView)
    requires
        dialect_free(schema1),
        dialect_free(schema2),
    ensures
        dialect_free(merged(schema1, schema2)),
{
    lemma_keywords_differ();
    let result = merged(schema1, schema2);
    if schema1.same(schema2) {
    } else if same_type(schema1, schema2) {
        let members = result->Object_0;
        if properties_of(schema1) is Some && properties_of(schema2) is Some {
            let properties1 = properties_of(schema1)->0;
            let properties2 = properties_of(schema2)->0;
            lemma_properties_dialect_free(schema1);
            lemma_properties_dialect_free(schema2);
            let free = |schema: JsonView| dialect_free(schema);
            lemma_put_all_values(Seq::empty(), properties1, free);
            lemma_put_all_values(put_all(Seq::empty(), properties1), properties2, free);
            assert(members.len() == 2);
            assert(member_dialect_free(members[0]));
            assert(member_dialect_free(members[1]));
        } else {
            assert(members.len() == 1);
            assert(member_dialect_free(members[0]));
        }
        assert(members_dialect_free(members));
    } else {
        let members = result->Object_0;
        let alternatives = seq![schema1, schema2];
        assert(members[0] == ("oneOf"@, JsonView::Array(alternatives)));
        assert(all_dialect_free(alternatives));
        assert(member_dialect_free(members[0]));
        assert(members_dialect_free(members));
    }
}

/// The one schema that stands for a list of schemas that declare no dialect
/// declares none.
pub proof fn lemma_common_dialect_free(schemas: Seq<JsonView>)
    requires
        all_dialect_free(schemas),
    ensures
        dialect_free(common_schema(schemas)),
    decreases schemas.len(),
{
    if schemas.len() == 0 {
        assert(members_dialect_free(Seq::empty()));
    } else if schemas.len() == 1 {
    } else {
        let rest = schemas.drop_last();
        assert forall|i: int| 0 <= i < rest.len() implies dialect_free(#[trigger] rest[i]) by {
            assert(rest[i] == schemas[i]);
        }
        lemma_common_dialect_free(rest);
        assert(dialect_free(schemas[schemas.len() - 1]));
        lemma_merged_dialect_free(common_schema(rest), schemas.last());
    }
}

/// The schema inferred from a part of an example declares no dialect,
/// neither itself nor in a schema within it.
pub proof fn lemma_inferred_dialect_free(instance: JsonView)
    ensures
        dialect_free(inferred(instance, false)),
    decreases instance, 1nat,
{
    lemma_keywords_differ();
    let schema = inferred(instance, false);
    match instance {
        JsonView::Array(items) => {
            lemma_item_schemas_dialect_free(items);
            lemma_common_dialect_free(item_schemas(items));
            let members = schema->Object_0;
            assert(members.len() == 2);
            assert(member_dialect_free(members[0]));
            assert(member_dialect_free(members[1]));
            assert(members_dialect_free(members));
        },
        JsonView::Object(object) => {
            lemma_property_schemas_dialect_free(object);
            lemma_object_schema_keys(property_schemas(object), reference(object), false);
            lemma_lookup_has_key(schema->Object_0, "$schema"@);
            let members = schema->Object_0;
            assert(members.len() <= 4);
            assert forall|i: int| 0 <= i < members.len() implies member_dialect_free(
                #[trigger] members[i],
            ) by {
                if i == 1 {
                    assert(members[i].1 == JsonView::Object(property_schemas(object)));
                }
            }
            assert(members_dialect_free(members));
        },
        _ => {
            let members = schema->Object_0;
            assert(members.len() == 1);
            assert(member_dialect_free(members[0]));
            assert(members_dialect_free(members));
        },
    }
}

/// The schemas inferred from the items of an array declare no dialect.
proof fn lemma_item_schemas_dialect_free(items: Seq<JsonView>)
    ensures
        all_dialect_free(item_schemas(items)),
    decreases items, 0nat,
{
    if items.len() > 0 {
        lemma_item_schemas_dialect_free(items.drop_last());
        lemma_inferred_dialect_free(items.last());
    }
}

/// The schemas inferred for the properties of an object declare no dialect.
proof fn lemma_property_schemas_dialect_free(members: Members)
    ensures
        values_dialect_free(property_schemas(members)),
    decreases members, 0nat,
{
    if members.len() > 0 {
        lemma_property_schemas_dialect_free(members.drop_last());
        lemma_inferred_dialect_free(members.last().1);
    }
}

} // verus!
