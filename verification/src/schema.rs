//! Inference of a draft-07 style schema from an example value.

use vstd::prelude::*;

use crate::members::{find, lookup, member, put_all, put_members};
use crate::sorting::{sort_strings, sorted_texts, texts};
use crate::text::str_eq;
use crate::validity::{lemma_common_valid, lemma_inferred_valid, lemma_merged_valid};
use crate::value::{
    all_valid, items_view, lemma_array_view, lemma_object_view, members_view, Json, JsonView,
    Members,
};

verus! {

/// The dialect that an outermost object schema declares under `$schema`.
pub const DRAFT_07: &'static str = "http://json-schema.org/draft-07/schema#";

/// The schema `{"type": name}`.
pub open spec fn typed(name: Seq<char>) -> JsonView {
    JsonView::Object(seq![("type"@, JsonView::String(name))])
}

/// The schema inferred from an example value. `outermost` says whether the
/// value is the whole example or a part of it.
pub open spec fn inferred(instance: JsonView, outermost: bool) -> JsonView
    decreases instance,
{
    match instance {
        JsonView::Null => typed("null"@),
        JsonView::Bool(_) => typed("boolean"@),
        JsonView::Number(n) => if n.is_integer() {
            typed("integer"@)
        } else {
            typed("number"@)
        },
        JsonView::String(_) => typed("string"@),
        JsonView::Array(items) => array_schema(item_schemas(items)),
        JsonView::Object(members) => object_schema(
            property_schemas(members),
            reference(members),
            outermost,
        ),
    }
}

/// The schemas inferred from the items of an array, in order.
pub open spec fn item_schemas(items: Seq<JsonView>) -> Seq<JsonView>
    decreases items,
{
    if items.len() == 0 {
        Seq::empty()
    } else {
        item_schemas(items.drop_last()).push(inferred(items.last(), false))
    }
}

/// The properties of an object: for each member whose key is not `$ref`, in
/// order, its key with the schema inferred from its value.
pub open spec fn property_schemas(members: Members) -> Members
    decreases members,
{
    if members.len() == 0 {
        Seq::empty()
    } else if is_reference(members.last().0) {
        property_schemas(members.drop_last())
    } else {
        property_schemas(members.drop_last()).push(
            (members.last().0, inferred(members.last().1, false)),
        )
    }
}

/// Whether a key is the reference key `$ref`.
pub open spec fn is_reference(key: Seq<char>) -> bool {
    key == "$ref"@
}

/// The value of the last member whose key is `$ref`, if there is one.
pub open spec fn reference(members: Members) -> Option<JsonView>
    decreases members.len(),
{
    if members.len() == 0 {
        None
    } else if is_reference(members.last().0) {
        Some(members.last().1)
    } else {
        reference(members.drop_last())
    }
}

/// The schema of an array whose items have the given schemas.
pub open spec fn array_schema(schemas: Seq<JsonView>) -> JsonView {
    JsonView::Object(
        seq![("type"@, JsonView::String("array"@)), ("items"@, common_schema(schemas))],
    )
}

/// The schema of an object with the given properties: `$schema` first where
/// the object is the outermost value, then `type`, `properties` and
/// `required`, the sorted names of the properties, and last `$ref` where the
/// object refers to a definition.
pub open spec fn object_schema(
    properties: Members,
    reference: Option<JsonView>,
    outermost: bool,
) -> JsonView {
    let head = if outermost {
        seq![("$schema"@, JsonView::String(DRAFT_07@))]
    } else {
        Seq::empty()
    };
    let body = seq![
        ("type"@, JsonView::String("object"@)),
        ("properties"@, JsonView::Object(properties)),
        ("required"@, JsonView::Array(strings(sorted_texts(keys(properties))))),
    ];
    let tail = match reference {
        Some(value) => seq![("$ref"@, value)],
        None => Seq::empty(),
    };
    JsonView::Object(head + body + tail)
}

/// The keys of a list of members, in order.
pub open spec fn keys(members: Members) -> Seq<Seq<char>> {
    Seq::new(members.len(), |i: int| members[i].0)
}

/// The string values of the given contents, in order.
pub open spec fn strings(list: Seq<Seq<char>>) -> Seq<JsonView> {
    Seq::new(list.len(), |i: int| JsonView::String(list[i]))
}

/// The members of an object; none for any other value.
pub open spec fn object_members(instance: JsonView) -> Members {
    match instance {
        JsonView::Object(members) => members,
        _ => Seq::empty(),
    }
}

/// The object schema inferred from the members of a value.
pub open spec fn inferred_object(instance: JsonView, outermost: bool) -> JsonView {
    object_schema(
        property_schemas(object_members(instance)),
        reference(object_members(instance)),
        outermost,
    )
}

/// The one schema that stands for a list of schemas: the empty schema for
/// the empty list, else the schemas unified pairwise from the left.
pub open spec fn common_schema(schemas: Seq<JsonView>) -> JsonView
    decreases schemas.len(),
{
    if schemas.len() == 0 {
        JsonView::Object(Seq::empty())
    } else if schemas.len() == 1 {
        schemas[0]
    } else {
        merged(common_schema(schemas.drop_last()), schemas.last())
    }
}

/// The unification of two schemas:
/// - the first, where the two are structurally identical;
/// - else, where both are objects of identical `type`, that type alone, and
///   where both declare a `properties` mapping, also the properties of the
///   first followed by those of the second, a property of the second
///   overwriting one of the same name;
/// - else the two as alternatives, the first one first.
pub open spec fn merged(schema1: JsonView, schema2: JsonView) -> JsonView {
    if schema1.same(schema2) {
        schema1
    } else if same_type(schema1, schema2) {
        let head = seq![("type"@, type_of(schema1)->0)];
        match (properties_of(schema1), properties_of(schema2)) {
            (Some(properties1), Some(properties2)) => JsonView::Object(
                head.push(
                    (
                        "properties"@,
                        JsonView::Object(put_all(put_all(Seq::empty(), properties1), properties2)),
                    ),
                ),
            ),
            _ => JsonView::Object(head),
        }
    } else {
        one_of(schema1, schema2)
    }
}

/// Whether both schemas are objects that have a `type` and whose types are
/// structurally identical.
pub open spec fn same_type(schema1: JsonView, schema2: JsonView) -> bool {
    match (type_of(schema1), type_of(schema2)) {
        (Some(type1), Some(type2)) => type1.same(type2),
        _ => false,
    }
}

/// The value under `type` of an object schema.
pub open spec fn type_of(schema: JsonView) -> Option<JsonView> {
    match schema {
        JsonView::Object(members) => lookup(members, "type"@),
        _ => None,
    }
}

/// The mapping under `properties` of an object schema.
pub open spec fn properties_of(schema: JsonView) -> Option<Members> {
    match schema {
        JsonView::Object(members) => match lookup(members, "properties"@) {
            Some(JsonView::Object(properties)) => Some(properties),
            _ => None,
        },
        _ => None,
    }
}

/// The schema `{"oneOf": [schema1, schema2]}`.
pub open spec fn one_of(schema1: JsonView, schema2: JsonView) -> JsonView {
    JsonView::Object(seq![("oneOf"@, JsonView::Array(seq![schema1, schema2]))])
}

/// Infers the schema of a whole example value.
pub fn generate_json_schema(instance: &Json) -> (r: Json)
    ensures
        r@ == inferred(instance@, true),
        instance@.valid() ==> r@.valid(),
{
    generate_schema(instance, true)
}

/// Infers the schema of a value. `outermost` says whether the value is the
/// whole example or a part of it: only the schema of an outermost object
/// declares the dialect.
pub fn generate_schema(instance: &Json, outermost: bool) -> (r: Json)
    ensures
        r@ == inferred(instance@, outermost),
        instance@.valid() ==> r@.valid(),
    decreases instance, 1nat,
{
    proof {
        if instance@.valid() {
            lemma_inferred_valid(instance@, outermost);
        }
    }
    match instance {
        Json::Object(members) => {
            proof {
                lemma_object_view(*members);
            }
            generate_object_schema(instance, outermost)
        },
        Json::Array(items) => {
            proof {
                lemma_array_view(*items);
            }
            generate_array_schema(items)
        },
        Json::String(_) => type_schema("string"),
        Json::Number(n) => {
            if n.is_i64() {
                type_schema("integer")
            } else {
                type_schema("number")
            }
        },
        Json::Bool(_) => type_schema("boolean"),
        Json::Null => type_schema("null"),
    }
}

/// Infers the object schema of the members of a value; a value that is no
/// object has no members.
pub fn generate_object_schema(instance: &Json, outermost: bool) -> (r: Json)
    ensures
        r@ == inferred_object(instance@, outermost),
        instance@.valid() ==> r@.valid(),
    decreases instance, 0nat,
{
    proof {
        if instance@.valid() {
            lemma_inferred_valid(JsonView::Object(object_members(instance@)), outermost);
        }
    }
    let mut properties: Vec<(String, Json)> = Vec::new();
    let mut required: Vec<String> = Vec::new();
    let mut target: Option<Json> = None;
    let ghost all = object_members(instance@);
    assert(members_view(properties@) =~= property_schemas(all.take(0)));
    assert(texts(required@) =~= keys(members_view(properties@)));
    match instance {
        Json::Object(members) => {
            proof {
                lemma_object_view(*members);
            }
            let mut i: usize = 0;
            while i < members.len()
                invariant
                    instance is Object,
                    instance->Object_0 == *members,
                    all == members_view(members@),
                    i <= members.len(),
                    members_view(properties@) == property_schemas(all.take(i as int)),
                    texts(required@) == keys(members_view(properties@)),
                    match target {
                        Some(value) => reference(all.take(i as int)) == Some(value@),
                        None => reference(all.take(i as int)) is None,
                    },
                decreases members.len() - i,
            {
                let ghost before = members_view(properties@);
                let ghost names_before = texts(required@);
                proof {
                    let next = all.take(i + 1);
                    assert(next.drop_last() =~= all.take(i as int));
                    assert(next.last() == all[i as int]);
                }
                if str_eq(members[i].0.as_str(), "$ref") {
                    target = Some(members[i].1.clone());
                } else {
                    let schema = generate_schema(&members[i].1, false);
                    properties.push((members[i].0.clone(), schema));
                    required.push(members[i].0.clone());
                    proof {
                        assert(members_view(properties@) =~= before.push(
                            (all[i as int].0, inferred(all[i as int].1, false)),
                        ));
                        assert(texts(required@) =~= names_before.push(all[i as int].0));
                        assert(keys(members_view(properties@)) =~= keys(before).push(
                            all[i as int].0,
                        ));
                    }
                }
                i += 1;
            }
            assert(all.take(i as int) =~= all);
        },
        _ => {},
    }
    let sorted = sort_strings(&required);
    let mut names: Vec<Json> = Vec::new();
    let mut k: usize = 0;
    while k < sorted.len()
        invariant
            k <= sorted.len(),
            names@.len() == k,
            forall|j: int| 0 <= j < k ==> (#[trigger] names@[j])@ == JsonView::String(sorted@[j]@),
        decreases sorted.len() - k,
    {
        names.push(Json::String(sorted[k].clone()));
        k += 1;
    }
    let mut members: Vec<(String, Json)> = Vec::new();
    if outermost {
        members.push(member("$schema", Json::string(DRAFT_07)));
    }
    members.push(member("type", Json::string("object")));
    members.push(member("properties", Json::object(properties)));
    members.push(member("required", Json::array(names)));
    match target {
        Some(value) => {
            members.push(member("$ref", value));
        },
        None => {},
    }
    let r = Json::object(members);
    proof {
        assert(items_view(names@) =~= strings(sorted_texts(keys(property_schemas(all)))));
        assert(r@->Object_0 =~= inferred_object(instance@, outermost)->Object_0);
    }
    r
}

/// Infers the schema of an array from its items: the one schema that stands
/// for the schemas of them all.
pub fn generate_array_schema(arr: &Vec<Json>) -> (r: Json)
    ensures
        r@ == array_schema(item_schemas(items_view(arr@))),
        all_valid(items_view(arr@)) ==> r@.valid(),
    decreases arr, 0nat,
{
    proof {
        if all_valid(items_view(arr@)) {
            lemma_inferred_valid(JsonView::Array(items_view(arr@)), false);
        }
    }
    let ghost all = items_view(arr@);
    let mut schemas: Vec<Json> = Vec::new();
    let mut i: usize = 0;
    assert(items_view(schemas@) =~= item_schemas(all.take(0)));
    while i < arr.len()
        invariant
            all == items_view(arr@),
            i <= arr.len(),
            items_view(schemas@) == item_schemas(all.take(i as int)),
        decreases arr.len() - i,
    {
        let ghost before = items_view(schemas@);
        let schema = generate_schema(&arr[i], false);
        schemas.push(schema);
        proof {
            let next = all.take(i + 1);
            assert(next.drop_last() =~= all.take(i as int));
            assert(next.last() == all[i as int]);
            assert(items_view(schemas@) =~= before.push(inferred(all[i as int], false)));
        }
        i += 1;
    }
    assert(all.take(i as int) =~= all);
    let common = find_common_schema(schemas.as_slice());
    let mut members: Vec<(String, Json)> = Vec::new();
    members.push(member("type", Json::string("array")));
    members.push(member("items", common));
    let r = Json::object(members);
    assert(r@->Object_0 =~= array_schema(item_schemas(all))->Object_0);
    r
}

/// The one schema that stands for a list of schemas.
pub fn find_common_schema(schemas: &[Json]) -> (r: Json)
    ensures
        r@ == common_schema(items_view(schemas@)),
        all_valid(items_view(schemas@)) ==> r@.valid(),
{
    proof {
        if all_valid(items_view(schemas@)) {
            lemma_common_valid(items_view(schemas@));
        }
    }
    if schemas.len() == 0 {
        let r = Json::object(Vec::new());
        assert(r@->Object_0 =~= Seq::empty());
        return r;
    }
    let ghost all = items_view(schemas@);
    let mut common = schemas[0].clone();
    let mut i: usize = 1;
    while i < schemas.len()
        invariant
            1 <= i <= schemas.len(),
            all == items_view(schemas@),
            common@ == common_schema(all.take(i as int)),
        decreases schemas.len() - i,
    {
        common = merge_schemas(&common, &schemas[i]);
        proof {
            let next = all.take(i + 1);
            assert(next.drop_last() =~= all.take(i as int));
            assert(next.last() == all[i as int]);
        }
        i += 1;
    }
    assert(all.take(i as int) =~= all);
    common
}

/// Unifies two schemas into one.
pub fn merge_schemas(schema1: &Json, schema2: &Json) -> (r: Json)
    ensures
        r@ == merged(schema1@, schema2@),
        schema1@.valid() && schema2@.valid() ==> r@.valid(),
{
    proof {
        if schema1@.valid() && schema2@.valid() {
            lemma_merged_valid(schema1@, schema2@);
        }
    }
    if schema1.same_as(schema2) {
        return schema1.clone();
    }
    match (schema1, schema2) {
        (Json::Object(members1), Json::Object(members2)) => {
            proof {
                lemma_object_view(*members1);
                lemma_object_view(*members2);
            }
            match (find(members1, "type"), find(members2, "type")) {
                (Some(type1), Some(type2)) => {
                    if type1.same_as(type2) {
                        let mut members: Vec<(String, Json)> = Vec::new();
                        members.push(member("type", type1.clone()));
                        match (properties(members1), properties(members2)) {
                            (Some(properties1), Some(properties2)) => {
                                let mut all: Vec<(String, Json)> = Vec::new();
                                assert(members_view(all@) =~= Seq::empty());
                                put_members(&mut all, properties1);
                                put_members(&mut all, properties2);
                                members.push(member("properties", Json::object(all)));
                            },
                            _ => {},
                        }
                        let r = Json::object(members);
                        assert(r@->Object_0 =~= merged(schema1@, schema2@)->Object_0);
                        return r;
                    }
                },
                _ => {},
            }
        },
        _ => {},
    }
    let mut alternatives: Vec<Json> = Vec::new();
    alternatives.push(schema1.clone());
    alternatives.push(schema2.clone());
    let mut members: Vec<(String, Json)> = Vec::new();
    members.push(member("oneOf", Json::array(alternatives)));
    let r = Json::object(members);
    proof {
        assert(items_view(alternatives@) =~= seq![schema1@, schema2@]);
        assert(r@->Object_0 =~= one_of(schema1@, schema2@)->Object_0);
    }
    r
}

/// The mapping under `properties` of a schema, if it is an object that has
/// one.
fn properties<'a>(members: &'a Vec<(String, Json)>) -> (r: Option<&'a Vec<(String, Json)>>)
    ensures
        match r {
            Some(list) => properties_of(JsonView::Object(members_view(members@))) == Some(
                members_view(list@),
            ),
            None => properties_of(JsonView::Object(members_view(members@))) is None,
        },
{
    match find(members, "properties") {
        Some(Json::Object(list)) => {
            proof {
                lemma_object_view(*list);
            }
            Some(list)
        },
        _ => None,
    }
}

/// The schema `{"type": name}`.
pub fn type_schema(name: &str) -> (r: Json)
    ensures
        r@ == typed(name@),
{
    let mut members: Vec<(String, Json)> = Vec::new();
    members.push(member("type", Json::string(name)));
    let r = Json::object(members);
    assert(r@->Object_0 =~= typed(name@)->Object_0);
    r
}

} // verus!
