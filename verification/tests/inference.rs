use json_schema_generator::{
    find_common_schema, generate_json_schema, merge_schemas, Json, Number,
};

const DRAFT_07: &str = "http://json-schema.org/draft-07/schema#";

fn text(s: &str) -> Json {
    Json::String(s.to_string())
}

fn integer(v: i64) -> Json {
    Json::Number(Number::from_i64(v))
}

fn float(v: f64) -> Json {
    Json::Number(Number::from_f64_bits(v.to_bits()))
}

fn array(items: Vec<Json>) -> Json {
    Json::Array(items)
}

fn object(members: Vec<(&str, Json)>) -> Json {
    Json::Object(
        members
            .into_iter()
            .map(|(key, value)| (key.to_string(), value))
            .collect(),
    )
}

fn typed(name: &str) -> Json {
    object(vec![("type", text(name))])
}

#[test]
fn test_generate_json_schema_string() {
    let input = text("test");
    let expected = typed("string");
    assert_eq!(generate_json_schema(&input), expected);
}

#[test]
fn test_generate_json_schema_integer() {
    let input = integer(42);
    let expected = typed("integer");
    assert_eq!(generate_json_schema(&input), expected);
}

#[test]
fn test_generate_json_schema_number() {
    let input = float(3.14);
    let expected = typed("number");
    assert_eq!(generate_json_schema(&input), expected);
}

#[test]
fn test_generate_json_schema_boolean() {
    let input = Json::Bool(true);
    let expected = typed("boolean");
    assert_eq!(generate_json_schema(&input), expected);
}

#[test]
fn test_generate_json_schema_null() {
    let input = Json::Null;
    let expected = typed("null");
    assert_eq!(generate_json_schema(&input), expected);
}

#[test]
fn test_generate_object_schema() {
    let input = object(vec![
        ("name", text("John Doe")),
        ("age", integer(30)),
        ("is_student", Json::Bool(false)),
    ]);
    let expected = object(vec![
        ("$schema", text(DRAFT_07)),
        ("type", text("object")),
        (
            "properties",
            object(vec![
                ("name", typed("string")),
                ("age", typed("integer")),
                ("is_student", typed("boolean")),
            ]),
        ),
        (
            "required",
            array(vec![text("age"), text("is_student"), text("name")]),
        ),
    ]);
    assert_eq!(generate_json_schema(&input), expected);
}

#[test]
fn test_generate_array_schema() {
    let input = array(vec![integer(1), integer(2), integer(3)]);
    let expected = object(vec![("type", text("array")), ("items", typed("integer"))]);
    assert_eq!(generate_json_schema(&input), expected);
}

#[test]
fn test_generate_array_schema_mixed_types() {
    let input = array(vec![integer(1), text("two"), float(3.0)]);
    let expected = object(vec![
        ("type", text("array")),
        (
            "items",
            object(vec![(
                "oneOf",
                array(vec![
                    object(vec![(
                        "oneOf",
                        array(vec![typed("integer"), typed("string")]),
                    )]),
                    typed("number"),
                ]),
            )]),
        ),
    ]);
    assert_eq!(generate_json_schema(&input), expected);
}

#[test]
fn test_generate_array_schema_empty() {
    let input = array(vec![]);
    let expected = object(vec![("type", text("array")), ("items", object(vec![]))]);
    assert_eq!(generate_json_schema(&input), expected);
}

#[test]
fn test_find_common_schema() {
    let schemas = vec![typed("integer"), typed("string"), typed("boolean")];
    let expected = object(vec![(
        "oneOf",
        array(vec![
            object(vec![(
                "oneOf",
                array(vec![typed("integer"), typed("string")]),
            )]),
            typed("boolean"),
        ]),
    )]);
    assert_eq!(find_common_schema(&schemas), expected);
}

#[test]
fn test_merge_schemas_same_type() {
    let schema1 = object(vec![
        ("type", text("object")),
        ("properties", object(vec![("a", typed("string"))])),
    ]);
    let schema2 = object(vec![
        ("type", text("object")),
        ("properties", object(vec![("b", typed("integer"))])),
    ]);
    let expected = object(vec![
        ("type", text("object")),
        (
            "properties",
            object(vec![("a", typed("string")), ("b", typed("integer"))]),
        ),
    ]);
    assert_eq!(merge_schemas(&schema1, &schema2), expected);
}

#[test]
fn test_merge_schemas_different_types() {
    let schema1 = typed("string");
    let schema2 = typed("integer");
    let expected = object(vec![(
        "oneOf",
        array(vec![typed("string"), typed("integer")]),
    )]);
    assert_eq!(merge_schemas(&schema1, &schema2), expected);
}

#[test]
fn test_generate_schema_with_ref() {
    let input = object(vec![
        ("$ref", text("#/definitions/address")),
        (
            "address",
            object(vec![("street", text("123 Main St")), ("city", text("New York"))]),
        ),
    ]);
    let expected = object(vec![
        ("$schema", text(DRAFT_07)),
        ("type", text("object")),
        (
            "properties",
            object(vec![(
                "address",
                object(vec![
                    ("type", text("object")),
                    (
                        "properties",
                        object(vec![("street", typed("string")), ("city", typed("string"))]),
                    ),
                    ("required", array(vec![text("city"), text("street")])),
                ]),
            )]),
        ),
        ("required", array(vec![text("address")])),
        ("$ref", text("#/definitions/address")),
    ]);
    assert_eq!(generate_json_schema(&input), expected);
}

fn keys_of(value: &Json) -> Vec<String> {
    match value {
        Json::Object(members) => members.iter().map(|(key, _)| key.clone()).collect(),
        _ => Vec::new(),
    }
}

#[test]
fn end_to_end_example() {
    let input = object(vec![("name", text("John")), ("age", integer(30))]);
    let expected = object(vec![
        ("$schema", text(DRAFT_07)),
        ("type", text("object")),
        (
            "properties",
            object(vec![("name", typed("string")), ("age", typed("integer"))]),
        ),
        ("required", array(vec![text("age"), text("name")])),
    ]);
    let schema = generate_json_schema(&input);
    assert_eq!(schema, expected);
    assert_eq!(keys_of(&schema), vec!["$schema", "type", "properties", "required"]);
    match &schema {
        Json::Object(members) => {
            assert_eq!(keys_of(&members[2].1), vec!["name", "age"]);
        }
        _ => panic!("the schema of an object is an object"),
    }
}

#[test]
fn reference_example() {
    let input = object(vec![
        ("$ref", text("#/definitions/address")),
        ("address", object(vec![("street", text("a")), ("city", text("b"))])),
    ]);
    let schema = generate_json_schema(&input);
    let members = match &schema {
        Json::Object(members) => members,
        _ => panic!("the schema of an object is an object"),
    };
    assert_eq!(
        keys_of(&schema),
        vec!["$schema", "type", "properties", "required", "$ref"]
    );
    assert_eq!(members[4].1, text("#/definitions/address"));
    assert_eq!(members[3].1, array(vec![text("address")]));
    let address = match &members[2].1 {
        Json::Object(properties) => {
            assert_eq!(properties.len(), 1);
            assert_eq!(properties[0].0, "address");
            &properties[0].1
        }
        _ => panic!("properties is a mapping"),
    };
    assert_eq!(keys_of(address), vec!["type", "properties", "required"]);
    assert_eq!(
        *address,
        object(vec![
            ("type", text("object")),
            (
                "properties",
                object(vec![("street", typed("string")), ("city", typed("string"))]),
            ),
            ("required", array(vec![text("city"), text("street")])),
        ])
    );
}

#[test]
fn object_without_members() {
    let schema = generate_json_schema(&object(vec![]));
    let expected = object(vec![
        ("$schema", text(DRAFT_07)),
        ("type", text("object")),
        ("properties", object(vec![])),
        ("required", array(vec![])),
    ]);
    assert_eq!(schema, expected);
}

#[test]
fn reference_value_is_copied_as_it_is() {
    let target = object(vec![
        ("$schema", integer(1)),
        ("list", array(vec![float(0.5), Json::Null])),
    ]);
    let input = object(vec![("$ref", target.clone())]);
    let schema = generate_json_schema(&input);
    let expected = object(vec![
        ("$schema", text(DRAFT_07)),
        ("type", text("object")),
        ("properties", object(vec![])),
        ("required", array(vec![])),
        ("$ref", target),
    ]);
    assert_eq!(schema, expected);
}

#[test]
fn nested_empty_array() {
    let input = object(vec![("tags", array(vec![]))]);
    let expected = object(vec![
        ("$schema", text(DRAFT_07)),
        ("type", text("object")),
        (
            "properties",
            object(vec![(
                "tags",
                object(vec![("type", text("array")), ("items", object(vec![]))]),
            )]),
        ),
        ("required", array(vec![text("tags")])),
    ]);
    assert_eq!(generate_json_schema(&input), expected);
}

#[test]
fn array_of_objects_unifies_their_properties() {
    let input = array(vec![
        object(vec![("a", integer(1)), ("b", text("x"))]),
        object(vec![("b", integer(2)), ("c", Json::Bool(true))]),
    ]);
    let expected = object(vec![
        ("type", text("array")),
        (
            "items",
            object(vec![
                ("type", text("object")),
                (
                    "properties",
                    object(vec![
                        ("a", typed("integer")),
                        ("b", typed("integer")),
                        ("c", typed("boolean")),
                    ]),
                ),
            ]),
        ),
    ]);
    let schema = generate_json_schema(&input);
    assert_eq!(schema, expected);
    match &schema {
        Json::Object(members) => match &members[1].1 {
            Json::Object(items) => {
                assert_eq!(keys_of(&members[1].1), vec!["type", "properties"]);
                assert_eq!(keys_of(&items[1].1), vec!["a", "b", "c"]);
            }
            _ => panic!("items is a schema"),
        },
        _ => panic!("the schema of an array is an object"),
    }
}

#[test]
fn array_of_identical_objects_keeps_required() {
    let input = array(vec![
        object(vec![("a", integer(1))]),
        object(vec![("a", integer(2))]),
    ]);
    let expected = object(vec![
        ("type", text("array")),
        (
            "items",
            object(vec![
                ("type", text("object")),
                ("properties", object(vec![("a", typed("integer"))])),
                ("required", array(vec![text("a")])),
            ]),
        ),
    ]);
    assert_eq!(generate_json_schema(&input), expected);
}

#[test]
fn array_of_arrays_unifies_one_level_deep() {
    let input = array(vec![array(vec![integer(1)]), array(vec![text("a")])]);
    let expected = object(vec![
        ("type", text("array")),
        ("items", object(vec![("type", text("array"))])),
    ]);
    assert_eq!(generate_json_schema(&input), expected);
}

#[test]
fn find_common_schema_of_none_is_the_empty_schema() {
    let schemas: Vec<Json> = Vec::new();
    assert_eq!(find_common_schema(&schemas), object(vec![]));
}

#[test]
fn find_common_schema_of_one_is_that_schema() {
    let schemas = vec![typed("string")];
    assert_eq!(find_common_schema(&schemas), typed("string"));
}

#[test]
fn find_common_schema_drops_repeated_schemas() {
    let schemas = vec![typed("string"), typed("string"), typed("string")];
    assert_eq!(find_common_schema(&schemas), typed("string"));
}

#[test]
fn merge_overwrites_a_property_of_the_same_name() {
    let schema1 = object(vec![
        ("type", text("object")),
        (
            "properties",
            object(vec![("a", typed("string")), ("b", typed("string"))]),
        ),
        ("required", array(vec![text("a"), text("b")])),
    ]);
    let schema2 = object(vec![
        ("type", text("object")),
        (
            "properties",
            object(vec![("c", typed("null")), ("a", typed("integer"))]),
        ),
        ("required", array(vec![text("a"), text("c")])),
    ]);
    let merged = merge_schemas(&schema1, &schema2);
    let expected = object(vec![
        ("type", text("object")),
        (
            "properties",
            object(vec![
                ("a", typed("integer")),
                ("b", typed("string")),
                ("c", typed("null")),
            ]),
        ),
    ]);
    assert_eq!(merged, expected);
    assert_eq!(keys_of(&merged), vec!["type", "properties"]);
    match &merged {
        Json::Object(members) => assert_eq!(keys_of(&members[1].1), vec!["a", "b", "c"]),
        _ => panic!("a unification is an object"),
    }
}

#[test]
fn merge_does_not_unify_below_the_first_level() {
    let schema1 = object(vec![
        ("type", text("object")),
        (
            "properties",
            object(vec![(
                "a",
                object(vec![
                    ("type", text("object")),
                    ("properties", object(vec![("x", typed("string"))])),
                ]),
            )]),
        ),
    ]);
    let second = object(vec![
        ("type", text("object")),
        ("properties", object(vec![("y", typed("integer"))])),
    ]);
    let schema2 = object(vec![
        ("type", text("object")),
        ("properties", object(vec![("a", second.clone())])),
    ]);
    let expected = object(vec![
        ("type", text("object")),
        ("properties", object(vec![("a", second)])),
    ]);
    assert_eq!(merge_schemas(&schema1, &schema2), expected);
}

#[test]
fn merge_keeps_the_type_alone_where_one_side_has_no_properties() {
    let schema1 = object(vec![
        ("type", text("array")),
        ("items", typed("integer")),
    ]);
    let schema2 = object(vec![("type", text("array")), ("items", typed("string"))]);
    assert_eq!(merge_schemas(&schema1, &schema2), typed("array"));

    let with = object(vec![
        ("type", text("object")),
        ("properties", object(vec![("a", typed("string"))])),
    ]);
    let without = object(vec![("type", text("object")), ("title", text("t"))]);
    assert_eq!(merge_schemas(&with, &without), typed("object"));
    assert_eq!(merge_schemas(&without, &with), typed("object"));
}

#[test]
fn merge_of_schemas_without_type_gives_alternatives() {
    let schema1 = object(vec![("oneOf", array(vec![typed("string"), typed("null")]))]);
    let schema2 = object(vec![("oneOf", array(vec![typed("integer"), typed("null")]))]);
    let expected = object(vec![("oneOf", array(vec![schema1.clone(), schema2.clone()]))]);
    assert_eq!(merge_schemas(&schema1, &schema2), expected);
}

#[test]
fn merge_of_values_that_are_no_objects_gives_alternatives() {
    let expected = object(vec![("oneOf", array(vec![integer(1), text("a")]))]);
    assert_eq!(merge_schemas(&integer(1), &text("a")), expected);
    assert_eq!(merge_schemas(&integer(1), &integer(1)), integer(1));
}

#[test]
fn merge_ignores_properties_that_are_no_mapping() {
    let schema1 = object(vec![("type", text("object")), ("properties", integer(1))]);
    let schema2 = object(vec![
        ("type", text("object")),
        ("properties", object(vec![("a", typed("string"))])),
    ]);
    assert_eq!(merge_schemas(&schema1, &schema2), typed("object"));
}
