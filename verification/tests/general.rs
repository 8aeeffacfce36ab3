use json_schema_generator::{
    generate_array_schema, generate_json_schema, generate_object_schema, generate_schema,
    merge_schemas, type_schema, Json, Number,
};

const DRAFT_07: &str = "http://json-schema.org/draft-07/schema#";

fn text(s: &str) -> Json {
    Json::String(s.to_string())
}

fn integer(v: i64) -> Json {
    Json::Number(Number::from_i64(v))
}

fn float(v: f64) -> Json {
    Json::Number(Number::from_f64_bits(v.to_bits()))
}

fn array(items: Vec<Json>) -> Json {
    Json::Array(items)
}

fn object(members: Vec<(&str, Json)>) -> Json {
    Json::Object(
        members
            .into_iter()
            .map(|(key, value)| (key.to_string(), value))
            .collect(),
    )
}

fn typed(name: &str) -> Json {
    object(vec![("type", text(name))])
}

fn member<'a>(value: &'a Json, key: &str) -> Option<&'a Json> {
    match value {
        Json::Object(members) => members.iter().find(|(k, _)| k == key).map(|(_, v)| v),
        _ => None,
    }
}

/// The number of objects in a schema, at any depth through `properties`,
/// `items` and `oneOf`, that declare a dialect.
fn dialects(schema: &Json) -> usize {
    let mut count = 0;
    if member(schema, "$schema").is_some() {
        count += 1;
    }
    if let Some(Json::Object(properties)) = member(schema, "properties") {
        for (_, property) in properties {
            count += dialects(property);
        }
    }
    if let Some(items) = member(schema, "items") {
        count += dialects(items);
    }
    if let Some(Json::Array(alternatives)) = member(schema, "oneOf") {
        for alternative in alternatives {
            count += dialects(alternative);
        }
    }
    count
}

fn required_of(schema: &Json) -> Vec<String> {
    match member(schema, "required") {
        Some(Json::Array(names)) => names
            .iter()
            .map(|name| match name {
                Json::String(s) => s.clone(),
                _ => panic!("a required name is a string"),
            })
            .collect(),
        _ => panic!("an object schema has required names"),
    }
}

#[test]
fn scalar_types() {
    assert_eq!(generate_json_schema(&integer(0)), typed("integer"));
    assert_eq!(generate_json_schema(&integer(-7)), typed("integer"));
    assert_eq!(generate_json_schema(&integer(i64::MIN)), typed("integer"));
    assert_eq!(generate_json_schema(&integer(i64::MAX)), typed("integer"));
    assert_eq!(
        generate_json_schema(&Json::Number(Number::from_u64(i64::MAX as u64))),
        typed("integer")
    );
    assert_eq!(
        generate_json_schema(&Json::Number(Number::from_u64(i64::MAX as u64 + 1))),
        typed("number")
    );
    assert_eq!(
        generate_json_schema(&Json::Number(Number::from_u64(u64::MAX))),
        typed("number")
    );
    assert_eq!(generate_json_schema(&float(3.0)), typed("number"));
    assert_eq!(generate_json_schema(&float(-0.5)), typed("number"));
    assert_eq!(generate_json_schema(&float(1e300)), typed("number"));
    assert_eq!(generate_json_schema(&text("")), typed("string"));
    assert_eq!(generate_json_schema(&text("42")), typed("string"));
    assert_eq!(generate_json_schema(&Json::Bool(false)), typed("boolean"));
    assert_eq!(generate_json_schema(&Json::Null), typed("null"));
}

#[test]
fn scalar_schema_has_one_member() {
    for instance in [integer(1), float(1.5), text("a"), Json::Bool(true), Json::Null] {
        for outermost in [false, true] {
            match generate_schema(&instance, outermost) {
                Json::Object(members) => {
                    assert_eq!(members.len(), 1);
                    assert_eq!(members[0].0, "type");
                }
                _ => panic!("a schema is an object"),
            }
        }
    }
}

#[test]
fn type_schema_names_the_type() {
    assert_eq!(type_schema("integer"), typed("integer"));
    assert_ne!(type_schema("integer"), typed("number"));
}

#[test]
fn required_is_sorted_by_bytes() {
    let input = object(vec![
        ("b", Json::Null),
        ("a", Json::Null),
        ("B", Json::Null),
        ("ab", Json::Null),
        ("", Json::Null),
        ("é", Json::Null),
        ("z", Json::Null),
        ("10", Json::Null),
        ("9", Json::Null),
        ("\u{10000}", Json::Null),
        ("\u{ffff}", Json::Null),
    ]);
    let schema = generate_json_schema(&input);
    assert_eq!(
        required_of(&schema),
        vec!["", "10", "9", "B", "a", "ab", "b", "z", "é", "\u{ffff}", "\u{10000}"]
    );
}

#[test]
fn required_holds_each_key_but_the_reference_once() {
    let input = object(vec![
        ("zeta", integer(1)),
        ("$ref", text("#/definitions/x")),
        ("alpha", array(vec![])),
        ("$schema", text("kept")),
        ("properties", Json::Null),
    ]);
    let schema = generate_json_schema(&input);
    assert_eq!(
        required_of(&schema),
        vec!["$schema", "alpha", "properties", "zeta"]
    );
    match member(&schema, "properties") {
        Some(Json::Object(properties)) => {
            let keys: Vec<&str> = properties.iter().map(|(k, _)| k.as_str()).collect();
            assert_eq!(keys, vec!["zeta", "alpha", "$schema", "properties"]);
        }
        _ => panic!("properties is a mapping"),
    }
    assert_eq!(member(&schema, "$ref"), Some(&text("#/definitions/x")));
}

#[test]
fn reference_gives_no_property() {
    let input = object(vec![("$ref", object(vec![("a", integer(1))]))]);
    let schema = generate_json_schema(&input);
    assert_eq!(member(&schema, "properties"), Some(&object(vec![])));
    assert_eq!(required_of(&schema), Vec::<String>::new());
    assert_eq!(member(&schema, "$ref"), Some(&object(vec![("a", integer(1))])));
    let plain = generate_json_schema(&object(vec![("a", integer(1))]));
    assert_eq!(member(&plain, "$ref"), None);
}

#[test]
fn nested_reference_stays_with_its_object() {
    let input = object(vec![(
        "inner",
        object(vec![("$ref", text("#/x")), ("k", Json::Null)]),
    )]);
    let schema = generate_json_schema(&input);
    assert_eq!(member(&schema, "$ref"), None);
    let inner = match member(&schema, "properties") {
        Some(properties) => member(properties, "inner").unwrap(),
        None => panic!("properties is a mapping"),
    };
    assert_eq!(member(inner, "$ref"), Some(&text("#/x")));
    assert_eq!(required_of(inner), vec!["k"]);
}

#[test]
fn dialect_is_declared_once_by_an_outermost_object() {
    let input = object(vec![
        ("a", object(vec![("b", object(vec![("c", integer(1))]))])),
        (
            "list",
            array(vec![
                object(vec![("x", integer(1))]),
                object(vec![("y", text("s"))]),
                array(vec![object(vec![("z", Json::Null)])]),
                integer(3),
            ]),
        ),
    ]);
    let schema = generate_json_schema(&input);
    assert_eq!(dialects(&schema), 1);
    assert_eq!(member(&schema, "$schema"), Some(&text(DRAFT_07)));
    match &schema {
        Json::Object(members) => assert_eq!(members[0].0, "$schema"),
        _ => panic!("a schema is an object"),
    }
}

#[test]
fn dialect_is_not_declared_for_another_outermost_value() {
    let objects = array(vec![
        object(vec![("x", integer(1))]),
        object(vec![("x", integer(1))]),
    ]);
    let schema = generate_json_schema(&objects);
    assert_eq!(dialects(&schema), 0);
    let expected = object(vec![
        ("type", text("array")),
        (
            "items",
            object(vec![
                ("type", text("object")),
                ("properties", object(vec![("x", typed("integer"))])),
                ("required", array(vec![text("x")])),
            ]),
        ),
    ]);
    assert_eq!(schema, expected);
    assert_eq!(dialects(&generate_json_schema(&integer(1))), 0);
    assert_eq!(dialects(&generate_json_schema(&array(vec![]))), 0);
}

#[test]
fn a_part_declares_no_dialect() {
    let instance = object(vec![("a", object(vec![("b", integer(1))]))]);
    let part = generate_schema(&instance, false);
    assert_eq!(dialects(&part), 0);
    let whole = generate_schema(&instance, true);
    assert_eq!(whole, generate_json_schema(&instance));
    let (first, rest) = match &whole {
        Json::Object(members) => (members[0].clone(), members[1..].to_vec()),
        _ => panic!("a schema is an object"),
    };
    assert_eq!(first, ("$schema".to_string(), text(DRAFT_07)));
    match &part {
        Json::Object(members) => assert_eq!(*members, rest),
        _ => panic!("a schema is an object"),
    }
}

#[test]
fn object_schema_of_a_value_that_is_no_object() {
    let expected = object(vec![
        ("type", text("object")),
        ("properties", object(vec![])),
        ("required", array(vec![])),
    ]);
    assert_eq!(generate_object_schema(&integer(1), false), expected);
    assert_eq!(generate_object_schema(&array(vec![integer(1)]), false), expected);
    let outermost = generate_object_schema(&Json::Null, true);
    assert_eq!(member(&outermost, "$schema"), Some(&text(DRAFT_07)));
}

#[test]
fn array_schema_from_items() {
    let schema = generate_array_schema(&vec![integer(1), integer(2)]);
    assert_eq!(
        schema,
        object(vec![("type", text("array")), ("items", typed("integer"))])
    );
    assert_eq!(
        generate_array_schema(&Vec::new()),
        object(vec![("type", text("array")), ("items", object(vec![]))])
    );
}

#[test]
fn merge_is_idempotent() {
    let schemas = vec![
        typed("string"),
        object(vec![]),
        object(vec![("oneOf", array(vec![typed("a"), typed("b")]))]),
        generate_json_schema(&object(vec![
            ("a", array(vec![integer(1), text("x")])),
            ("$ref", float(0.0)),
        ])),
        generate_json_schema(&array(vec![object(vec![("k", Json::Null)])])),
    ];
    for schema in &schemas {
        assert_eq!(merge_schemas(schema, schema), *schema);
    }
}

#[test]
fn merge_of_identical_schemas_returns_the_first() {
    let schema1 = object(vec![
        ("type", text("object")),
        ("properties", object(vec![("a", typed("string")), ("b", typed("null"))])),
    ]);
    let schema2 = object(vec![
        ("properties", object(vec![("b", typed("null")), ("a", typed("string"))])),
        ("type", text("object")),
    ]);
    let merged = merge_schemas(&schema1, &schema2);
    match (&merged, &schema1) {
        (Json::Object(got), Json::Object(first)) => {
            let got: Vec<&str> = got.iter().map(|(k, _)| k.as_str()).collect();
            let first: Vec<&str> = first.iter().map(|(k, _)| k.as_str()).collect();
            assert_eq!(got, first);
        }
        _ => panic!("a schema is an object"),
    }
}

#[test]
fn merge_of_differing_types_gives_alternatives_in_order() {
    let names = ["string", "integer", "number", "boolean", "null", "array", "object"];
    for first in names {
        for second in names {
            let merged = merge_schemas(&typed(first), &typed(second));
            if first == second {
                assert_eq!(merged, typed(first));
            } else {
                match &merged {
                    Json::Object(members) => {
                        assert_eq!(members.len(), 1);
                        assert_eq!(members[0].0, "oneOf");
                        match &members[0].1 {
                            Json::Array(alternatives) => {
                                assert_eq!(alternatives.len(), 2);
                                assert_eq!(alternatives[0], typed(first));
                                assert_eq!(alternatives[1], typed(second));
                            }
                            _ => panic!("alternatives are a list"),
                        }
                    }
                    _ => panic!("a unification is an object"),
                }
            }
        }
    }
}

#[test]
fn merge_of_a_typed_and_an_untyped_schema_gives_alternatives() {
    let untyped = object(vec![("oneOf", array(vec![typed("integer"), typed("string")]))]);
    let expected = object(vec![(
        "oneOf",
        array(vec![untyped.clone(), typed("number")]),
    )]);
    assert_eq!(merge_schemas(&untyped, &typed("number")), expected);
    let reversed = object(vec![(
        "oneOf",
        array(vec![typed("number"), untyped.clone()]),
    )]);
    assert_eq!(merge_schemas(&typed("number"), &untyped), reversed);
}
