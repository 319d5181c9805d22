use nautilus::ast::Value;
use nautilus::hydrate::{
    build_include_values, ends_with_json, group_key, plain_json, push_json_text, row_to_json_value,
    GroupKey,
};
use nautilus::json::{Json, JsonNumber};
use nautilus::model::{IncludeProjection, Row};

fn child_row(fk: i64, title: &str) -> Row {
    Row {
        columns: vec![
            ("blog_posts__title".to_string(), Value::String(title.to_string())),
            ("blog_posts__author_id".to_string(), Value::I64(fk)),
        ],
    }
}

fn test_projection() -> IncludeProjection {
    IncludeProjection::new(vec![
        ("blog_posts__title".to_string(), "title".to_string()),
        ("blog_posts__author_id".to_string(), "authorId".to_string()),
    ])
}

fn member<'a>(object: &'a Json, key: &str) -> &'a Json {
    match object {
        Json::Object(entries) => {
            &entries.iter().find(|(k, _)| k == key).expect("member should be present").1
        }
        other => panic!("expected an object, got {:?}", other),
    }
}

fn text(s: &str) -> Json {
    Json::String(s.to_string())
}

#[test]
fn group_key_normalizes_integer_widths() {
    assert_eq!(group_key(&Value::I32(5)), group_key(&Value::I64(5)));
    assert_ne!(group_key(&Value::I64(5)), group_key(&Value::I64(6)));
    assert_ne!(group_key(&Value::I64(5)), group_key(&Value::String("5".to_string())));
}

#[test]
fn group_key_matches_enum_and_string_variants() {
    assert_eq!(
        group_key(&Value::Enum { value: "ADMIN".to_string(), sql_type: "role".to_string() }),
        group_key(&Value::String("ADMIN".to_string()))
    );
}

#[test]
fn build_include_values_groups_children_per_parent() {
    let row_keys = vec![Some(GroupKey::Int(1)), None, Some(GroupKey::Int(2)), Some(GroupKey::Int(3))];
    let child_rows = vec![child_row(1, "a1"), child_row(1, "a2"), child_row(3, "c1")];

    let values = build_include_values(row_keys, &child_rows, "blog_posts__author_id", &test_projection(), true);

    assert_eq!(values.len(), 4);
    let Value::Json(Json::Array(first)) = &values[0] else {
        panic!("array relation should produce a JSON array, got {:?}", values[0]);
    };
    assert_eq!(first.len(), 2);
    assert_eq!(member(&first[0], "title"), &text("a1"));
    assert_eq!(member(&first[0], "authorId"), &Json::Number(JsonNumber::PosInt(1)));
    assert_eq!(values[1], Value::Json(Json::Array(vec![])));
    assert_eq!(values[2], Value::Json(Json::Array(vec![])));
    let Value::Json(Json::Array(last)) = &values[3] else {
        panic!("array relation should produce a JSON array, got {:?}", values[3]);
    };
    assert_eq!(last.len(), 1);
    assert_eq!(member(&last[0], "title"), &text("c1"));
}

#[test]
fn build_include_values_duplicates_children_for_shared_keys() {
    let row_keys = vec![Some(GroupKey::Int(1)), Some(GroupKey::Int(1))];
    let child_rows = vec![child_row(1, "a1"), child_row(1, "a2")];

    let values = build_include_values(row_keys, &child_rows, "blog_posts__author_id", &test_projection(), true);

    for value in &values {
        let Value::Json(Json::Array(children)) = value else {
            panic!("array relation should produce a JSON array, got {value:?}");
        };
        assert_eq!(children.len(), 2);
    }
}

#[test]
fn build_include_values_takes_first_child_for_to_one_relations() {
    let row_keys = vec![Some(GroupKey::Int(1)), Some(GroupKey::Int(2))];
    let child_rows = vec![child_row(1, "first"), child_row(1, "second")];

    let values = build_include_values(row_keys, &child_rows, "blog_posts__author_id", &test_projection(), false);

    let Value::Json(obj) = &values[0] else {
        panic!("to-one relation should produce a JSON object, got {:?}", values[0]);
    };
    assert_eq!(member(obj, "title"), &text("first"));
    assert_eq!(values[1], Value::Null);
}

#[test]
fn child_rows_become_objects_in_key_order_with_nested_payloads() {
    let row = Row {
        columns: vec![
            ("blog_posts__title".to_string(), Value::String("t".to_string())),
            ("blog_posts__author_id".to_string(), Value::I32(-4)),
            ("comments_json".to_string(), Value::Json(Json::Array(vec![]))),
            ("other".to_string(), Value::Bool(true)),
        ],
    };
    assert_eq!(
        row_to_json_value(&test_projection(), &row),
        Json::Object(vec![
            ("authorId".to_string(), Json::Number(JsonNumber::NegInt(-4))),
            ("comments_json".to_string(), Json::Array(vec![])),
            ("title".to_string(), text("t")),
        ])
    );
    assert!(ends_with_json("comments_json"));
    assert!(!ends_with_json("json"));
    assert!(!ends_with_json("comments_jsonx"));
}

#[test]
fn other_values_group_by_their_json_text() {
    assert_eq!(group_key(&Value::Bool(true)), GroupKey::Str("true".to_string()));
    assert_eq!(group_key(&Value::Null), GroupKey::Str("null".to_string()));
    assert_eq!(
        group_key(&Value::Decimal("1.5".to_string())),
        GroupKey::Str("\"1.5\"".to_string())
    );
    assert_eq!(
        group_key(&Value::Array(vec![Value::I32(1), Value::String("a\"b\n".to_string())])),
        GroupKey::Str("[1,\"a\\\"b\\n\"]".to_string())
    );
    assert_eq!(
        group_key(&Value::Uuid(0x550e8400e29b41d4a716446655440000)),
        GroupKey::Uuid(0x550e8400e29b41d4a716446655440000)
    );
}

#[test]
fn json_text_is_compact_and_escapes_control_characters() {
    let j = Json::Object(vec![
        ("k".to_string(), Json::Array(vec![Json::Null, Json::Bool(false), text("\u{1}")])),
        ("n".to_string(), Json::Number(JsonNumber::NegInt(-12))),
    ]);
    let mut out = String::new();
    push_json_text(&mut out, &j);
    assert_eq!(out, "{\"k\":[null,false,\"\\u0001\"],\"n\":-12}");
}

#[test]
fn plain_forms_of_values() {
    assert_eq!(
        plain_json(&Value::Uuid(0x550e8400e29b41d4a716446655440000)),
        text("550e8400-e29b-41d4-a716-446655440000")
    );
    assert_eq!(plain_json(&Value::F64(f64::NAN.to_bits())), Json::Null);
    assert_eq!(
        plain_json(&Value::F64(2.5f64.to_bits())),
        Json::Number(JsonNumber::Float(2.5f64.to_bits()))
    );
    assert_eq!(
        plain_json(&Value::Bytes(vec![7, 255])),
        Json::Array(vec![Json::Number(JsonNumber::PosInt(7)), Json::Number(JsonNumber::PosInt(255))])
    );
    assert_eq!(
        plain_json(&Value::Hstore(vec![("a".to_string(), None), ("b".to_string(), Some("x".to_string()))])),
        Json::Object(vec![("a".to_string(), Json::Null), ("b".to_string(), text("x"))])
    );
}
