use nautilus::ast::Value;
use nautilus::inverse::{inverse_write_steps, settle, ChildStep};
use nautilus::json::{Json, JsonNumber};
use nautilus::model::{ModelIr, Row};
use nautilus::nested_plan::NestedWrite;
use nautilus::protocol::ProtocolError;
use nautilus::relation::{RelationBinding, RelationSide};

fn user() -> ModelIr {
    ModelIr {
        logical_name: "User".to_string(),
        db_name: "users".to_string(),
        fields: vec![],
        primary_key: vec!["id".to_string()],
        unique_constraints: vec![],
    }
}

fn binding() -> RelationBinding {
    RelationBinding {
        target_model: "Post".to_string(),
        side: RelationSide::Inverse,
        foreign_keys: vec!["authorId".to_string()],
        referenced: vec!["id".to_string()],
        via: None,
    }
}

fn member(k: &str, v: Json) -> (String, Json) {
    (k.to_string(), v)
}

fn num(n: u64) -> Json {
    Json::Number(JsonNumber::PosInt(n))
}

fn link() -> Json {
    Json::Object(vec![member("authorId", num(7))])
}

fn parent() -> Row {
    Row { columns: vec![("users__id".to_string(), Value::I64(7))] }
}

fn mapping() -> Vec<(String, String)> {
    vec![("id".to_string(), "id".to_string())]
}

fn not_found(op: &str) -> ProtocolError {
    ProtocolError::RecordNotFound(format!("Nested {} on 'posts' matched no 'Post' record", op))
}

#[test]
fn inverse_writes_are_planned_against_the_parent_link() {
    let create = Json::Object(vec![member("title", Json::String("A".to_string()))]);
    let disconnect = Json::Bool(true);
    let delete = Json::Array(vec![Json::Object(vec![member("id", num(3))])]);
    let other = Json::Null;
    let write = NestedWrite {
        field_name: "posts",
        binding: binding(),
        operations: vec![("create", &create), ("disconnect", &disconnect), ("delete", &delete), ("frobnicate", &other)],
    };
    let steps = inverse_write_steps(&mapping(), &user(), &write, &parent()).unwrap();
    assert_eq!(
        steps,
        vec![
            ChildStep::Create {
                data: Json::Object(vec![member("title", Json::String("A".to_string())), member("authorId", num(7))])
            },
            ChildStep::Update { filter: link(), data: Json::Object(vec![member("authorId", Json::Null)]), missing: None },
            ChildStep::Delete {
                filter: Json::Object(vec![member(
                    "AND",
                    Json::Array(vec![link(), Json::Object(vec![member("id", num(3))])])
                )]),
                missing: Some(not_found("delete")),
            },
            ChildStep::Fail(ProtocolError::UnsupportedOperation(
                "Nested 'frobnicate' is not available on 'User.posts'".to_string()
            )),
        ]
    );
}

#[test]
fn connect_or_create_waits_for_the_lookup() {
    let item = Json::Object(vec![
        member("create", Json::Object(vec![member("title", Json::String("B".to_string()))])),
        member("where", Json::Object(vec![member("id", num(5))])),
    ]);
    let write = NestedWrite { field_name: "posts", binding: binding(), operations: vec![("connectOrCreate", &item)] };
    let mut steps = inverse_write_steps(&mapping(), &user(), &write, &parent()).unwrap();
    assert_eq!(steps.len(), 1);
    let step = steps.remove(0);
    let found = ChildStep::Update {
        filter: Json::Object(vec![member("id", num(5))]),
        data: link(),
        missing: Some(not_found("connect")),
    };
    let created = ChildStep::Create {
        data: Json::Object(vec![member("title", Json::String("B".to_string())), member("authorId", num(7))]),
    };
    let again = inverse_write_steps(&mapping(), &user(), &write, &parent()).unwrap().remove(0);
    assert_eq!(step.resolve(true), found);
    assert_eq!(again.resolve(false), created);
}

#[test]
fn update_items_are_scoped_and_required() {
    let item = Json::Object(vec![
        member("data", Json::Object(vec![member("title", Json::String("C".to_string()))])),
        member("where", Json::Object(vec![member("id", num(2))])),
    ]);
    let bad = Json::Array(vec![Json::Object(vec![])]);
    let write = NestedWrite {
        field_name: "posts",
        binding: binding(),
        operations: vec![("update", &item), ("updateMany", &bad)],
    };
    let steps = inverse_write_steps(&mapping(), &user(), &write, &parent()).unwrap();
    assert_eq!(
        steps,
        vec![
            ChildStep::Update {
                filter: Json::Object(vec![member(
                    "AND",
                    Json::Array(vec![link(), Json::Object(vec![member("id", num(2))])])
                )]),
                data: Json::Object(vec![member("title", Json::String("C".to_string()))]),
                missing: Some(not_found("update")),
            },
            ChildStep::Fail(ProtocolError::InvalidParams("updateMany needs a 'data' entry".to_string())),
        ]
    );
}

#[test]
fn planning_needs_the_parent_key() {
    let payload = Json::Null;
    let write = NestedWrite { field_name: "posts", binding: binding(), operations: vec![("disconnect", &payload)] };
    assert_eq!(
        inverse_write_steps(&mapping(), &user(), &write, &Row { columns: vec![] }).err(),
        Some(ProtocolError::Internal("Nested write could not read 'User.id' back from the written row".to_string()))
    );
}

#[test]
fn a_required_write_that_matched_nothing_is_refused() {
    assert_eq!(settle(Some(not_found("update")), 0), Err(not_found("update")));
    assert_eq!(settle(Some(not_found("update")), 2), Ok(()));
    assert_eq!(settle(None, 0), Ok(()));
}
