use nautilus::ast::Value;
use nautilus::join_writes::{link_row, linked_filter, many_to_many_steps, member_filter, unlink_filter, JoinStep};
use nautilus::json::{Json, JsonNumber};
use nautilus::model::{ManyToManyJoinIr, ModelIr};
use nautilus::nested_plan::NestedWrite;
use nautilus::protocol::ProtocolError;
use nautilus::relation::{RelationBinding, RelationSide};

fn post() -> ModelIr {
    ModelIr {
        logical_name: "Post".to_string(),
        db_name: "posts".to_string(),
        fields: vec![],
        primary_key: vec!["id".to_string()],
        unique_constraints: vec![],
    }
}

fn join() -> ManyToManyJoinIr {
    ManyToManyJoinIr {
        table: "_PostTags".to_string(),
        self_column: "A".to_string(),
        target_column: "B".to_string(),
        self_reference: "id".to_string(),
        target_reference: "id".to_string(),
    }
}

fn binding() -> RelationBinding {
    RelationBinding {
        target_model: "Tag".to_string(),
        side: RelationSide::ManyToMany,
        foreign_keys: vec![],
        referenced: vec!["id".to_string()],
        via: Some(join()),
    }
}

fn member(k: &str, v: Json) -> (String, Json) {
    (k.to_string(), v)
}

fn num(n: u64) -> Json {
    Json::Number(JsonNumber::PosInt(n))
}

fn id(n: u64) -> Json {
    Json::Object(vec![member("id", num(n))])
}

#[test]
fn many_to_many_operations_become_join_steps() {
    let create = Json::Object(vec![member("name", Json::String("rust".to_string()))]);
    let connect = Json::Array(vec![id(1), id(2)]);
    let set = Json::Array(vec![id(3)]);
    let delete = Json::Array(vec![id(4)]);
    let bad = Json::Null;
    let write = NestedWrite {
        field_name: "tags",
        binding: binding(),
        operations: vec![("create", &create), ("connect", &connect), ("set", &set), ("delete", &delete), ("attach", &bad)],
    };
    let missing = |op: &str| ProtocolError::RecordNotFound(format!("Nested {} on 'tags' matched no 'Tag' record", op));
    assert_eq!(
        many_to_many_steps(&post(), &write),
        vec![
            JoinStep::Create { data: Json::Object(vec![member("name", Json::String("rust".to_string()))]) },
            JoinStep::Connect { filter: id(1), missing: missing("connect") },
            JoinStep::Connect { filter: id(2), missing: missing("connect") },
            JoinStep::UnlinkAll,
            JoinStep::Connect { filter: id(3), missing: missing("connect") },
            JoinStep::Delete { narrowing: Some(id(4)), missing: Some(missing("delete")) },
            JoinStep::Fail(ProtocolError::UnsupportedOperation("Nested 'attach' is not available on 'Post.tags'".to_string())),
        ]
    );
}

#[test]
fn removals_and_updates_narrow_the_current_members() {
    let all = Json::Bool(true);
    let update = Json::Object(vec![member("data", Json::Object(vec![])), member("where", id(9))]);
    let cc = Json::Object(vec![member("where", id(5))]);
    let write = NestedWrite {
        field_name: "tags",
        binding: binding(),
        operations: vec![("disconnect", &all), ("updateMany", &update), ("connectOrCreate", &cc)],
    };
    assert_eq!(
        many_to_many_steps(&post(), &write),
        vec![
            JoinStep::Unlink { narrowing: None },
            JoinStep::Update { narrowing: Some(id(9)), data: Json::Object(vec![]), missing: None },
            JoinStep::ConnectOrCreate {
                find: id(5),
                create: Err(ProtocolError::InvalidParams("connectOrCreate needs a 'create' entry".to_string())),
            },
        ]
    );
}

#[test]
fn join_table_filters_and_rows() {
    let parent = Value::I64(7);
    assert_eq!(linked_filter(&join(), &parent), Json::Object(vec![member("A", num(7))]));
    assert_eq!(link_row(&join(), &parent, &Value::I32(3)), Json::Object(vec![member("A", num(7)), member("B", num(3))]));
    assert_eq!(
        member_filter(&join(), &[num(1), num(2)]),
        Json::Object(vec![member("id", Json::Object(vec![member("in", Json::Array(vec![num(1), num(2)]))]))])
    );
    assert_eq!(unlink_filter(&join(), &parent, &[]), None);
    assert_eq!(
        unlink_filter(&join(), &parent, &[Value::I32(3)]),
        Some(Json::Object(vec![
            member("A", num(7)),
            member("B", Json::Object(vec![member("in", Json::Array(vec![num(3)]))])),
        ]))
    );
}
