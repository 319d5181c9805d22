use nautilus::conversion::{ResolvedFieldType, ScalarType};
use nautilus::json::{Json, JsonNumber};
use nautilus::model::{FieldIr, ModelIr};
use nautilus::nested_plan::parse_operations;
use nautilus::protocol::ProtocolError;

fn user() -> ModelIr {
    ModelIr {
        logical_name: "User".to_string(),
        db_name: "users".to_string(),
        fields: vec![],
        primary_key: vec!["id".to_string()],
        unique_constraints: vec![],
    }
}

fn posts() -> FieldIr {
    FieldIr {
        logical_name: "posts".to_string(),
        db_name: "posts".to_string(),
        field_type: ResolvedFieldType::Relation(nautilus::model::RelationIr { name: None, target_model: "Other".to_string(), fields: vec![], references: vec![], join: None }),
        is_array: true,
        is_updated_at: false,
        default_value: None,
    }
}

fn ops(names: &[&str]) -> Json {
    Json::Object(
        names
            .iter()
            .enumerate()
            .map(|(i, n)| (n.to_string(), Json::Number(JsonNumber::PosInt(i as u64))))
            .collect(),
    )
}

#[test]
fn operations_are_canonical_and_removals_come_first() {
    let value = ops(&["create", "connect_or_create", "set", "delete_many", "disconnect", "update"]);
    let parsed = parse_operations(&user(), &posts(), &value, true).expect("operations should parse");
    let names: Vec<&str> = parsed.iter().map(|(name, _)| *name).collect();
    assert_eq!(names, vec!["set", "disconnect", "deleteMany", "update", "create", "connectOrCreate"]);
    assert_eq!(parsed[0].1, &Json::Number(JsonNumber::PosInt(2)));
    assert_eq!(parsed[4].1, &Json::Number(JsonNumber::PosInt(0)));
}

#[test]
fn creates_refuse_operations_that_need_a_row() {
    assert_eq!(
        parse_operations(&user(), &posts(), &ops(&["connect", "disconnect"]), false),
        Err(ProtocolError::InvalidParams(
            "Nested 'disconnect' on 'User.posts' needs an existing row, so it is only available on update".to_string()
        ))
    );
    assert_eq!(
        parse_operations(&user(), &posts(), &ops(&["attach"]), false),
        Err(ProtocolError::InvalidParams(
            "Unknown nested-write operation 'attach' on 'User.posts'; supported operations are create, createMany, connect, connectOrCreate".to_string()
        ))
    );
    assert_eq!(
        parse_operations(&user(), &posts(), &Json::Null, true),
        Err(ProtocolError::InvalidParams(
            "'User.posts' is a relation, so its data entry must be an object of nested-write operations".to_string()
        ))
    );
}
