use nautilus::ast::Value;
use nautilus::conversion::{ResolvedFieldType, ScalarType};
use nautilus::join_run::{JoinAction, JoinAnswer};
use nautilus::json::{Json, JsonNumber};
use nautilus::model::{FieldIr, ModelIr, RelationIr, Row};
use nautilus::owning::ParentPatch;
use nautilus::owning_run::owning_step_next;
use nautilus::protocol::ProtocolError;
use nautilus::relation::{RelationBinding, RelationSide};

fn scalar(logical: &str, db: &str) -> FieldIr {
    FieldIr {
        logical_name: logical.to_string(),
        db_name: db.to_string(),
        field_type: ResolvedFieldType::Scalar(ScalarType::Int),
        is_array: false,
        is_updated_at: false,
        default_value: None,
    }
}

fn model(logical: &str, db: &str, fields: Vec<FieldIr>) -> ModelIr {
    ModelIr {
        logical_name: logical.to_string(),
        db_name: db.to_string(),
        fields,
        primary_key: vec!["id".to_string()],
        unique_constraints: vec![],
    }
}

fn user() -> ModelIr {
    model("User", "users", vec![scalar("id", "id")])
}

fn post() -> ModelIr {
    let mut author = scalar("author", "author");
    author.field_type = ResolvedFieldType::Relation(RelationIr {
        name: None,
        target_model: "User".to_string(),
        fields: vec!["authorId".to_string()],
        references: vec!["id".to_string()],
        join: None,
    });
    model("Post", "posts", vec![scalar("id", "id"), scalar("authorId", "author_id"), author])
}

fn binding() -> RelationBinding {
    RelationBinding {
        target_model: "User".to_string(),
        side: RelationSide::Owning,
        foreign_keys: vec!["authorId".to_string()],
        referenced: vec!["id".to_string()],
        via: None,
    }
}

fn id(n: u64) -> Json {
    Json::Object(vec![("id".to_string(), Json::Number(JsonNumber::PosInt(n)))])
}

fn user_row(n: i64) -> Row {
    Row { columns: vec![("users__id".to_string(), Value::I64(n))] }
}

fn step(operation: &str, payload: &Json, current: Option<&Row>, answer: JoinAnswer, patch: &mut ParentPatch) -> Result<JoinAction, ProtocolError> {
    let user_map = vec![("id".to_string(), "id".to_string())];
    let post_map = vec![("id".to_string(), "id".to_string()), ("authorId".to_string(), "author_id".to_string())];
    owning_step_next(&[user(), post()], &user_map, &post_map, &post(), &binding(), "author", current, operation, payload, answer, patch)
}

#[test]
fn a_created_row_is_pointed_at() {
    let data = Json::Object(vec![("name".to_string(), Json::String("Ada".to_string()))]);
    let mut patch = ParentPatch::new();
    assert_eq!(step("create", &data, None, JoinAnswer::Start, &mut patch), Ok(JoinAction::CreateChild(Json::Object(vec![("name".to_string(), Json::String("Ada".to_string()))]))));
    assert_eq!(step("create", &data, None, JoinAnswer::Created(vec![user_row(5)]), &mut patch), Ok(JoinAction::Done));
    assert_eq!(patch.assignments, vec![("authorId".to_string(), Json::Number(JsonNumber::PosInt(5)))]);
}

#[test]
fn connecting_a_missing_row_is_refused() {
    let mut patch = ParentPatch::new();
    assert_eq!(step("connect", &id(9), None, JoinAnswer::Start, &mut patch), Ok(JoinAction::FindChild(id(9))));
    assert_eq!(
        step("connect", &id(9), None, JoinAnswer::Found(None), &mut patch),
        Err(ProtocolError::RecordNotFound("Nested connect on 'author' matched no 'User' record".to_string()))
    );
    assert!(patch.assignments.is_empty());
}

#[test]
fn connect_or_create_creates_only_when_nothing_is_found() {
    let payload = Json::Object(vec![("where".to_string(), id(3)), ("create".to_string(), id(3))]);
    let mut patch = ParentPatch::new();
    assert_eq!(step("connectOrCreate", &payload, None, JoinAnswer::Start, &mut patch), Ok(JoinAction::FindChild(id(3))));
    assert_eq!(step("connectOrCreate", &payload, None, JoinAnswer::Found(None), &mut patch), Ok(JoinAction::CreateChild(id(3))));
    assert_eq!(step("connectOrCreate", &payload, None, JoinAnswer::Found(Some(user_row(3))), &mut patch), Ok(JoinAction::Done));
    assert_eq!(patch.assignments, vec![("authorId".to_string(), Json::Number(JsonNumber::PosInt(3)))]);
    let no_where = Json::Object(vec![("create".to_string(), id(3))]);
    assert_eq!(
        step("connectOrCreate", &no_where, None, JoinAnswer::Start, &mut patch),
        Err(ProtocolError::InvalidParams("connectOrCreate needs a 'where' entry".to_string()))
    );
}

#[test]
fn update_and_delete_need_the_current_row() {
    let mut patch = ParentPatch::new();
    assert_eq!(
        step("update", &id(1), None, JoinAnswer::Start, &mut patch),
        Err(ProtocolError::InvalidParams(
            "Nested 'update' on 'author' needs an existing row, so it is only available on update".to_string()
        ))
    );
    let current = Row { columns: vec![("posts__id".to_string(), Value::I64(1)), ("posts__author_id".to_string(), Value::I64(7))] };
    let data = Json::Object(vec![("name".to_string(), Json::String("B".to_string()))]);
    assert_eq!(
        step("update", &data, Some(&current), JoinAnswer::Start, &mut patch),
        Ok(JoinAction::UpdateChildren { filter: id(7), data: Json::Object(vec![("name".to_string(), Json::String("B".to_string()))]) })
    );
    assert_eq!(step("delete", &Json::Bool(true), Some(&current), JoinAnswer::Start, &mut patch), Ok(JoinAction::Done));
    assert_eq!(patch.assignments, vec![("authorId".to_string(), Json::Null)]);
    assert_eq!(patch.deferred.len(), 1);
    assert_eq!(patch.deferred[0].model, "User".to_string());
    assert_eq!(patch.deferred[0].filter, id(7));
}

#[test]
fn disconnect_points_at_nothing_and_other_operations_are_refused() {
    let mut patch = ParentPatch::new();
    assert_eq!(step("disconnect", &Json::Bool(true), None, JoinAnswer::Start, &mut patch), Ok(JoinAction::Done));
    assert_eq!(patch.assignments, vec![("authorId".to_string(), Json::Null)]);
    assert_eq!(
        step("set", &id(1), None, JoinAnswer::Start, &mut patch),
        Err(ProtocolError::UnsupportedOperation(
            "Nested 'set' is not available on 'Post.author', which is the side holding the foreign key".to_string()
        ))
    );
}
