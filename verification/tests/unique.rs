use nautilus::conversion::{ResolvedFieldType, ScalarType};
use nautilus::json::{Json, JsonNumber};
use nautilus::model::{DefaultValue, FieldIr, ModelIr};
use nautilus::protocol::ProtocolError;
use nautilus::unique::{ensure_unique_filter, matching_unique_constraint, unique_conflict_target};

fn field(name: &str) -> FieldIr {
    FieldIr {
        logical_name: name.to_string(),
        db_name: name.to_string(),
        field_type: ResolvedFieldType::Scalar(ScalarType::String),
        is_array: false,
        is_updated_at: false,
        default_value: None,
    }
}

fn user_model() -> ModelIr {
    let mut id = field("id");
    id.default_value = Some(DefaultValue::Function("autoincrement".to_string()));
    ModelIr {
        logical_name: "User".to_string(),
        db_name: "User".to_string(),
        fields: vec![id, field("email"), field("team"), field("slot"), field("name")],
        primary_key: vec!["id".to_string()],
        unique_constraints: vec![
            vec!["email".to_string()],
            vec!["team".to_string(), "slot".to_string()],
        ],
    }
}

fn object(entries: Vec<(&str, Json)>) -> Json {
    Json::Object(entries.into_iter().map(|(k, v)| (k.to_string(), v)).collect())
}

fn text(s: &str) -> Json {
    Json::String(s.to_string())
}

fn number(n: u64) -> Json {
    Json::Number(JsonNumber::PosInt(n))
}

fn names(target: &[&FieldIr]) -> Vec<String> {
    target.iter().map(|f| f.logical_name.clone()).collect()
}

fn check_single_column_unique_constraint() {
    let model = user_model();
    let filter = object(vec![("where", object(vec![("email", text("alice@example.com"))]))]);
    let target = unique_conflict_target(&model, &filter).expect("email is unique");
    assert_eq!(names(&target), vec!["email"]);
}

fn check_primary_key() {
    let model = user_model();
    let filter = object(vec![("id", number(7))]);
    let target = unique_conflict_target(&model, &filter).expect("id is the primary key");
    assert_eq!(target.len(), 1);
    assert_eq!(target[0].logical_name, "id");
}

fn check_declared_order() {
    let model = user_model();
    let filter = object(vec![("slot", number(3)), ("team", text("blue"))]);
    let target = unique_conflict_target(&model, &filter).expect("(team, slot) is unique");
    assert_eq!(names(&target), vec!["team", "slot"]);
}

fn check_partial_composite_key() {
    let model = user_model();
    let filter = object(vec![("team", text("blue"))]);
    let error = unique_conflict_target(&model, &filter)
        .expect_err("half of a composite unique key is not a conflict target");
    assert!(
        matches!(&error, ProtocolError::InvalidFilter(message) if message.contains("unique constraint")),
        "unexpected error: {error:?}"
    );
}

fn check_non_unique_column() {
    let model = user_model();
    let filter = object(vec![("name", text("Alice"))]);
    let error =
        unique_conflict_target(&model, &filter).expect_err("name carries no unique constraint");
    assert!(matches!(error, ProtocolError::InvalidFilter(_)));
}

fn check_unknown_field() {
    let model = user_model();
    let filter = object(vec![("nickname", text("Ali"))]);
    let error =
        unique_conflict_target(&model, &filter).expect_err("nickname is not a model field");
    assert!(
        matches!(&error, ProtocolError::InvalidFilter(message) if message.contains("Unknown field")),
        "unexpected error: {error:?}"
    );
}

fn check_empty_filter() {
    let model = user_model();
    let filter = object(vec![]);
    assert!(unique_conflict_target(&model, &filter).is_err());
}

#[test]
fn mutations_conflict_target_accepts_a_single_column_unique_constraint() {
    check_single_column_unique_constraint();
}

#[test]
fn mutations_conflict_target_accepts_the_primary_key() {
    check_primary_key();
}

#[test]
fn mutations_conflict_target_orders_columns_as_the_constraint_declares_them() {
    check_declared_order();
}

#[test]
fn mutations_conflict_target_rejects_a_partial_composite_key() {
    check_partial_composite_key();
}

#[test]
fn mutations_conflict_target_rejects_a_non_unique_column() {
    check_non_unique_column();
}

#[test]
fn mutations_conflict_target_rejects_an_unknown_field() {
    check_unknown_field();
}

#[test]
fn mutations_conflict_target_rejects_an_empty_filter() {
    check_empty_filter();
}

#[test]
fn upsert_conflict_target_accepts_a_single_column_unique_constraint() {
    check_single_column_unique_constraint();
}

#[test]
fn upsert_conflict_target_accepts_the_primary_key() {
    check_primary_key();
}

#[test]
fn upsert_conflict_target_orders_columns_as_the_constraint_declares_them() {
    check_declared_order();
}

#[test]
fn upsert_conflict_target_rejects_a_partial_composite_key() {
    check_partial_composite_key();
}

#[test]
fn upsert_conflict_target_rejects_a_non_unique_column() {
    check_non_unique_column();
}

#[test]
fn upsert_conflict_target_rejects_an_unknown_field() {
    check_unknown_field();
}

#[test]
fn upsert_conflict_target_rejects_an_empty_filter() {
    check_empty_filter();
}

#[test]
fn conflict_target_error_lists_the_keys_in_order() {
    let model = user_model();
    let filter = object(vec![("team", text("blue")), ("name", text("x"))]);
    match unique_conflict_target(&model, &filter) {
        Err(ProtocolError::InvalidFilter(message)) => assert_eq!(
            message,
            "upsert where [name, team] does not match the primary key or any unique constraint of model 'User'"
        ),
        other => panic!("unexpected result: {other:?}"),
    }
}

#[test]
fn conflict_target_rejects_a_non_object_filter() {
    let model = user_model();
    assert_eq!(
        unique_conflict_target(&model, &text("x")).unwrap_err(),
        ProtocolError::InvalidFilter("upsert where must be an object".to_string())
    );
}

#[test]
fn unique_filter_accepts_a_whole_key_and_rejects_a_part() {
    let model = user_model();
    assert!(ensure_unique_filter(&model, &object(vec![("id", number(1))])).is_ok());
    assert!(ensure_unique_filter(
        &model,
        &object(vec![("where", object(vec![("slot", number(1)), ("team", text("red"))]))])
    )
    .is_ok());
    assert_eq!(
        ensure_unique_filter(&model, &object(vec![("team", text("red")), ("name", text("a"))])),
        Err(ProtocolError::InvalidFilter(
            "findUnique where [name, team] does not match the primary key or any unique constraint of model 'User'"
                .to_string()
        ))
    );
    assert_eq!(
        ensure_unique_filter(&model, &Json::Null),
        Err(ProtocolError::InvalidFilter("findUnique where must be an object".to_string()))
    );
}

#[test]
fn matching_constraint_needs_exact_columns() {
    let model = user_model();
    assert_eq!(matching_unique_constraint(&model, &["slot", "team"]), Some(vec!["team", "slot"]));
    assert_eq!(matching_unique_constraint(&model, &["email"]), Some(vec!["email"]));
    assert_eq!(matching_unique_constraint(&model, &["team"]), None);
    assert_eq!(matching_unique_constraint(&model, &["id", "email"]), None);
}
