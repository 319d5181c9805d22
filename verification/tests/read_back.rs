use nautilus::ast::{BinaryOp, Expr, Value};
use nautilus::conversion::{ResolvedFieldType, ScalarType};
use nautilus::json::{Json, JsonNumber};
use nautilus::model::{DefaultValue, FieldIr, ModelIr, Row};
use nautilus::protocol::ProtocolError;
use nautilus::read_back::{inserted_row_filter, updated_rows_filter};
use nautilus::write_input::{CompositeSupport, Timestamp};

fn field(logical: &str, db: &str) -> FieldIr {
    FieldIr {
        logical_name: logical.to_string(),
        db_name: db.to_string(),
        field_type: ResolvedFieldType::Scalar(ScalarType::Int),
        is_array: false,
        is_updated_at: false,
        default_value: None,
    }
}

fn model(primary_key: &[&str], autoincrement: bool) -> ModelIr {
    let mut id = field("id", "id");
    if autoincrement {
        id.default_value = Some(DefaultValue::Function("autoincrement".to_string()));
    }
    ModelIr {
        logical_name: "Ticket".to_string(),
        db_name: "tickets".to_string(),
        fields: vec![id, field("shard", "shard_no"), field("title", "title")],
        primary_key: primary_key.iter().map(|s| s.to_string()).collect(),
        unique_constraints: vec![],
    }
}

fn plain<'a>() -> CompositeSupport<'a> {
    CompositeSupport { native: false, composites: &[], now: moment() }
}

fn eq(column: &str, right: Expr) -> Expr {
    Expr::Binary { left: Box::new(Expr::Column(column.to_string())), op: BinaryOp::Eq, right: Box::new(right) }
}

fn both(a: Expr, op: BinaryOp, b: Expr) -> Expr {
    Expr::Binary { left: Box::new(a), op, right: Box::new(b) }
}

fn num(n: u64) -> Json {
    Json::Number(JsonNumber::PosInt(n))
}

fn data(members: Vec<(&str, Json)>) -> Vec<(String, Json)> {
    members.into_iter().map(|(k, v)| (k.to_string(), v)).collect()
}

fn unresolvable(field: &str) -> ProtocolError {
    ProtocolError::UnsupportedOperation(format!(
        "Returning the written 'Ticket' row needs its '{}' value, and this backend cannot report a generated one; supply it in the data or set returnData to false",
        field
    ))
}

#[test]
fn inserted_row_is_found_by_the_supplied_key() {
    let m = model(&["id", "shard"], false);
    let filter = inserted_row_filter(&plain(), false, &m, &data(vec![("id", num(5)), ("shard_no", num(2))])).unwrap();
    assert_eq!(
        filter,
        both(
            eq("tickets__id", Expr::Param(Value::I32(5))),
            BinaryOp::And,
            eq("tickets__shard_no", Expr::Param(Value::I32(2)))
        )
    );
}

#[test]
fn mysql_recovers_one_auto_increment_key() {
    let m = model(&["id"], true);
    let filter = inserted_row_filter(&plain(), true, &m, &data(vec![])).unwrap();
    assert_eq!(
        filter,
        eq("tickets__id", Expr::FunctionCall { name: "LAST_INSERT_ID".to_string(), args: vec![] })
    );
}

#[test]
fn a_generated_key_elsewhere_cannot_be_read_back() {
    let m = model(&["id"], true);
    assert_eq!(inserted_row_filter(&plain(), false, &m, &data(vec![])), Err(unresolvable("id")));
    let m = model(&["title"], false);
    assert_eq!(inserted_row_filter(&plain(), true, &m, &data(vec![])), Err(unresolvable("title")));
}

#[test]
fn inserted_row_filter_needs_a_primary_key() {
    let m = model(&[], false);
    assert_eq!(
        inserted_row_filter(&plain(), true, &m, &data(vec![])),
        Err(ProtocolError::QueryPlanning("Model 'Ticket' has no primary key to read a written row back by".to_string()))
    );
    let m = model(&["code"], false);
    assert_eq!(
        inserted_row_filter(&plain(), true, &m, &data(vec![])),
        Err(ProtocolError::QueryPlanning("Model 'Ticket' names unknown field 'code' in its primary key".to_string()))
    );
}

fn row(id: i64) -> Row {
    Row { columns: vec![("tickets__id".to_string(), Value::I64(id)), ("tickets__title".to_string(), Value::Null)] }
}

#[test]
fn updated_rows_are_found_by_their_captured_keys() {
    let m = model(&["id"], true);
    let filter = updated_rows_filter(&plain(), &m, &[row(1), row(2)], &data(vec![("title", Json::String("x".to_string()))]))
        .unwrap();
    assert_eq!(
        filter,
        Some(both(
            eq("tickets__id", Expr::Param(Value::I64(1))),
            BinaryOp::Or,
            eq("tickets__id", Expr::Param(Value::I64(2)))
        ))
    );
}

#[test]
fn an_assigned_key_is_looked_for_at_its_new_value() {
    let m = model(&["id"], true);
    let filter = updated_rows_filter(&plain(), &m, &[row(1)], &data(vec![("id", num(7))])).unwrap();
    assert_eq!(filter, Some(eq("tickets__id", Expr::Param(Value::I32(7)))));
}

#[test]
fn updated_rows_filter_without_rows_or_key_is_none() {
    let m = model(&["id"], true);
    assert_eq!(updated_rows_filter(&plain(), &m, &[], &data(vec![])), Ok(None));
    let m = model(&[], false);
    assert_eq!(updated_rows_filter(&plain(), &m, &[row(1)], &data(vec![])), Ok(None));
}

#[test]
fn updated_rows_filter_reports_a_key_missing_from_the_row() {
    let m = model(&["shard"], false);
    assert_eq!(updated_rows_filter(&plain(), &m, &[row(1)], &data(vec![])), Err(unresolvable("shard")));
}

fn moment() -> Timestamp {
    Timestamp::new(1_700_000_000, 5).unwrap()
}
