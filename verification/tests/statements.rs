use nautilus::args::projection_clashes_with_relations;
use nautilus::ast::{Assignment, BinaryOp, ColumnMarker, Expr, Insert, OnConflict, Value};
use nautilus::conversion::{ResolvedFieldType, ScalarType};
use nautilus::hydrate::{include_child_query, GroupKey};
use nautilus::json::Json;
use nautilus::model::{DefaultValue, FieldIr, ModelIr, Row};
use nautilus::protocol::ProtocolError;
use nautilus::write_input::{CompositeSupport, Timestamp};
use nautilus::write_plan::{create_many_insert, upsert_statement};

fn field(name: &str, scalar: ScalarType) -> FieldIr {
    FieldIr {
        logical_name: name.to_string(),
        db_name: name.to_string(),
        field_type: ResolvedFieldType::Scalar(scalar),
        is_array: false,
        is_updated_at: false,
        default_value: None,
    }
}

fn ticket() -> ModelIr {
    let mut id = field("id", ScalarType::Int);
    id.default_value = Some(DefaultValue::Function("autoincrement".to_string()));
    ModelIr {
        logical_name: "Ticket".to_string(),
        db_name: "tickets".to_string(),
        fields: vec![id, field("code", ScalarType::String), field("title", ScalarType::String)],
        primary_key: vec!["id".to_string()],
        unique_constraints: vec![vec!["code".to_string()]],
    }
}

fn types<'a>() -> CompositeSupport<'a> {
    CompositeSupport { native: false, composites: &[], now: Timestamp::new(0, 0).unwrap() }
}

fn object(members: &[(&str, &str)]) -> Json {
    Json::Object(members.iter().map(|(k, v)| (k.to_string(), Json::String(v.to_string()))).collect())
}

fn column(name: &str) -> ColumnMarker {
    ColumnMarker { table: "tickets".to_string(), name: name.to_string() }
}

fn text(s: &str) -> Value {
    Value::String(s.to_string())
}

fn refused(m: &str) -> ProtocolError {
    ProtocolError::InvalidParams(m.to_string())
}

#[test]
fn upsert_inserts_and_updates_on_the_unique_key() {
    let ins = upsert_statement(
        &types(),
        &ticket(),
        &object(&[("code", "a")]),
        &object(&[("code", "a"), ("title", "x")]),
        &object(&[("title", "y")]),
        vec![],
    )
    .unwrap();
    assert_eq!(
        ins,
        Insert {
            table: "tickets".to_string(),
            columns: vec![column("code"), column("title")],
            values: vec![vec![text("a"), text("x")]],
            on_conflict: Some(OnConflict {
                target: vec![column("code")],
                update: vec![(column("title"), Assignment::Value(text("y")))],
            }),
            returning: vec![],
        }
    );
}

#[test]
fn upsert_with_an_empty_update_assigns_nothing() {
    let ins = upsert_statement(
        &types(),
        &ticket(),
        &object(&[("code", "a")]),
        &object(&[("code", "a")]),
        &object(&[]),
        vec![column("id")],
    )
    .unwrap();
    assert_eq!(ins.on_conflict, Some(OnConflict { target: vec![column("code")], update: vec![] }));
    assert_eq!(ins.returning, vec![column("id")]);
}

#[test]
fn upsert_refusals() {
    let t = ticket();
    let filter = object(&[("code", "a")]);
    assert_eq!(
        upsert_statement(&types(), &t, &filter, &Json::Null, &object(&[]), vec![]),
        Err(refused("create must be an object"))
    );
    assert_eq!(
        upsert_statement(&types(), &t, &filter, &object(&[]), &Json::Null, vec![]),
        Err(refused("update must be an object"))
    );
    assert_eq!(
        upsert_statement(&types(), &t, &filter, &object(&[("title", "x")]), &object(&[]), vec![]),
        Err(refused("upsert create data must set 'code' because it is part of the conflict target"))
    );
    assert_eq!(
        upsert_statement(&types(), &t, &object(&[]), &object(&[("code", "a")]), &object(&[]), vec![]),
        Err(ProtocolError::InvalidFilter("upsert where cannot be empty".to_string()))
    );
}

#[test]
fn create_many_writes_every_row_under_the_first_rows_columns() {
    let rows = vec![object(&[("code", "a"), ("title", "x")]), object(&[("code", "b"), ("title", "y")])];
    let ins = create_many_insert(&types(), &ticket(), &rows, vec![]).unwrap();
    assert_eq!(
        ins,
        Insert {
            table: "tickets".to_string(),
            columns: vec![column("code"), column("title")],
            values: vec![vec![text("a"), text("x")], vec![text("b"), text("y")]],
            on_conflict: None,
            returning: vec![],
        }
    );
}

#[test]
fn create_many_refusals() {
    let t = ticket();
    assert_eq!(create_many_insert(&types(), &t, &[], vec![]), Err(refused("data array cannot be empty")));
    assert_eq!(create_many_insert(&types(), &t, &[Json::Null], vec![]), Err(refused("data items must be objects")));
    assert_eq!(
        create_many_insert(&types(), &t, &[object(&[("code", "a")]), Json::Null], vec![]),
        Err(refused("data items must be objects"))
    );
    assert_eq!(
        create_many_insert(&types(), &t, &[object(&[("code", "a"), ("title", "x")]), object(&[("code", "b")])], vec![]),
        Err(refused(
            "createMany rows must use the same key set after omitting server defaults; row 1 differs from row 0 (missing: [title], extra: [])"
        ))
    );
    assert_eq!(
        create_many_insert(&types(), &t, &[object(&[("nope", "a")])], vec![]),
        Err(refused("Model 'Ticket' has no field 'nope'"))
    );
}

fn parent(value: Option<Value>) -> Row {
    Row { columns: value.map(|v| vec![("users__id".to_string(), v)]).unwrap_or_default() }
}

#[test]
fn the_batched_child_query_covers_each_distinct_parent_key_once() {
    let parents = vec![
        parent(Some(Value::I64(1))),
        parent(Some(Value::I64(2))),
        parent(Some(Value::I32(1))),
        parent(Some(Value::Null)),
        parent(None),
    ];
    let (keys, query) = include_child_query(&parents, "users__id", "posts__author_id", None, None, None).unwrap();
    assert_eq!(keys, vec![Some(GroupKey::Int(1)), Some(GroupKey::Int(2)), Some(GroupKey::Int(1)), None, None]);
    assert_eq!(
        query,
        Some(Expr::Binary {
            left: Box::new(Expr::Column("posts__author_id".to_string())),
            op: BinaryOp::In,
            right: Box::new(Expr::List(vec![Expr::Param(Value::I64(1)), Expr::Param(Value::I64(2))])),
        })
    );
}

#[test]
fn a_window_on_the_relation_cannot_be_batched() {
    let parents = vec![parent(Some(Value::I64(1)))];
    assert!(include_child_query(&parents, "users__id", "posts__author_id", Some(2), None, None).is_none());
    assert!(include_child_query(&parents, "users__id", "posts__author_id", None, Some(1), None).is_none());
    let (keys, query) = include_child_query(&[parent(None)], "users__id", "posts__author_id", None, None, None).unwrap();
    assert_eq!(keys, vec![None]);
    assert_eq!(query, None);
}

#[test]
fn projection_and_relation_loading_clash_only_together() {
    assert!(projection_clashes_with_relations(1, 2));
    assert!(!projection_clashes_with_relations(0, 2));
    assert!(!projection_clashes_with_relations(3, 0));
}
