use nautilus::ast::{Assignment, BinaryOp, ColumnMarker, Expr, Value};
use nautilus::conversion::{ResolvedFieldType, ScalarType};
use nautilus::json::{Json, JsonNumber};
use nautilus::model::{CompositeFieldIr, CompositeTypeIr, DefaultValue, FieldIr, ModelIr};
use nautilus::protocol::ProtocolError;
use nautilus::write_input::{
    ensure_known_data_keys, field_assignment, field_input_value, insert_columns, update_assignments,
    updated_at_now_value, CompositeSupport, FieldInputMode, Timestamp,
};

fn field(logical: &str, db: &str, scalar: ScalarType) -> FieldIr {
    FieldIr {
        logical_name: logical.to_string(),
        db_name: db.to_string(),
        field_type: ResolvedFieldType::Scalar(scalar),
        is_array: false,
        is_updated_at: false,
        default_value: None,
    }
}

fn counter_model() -> ModelIr {
    let mut id = field("id", "id", ScalarType::Int);
    id.default_value = Some(DefaultValue::Function("autoincrement".to_string()));
    let mut updated = field("updatedAt", "updated_at", ScalarType::DateTime);
    updated.is_updated_at = true;
    let mut place = field("place", "place", ScalarType::String);
    place.field_type = ResolvedFieldType::CompositeType { composite_name: "Place".to_string() };
    let mut owner = field("owner", "owner", ScalarType::String);
    owner.field_type = ResolvedFieldType::Relation(nautilus::model::RelationIr { name: None, target_model: "Other".to_string(), fields: vec![], references: vec![], join: None });
    ModelIr {
        logical_name: "Counter".to_string(),
        db_name: "counters".to_string(),
        fields: vec![
            id,
            field("hits", "hit_count", ScalarType::Int),
            field("price", "price", ScalarType::Decimal),
            field("label", "label", ScalarType::String),
            updated,
            place,
            owner,
        ],
        primary_key: vec!["id".to_string()],
        unique_constraints: vec![],
    }
}

fn place_type() -> CompositeTypeIr {
    CompositeTypeIr {
        logical_name: "Place".to_string(),
        db_name: "place_t".to_string(),
        fields: vec![CompositeFieldIr {
            logical_name: "city".to_string(),
            db_name: "city".to_string(),
            field_type: ResolvedFieldType::Scalar(ScalarType::String),
            is_array: false,
        }],
    }
}

fn data(members: Vec<(&str, Json)>) -> Vec<(String, Json)> {
    members.into_iter().map(|(k, v)| (k.to_string(), v)).collect()
}

fn op(name: &str, operand: Json) -> Json {
    Json::Object(vec![(name.to_string(), operand)])
}

fn num(n: u64) -> Json {
    Json::Number(JsonNumber::PosInt(n))
}

fn text(s: &str) -> Json {
    Json::String(s.to_string())
}

fn invalid(m: &str) -> ProtocolError {
    ProtocolError::InvalidParams(m.to_string())
}

#[test]
fn data_keys_must_name_fields() {
    let model = counter_model();
    assert_eq!(ensure_known_data_keys(&model, &data(vec![("hit_count", num(1)), ("owner", Json::Null)])), Ok(()));
    assert_eq!(
        ensure_known_data_keys(&model, &data(vec![("hits", num(1)), ("hitz", num(2))])),
        Err(invalid("Model 'Counter' has no field 'hitz'"))
    );
}

#[test]
fn arithmetic_operators_become_expressions_over_the_column() {
    let model = counter_model();
    let types = CompositeSupport { native: false, composites: &[], now: moment() };
    let hits = &model.fields[1];
    assert_eq!(
        field_assignment(&types, &model, &data(vec![("hits", op("increment", num(2)))]), hits),
        Ok(Some(Assignment::Expr(Expr::Binary {
            left: Box::new(Expr::Column("hit_count".to_string())),
            op: BinaryOp::Add,
            right: Box::new(Expr::Param(Value::I32(2))),
        })))
    );
    assert_eq!(
        field_assignment(&types, &model, &data(vec![("hits", op("set", num(7)))]), hits),
        Ok(Some(Assignment::Value(Value::I32(7))))
    );
    assert_eq!(
        field_assignment(&types, &model, &data(vec![("hits", op("multiply", text("x")))]), hits),
        Err(invalid("'multiply' on field 'hits' takes a number"))
    );
    assert_eq!(
        field_assignment(&types, &model, &data(vec![("id", op("increment", num(1)))]), &model.fields[0]),
        Err(invalid("'increment' cannot be applied to primary-key field 'id'"))
    );
    assert_eq!(
        field_assignment(&types, &model, &data(vec![("label", op("decrement", num(1)))]), &model.fields[3]),
        Err(invalid("'decrement' takes a number, so field 'label' does not support it"))
    );
    assert_eq!(
        field_assignment(&types, &model, &data(vec![("price", op("divide", text("2.5")))]), &model.fields[2]),
        Ok(Some(Assignment::Expr(Expr::Binary {
            left: Box::new(Expr::Column("price".to_string())),
            op: BinaryOp::Div,
            right: Box::new(Expr::Param(Value::Decimal("2.5".to_string()))),
        })))
    );
    assert_eq!(
        field_assignment(
            &types,
            &model,
            &data(vec![("hits", Json::Object(vec![("set".to_string(), num(1)), ("increment".to_string(), num(1))]))]),
            hits
        ),
        Err(invalid("Field 'hits' takes one update operator at a time"))
    );
    assert_eq!(field_assignment(&types, &model, &data(vec![]), hits), Ok(None));
}

#[test]
fn creates_leave_defaults_and_timestamps_to_the_database() {
    let model = counter_model();
    let types = CompositeSupport { native: false, composites: &[], now: moment() };
    let create = FieldInputMode::Create;
    assert_eq!(field_input_value(&types, &data(vec![("id", Json::Null)]), &model.fields[0], create), Ok(None));
    assert_eq!(field_input_value(&types, &data(vec![]), &model.fields[4], create), Ok(None));
    assert_eq!(
        field_input_value(&types, &data(vec![("hits", op("increment", num(1)))]), &model.fields[1], create),
        Err(invalid(
            "'increment' derives the new value from the current one, and a create has none; write the value directly"
        ))
    );
    match field_input_value(&types, &data(vec![]), &model.fields[4], FieldInputMode::Update) {
        Ok(Some(Value::DateTime(_))) => {}
        other => panic!("an update stamps updatedAt, got {other:?}"),
    }
    assert_eq!(
        field_input_value(&types, &data(vec![("label", op("set", text("x")))]), &model.fields[3], create),
        Ok(Some(Value::String("x".to_string())))
    );
    assert_eq!(
        field_input_value(&types, &data(vec![("label", Json::Array(vec![]))]), &model.fields[3], create),
        Err(invalid("Field 'label' holds a single scalar value but received an array"))
    );
}

#[test]
fn insert_columns_follow_field_order_and_skip_what_the_database_fills() {
    let model = counter_model();
    let composites = vec![place_type()];
    let types = CompositeSupport { native: true, composites: &composites, now: moment() };
    let row = data(vec![
        ("label", text("a")),
        ("id", Json::Null),
        ("hit_count", num(3)),
        ("place", Json::Object(vec![("city".to_string(), text("Oslo"))])),
    ]);
    let (columns, values) = insert_columns(&types, &model, &row).expect("row should convert");
    let marker = |name: &str| ColumnMarker { table: "counters".to_string(), name: name.to_string() };
    assert_eq!(columns, vec![marker("hit_count"), marker("label"), marker("place")]);
    assert_eq!(
        values,
        vec![
            Value::I32(3),
            Value::String("a".to_string()),
            Value::Composite { sql_type: "place_t".to_string(), fields: vec![Value::String("Oslo".to_string())] },
        ]
    );
    let stored_as_json = CompositeSupport { native: false, composites: &composites, now: moment() };
    let (_, values) = insert_columns(&stored_as_json, &model, &row).expect("row should convert");
    assert_eq!(values[2], Value::Json(Json::Object(vec![("city".to_string(), text("Oslo"))])));
    assert_eq!(
        insert_columns(&types, &model, &data(vec![("price", text("lots"))])),
        Err(invalid("'lots' is not a valid Decimal"))
    );
}

#[test]
fn updates_stamp_updated_at_and_resolve_operators() {
    let model = counter_model();
    let types = CompositeSupport { native: false, composites: &[], now: moment() };
    let entries = update_assignments(&types, &model, &data(vec![("hits", op("increment", num(1)))]))
        .expect("update should resolve");
    assert_eq!(entries.len(), 2);
    assert_eq!(entries[0].0.name, "hit_count");
    assert!(matches!(entries[0].1, Assignment::Expr(Expr::Binary { op: BinaryOp::Add, .. })));
    assert_eq!(entries[1].0.name, "updated_at");
    assert!(matches!(entries[1].1, Assignment::Value(Value::DateTime(_))));
}

fn moment() -> Timestamp {
    Timestamp::new(1_700_000_000, 5).unwrap()
}

#[test]
fn updated_at_is_stamped_with_the_given_moment() {
    let at = Timestamp::new(1_700_000_000, 0).unwrap();
    assert_eq!(updated_at_now_value(&at), Value::DateTime("2023-11-14 22:13:20".to_string()));
    let later = Timestamp::new(1_700_000_000, 500_000_000).unwrap();
    assert_eq!(updated_at_now_value(&later), Value::DateTime("2023-11-14 22:13:20.500".to_string()));
    assert!(Timestamp::new(0, 1_000_000_000).is_none());
    assert!(Timestamp::new(i64::MAX, 0).is_none());
}
