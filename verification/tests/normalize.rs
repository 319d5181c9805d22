use nautilus::ast::Value;
use nautilus::conversion::{ResolvedFieldType, ScalarType};
use nautilus::json::{Json, JsonNumber};
use nautilus::model::{CompositeFieldIr, CompositeTypeIr, Row};
use nautilus::normalize::{
    decimal_from_text, hint_parse_error, normalize_row_with_hints, normalize_rows_with_hints,
    normalize_value_with_hint, Normalized, ValueHint,
};
use nautilus::protocol::ProtocolError;

fn one(hint: ValueHint, v: Value) -> Result<Normalized, ProtocolError> {
    normalize_value_with_hint("price", 0, v, &hint)
}

fn field(name: &str, scalar: ScalarType) -> CompositeFieldIr {
    CompositeFieldIr {
        logical_name: name.to_string(),
        db_name: name.to_string(),
        field_type: ResolvedFieldType::Scalar(scalar),
        is_array: false,
    }
}

fn stats() -> CompositeTypeIr {
    CompositeTypeIr {
        logical_name: "Stats".to_string(),
        db_name: "stats".to_string(),
        fields: vec![
            field("wins", ScalarType::Int),
            field("ratio", ScalarType::Float),
            field("active", ScalarType::Boolean),
            field("label", ScalarType::String),
        ],
    }
}

#[test]
fn sql_null_stays_null_under_every_hint() {
    assert_eq!(one(ValueHint::Decimal, Value::Null), Ok(Normalized::Ready(Value::Null)));
    assert_eq!(one(ValueHint::Uuid, Value::Null), Ok(Normalized::Ready(Value::Null)));
    assert_eq!(one(ValueHint::Composite(stats()), Value::Null), Ok(Normalized::Ready(Value::Null)));
}

#[test]
fn decimal_hint_reads_integers_and_text() {
    assert_eq!(one(ValueHint::Decimal, Value::I64(42)), Ok(Normalized::Ready(Value::Decimal("42".to_string()))));
    assert_eq!(one(ValueHint::Decimal, Value::I32(-7)), Ok(Normalized::Ready(Value::Decimal("-7".to_string()))));
    assert_eq!(
        one(ValueHint::Decimal, Value::String("1.50".to_string())),
        Ok(Normalized::Ready(Value::Decimal("1.50".to_string())))
    );
    assert_eq!(
        one(ValueHint::Decimal, Value::Decimal("3.25".to_string())),
        Ok(Normalized::Ready(Value::Decimal("3.25".to_string())))
    );
}

#[test]
fn decimal_hint_leaves_a_finite_double_to_the_host() {
    let bits = 2.5f64.to_bits();
    assert_eq!(one(ValueHint::Decimal, Value::F64(bits)), Ok(Normalized::DoubleDecimal(bits)));
    assert_eq!(
        one(ValueHint::Decimal, Value::F64(f64::NAN.to_bits())),
        Err(ProtocolError::DatabaseExecution(
            "Failed to normalize column 'price' at position 0 as Decimal from incompatible value F64".to_string()
        ))
    );
    assert_eq!(decimal_from_text("price", 0, "2.5"), Ok(Value::Decimal("2.5".to_string())));
}

#[test]
fn decimal_hint_refuses_text_and_kinds_it_cannot_read() {
    assert_eq!(
        one(ValueHint::Decimal, Value::String("abc".to_string())),
        Err(ProtocolError::DatabaseExecution(
            "Failed to normalize column 'price' at position 0 as Decimal from value \"abc\"".to_string()
        ))
    );
    assert_eq!(
        one(ValueHint::Decimal, Value::Bool(true)),
        Err(ProtocolError::DatabaseExecution(
            "Failed to normalize column 'price' at position 0 as Decimal from incompatible value Bool".to_string()
        ))
    );
}

#[test]
fn datetime_and_uuid_hints_parse_text() {
    assert_eq!(
        one(ValueHint::DateTime, Value::String("2024-01-02 03:04:05".to_string())),
        Ok(Normalized::Ready(Value::DateTime("2024-01-02 03:04:05".to_string())))
    );
    assert_eq!(
        one(ValueHint::DateTime, Value::String("yesterday".to_string())),
        Err(ProtocolError::DatabaseExecution(
            "Failed to normalize column 'price' at position 0 as DateTime from value \"yesterday\"".to_string()
        ))
    );
    assert_eq!(
        one(ValueHint::Uuid, Value::String("550e8400-e29b-41d4-a716-446655440000".to_string())),
        Ok(Normalized::Ready(Value::Uuid(0x550e8400e29b41d4a716446655440000)))
    );
    assert_eq!(
        one(ValueHint::Uuid, Value::I32(3)),
        Err(ProtocolError::DatabaseExecution(
            "Failed to normalize column 'price' at position 0 as Uuid from incompatible value I32".to_string()
        ))
    );
}

#[test]
fn json_hint_wraps_other_values_and_hands_text_on() {
    assert_eq!(
        one(ValueHint::Json, Value::String("{\"a\":1}".to_string())),
        Ok(Normalized::JsonText("{\"a\":1}".to_string()))
    );
    assert_eq!(
        one(ValueHint::Json, Value::I32(5)),
        Ok(Normalized::Ready(Value::Json(Json::Number(JsonNumber::PosInt(5)))))
    );
    assert_eq!(
        hint_parse_error("doc", 2, &ValueHint::Json, "{"),
        ProtocolError::DatabaseExecution("Failed to normalize column 'doc' at position 2 as Json from value \"{\"".to_string())
    );
}

#[test]
fn spatial_hints_wrap_text() {
    assert_eq!(
        one(ValueHint::Geometry, Value::String("POINT(1 2)".to_string())),
        Ok(Normalized::Ready(Value::Geometry("POINT(1 2)".to_string())))
    );
    assert_eq!(
        one(ValueHint::Geography, Value::String("POINT(1 2)".to_string())),
        Ok(Normalized::Ready(Value::Geography("POINT(1 2)".to_string())))
    );
}

#[test]
fn composite_hint_reads_a_record_literal_as_an_object() {
    let got = one(ValueHint::Composite(stats()), Value::String("(3,2.5,t,)".to_string()));
    assert_eq!(
        got,
        Ok(Normalized::Ready(Value::Json(Json::Object(vec![
            ("active".to_string(), Json::Bool(true)),
            ("label".to_string(), Json::Null),
            ("ratio".to_string(), Json::Number(JsonNumber::Float(2.5f64.to_bits()))),
            ("wins".to_string(), Json::Number(JsonNumber::PosInt(3))),
        ]))))
    );
    let text_kept = one(ValueHint::Composite(stats()), Value::String("(x,y,maybe,\"a,b\")".to_string()));
    assert_eq!(
        text_kept,
        Ok(Normalized::Ready(Value::Json(Json::Object(vec![
            ("active".to_string(), Json::String("maybe".to_string())),
            ("label".to_string(), Json::String("a,b".to_string())),
            ("ratio".to_string(), Json::String("y".to_string())),
            ("wins".to_string(), Json::String("x".to_string())),
        ]))))
    );
}

#[test]
fn composite_hint_refuses_text_without_parentheses() {
    assert_eq!(
        one(ValueHint::Composite(stats()), Value::String("3,2".to_string())),
        Err(ProtocolError::DatabaseExecution(
            "Failed to decode composite 'Stats' for column 'price' at position 0 from value \"3,2\"".to_string()
        ))
    );
    assert_eq!(one(ValueHint::Composite(stats()), Value::I64(1)), Ok(Normalized::Ready(Value::I64(1))));
}

#[test]
fn a_row_must_be_as_wide_as_its_hints() {
    let row = Row { columns: vec![("a".to_string(), Value::I32(1))] };
    assert_eq!(
        normalize_row_with_hints(row, &[None, Some(ValueHint::Decimal)]),
        Err(ProtocolError::Internal("Schema-aware normalization expected 2 projected columns, got 1".to_string()))
    );
}

#[test]
fn a_row_keeps_unhinted_columns_and_names() {
    let row = Row {
        columns: vec![
            ("id".to_string(), Value::I32(1)),
            ("total".to_string(), Value::I64(10)),
        ],
    };
    assert_eq!(
        normalize_row_with_hints(row, &[None, Some(ValueHint::Decimal)]),
        Ok(vec![
            ("id".to_string(), Normalized::Ready(Value::I32(1))),
            ("total".to_string(), Normalized::Ready(Value::Decimal("10".to_string()))),
        ])
    );
}

#[test]
fn the_first_refused_column_refuses_the_rows() {
    let good = Row { columns: vec![("at".to_string(), Value::String("2024-01-02 03:04:05".to_string()))] };
    let bad = Row { columns: vec![("at".to_string(), Value::Bool(false))] };
    assert_eq!(
        normalize_rows_with_hints(vec![good, bad], &[Some(ValueHint::DateTime)]),
        Err(ProtocolError::DatabaseExecution(
            "Failed to normalize column 'at' at position 0 as DateTime from incompatible value Bool".to_string()
        ))
    );
}

#[test]
fn bool_hint_reads_integers_as_booleans() {
    assert_eq!(one(ValueHint::Bool, Value::I32(1)), Ok(Normalized::Ready(Value::Bool(true))));
    assert_eq!(one(ValueHint::Bool, Value::I64(0)), Ok(Normalized::Ready(Value::Bool(false))));
    assert_eq!(one(ValueHint::Bool, Value::Bool(true)), Ok(Normalized::Ready(Value::Bool(true))));
    assert_eq!(
        one(ValueHint::Bool, Value::String("yes".to_string())),
        Err(ProtocolError::DatabaseExecution(
            "Failed to normalize column 'price' at position 0 as Boolean from incompatible value String".to_string()
        ))
    );
}

#[test]
fn int_hint_widens_truncates_and_parses() {
    assert_eq!(one(ValueHint::Int, Value::I32(5)), Ok(Normalized::Ready(Value::I64(5))));
    assert_eq!(one(ValueHint::Int, Value::Decimal("12.9".to_string())), Ok(Normalized::Ready(Value::I64(12))));
    assert_eq!(one(ValueHint::Int, Value::Decimal("-3.7".to_string())), Ok(Normalized::Ready(Value::I64(-3))));
    assert_eq!(one(ValueHint::Int, Value::String("+42".to_string())), Ok(Normalized::Ready(Value::I64(42))));
    let bits = 7.9f64.to_bits();
    assert_eq!(one(ValueHint::Int, Value::F64(bits)), Ok(Normalized::DoubleInt(bits)));
    assert_eq!(
        one(ValueHint::Int, Value::String("4x".to_string())),
        Err(ProtocolError::DatabaseExecution(
            "Failed to normalize column 'price' at position 0 as Int from value \"4x\"".to_string()
        ))
    );
}

#[test]
fn float_hint_converts_integers_and_hands_text_on() {
    assert_eq!(one(ValueHint::Float, Value::I64(3)), Ok(Normalized::Ready(Value::F64(3.0f64.to_bits()))));
    assert_eq!(one(ValueHint::Float, Value::I32(-2)), Ok(Normalized::Ready(Value::F64((-2.0f64).to_bits()))));
    assert_eq!(
        one(ValueHint::Float, Value::String("2.5".to_string())),
        Ok(Normalized::DoubleText("2.5".to_string()))
    );
    assert_eq!(
        one(ValueHint::Float, Value::Decimal("1.25".to_string())),
        Ok(Normalized::DoubleText("1.25".to_string()))
    );
    assert_eq!(
        one(ValueHint::Float, Value::Bool(false)),
        Err(ProtocolError::DatabaseExecution(
            "Failed to normalize column 'price' at position 0 as Float from incompatible value Bool".to_string()
        ))
    );
}
