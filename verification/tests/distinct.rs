use nautilus::ast::Value;
use nautilus::distinct::{same_value, DistinctFallback};
use nautilus::json::{Json, JsonNumber};
use nautilus::model::Row;

fn row(id: i32, city: &str) -> Row {
    Row {
        columns: vec![
            ("users__id".to_string(), Value::I32(id)),
            ("users__city".to_string(), Value::String(city.to_string())),
        ],
    }
}

fn ids(rows: &[Row]) -> Vec<i32> {
    rows.iter()
        .map(|r| match r.columns[0].1 {
            Value::I32(i) => i,
            _ => panic!("id column expected"),
        })
        .collect()
}

fn by_city(skip: u32, take: Option<i32>) -> DistinctFallback {
    DistinctFallback { columns: vec!["users__city".to_string()], skip, take }
}

fn rows() -> Vec<Row> {
    vec![row(1, "Oslo"), row(2, "Rome"), row(3, "Oslo"), row(4, "Lima"), row(5, "Rome"), row(6, "Kyiv")]
}

#[test]
fn the_first_row_of_each_combination_is_kept() {
    assert_eq!(ids(&by_city(0, None).apply(rows())), vec![1, 2, 4, 6]);
}

#[test]
fn the_window_applies_to_distinct_rows() {
    assert_eq!(ids(&by_city(1, Some(2)).apply(rows())), vec![2, 4]);
    assert_eq!(ids(&by_city(3, None).apply(rows())), vec![6]);
    assert_eq!(ids(&by_city(0, Some(-1)).apply(rows())), vec![1, 2, 4, 6]);
    assert_eq!(ids(&by_city(0, Some(0)).apply(rows())), Vec::<i32>::new());
    assert_eq!(ids(&by_city(2, Some(0)).apply(rows())), Vec::<i32>::new());
}

#[test]
fn a_missing_column_compares_as_absent() {
    let fallback = DistinctFallback { columns: vec!["users__zip".to_string()], skip: 0, take: None };
    assert_eq!(ids(&fallback.apply(rows())), vec![1]);
}

#[test]
fn values_compare_by_variant_and_content() {
    assert!(same_value(&Value::String("a".to_string()), &Value::String("a".to_string())));
    assert!(!same_value(&Value::String("1".to_string()), &Value::Decimal("1".to_string())));
    assert!(!same_value(&Value::I32(1), &Value::I64(1)));
    assert!(same_value(
        &Value::Array(vec![Value::Json(Json::Array(vec![Json::Number(JsonNumber::PosInt(1))]))]),
        &Value::Array(vec![Value::Json(Json::Array(vec![Json::Number(JsonNumber::PosInt(1))]))])
    ));
    assert!(!same_value(
        &Value::Composite { sql_type: "t".to_string(), fields: vec![Value::Null] },
        &Value::Composite { sql_type: "t".to_string(), fields: vec![Value::Bool(false)] }
    ));
}

#[test]
fn every_nan_is_the_same_value() {
    let quiet = Value::F64(f64::NAN.to_bits());
    let other = Value::F64(0x7FF0_0000_0000_0001);
    assert!(same_value(&quiet, &other));
    assert!(!same_value(&Value::F64(0.0f64.to_bits()), &Value::F64((-0.0f64).to_bits())));
}
