use nautilus::args::{parse_nearest_query, VectorMetric};
use nautilus::ast::{OrderBy, OrderDir, Value};
use nautilus::conversion::{ResolvedFieldType, ScalarType};
use nautilus::hydrate::empty_include_value;
use nautilus::json::{Json, JsonNumber};
use nautilus::naming::normalize_order_by;
use nautilus::protocol::ProtocolError;

fn types() -> Vec<(String, ResolvedFieldType)> {
    vec![
        ("embedding".to_string(), ResolvedFieldType::Scalar(ScalarType::Vector { dimension: 2 })),
        ("title".to_string(), ResolvedFieldType::Scalar(ScalarType::String)),
    ]
}

fn member(k: &str, v: Json) -> (String, Json) {
    (k.to_string(), v)
}

fn text(s: &str) -> Json {
    Json::String(s.to_string())
}

fn num(n: u64) -> Json {
    Json::Number(JsonNumber::PosInt(n))
}

fn nearest(field: Json, query: Option<Json>, metric: Option<Json>) -> Json {
    let mut members = vec![member("field", field)];
    if let Some(m) = metric {
        members.push(member("metric", m));
    }
    if let Some(q) = query {
        members.push(member("query", q));
    }
    Json::Object(members)
}

fn refused(m: &str) -> Result<(), ProtocolError> {
    Err(ProtocolError::InvalidParams(m.to_string()))
}

fn outcome(value: &Json) -> Result<(), ProtocolError> {
    parse_nearest_query(value, &types()).map(|_| ())
}

#[test]
fn nearest_query_is_parsed_with_its_metric() {
    let value = nearest(text("embedding"), Some(Json::Array(vec![num(1), num(2)])), Some(text("cosine")));
    let parsed = parse_nearest_query(&value, &types()).unwrap();
    assert_eq!(parsed.field, "embedding");
    assert_eq!(parsed.metric, VectorMetric::Cosine);
    assert_eq!(parsed.query, vec![1.0f64.to_bits(), 2.0f64.to_bits()]);
    let l2 = nearest(text("embedding"), Some(Json::Array(vec![num(0), num(0)])), Some(text("l2")));
    assert_eq!(parse_nearest_query(&l2, &types()).unwrap().metric, VectorMetric::L2);
    let ip = nearest(text("embedding"), Some(Json::Array(vec![num(0), num(0)])), Some(text("innerProduct")));
    assert_eq!(parse_nearest_query(&ip, &types()).unwrap().metric, VectorMetric::InnerProduct);
}

#[test]
fn nearest_query_refusals() {
    assert_eq!(outcome(&Json::Null), refused("'nearest' must be an object"));
    assert_eq!(outcome(&nearest(num(1), None, None)), refused("'nearest.field' must be a string"));
    assert_eq!(
        outcome(&nearest(text("missing"), None, None)),
        refused("'nearest.field' references unknown field 'missing'")
    );
    assert_eq!(
        outcome(&nearest(text("title"), None, None)),
        refused("'nearest.field' must reference a Vector field, got 'title'")
    );
    assert_eq!(outcome(&nearest(text("embedding"), None, None)), refused("'nearest.query' is required"));
    assert_eq!(
        outcome(&nearest(text("embedding"), Some(Json::Null), Some(text("l2")))),
        refused("'nearest.query' must be a vector")
    );
    assert_eq!(
        outcome(&nearest(text("embedding"), Some(Json::Array(vec![num(1)])), Some(text("l2")))),
        refused("Vector value has 1 dimensions but schema requires 2")
    );
    assert_eq!(
        outcome(&nearest(text("embedding"), Some(Json::Array(vec![num(1), num(2)])), Some(text("manhattan")))),
        refused("Unsupported nearest metric 'manhattan'; expected one of: l2, innerProduct, cosine")
    );
    assert_eq!(
        outcome(&nearest(text("embedding"), Some(Json::Array(vec![num(1), num(2)])), None)),
        refused("'nearest.metric' is required")
    );
}

#[test]
fn order_by_names_lose_their_table_qualifier() {
    let orders = vec![
        OrderBy { column: "posts__title".to_string(), direction: OrderDir::Desc },
        OrderBy { column: "id".to_string(), direction: OrderDir::Asc },
    ];
    assert_eq!(
        normalize_order_by(&orders),
        vec![
            OrderBy { column: "title".to_string(), direction: OrderDir::Desc },
            OrderBy { column: "id".to_string(), direction: OrderDir::Asc },
        ]
    );
}

#[test]
fn a_parent_without_a_key_gets_an_empty_relation_value() {
    assert_eq!(empty_include_value(true), Value::Json(Json::Array(vec![])));
    assert_eq!(empty_include_value(false), Value::Null);
}
