use nautilus::ast::{OrderBy, OrderDir, Value};
use nautilus::conversion::{ResolvedFieldType, ScalarType};
use nautilus::json::{Json, JsonNumber};
use nautilus::protocol::ProtocolError;
use nautilus::query_args::parse_query_args;

const ALLOWED: [&str; 9] = ["where", "orderBy", "take", "skip", "cursor", "with", "select", "distinct", "nearest"];

fn types() -> Vec<(String, ResolvedFieldType)> {
    vec![
        ("id".to_string(), ResolvedFieldType::Scalar(ScalarType::Int)),
        ("title".to_string(), ResolvedFieldType::Scalar(ScalarType::String)),
    ]
}

fn member(k: &str, v: Json) -> (String, Json) {
    (k.to_string(), v)
}

fn num(n: i64) -> Json {
    if n >= 0 {
        Json::Number(JsonNumber::PosInt(n as u64))
    } else {
        Json::Number(JsonNumber::NegInt(n))
    }
}

fn parse(members: Vec<(String, Json)>) -> Result<nautilus::query_args::QueryArgs, ProtocolError> {
    parse_query_args(Some(&Json::Object(members)), "query", &ALLOWED, "with", &types())
}

fn refused(m: &str) -> Option<ProtocolError> {
    Some(ProtocolError::InvalidParams(m.to_string()))
}

#[test]
fn arguments_are_parsed_and_a_negative_take_reads_backward() {
    let q = parse(vec![
        member("cursor", Json::Object(vec![member("id", num(4))])),
        member("distinct", Json::Array(vec![Json::String("title".to_string())])),
        member("orderBy", Json::Array(vec![Json::Object(vec![member("title", Json::String("desc".to_string()))])])),
        member("skip", num(1)),
        member("take", num(-3)),
        member("where", Json::Object(vec![member("id", num(1))])),
    ])
    .unwrap();
    assert_eq!(q.take, Some(3));
    assert!(q.backward);
    assert_eq!(q.skip, Some(1));
    assert_eq!(q.order_by, vec![OrderBy { column: "title".to_string(), direction: OrderDir::Desc }]);
    assert_eq!(q.cursor, Some(vec![("id".to_string(), Value::I32(4))]));
    assert_eq!(q.distinct, vec!["title".to_string()]);
    assert_eq!(q.filter, Some(Json::Object(vec![member("id", num(1))])));
    assert!(q.relations.is_none());
}

#[test]
fn no_arguments_ask_for_everything() {
    let q = parse_query_args(None, "query", &ALLOWED, "with", &types()).unwrap();
    assert_eq!(q.take, None);
    assert!(!q.backward);
    assert!(q.order_by.is_empty());
}

#[test]
fn argument_refusals() {
    assert_eq!(
        parse_query_args(Some(&Json::Null), "query", &ALLOWED, "with", &types()).err(),
        refused("args must be an object")
    );
    assert_eq!(parse(vec![member("take", Json::String("x".to_string()))]).err(), refused("take must be an integer"));
    assert_eq!(
        parse(vec![member("take", num(-3_000_000_000))]).err(),
        refused("take must fit in a 32-bit integer, got -3000000000")
    );
    assert_eq!(parse(vec![member("skip", num(-1))]).err(), refused("skip must be a non-negative integer"));
    assert_eq!(parse(vec![member("cursor", num(1))]).err(), refused("cursor must be an object"));
    assert_eq!(parse(vec![member("distinct", num(1))]).err(), refused("'distinct' must be an array of field names"));
    assert_eq!(
        parse(vec![member("distinct", Json::Array(vec![num(1)]))]).err(),
        refused("each entry in 'distinct' must be a string field name")
    );
    assert_eq!(
        parse(vec![member("orderBy", num(1))]).err(),
        Some(ProtocolError::InvalidFilter("orderBy must be an array".to_string()))
    );
    assert!(matches!(parse(vec![member("limit", num(1))]).err(), Some(ProtocolError::InvalidParams(_))));
}

#[test]
fn a_projection_cannot_come_with_relations_to_load() {
    let clash = "'select' and 'include' cannot be used together. Use 'select' for projection only, or 'include' for relation loading.";
    assert_eq!(
        parse(vec![
            member("select", Json::Object(vec![member("title", Json::Bool(true))])),
            member("with", Json::Object(vec![member("posts", Json::Bool(true))])),
        ])
        .err(),
        refused(clash)
    );
    assert!(parse(vec![
        member("select", Json::Object(vec![member("title", Json::Bool(false))])),
        member("with", Json::Object(vec![member("posts", Json::Bool(true))])),
    ])
    .is_ok());
    assert!(parse(vec![
        member("select", Json::Object(vec![member("title", Json::Bool(true))])),
        member("with", Json::Object(vec![member("posts", Json::Bool(false))])),
    ])
    .is_ok());
}
