use nautilus::args::{ensure_known_arg_keys, ensure_nearest_supported};
use nautilus::ast::{BinaryOp, Value};
use nautilus::conversion::{
    accepts_arithmetic, atomic_operator, atomic_operator_sql, detect_uuid, ensure_scalar_input, holds_structured_json, json_to_value, ResolvedFieldType,
    ScalarType,
};
use nautilus::json::{Json, JsonNumber};
use nautilus::protocol::ProtocolError;

fn text(s: &str) -> Json {
    Json::String(s.to_string())
}

#[test]
fn uuid_shaped_strings_are_detected() {
    assert_eq!(
        detect_uuid("550e8400-e29b-41d4-a716-446655440000"),
        Some(0x550e8400e29b41d4a716446655440000)
    );
    assert_eq!(detect_uuid("550e8400e29b41d4a716446655440000"), Some(0x550e8400e29b41d4a716446655440000));
    assert_eq!(detect_uuid("{550e8400-e29b-41d4-a716-446655440000}"), Some(0x550e8400e29b41d4a716446655440000));
    assert_eq!(detect_uuid("550e8400xe29b-41d4-a716-446655440000"), None);
    assert_eq!(detect_uuid("hello"), None);
}

#[test]
fn numbers_bind_by_width() {
    assert_eq!(json_to_value(&Json::Number(JsonNumber::PosInt(7))), Ok(Value::I32(7)));
    assert_eq!(
        json_to_value(&Json::Number(JsonNumber::PosInt(1 << 40))),
        Ok(Value::I64(1 << 40))
    );
    assert_eq!(json_to_value(&Json::Number(JsonNumber::NegInt(-5))), Ok(Value::I32(-5)));
    assert_eq!(
        json_to_value(&Json::Number(JsonNumber::NegInt(-(1 << 40)))),
        Ok(Value::I64(-(1 << 40)))
    );
    assert_eq!(
        json_to_value(&Json::Number(JsonNumber::PosInt(u64::MAX))),
        Ok(Value::F64((u64::MAX as f64).to_bits()))
    );
    assert_eq!(
        json_to_value(&Json::Number(JsonNumber::Float(1.5f64.to_bits()))),
        Ok(Value::F64(1.5f64.to_bits()))
    );
}

#[test]
fn strings_arrays_and_objects_convert() {
    assert_eq!(json_to_value(&text("hi")), Ok(Value::String("hi".to_string())));
    assert_eq!(
        json_to_value(&text("550e8400-e29b-41d4-a716-446655440000")),
        Ok(Value::Uuid(0x550e8400e29b41d4a716446655440000))
    );
    assert_eq!(
        json_to_value(&Json::Array(vec![Json::Null, Json::Bool(true)])),
        Ok(Value::Array(vec![Value::Null, Value::Bool(true)]))
    );
    let object = Json::Object(vec![("a".to_string(), Json::Null)]);
    assert_eq!(json_to_value(&object), Ok(Value::Json(Json::Object(vec![("a".to_string(), Json::Null)]))));
}

#[test]
fn structured_input_is_refused_for_scalar_fields() {
    let int = ResolvedFieldType::Scalar(ScalarType::Int);
    assert!(!holds_structured_json(&int, false));
    assert!(holds_structured_json(&int, true));
    assert!(holds_structured_json(&ResolvedFieldType::Scalar(ScalarType::Json), false));
    assert!(ensure_scalar_input(&text("x"), &int, false, "age").is_ok());
    assert_eq!(
        ensure_scalar_input(
            &Json::Object(vec![("increment".to_string(), Json::Number(JsonNumber::PosInt(1)))]),
            &int,
            false,
            "age"
        ),
        Err(ProtocolError::InvalidParams(
            "Field 'age' does not support the update operator 'increment'".to_string()
        ))
    );
    assert_eq!(
        ensure_scalar_input(&Json::Array(vec![]), &int, false, "age"),
        Err(ProtocolError::InvalidParams(
            "Field 'age' holds a single scalar value but received an array".to_string()
        ))
    );
    assert_eq!(
        ensure_scalar_input(&Json::Object(vec![]), &int, false, "age"),
        Err(ProtocolError::InvalidParams(
            "Field 'age' holds a single scalar value but received an object".to_string()
        ))
    );
}

fn int_field(name: &str) -> nautilus::model::FieldIr {
    nautilus::model::FieldIr {
        logical_name: name.to_string(),
        db_name: name.to_string(),
        field_type: ResolvedFieldType::Scalar(ScalarType::Int),
        is_array: false,
        is_updated_at: false,
        default_value: None,
    }
}

#[test]
fn atomic_operators_read_one_operator_objects() {
    assert_eq!(atomic_operator_sql("increment"), Some(BinaryOp::Add));
    assert_eq!(atomic_operator_sql("divide"), Some(BinaryOp::Div));
    assert_eq!(atomic_operator_sql("set"), None);
    let views = int_field("views");
    assert!(accepts_arithmetic(&views));
    let one = Json::Number(JsonNumber::PosInt(1));
    let inc = Json::Object(vec![("increment".to_string(), one)]);
    assert_eq!(
        atomic_operator(&inc, &views),
        Ok(Some(("increment", &Json::Number(JsonNumber::PosInt(1)))))
    );
    let two = Json::Object(vec![
        ("increment".to_string(), Json::Null),
        ("decrement".to_string(), Json::Null),
    ]);
    assert_eq!(
        atomic_operator(&two, &views),
        Err(ProtocolError::InvalidParams(
            "Field 'views' takes one update operator at a time".to_string()
        ))
    );
    let plain = Json::Object(vec![("a".to_string(), Json::Null)]);
    assert_eq!(atomic_operator(&plain, &views), Ok(None));
    let mut json_field = int_field("meta");
    json_field.field_type = ResolvedFieldType::Scalar(ScalarType::Json);
    assert_eq!(atomic_operator(&inc, &json_field), Ok(None));
    assert!(!accepts_arithmetic(&json_field));
}

#[test]
fn unknown_arguments_are_refused_with_a_suggestion() {
    let allowed = ["where", "orderBy", "take"];
    let args = vec![("where".to_string(), Json::Null), ("_OrderBy".to_string(), Json::Null)];
    assert_eq!(
        ensure_known_arg_keys(&args, "findMany", &allowed),
        Err(ProtocolError::InvalidParams(
            "unknown argument '_OrderBy' in findMany args (did you mean 'orderBy'?); supported arguments are: where, orderBy, take".to_string()
        ))
    );
    let args = vec![("limit".to_string(), Json::Null)];
    assert_eq!(
        ensure_known_arg_keys(&args, "findMany", &allowed),
        Err(ProtocolError::InvalidParams(
            "unknown argument 'limit' in findMany args; supported arguments are: where, orderBy, take".to_string()
        ))
    );
    assert!(ensure_known_arg_keys(&vec![("take".to_string(), Json::Null)], "findMany", &allowed).is_ok());
    assert!(ensure_nearest_supported(false, None, true, true, &[]).is_ok());
    assert_eq!(
        ensure_nearest_supported(true, Some(0), false, false, &[]),
        Err(ProtocolError::InvalidParams("'nearest' requires a positive 'take' limit".to_string()))
    );
    assert_eq!(
        ensure_nearest_supported(true, Some(3), false, true, &[]),
        Err(ProtocolError::InvalidParams("'nearest' cannot be combined with 'cursor'".to_string()))
    );
    assert_eq!(
        ensure_nearest_supported(true, Some(3), false, false, &["a".to_string()]),
        Err(ProtocolError::InvalidParams("'nearest' cannot be combined with 'distinct'".to_string()))
    );
    assert!(ensure_nearest_supported(true, Some(3), false, false, &[]).is_ok());
}
