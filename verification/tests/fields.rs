use nautilus::ast::Value;
use nautilus::conversion::{ResolvedFieldType, ScalarType};
use nautilus::field::{
    json_object_to_hstore, json_to_hstore_value, json_to_spatial_value, json_to_value_composite,
    json_to_value_field, json_to_vector_value, parse_datetime, SpatialKind,
};
use nautilus::json::{Json, JsonNumber};
use nautilus::model::{CompositeFieldIr, CompositeTypeIr};
use nautilus::protocol::{check_protocol_version, ProtocolError};

fn text(s: &str) -> Json {
    Json::String(s.to_string())
}

fn num(n: u64) -> Json {
    Json::Number(JsonNumber::PosInt(n))
}

fn float(x: f64) -> Json {
    Json::Number(JsonNumber::Float(x.to_bits()))
}

fn object(members: Vec<(&str, Json)>) -> Json {
    Json::Object(members.into_iter().map(|(k, v)| (k.to_string(), v)).collect())
}

fn composite_field(logical: &str, db: &str, scalar: ScalarType) -> CompositeFieldIr {
    CompositeFieldIr {
        logical_name: logical.to_string(),
        db_name: db.to_string(),
        field_type: ResolvedFieldType::Scalar(scalar),
        is_array: false,
    }
}

/// `type Address { street String  number Int  lat Float }`.
fn address_composite() -> CompositeTypeIr {
    CompositeTypeIr {
        logical_name: "Address".to_string(),
        db_name: "address".to_string(),
        fields: vec![
            composite_field("street", "street", ScalarType::String),
            composite_field("number", "number", ScalarType::Int),
            composite_field("lat", "lat", ScalarType::Float),
        ],
    }
}

/// `type Address { street String  zip String @map("zip_code")  @@map("address_t") }`.
fn mapped_address_composite() -> CompositeTypeIr {
    CompositeTypeIr {
        logical_name: "Address".to_string(),
        db_name: "address_t".to_string(),
        fields: vec![
            composite_field("street", "street", ScalarType::String),
            composite_field("zip", "zip_code", ScalarType::String),
        ],
    }
}

fn invalid_params(r: Result<Value, ProtocolError>) -> String {
    match r {
        Err(ProtocolError::InvalidParams(m)) => m,
        other => panic!("expected InvalidParams, got {:?}", other),
    }
}

fn check_projects_fields_in_declared_order() {
    let composite = address_composite();
    let json = object(vec![("lat", float(1.5)), ("street", text("Main")), ("number", num(3))]);
    let value = json_to_value_composite(&json, &composite).expect("should convert");
    assert_eq!(
        value,
        Value::Composite {
            sql_type: "address".to_string(),
            fields: vec![
                Value::String("Main".to_string()),
                Value::I32(3),
                Value::F64(1.5f64.to_bits())
            ],
        }
    );
}

fn check_uses_mapped_type_name() {
    let composite = mapped_address_composite();
    let json = object(vec![("street", text("Main")), ("zip_code", text("12345"))]);
    let value = json_to_value_composite(&json, &composite).expect("should convert");
    assert_eq!(
        value,
        Value::Composite {
            sql_type: "address_t".to_string(),
            fields: vec![Value::String("Main".to_string()), Value::String("12345".to_string())],
        }
    );
}

fn check_missing_keys_become_null() {
    let composite = address_composite();
    let json = object(vec![("number", num(5))]);
    let value = json_to_value_composite(&json, &composite).expect("should convert");
    assert_eq!(
        value,
        Value::Composite {
            sql_type: "address".to_string(),
            fields: vec![Value::Null, Value::I32(5), Value::Null],
        }
    );
}

fn check_null_input_is_null() {
    let composite = address_composite();
    let value = json_to_value_composite(&Json::Null, &composite).expect("should convert");
    assert_eq!(value, Value::Null);
}

fn check_non_object_is_rejected() {
    let composite = address_composite();
    let err = invalid_params(json_to_value_composite(&text("oops"), &composite));
    assert!(err.contains("expects a JSON object"));
}

#[test]
fn conversion_composite_object_projects_fields_in_declared_order() {
    check_projects_fields_in_declared_order();
}

#[test]
fn composite_composite_object_projects_fields_in_declared_order() {
    check_projects_fields_in_declared_order();
}

#[test]
fn conversion_composite_uses_mapped_type_name_for_cast() {
    check_uses_mapped_type_name();
}

#[test]
fn composite_composite_uses_mapped_type_name_for_cast() {
    check_uses_mapped_type_name();
}

#[test]
fn conversion_composite_missing_keys_become_null_slots() {
    check_missing_keys_become_null();
}

#[test]
fn composite_composite_missing_keys_become_null_slots() {
    check_missing_keys_become_null();
}

#[test]
fn conversion_composite_null_input_is_null() {
    check_null_input_is_null();
}

#[test]
fn composite_composite_null_input_is_null() {
    check_null_input_is_null();
}

#[test]
fn conversion_composite_non_object_is_rejected() {
    check_non_object_is_rejected();
}

#[test]
fn composite_composite_non_object_is_rejected() {
    check_non_object_is_rejected();
}

#[test]
fn composite_errors_name_the_type_and_the_input_kind() {
    let err = invalid_params(json_to_value_composite(&num(3), &address_composite()));
    assert_eq!(err, "Composite type 'Address' expects a JSON object, got a number");
}

fn role() -> ResolvedFieldType {
    ResolvedFieldType::Enum {
        enum_name: "UserRole".to_string(),
        variants: vec!["ADMIN".to_string(), "MEMBER".to_string()],
    }
}

#[test]
fn enum_inputs_are_checked_against_their_variants() {
    assert_eq!(
        json_to_value_field(&text("ADMIN"), &role()),
        Ok(Value::Enum { sql_type: "userrole".to_string(), value: "ADMIN".to_string() })
    );
    assert_eq!(json_to_value_field(&Json::Null, &role()), Ok(Value::Null));
    assert_eq!(
        invalid_params(json_to_value_field(&text("GUEST"), &role())),
        "'GUEST' is not a variant of enum UserRole; expected one of: ADMIN, MEMBER"
    );
    assert_eq!(json_to_value_field(&num(2), &role()), Ok(Value::I32(2)));
}

#[test]
fn text_fields_keep_uuid_shaped_strings_as_text() {
    let uuid = "550e8400-e29b-41d4-a716-446655440000";
    assert_eq!(
        json_to_value_field(&text(uuid), &ResolvedFieldType::Scalar(ScalarType::String)),
        Ok(Value::String(uuid.to_string()))
    );
    assert_eq!(
        json_to_value_field(&text(uuid), &ResolvedFieldType::Scalar(ScalarType::Uuid)),
        Ok(Value::Uuid(0x550e8400e29b41d4a716446655440000))
    );
}

#[test]
fn decimal_strings_are_parsed() {
    let decimal = ResolvedFieldType::Scalar(ScalarType::Decimal);
    assert_eq!(json_to_value_field(&text("12.50"), &decimal), Ok(Value::Decimal("12.50".to_string())));
    assert_eq!(
        invalid_params(json_to_value_field(&text("twelve"), &decimal)),
        "'twelve' is not a valid Decimal"
    );
}

#[test]
fn timestamps_are_read_in_rfc3339_and_plain_spellings() {
    assert_eq!(parse_datetime("2024-01-02T03:04:05Z"), Some("2024-01-02 03:04:05".to_string()));
    assert_eq!(parse_datetime("2024-01-02T05:04:05+02:00"), Some("2024-01-02 03:04:05".to_string()));
    assert_eq!(parse_datetime("2024-01-02 03:04:05"), Some("2024-01-02 03:04:05".to_string()));
    assert_eq!(parse_datetime("2024-01-02T03:04:05.250"), Some("2024-01-02 03:04:05.250".to_string()));
    assert_eq!(parse_datetime("yesterday"), None);
    let datetime = ResolvedFieldType::Scalar(ScalarType::DateTime);
    assert_eq!(
        json_to_value_field(&text("2024-01-02T03:04:05Z"), &datetime),
        Ok(Value::DateTime("2024-01-02 03:04:05".to_string()))
    );
    assert_eq!(
        json_to_value_field(&text("yesterday"), &datetime),
        Ok(Value::String("yesterday".to_string()))
    );
}

#[test]
fn extension_text_is_tagged_with_its_type() {
    assert_eq!(
        json_to_value_field(&text("Alice"), &ResolvedFieldType::Scalar(ScalarType::Citext)),
        Ok(Value::Extension { sql_type: "citext".to_string(), value: "Alice".to_string() })
    );
    assert_eq!(
        json_to_value_field(&text("a.b"), &ResolvedFieldType::Scalar(ScalarType::Ltree)),
        Ok(Value::Extension { sql_type: "ltree".to_string(), value: "a.b".to_string() })
    );
}

#[test]
fn hstore_maps_keep_the_last_value_per_key_in_key_order() {
    let entries = vec![
        ("b".to_string(), text("2")),
        ("a".to_string(), Json::Null),
        ("b".to_string(), text("3")),
    ];
    assert_eq!(
        json_object_to_hstore(&entries),
        Ok(vec![("a".to_string(), None), ("b".to_string(), Some("3".to_string()))])
    );
    assert_eq!(
        invalid_params(json_to_hstore_value(&object(vec![("k", num(1))]))),
        "Hstore values must be strings or nulls; key \"k\" received a number"
    );
    assert_eq!(
        json_to_hstore_value(&Json::Array(vec![Json::Null, object(vec![("k", text("v"))])])),
        Ok(Value::Array(vec![
            Value::Null,
            Value::Hstore(vec![("k".to_string(), Some("v".to_string()))])
        ]))
    );
    assert_eq!(
        invalid_params(json_to_hstore_value(&Json::Array(vec![text("x")]))),
        "Hstore arrays must contain only objects or nulls, got a string"
    );
    assert_eq!(
        invalid_params(json_to_hstore_value(&text("x"))),
        "Hstore values must be JSON objects with string or null values, got a string"
    );
}

#[test]
fn vectors_need_their_dimension_and_finite_f32_numbers() {
    let value = json_to_vector_value(&Json::Array(vec![num(1), float(0.5), Json::Number(JsonNumber::NegInt(-2))]), 3);
    assert_eq!(
        value,
        Ok(Value::Vector(vec![1.0f64.to_bits(), 0.5f64.to_bits(), (-2.0f64).to_bits()]))
    );
    assert_eq!(
        invalid_params(json_to_vector_value(&Json::Array(vec![num(1)]), 2)),
        "Vector value has 1 dimensions but schema requires 2"
    );
    assert_eq!(
        invalid_params(json_to_vector_value(&Json::Array(vec![num(1), float(1e39)]), 2)),
        "Vector element 1 is outside the finite f32 range"
    );
    assert!(json_to_vector_value(&Json::Array(vec![float(f32::MAX as f64)]), 1).is_ok());
    assert!(json_to_vector_value(&Json::Array(vec![float(-(f32::MAX as f64))]), 1).is_ok());
    assert!(json_to_vector_value(&Json::Array(vec![float(f64::INFINITY)]), 1).is_err());
    assert!(json_to_vector_value(&Json::Array(vec![float(f64::NAN)]), 1).is_err());
    assert_eq!(
        invalid_params(json_to_vector_value(&Json::Array(vec![text("x")]), 1)),
        "Vector values must be arrays of finite numbers; element 0 was a string"
    );
    assert_eq!(
        invalid_params(json_to_vector_value(&text("x"), 1)),
        "Vector values must be arrays of finite numbers, got a string"
    );
    assert_eq!(json_to_vector_value(&Json::Null, 4), Ok(Value::Null));
}

#[test]
fn spatial_inputs_are_strings_or_arrays_of_strings() {
    assert_eq!(
        json_to_spatial_value(&text("POINT(1 2)"), SpatialKind::Geometry),
        Ok(Value::Geometry("POINT(1 2)".to_string()))
    );
    assert_eq!(
        json_to_spatial_value(&Json::Array(vec![text("POINT(1 2)")]), SpatialKind::Geography),
        Ok(Value::Array(vec![Value::Geography("POINT(1 2)".to_string())]))
    );
    assert_eq!(
        invalid_params(json_to_spatial_value(&Json::Array(vec![text("P"), num(1)]), SpatialKind::Geometry)),
        "Geometry arrays must contain only strings; element 1 was a number"
    );
    assert_eq!(
        invalid_params(json_to_spatial_value(&num(1), SpatialKind::Geography)),
        "Geography values must be strings containing WKT/EWKT or EWKB hex, got a number"
    );
}

#[test]
fn protocol_versions_are_accepted_within_the_supported_range() {
    assert_eq!(check_protocol_version(1, 1, 2), Ok(()));
    assert_eq!(check_protocol_version(2, 1, 2), Ok(()));
    assert_eq!(
        check_protocol_version(3, 1, 2),
        Err(ProtocolError::UnsupportedProtocolVersion { actual: 3, expected: 2 })
    );
    assert_eq!(
        check_protocol_version(0, 1, 2),
        Err(ProtocolError::UnsupportedProtocolVersion { actual: 0, expected: 2 })
    );
}
