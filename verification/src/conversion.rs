//! JSON request values converted into statement values: integers by width,
//! UUID-shaped strings into UUIDs, arrays element by element, and objects
//! kept as JSON.
use vstd::prelude::*;
use vstd::utf8::encode_utf8;

use crate::ast::Value;
use crate::json::{json_clone, Json, JsonNumber};
use crate::protocol::{json_as_i64, ProtocolError};

verus! {

/// What `uuid::Uuid::parse_str` yields for `text`, as a 128-bit value.
pub uninterp spec fn uuid_parse(text: Seq<char>) -> Option<u128>;

/// What `serde_json::Number::as_f64` yields for a non-negative integer, by the
/// bit pattern of the `f64`.
pub uninterp spec fn u64_as_f64_bits(n: u64) -> u64;

/// `uuid::Uuid::parse_str`, read as a 128-bit value: it only ever accepts
/// inputs of 32, 36, 38 or 45 bytes (simple, hyphenated, braced, URN).
#[verifier::external_body]
pub(crate) fn parse_uuid(s: &str) -> (r: Option<u128>)
    ensures
        r == uuid_parse(s@),
        r is Some ==> encode_utf8(s@).len() == 32 || encode_utf8(s@).len() == 36
            || encode_utf8(s@).len() == 38 || encode_utf8(s@).len() == 45,
{
    uuid::Uuid::parse_str(s).ok().map(|u| u.as_u128())
}

/// `serde_json::Number::as_f64` on a non-negative integer, by the bit pattern
/// of the `f64`; without the crate's `arbitrary_precision` feature it always
/// answers.
#[verifier::external_body]
pub(crate) fn positive_as_f64_bits(n: u64) -> (r: u64)
    ensures
        r == u64_as_f64_bits(n),
{
    serde_json::Number::from(n).as_f64().map(|x| x.to_bits()).unwrap_or_default()
}

/// The UUID a string is taken for: one of the shapes `parse_str` accepts that
/// parses, except a 36-byte string without a hyphen at byte 8.
pub open spec fn detected_uuid(text: Seq<char>) -> Option<u128> {
    let b = encode_utf8(text);
    if b.len() == 36 && b[8] != 45u8 {
        None
    } else if b.len() == 32 || b.len() == 36 || b.len() == 38 || b.len() == 45 {
        uuid_parse(text)
    } else {
        None
    }
}

/// Take a UUID-shaped string for a UUID, so it binds as one against UUID
/// columns; the length check skips the parser for most other strings.
pub fn detect_uuid(s: &str) -> (r: Option<u128>)
    ensures
        r == detected_uuid(s@),
{
    let n = s.len();
    if n == 36 && s.as_bytes()[8] != 45u8 {
        None
    } else if n == 32 || n == 36 || n == 38 || n == 45 {
        parse_uuid(s)
    } else {
        None
    }
}

/// The value a JSON number binds as: an `I32` when it fits, an `I64` when it
/// fits that, and an `F64` otherwise.
pub open spec fn number_value(n: JsonNumber) -> Value {
    match json_as_i64(Json::Number(n)) {
        Some(i) => if i32::MIN <= i <= i32::MAX {
            Value::I32(i as i32)
        } else {
            Value::I64(i)
        },
        None => match n {
            JsonNumber::PosInt(u) => Value::F64(u64_as_f64_bits(u)),
            JsonNumber::NegInt(i) => Value::I64(i),
            JsonNumber::Float(bits) => Value::F64(bits),
        },
    }
}

/// Whether `v` is what the JSON value `j` converts to.
pub open spec fn converts_to(j: Json, v: Value) -> bool
    decreases j,
{
    match j {
        Json::Null => v is Null,
        Json::Bool(b) => v == Value::Bool(b),
        Json::Number(n) => v == number_value(n),
        Json::String(s) => match detected_uuid(s@) {
            Some(u) => v == Value::Uuid(u),
            None => v matches Value::String(t) && t@ == s@,
        },
        Json::Array(items) => v matches Value::Array(vs) && vs@.len() == items@.len() && forall|i: int|
            0 <= i < items@.len() ==> converts_to(items@[i], #[trigger] vs@[i]),
        Json::Object(_) => v matches Value::Json(x) && x.deep() == j.deep(),
    }
}

/// Convert a JSON value to a statement value.
pub fn json_to_value(json: &Json) -> (r: Result<Value, ProtocolError>)
    ensures
        r matches Ok(v) && converts_to(*json, v),
    decreases json,
{
    match json {
        Json::Null => Ok(Value::Null),
        Json::Bool(b) => Ok(Value::Bool(*b)),
        Json::Number(n) => {
            let v = match n {
                JsonNumber::PosInt(u) => {
                    if *u <= 2147483647u64 {
                        let x = *u as i32;
                        assert(x == *u);
                        assert(json_as_i64(Json::Number(*n)) == Some(*u as i64));
                        Value::I32(x)
                    } else if *u <= 9223372036854775807u64 {
                        Value::I64(*u as i64)
                    } else {
                        Value::F64(positive_as_f64_bits(*u))
                    }
                },
                JsonNumber::NegInt(i) => {
                    if *i >= -2147483648i64 && *i <= 2147483647i64 {
                        let x = *i as i32;
                        assert(x == *i);
                        Value::I32(x)
                    } else {
                        Value::I64(*i)
                    }
                },
                JsonNumber::Float(bits) => Value::F64(*bits),
            };
            assert(v == number_value(*n));
            Ok(v)
        },
        Json::String(s) => match detect_uuid(s.as_str()) {
            Some(u) => Ok(Value::Uuid(u)),
            None => Ok(Value::String(String::from_str(s.as_str()))),
        },
        Json::Array(items) => {
            let mut values: Vec<Value> = Vec::new();
            let mut i: usize = 0;
            while i < items.len()
                invariant
                    i <= items@.len(),
                    *json == Json::Array(*items),
                    values@.len() == i,
                    forall|k: int| 0 <= k < i ==> converts_to(items@[k], #[trigger] values@[k]),
                decreases items@.len() - i,
            {
                proof {
                    assert(json->Array_0 == *items);
                    assert(decreases_to!(*json => json->Array_0));
                    assert(decreases_to!(*items => items@));
                    assert(decreases_to!(items@ => items@[i as int]));
                }
                let v = match json_to_value(&items[i]) {
                    Ok(v) => v,
                    Err(e) => {
                        return Err(e);
                    },
                };
                values.push(v);
                i = i + 1;
            }
            Ok(Value::Array(values))
        },
        Json::Object(_) => Ok(Value::Json(json_clone(json))),
    }
}

/// The scalar types a schema field can declare.
#[derive(Debug, Clone, PartialEq, Eq)]
pub enum ScalarType {
    String,
    Boolean,
    Int,
    BigInt,
    Float,
    Decimal,
    DateTime,
    Json,
    Jsonb,
    Bytes,
    Uuid,
    Citext,
    Ltree,
    Hstore,
    Vector { dimension: u32 },
    Geometry,
    Geography,
}

/// The type a schema field resolves to.
#[derive(Debug, PartialEq)]
pub enum ResolvedFieldType {
    Scalar(ScalarType),
    Enum { enum_name: String, variants: Vec<String> },
    /// A composite type, by the name the schema declares it under.
    CompositeType { composite_name: String },
    Relation(crate::model::RelationIr),
}

/// Whether a field's type makes a JSON object or array a legitimate value.
pub open spec fn structured(field_type: ResolvedFieldType, is_array: bool) -> bool {
    is_array || match field_type {
        ResolvedFieldType::Scalar(s) => s is Json || s is Bytes || s is Hstore || s is Vector
            || s is Geometry || s is Geography,
        ResolvedFieldType::CompositeType { .. } | ResolvedFieldType::Relation(_) => true,
        ResolvedFieldType::Enum { .. } => false,
    }
}

/// Whether a field's declared type makes a JSON object or array a legitimate
/// value rather than a wrapper the engine should interpret.
pub fn holds_structured_json(field_type: &ResolvedFieldType, is_array: bool) -> (r: bool)
    ensures
        r == structured(*field_type, is_array),
{
    if is_array {
        return true;
    }
    match field_type {
        ResolvedFieldType::Scalar(scalar) => matches!(
            scalar,
            ScalarType::Json | ScalarType::Bytes | ScalarType::Hstore | ScalarType::Vector { .. }
                | ScalarType::Geometry | ScalarType::Geography
        ),
        ResolvedFieldType::CompositeType { .. } | ResolvedFieldType::Relation(_) => true,
        ResolvedFieldType::Enum { .. } => false,
    }
}

/// Whether `key` names one of the update operators.
pub open spec fn is_update_operator(key: Seq<char>) -> bool {
    key == "set"@ || key == "increment"@ || key == "decrement"@ || key == "multiply"@ || key
        == "divide"@
}

/// The index of the first member from `k` on whose key is an update operator.
pub open spec fn first_operator(entries: Seq<(String, Json)>, k: int) -> Option<int>
    decreases entries.len() - k,
{
    if k < 0 || k >= entries.len() {
        None
    } else if is_update_operator(entries[k].0@) {
        Some(k)
    } else {
        first_operator(entries, k + 1)
    }
}

/// The message input for a field that holds a single scalar is refused with,
/// if it is refused: a JSON object or array is refused, an object naming an
/// update operator by that operator.
pub open spec fn scalar_input_error(json: Json, field_type: ResolvedFieldType, is_array: bool, field_name: Seq<char>) -> Option<Seq<char>> {
    if !(json is Object || json is Array) || structured(field_type, is_array) {
        None
    } else {
        match json {
            Json::Object(entries) => match first_operator(entries@, 0) {
                Some(k) => Some(
                    "Field '"@ + field_name + "' does not support the update operator '"@
                        + entries@[k].0@ + "'"@,
                ),
                None => Some(
                    "Field '"@ + field_name + "' holds a single scalar value but received an object"@,
                ),
            },
            _ => Some("Field '"@ + field_name + "' holds a single scalar value but received an array"@),
        }
    }
}

/// Reject a JSON object or array written to a field that holds a single
/// scalar; an object naming an update operator is refused by that operator.
pub fn ensure_scalar_input(json: &Json, field_type: &ResolvedFieldType, is_array: bool, field_name: &str) -> (r: Result<(), ProtocolError>)
    ensures
        match scalar_input_error(*json, *field_type, is_array, field_name@) {
            None => r is Ok,
            Some(m) => r matches Err(ProtocolError::InvalidParams(t)) && t@ == m,
        },
{
    let structured_input = match json {
        Json::Object(_) | Json::Array(_) => true,
        _ => false,
    };
    if !structured_input || holds_structured_json(field_type, is_array) {
        return Ok(());
    }
    if let Json::Object(entries) = json {
        let mut k: usize = 0;
        while k < entries.len()
            invariant
                k <= entries@.len(),
                *json == Json::Object(*entries),
                !structured(*field_type, is_array),
                first_operator(entries@, 0) == first_operator(entries@, k as int),
            decreases entries@.len() - k,
        {
            let key = entries[k].0.as_str();
            if crate::text::str_eq(key, "set") || crate::text::str_eq(key, "increment")
                || crate::text::str_eq(key, "decrement") || crate::text::str_eq(key, "multiply")
                || crate::text::str_eq(key, "divide") {
                let mut m = String::from_str("Field '");
                m.push_str(field_name);
                m.push_str("' does not support the update operator '");
                m.push_str(key);
                m.push_str("'");
                return Err(ProtocolError::InvalidParams(m));
            }
            k = k + 1;
        }
    }
    let shape = if matches!(json, Json::Array(_)) {
        "an array"
    } else {
        "an object"
    };
    let mut m = String::from_str("Field '");
    m.push_str(field_name);
    m.push_str("' holds a single scalar value but received ");
    m.push_str(shape);
    proof {
        reveal_strlit("an array");
        reveal_strlit("an object");
        reveal_strlit("' holds a single scalar value but received ");
        reveal_strlit("' holds a single scalar value but received an array");
        reveal_strlit("' holds a single scalar value but received an object");
    }
    Err(ProtocolError::InvalidParams(m))
}

} // verus!

verus! {

/// The arithmetic an atomic update operator applies to the column's current
/// value.
pub open spec fn operator_arithmetic(operator: Seq<char>) -> Option<crate::ast::BinaryOp> {
    if operator == "increment"@ {
        Some(crate::ast::BinaryOp::Add)
    } else if operator == "decrement"@ {
        Some(crate::ast::BinaryOp::Sub)
    } else if operator == "multiply"@ {
        Some(crate::ast::BinaryOp::Mul)
    } else if operator == "divide"@ {
        Some(crate::ast::BinaryOp::Div)
    } else {
        None
    }
}

/// The arithmetic an atomic operator applies to the column's current value.
pub fn atomic_operator_sql(operator: &str) -> (r: Option<crate::ast::BinaryOp>)
    ensures
        r == operator_arithmetic(operator@),
{
    if crate::text::str_eq(operator, "increment") {
        Some(crate::ast::BinaryOp::Add)
    } else if crate::text::str_eq(operator, "decrement") {
        Some(crate::ast::BinaryOp::Sub)
    } else if crate::text::str_eq(operator, "multiply") {
        Some(crate::ast::BinaryOp::Mul)
    } else if crate::text::str_eq(operator, "divide") {
        Some(crate::ast::BinaryOp::Div)
    } else {
        None
    }
}

fn update_operator_name(key: &str) -> (r: Option<&'static str>)
    ensures
        match r {
            Some(op) => is_update_operator(key@) && op@ == key@,
            None => !is_update_operator(key@),
        },
{
    if crate::text::str_eq(key, "set") {
        Some("set")
    } else if crate::text::str_eq(key, "increment") {
        Some("increment")
    } else if crate::text::str_eq(key, "decrement") {
        Some("decrement")
    } else if crate::text::str_eq(key, "multiply") {
        Some("multiply")
    } else if crate::text::str_eq(key, "divide") {
        Some("divide")
    } else {
        None
    }
}

/// Whether arithmetic can be applied to the field: a single integer, float or
/// decimal.
pub open spec fn takes_arithmetic(field: crate::model::FieldIr) -> bool {
    !field.is_array && match field.field_type {
        ResolvedFieldType::Scalar(s) => s is Int || s is BigInt || s is Float || s is Decimal,
        _ => false,
    }
}

/// Whether an arithmetic operator can be applied to the field's type.
pub fn accepts_arithmetic(field: &crate::model::FieldIr) -> (r: bool)
    ensures
        r == takes_arithmetic(*field),
{
    !field.is_array && matches!(
        &field.field_type,
        ResolvedFieldType::Scalar(ScalarType::Int | ScalarType::BigInt | ScalarType::Float | ScalarType::Decimal)
    )
}

/// How an input reads as an update operator: `Ok(Some((operator, operand)))`
/// for an object of one operator, `Ok(None)` when it is no operator object
/// (or the field holds structured values), and the message refusing an object
/// of two operators.
pub open spec fn operator_input(json: Json, field: crate::model::FieldIr) -> Result<Option<(Seq<char>, Json)>, Seq<char>> {
    if structured(field.field_type, field.is_array) {
        Ok(None)
    } else {
        match json {
            Json::Object(entries) => if entries@.len() == 0 || !is_update_operator(entries@[0].0@) {
                Ok(None)
            } else if entries@.len() == 1 {
                Ok(Some((entries@[0].0@, entries@[0].1)))
            } else if !is_update_operator(entries@[1].0@) {
                Ok(None)
            } else {
                Err("Field '"@ + field.logical_name@ + "' takes one update operator at a time"@)
            },
            _ => Ok(None),
        }
    }
}

/// Read one field's input as an atomic update operator (`set`, `increment`,
/// `decrement`, `multiply`, `divide`): an object whose every key is one, and
/// which names only one. A field whose type makes an object a legitimate value
/// never reads this way.
pub fn atomic_operator<'a>(json: &'a Json, field: &crate::model::FieldIr) -> (r: Result<Option<(&'static str, &'a Json)>, ProtocolError>)
    ensures
        match operator_input(*json, *field) {
            Ok(None) => r == Ok::<Option<(&'static str, &'a Json)>, ProtocolError>(None),
            Ok(Some((op, operand))) => r matches Ok(Some((o, x))) && o@ == op && *x == operand,
            Err(m) => r matches Err(ProtocolError::InvalidParams(t)) && t@ == m,
        },
{
    if holds_structured_json(&field.field_type, field.is_array) {
        return Ok(None);
    }
    let entries = match json {
        Json::Object(entries) => entries,
        _ => {
            return Ok(None);
        },
    };
    let mut found: Option<(&'static str, &'a Json)> = None;
    let mut k: usize = 0;
    while k < entries.len()
        invariant
            k <= entries@.len(),
            *json == Json::Object(*entries),
            !structured(field.field_type, field.is_array),
            k == 0 ==> found is None,
            k >= 1 ==> is_update_operator(entries@[0].0@) && (found matches Some((op, operand)) && op@ == entries@[0].0@ && *operand == entries@[0].1),
            k <= 1,
        decreases entries@.len() - k,
    {
        let operator = match update_operator_name(entries[k].0.as_str()) {
            Some(op) => op,
            None => {
                return Ok(None);
            },
        };
        if found.is_some() {
            let mut m = String::from_str("Field '");
            m.push_str(field.logical_name.as_str());
            m.push_str("' takes one update operator at a time");
            return Err(ProtocolError::InvalidParams(m));
        }
        found = Some((operator, &entries[k].1));
        k = k + 1;
    }
    Ok(found)
}

} // verus!
