//! Schema-aware normalization of decoded rows.
//!
//! When the engine knows the schema type of each projected column, the value
//! the backend answered with is coerced to that type, so the same query
//! answers with the same wire types on every backend. The readings that go
//! through JSON text or through a double's text and integer forms are left to
//! the host: those columns come back marked, for it to finish with
//! [`decimal_from_text`] and [`hint_parse_error`].
use vstd::prelude::*;

use crate::ast::Value;
use crate::conversion::{parse_uuid, positive_as_f64_bits, u64_as_f64_bits, uuid_parse, ResolvedFieldType, ScalarType};
use crate::field::{debug_quoted, decimal_text, i64_as_f64_bits, negative_as_f64_bits, parse_datetime, parse_decimal_text, parsed_datetime, str_debug, text_of};
use crate::hydrate::{finite_bits, int_view, object_insert, plain_json, plain_view};
use crate::ident::{decimal, push_u64, push_usize};
use crate::json::{deep_entries, Json, JsonNumber, JsonView};
use crate::model::{CompositeFieldIr, CompositeTypeIr, Row};
use crate::ordered::map_insert;
use crate::protocol::ProtocolError;
use crate::query_args::int_text;
use crate::record::{field_views, parse_pg_record_literal, record_literal};
use crate::text::str_eq;

verus! {

/// The schema type a projected column is read as.
#[derive(Debug, PartialEq)]
pub enum ValueHint {
    /// Integers read as booleans: SQLite answers a boolean column with 0 or 1.
    Bool,
    /// Integers, decimals, doubles and numeric text, read as a 64-bit integer.
    Int,
    /// Integers, decimals and numeric text, read as a double: an average
    /// answers with numeric text on some backends and a double on others.
    Float,
    /// Numbers and numeric text, read as a decimal.
    Decimal,
    /// Timestamp text, read as a timestamp.
    DateTime,
    /// JSON text, or any other value in its JSON form.
    Json,
    /// UUID text, read as a UUID.
    Uuid,
    /// WKT or EWKT text, taken as a geometry.
    Geometry,
    /// WKT or EWKT text, taken as a geography.
    Geography,
    /// A PostgreSQL record literal such as `(0,0,0)`, read as a JSON object
    /// keyed by the composite type's field names.
    Composite(CompositeTypeIr),
}

/// A column's value after its hint was applied.
#[derive(Debug, PartialEq)]
pub enum Normalized {
    /// The value the column holds.
    Ready(Value),
    /// JSON text the column holds; the host parses it, and refuses text that
    /// is not JSON with [`hint_parse_error`].
    JsonText(String),
    /// A finite double, by its bits, under the decimal hint; the host reads
    /// its display text with [`decimal_from_text`].
    DoubleDecimal(u64),
    /// A double, by its bits, under the integer hint; the host converts it
    /// with `as`, which truncates toward zero and saturates.
    DoubleInt(u64),
    /// Text under the double hint; the host parses it as a double, and
    /// refuses text that is not one with [`hint_parse_error`].
    DoubleText(String),
}

/// The name a hint goes by in messages.
pub open spec fn hint_name(hint: ValueHint) -> Seq<char> {
    match hint {
        ValueHint::Bool => "Boolean"@,
        ValueHint::Int => "Int"@,
        ValueHint::Float => "Float"@,
        ValueHint::Decimal => "Decimal"@,
        ValueHint::DateTime => "DateTime"@,
        ValueHint::Json => "Json"@,
        ValueHint::Uuid => "Uuid"@,
        ValueHint::Geometry => "Geometry"@,
        ValueHint::Geography => "Geography"@,
        ValueHint::Composite(_) => "Composite"@,
    }
}

/// The name of a value's kind, as messages give it.
pub open spec fn value_kind(v: Value) -> Seq<char> {
    match v {
        Value::Null => "Null"@,
        Value::Bool(_) => "Bool"@,
        Value::I32(_) => "I32"@,
        Value::I64(_) => "I64"@,
        Value::F64(_) => "F64"@,
        Value::Decimal(_) => "Decimal"@,
        Value::DateTime(_) => "DateTime"@,
        Value::Uuid(_) => "Uuid"@,
        Value::String(_) => "String"@,
        Value::Bytes(_) => "Bytes"@,
        Value::Json(_) => "Json"@,
        Value::Array(_) => "Array"@,
        Value::Vector(_) => "Vector"@,
        Value::Hstore(_) => "Hstore"@,
        Value::Geometry(_) => "Geometry"@,
        Value::Geography(_) => "Geography"@,
        Value::Enum { .. } => "Enum"@,
        Value::Extension { .. } => "Extension"@,
        Value::Composite { .. } => "Composite"@,
    }
}

/// The message refusing text that does not read as the hint's type.
pub open spec fn parse_failure(column: Seq<char>, index: int, hint: Seq<char>, raw: Seq<char>) -> Seq<char> {
    "Failed to normalize column '"@ + column + "' at position "@ + decimal(index as nat) + " as "@ + hint
        + " from value "@ + str_debug(raw)
}

/// The message refusing a value of a kind the hint does not read.
pub open spec fn incompatible_failure(column: Seq<char>, index: int, hint: Seq<char>, v: Value) -> Seq<char> {
    "Failed to normalize column '"@ + column + "' at position "@ + decimal(index as nat) + " as "@ + hint
        + " from incompatible value "@ + value_kind(v)
}

/// The message refusing a composite column whose text is no record literal.
pub open spec fn composite_failure(c: CompositeTypeIr, column: Seq<char>, index: int, raw: Seq<char>) -> Seq<char> {
    "Failed to decode composite '"@ + c.logical_name@ + "' for column '"@ + column + "' at position "@
        + decimal(index as nat) + " from value "@ + str_debug(raw)
}

/// The value of a run of decimal digits.
pub open spec fn digits_value(d: Seq<char>) -> int
    decreases d.len(),
{
    if d.len() == 0 {
        0
    } else {
        digits_value(d.drop_last()) * 10 + (d.last() as int - '0' as int)
    }
}

/// What `str::parse::<i64>` yields: an optional `+` or `-`, then one or more
/// ASCII digits, whose value fits in an `i64`.
pub open spec fn i64_text(t: Seq<char>) -> Option<i64> {
    let signed = t.len() > 0 && (t[0] == '-' || t[0] == '+');
    let digits = if signed { t.drop_first() } else { t };
    let n = if t.len() > 0 && t[0] == '-' { -digits_value(digits) } else { digits_value(digits) };
    if digits.len() > 0 && (forall|i: int| 0 <= i < digits.len() ==> '0' <= #[trigger] digits[i] <= '9')
        && i64::MIN <= n <= i64::MAX {
        Some(n as i64)
    } else {
        None
    }
}

/// What `str::parse` yields for `text` as a double, when that double is
/// finite, by its bit pattern.
pub uninterp spec fn finite_double_text(text: Seq<char>) -> Option<u64>;

/// What `rust_decimal::Decimal::from_str` followed by `i64::try_from` yields
/// for `text`: the integer part, truncated toward zero, when it fits.
pub uninterp spec fn decimal_i64(text: Seq<char>) -> Option<i64>;

/// `rust_decimal::Decimal::from_str`, then `i64::try_from`.
#[verifier::external_body]
fn decimal_integer_part(text: &str) -> (r: Option<i64>)
    ensures
        r == decimal_i64(text@),
{
    <rust_decimal::Decimal as std::str::FromStr>::from_str(text).ok().and_then(|d| i64::try_from(d).ok())
}

/// The bits of the double an integer converts to.
pub open spec fn int_double_bits(n: i64) -> u64 {
    if n >= 0 {
        u64_as_f64_bits(n as u64)
    } else {
        i64_as_f64_bits(n)
    }
}

/// `str::parse::<i64>`.
#[verifier::external_body]
fn parse_i64(raw: &str) -> (r: Option<i64>)
    ensures
        r == i64_text(raw@),
{
    raw.parse().ok()
}

/// `str::parse` as a double, kept when `serde_json::Number::from_f64` takes
/// it (when it is finite), by its bit pattern.
#[verifier::external_body]
fn parse_finite_double(raw: &str) -> (r: Option<u64>)
    ensures
        r == finite_double_text(raw@),
        r matches Some(b) ==> finite_bits(b),
{
    raw.parse().ok().and_then(serde_json::Number::from_f64).and_then(|n| n.as_f64()).map(|x| x.to_bits())
}

/// The JSON one field of a record literal reads as: null for an SQL NULL;
/// numbers and booleans for fields of those types when the text reads as
/// one; otherwise the text.
pub open spec fn field_json(raw: Option<Seq<char>>, field: CompositeFieldIr) -> JsonView {
    match raw {
        None => JsonView::Null,
        Some(t) => if field.is_array {
            JsonView::String(t)
        } else {
            match field.field_type {
                ResolvedFieldType::Scalar(ScalarType::Int) | ResolvedFieldType::Scalar(ScalarType::BigInt) => {
                    match i64_text(t) {
                        Some(n) => int_view(n as int),
                        None => JsonView::String(t),
                    }
                },
                ResolvedFieldType::Scalar(ScalarType::Float) => match finite_double_text(t) {
                    Some(b) => JsonView::Number(JsonNumber::Float(b)),
                    None => JsonView::String(t),
                },
                ResolvedFieldType::Scalar(ScalarType::Boolean) => {
                    if t == "t"@ || t == "true"@ || t == "TRUE"@ || t == "1"@ {
                        JsonView::Bool(true)
                    } else if t == "f"@ || t == "false"@ || t == "FALSE"@ || t == "0"@ {
                        JsonView::Bool(false)
                    } else {
                        JsonView::String(t)
                    }
                },
                _ => JsonView::String(t),
            }
        },
    }
}

/// The part of a record literal at position `k`, if it has one.
pub open spec fn part_at(parts: Seq<Option<Seq<char>>>, k: int) -> Option<Seq<char>> {
    if 0 <= k < parts.len() {
        parts[k]
    } else {
        None
    }
}

/// The object the first `n` fields of a composite make of a record literal's
/// parts, each set in turn under its logical name in an ordered map.
pub open spec fn composite_object(parts: Seq<Option<Seq<char>>>, fields: Seq<CompositeFieldIr>, n: int) -> Seq<(Seq<char>, JsonView)>
    decreases n,
{
    if n <= 0 {
        Seq::empty()
    } else {
        map_insert(
            composite_object(parts, fields, n - 1),
            fields[n - 1].logical_name@,
            field_json(part_at(parts, n - 1), fields[n - 1]),
        )
    }
}

/// The message refusing text that does not read as a decimal, if it does not.
pub open spec fn decimal_error(column: Seq<char>, index: int, text: Seq<char>) -> Option<Seq<char>> {
    if decimal_text(text) is Some {
        None
    } else {
        Some(parse_failure(column, index, "Decimal"@, text))
    }
}

/// Whether `n` is the decimal that `text` reads as.
pub open spec fn decimal_is(n: Normalized, text: Seq<char>) -> bool {
    n matches Normalized::Ready(Value::Decimal(d)) && Some(d@) == decimal_text(text)
}

/// The message refusing the value `v` of column `column`, at position
/// `index`, under `hint`; `None` when the hint reads it.
pub open spec fn hint_error(column: Seq<char>, index: int, v: Value, hint: ValueHint) -> Option<Seq<char>> {
    if v is Null {
        None
    } else {
        match hint {
            ValueHint::Bool => match v {
                Value::Bool(_) | Value::I32(_) | Value::I64(_) => None,
                _ => Some(incompatible_failure(column, index, "Boolean"@, v)),
            },
            ValueHint::Int => match v {
                Value::I64(_) | Value::I32(_) | Value::F64(_) => None,
                Value::Decimal(d) => if decimal_i64(d@) is Some {
                    None
                } else {
                    Some(parse_failure(column, index, "Int"@, d@))
                },
                Value::String(s) => if i64_text(s@) is Some {
                    None
                } else {
                    Some(parse_failure(column, index, "Int"@, s@))
                },
                _ => Some(incompatible_failure(column, index, "Int"@, v)),
            },
            ValueHint::Float => match v {
                Value::F64(_) | Value::I32(_) | Value::I64(_) | Value::Decimal(_) | Value::String(_) => None,
                _ => Some(incompatible_failure(column, index, "Float"@, v)),
            },
            ValueHint::Decimal => match v {
                Value::Decimal(_) => None,
                Value::I32(n) => decimal_error(column, index, int_text(n as int)),
                Value::I64(n) => decimal_error(column, index, int_text(n as int)),
                Value::F64(b) => if finite_bits(b) {
                    None
                } else {
                    Some(incompatible_failure(column, index, "Decimal"@, v))
                },
                Value::String(s) => decimal_error(column, index, s@),
                _ => Some(incompatible_failure(column, index, "Decimal"@, v)),
            },
            ValueHint::DateTime => match v {
                Value::DateTime(_) => None,
                Value::String(s) => if parsed_datetime(s@) is Some {
                    None
                } else {
                    Some(parse_failure(column, index, "DateTime"@, s@))
                },
                _ => Some(incompatible_failure(column, index, "DateTime"@, v)),
            },
            ValueHint::Json => None,
            ValueHint::Uuid => match v {
                Value::Uuid(_) => None,
                Value::String(s) => if uuid_parse(s@) is Some {
                    None
                } else {
                    Some(parse_failure(column, index, "Uuid"@, s@))
                },
                _ => Some(incompatible_failure(column, index, "Uuid"@, v)),
            },
            ValueHint::Geometry => match v {
                Value::Geometry(_) | Value::String(_) => None,
                _ => Some(incompatible_failure(column, index, "Geometry"@, v)),
            },
            ValueHint::Geography => match v {
                Value::Geography(_) | Value::String(_) => None,
                _ => Some(incompatible_failure(column, index, "Geography"@, v)),
            },
            ValueHint::Composite(c) => match v {
                Value::String(s) => if record_literal(s@) is Some {
                    None
                } else {
                    Some(composite_failure(c, column, index, s@))
                },
                _ => None,
            },
        }
    }
}

/// Whether `n` is what `hint` makes of the value `v`, where it reads it.
pub open spec fn hint_ok(v: Value, hint: ValueHint, n: Normalized) -> bool {
    if v is Null {
        n == Normalized::Ready(Value::Null)
    } else {
        match hint {
            ValueHint::Bool => match v {
                Value::I32(x) => n == Normalized::Ready(Value::Bool(x != 0)),
                Value::I64(x) => n == Normalized::Ready(Value::Bool(x != 0)),
                _ => n == Normalized::Ready(v),
            },
            ValueHint::Int => match v {
                Value::I32(x) => n == Normalized::Ready(Value::I64(x as i64)),
                Value::F64(b) => n == Normalized::DoubleInt(b),
                Value::Decimal(d) => decimal_i64(d@) matches Some(x) && n == Normalized::Ready(Value::I64(x)),
                Value::String(s) => i64_text(s@) matches Some(x) && n == Normalized::Ready(Value::I64(x)),
                _ => n == Normalized::Ready(v),
            },
            ValueHint::Float => match v {
                Value::I32(x) => n == Normalized::Ready(Value::F64(int_double_bits(x as i64))),
                Value::I64(x) => n == Normalized::Ready(Value::F64(int_double_bits(x))),
                Value::Decimal(d) => n matches Normalized::DoubleText(t) && t@ == d@,
                Value::String(s) => n matches Normalized::DoubleText(t) && t@ == s@,
                _ => n == Normalized::Ready(v),
            },
            ValueHint::Decimal => match v {
                Value::I32(x) => decimal_is(n, int_text(x as int)),
                Value::I64(x) => decimal_is(n, int_text(x as int)),
                Value::F64(b) => n == Normalized::DoubleDecimal(b),
                Value::String(s) => decimal_is(n, s@),
                _ => n == Normalized::Ready(v),
            },
            ValueHint::DateTime => match v {
                Value::String(s) => n matches Normalized::Ready(Value::DateTime(d)) && Some(d@) == parsed_datetime(s@),
                _ => n == Normalized::Ready(v),
            },
            ValueHint::Json => match v {
                Value::Json(_) => n == Normalized::Ready(v),
                Value::String(s) => n matches Normalized::JsonText(t) && t@ == s@,
                _ => n matches Normalized::Ready(Value::Json(j)) && j.deep() == plain_view(v),
            },
            ValueHint::Uuid => match v {
                Value::String(s) => n matches Normalized::Ready(Value::Uuid(u)) && Some(u) == uuid_parse(s@),
                _ => n == Normalized::Ready(v),
            },
            ValueHint::Geometry => match v {
                Value::String(s) => n matches Normalized::Ready(Value::Geometry(t)) && t@ == s@,
                _ => n == Normalized::Ready(v),
            },
            ValueHint::Geography => match v {
                Value::String(s) => n matches Normalized::Ready(Value::Geography(t)) && t@ == s@,
                _ => n == Normalized::Ready(v),
            },
            ValueHint::Composite(c) => match v {
                Value::String(s) => n matches Normalized::Ready(Value::Json(Json::Object(entries)))
                    && record_literal(s@) matches Some(parts)
                    && deep_entries(entries@) == composite_object(parts, c.fields@, c.fields@.len() as int),
                _ => n == Normalized::Ready(v),
            },
        }
    }
}

/// `text` followed by the decimal form of `index`.
fn with_index(text: &str, index: usize) -> (r: String)
    ensures
        r@ == text@ + decimal(index as nat),
{
    let mut r = String::from_str(text);
    push_usize(&mut r, index);
    r
}

/// The name of `hint`.
fn hint_name_str(hint: &ValueHint) -> (r: &'static str)
    ensures
        r@ == hint_name(*hint),
{
    proof {
        reveal_strlit("Boolean");
        reveal_strlit("Int");
        reveal_strlit("Float");
        reveal_strlit("Decimal");
        reveal_strlit("DateTime");
        reveal_strlit("Json");
        reveal_strlit("Uuid");
        reveal_strlit("Geometry");
        reveal_strlit("Geography");
        reveal_strlit("Composite");
    }
    match hint {
        ValueHint::Bool => "Boolean",
        ValueHint::Int => "Int",
        ValueHint::Float => "Float",
        ValueHint::Decimal => "Decimal",
        ValueHint::DateTime => "DateTime",
        ValueHint::Json => "Json",
        ValueHint::Uuid => "Uuid",
        ValueHint::Geometry => "Geometry",
        ValueHint::Geography => "Geography",
        ValueHint::Composite(_) => "Composite",
    }
}

/// The name of the kind of `v`.
fn value_kind_str(v: &Value) -> (r: &'static str)
    ensures
        r@ == value_kind(*v),
{
    proof {
        reveal_strlit("Null");
        reveal_strlit("Bool");
        reveal_strlit("I32");
        reveal_strlit("I64");
        reveal_strlit("F64");
        reveal_strlit("Decimal");
        reveal_strlit("DateTime");
        reveal_strlit("Uuid");
        reveal_strlit("String");
        reveal_strlit("Bytes");
        reveal_strlit("Json");
        reveal_strlit("Array");
        reveal_strlit("Vector");
        reveal_strlit("Hstore");
        reveal_strlit("Geometry");
        reveal_strlit("Geography");
        reveal_strlit("Enum");
        reveal_strlit("Extension");
        reveal_strlit("Composite");
    }
    match v {
        Value::Null => "Null",
        Value::Bool(_) => "Bool",
        Value::I32(_) => "I32",
        Value::I64(_) => "I64",
        Value::F64(_) => "F64",
        Value::Decimal(_) => "Decimal",
        Value::DateTime(_) => "DateTime",
        Value::Uuid(_) => "Uuid",
        Value::String(_) => "String",
        Value::Bytes(_) => "Bytes",
        Value::Json(_) => "Json",
        Value::Array(_) => "Array",
        Value::Vector(_) => "Vector",
        Value::Hstore(_) => "Hstore",
        Value::Geometry(_) => "Geometry",
        Value::Geography(_) => "Geography",
        Value::Enum { .. } => "Enum",
        Value::Extension { .. } => "Extension",
        Value::Composite { .. } => "Composite",
    }
}

/// The refusal of text `raw` in column `column` at position `index`, which
/// does not read as `hint`'s type.
pub fn hint_parse_error(column: &str, index: usize, hint: &ValueHint, raw: &str) -> (e: ProtocolError)
    ensures
        e matches ProtocolError::DatabaseExecution(m) && m@ == parse_failure(column@, index as int, hint_name(*hint), raw@),
{
    let mut m = String::from_str("Failed to normalize column '");
    m.push_str(column);
    m.push_str(with_index("' at position ", index).as_str());
    m.push_str(" as ");
    m.push_str(hint_name_str(hint));
    m.push_str(" from value ");
    m.push_str(debug_quoted(raw).as_str());
    ProtocolError::DatabaseExecution(m)
}

/// The refusal of a value `v` of a kind `hint` does not read.
fn incompatible_error(column: &str, index: usize, hint: &ValueHint, v: &Value) -> (e: ProtocolError)
    ensures
        e matches ProtocolError::DatabaseExecution(m) && m@ == incompatible_failure(column@, index as int, hint_name(*hint), *v),
{
    let mut m = String::from_str("Failed to normalize column '");
    m.push_str(column);
    m.push_str(with_index("' at position ", index).as_str());
    m.push_str(" as ");
    m.push_str(hint_name_str(hint));
    m.push_str(" from incompatible value ");
    m.push_str(value_kind_str(v));
    ProtocolError::DatabaseExecution(m)
}

/// Read `text`, found in column `column` at position `index`, as a decimal,
/// or refuse it.
pub fn decimal_from_text(column: &str, index: usize, text: &str) -> (r: Result<Value, ProtocolError>)
    ensures
        match r {
            Ok(v) => v matches Value::Decimal(d) && Some(d@) == decimal_text(text@),
            Err(e) => decimal_text(text@) is None && (e matches ProtocolError::DatabaseExecution(m)
                && m@ == parse_failure(column@, index as int, "Decimal"@, text@)),
        },
{
    match parse_decimal_text(text) {
        Some(d) => Ok(Value::Decimal(d)),
        None => {
            let e = hint_parse_error(column, index, &ValueHint::Decimal, text);
            proof {
                reveal_strlit("Decimal");
            }
            Err(e)
        },
    }
}

/// The JSON one field of a record literal reads as.
fn composite_field_json(raw: Option<&String>, field: &CompositeFieldIr) -> (r: Json)
    ensures
        r.deep() == field_json(
            match raw {
                Some(t) => Some(t@),
                None => None,
            },
            *field,
        ),
{
    let t = match raw {
        None => {
            return Json::Null;
        },
        Some(t) => t,
    };
    if field.is_array {
        return Json::String(t.clone());
    }
    proof {
        reveal_strlit("t");
        reveal_strlit("true");
        reveal_strlit("TRUE");
        reveal_strlit("1");
        reveal_strlit("f");
        reveal_strlit("false");
        reveal_strlit("FALSE");
        reveal_strlit("0");
    }
    match &field.field_type {
        ResolvedFieldType::Scalar(ScalarType::Int) | ResolvedFieldType::Scalar(ScalarType::BigInt) => {
            match parse_i64(t.as_str()) {
                Some(n) => if n >= 0 {
                    Json::Number(JsonNumber::PosInt(n as u64))
                } else {
                    Json::Number(JsonNumber::NegInt(n))
                },
                None => Json::String(t.clone()),
            }
        },
        ResolvedFieldType::Scalar(ScalarType::Float) => match parse_finite_double(t.as_str()) {
            Some(b) => Json::Number(JsonNumber::Float(b)),
            None => Json::String(t.clone()),
        },
        ResolvedFieldType::Scalar(ScalarType::Boolean) => {
            let s = t.as_str();
            if str_eq(s, "t") || str_eq(s, "true") || str_eq(s, "TRUE") || str_eq(s, "1") {
                Json::Bool(true)
            } else if str_eq(s, "f") || str_eq(s, "false") || str_eq(s, "FALSE") || str_eq(s, "0") {
                Json::Bool(false)
            } else {
                Json::String(t.clone())
            }
        },
        _ => Json::String(t.clone()),
    }
}

/// The object a composite makes of the parts of a record literal.
fn composite_json(parts: &Vec<Option<String>>, composite: &CompositeTypeIr) -> (r: Vec<(String, Json)>)
    ensures
        deep_entries(r@) == composite_object(field_views(parts@), composite.fields@, composite.fields@.len() as int),
{
    let fields = &composite.fields;
    let mut obj: Vec<(String, Json)> = Vec::new();
    let mut k: usize = 0;
    while k < fields.len()
        invariant
            k <= fields@.len(),
            deep_entries(obj@) == composite_object(field_views(parts@), fields@, k as int),
        decreases fields@.len() - k,
    {
        let part: Option<&String> = if k < parts.len() {
            match &parts[k] {
                Some(t) => Some(t),
                None => None,
            }
        } else {
            None
        };
        let value = composite_field_json(part, &fields[k]);
        assert(match part {
            Some(t) => Some(t@),
            None => None::<Seq<char>>,
        } == part_at(field_views(parts@), k as int));
        object_insert(&mut obj, fields[k].logical_name.as_str(), value);
        k = k + 1;
    }
    obj
}

/// Apply `hint` to the value `v` of column `column` at position `index`:
/// SQL NULL stays NULL; a value of the hint's own type stays as it is; text
/// and, for decimals, numbers are read as the hint's type; under the JSON
/// hint any other value takes its JSON form; a composite's record literal
/// becomes an object. What the hint cannot read is refused.
pub fn normalize_value_with_hint(column: &str, index: usize, v: Value, hint: &ValueHint) -> (r: Result<Normalized, ProtocolError>)
    ensures
        match r {
            Ok(n) => hint_error(column@, index as int, v, *hint) is None && hint_ok(v, *hint, n),
            Err(e) => hint_error(column@, index as int, v, *hint) matches Some(m)
                && (e matches ProtocolError::DatabaseExecution(t) && t@ == m),
        },
{
    if let Value::Null = v {
        return Ok(Normalized::Ready(Value::Null));
    }
    proof {
        reveal_strlit("Boolean");
        reveal_strlit("Int");
        reveal_strlit("Float");
        reveal_strlit("Decimal");
        reveal_strlit("DateTime");
        reveal_strlit("Uuid");
        reveal_strlit("Geometry");
        reveal_strlit("Geography");
    }
    match hint {
        ValueHint::Bool => match v {
            Value::Bool(b) => Ok(Normalized::Ready(Value::Bool(b))),
            Value::I32(x) => Ok(Normalized::Ready(Value::Bool(x != 0))),
            Value::I64(x) => Ok(Normalized::Ready(Value::Bool(x != 0))),
            other => Err(incompatible_error(column, index, hint, &other)),
        },
        ValueHint::Int => match v {
            Value::I64(x) => Ok(Normalized::Ready(Value::I64(x))),
            Value::I32(x) => Ok(Normalized::Ready(Value::I64(x as i64))),
            Value::F64(b) => Ok(Normalized::DoubleInt(b)),
            Value::Decimal(d) => match decimal_integer_part(d.as_str()) {
                Some(x) => Ok(Normalized::Ready(Value::I64(x))),
                None => Err(hint_parse_error(column, index, hint, d.as_str())),
            },
            Value::String(s) => match parse_i64(s.as_str()) {
                Some(x) => Ok(Normalized::Ready(Value::I64(x))),
                None => Err(hint_parse_error(column, index, hint, s.as_str())),
            },
            other => Err(incompatible_error(column, index, hint, &other)),
        },
        ValueHint::Float => match v {
            Value::F64(b) => Ok(Normalized::Ready(Value::F64(b))),
            Value::I32(x) => Ok(Normalized::Ready(Value::F64(double_of_int(x as i64)))),
            Value::I64(x) => Ok(Normalized::Ready(Value::F64(double_of_int(x)))),
            Value::Decimal(d) => Ok(Normalized::DoubleText(d)),
            Value::String(s) => Ok(Normalized::DoubleText(s)),
            other => Err(incompatible_error(column, index, hint, &other)),
        },
        ValueHint::Decimal => match v {
            Value::Decimal(d) => Ok(Normalized::Ready(Value::Decimal(d))),
            Value::I32(n) => {
                let text = signed_text(n as i64);
                match decimal_from_text(column, index, text.as_str()) {
                    Ok(d) => Ok(Normalized::Ready(d)),
                    Err(e) => Err(e),
                }
            },
            Value::I64(n) => {
                let text = signed_text(n);
                match decimal_from_text(column, index, text.as_str()) {
                    Ok(d) => Ok(Normalized::Ready(d)),
                    Err(e) => Err(e),
                }
            },
            Value::F64(b) => {
                if (b & 0x7FF0_0000_0000_0000u64) != 0x7FF0_0000_0000_0000u64 {
                    Ok(Normalized::DoubleDecimal(b))
                } else {
                    Err(incompatible_error(column, index, hint, &Value::F64(b)))
                }
            },
            Value::String(s) => match decimal_from_text(column, index, s.as_str()) {
                Ok(d) => Ok(Normalized::Ready(d)),
                Err(e) => Err(e),
            },
            other => Err(incompatible_error(column, index, hint, &other)),
        },
        ValueHint::DateTime => match v {
            Value::DateTime(d) => Ok(Normalized::Ready(Value::DateTime(d))),
            Value::String(s) => match parse_datetime(s.as_str()) {
                Some(d) => Ok(Normalized::Ready(Value::DateTime(d))),
                None => Err(hint_parse_error(column, index, hint, s.as_str())),
            },
            other => Err(incompatible_error(column, index, hint, &other)),
        },
        ValueHint::Json => match v {
            Value::Json(j) => Ok(Normalized::Ready(Value::Json(j))),
            Value::String(s) => Ok(Normalized::JsonText(s)),
            other => Ok(Normalized::Ready(Value::Json(plain_json(&other)))),
        },
        ValueHint::Uuid => match v {
            Value::Uuid(u) => Ok(Normalized::Ready(Value::Uuid(u))),
            Value::String(s) => match parse_uuid(s.as_str()) {
                Some(u) => Ok(Normalized::Ready(Value::Uuid(u))),
                None => Err(hint_parse_error(column, index, hint, s.as_str())),
            },
            other => Err(incompatible_error(column, index, hint, &other)),
        },
        ValueHint::Geometry => match v {
            Value::Geometry(t) => Ok(Normalized::Ready(Value::Geometry(t))),
            Value::String(t) => Ok(Normalized::Ready(Value::Geometry(t))),
            other => Err(incompatible_error(column, index, hint, &other)),
        },
        ValueHint::Geography => match v {
            Value::Geography(t) => Ok(Normalized::Ready(Value::Geography(t))),
            Value::String(t) => Ok(Normalized::Ready(Value::Geography(t))),
            other => Err(incompatible_error(column, index, hint, &other)),
        },
        ValueHint::Composite(c) => match v {
            Value::String(s) => match parse_pg_record_literal(s.as_str()) {
                Some(parts) => Ok(Normalized::Ready(Value::Json(Json::Object(composite_json(&parts, c))))),
                None => {
                    let mut m = String::from_str("Failed to decode composite '");
                    m.push_str(c.logical_name.as_str());
                    m.push_str("' for column '");
                    m.push_str(column);
                    m.push_str(with_index("' at position ", index).as_str());
                    m.push_str(" from value ");
                    m.push_str(debug_quoted(s.as_str()).as_str());
                    Err(ProtocolError::DatabaseExecution(m))
                },
            },
            other => Ok(Normalized::Ready(other)),
        },
    }
}

/// The bits of the double the integer `n` converts to.
fn double_of_int(n: i64) -> (r: u64)
    ensures
        r == int_double_bits(n),
{
    if n >= 0 {
        positive_as_f64_bits(n as u64)
    } else {
        negative_as_f64_bits(n)
    }
}

/// `n` written in decimal, with a minus sign when negative.
fn signed_text(n: i64) -> (r: String)
    ensures
        r@ == int_text(n as int),
{
    let mut r = String::new();
    if n < 0 {
        r.push_str("-");
        let m: u64 = if n == i64::MIN { 9223372036854775808u64 } else { (-n) as u64 };
        push_u64(&mut r, m);
    } else {
        push_u64(&mut r, n as u64);
    }
    proof {
        reveal_strlit("-");
    }
    r
}

/// The message refusing the first column from position `i` on that its hint
/// cannot read, if there is one.
pub open spec fn row_error(columns: Seq<(String, Value)>, hints: Seq<Option<ValueHint>>, i: int) -> Option<Seq<char>>
    decreases columns.len() - i,
{
    if i < 0 || i >= columns.len() {
        None
    } else {
        let here = match hints[i] {
            Some(h) => hint_error(columns[i].0@, i, columns[i].1, h),
            None => None,
        };
        if here is Some {
            here
        } else {
            row_error(columns, hints, i + 1)
        }
    }
}

/// The message refusing a row whose width differs from the hints'.
pub open spec fn width_failure(hints: nat, columns: nat) -> Seq<char> {
    "Schema-aware normalization expected "@ + decimal(hints) + " projected columns, got "@ + decimal(columns)
}

/// Whether `out` is what the hints make of the columns, column by column:
/// each keeps its name, and its value is kept where it has no hint.
pub open spec fn row_normalized(columns: Seq<(String, Value)>, hints: Seq<Option<ValueHint>>, out: Seq<(String, Normalized)>) -> bool {
    &&& out.len() == columns.len()
    &&& forall|i: int| 0 <= i < out.len() ==> (#[trigger] out[i]).0@ == columns[i].0@ && match hints[i] {
        None => out[i].1 == Normalized::Ready(columns[i].1),
        Some(h) => hint_ok(columns[i].1, h, out[i].1),
    }
}

/// Apply per-column hints to a decoded row: a row whose width is not the
/// hints' is refused; otherwise each column is normalized in order, and the
/// first one its hint cannot read refuses the row.
#[verifier::loop_isolation(false)]
pub fn normalize_row_with_hints(row: Row, hints: &[Option<ValueHint>]) -> (r: Result<Vec<(String, Normalized)>, ProtocolError>)
    ensures
        row.columns@.len() != hints@.len() ==> (r matches Err(ProtocolError::Internal(m))
            && m@ == width_failure(hints@.len(), row.columns@.len())),
        row.columns@.len() == hints@.len() ==> match r {
            Ok(out) => row_error(row.columns@, hints@, 0) is None && row_normalized(row.columns@, hints@, out@),
            Err(e) => row_error(row.columns@, hints@, 0) matches Some(m)
                && (e matches ProtocolError::DatabaseExecution(t) && t@ == m),
        },
{
    let ghost columns = row.columns@;
    if row.columns.len() != hints.len() {
        let mut m = String::from_str("Schema-aware normalization expected ");
        push_usize(&mut m, hints.len());
        m.push_str(" projected columns, got ");
        push_usize(&mut m, row.columns.len());
        return Err(ProtocolError::Internal(m));
    }
    let mut rest = row.columns;
    let mut out: Vec<(String, Normalized)> = Vec::new();
    let n = hints.len();
    let mut i: usize = 0;
    while i < n
        invariant
            n == hints@.len(),
            n == columns.len(),
            i <= n,
            columns == row.columns@,
            rest@ == columns.subrange(i as int, n as int),
            out@.len() == i,
            row_error(columns, hints@, 0) == row_error(columns, hints@, i as int),
            forall|k: int| 0 <= k < i ==> (#[trigger] out@[k]).0@ == columns[k].0@ && match hints@[k] {
                None => out@[k].1 == Normalized::Ready(columns[k].1),
                Some(h) => hint_ok(columns[k].1, h, out@[k].1),
            },
        decreases n - i,
    {
        let (name, value) = rest.remove(0);
        assert((name, value) == columns[i as int]);
        let normalized = match &hints[i] {
            Some(h) => {
                let r = normalize_value_with_hint(name.as_str(), i, value, h);
                match r {
                    Ok(v) => v,
                    Err(e) => {
                        return Err(e);
                    },
                }
            },
            None => Normalized::Ready(value),
        };
        out.push((name, normalized));
        i = i + 1;
    }
    proof {
        assert(row_normalized(columns, hints@, out@));
    }
    Ok(out)
}

/// The refusal of the first row from position `i` on that the hints refuse,
/// as the kind of error and its message: `true` for an internal error (the
/// row's width), `false` for a value the hints cannot read.
pub open spec fn rows_error(rows: Seq<Row>, hints: Seq<Option<ValueHint>>, i: int) -> Option<(bool, Seq<char>)>
    decreases rows.len() - i,
{
    if i < 0 || i >= rows.len() {
        None
    } else if rows[i].columns@.len() != hints.len() {
        Some((true, width_failure(hints.len(), rows[i].columns@.len())))
    } else if row_error(rows[i].columns@, hints, 0) is Some {
        Some((false, row_error(rows[i].columns@, hints, 0)->0))
    } else {
        rows_error(rows, hints, i + 1)
    }
}

/// Apply per-column hints to each row in turn; the first row refused refuses
/// them all.
#[verifier::loop_isolation(false)]
pub fn normalize_rows_with_hints(rows: Vec<Row>, hints: &[Option<ValueHint>]) -> (r: Result<Vec<Vec<(String, Normalized)>>, ProtocolError>)
    ensures
        match r {
            Ok(out) => rows_error(rows@, hints@, 0) is None && out@.len() == rows@.len() && forall|i: int|
                0 <= i < out@.len() ==> row_normalized(rows@[i].columns@, hints@, #[trigger] out@[i]@),
            Err(e) => match rows_error(rows@, hints@, 0) {
                Some((true, m)) => e matches ProtocolError::Internal(t) && t@ == m,
                Some((false, m)) => e matches ProtocolError::DatabaseExecution(t) && t@ == m,
                None => false,
            },
        },
{
    let ghost all = rows@;
    let mut rest = rows;
    let mut out: Vec<Vec<(String, Normalized)>> = Vec::new();
    let n = rest.len();
    let mut i: usize = 0;
    while i < n
        invariant
            n == all.len(),
            i <= n,
            rest@ == all.subrange(i as int, n as int),
            out@.len() == i,
            rows_error(all, hints@, 0) == rows_error(all, hints@, i as int),
            forall|k: int| 0 <= k < i ==> row_normalized(all[k].columns@, hints@, #[trigger] out@[k]@),
        decreases n - i,
    {
        let row = rest.remove(0);
        assert(row == all[i as int]);
        match normalize_row_with_hints(row, hints) {
            Ok(columns) => out.push(columns),
            Err(e) => {
                return Err(e);
            },
        }
        i = i + 1;
    }
    Ok(out)
}

} // verus!
