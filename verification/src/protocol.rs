//! Request arguments as the protocol delivers them: errors, order directions,
//! integers, filter envelopes and aggregate columns.
use vstd::prelude::*;

use crate::ast::{Expr, OrderDir};
use crate::json::{Json, JsonNumber};
use crate::naming::{ascii_lower, db_column, db_column_for, qualified_name, qualified_name_of};
use crate::text::str_eq;

verus! {

/// Why a request was refused, with the message sent back to the client.
#[derive(Debug, PartialEq)]
pub enum ProtocolError {
    /// A filter or ordering argument is malformed.
    InvalidFilter(String),
    /// A request parameter is malformed.
    InvalidParams(String),
    /// The engine reached a state it does not expect.
    Internal(String),
    /// The backend cannot do what was asked.
    UnsupportedOperation(String),
    /// The schema does not allow the query to be planned.
    QueryPlanning(String),
    /// The schema names a model that does not exist.
    InvalidModel(String),
    /// No record matches what the request named.
    RecordNotFound(String),
    /// A value the backend answered with cannot be read as its column's type.
    DatabaseExecution(String),
    /// The client speaks a protocol version outside the supported range.
    UnsupportedProtocolVersion { actual: u32, expected: u32 },
}

/// A refusal as mathematics sees it: the kind of error and its message.
pub enum Refusal {
    InvalidParams(Seq<char>),
    InvalidFilter(Seq<char>),
    Internal(Seq<char>),
    QueryPlanning(Seq<char>),
    InvalidModel(Seq<char>),
    UnsupportedOperation(Seq<char>),
    RecordNotFound(Seq<char>),
}

/// Whether `e` is the refusal `f`.
pub open spec fn refused_with(e: ProtocolError, f: Refusal) -> bool {
    match f {
        Refusal::InvalidParams(m) => e matches ProtocolError::InvalidParams(t) && t@ == m,
        Refusal::InvalidFilter(m) => e matches ProtocolError::InvalidFilter(t) && t@ == m,
        Refusal::Internal(m) => e matches ProtocolError::Internal(t) && t@ == m,
        Refusal::QueryPlanning(m) => e matches ProtocolError::QueryPlanning(t) && t@ == m,
        Refusal::InvalidModel(m) => e matches ProtocolError::InvalidModel(t) && t@ == m,
        Refusal::UnsupportedOperation(m) => e matches ProtocolError::UnsupportedOperation(t) && t@ == m,
        Refusal::RecordNotFound(m) => e matches ProtocolError::RecordNotFound(t) && t@ == m,
    }
}

/// Accept a client's protocol version when it lies between the oldest
/// supported version and the current one, both included; otherwise refuse it,
/// naming the current version.
pub fn check_protocol_version(version: u32, min_supported: u32, current: u32) -> (r: Result<(), ProtocolError>)
    ensures
        min_supported <= version <= current ==> r is Ok,
        !(min_supported <= version <= current) ==> r == Err::<(), ProtocolError>(
            ProtocolError::UnsupportedProtocolVersion { actual: version, expected: current },
        ),
{
    if min_supported <= version && version <= current {
        Ok(())
    } else {
        Err(ProtocolError::UnsupportedProtocolVersion { actual: version, expected: current })
    }
}

/// What `str::to_lowercase` returns for `s` (its Unicode lowercase mapping).
pub uninterp spec fn str_to_lowercase(s: Seq<char>) -> Seq<char>;

/// `str::to_lowercase`: the lowercase mapping of `s`. An all-ASCII string maps
/// character by character to its ASCII lowercase form.
#[verifier::external_body]
pub(crate) fn lowercase_str(s: &str) -> (r: String)
    ensures
        r@ == str_to_lowercase(s@),
        (forall|i: int| 0 <= i < s@.len() ==> #[trigger] s@[i] <= '\u{7f}') ==> r@ == s@.map_values(
            |c: char| ascii_lower(c),
        ),
{
    s.to_lowercase()
}

/// `text` followed by `s`.
pub fn message(text: &str, s: &str) -> (r: String)
    ensures
        r@ == text@ + s@,
{
    let mut r = String::from_str(text);
    r.push_str(s);
    r
}

/// The direction `s` names, ignoring case, or `None`.
pub open spec fn order_direction(s: Seq<char>) -> Option<OrderDir> {
    if str_to_lowercase(s) == "asc"@ {
        Some(OrderDir::Asc)
    } else if str_to_lowercase(s) == "desc"@ {
        Some(OrderDir::Desc)
    } else {
        None
    }
}

/// Parse an order direction, `asc` or `desc` in any case.
pub fn parse_order_dir(s: &str) -> (r: Result<OrderDir, ProtocolError>)
    ensures
        match r {
            Ok(dir) => order_direction(s@) == Some(dir),
            Err(e) => order_direction(s@) is None && (e matches ProtocolError::InvalidFilter(m)
                && m@ == "Invalid order direction: "@ + s@),
        },
{
    let lowered = lowercase_str(s);
    if str_eq(lowered.as_str(), "asc") {
        Ok(OrderDir::Asc)
    } else if str_eq(lowered.as_str(), "desc") {
        Ok(OrderDir::Desc)
    } else {
        Err(ProtocolError::InvalidFilter(message("Invalid order direction: ", s)))
    }
}

/// The SQL aggregate a `having` or `orderBy` key names.
pub open spec fn aggregate_function(key: Seq<char>) -> Option<Seq<char>> {
    if key == "_count"@ {
        Some("COUNT"@)
    } else if key == "_avg"@ {
        Some("AVG"@)
    } else if key == "_sum"@ {
        Some("SUM"@)
    } else if key == "_min"@ {
        Some("MIN"@)
    } else if key == "_max"@ {
        Some("MAX"@)
    } else {
        None
    }
}

/// The SQL aggregate a `having` key names, or `None` for a plain column.
pub fn having_aggregate_fn(key: &str) -> (r: Option<&'static str>)
    ensures
        match r {
            Some(f) => aggregate_function(key@) == Some(f@),
            None => aggregate_function(key@) is None,
        },
{
    if str_eq(key, "_count") {
        Some("COUNT")
    } else if str_eq(key, "_avg") {
        Some("AVG")
    } else if str_eq(key, "_sum") {
        Some("SUM")
    } else if str_eq(key, "_min") {
        Some("MIN")
    } else if str_eq(key, "_max") {
        Some("MAX")
    } else {
        None
    }
}

/// The column an aggregate over `field` reads: `*` for `_all`, else the
/// qualified database column.
pub fn having_column(table: &str, logical_to_db: &[(String, String)], field: &str) -> (r: Expr)
    ensures
        field@ == "_all"@ ==> r is Star,
        field@ != "_all"@ ==> (r matches Expr::Column(c) && c@ == qualified_name(
            table@,
            db_column(logical_to_db@, field@),
        )),
{
    if str_eq(field, "_all") {
        return Expr::Star;
    }
    let db_col = db_column_for(logical_to_db, field);
    Expr::Column(qualified_name_of(table, db_col.as_str()))
}

/// The `COUNT(*)` item every grouped count selects, with its alias.
pub fn count_all_item() -> (r: (String, Expr))
    ensures
        r.0@ == "_count___all"@,
        r.1 matches Expr::FunctionCall { name, args } && name@ == "COUNT"@ && args@.len() == 1
            && args@[0] is Star,
{
    let mut args: Vec<Expr> = Vec::new();
    args.push(Expr::Star);
    (String::from_str("_count___all"), Expr::FunctionCall { name: String::from_str("COUNT"), args })
}

/// The number a JSON value holds as a `u64`, as `serde_json` reads it.
pub open spec fn json_as_u64(value: Json) -> Option<u64> {
    match value {
        Json::Number(JsonNumber::PosInt(n)) => Some(n),
        _ => None,
    }
}

/// The number a JSON value holds as an `i64`, as `serde_json` reads it.
pub open spec fn json_as_i64(value: Json) -> Option<i64> {
    match value {
        Json::Number(JsonNumber::PosInt(n)) => if n <= i64::MAX {
            Some(n as i64)
        } else {
            None
        },
        Json::Number(JsonNumber::NegInt(n)) => Some(n),
        _ => None,
    }
}

/// Read a non-negative integer that fits in a `u32`.
pub fn parse_int(value: &Json, field_name: &str) -> (r: Result<u32, ProtocolError>)
    ensures
        match r {
            Ok(n) => json_as_u64(*value) == Some(n as u64),
            Err(e) => !(json_as_u64(*value) matches Some(n) && n <= u32::MAX)
                && (e matches ProtocolError::InvalidParams(m) && m@ == field_name@
                + " must be a non-negative integer"@),
        },
{
    if let Json::Number(JsonNumber::PosInt(n)) = value {
        if *n <= 4294967295u64 {
            return Ok(*n as u32);
        }
    }
    Err(ProtocolError::InvalidParams(message(field_name, " must be a non-negative integer")))
}

/// Read an integer that fits in an `i64`.
pub fn parse_signed_int(value: &Json, field_name: &str) -> (r: Result<i64, ProtocolError>)
    ensures
        match r {
            Ok(n) => json_as_i64(*value) == Some(n),
            Err(e) => json_as_i64(*value) is None && (e matches ProtocolError::InvalidParams(m)
                && m@ == field_name@ + " must be an integer"@),
        },
{
    match value {
        Json::Number(JsonNumber::PosInt(n)) => {
            if *n <= 9223372036854775807u64 {
                return Ok(*n as i64);
            }
        },
        Json::Number(JsonNumber::NegInt(n)) => {
            return Ok(*n);
        },
        _ => {},
    }
    Err(ProtocolError::InvalidParams(message(field_name, " must be an integer")))
}

/// The body of a filter sent bare or wrapped as `{ "where": ... }`.
pub open spec fn filter_body(filter: Json) -> Json {
    match filter {
        Json::Object(entries) => if entries@.len() == 1 && entries@[0].0@ == "where"@ {
            entries@[0].1
        } else {
            filter
        },
        _ => filter,
    }
}

/// Unwrap a `{ "where": { ... } }` envelope down to the filter body.
pub fn protocol_filter_body(filter: &Json) -> (r: &Json)
    ensures
        *r == filter_body(*filter),
{
    if let Json::Object(entries) = filter {
        if entries.len() == 1 && str_eq(entries[0].0.as_str(), "where") {
            return &entries[0].1;
        }
    }
    filter
}

/// Reject a single-record `update` or `delete` whose filter is not an object,
/// or is empty and so would match every row.
pub fn ensure_single_record_filter(operation: &str, filter: &Json) -> (r: Result<(), ProtocolError>)
    ensures
        match filter_body(*filter) {
            Json::Object(entries) => if entries@.len() == 0 {
                r matches Err(ProtocolError::InvalidFilter(m)) && m@ == operation@
                    + " needs a where filter; use "@ + operation@ + "Many to change every row"@
            } else {
                r is Ok
            },
            _ => r matches Err(ProtocolError::InvalidFilter(m)) && m@ == operation@
                + " where must be an object"@,
        },
{
    match protocol_filter_body(filter) {
        Json::Object(entries) => {
            if entries.len() == 0 {
                let mut m = String::from_str(operation);
                m.push_str(" needs a where filter; use ");
                m.push_str(operation);
                m.push_str("Many to change every row");
                Err(ProtocolError::InvalidFilter(m))
            } else {
                Ok(())
            }
        },
        _ => Err(ProtocolError::InvalidFilter(message(operation, " where must be an object"))),
    }
}

} // verus!

verus! {

/// A filter and the same filter wrapped as `{ "where": ... }` unwrap alike,
/// unless the filter is itself such a wrapper.
pub proof fn lemma_wrapped_filter_unwraps_alike(wrapped: Json, bare: Json)
    requires
        wrapped matches Json::Object(entries) && entries@.len() == 1 && entries@[0].0@ == "where"@
            && entries@[0].1 == bare,
        !(bare matches Json::Object(inner) && inner@.len() == 1 && inner@[0].0@ == "where"@),
    ensures
        filter_body(wrapped) == filter_body(bare),
        filter_body(bare) == bare,
{
}

} // verus!
