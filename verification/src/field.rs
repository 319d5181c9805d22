//! JSON input for fields of a declared type: enum values checked against
//! their variants, decimals and timestamps parsed, the PostgreSQL extension
//! types shaped, and composites projected onto their declared fields.
use vstd::prelude::*;

use crate::ast::Value;
use crate::clauses::{joined, lemma_joined_take};
use crate::conversion::{
    converts_to, json_to_value, positive_as_f64_bits, u64_as_f64_bits, ResolvedFieldType, ScalarType,
};
use crate::ident::{decimal, push_u64};
use crate::json::{Json, JsonNumber};
use crate::model::{json_get, json_get_ref, CompositeFieldIr, CompositeTypeIr};
use crate::ordered::{
    key_position, lemma_key_position_bounds, lemma_map_insert, map_insert, map_lookup, strictly_ascending,
};
use crate::protocol::{lowercase_str, str_to_lowercase, ProtocolError};
use crate::text::str_eq;
use crate::unique::str_less;

verus! {

/// What `chrono::DateTime::parse_from_rfc3339` yields for `text`, taken to
/// UTC and written in the display form of `chrono::NaiveDateTime`.
pub uninterp spec fn rfc3339_utc(text: Seq<char>) -> Option<Seq<char>>;

/// What `chrono::NaiveDateTime::parse_from_str` yields for `text` under
/// `format`, written in its display form.
pub uninterp spec fn naive_datetime(text: Seq<char>, format: Seq<char>) -> Option<Seq<char>>;

/// What `rust_decimal::Decimal::from_str` yields for `text`, written in the
/// decimal's display form.
pub uninterp spec fn decimal_text(text: Seq<char>) -> Option<Seq<char>>;

/// What `serde_json::Number::as_f64` yields for a negative integer, by the
/// bit pattern of the double.
pub uninterp spec fn i64_as_f64_bits(n: i64) -> u64;

/// What `format!("{:?}", s)` writes for a string: it quoted, with escapes.
pub uninterp spec fn str_debug(s: Seq<char>) -> Seq<char>;

/// The characters of an optional string.
pub open spec fn text_of(r: Option<String>) -> Option<Seq<char>> {
    match r {
        Some(s) => Some(s@),
        None => None,
    }
}

/// `chrono::DateTime::parse_from_rfc3339`, taken to UTC with `naive_utc` and
/// written with `to_string`; the claim is only that the result is the named
/// one.
#[verifier::external_body]
fn parse_rfc3339_utc(raw: &str) -> (r: Option<String>)
    ensures
        text_of(r) == rfc3339_utc(raw@),
{
    chrono::DateTime::parse_from_rfc3339(raw).ok().map(|dt| dt.naive_utc().to_string())
}

/// `chrono::NaiveDateTime::parse_from_str`, written with `to_string`; the
/// claim is only that the result is the named one.
#[verifier::external_body]
fn parse_naive_datetime(raw: &str, format: &str) -> (r: Option<String>)
    ensures
        text_of(r) == naive_datetime(raw@, format@),
{
    chrono::NaiveDateTime::parse_from_str(raw, format).ok().map(|dt| dt.to_string())
}

/// `rust_decimal::Decimal::from_str`, written with `to_string`; the claim is
/// only that the result is the named one.
#[verifier::external_body]
pub(crate) fn parse_decimal_text(raw: &str) -> (r: Option<String>)
    ensures
        text_of(r) == decimal_text(raw@),
{
    <rust_decimal::Decimal as std::str::FromStr>::from_str(raw).ok().map(|d| d.to_string())
}

/// `serde_json::Number::as_f64` on a negative integer, by the bit pattern of
/// the double; without the crate's `arbitrary_precision` feature it always
/// answers.
#[verifier::external_body]
pub(crate) fn negative_as_f64_bits(n: i64) -> (r: u64)
    ensures
        r == i64_as_f64_bits(n),
{
    serde_json::Number::from(n).as_f64().map(|x| x.to_bits()).unwrap_or_default()
}

/// The `Debug` form of a string, from `format!`; the claim is only that the
/// result is the named one.
#[verifier::external_body]
pub(crate) fn debug_quoted(s: &str) -> (r: String)
    ensures
        r@ == str_debug(s@),
{
    format!("{:?}", s)
}

/// The timestamp a string is read as: RFC 3339 first, taken to UTC, then the
/// plain ISO-8601 spellings with `T` or a space, with and without fractional
/// seconds.
pub open spec fn parsed_datetime(text: Seq<char>) -> Option<Seq<char>> {
    if rfc3339_utc(text) is Some {
        rfc3339_utc(text)
    } else if naive_datetime(text, "%Y-%m-%dT%H:%M:%S%.f"@) is Some {
        naive_datetime(text, "%Y-%m-%dT%H:%M:%S%.f"@)
    } else if naive_datetime(text, "%Y-%m-%dT%H:%M:%S"@) is Some {
        naive_datetime(text, "%Y-%m-%dT%H:%M:%S"@)
    } else if naive_datetime(text, "%Y-%m-%d %H:%M:%S%.f"@) is Some {
        naive_datetime(text, "%Y-%m-%d %H:%M:%S%.f"@)
    } else {
        naive_datetime(text, "%Y-%m-%d %H:%M:%S"@)
    }
}

/// Read a timestamp in any of the accepted spellings.
pub fn parse_datetime(raw: &str) -> (r: Option<String>)
    ensures
        text_of(r) == parsed_datetime(raw@),
{
    let utc = parse_rfc3339_utc(raw);
    if utc.is_some() {
        return utc;
    }
    let t = parse_naive_datetime(raw, "%Y-%m-%dT%H:%M:%S%.f");
    if t.is_some() {
        return t;
    }
    let t = parse_naive_datetime(raw, "%Y-%m-%dT%H:%M:%S");
    if t.is_some() {
        return t;
    }
    let t = parse_naive_datetime(raw, "%Y-%m-%d %H:%M:%S%.f");
    if t.is_some() {
        return t;
    }
    parse_naive_datetime(raw, "%Y-%m-%d %H:%M:%S")
}

/// How an error message names the kind of JSON value it received.
pub open spec fn json_kind(j: Json) -> Seq<char> {
    match j {
        Json::Null => "null"@,
        Json::Bool(_) => "a boolean"@,
        Json::Number(_) => "a number"@,
        Json::String(_) => "a string"@,
        Json::Array(_) => "an array"@,
        Json::Object(_) => "an object"@,
    }
}

/// The kind of JSON value `j` is, as error messages name it.
pub fn describe_json(j: &Json) -> (r: &'static str)
    ensures
        r@ == json_kind(*j),
{
    proof {
        reveal_strlit("null");
        reveal_strlit("a boolean");
        reveal_strlit("a number");
        reveal_strlit("a string");
        reveal_strlit("an array");
        reveal_strlit("an object");
    }
    match j {
        Json::Null => "null",
        Json::Bool(_) => "a boolean",
        Json::Number(_) => "a number",
        Json::String(_) => "a string",
        Json::Array(_) => "an array",
        Json::Object(_) => "an object",
    }
}

/// The two PostGIS types.
#[derive(Debug, Clone, Copy, PartialEq, Eq)]
pub enum SpatialKind {
    Geometry,
    Geography,
}

/// How messages name a spatial type.
pub open spec fn spatial_name(kind: SpatialKind) -> Seq<char> {
    match kind {
        SpatialKind::Geometry => "Geometry"@,
        SpatialKind::Geography => "Geography"@,
    }
}

/// Whether `v` is the spatial value of `kind` holding `text`.
pub open spec fn spatial_holds(kind: SpatialKind, v: Value, text: Seq<char>) -> bool {
    match kind {
        SpatialKind::Geometry => v matches Value::Geometry(t) && t@ == text,
        SpatialKind::Geography => v matches Value::Geography(t) && t@ == text,
    }
}

/// The index of the first element from `k` on that is not a string.
pub open spec fn first_non_string(items: Seq<Json>, k: int) -> Option<int>
    decreases items.len() - k,
{
    if k < 0 || k >= items.len() {
        None
    } else if !(items[k] is String) {
        Some(k)
    } else {
        first_non_string(items, k + 1)
    }
}

/// The message a spatial input is refused with, if it is refused: it must be
/// null, a string, or an array of strings.
pub open spec fn spatial_error(json: Json, kind: SpatialKind) -> Option<Seq<char>> {
    match json {
        Json::Null | Json::String(_) => None,
        Json::Array(items) => match first_non_string(items@, 0) {
            Some(k) => Some(
                spatial_name(kind) + " arrays must contain only strings; element "@ + decimal(
                    k as nat,
                ) + " was "@ + json_kind(items@[k]),
            ),
            None => None,
        },
        _ => Some(
            spatial_name(kind) + " values must be strings containing WKT/EWKT or EWKB hex, got "@
                + json_kind(json),
        ),
    }
}

/// The value an accepted spatial input converts to.
pub open spec fn spatial_value(json: Json, kind: SpatialKind, v: Value) -> bool {
    match json {
        Json::Null => v is Null,
        Json::String(s) => spatial_holds(kind, v, s@),
        Json::Array(items) => v matches Value::Array(vs) && vs@.len() == items@.len() && forall|i: int|
            0 <= i < items@.len() ==> spatial_item(kind, items@[i], #[trigger] vs@[i]),
        _ => false,
    }
}

/// Whether `v` is what the array element `item` converts to.
pub open spec fn spatial_item(kind: SpatialKind, item: Json, v: Value) -> bool {
    item matches Json::String(s) && spatial_holds(kind, v, s@)
}

/// The contract shared by the converters: the value when `error` is `None`,
/// else `InvalidParams` with that message.
pub open spec fn answers(error: Option<Seq<char>>, r: Result<Value, ProtocolError>) -> bool {
    match error {
        None => r is Ok,
        Some(m) => r matches Err(ProtocolError::InvalidParams(t)) && t@ == m,
    }
}

fn wrap_spatial(kind: SpatialKind, text: String) -> (r: Value)
    ensures
        spatial_holds(kind, r, text@),
{
    match kind {
        SpatialKind::Geometry => Value::Geometry(text),
        SpatialKind::Geography => Value::Geography(text),
    }
}

fn spatial_type_name(kind: SpatialKind) -> (r: &'static str)
    ensures
        r@ == spatial_name(kind),
{
    proof {
        reveal_strlit("Geometry");
        reveal_strlit("Geography");
    }
    match kind {
        SpatialKind::Geometry => "Geometry",
        SpatialKind::Geography => "Geography",
    }
}

/// Convert a PostGIS input: a WKT/EWKT or EWKB-hex string, an array of them,
/// or null.
pub fn json_to_spatial_value(json: &Json, kind: SpatialKind) -> (r: Result<Value, ProtocolError>)
    ensures
        answers(spatial_error(*json, kind), r),
        match r {
            Ok(v) => spatial_value(*json, kind, v),
            Err(_) => true,
        },
{
    match json {
        Json::Null => Ok(Value::Null),
        Json::String(raw) => Ok(wrap_spatial(kind, String::from_str(raw.as_str()))),
        Json::Array(items) => {
            let mut values: Vec<Value> = Vec::new();
            let mut i: usize = 0;
            while i < items.len()
                invariant
                    i <= items@.len(),
                    *json == Json::Array(*items),
                    values@.len() == i,
                    first_non_string(items@, 0) == first_non_string(items@, i as int),
                    forall|j: int| 0 <= j < i ==> spatial_item(kind, items@[j], #[trigger] values@[j]),
                decreases items@.len() - i,
            {
                match &items[i] {
                    Json::String(raw) => {
                        let v = wrap_spatial(kind, String::from_str(raw.as_str()));
                        values.push(v);
                        assert(values@[i as int] == v);
                    },
                    other => {
                        let mut m = String::from_str(spatial_type_name(kind));
                        m.push_str(" arrays must contain only strings; element ");
                        push_u64(&mut m, i as u64);
                        m.push_str(" was ");
                        m.push_str(describe_json(other));
                        return Err(ProtocolError::InvalidParams(m));
                    },
                }
                i = i + 1;
            }
            Ok(Value::Array(values))
        },
        other => {
            let mut m = String::from_str(spatial_type_name(kind));
            m.push_str(" values must be strings containing WKT/EWKT or EWKB hex, got ");
            m.push_str(describe_json(other));
            Err(ProtocolError::InvalidParams(m))
        },
    }
}

/// The double a JSON number reads as (`serde_json::Number::as_f64`), by its
/// bit pattern.
pub open spec fn number_f64_bits(n: JsonNumber) -> u64 {
    match n {
        JsonNumber::PosInt(u) => u64_as_f64_bits(u),
        JsonNumber::NegInt(i) => i64_as_f64_bits(i),
        JsonNumber::Float(bits) => bits,
    }
}

/// Whether the double with bit pattern `bits` is finite and within the range
/// of `f32`: with the sign cleared, its bits are at most those of `f32::MAX`
/// widened to a double, `0x47EF_FFFF_E000_0000`. Infinities and NaNs lie
/// above that, and the order of the cleared bits is the order of magnitudes.
pub open spec fn within_f32_range(bits: u64) -> bool {
    (bits & 0x7FFF_FFFF_FFFF_FFFFu64) <= 0x47EF_FFFF_E000_0000u64
}

/// Whether a vector element is accepted: a number in the range of `f32`.
pub open spec fn vector_component_ok(item: Json) -> bool {
    item matches Json::Number(n) && within_f32_range(number_f64_bits(n))
}

/// The index of the first element from `k` on that is not accepted.
pub open spec fn first_bad_component(items: Seq<Json>, k: int) -> Option<int>
    decreases items.len() - k,
{
    if k < 0 || k >= items.len() {
        None
    } else if !vector_component_ok(items[k]) {
        Some(k)
    } else {
        first_bad_component(items, k + 1)
    }
}

/// The message a vector input is refused with, if it is refused: it must be
/// null, or an array of exactly `dimension` numbers in the range of `f32`.
pub open spec fn vector_error(json: Json, dimension: u32) -> Option<Seq<char>> {
    match json {
        Json::Null => None,
        Json::Array(items) => if items@.len() != dimension {
            Some(
                "Vector value has "@ + decimal(items@.len()) + " dimensions but schema requires "@
                    + decimal(dimension as nat),
            )
        } else {
            match first_bad_component(items@, 0) {
                Some(k) => if items@[k] is Number {
                    Some("Vector element "@ + decimal(k as nat) + " is outside the finite f32 range"@)
                } else {
                    Some(
                        "Vector values must be arrays of finite numbers; element "@ + decimal(
                            k as nat,
                        ) + " was "@ + json_kind(items@[k]),
                    )
                },
                None => None,
            }
        },
        _ => Some("Vector values must be arrays of finite numbers, got "@ + json_kind(json)),
    }
}

/// Whether `c` is the component the element `item` gives.
pub open spec fn vector_component(item: Json, c: u64) -> bool {
    item matches Json::Number(n) && c == number_f64_bits(n)
}

/// The value an accepted vector input converts to.
pub open spec fn vector_value(json: Json, v: Value) -> bool {
    match json {
        Json::Null => v is Null,
        Json::Array(items) => v matches Value::Vector(cs) && cs@.len() == items@.len() && forall|i: int|
            0 <= i < items@.len() ==> vector_component(items@[i], #[trigger] cs@[i]),
        _ => false,
    }
}

fn number_bits(n: &JsonNumber) -> (r: u64)
    ensures
        r == number_f64_bits(*n),
{
    match n {
        JsonNumber::PosInt(u) => positive_as_f64_bits(*u),
        JsonNumber::NegInt(i) => negative_as_f64_bits(*i),
        JsonNumber::Float(bits) => *bits,
    }
}

/// Convert a pgvector input: null, or an array of `dimension` numbers, each
/// finite and within the range of `f32`.
pub fn json_to_vector_value(json: &Json, dimension: u32) -> (r: Result<Value, ProtocolError>)
    ensures
        answers(vector_error(*json, dimension), r),
        match r {
            Ok(v) => vector_value(*json, v),
            Err(_) => true,
        },
{
    match json {
        Json::Null => Ok(Value::Null),
        Json::Array(items) => {
            if items.len() as u64 != dimension as u64 {
                let mut m = String::from_str("Vector value has ");
                push_u64(&mut m, items.len() as u64);
                m.push_str(" dimensions but schema requires ");
                push_u64(&mut m, dimension as u64);
                return Err(ProtocolError::InvalidParams(m));
            }
            let mut values: Vec<u64> = Vec::new();
            let mut i: usize = 0;
            while i < items.len()
                invariant
                    i <= items@.len(),
                    *json == Json::Array(*items),
                    items@.len() == dimension,
                    values@.len() == i,
                    first_bad_component(items@, 0) == first_bad_component(items@, i as int),
                    forall|j: int| 0 <= j < i ==> vector_component(items@[j], #[trigger] values@[j]),
                decreases items@.len() - i,
            {
                match &items[i] {
                    Json::Number(n) => {
                        let bits = number_bits(n);
                        if (bits & 0x7FFF_FFFF_FFFF_FFFFu64) > 0x47EF_FFFF_E000_0000u64 {
                            let mut m = String::from_str("Vector element ");
                            push_u64(&mut m, i as u64);
                            m.push_str(" is outside the finite f32 range");
                            return Err(ProtocolError::InvalidParams(m));
                        }
                        values.push(bits);
                        assert(values@[i as int] == bits);
                    },
                    other => {
                        let mut m = String::from_str(
                            "Vector values must be arrays of finite numbers; element ",
                        );
                        push_u64(&mut m, i as u64);
                        m.push_str(" was ");
                        m.push_str(describe_json(other));
                        return Err(ProtocolError::InvalidParams(m));
                    },
                }
                i = i + 1;
            }
            Ok(Value::Vector(values))
        },
        other => {
            let mut m = String::from_str("Vector values must be arrays of finite numbers, got ");
            m.push_str(describe_json(other));
            Err(ProtocolError::InvalidParams(m))
        },
    }
}

/// An hstore map as mathematics sees it: keys with their text or SQL NULL.
pub type HstoreView = Seq<(Seq<char>, Option<Seq<char>>)>;

/// The mathematical value of an hstore map.
pub open spec fn hstore_view(h: Seq<(String, Option<String>)>) -> HstoreView {
    h.map_values(|e: (String, Option<String>)| (e.0@, text_of(e.1)))
}

/// The hstore cell a member value gives: its text for a string, SQL NULL
/// otherwise.
pub open spec fn hstore_cell(v: Json) -> Option<Seq<char>> {
    match v {
        Json::String(s) => Some(s@),
        _ => None,
    }
}

/// The index of the first member from `k` on whose value is neither a string
/// nor null.
pub open spec fn first_bad_member(entries: Seq<(String, Json)>, k: int) -> Option<int>
    decreases entries.len() - k,
{
    if k < 0 || k >= entries.len() {
        None
    } else if !(entries[k].1 is String || entries[k].1 is Null) {
        Some(k)
    } else {
        first_bad_member(entries, k + 1)
    }
}

/// The hstore map the members of an object give, inserted in order.
pub open spec fn hstore_of(entries: Seq<(String, Json)>) -> HstoreView
    decreases entries.len(),
{
    if entries.len() == 0 {
        Seq::empty()
    } else {
        map_insert(
            hstore_of(entries.drop_last()),
            entries.last().0@,
            hstore_cell(entries.last().1),
        )
    }
}

/// The cell the last member under `key` gives, if any member has that key.
pub open spec fn last_cell(entries: Seq<(String, Json)>, key: Seq<char>) -> Option<Option<Seq<char>>>
    decreases entries.len(),
{
    if entries.len() == 0 {
        None
    } else if entries.last().0@ == key {
        Some(hstore_cell(entries.last().1))
    } else {
        last_cell(entries.drop_last(), key)
    }
}

/// An object read as an hstore map holds each key once, in ascending order,
/// with the value of the last member under it.
pub proof fn lemma_hstore_keeps_last_member(entries: Seq<(String, Json)>)
    ensures
        strictly_ascending(hstore_of(entries)),
        forall|key: Seq<char>| #[trigger] map_lookup(hstore_of(entries), key) == last_cell(entries, key),
    decreases entries.len(),
{
    if entries.len() > 0 {
        let rest = entries.drop_last();
        lemma_hstore_keeps_last_member(rest);
        lemma_map_insert(hstore_of(rest), entries.last().0@, hstore_cell(entries.last().1));
        assert forall|key: Seq<char>| #[trigger] map_lookup(hstore_of(entries), key) == last_cell(entries, key) by {
            if key != entries.last().0@ {
                assert(map_lookup(hstore_of(rest), key) == last_cell(rest, key));
            }
        }
    }
}

/// The message an object is refused with as an hstore, if it is refused.
pub open spec fn hstore_object_error(entries: Seq<(String, Json)>) -> Option<Seq<char>> {
    match first_bad_member(entries, 0) {
        Some(k) => Some(
            "Hstore values must be strings or nulls; key "@ + str_debug(entries[k].0@)
                + " received "@ + json_kind(entries[k].1),
        ),
        None => None,
    }
}

/// Set `key` to `cell` in the ordered map `map`.
fn hstore_insert(map: &mut Vec<(String, Option<String>)>, key: &str, cell: Option<String>)
    ensures
        hstore_view(final(map)@) == map_insert(hstore_view(old(map)@), key@, text_of(cell)),
{
    let ghost m = hstore_view(map@);
    let mut p: usize = 0;
    while p < map.len() && str_less(map[p].0.as_str(), key)
        invariant
            p <= map@.len(),
            m == hstore_view(map@),
            key_position(m, key@, 0) == key_position(m, key@, p as int),
        decreases map@.len() - p,
    {
        p = p + 1;
    }
    proof {
        lemma_key_position_bounds(m, key@, p as int);
    }
    assert(key_position(m, key@, 0) == p);
    let entry = (String::from_str(key), cell);
    if p < map.len() && str_eq(map[p].0.as_str(), key) {
        map[p] = entry;
        assert(hstore_view(map@) =~= m.update(p as int, (key@, text_of(cell))));
    } else {
        map.insert(p, entry);
        assert(hstore_view(map@) =~= m.insert(p as int, (key@, text_of(cell))));
    }
}

/// Read an object as an hstore map: every member's value must be a string or
/// null, and a later member overrides an earlier one of the same key.
pub fn json_object_to_hstore(entries: &Vec<(String, Json)>) -> (r: Result<Vec<(String, Option<String>)>, ProtocolError>)
    ensures
        match hstore_object_error(entries@) {
            None => r matches Ok(h) && hstore_view(h@) == hstore_of(entries@),
            Some(m) => r matches Err(ProtocolError::InvalidParams(t)) && t@ == m,
        },
{
    let mut map: Vec<(String, Option<String>)> = Vec::new();
    let mut i: usize = 0;
    while i < entries.len()
        invariant
            i <= entries@.len(),
            first_bad_member(entries@, 0) == first_bad_member(entries@, i as int),
            hstore_view(map@) == hstore_of(entries@.take(i as int)),
        decreases entries@.len() - i,
    {
        let (key, value) = &entries[i];
        let cell = match value {
            Json::String(text) => Some(String::from_str(text.as_str())),
            Json::Null => None,
            other => {
                let mut m = String::from_str("Hstore values must be strings or nulls; key ");
                m.push_str(debug_quoted(key.as_str()).as_str());
                m.push_str(" received ");
                m.push_str(describe_json(other));
                return Err(ProtocolError::InvalidParams(m));
            },
        };
        assert(text_of(cell) == hstore_cell(entries@[i as int].1));
        hstore_insert(&mut map, key.as_str(), cell);
        assert(entries@.take(i + 1).drop_last() =~= entries@.take(i as int));
        i = i + 1;
    }
    assert(entries@.take(entries@.len() as int) =~= entries@);
    Ok(map)
}

/// Whether `v` is what the array element `item` converts to as an hstore.
pub open spec fn hstore_item(item: Json, v: Value) -> bool {
    match item {
        Json::Null => v is Null,
        Json::Object(entries) => v matches Value::Hstore(h) && hstore_view(h@) == hstore_of(entries@),
        _ => false,
    }
}

/// The message an hstore array element is refused with, if it is refused.
pub open spec fn hstore_item_error(item: Json) -> Option<Seq<char>> {
    match item {
        Json::Null => None,
        Json::Object(entries) => hstore_object_error(entries@),
        _ => Some("Hstore arrays must contain only objects or nulls, got "@ + json_kind(item)),
    }
}

/// The index of the first array element from `k` on that is refused.
pub open spec fn first_bad_hstore_item(items: Seq<Json>, k: int) -> Option<int>
    decreases items.len() - k,
{
    if k < 0 || k >= items.len() {
        None
    } else if hstore_item_error(items[k]) is Some {
        Some(k)
    } else {
        first_bad_hstore_item(items, k + 1)
    }
}

/// The message an hstore input is refused with, if it is refused: it must be
/// null, an object of strings and nulls, or an array of such objects and nulls.
pub open spec fn hstore_error(json: Json) -> Option<Seq<char>> {
    match json {
        Json::Null => None,
        Json::Object(entries) => hstore_object_error(entries@),
        Json::Array(items) => match first_bad_hstore_item(items@, 0) {
            Some(k) => hstore_item_error(items@[k]),
            None => None,
        },
        _ => Some(
            "Hstore values must be JSON objects with string or null values, got "@ + json_kind(json),
        ),
    }
}

/// The value an accepted hstore input converts to.
pub open spec fn hstore_value(json: Json, v: Value) -> bool {
    match json {
        Json::Array(items) => v matches Value::Array(vs) && vs@.len() == items@.len() && forall|i: int|
            0 <= i < items@.len() ==> hstore_item(items@[i], #[trigger] vs@[i]),
        _ => hstore_item(json, v),
    }
}

/// Convert an hstore input: null, an object of strings and nulls, or an array
/// of such objects and nulls.
pub fn json_to_hstore_value(json: &Json) -> (r: Result<Value, ProtocolError>)
    ensures
        answers(hstore_error(*json), r),
        match r {
            Ok(v) => hstore_value(*json, v),
            Err(_) => true,
        },
{
    match json {
        Json::Null => Ok(Value::Null),
        Json::Object(entries) => match json_object_to_hstore(entries) {
            Ok(h) => Ok(Value::Hstore(h)),
            Err(e) => Err(e),
        },
        Json::Array(items) => {
            let mut values: Vec<Value> = Vec::new();
            let mut i: usize = 0;
            while i < items.len()
                invariant
                    i <= items@.len(),
                    *json == Json::Array(*items),
                    values@.len() == i,
                    first_bad_hstore_item(items@, 0) == first_bad_hstore_item(items@, i as int),
                    forall|j: int| 0 <= j < i ==> hstore_item(items@[j], #[trigger] values@[j]),
                decreases items@.len() - i,
            {
                let v = match &items[i] {
                    Json::Null => Value::Null,
                    Json::Object(entries) => match json_object_to_hstore(entries) {
                        Ok(h) => Value::Hstore(h),
                        Err(e) => {
                            return Err(e);
                        },
                    },
                    other => {
                        let mut m = String::from_str(
                            "Hstore arrays must contain only objects or nulls, got ",
                        );
                        m.push_str(describe_json(other));
                        return Err(ProtocolError::InvalidParams(m));
                    },
                };
                values.push(v);
                assert(values@[i as int] == v);
                i = i + 1;
            }
            Ok(Value::Array(values))
        },
        other => {
            let mut m = String::from_str(
                "Hstore values must be JSON objects with string or null values, got ",
            );
            m.push_str(describe_json(other));
            Err(ProtocolError::InvalidParams(m))
        },
    }
}

/// The characters of each name.
pub open spec fn name_views(names: Seq<String>) -> Seq<Seq<char>> {
    names.map_values(|s: String| s@)
}

/// The message an enum input outside the enum's variants is refused with.
pub open spec fn enum_error(value: Seq<char>, enum_name: Seq<char>, variants: Seq<String>) -> Option<Seq<char>> {
    if name_views(variants).contains(value) {
        None
    } else {
        Some(
            "'"@ + value + "' is not a variant of enum "@ + enum_name + "; expected one of: "@
                + joined(name_views(variants), ", "@),
        )
    }
}

/// The message the input `json` for a field of type `field_type` is refused
/// with, if it is refused.
pub open spec fn field_error(json: Json, field_type: ResolvedFieldType) -> Option<Seq<char>> {
    match field_type {
        ResolvedFieldType::Enum { enum_name, variants } => match json {
            Json::String(s) => enum_error(s@, enum_name@, variants@),
            _ => None,
        },
        ResolvedFieldType::Scalar(scalar) => match scalar {
            ScalarType::Decimal => match json {
                Json::String(s) => if decimal_text(s@) is Some {
                    None
                } else {
                    Some("'"@ + s@ + "' is not a valid Decimal"@)
                },
                _ => None,
            },
            ScalarType::Hstore => hstore_error(json),
            ScalarType::Vector { dimension } => vector_error(json, dimension),
            ScalarType::Geometry => spatial_error(json, SpatialKind::Geometry),
            ScalarType::Geography => spatial_error(json, SpatialKind::Geography),
            _ => None,
        },
        _ => None,
    }
}

/// Whether `v` binds `text` as the extension type `sql_type`.
pub open spec fn extension_holds(v: Value, sql_type: Seq<char>, text: Seq<char>) -> bool {
    v matches Value::Extension { sql_type: t, value } && t@ == sql_type && value@ == text
}

/// Whether `v` is what the accepted input `json` converts to for a field of
/// type `field_type`: an enum value carries the enum's lowercased name, a
/// string for a text field stays a string, decimals and timestamps are
/// parsed, the extension types are shaped, and anything else converts as
/// untyped input does.
pub open spec fn field_value(json: Json, field_type: ResolvedFieldType, v: Value) -> bool {
    match field_type {
        ResolvedFieldType::Enum { enum_name, .. } => match json {
            Json::Null => v is Null,
            Json::String(s) => v matches Value::Enum { sql_type, value } && value@ == s@ && sql_type@
                == str_to_lowercase(enum_name@),
            _ => converts_to(json, v),
        },
        ResolvedFieldType::Scalar(scalar) => match scalar {
            ScalarType::String => match json {
                Json::String(s) => v matches Value::String(t) && t@ == s@,
                _ => converts_to(json, v),
            },
            ScalarType::Decimal => match json {
                Json::String(s) => v matches Value::Decimal(t) && decimal_text(s@) == Some(t@),
                _ => converts_to(json, v),
            },
            ScalarType::DateTime => match json {
                Json::String(s) => match parsed_datetime(s@) {
                    Some(d) => v matches Value::DateTime(t) && t@ == d,
                    None => converts_to(json, v),
                },
                _ => converts_to(json, v),
            },
            ScalarType::Hstore => hstore_value(json, v),
            ScalarType::Vector { .. } => vector_value(json, v),
            ScalarType::Geometry => spatial_value(json, SpatialKind::Geometry, v),
            ScalarType::Geography => spatial_value(json, SpatialKind::Geography, v),
            ScalarType::Citext => match json {
                Json::String(s) => extension_holds(v, "citext"@, s@),
                _ => converts_to(json, v),
            },
            ScalarType::Ltree => match json {
                Json::String(s) => extension_holds(v, "ltree"@, s@),
                _ => converts_to(json, v),
            },
            _ => converts_to(json, v),
        },
        _ => converts_to(json, v),
    }
}

/// Write `names` separated by `, `.
fn push_joined_names(m: &mut String, names: &Vec<String>)
    ensures
        final(m)@ == old(m)@ + joined(name_views(names@), ", "@),
{
    let ghost start = m@;
    let ghost parts = name_views(names@);
    let mut i: usize = 0;
    while i < names.len()
        invariant
            i <= names@.len(),
            parts == name_views(names@),
            m@ == start + joined(parts.take(i as int), ", "@),
        decreases names@.len() - i,
    {
        proof {
            lemma_joined_take(parts, ", "@, i as int);
        }
        if i > 0 {
            m.push_str(", ");
        }
        m.push_str(names[i].as_str());
        i = i + 1;
        assert(m@ =~= start + joined(parts.take(i as int), ", "@));
    }
    assert(parts.take(names@.len() as int) =~= parts);
}

/// Check an enum input against the enum's variants.
fn check_enum_variant(value: &str, enum_name: &str, variants: &Vec<String>) -> (r: Result<(), ProtocolError>)
    ensures
        match enum_error(value@, enum_name@, variants@) {
            None => r is Ok,
            Some(m) => r matches Err(ProtocolError::InvalidParams(t)) && t@ == m,
        },
{
    let mut k: usize = 0;
    while k < variants.len()
        invariant
            k <= variants@.len(),
            forall|j: int| 0 <= j < k ==> name_views(variants@)[j] != value@,
        decreases variants@.len() - k,
    {
        if str_eq(variants[k].as_str(), value) {
            assert(name_views(variants@)[k as int] == value@);
            return Ok(());
        }
        k = k + 1;
    }
    let mut m = String::from_str("'");
    m.push_str(value);
    m.push_str("' is not a variant of enum ");
    m.push_str(enum_name);
    m.push_str("; expected one of: ");
    push_joined_names(&mut m, variants);
    Err(ProtocolError::InvalidParams(m))
}

fn untyped(json: &Json) -> (r: Result<Value, ProtocolError>)
    ensures
        r matches Ok(v) && converts_to(*json, v),
{
    json_to_value(json)
}

/// Convert the input for a field of a declared type.
pub fn json_to_value_field(json: &Json, field_type: &ResolvedFieldType) -> (r: Result<Value, ProtocolError>)
    ensures
        answers(field_error(*json, *field_type), r),
        match r {
            Ok(v) => field_value(*json, *field_type, v),
            Err(_) => true,
        },
{
    match field_type {
        ResolvedFieldType::Enum { enum_name, variants } => match json {
            Json::Null => Ok(Value::Null),
            Json::String(s) => match check_enum_variant(s.as_str(), enum_name.as_str(), variants) {
                Ok(()) => Ok(
                    Value::Enum {
                        sql_type: lowercase_str(enum_name.as_str()),
                        value: String::from_str(s.as_str()),
                    },
                ),
                Err(e) => Err(e),
            },
            _ => untyped(json),
        },
        ResolvedFieldType::Scalar(scalar) => match scalar {
            ScalarType::String => match json {
                Json::String(s) => Ok(Value::String(String::from_str(s.as_str()))),
                _ => untyped(json),
            },
            ScalarType::Decimal => match json {
                Json::String(s) => match parse_decimal_text(s.as_str()) {
                    Some(t) => Ok(Value::Decimal(t)),
                    None => {
                        let mut m = String::from_str("'");
                        m.push_str(s.as_str());
                        m.push_str("' is not a valid Decimal");
                        Err(ProtocolError::InvalidParams(m))
                    },
                },
                _ => untyped(json),
            },
            ScalarType::DateTime => match json {
                Json::String(s) => match parse_datetime(s.as_str()) {
                    Some(t) => Ok(Value::DateTime(t)),
                    None => untyped(json),
                },
                _ => untyped(json),
            },
            ScalarType::Hstore => json_to_hstore_value(json),
            ScalarType::Vector { dimension } => json_to_vector_value(json, *dimension),
            ScalarType::Geometry => json_to_spatial_value(json, SpatialKind::Geometry),
            ScalarType::Geography => json_to_spatial_value(json, SpatialKind::Geography),
            ScalarType::Citext => match json {
                Json::String(s) => Ok(
                    Value::Extension {
                        sql_type: String::from_str("citext"),
                        value: String::from_str(s.as_str()),
                    },
                ),
                _ => untyped(json),
            },
            ScalarType::Ltree => match json {
                Json::String(s) => Ok(
                    Value::Extension {
                        sql_type: String::from_str("ltree"),
                        value: String::from_str(s.as_str()),
                    },
                ),
                _ => untyped(json),
            },
            _ => untyped(json),
        },
        _ => untyped(json),
    }
}

/// The input a composite field reads: the member under its logical name,
/// else under its column name, else null.
pub open spec fn composite_input(entries: Seq<(String, Json)>, field: CompositeFieldIr) -> Json {
    match json_get(entries, field.logical_name@) {
        Some(j) => j,
        None => match json_get(entries, field.db_name@) {
            Some(j) => j,
            None => Json::Null,
        },
    }
}

/// The index of the first composite field from `k` on whose input is refused.
pub open spec fn first_bad_field(entries: Seq<(String, Json)>, fields: Seq<CompositeFieldIr>, k: int) -> Option<int>
    decreases fields.len() - k,
{
    if k < 0 || k >= fields.len() {
        None
    } else if field_error(composite_input(entries, fields[k]), fields[k].field_type) is Some {
        Some(k)
    } else {
        first_bad_field(entries, fields, k + 1)
    }
}

/// The message a composite input is refused with, if it is refused: it must
/// be null or an object whose fields all convert.
pub open spec fn composite_error(json: Json, composite: CompositeTypeIr) -> Option<Seq<char>> {
    match json {
        Json::Null => None,
        Json::Object(entries) => match first_bad_field(entries@, composite.fields@, 0) {
            Some(k) => field_error(
                composite_input(entries@, composite.fields@[k]),
                composite.fields@[k].field_type,
            ),
            None => None,
        },
        _ => Some(
            "Composite type '"@ + composite.logical_name@ + "' expects a JSON object, got "@
                + json_kind(json),
        ),
    }
}

/// Whether `v` is the record an accepted composite input converts to: one
/// value per declared field, in declared order, under the type's SQL name.
pub open spec fn composite_value(json: Json, composite: CompositeTypeIr, v: Value) -> bool {
    match json {
        Json::Null => v is Null,
        Json::Object(entries) => v matches Value::Composite { sql_type, fields } && sql_type@
            == composite.db_name@ && fields@.len() == composite.fields@.len() && forall|i: int|
            0 <= i < fields@.len() ==> field_value(
                composite_input(entries@, composite.fields@[i]),
                composite.fields@[i].field_type,
                #[trigger] fields@[i],
            ),
        _ => false,
    }
}

/// Convert the input for a PostgreSQL composite-type column: the object is
/// projected onto the type's fields in their declared order, a missing member
/// binding as NULL.
pub fn json_to_value_composite(json: &Json, composite: &CompositeTypeIr) -> (r: Result<Value, ProtocolError>)
    ensures
        answers(composite_error(*json, *composite), r),
        match r {
            Ok(v) => composite_value(*json, *composite, v),
            Err(_) => true,
        },
{
    match json {
        Json::Null => Ok(Value::Null),
        Json::Object(entries) => {
            let null = Json::Null;
            let mut fields: Vec<Value> = Vec::new();
            let mut i: usize = 0;
            while i < composite.fields.len()
                invariant
                    i <= composite.fields@.len(),
                    *json == Json::Object(*entries),
                    null == Json::Null,
                    fields@.len() == i,
                    first_bad_field(entries@, composite.fields@, 0) == first_bad_field(
                        entries@,
                        composite.fields@,
                        i as int,
                    ),
                    forall|j: int|
                        0 <= j < i ==> field_value(
                            composite_input(entries@, composite.fields@[j]),
                            composite.fields@[j].field_type,
                            #[trigger] fields@[j],
                        ),
                decreases composite.fields@.len() - i,
            {
                let field = &composite.fields[i];
                let raw = match json_get_ref(entries, field.logical_name.as_str()) {
                    Some(j) => j,
                    None => match json_get_ref(entries, field.db_name.as_str()) {
                        Some(j) => j,
                        None => &null,
                    },
                };
                assert(*raw == composite_input(entries@, composite.fields@[i as int]));
                match json_to_value_field(raw, &field.field_type) {
                    Ok(v) => {
                        fields.push(v);
                        assert(fields@[i as int] == v);
                    },
                    Err(e) => {
                        return Err(e);
                    },
                }
                i = i + 1;
            }
            Ok(Value::Composite { sql_type: String::from_str(composite.db_name.as_str()), fields })
        },
        other => {
            let mut m = String::from_str("Composite type '");
            m.push_str(composite.logical_name.as_str());
            m.push_str("' expects a JSON object, got ");
            m.push_str(describe_json(other));
            Err(ProtocolError::InvalidParams(m))
        },
    }
}

} // verus!
