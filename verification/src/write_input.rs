//! How one `data` object becomes the columns, values and `SET` entries of a
//! write: which keys a model accepts, how an atomic operator becomes an
//! expression over the column's current value, when an explicit `null` leaves
//! the column to the database's default, and where `updatedAt` takes its value.
use vstd::prelude::*;

use crate::ast::{Assignment, BinaryOp, ColumnMarker, Expr, Value};
use crate::conversion::{
    accepts_arithmetic, atomic_operator, atomic_operator_sql, ensure_scalar_input, operator_arithmetic,
    operator_input, scalar_input_error, takes_arithmetic, ResolvedFieldType, ScalarType,
};
use crate::field::{
    answers, composite_error, composite_value, field_error, field_value, json_to_value_composite,
    json_to_value_field,
};
use crate::json::Json;
use crate::model::{field_input, row_field_json, CompositeTypeIr, DefaultValue, FieldIr, ModelIr};
use crate::order_target::composite_named;
use crate::protocol::ProtocolError;
use crate::text::str_eq;

verus! {

/// What chrono displays for the naive UTC timestamp `secs` seconds and
/// `nanos` nanoseconds after the Unix epoch: `DateTime::from_timestamp`
/// followed by `naive_utc().to_string()`, or `None` where there is no such
/// timestamp.
pub uninterp spec fn utc_timestamp_text(secs: i64, nanos: u32) -> Option<Seq<char>>;

/// The text `chrono::DateTime::from_timestamp(secs, nanos)` displays as a
/// naive UTC timestamp. The claim is that the result is the named one, and
/// that a timestamp within a quarter of a million years of the epoch, with
/// fewer than a billion nanoseconds, has one: chrono's dates reach about
/// 262,000 years either side.
#[verifier::external_body]
fn naive_utc_text(secs: i64, nanos: u32) -> (r: Option<String>)
    ensures
        match r {
            Some(t) => utc_timestamp_text(secs, nanos) == Some(t@),
            None => utc_timestamp_text(secs, nanos) is None,
        },
        -7_800_000_000_000 <= secs <= 7_800_000_000_000 && nanos < 1_000_000_000 ==> r is Some,
{
    chrono::DateTime::from_timestamp(secs, nanos).map(|t| t.naive_utc().to_string())
}

/// A moment in UTC, as seconds and nanoseconds since the Unix epoch, within
/// the range a timestamp is displayed for.
pub struct Timestamp {
    secs: i64,
    nanos: u32,
}

impl Timestamp {
    #[verifier::type_invariant]
    spec fn in_range(self) -> bool {
        -7_800_000_000_000 <= self.secs <= 7_800_000_000_000 && self.nanos < 1_000_000_000
    }

    /// The seconds since the epoch.
    pub closed spec fn seconds(self) -> i64 {
        self.secs
    }

    /// The nanoseconds past the second.
    pub closed spec fn nanoseconds(self) -> u32 {
        self.nanos
    }

    /// The moment `secs` seconds and `nanos` nanoseconds after the epoch,
    /// when it lies within a quarter of a million years of it and `nanos` is
    /// less than a second.
    pub fn new(secs: i64, nanos: u32) -> (r: Option<Timestamp>)
        ensures
            match r {
                Some(t) => t.seconds() == secs && t.nanoseconds() == nanos,
                None => !(-7_800_000_000_000 <= secs <= 7_800_000_000_000 && nanos < 1_000_000_000),
            },
    {
        if -7_800_000_000_000 <= secs && secs <= 7_800_000_000_000 && nanos < 1_000_000_000 {
            Some(Timestamp { secs, nanos })
        } else {
            None
        }
    }

    /// The seconds since the epoch.
    pub fn secs(&self) -> (r: i64)
        ensures
            r == self.seconds(),
    {
        self.secs
    }

    /// The nanoseconds past the second.
    pub fn nanos(&self) -> (r: u32)
        ensures
            r == self.nanoseconds(),
    {
        self.nanos
    }
}

/// Whether `v` is the value an update stamps `updatedAt` with at `now`: the
/// naive UTC timestamp chrono displays for it.
pub open spec fn stamped_at(v: Value, now: Timestamp) -> bool {
    v matches Value::DateTime(t) && utc_timestamp_text(now.seconds(), now.nanoseconds()) == Some(t@)
}

/// The value an update stamps an `updatedAt` field with at `now`.
pub fn updated_at_now_value(now: &Timestamp) -> (r: Value)
    ensures
        stamped_at(r, *now),
{
    proof {
        use_type_invariant(now);
    }
    match naive_utc_text(now.secs, now.nanos) {
        Some(t) => Value::DateTime(t),
        None => Value::DateTime(String::new()),
    }
}

/// What a write works with besides its data: whether the backend stores
/// composite fields as native record types, the composite types the schema
/// declares, and the moment an update stamps `updatedAt` with.
pub struct CompositeSupport<'a> {
    pub native: bool,
    pub composites: &'a [CompositeTypeIr],
    pub now: Timestamp,
}

/// Whether a field is written by an insert or by an update, which decides
/// where `updatedAt` and a function default take their value.
#[derive(Debug, Clone, Copy, PartialEq, Eq)]
pub enum FieldInputMode {
    Create,
    Update,
}

/// The column a field is written to.
pub fn field_marker(model: &ModelIr, field: &FieldIr) -> (r: ColumnMarker)
    ensures
        r.table@ == model.db_name@,
        r.name@ == field.db_name@,
{
    ColumnMarker { table: String::from_str(model.db_name.as_str()), name: String::from_str(field.db_name.as_str()) }
}

/// Whether `key` names `field`, by logical or column name.
pub open spec fn names_data_key(field: FieldIr, key: Seq<char>) -> bool {
    field.logical_name@ == key || field.db_name@ == key
}

/// The index of the first data key from `k` on that names no field.
pub open spec fn first_unknown_data_key(model: ModelIr, data: Seq<(String, Json)>, k: int) -> Option<int>
    decreases data.len() - k,
{
    if k < 0 || k >= data.len() {
        None
    } else if !(exists|i: int| 0 <= i < model.fields@.len() && #[trigger] names_data_key(model.fields@[i], data[k].0@)) {
        Some(k)
    } else {
        first_unknown_data_key(model, data, k + 1)
    }
}

/// Refuse a `data` key that names no field of the model, by logical or
/// column name.
pub fn ensure_known_data_keys(model: &ModelIr, data_obj: &Vec<(String, Json)>) -> (r: Result<(), ProtocolError>)
    ensures
        match first_unknown_data_key(*model, data_obj@, 0) {
            None => r is Ok,
            Some(k) => r matches Err(ProtocolError::InvalidParams(m)) && m@ == "Model '"@
                + model.logical_name@ + "' has no field '"@ + data_obj@[k].0@ + "'"@,
        },
{
    let mut k: usize = 0;
    while k < data_obj.len()
        invariant
            k <= data_obj@.len(),
            first_unknown_data_key(*model, data_obj@, 0) == first_unknown_data_key(*model, data_obj@, k as int),
        decreases data_obj@.len() - k,
    {
        let key = data_obj[k].0.as_str();
        let mut i: usize = 0;
        let mut known = false;
        while i < model.fields.len() && !known
            invariant
                i <= model.fields@.len(),
                k < data_obj@.len(),
                key@ == data_obj@[k as int].0@,
                !known ==> forall|j: int| 0 <= j < i ==> !#[trigger] names_data_key(model.fields@[j], key@),
                known ==> 0 < i && names_data_key(model.fields@[i - 1], key@),
            decreases model.fields@.len() - i,
        {
            let names = str_eq(model.fields[i].logical_name.as_str(), key) || str_eq(
                model.fields[i].db_name.as_str(),
                key,
            );
            assert(names == names_data_key(model.fields@[i as int], key@));
            known = names;
            i = i + 1;
        }
        if known {
            assert(names_data_key(model.fields@[i - 1], data_obj@[k as int].0@));
            assert(first_unknown_data_key(*model, data_obj@, k as int) == first_unknown_data_key(
                *model,
                data_obj@,
                k + 1,
            ));
        } else {
            assert(!(exists|j: int| 0 <= j < model.fields@.len() && #[trigger] names_data_key(model.fields@[j], data_obj@[k as int].0@)));
            let mut m = String::from_str("Model '");
            m.push_str(model.logical_name.as_str());
            m.push_str("' has no field '");
            m.push_str(key);
            m.push_str("'");
            return Err(ProtocolError::InvalidParams(m));
        }
        k = k + 1;
    }
    Ok(())
}

/// The composite type a non-null input for `field` binds as, on a backend
/// with native composite types.
pub open spec fn native_composite(types: CompositeSupport, json: Json, field: FieldIr) -> Option<CompositeTypeIr> {
    match field.field_type {
        ResolvedFieldType::CompositeType { composite_name } => if types.native && !(json is Null) {
            match composite_named(types.composites@, composite_name@, 0) {
                Some(c) => Some(types.composites@[c]),
                None => None,
            }
        } else {
            None
        },
        _ => None,
    }
}

/// Whether `r` is what converting `json` for `field` gives: structured input
/// for a scalar field is refused first; a composite on a backend with native
/// record types is projected onto its declared fields; anything else converts
/// by the field's type.
pub open spec fn converted(types: CompositeSupport, json: Json, field: FieldIr, r: Result<Value, ProtocolError>) -> bool {
    match scalar_input_error(json, field.field_type, field.is_array, field.logical_name@) {
        Some(m) => r matches Err(ProtocolError::InvalidParams(t)) && t@ == m,
        None => match native_composite(types, json, field) {
            Some(c) => answers(composite_error(json, c), r) && match r {
                Ok(v) => composite_value(json, c, v),
                Err(_) => true,
            },
            None => answers(field_error(json, field.field_type), r) && match r {
                Ok(v) => field_value(json, field.field_type, v),
                Err(_) => true,
            },
        },
    }
}

/// Whether `r` is `converted` lifted to an optional value that is present.
pub open spec fn converted_some(types: CompositeSupport, json: Json, field: FieldIr, r: Result<Option<Value>, ProtocolError>) -> bool {
    match r {
        Ok(Some(v)) => converted(types, json, field, Ok(v)),
        Ok(None) => false,
        Err(e) => converted(types, json, field, Err(e)),
    }
}

fn composite_index(composites: &[CompositeTypeIr], name: &str) -> (r: Option<usize>)
    ensures
        match r {
            Some(i) => composite_named(composites@, name@, 0) == Some(i as int) && i < composites@.len(),
            None => composite_named(composites@, name@, 0) is None,
        },
{
    let mut i: usize = 0;
    while i < composites.len()
        invariant
            i <= composites@.len(),
            composite_named(composites@, name@, 0) == composite_named(composites@, name@, i as int),
        decreases composites@.len() - i,
    {
        if str_eq(composites[i].logical_name.as_str(), name) {
            return Some(i);
        }
        i = i + 1;
    }
    None
}

/// Convert one field's input into the value it binds as.
pub fn convert_field_input(types: &CompositeSupport, json_val: &Json, field: &FieldIr) -> (r: Result<Value, ProtocolError>)
    ensures
        converted(*types, *json_val, *field, r),
{
    match ensure_scalar_input(json_val, &field.field_type, field.is_array, field.logical_name.as_str()) {
        Ok(()) => {},
        Err(e) => {
            return Err(e);
        },
    }
    if let ResolvedFieldType::CompositeType { composite_name } = &field.field_type {
        if types.native && !matches!(json_val, Json::Null) {
            if let Some(c) = composite_index(types.composites, composite_name.as_str()) {
                return json_to_value_composite(json_val, &types.composites[c]);
            }
        }
    }
    json_to_value_field(json_val, &field.field_type)
}

/// The message an arithmetic operator is refused with where the row has no
/// current value, or where the operator cannot be resolved.
pub open spec fn unresolved_operator_message(mode: FieldInputMode, operator: Seq<char>, field: FieldIr) -> Seq<char> {
    match mode {
        FieldInputMode::Create => "'"@ + operator
            + "' derives the new value from the current one, and a create has none; write the value directly"@,
        FieldInputMode::Update => "'"@ + operator + "' on field '"@ + field.logical_name@
            + "' cannot be resolved here"@,
    }
}

/// The value `json` gives a field once any `set` wrapper is removed: an
/// explicit `null` on insert leaves a function default to the database.
pub open spec fn plain_input(types: CompositeSupport, json: Json, field: FieldIr, mode: FieldInputMode, r: Result<Option<Value>, ProtocolError>) -> bool {
    if mode == FieldInputMode::Create && json is Null && field.default_value matches Some(
        DefaultValue::Function(_),
    ) {
        r == Ok::<Option<Value>, ProtocolError>(None)
    } else {
        converted_some(types, json, field, r)
    }
}

/// Whether `r` is the value a write gives `field` from `data`: an
/// `updatedAt` field takes the input when one is given, else nothing on insert
/// (its column default stamps it) and the current time on update; any other
/// field takes its input, unwrapped from `set`, and nothing when it has none.
/// An arithmetic operator cannot be resolved here.
pub open spec fn field_input_result(
    types: CompositeSupport,
    data: Seq<(String, Json)>,
    field: FieldIr,
    mode: FieldInputMode,
    r: Result<Option<Value>, ProtocolError>,
) -> bool {
    let input = field_input(data, field);
    if field.is_updated_at {
        match input {
            Some(j) => if !(j is Null) {
                converted_some(types, j, field, r)
            } else {
                match mode {
                    FieldInputMode::Create => r == Ok::<Option<Value>, ProtocolError>(None),
                    FieldInputMode::Update => r matches Ok(Some(v)) && stamped_at(v, types.now),
                }
            },
            None => match mode {
                FieldInputMode::Create => r == Ok::<Option<Value>, ProtocolError>(None),
                FieldInputMode::Update => r matches Ok(Some(v)) && stamped_at(v, types.now),
            },
        }
    } else {
        match input {
            None => r == Ok::<Option<Value>, ProtocolError>(None),
            Some(j) => match operator_input(j, field) {
                Err(m) => r matches Err(ProtocolError::InvalidParams(t)) && t@ == m,
                Ok(Some((op, operand))) => if operator_arithmetic(op) is None {
                    plain_input(types, operand, field, mode, r)
                } else {
                    r matches Err(ProtocolError::InvalidParams(t)) && t@ == unresolved_operator_message(
                        mode,
                        op,
                        field,
                    )
                },
                Ok(None) => plain_input(types, j, field, mode, r),
            },
        }
    }
}

fn lift(r: Result<Value, ProtocolError>) -> (o: Result<Option<Value>, ProtocolError>)
    ensures
        match r {
            Ok(v) => o == Ok::<Option<Value>, ProtocolError>(Some(v)),
            Err(e) => o == Err::<Option<Value>, ProtocolError>(e),
        },
{
    match r {
        Ok(v) => Ok(Some(v)),
        Err(e) => Err(e),
    }
}

fn plain_field_input(types: &CompositeSupport, json: &Json, field: &FieldIr, mode: FieldInputMode) -> (r: Result<Option<Value>, ProtocolError>)
    ensures
        plain_input(*types, *json, *field, mode, r),
{
    if matches!(mode, FieldInputMode::Create) && matches!(json, Json::Null) && matches!(
        &field.default_value,
        Some(DefaultValue::Function(_))
    ) {
        return Ok(None);
    }
    lift(convert_field_input(types, json, field))
}

/// The value a write gives `field` from `data`, or `None` when the column is
/// left out of the statement.
pub fn field_input_value(types: &CompositeSupport, data_obj: &Vec<(String, Json)>, field: &FieldIr, mode: FieldInputMode) -> (r: Result<Option<Value>, ProtocolError>)
    ensures
        field_input_result(*types, data_obj@, *field, mode, r),
{
    if field.is_updated_at {
        return match row_field_json(data_obj, field) {
            Some(json_val) => {
                if !matches!(json_val, Json::Null) {
                    lift(convert_field_input(types, json_val, field))
                } else {
                    match mode {
                        FieldInputMode::Create => Ok(None),
                        FieldInputMode::Update => Ok(Some(updated_at_now_value(&types.now))),
                    }
                }
            },
            None => match mode {
                FieldInputMode::Create => Ok(None),
                FieldInputMode::Update => Ok(Some(updated_at_now_value(&types.now))),
            },
        };
    }
    let json_val = match row_field_json(data_obj, field) {
        Some(j) => j,
        None => {
            return Ok(None);
        },
    };
    match atomic_operator(json_val, field) {
        Err(e) => Err(e),
        Ok(Some((operator, operand))) => {
            if atomic_operator_sql(operator).is_none() {
                plain_field_input(types, operand, field, mode)
            } else {
                let mut m = String::from_str("'");
                m.push_str(operator);
                match mode {
                    FieldInputMode::Create => {
                        m.push_str(
                            "' derives the new value from the current one, and a create has none; write the value directly",
                        );
                    },
                    FieldInputMode::Update => {
                        m.push_str("' on field '");
                        m.push_str(field.logical_name.as_str());
                        m.push_str("' cannot be resolved here");
                    },
                }
                Err(ProtocolError::InvalidParams(m))
            }
        },
        Ok(None) => plain_field_input(types, json_val, field, mode),
    }
}

/// Whether the primary key names `field`, by logical or column name.
pub open spec fn in_primary_key(model: ModelIr, field: FieldIr) -> bool {
    exists|i: int| 0 <= i < model.primary_key@.len() && #[trigger] names_data_key(field, model.primary_key@[i]@)
}

/// Whether `r` is the value assignment an update gives `field`.
pub open spec fn value_assignment(
    types: CompositeSupport,
    data: Seq<(String, Json)>,
    field: FieldIr,
    r: Result<Option<Assignment>, ProtocolError>,
) -> bool {
    match r {
        Ok(Some(Assignment::Value(v))) => field_input_result(types, data, field, FieldInputMode::Update, Ok(Some(v))),
        Ok(Some(Assignment::Expr(_))) => false,
        Ok(None) => field_input_result(types, data, field, FieldInputMode::Update, Ok(None)),
        Err(e) => field_input_result(types, data, field, FieldInputMode::Update, Err(e)),
    }
}

/// Whether `r` is the `SET` entry an update gives `field` from `data`. An
/// arithmetic operator on a single number becomes `column <op> operand`, so
/// the database applies it to the value the row holds when the statement
/// runs; it is refused on other types, on a primary-key field (whose new value
/// a read-back could not find), and with an operand that is not a number (or,
/// for a decimal, a decimal string). Anything else assigns the field's input
/// value.
pub open spec fn assignment_result(
    types: CompositeSupport,
    model: ModelIr,
    data: Seq<(String, Json)>,
    field: FieldIr,
    r: Result<Option<Assignment>, ProtocolError>,
) -> bool {
    let op = match field_input(data, field) {
        Some(j) => operator_input(j, field),
        None => Ok(None),
    };
    match op {
        Err(m) => r matches Err(ProtocolError::InvalidParams(t)) && t@ == m,
        Ok(Some((o, operand))) => match operator_arithmetic(o) {
            None => value_assignment(types, data, field, r),
            Some(bop) => if !takes_arithmetic(field) {
                r matches Err(ProtocolError::InvalidParams(t)) && t@ == "'"@ + o + "' takes a number, so field '"@
                    + field.logical_name@ + "' does not support it"@
            } else if in_primary_key(model, field) {
                r matches Err(ProtocolError::InvalidParams(t)) && t@ == "'"@ + o
                    + "' cannot be applied to primary-key field '"@ + field.logical_name@ + "'"@
            } else if !(operand is Number) && !(field.field_type == ResolvedFieldType::Scalar(
                ScalarType::Decimal,
            ) && operand is String && field_error(operand, field.field_type) is None) {
                r matches Err(ProtocolError::InvalidParams(t)) && t@ == "'"@ + o + "' on field '"@
                    + field.logical_name@ + "' takes a number"@
            } else {
                match field_error(operand, field.field_type) {
                    Some(m) => r matches Err(ProtocolError::InvalidParams(t)) && t@ == m,
                    None => r matches Ok(Some(Assignment::Expr(Expr::Binary { left, op, right })))
                        && (*left matches Expr::Column(c) && c@ == field.db_name@) && op == bop && (*right matches Expr::Param(v)
                        && field_value(operand, field.field_type, v)),
                }
            },
        },
        Ok(None) => value_assignment(types, data, field, r),
    }
}

fn primary_key_names(model: &ModelIr, field: &FieldIr) -> (r: bool)
    ensures
        r == in_primary_key(*model, *field),
{
    let mut i: usize = 0;
    while i < model.primary_key.len()
        invariant
            i <= model.primary_key@.len(),
            forall|j: int| 0 <= j < i ==> !#[trigger] names_data_key(*field, model.primary_key@[j]@),
        decreases model.primary_key@.len() - i,
    {
        let name = model.primary_key[i].as_str();
        if str_eq(name, field.logical_name.as_str()) || str_eq(name, field.db_name.as_str()) {
            assert(names_data_key(*field, model.primary_key@[i as int]@));
            return true;
        }
        assert(!names_data_key(*field, model.primary_key@[i as int]@));
        i = i + 1;
    }
    false
}

fn value_entry(types: &CompositeSupport, data_obj: &Vec<(String, Json)>, field: &FieldIr) -> (r: Result<Option<Assignment>, ProtocolError>)
    ensures
        value_assignment(*types, data_obj@, *field, r),
{
    match field_input_value(types, data_obj, field, FieldInputMode::Update) {
        Ok(Some(v)) => Ok(Some(Assignment::Value(v))),
        Ok(None) => Ok(None),
        Err(e) => Err(e),
    }
}

fn operator_message(operator: &str, middle: &str, name: &str, end: &str) -> (r: ProtocolError)
    ensures
        r matches ProtocolError::InvalidParams(t) && t@ == "'"@ + operator@ + middle@ + name@ + end@,
{
    let mut m = String::from_str("'");
    m.push_str(operator);
    m.push_str(middle);
    m.push_str(name);
    m.push_str(end);
    ProtocolError::InvalidParams(m)
}

/// Resolve one field's update input into the right-hand side of its `SET`
/// entry, or `None` when the update leaves the field alone.
pub fn field_assignment(types: &CompositeSupport, model: &ModelIr, data_obj: &Vec<(String, Json)>, field: &FieldIr) -> (r: Result<Option<Assignment>, ProtocolError>)
    ensures
        assignment_result(*types, *model, data_obj@, *field, r),
{
    let operator = match row_field_json(data_obj, field) {
        Some(json) => match atomic_operator(json, field) {
            Ok(o) => o,
            Err(e) => {
                return Err(e);
            },
        },
        None => None,
    };
    let (operator, operand) = match operator {
        Some(pair) => pair,
        None => {
            return value_entry(types, data_obj, field);
        },
    };
    let op = match atomic_operator_sql(operator) {
        Some(op) => op,
        None => {
            return value_entry(types, data_obj, field);
        },
    };
    if !accepts_arithmetic(field) {
        return Err(
            operator_message(operator, "' takes a number, so field '", field.logical_name.as_str(), "' does not support it"),
        );
    }
    if primary_key_names(model, field) {
        return Err(
            operator_message(operator, "' cannot be applied to primary-key field '", field.logical_name.as_str(), "'"),
        );
    }
    let converted = json_to_value_field(operand, &field.field_type);
    let decimal_operand = matches!(&field.field_type, ResolvedFieldType::Scalar(ScalarType::Decimal))
        && matches!(operand, Json::String(_)) && converted.is_ok();
    if !matches!(operand, Json::Number(_)) && !decimal_operand {
        return Err(operator_message(operator, "' on field '", field.logical_name.as_str(), "' takes a number"));
    }
    match converted {
        Ok(v) => Ok(
            Some(
                Assignment::Expr(
                    Expr::Binary {
                        left: Box::new(Expr::Column(String::from_str(field.db_name.as_str()))),
                        op,
                        right: Box::new(Expr::Param(v)),
                    },
                ),
            ),
        ),
        Err(e) => Err(e),
    }
}

/// A field's input cannot both leave the column out and give it a value.
proof fn lemma_input_result_unique(
    types: CompositeSupport,
    data: Seq<(String, Json)>,
    field: FieldIr,
    mode: FieldInputMode,
    v: Value,
)
    requires
        field_input_result(types, data, field, mode, Ok(Some(v))),
    ensures
        !field_input_result(types, data, field, mode, Ok(None)),
{
}

/// Whether `cols` and `vals` are, in field order, the columns and values an
/// insert writes for `fields`: a field is skipped when it is a relation or
/// its input leaves the column to the database.
pub open spec fn insert_matches(
    types: CompositeSupport,
    model: ModelIr,
    data: Seq<(String, Json)>,
    fields: Seq<FieldIr>,
    cols: Seq<ColumnMarker>,
    vals: Seq<Value>,
) -> bool
    decreases fields.len(),
{
    if fields.len() == 0 {
        cols.len() == 0 && vals.len() == 0
    } else {
        let f = fields.last();
        if f.field_type is Relation || field_input_result(types, data, f, FieldInputMode::Create, Ok(None)) {
            insert_matches(types, model, data, fields.drop_last(), cols, vals)
        } else {
            cols.len() > 0 && vals.len() > 0 && cols.last().table@ == model.db_name@ && cols.last().name@
                == f.db_name@ && field_input_result(types, data, f, FieldInputMode::Create, Ok(Some(vals.last())))
                && insert_matches(types, model, data, fields.drop_last(), cols.drop_last(), vals.drop_last())
        }
    }
}

/// Whether `r` is the columns and values an insert of `data` writes, or a
/// refusal of one of its fields.
pub open spec fn insert_columns_result(types: CompositeSupport, model: ModelIr, data: Seq<(String, Json)>, r: Result<(Vec<ColumnMarker>, Vec<Value>), ProtocolError>) -> bool {
    match r {
        Ok((cols, vals)) => insert_matches(types, model, data, model.fields@, cols@, vals@),
        Err(e) => exists|i: int|
            0 <= i < model.fields@.len() && !(model.fields@[i].field_type is Relation) && #[trigger] field_input_result(
                types,
                data,
                model.fields@[i],
                FieldInputMode::Create,
                Err(e),
            ),
    }
}

/// The columns and values of one inserted row: each stored field the data
/// gives a value for, in field order. A field left out is one the database
/// fills itself. The first field whose input is refused refuses the row.
pub fn insert_columns(types: &CompositeSupport, model: &ModelIr, data_obj: &Vec<(String, Json)>) -> (r: Result<(Vec<ColumnMarker>, Vec<Value>), ProtocolError>)
    ensures
        insert_columns_result(*types, *model, data_obj@, r),
{
    let mut columns: Vec<ColumnMarker> = Vec::new();
    let mut values: Vec<Value> = Vec::new();
    let mut i: usize = 0;
    while i < model.fields.len()
        invariant
            i <= model.fields@.len(),
            insert_matches(*types, *model, data_obj@, model.fields@.take(i as int), columns@, values@),
        decreases model.fields@.len() - i,
    {
        let field = &model.fields[i];
        assert(model.fields@.take(i + 1).drop_last() =~= model.fields@.take(i as int));
        assert(model.fields@.take(i + 1).last() == model.fields@[i as int]);
        if !field.is_relation() {
            match field_input_value(types, data_obj, field, FieldInputMode::Create) {
                Ok(Some(v)) => {
                    let ghost (c0, v0) = (columns@, values@);
                    proof {
                        lemma_input_result_unique(*types, data_obj@, *field, FieldInputMode::Create, v);
                    }
                    columns.push(field_marker(model, field));
                    values.push(v);
                    assert(columns@.drop_last() == c0 && values@.drop_last() == v0);
                },
                Ok(None) => {},
                Err(e) => {
                    return Err(e);
                },
            }
        }
        i = i + 1;
    }
    assert(model.fields@.take(model.fields@.len() as int) =~= model.fields@);
    Ok((columns, values))
}

proof fn lemma_assignment_result_unique(
    types: CompositeSupport,
    model: ModelIr,
    data: Seq<(String, Json)>,
    field: FieldIr,
    a: Assignment,
)
    requires
        assignment_result(types, model, data, field, Ok(Some(a))),
    ensures
        !assignment_result(types, model, data, field, Ok(None)),
{
    if let Assignment::Value(v) = a {
        if field_input_result(types, data, field, FieldInputMode::Update, Ok(Some(v))) {
            lemma_input_result_unique(types, data, field, FieldInputMode::Update, v);
        }
    }
}

/// Whether `entries` are, in field order, the `SET` entries an update writes
/// for `fields`: a field is skipped when it is a relation or the update
/// leaves it alone.
pub open spec fn update_matches(
    types: CompositeSupport,
    model: ModelIr,
    data: Seq<(String, Json)>,
    fields: Seq<FieldIr>,
    entries: Seq<(ColumnMarker, Assignment)>,
) -> bool
    decreases fields.len(),
{
    if fields.len() == 0 {
        entries.len() == 0
    } else {
        let f = fields.last();
        if f.field_type is Relation || assignment_result(types, model, data, f, Ok(None)) {
            update_matches(types, model, data, fields.drop_last(), entries)
        } else {
            entries.len() > 0 && entries.last().0.table@ == model.db_name@ && entries.last().0.name@
                == f.db_name@ && assignment_result(types, model, data, f, Ok(Some(entries.last().1)))
                && update_matches(types, model, data, fields.drop_last(), entries.drop_last())
        }
    }
}

/// Whether `r` is the assignments an update of `data` makes, or a refusal
/// of one of its fields.
pub open spec fn update_assignments_result(types: CompositeSupport, model: ModelIr, data: Seq<(String, Json)>, r: Result<Vec<(ColumnMarker, Assignment)>, ProtocolError>) -> bool {
    match r {
        Ok(entries) => update_matches(types, model, data, model.fields@, entries@),
        Err(e) => exists|i: int|
            0 <= i < model.fields@.len() && !(model.fields@[i].field_type is Relation) && #[trigger] assignment_result(
                types,
                model,
                data,
                model.fields@[i],
                Err(e),
            ),
    }
}

/// The `SET` entries of one update, in field order, including the
/// `updatedAt` stamp the caller did not write. The first field whose input
/// is refused refuses the update.
pub fn update_assignments(types: &CompositeSupport, model: &ModelIr, data_obj: &Vec<(String, Json)>) -> (r: Result<Vec<(ColumnMarker, Assignment)>, ProtocolError>)
    ensures
        update_assignments_result(*types, *model, data_obj@, r),
{
    let mut entries: Vec<(ColumnMarker, Assignment)> = Vec::new();
    let mut i: usize = 0;
    while i < model.fields.len()
        invariant
            i <= model.fields@.len(),
            update_matches(*types, *model, data_obj@, model.fields@.take(i as int), entries@),
        decreases model.fields@.len() - i,
    {
        let field = &model.fields[i];
        assert(model.fields@.take(i + 1).drop_last() =~= model.fields@.take(i as int));
        assert(model.fields@.take(i + 1).last() == model.fields@[i as int]);
        if !field.is_relation() {
            match field_assignment(types, model, data_obj, field) {
                Ok(Some(a)) => {
                    let ghost e0 = entries@;
                    proof {
                        lemma_assignment_result_unique(*types, *model, data_obj@, *field, a);
                    }
                    entries.push((field_marker(model, field), a));
                    assert(entries@.drop_last() == e0);
                },
                Ok(None) => {},
                Err(e) => {
                    return Err(e);
                },
            }
        }
        i = i + 1;
    }
    assert(model.fields@.take(model.fields@.len() as int) =~= model.fields@);
    Ok(entries)
}

/// An atomic update operator applies its own arithmetic to the field's
/// current value: when an update's write of a field goes through, the
/// assignment is `column <op> operand` where `increment` adds, `decrement`
/// subtracts, `multiply` multiplies and `divide` divides.
pub proof fn lemma_atomic_operators_apply_their_arithmetic(
    types: CompositeSupport,
    model: ModelIr,
    data: Seq<(String, Json)>,
    field: FieldIr,
    r: Result<Option<Assignment>, ProtocolError>,
    operator: Seq<char>,
    operand: Json,
)
    requires
        assignment_result(types, model, data, field, r),
        r is Ok,
        field_input(data, field) matches Some(j) && operator_input(j, field) == Ok::<
            Option<(Seq<char>, Json)>,
            Seq<char>,
        >(Some((operator, operand))),
        operator == "increment"@ || operator == "decrement"@ || operator == "multiply"@ || operator == "divide"@,
    ensures
        r matches Ok(Some(Assignment::Expr(Expr::Binary { left, op, right }))) && (*left matches Expr::Column(c)
            && c@ == field.db_name@) && (*right is Param) && (operator == "increment"@ ==> op == BinaryOp::Add) && (
        operator == "decrement"@ ==> op == BinaryOp::Sub) && (operator == "multiply"@ ==> op == BinaryOp::Mul) && (
        operator == "divide"@ ==> op == BinaryOp::Div),
{
    reveal_strlit("increment");
    reveal_strlit("decrement");
    reveal_strlit("multiply");
    reveal_strlit("divide");
    assert("increment"@[0] != "decrement"@[0] && "increment"@[0] != "multiply"@[0] && "increment"@[0] != "divide"@[0]);
    assert("decrement"@[0] == "divide"@[0] && "decrement"@[1] != "divide"@[1] && "decrement"@[0] != "multiply"@[0]);
    assert("multiply"@[0] != "divide"@[0]);
}

} // verus!

