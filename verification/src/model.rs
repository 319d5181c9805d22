//! The parts of a schema model the request helpers read, the rows a statement
//! returns, and what those helpers compute from them.
use vstd::prelude::*;

use crate::ast::{Expr, Value};
use crate::conversion::ResolvedFieldType;
use crate::json::Json;
use crate::naming::{db_column, db_column_for, qualified_name, qualified_name_of};
use crate::protocol::{message, ProtocolError};
use crate::text::str_eq;

verus! {

/// How a field's default is supplied.
#[derive(Debug, PartialEq)]
pub enum DefaultValue {
    /// A constant the schema spells out.
    Literal,
    /// A function the database evaluates, such as `autoincrement()` or `now()`.
    Function(String),
}

/// A field of a model.
#[derive(Debug, PartialEq)]
pub struct FieldIr {
    pub logical_name: String,
    pub db_name: String,
    /// The type the field resolves to; a relation is not a stored column.
    pub field_type: ResolvedFieldType,
    /// Whether the field holds a list.
    pub is_array: bool,
    /// Whether the engine stamps the field with the time of every write.
    pub is_updated_at: bool,
    pub default_value: Option<DefaultValue>,
}

/// The join table of a many-to-many relation.
#[derive(Debug, PartialEq)]
pub struct ManyToManyJoinIr {
    pub table: String,
    /// The join-table column that holds the written model's key.
    pub self_column: String,
    /// The join-table column that holds the related model's key.
    pub target_column: String,
    /// The written model's field that `self_column` stores.
    pub self_reference: String,
    /// The related model's field that `target_column` stores.
    pub target_reference: String,
}

/// A relation field's link to another model.
#[derive(Debug, PartialEq)]
pub struct RelationIr {
    /// The relation's name, which tells apart two relations between the same
    /// pair of models.
    pub name: Option<String>,
    pub target_model: String,
    /// The foreign-key fields this side holds; empty on the side that does not.
    pub fields: Vec<String>,
    /// The target fields the foreign key points at.
    pub references: Vec<String>,
    /// The join table, on a many-to-many relation.
    pub join: Option<ManyToManyJoinIr>,
}

/// A field of a composite type.
#[derive(Debug, PartialEq)]
pub struct CompositeFieldIr {
    pub logical_name: String,
    pub db_name: String,
    pub field_type: ResolvedFieldType,
    /// Whether the field holds a list.
    pub is_array: bool,
}

/// A composite type of the schema: a PostgreSQL record type whose fields are
/// bound in their declared order.
#[derive(Debug, PartialEq)]
pub struct CompositeTypeIr {
    pub logical_name: String,
    /// The type's SQL name.
    pub db_name: String,
    pub fields: Vec<CompositeFieldIr>,
}

/// A model of the schema.
#[derive(Debug, PartialEq)]
pub struct ModelIr {
    pub logical_name: String,
    pub db_name: String,
    pub fields: Vec<FieldIr>,
    /// The names of the primary key's fields.
    pub primary_key: Vec<String>,
    /// The field names of each unique constraint.
    pub unique_constraints: Vec<Vec<String>>,
}

impl FieldIr {
    /// Whether the field is a relation rather than a stored column.
    pub fn is_relation(&self) -> (r: bool)
        ensures
            r == (self.field_type is Relation),
    {
        matches!(self.field_type, ResolvedFieldType::Relation(_))
    }
}

/// A returned row: column names with their values, in column order.
#[derive(Debug, PartialEq)]
pub struct Row {
    pub columns: Vec<(String, Value)>,
}

/// The value a row holds in the column `name` (its first column of that name).
pub open spec fn row_get(columns: Seq<(String, Value)>, name: Seq<char>) -> Option<Value>
    decreases columns.len(),
{
    if columns.len() == 0 {
        None
    } else if columns[0].0@ == name {
        Some(columns[0].1)
    } else {
        row_get(columns.drop_first(), name)
    }
}

impl Row {
    /// The value in the column `name`.
    pub fn get(&self, name: &str) -> (r: Option<&Value>)
        ensures
            match r {
                Some(v) => row_get(self.columns@, name@) == Some(*v),
                None => row_get(self.columns@, name@) is None,
            },
    {
        let n = self.columns.len();
        let mut i: usize = 0;
        assert(self.columns@.subrange(0, n as int) =~= self.columns@);
        while i < n
            invariant
                i <= n,
                n == self.columns@.len(),
                row_get(self.columns@, name@) == row_get(self.columns@.subrange(i as int, n as int), name@),
            decreases n - i,
        {
            let ghost rest = self.columns@.subrange(i as int, n as int);
            assert(rest.drop_first() =~= self.columns@.subrange(i + 1, n as int));
            if str_eq(self.columns[i].0.as_str(), name) {
                return Some(&self.columns[i].1);
            }
            i = i + 1;
        }
        None
    }
}

/// What a statement that changes rows answered with.
#[derive(Debug, PartialEq)]
pub enum MutationResultData {
    /// The number of affected rows.
    Count(usize),
    /// The affected rows themselves.
    Rows(Vec<Row>),
}

impl MutationResultData {
    /// The first returned row, or `None` when the statement answered with a
    /// count alone.
    pub fn first_row(&self) -> (r: Option<&Row>)
        ensures
            match *self {
                MutationResultData::Rows(rows) => if rows@.len() > 0 {
                    r == Some(&rows@[0])
                } else {
                    r is None
                },
                MutationResultData::Count(_) => r is None,
            },
    {
        match self {
            MutationResultData::Rows(rows) => {
                if rows.len() > 0 {
                    Some(&rows[0])
                } else {
                    None
                }
            },
            MutationResultData::Count(_) => None,
        }
    }

    /// The returned rows, for a caller that asked for them.
    pub fn into_rows(self, context: &str) -> (r: Result<Vec<Row>, ProtocolError>)
        ensures
            match self {
                MutationResultData::Rows(rows) => r == Ok::<Vec<Row>, ProtocolError>(rows),
                MutationResultData::Count(_) => r matches Err(ProtocolError::Internal(m)) && m@
                    == context@ + " path expected returned rows"@,
            },
    {
        match self {
            MutationResultData::Rows(rows) => Ok(rows),
            MutationResultData::Count(_) => Err(
                ProtocolError::Internal(message(context, " path expected returned rows")),
            ),
        }
    }

    /// How many rows the statement affected, whichever shape it answered in.
    pub fn into_count(self) -> (r: usize)
        ensures
            match self {
                MutationResultData::Count(n) => r == n,
                MutationResultData::Rows(rows) => r == rows@.len(),
            },
    {
        match self {
            MutationResultData::Count(count) => count,
            MutationResultData::Rows(rows) => rows.len(),
        }
    }
}

/// How the columns of a child row map back to the logical fields of the JSON
/// object attached to its parent: `(alias, logical name)` pairs.
#[derive(Debug, PartialEq)]
pub struct IncludeProjection {
    pub fields: Vec<(String, String)>,
}

impl IncludeProjection {
    /// Build a projection from explicit `(alias, logical name)` pairs.
    pub fn new(fields: Vec<(String, String)>) -> (r: Self)
        ensures
            r.fields@ == fields@,
    {
        IncludeProjection { fields }
    }

    /// Build the projection for a model's scalar fields: each is read from its
    /// `table__column` alias.
    pub fn for_model(model: &ModelIr) -> (r: Self)
        ensures
            r.fields@.len() == scalar_fields(model.fields@).len(),
            forall|k: int|
                0 <= k < r.fields@.len() ==> #[trigger] r.fields@[k].0@ == qualified_name(
                    model.db_name@,
                    scalar_fields(model.fields@)[k].db_name@,
                ) && r.fields@[k].1@ == scalar_fields(model.fields@)[k].logical_name@,
    {
        let mut fields: Vec<(String, String)> = Vec::new();
        let mut i: usize = 0;
        while i < model.fields.len()
            invariant
                i <= model.fields@.len(),
                fields@.len() == scalar_fields(model.fields@.subrange(0, i as int)).len(),
                forall|k: int|
                    0 <= k < fields@.len() ==> #[trigger] fields@[k].0@ == qualified_name(
                        model.db_name@,
                        scalar_fields(model.fields@.subrange(0, i as int))[k].db_name@,
                    ) && fields@[k].1@ == scalar_fields(
                        model.fields@.subrange(0, i as int),
                    )[k].logical_name@,
            decreases model.fields@.len() - i,
        {
            let ghost pre = model.fields@.subrange(0, i as int);
            proof {
                assert(model.fields@.subrange(0, i + 1).drop_last() =~= pre);
            }
            let field = &model.fields[i];
            if !field.is_relation() {
                fields.push(
                    (
                        qualified_name_of(model.db_name.as_str(), field.db_name.as_str()),
                        String::from_str(field.logical_name.as_str()),
                    ),
                );
            }
            i = i + 1;
        }
        proof {
            let all = model.fields@.subrange(0, model.fields@.len() as int);
            assert(all =~= model.fields@);
            assert(scalar_fields(all) == scalar_fields(model.fields@));
            assert forall|k: int| 0 <= k < fields@.len() implies #[trigger] fields@[k].0@ == qualified_name(
                model.db_name@,
                scalar_fields(model.fields@)[k].db_name@,
            ) && fields@[k].1@ == scalar_fields(model.fields@)[k].logical_name@ by {
                assert(fields@[k].0@ == qualified_name(model.db_name@, scalar_fields(all)[k].db_name@));
            }
        }
        IncludeProjection { fields }
    }
}

/// The fields of `fields` that are stored columns, in order.
pub open spec fn scalar_fields(fields: Seq<FieldIr>) -> Seq<FieldIr>
    decreases fields.len(),
{
    if fields.len() == 0 {
        Seq::empty()
    } else if fields.last().field_type is Relation {
        scalar_fields(fields.drop_last())
    } else {
        scalar_fields(fields.drop_last()).push(fields.last())
    }
}

/// The column reference `table__column` of a field of `model`.
pub fn qualified_column(model: &ModelIr, field: &FieldIr) -> (r: Expr)
    ensures
        r matches Expr::Column(c) && c@ == qualified_name(model.db_name@, field.db_name@),
{
    Expr::Column(qualified_name_of(model.db_name.as_str(), field.db_name.as_str()))
}

/// The column an aggregate over the logical `field` of `model` reads.
pub fn aggregate_column(model: &ModelIr, logical_to_db: &[(String, String)], field: &str) -> (r: Expr)
    ensures
        r matches Expr::Column(c) && c@ == qualified_name(
            model.db_name@,
            db_column(logical_to_db@, field@),
        ),
{
    let db_col = db_column_for(logical_to_db, field);
    Expr::Column(qualified_name_of(model.db_name.as_str(), db_col.as_str()))
}

/// Whether the database fills the field on insert with `autoincrement()`.
pub open spec fn autoincrements(field: FieldIr) -> bool {
    field.default_value matches Some(DefaultValue::Function(name)) && name@ == "autoincrement"@
}

/// Whether the database supplies this field's value on insert in a way the
/// engine can recover afterwards.
pub fn is_autoincrement(field: &FieldIr) -> (r: bool)
    ensures
        r == autoincrements(*field),
{
    match &field.default_value {
        Some(DefaultValue::Function(name)) => str_eq(name.as_str(), "autoincrement"),
        _ => false,
    }
}

/// Whether a `null` input leaves the field to its database-side default.
pub open spec fn omits_server_default(json_val: Json, field: FieldIr) -> bool {
    json_val is Null && (field.is_updated_at || field.default_value matches Some(DefaultValue::Function(_)))
}

/// Whether a `null` input for `field` is left out so the database default applies.
pub fn should_omit_server_default(json_val: &Json, field: &FieldIr) -> (r: bool)
    ensures
        r == omits_server_default(*json_val, *field),
{
    matches!(json_val, Json::Null) && (field.is_updated_at || matches!(
        &field.default_value,
        Some(DefaultValue::Function(_))
    ))
}

/// The value an object holds under `key` (its first entry with that key).
pub open spec fn json_get(entries: Seq<(String, Json)>, key: Seq<char>) -> Option<Json>
    decreases entries.len(),
{
    if entries.len() == 0 {
        None
    } else if entries[0].0@ == key {
        Some(entries[0].1)
    } else {
        json_get(entries.drop_first(), key)
    }
}

/// The value an object holds under `key`.
pub fn json_get_ref<'a>(entries: &'a Vec<(String, Json)>, key: &str) -> (r: Option<&'a Json>)
    ensures
        match r {
            Some(v) => json_get(entries@, key@) == Some(*v),
            None => json_get(entries@, key@) is None,
        },
{
    let n = entries.len();
    let mut i: usize = 0;
    assert(entries@.subrange(0, n as int) =~= entries@);
    while i < n
        invariant
            i <= n,
            n == entries@.len(),
            json_get(entries@, key@) == json_get(entries@.subrange(i as int, n as int), key@),
        decreases n - i,
    {
        let ghost rest = entries@.subrange(i as int, n as int);
        assert(rest.drop_first() =~= entries@.subrange(i + 1, n as int));
        if str_eq(entries[i].0.as_str(), key) {
            return Some(&entries[i].1);
        }
        i = i + 1;
    }
    None
}

/// The input a write carries for `field`: under its logical name, else its
/// column name.
pub open spec fn field_input(data: Seq<(String, Json)>, field: FieldIr) -> Option<Json> {
    match json_get(data, field.logical_name@) {
        Some(v) => Some(v),
        None => json_get(data, field.db_name@),
    }
}

/// The input `data_obj` carries for `field`.
pub fn row_field_json<'a>(data_obj: &'a Vec<(String, Json)>, field: &FieldIr) -> (r: Option<&'a Json>)
    ensures
        match r {
            Some(v) => field_input(data_obj@, *field) == Some(*v),
            None => field_input(data_obj@, *field) is None,
        },
{
    match json_get_ref(data_obj, field.logical_name.as_str()) {
        Some(v) => Some(v),
        None => json_get_ref(data_obj, field.db_name.as_str()),
    }
}

/// Whether a bulk create writes `field`: stored columns the data supplies,
/// other than as a `null` left to a database default.
pub open spec fn written_on_create(data: Seq<(String, Json)>, field: FieldIr) -> bool {
    !(field.field_type is Relation) && (field_input(data, field) matches Some(v)
        && !omits_server_default(v, field))
}

/// The fields of `fields` a bulk create writes, in order.
pub open spec fn create_fields(fields: Seq<FieldIr>, data: Seq<(String, Json)>) -> Seq<FieldIr>
    decreases fields.len(),
{
    if fields.len() == 0 {
        Seq::empty()
    } else if written_on_create(data, fields.last()) {
        create_fields(fields.drop_last(), data).push(fields.last())
    } else {
        create_fields(fields.drop_last(), data)
    }
}

/// The fields of `model` a bulk create writes for `data_obj`.
pub fn create_many_effective_fields<'a>(model: &'a ModelIr, data_obj: &Vec<(String, Json)>) -> (r: Vec<&'a FieldIr>)
    ensures
        r@.len() == create_fields(model.fields@, data_obj@).len(),
        forall|k: int| 0 <= k < r@.len() ==> *#[trigger] r@[k] == create_fields(model.fields@, data_obj@)[k],
{
    let mut r: Vec<&'a FieldIr> = Vec::new();
    let mut i: usize = 0;
    while i < model.fields.len()
        invariant
            i <= model.fields@.len(),
            r@.len() == create_fields(model.fields@.subrange(0, i as int), data_obj@).len(),
            forall|k: int|
                0 <= k < r@.len() ==> *#[trigger] r@[k] == create_fields(
                    model.fields@.subrange(0, i as int),
                    data_obj@,
                )[k],
        decreases model.fields@.len() - i,
    {
        proof {
            assert(model.fields@.subrange(0, i + 1).drop_last() =~= model.fields@.subrange(0, i as int));
        }
        let field = &model.fields[i];
        let keep = if field.is_relation() {
            false
        } else {
            match row_field_json(data_obj, field) {
                Some(v) => !should_omit_server_default(v, field),
                None => false,
            }
        };
        if keep {
            r.push(field);
        }
        i = i + 1;
    }
    proof {
        assert(model.fields@.subrange(0, model.fields@.len() as int) =~= model.fields@);
    }
    r
}

/// The refusal for a written row whose key the backend cannot report.
pub fn unresolvable_key(model: &ModelIr, field: &FieldIr) -> (r: ProtocolError)
    ensures
        r matches ProtocolError::UnsupportedOperation(m) && m@ == "Returning the written '"@
            + model.logical_name@ + "' row needs its '"@ + field.logical_name@
            + "' value, and this backend cannot report a generated one; supply it in the data or set returnData to false"@,
{
    let mut m = String::from_str("Returning the written '");
    m.push_str(model.logical_name.as_str());
    m.push_str("' row needs its '");
    m.push_str(field.logical_name.as_str());
    m.push_str(
        "' value, and this backend cannot report a generated one; supply it in the data or set returnData to false",
    );
    ProtocolError::UnsupportedOperation(m)
}

/// The index of the first field of `fields` from `k` on with logical name `name`.
pub open spec fn field_index(fields: Seq<FieldIr>, name: Seq<char>, k: int) -> Option<int>
    decreases fields.len() - k,
{
    if k < 0 || k >= fields.len() {
        None
    } else if fields[k].logical_name@ == name {
        Some(k)
    } else {
        field_index(fields, name, k + 1)
    }
}

/// The field of `model` a primary key names, by its logical name.
pub fn primary_key_field<'a>(model: &'a ModelIr, name: &str) -> (r: Result<&'a FieldIr, ProtocolError>)
    ensures
        match field_index(model.fields@, name@, 0) {
            Some(k) => r == Ok::<&FieldIr, ProtocolError>(&model.fields@[k]),
            None => r matches Err(ProtocolError::QueryPlanning(m)) && m@ == "Model '"@
                + model.logical_name@ + "' names unknown field '"@ + name@
                + "' in its primary key"@,
        },
{
    let n = model.fields.len();
    let mut i: usize = 0;
    while i < n
        invariant
            i <= n,
            n == model.fields@.len(),
            field_index(model.fields@, name@, 0) == field_index(model.fields@, name@, i as int),
        decreases n - i,
    {
        if str_eq(model.fields[i].logical_name.as_str(), name) {
            return Ok(&model.fields[i]);
        }
        i = i + 1;
    }
    let mut m = String::from_str("Model '");
    m.push_str(model.logical_name.as_str());
    m.push_str("' names unknown field '");
    m.push_str(name);
    m.push_str("' in its primary key");
    Err(ProtocolError::QueryPlanning(m))
}

} // verus!
