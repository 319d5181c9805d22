//! The statements the bulk-create and upsert requests send, built from their
//! arguments: the checks they refuse a request with, the columns and rows an
//! insert writes, and the conflict clause of an upsert.
use vstd::prelude::*;

use crate::ast::{Assignment, ColumnMarker, Insert, OnConflict, Value};
use crate::json::Json;
use crate::model::{FieldIr, ModelIr};
use crate::protocol::ProtocolError;
use crate::text::str_eq;
use crate::unique::{conflict_target_result, unique_conflict_target};
use crate::write_input::{
    ensure_known_data_keys, field_input_result, field_input_value, field_marker, first_unknown_data_key,
    insert_columns, insert_columns_result, update_assignments, update_assignments_result, CompositeSupport,
    FieldInputMode,
};
use crate::clauses::joined;
use crate::ident::{decimal, push_u64};
use crate::model::{create_fields, create_many_effective_fields};
use crate::unique::push_joined;

verus! {

/// Whether some column of `cols` is the column of `field`.
pub open spec fn sets_column(cols: Seq<ColumnMarker>, field: FieldIr) -> bool {
    exists|i: int| 0 <= i < cols.len() && #[trigger] cols[i].name@ == field.db_name@
}

/// The first field of `targets` from `k` on whose column `cols` leaves out.
pub open spec fn first_unset_target<'a>(targets: Seq<&'a FieldIr>, cols: Seq<ColumnMarker>, k: int) -> Option<int>
    decreases targets.len() - k,
{
    if k < 0 || k >= targets.len() {
        None
    } else if !sets_column(cols, *targets[k]) {
        Some(k)
    } else {
        first_unset_target(targets, cols, k + 1)
    }
}

/// Whether `ins` inserts the one row `vals` into `cols` of the table of
/// `model`, answers with `returning`, and on a conflict over the columns of
/// `targets` makes the assignments `assigns`.
pub open spec fn upsert_insert<'a>(
    ins: Insert,
    model: ModelIr,
    targets: Seq<&'a FieldIr>,
    cols: Seq<ColumnMarker>,
    vals: Seq<Value>,
    returning: Seq<ColumnMarker>,
    assigns: Seq<(ColumnMarker, Assignment)>,
) -> bool {
    &&& ins.table@ == model.db_name@
    &&& ins.columns@ == cols
    &&& ins.values@.len() == 1
    &&& ins.values@[0]@ == vals
    &&& ins.returning@ == returning
    &&& ins.on_conflict matches Some(oc)
    &&& oc.update@ == assigns
    &&& oc.target@.len() == targets.len()
    &&& forall|i: int|
        0 <= i < targets.len() ==> (#[trigger] oc.target@[i]).table@ == model.db_name@ && oc.target@[i].name@
            == targets[i].db_name@
}

/// Whether `r` is the upsert `INSERT` for `create`, `update` and the unique
/// filter `filter`, given what resolving the conflict target (`target`), the
/// insert columns (`columns`) and the update assignments (`assigns`) gives:
/// both payloads must be objects; the target, the columns and the
/// assignments refuse in that order; every target column must be written by
/// the insert; an empty `update` assigns nothing.
pub open spec fn upsert_result<'a>(
    types: CompositeSupport,
    model: ModelIr,
    filter: Json,
    create: Json,
    update: Json,
    returning: Seq<ColumnMarker>,
    target: Result<Vec<&'a FieldIr>, ProtocolError>,
    columns: Result<(Vec<ColumnMarker>, Vec<Value>), ProtocolError>,
    assigns: Result<Vec<(ColumnMarker, Assignment)>, ProtocolError>,
    r: Result<Insert, ProtocolError>,
) -> bool {
    match create {
        Json::Object(c) => match update {
            Json::Object(u) => conflict_target_result(model, filter, target) && match target {
                Err(e) => r == Err::<Insert, ProtocolError>(e),
                Ok(fields) => insert_columns_result(types, model, c@, columns) && match columns {
                    Err(e) => r == Err::<Insert, ProtocolError>(e),
                    Ok((cols, vals)) => match first_unset_target(fields@, cols@, 0) {
                        Some(k) => r matches Err(ProtocolError::InvalidParams(m)) && m@ == "upsert create data must set '"@
                            + fields@[k].logical_name@ + "' because it is part of the conflict target"@,
                        None => (if u@.len() == 0 {
                            assigns matches Ok(a) && a@.len() == 0
                        } else {
                            update_assignments_result(types, model, u@, assigns)
                        }) && match assigns {
                            Err(e) => r == Err::<Insert, ProtocolError>(e),
                            Ok(a) => r matches Ok(ins) && upsert_insert(ins, model, fields@, cols@, vals@, returning, a@),
                        },
                    },
                },
            },
            _ => r matches Err(ProtocolError::InvalidParams(m)) && m@ == "update must be an object"@,
        },
        _ => r matches Err(ProtocolError::InvalidParams(m)) && m@ == "create must be an object"@,
    }
}

fn sets_column_exec(cols: &Vec<ColumnMarker>, field: &FieldIr) -> (r: bool)
    ensures
        r == sets_column(cols@, *field),
{
    let mut i: usize = 0;
    while i < cols.len()
        invariant
            i <= cols@.len(),
            forall|j: int| 0 <= j < i ==> cols@[j].name@ != field.db_name@,
        decreases cols@.len() - i,
    {
        if str_eq(cols[i].name.as_str(), field.db_name.as_str()) {
            return true;
        }
        i = i + 1;
    }
    false
}

/// The `INSERT ... ON CONFLICT` an upsert sends: `create` written as a new
/// row, and on a conflict over the unique key `filter` names, `update`
/// applied to the row already there (nothing, when `update` is empty);
/// `returning` lists the columns the statement answers with.
pub fn upsert_statement(
    types: &CompositeSupport,
    model: &ModelIr,
    filter: &Json,
    create: &Json,
    update: &Json,
    returning: Vec<ColumnMarker>,
) -> (r: Result<Insert, ProtocolError>)
    ensures
        exists|
            target: Result<Vec<&FieldIr>, ProtocolError>,
            columns: Result<(Vec<ColumnMarker>, Vec<Value>), ProtocolError>,
            assigns: Result<Vec<(ColumnMarker, Assignment)>, ProtocolError>,
        |
            upsert_result(*types, *model, *filter, *create, *update, returning@, target, columns, assigns, r),
{
    let ghost ret = returning@;
    let create_obj = match create {
        Json::Object(c) => c,
        _ => {
            let r = Err(ProtocolError::InvalidParams(String::from_str("create must be an object")));
            assert(upsert_result(*types, *model, *filter, *create, *update, ret, arbitrary(), arbitrary(), arbitrary(), r));
            return r;
        },
    };
    let update_obj = match update {
        Json::Object(u) => u,
        _ => {
            let r = Err(ProtocolError::InvalidParams(String::from_str("update must be an object")));
            assert(upsert_result(*types, *model, *filter, *create, *update, ret, arbitrary(), arbitrary(), arbitrary(), r));
            return r;
        },
    };
    let target = unique_conflict_target(model, filter);
    let ghost t = target;
    let fields = match target {
        Ok(f) => f,
        Err(e) => {
            let r = Err(e);
            assert(upsert_result(*types, *model, *filter, *create, *update, ret, t, arbitrary(), arbitrary(), r));
            return r;
        },
    };
    let columns = insert_columns(types, model, create_obj);
    let ghost cs = columns;
    let (cols, vals) = match columns {
        Ok(cv) => cv,
        Err(e) => {
            let r = Err(e);
            assert(upsert_result(*types, *model, *filter, *create, *update, ret, t, cs, arbitrary(), r));
            return r;
        },
    };
    let mut k: usize = 0;
    while k < fields.len()
        invariant
            k <= fields@.len(),
            first_unset_target(fields@, cols@, 0) == first_unset_target(fields@, cols@, k as int),
            *create == Json::Object(*create_obj),
            *update == Json::Object(*update_obj),
            conflict_target_result(*model, *filter, t),
            t == Ok::<Vec<&FieldIr>, ProtocolError>(fields),
            insert_columns_result(*types, *model, create_obj@, cs),
            cs == Ok::<(Vec<ColumnMarker>, Vec<Value>), ProtocolError>((cols, vals)),
            ret == returning@,
        decreases fields@.len() - k,
    {
        if !sets_column_exec(&cols, fields[k]) {
            let mut m = String::from_str("upsert create data must set '");
            m.push_str(fields[k].logical_name.as_str());
            m.push_str("' because it is part of the conflict target");
            let r = Err(ProtocolError::InvalidParams(m));
            assert(upsert_result(*types, *model, *filter, *create, *update, ret, t, cs, arbitrary(), r));
            return r;
        }
        k = k + 1;
    }
    let assigns = if update_obj.len() == 0 {
        Ok(Vec::new())
    } else {
        update_assignments(types, model, update_obj)
    };
    let ghost asg = assigns;
    let assignments = match assigns {
        Ok(a) => a,
        Err(e) => {
            let r = Err(e);
            assert(upsert_result(*types, *model, *filter, *create, *update, ret, t, cs, asg, r));
            return r;
        },
    };
    let mut target_markers: Vec<ColumnMarker> = Vec::new();
    let mut i: usize = 0;
    while i < fields.len()
        invariant
            i <= fields@.len(),
            target_markers@.len() == i,
            forall|j: int|
                0 <= j < i ==> (#[trigger] target_markers@[j]).table@ == model.db_name@ && target_markers@[j].name@
                    == fields@[j].db_name@,
        decreases fields@.len() - i,
    {
        target_markers.push(field_marker(model, fields[i]));
        i = i + 1;
    }
    let ghost a = assignments@;
    let ghost cv = cols@;
    let ghost vv = vals@;
    let mut rows: Vec<Vec<Value>> = Vec::new();
    rows.push(vals);
    let ins = Insert {
        table: String::from_str(model.db_name.as_str()),
        columns: cols,
        values: rows,
        on_conflict: Some(OnConflict { target: target_markers, update: assignments }),
        returning,
    };
    let r = Ok(ins);
    assert(upsert_result(*types, *model, *filter, *create, *update, ret, t, cs, asg, r));
    r
}

/// The logical names of `fields`.
pub open spec fn names_of(fields: Seq<FieldIr>) -> Seq<Seq<char>> {
    fields.map_values(|f: FieldIr| f.logical_name@)
}

/// The names of `a` that `b` lacks, in order.
pub open spec fn absent_from(a: Seq<Seq<char>>, b: Seq<Seq<char>>) -> Seq<Seq<char>>
    decreases a.len(),
{
    if a.len() == 0 {
        Seq::empty()
    } else if b.contains(a.last()) {
        absent_from(a.drop_last(), b)
    } else {
        absent_from(a.drop_last(), b).push(a.last())
    }
}

/// The refusal of a row `idx` whose written fields are `row` where the first
/// row writes `expected`.
pub open spec fn key_set_message(idx: nat, expected: Seq<Seq<char>>, row: Seq<Seq<char>>) -> Seq<char> {
    "createMany rows must use the same key set after omitting server defaults; row "@ + decimal(idx)
        + " differs from row 0 (missing: ["@ + joined(absent_from(expected, row), ", "@) + "], extra: ["@ + joined(
        absent_from(row, expected),
        ", "@,
    ) + "])"@
}

/// Whether the first `k` values of a row `data` were resolved for `fields`:
/// each from the field's input `outs[j]`, null where the input leaves it to
/// the database.
pub open spec fn row_values_ok(
    types: CompositeSupport,
    data: Seq<(String, Json)>,
    fields: Seq<FieldIr>,
    outs: Seq<Result<Option<Value>, ProtocolError>>,
    vals: Seq<Value>,
    k: int,
) -> bool {
    &&& outs.len() >= k
    &&& vals.len() == k
    &&& k <= fields.len()
    &&& forall|j: int|
        0 <= j < k ==> #[trigger] field_input_result(types, data, fields[j], FieldInputMode::Create, outs[j])
            && match outs[j] {
            Ok(Some(v)) => vals[j] == v,
            Ok(None) => vals[j] == Value::Null,
            Err(_) => false,
        }
}

/// Whether `item` is a row the bulk create accepts, writing the same fields
/// as the first row, with the values `vals`.
pub open spec fn row_ok(
    types: CompositeSupport,
    model: ModelIr,
    fields: Seq<FieldIr>,
    item: Json,
    outs: Seq<Result<Option<Value>, ProtocolError>>,
    vals: Seq<Value>,
) -> bool {
    item matches Json::Object(o) && first_unknown_data_key(model, o@, 0) is None && names_of(create_fields(model.fields@, o@))
        == names_of(fields) && row_values_ok(types, o@, fields, outs, vals, fields.len() as int)
}

/// Whether `r` is how the row `idx`, `item`, is refused.
pub open spec fn row_refusal(
    types: CompositeSupport,
    model: ModelIr,
    fields: Seq<FieldIr>,
    idx: nat,
    item: Json,
    outs: Seq<Result<Option<Value>, ProtocolError>>,
    vals: Seq<Value>,
    r: Result<Insert, ProtocolError>,
) -> bool {
    match item {
        Json::Object(o) => match first_unknown_data_key(model, o@, 0) {
            Some(k) => r matches Err(ProtocolError::InvalidParams(m)) && m@ == "Model '"@ + model.logical_name@
                + "' has no field '"@ + o@[k].0@ + "'"@,
            None => if names_of(create_fields(model.fields@, o@)) != names_of(fields) {
                r matches Err(ProtocolError::InvalidParams(m)) && m@ == key_set_message(
                    idx,
                    names_of(fields),
                    names_of(create_fields(model.fields@, o@)),
                )
            } else {
                let k = vals.len() as int;
                &&& k < fields.len()
                &&& outs.len() > k
                &&& row_values_ok(types, o@, fields, outs, vals, k)
                &&& field_input_result(types, o@, fields[k], FieldInputMode::Create, outs[k])
                &&& outs[k] matches Err(e)
                &&& r == Err::<Insert, ProtocolError>(e)
            },
        },
        _ => r matches Err(ProtocolError::InvalidParams(m)) && m@ == "data items must be objects"@,
    }
}

/// Whether `ins` inserts `rows` into the columns of `fields` in the table of
/// `model`, answering with `returning`.
pub open spec fn bulk_insert(ins: Insert, model: ModelIr, fields: Seq<FieldIr>, rows: Seq<Seq<Value>>, returning: Seq<ColumnMarker>) -> bool {
    &&& ins.table@ == model.db_name@
    &&& ins.columns@.len() == fields.len()
    &&& forall|j: int|
        0 <= j < fields.len() ==> (#[trigger] ins.columns@[j]).table@ == model.db_name@ && ins.columns@[j].name@
            == fields[j].db_name@
    &&& ins.values@.len() == rows.len()
    &&& forall|i: int| 0 <= i < rows.len() ==> (#[trigger] ins.values@[i])@ == rows[i]
    &&& ins.on_conflict is None
    &&& ins.returning@ == returning
}

/// Whether `r` is the bulk `INSERT` of `data`, given the inputs `outcomes`
/// of the fields of the rows reached and their values `rows` (with
/// `partial` the values of a refused row): the first row decides which
/// fields are written, every row must write the same ones, and a refused row
/// refuses the whole request.
pub open spec fn create_many_result(
    types: CompositeSupport,
    model: ModelIr,
    data: Seq<Json>,
    returning: Seq<ColumnMarker>,
    outcomes: Seq<Seq<Result<Option<Value>, ProtocolError>>>,
    rows: Seq<Seq<Value>>,
    partial: Seq<Value>,
    r: Result<Insert, ProtocolError>,
) -> bool {
    if data.len() == 0 {
        r matches Err(ProtocolError::InvalidParams(m)) && m@ == "data array cannot be empty"@
    } else {
        match data[0] {
            Json::Object(first) => {
                let fields = create_fields(model.fields@, first@);
                let n = rows.len() as int;
                &&& n <= data.len()
                &&& outcomes.len() >= n
                &&& forall|i: int| 0 <= i < n ==> #[trigger] row_ok(types, model, fields, data[i], outcomes[i], rows[i])
                &&& if n == data.len() {
                    r matches Ok(ins) && bulk_insert(ins, model, fields, rows, returning)
                } else {
                    outcomes.len() > n && row_refusal(types, model, fields, n as nat, data[n], outcomes[n], partial, r)
                }
            },
            _ => r matches Err(ProtocolError::InvalidParams(m)) && m@ == "data items must be objects"@,
        }
    }
}

fn names_of_fields<'a>(fields: &Vec<&'a FieldIr>) -> (r: Vec<&'a str>)
    ensures
        r@.len() == fields@.len(),
        forall|j: int| 0 <= j < r@.len() ==> (#[trigger] r@[j])@ == fields@[j].logical_name@,
{
    let mut r: Vec<&'a str> = Vec::new();
    let mut i: usize = 0;
    while i < fields.len()
        invariant
            i <= fields@.len(),
            r@.len() == i,
            forall|j: int| 0 <= j < i ==> (#[trigger] r@[j])@ == fields@[j].logical_name@,
        decreases fields@.len() - i,
    {
        r.push(fields[i].logical_name.as_str());
        i = i + 1;
    }
    r
}

fn same_names(a: &Vec<&str>, b: &Vec<&str>) -> (r: bool)
    ensures
        r == (a@.map_values(|s: &str| s@) == b@.map_values(|s: &str| s@)),
{
    if a.len() != b.len() {
        assert(a@.map_values(|s: &str| s@).len() != b@.map_values(|s: &str| s@).len());
        return false;
    }
    let mut i: usize = 0;
    while i < a.len()
        invariant
            i <= a@.len(),
            a@.len() == b@.len(),
            forall|j: int| 0 <= j < i ==> a@[j]@ == b@[j]@,
        decreases a@.len() - i,
    {
        if !str_eq(a[i], b[i]) {
            assert(a@.map_values(|s: &str| s@)[i as int] != b@.map_values(|s: &str| s@)[i as int]);
            return false;
        }
        i = i + 1;
    }
    assert(a@.map_values(|s: &str| s@) =~= b@.map_values(|s: &str| s@));
    true
}

fn contains_name(names: &Vec<&str>, name: &str) -> (r: bool)
    ensures
        r == names@.map_values(|s: &str| s@).contains(name@),
{
    let ghost v = names@.map_values(|s: &str| s@);
    let mut i: usize = 0;
    while i < names.len()
        invariant
            i <= names@.len(),
            v == names@.map_values(|s: &str| s@),
            forall|j: int| 0 <= j < i ==> v[j] != name@,
        decreases names@.len() - i,
    {
        if str_eq(names[i], name) {
            assert(v[i as int] == name@);
            return true;
        }
        i = i + 1;
    }
    false
}

fn absent_names<'a>(a: &Vec<&'a str>, b: &Vec<&str>) -> (r: Vec<&'a str>)
    ensures
        r@.map_values(|s: &str| s@) == absent_from(a@.map_values(|s: &str| s@), b@.map_values(|s: &str| s@)),
{
    let ghost av = a@.map_values(|s: &str| s@);
    let ghost bv = b@.map_values(|s: &str| s@);
    let mut r: Vec<&'a str> = Vec::new();
    let mut i: usize = 0;
    while i < a.len()
        invariant
            i <= a@.len(),
            av == a@.map_values(|s: &str| s@),
            bv == b@.map_values(|s: &str| s@),
            r@.map_values(|s: &str| s@) == absent_from(av.take(i as int), bv),
        decreases a@.len() - i,
    {
        let ghost before = r@;
        assert(av.take(i + 1).drop_last() =~= av.take(i as int));
        assert(av.take(i + 1).last() == a@[i as int]@);
        if !contains_name(b, a[i]) {
            r.push(a[i]);
            assert(r@.map_values(|s: &str| s@) =~= before.map_values(|s: &str| s@).push(a@[i as int]@));
        }
        i = i + 1;
    }
    assert(av.take(a@.len() as int) =~= av);
    r
}

/// The bulk `INSERT` a `createMany` sends: every row of `data` must be an
/// object of the model's fields writing the same fields as the first row,
/// which decides the columns; `returning` lists the columns the statement
/// answers with.
pub fn create_many_insert(
    types: &CompositeSupport,
    model: &ModelIr,
    data: &[Json],
    returning: Vec<ColumnMarker>,
) -> (r: Result<Insert, ProtocolError>)
    ensures
        exists|
            outcomes: Seq<Seq<Result<Option<Value>, ProtocolError>>>,
            rows: Seq<Seq<Value>>,
            partial: Seq<Value>,
        |
            create_many_result(*types, *model, data@, returning@, outcomes, rows, partial, r),
{
    let ghost ret = returning@;
    if data.len() == 0 {
        let r = Err(ProtocolError::InvalidParams(String::from_str("data array cannot be empty")));
        assert(create_many_result(*types, *model, data@, ret, arbitrary(), arbitrary(), arbitrary(), r));
        return r;
    }
    let first = match &data[0] {
        Json::Object(o) => o,
        _ => {
            let r = Err(ProtocolError::InvalidParams(String::from_str("data items must be objects")));
            assert(create_many_result(*types, *model, data@, ret, arbitrary(), arbitrary(), arbitrary(), r));
            return r;
        },
    };
    let fields = create_many_effective_fields(model, first);
    let ghost fs = create_fields(model.fields@, first@);
    assert(fields@.map_values(|f: &FieldIr| *f) =~= fs);
    let expected = names_of_fields(&fields);
    proof {
        assert(expected@.map_values(|s: &str| s@) =~= names_of(fs));
    }
    let mut columns: Vec<ColumnMarker> = Vec::new();
    let mut c: usize = 0;
    while c < fields.len()
        invariant
            c <= fields@.len(),
            fields@.len() == fs.len(),
            forall|j: int| 0 <= j < fields@.len() ==> *#[trigger] fields@[j] == fs[j],
            columns@.len() == c,
            forall|j: int|
                0 <= j < c ==> (#[trigger] columns@[j]).table@ == model.db_name@ && columns@[j].name@ == fs[j].db_name@,
        decreases fields@.len() - c,
    {
        columns.push(field_marker(model, fields[c]));
        c = c + 1;
    }
    let ghost mut outcomes: Seq<Seq<Result<Option<Value>, ProtocolError>>> = Seq::empty();
    let ghost mut done: Seq<Seq<Value>> = Seq::empty();
    let mut all_values: Vec<Vec<Value>> = Vec::new();
    let mut i: usize = 0;
    while i < data.len()
        invariant
            i <= data@.len(),
            data@.len() > 0,
            data@[0] == Json::Object(*first),
            fs == create_fields(model.fields@, first@),
            fields@.len() == fs.len(),
            forall|j: int| 0 <= j < fields@.len() ==> *#[trigger] fields@[j] == fs[j],
            expected@.map_values(|s: &str| s@) == names_of(fs),
            outcomes.len() == i,
            done.len() == i,
            all_values@.len() == i,
            forall|x: int| 0 <= x < i ==> (#[trigger] all_values@[x])@ == done[x],
            forall|x: int| 0 <= x < i ==> #[trigger] row_ok(*types, *model, fs, data@[x], outcomes[x], done[x]),
            ret == returning@,
        decreases data@.len() - i,
    {
        let row = match &data[i] {
            Json::Object(o) => o,
            _ => {
                let r = Err(ProtocolError::InvalidParams(String::from_str("data items must be objects")));
                assert(create_many_result(*types, *model, data@, ret, outcomes.push(arbitrary()), done, arbitrary(), r));
                return r;
            },
        };
        match ensure_known_data_keys(model, row) {
            Ok(()) => {},
            Err(e) => {
                let r = Err(e);
                assert(create_many_result(*types, *model, data@, ret, outcomes.push(arbitrary()), done, arbitrary(), r));
                return r;
            },
        }
        let row_fields = create_many_effective_fields(model, row);
        let row_names = names_of_fields(&row_fields);
        let ghost rfs = create_fields(model.fields@, row@);
        proof {
            assert(row_names@.map_values(|s: &str| s@) =~= names_of(rfs));
        }
        if !same_names(&row_names, &expected) {
            let missing = absent_names(&expected, &row_names);
            let extra = absent_names(&row_names, &expected);
            let mut m = String::from_str(
                "createMany rows must use the same key set after omitting server defaults; row ",
            );
            push_u64(&mut m, i as u64);
            m.push_str(" differs from row 0 (missing: [");
            push_joined(&mut m, missing.as_slice());
            m.push_str("], extra: [");
            push_joined(&mut m, extra.as_slice());
            m.push_str("])");
            let r = Err(ProtocolError::InvalidParams(m));
            assert(create_many_result(*types, *model, data@, ret, outcomes.push(arbitrary()), done, arbitrary(), r));
            return r;
        }
        let ghost mut outs: Seq<Result<Option<Value>, ProtocolError>> = Seq::empty();
        let mut values: Vec<Value> = Vec::new();
        let mut j: usize = 0;
        while j < fields.len()
            invariant
                j <= fields@.len(),
                fields@.len() == fs.len(),
                forall|x: int| 0 <= x < fields@.len() ==> *#[trigger] fields@[x] == fs[x],
                outs.len() == j,
                row_values_ok(*types, row@, fs, outs, values@, j as int),
                i < data@.len(),
                data@[i as int] == Json::Object(*row),
                first_unknown_data_key(*model, row@, 0) is None,
                names_of(create_fields(model.fields@, row@)) == names_of(fs),
                data@.len() > 0,
                data@[0] == Json::Object(*first),
                fs == create_fields(model.fields@, first@),
                outcomes.len() == i,
                done.len() == i,
                forall|x: int| 0 <= x < i ==> #[trigger] row_ok(*types, *model, fs, data@[x], outcomes[x], done[x]),
                ret == returning@,
            decreases fields@.len() - j,
        {
            let input = field_input_value(types, row, fields[j], FieldInputMode::Create);
            let ghost out = input;
            let ghost pv = values@;
            assert(field_input_result(*types, row@, fs[j as int], FieldInputMode::Create, out));
            let v = match input {
                Ok(Some(v)) => v,
                Ok(None) => Value::Null,
                Err(e) => {
                    let r = Err(e);
                    proof {
                        let o2 = outs.push(out);
                        assert forall|x: int| 0 <= x < j implies #[trigger] field_input_result(*types, row@, fs[x], FieldInputMode::Create, o2[x])
                            && match o2[x] {
                            Ok(Some(v)) => values@[x] == v,
                            Ok(None) => values@[x] == Value::Null,
                            Err(_) => false,
                        } by {
                            assert(o2[x] == outs[x]);
                        }
                        assert(row_values_ok(*types, row@, fs, o2, values@, j as int));
                        assert(row_refusal(*types, *model, fs, i as nat, data@[i as int], o2, values@, r));
                        assert(create_many_result(*types, *model, data@, ret, outcomes.push(o2), done, values@, r));
                    }
                    return r;
                },
            };
            let ghost vv = v;
            values.push(v);
            proof {
                assert(values@ == pv.push(vv));
                assert(out is Ok);
                assert(out matches Ok(Some(w)) ==> w == vv);
                assert(out matches Ok(None) ==> vv == Value::Null);
                let prev = outs;
                outs = outs.push(out);
                assert forall|x: int| 0 <= x <= j implies #[trigger] field_input_result(*types, row@, fs[x], FieldInputMode::Create, outs[x])
                    && match outs[x] {
                    Ok(Some(v)) => values@[x] == v,
                    Ok(None) => values@[x] == Value::Null,
                    Err(_) => false,
                } by {
                    if x < j {
                        assert(outs[x] == prev[x]);
                        assert(values@[x] == pv[x]);
                        assert(field_input_result(*types, row@, fs[x], FieldInputMode::Create, prev[x]));
                    } else {
                        assert(outs[x] == out);
                        assert(*fields@[x] == fs[x]);
                    }
                }
            }
            j = j + 1;
        }
        let ghost vals = values@;
        all_values.push(values);
        proof {
            let od = outcomes;
            let dd = done;
            outcomes = outcomes.push(outs);
            done = done.push(vals);
            assert(row_ok(*types, *model, fs, data@[i as int], outs, vals));
            assert forall|x: int| 0 <= x <= i implies #[trigger] row_ok(*types, *model, fs, data@[x], outcomes[x], done[x]) by {
                if x < i {
                    assert(outcomes[x] == od[x] && done[x] == dd[x]);
                }
            }
        }
        i = i + 1;
    }
    let ins = Insert {
        table: String::from_str(model.db_name.as_str()),
        columns,
        values: all_values,
        on_conflict: None,
        returning,
    };
    let r = Ok(ins);
    assert(create_many_result(*types, *model, data@, ret, outcomes, done, arbitrary(), r));
    r
}

} // verus!
