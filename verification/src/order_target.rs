//! What an `orderBy` entry sorts by: a column of the model, or a single path
//! into a composite field.
use vstd::prelude::*;

use crate::ast::{Expr, JsonPathCast};
use crate::conversion::{ResolvedFieldType, ScalarType};
use crate::grouping::first_dot;
use crate::model::{CompositeFieldIr, CompositeTypeIr, ModelIr};
use crate::naming::{db_column, db_column_for, strip_order_qualifier, unqualified};
use crate::protocol::ProtocolError;
use crate::text::str_eq;
use crate::unique::{scalar_field_index, scalar_field_named};

verus! {

/// The term an `orderBy` entry sorts by.
#[derive(Debug, PartialEq)]
pub enum ResolvedOrderTarget {
    /// A column of the model.
    Column(String),
    /// A field inside a composite column.
    Expr(Expr),
}

/// Whether a composite field can be sorted by: a single value of an ordered
/// type.
pub open spec fn orderable_nested(field: CompositeFieldIr) -> bool {
    !field.is_array && match field.field_type {
        ResolvedFieldType::Enum { .. } => true,
        ResolvedFieldType::Scalar(s) => !(s is Boolean || s is Json || s is Jsonb || s is Hstore
            || s is Geometry || s is Geography || s is Vector || s is Bytes),
        _ => false,
    }
}

/// Whether `field` can be sorted by.
pub fn is_orderable_nested_field(field: &CompositeFieldIr) -> (r: bool)
    ensures
        r == orderable_nested(*field),
{
    if field.is_array {
        return false;
    }
    match &field.field_type {
        ResolvedFieldType::Enum { .. } => true,
        ResolvedFieldType::Scalar(s) => !matches!(
            s,
            ScalarType::Boolean | ScalarType::Json | ScalarType::Jsonb | ScalarType::Hstore
                | ScalarType::Geometry | ScalarType::Geography | ScalarType::Vector { .. }
                | ScalarType::Bytes
        ),
        _ => false,
    }
}

/// How a composite field read out of JSON is cast so it sorts by value.
pub open spec fn nested_cast(field: CompositeFieldIr) -> JsonPathCast {
    match field.field_type {
        ResolvedFieldType::Scalar(s) => if s is Int || s is BigInt {
            JsonPathCast::Signed
        } else if s is Float {
            JsonPathCast::Double
        } else if s is Decimal {
            JsonPathCast::Decimal
        } else {
            JsonPathCast::NoCast
        },
        _ => JsonPathCast::NoCast,
    }
}

/// The cast a composite field is read with.
pub fn json_cast_for_nested_field(field: &CompositeFieldIr) -> (r: JsonPathCast)
    ensures
        r == nested_cast(*field),
{
    match &field.field_type {
        ResolvedFieldType::Scalar(ScalarType::Int) | ResolvedFieldType::Scalar(ScalarType::BigInt) => {
            JsonPathCast::Signed
        },
        ResolvedFieldType::Scalar(ScalarType::Float) => JsonPathCast::Double,
        ResolvedFieldType::Scalar(ScalarType::Decimal) => JsonPathCast::Decimal,
        _ => JsonPathCast::NoCast,
    }
}

/// The index of the first composite type from `k` on declared as `name`.
pub open spec fn composite_named(composites: Seq<CompositeTypeIr>, name: Seq<char>, k: int) -> Option<int>
    decreases composites.len() - k,
{
    if k < 0 || k >= composites.len() {
        None
    } else if composites[k].logical_name@ == name {
        Some(k)
    } else {
        composite_named(composites, name, k + 1)
    }
}

/// The index of the first field from `k` on that `name` refers to, by
/// logical or column name.
pub open spec fn nested_named(fields: Seq<CompositeFieldIr>, name: Seq<char>, k: int) -> Option<int>
    decreases fields.len() - k,
{
    if k < 0 || k >= fields.len() {
        None
    } else if fields[k].logical_name@ == name || fields[k].db_name@ == name {
        Some(k)
    } else {
        nested_named(fields, name, k + 1)
    }
}

/// An order target as mathematics sees it.
pub enum TargetView {
    Column(Seq<char>),
    Nested { table: Seq<char>, column: Seq<char>, field: Seq<char>, json_key: Seq<char>, cast: JsonPathCast },
}

/// Why an order target is refused: the filter, or the schema.
pub enum OrderRefusal {
    Filter(Seq<char>),
    Planning(Seq<char>),
}

/// What an `orderBy` key resolves to. Its `table__` qualifier is dropped. A
/// plain name is the column `logical_to_db` maps it to (or itself), unless it
/// names a composite field, which has to be ordered by one of its fields. A
/// dotted name `parent.field` reaches into the single composite field
/// `parent` of the model and names one of the composite type's orderable
/// fields.
pub open spec fn order_target(
    composites: Seq<CompositeTypeIr>,
    model: ModelIr,
    logical_to_db: Seq<(String, String)>,
    key: Seq<char>,
) -> Result<TargetView, OrderRefusal> {
    let path = unqualified(key);
    match first_dot(path, 0) {
        None => match scalar_field_named(model.fields@, path, 0) {
            Some(i) if model.fields@[i].field_type is CompositeType => Err(
                OrderRefusal::Filter(
                    "Composite field '"@ + path + "' cannot be ordered directly; use '"@ + path
                        + ".<field>'"@,
                ),
            ),
            _ => Ok(TargetView::Column(db_column(logical_to_db, path))),
        },
        Some(d) => {
            let parent = path.subrange(0, d);
            let nested = path.subrange(d + 1, path.len() as int);
            match scalar_field_named(model.fields@, parent, 0) {
                None => Err(OrderRefusal::Filter("Unknown orderBy field '"@ + parent + "'"@)),
                Some(i) => {
                    let pf = model.fields@[i];
                    if pf.is_array {
                        Err(
                            OrderRefusal::Filter(
                                "Composite array field '"@ + parent
                                    + "' cannot be used with orderBy path '"@ + path + "'"@,
                            ),
                        )
                    } else {
                        match pf.field_type {
                            ResolvedFieldType::CompositeType { composite_name } => match composite_named(
                                composites,
                                composite_name@,
                                0,
                            ) {
                                None => Err(
                                    OrderRefusal::Planning(
                                        "Composite type '"@ + composite_name@
                                            + "' not found while resolving orderBy '"@ + path
                                            + "'"@,
                                    ),
                                ),
                                Some(c) => match nested_named(composites[c].fields@, nested, 0) {
                                    None => Err(
                                        OrderRefusal::Filter(
                                            "Unknown orderBy composite field '"@ + parent
                                                + "."@ + nested + "'"@,
                                        ),
                                    ),
                                    Some(f) => {
                                        let nf = composites[c].fields@[f];
                                        if !orderable_nested(nf) {
                                            Err(
                                                OrderRefusal::Filter(
                                                    "Field '"@ + path
                                                        + "' cannot be used with classic orderBy because it is not orderable"@,
                                                ),
                                            )
                                        } else {
                                            Ok(
                                                TargetView::Nested {
                                                    table: model.db_name@,
                                                    column: pf.db_name@,
                                                    field: nf.db_name@,
                                                    json_key: nf.logical_name@,
                                                    cast: nested_cast(nf),
                                                },
                                            )
                                        }
                                    },
                                },
                            },
                            _ => Err(
                                OrderRefusal::Filter(
                                    "orderBy path '"@ + path + "' starts with non-composite field '"@
                                        + parent + "'"@,
                                ),
                            ),
                        }
                    }
                },
            }
        },
    }
}

/// Whether `r` is the answer `expected` describes.
pub open spec fn answers_target(
    expected: Result<TargetView, OrderRefusal>,
    r: Result<ResolvedOrderTarget, ProtocolError>,
) -> bool {
    match expected {
        Ok(TargetView::Column(c)) => r matches Ok(ResolvedOrderTarget::Column(s)) && s@ == c,
        Ok(TargetView::Nested { table, column, field, json_key, cast }) => r matches Ok(
            ResolvedOrderTarget::Expr(Expr::CompositeField { table: t, column: c, field: f, json_key: k, cast: x }),
        ) && t@ == table && c@ == column && f@ == field && k@ == json_key && x == cast,
        Err(OrderRefusal::Filter(m)) => r matches Err(ProtocolError::InvalidFilter(e)) && e@ == m,
        Err(OrderRefusal::Planning(m)) => r matches Err(ProtocolError::QueryPlanning(e)) && e@ == m,
    }
}

fn composite_index(composites: &[CompositeTypeIr], name: &str) -> (r: Option<usize>)
    ensures
        match r {
            Some(i) => composite_named(composites@, name@, 0) == Some(i as int) && i < composites@.len(),
            None => composite_named(composites@, name@, 0) is None,
        },
{
    let mut i: usize = 0;
    while i < composites.len()
        invariant
            i <= composites@.len(),
            composite_named(composites@, name@, 0) == composite_named(composites@, name@, i as int),
        decreases composites@.len() - i,
    {
        if str_eq(composites[i].logical_name.as_str(), name) {
            return Some(i);
        }
        i = i + 1;
    }
    None
}

fn nested_index(fields: &Vec<CompositeFieldIr>, name: &str) -> (r: Option<usize>)
    ensures
        match r {
            Some(i) => nested_named(fields@, name@, 0) == Some(i as int) && i < fields@.len(),
            None => nested_named(fields@, name@, 0) is None,
        },
{
    let mut i: usize = 0;
    while i < fields.len()
        invariant
            i <= fields@.len(),
            nested_named(fields@, name@, 0) == nested_named(fields@, name@, i as int),
        decreases fields@.len() - i,
    {
        if str_eq(fields[i].logical_name.as_str(), name) || str_eq(fields[i].db_name.as_str(), name) {
            return Some(i);
        }
        i = i + 1;
    }
    None
}

fn filter_error(parts: &[&str]) -> (r: ProtocolError)
    ensures
        r matches ProtocolError::InvalidFilter(m) && m@ == concat(parts@.map_values(|s: &str| s@)),
{
    ProtocolError::InvalidFilter(concat_parts(parts))
}

/// The parts joined end to end.
pub open spec fn concat(parts: Seq<Seq<char>>) -> Seq<char>
    decreases parts.len(),
{
    if parts.len() == 0 {
        Seq::empty()
    } else {
        concat(parts.drop_last()) + parts.last()
    }
}

fn concat_parts(parts: &[&str]) -> (r: String)
    ensures
        r@ == concat(parts@.map_values(|s: &str| s@)),
{
    let ghost views = parts@.map_values(|s: &str| s@);
    let mut r = String::new();
    let mut i: usize = 0;
    while i < parts.len()
        invariant
            i <= parts@.len(),
            views == parts@.map_values(|s: &str| s@),
            r@ == concat(views.take(i as int)),
        decreases parts@.len() - i,
    {
        assert(views.take(i + 1).drop_last() =~= views.take(i as int));
        r.push_str(parts[i]);
        i = i + 1;
    }
    assert(views.take(parts@.len() as int) =~= views);
    r
}

/// Resolve an `orderBy` key against the model and the schema's composite
/// types.
pub fn resolve_order_target(
    composites: &[CompositeTypeIr],
    model: &ModelIr,
    logical_to_db: &[(String, String)],
    field_path: &str,
) -> (r: Result<ResolvedOrderTarget, ProtocolError>)
    ensures
        answers_target(order_target(composites@, *model, logical_to_db@, field_path@), r),
{
    let path = strip_order_qualifier(field_path);
    let n = path.unicode_len();
    let mut d: usize = 0;
    while d < n && path.get_char(d) != '.'
        invariant
            d <= n,
            n == path@.len(),
            first_dot(path@, 0) == first_dot(path@, d as int),
        decreases n - d,
    {
        d = d + 1;
    }
    if d == n {
        if let Some(i) = scalar_field_index(model, path) {
            if matches!(model.fields[i].field_type, ResolvedFieldType::CompositeType { .. }) {
                let parts = [
                    "Composite field '",
                    path,
                    "' cannot be ordered directly; use '",
                    path,
                    ".<field>'",
                ];
                let e = filter_error(&parts);
                proof {
                    reveal_with_fuel(concat, 6);
                }
                return Err(e);
            }
        }
        return Ok(ResolvedOrderTarget::Column(db_column_for(logical_to_db, path)));
    }
    let parent = path.substring_char(0, d);
    let nested = path.substring_char(d + 1, n);
    let i = match scalar_field_index(model, parent) {
        Some(i) => i,
        None => {
            let parts = ["Unknown orderBy field '", parent, "'"];
            let e = filter_error(&parts);
            proof {
                reveal_with_fuel(concat, 4);
            }
            return Err(e);
        },
    };
    let pf = &model.fields[i];
    if pf.is_array {
        let parts = [
            "Composite array field '",
            parent,
            "' cannot be used with orderBy path '",
            path,
            "'",
        ];
        let e = filter_error(&parts);
        proof {
            reveal_with_fuel(concat, 6);
        }
        return Err(e);
    }
    let composite_name = match &pf.field_type {
        ResolvedFieldType::CompositeType { composite_name } => composite_name,
        _ => {
            let parts = ["orderBy path '", path, "' starts with non-composite field '", parent, "'"];
            let e = filter_error(&parts);
            proof {
                reveal_with_fuel(concat, 6);
            }
            return Err(e);
        },
    };
    let c = match composite_index(composites, composite_name.as_str()) {
        Some(c) => c,
        None => {
            let parts = [
                "Composite type '",
                composite_name.as_str(),
                "' not found while resolving orderBy '",
                path,
                "'",
            ];
            let m = concat_parts(&parts);
            proof {
                reveal_with_fuel(concat, 6);
            }
            return Err(ProtocolError::QueryPlanning(m));
        },
    };
    let composite = &composites[c];
    let f = match nested_index(&composite.fields, nested) {
        Some(f) => f,
        None => {
            let parts = ["Unknown orderBy composite field '", parent, ".", nested, "'"];
            let e = filter_error(&parts);
            proof {
                reveal_with_fuel(concat, 6);
            }
            return Err(e);
        },
    };
    let nf = &composite.fields[f];
    if !is_orderable_nested_field(nf) {
        let parts = [
            "Field '",
            path,
            "' cannot be used with classic orderBy because it is not orderable",
        ];
        let e = filter_error(&parts);
        proof {
            reveal_with_fuel(concat, 4);
        }
        return Err(e);
    }
    Ok(
        ResolvedOrderTarget::Expr(
            Expr::CompositeField {
                table: String::from_str(model.db_name.as_str()),
                column: String::from_str(pf.db_name.as_str()),
                field: String::from_str(nf.db_name.as_str()),
                json_key: String::from_str(nf.logical_name.as_str()),
                cast: json_cast_for_nested_field(nf),
            },
        ),
    )
}

} // verus!
