//! The `::type` casts PostgreSQL needs on parameters it binds as text.
use vstd::prelude::*;

use crate::ast::Value;
use crate::ident::{push_quoted_identifier, quoted_identifier};

verus! {

/// The cast a bound parameter needs.
#[derive(Debug, PartialEq)]
pub enum ParamCast {
    /// A built-in or extension type, written bare.
    Static(&'static str),
    /// A user enum type, written as a quoted identifier.
    Enum(String),
    /// A composite type, written as a quoted identifier.
    Composite(String),
}

/// Whether `value` is a non-empty array of geometries only.
pub open spec fn homogeneous_geometry_array(value: Value) -> bool {
    match value {
        Value::Array(items) => items@.len() > 0 && forall|i: int|
            0 <= i < items@.len() ==> #[trigger] items@[i] is Geometry,
        _ => false,
    }
}

/// Whether `value` is a non-empty array of geographies only.
pub open spec fn homogeneous_geography_array(value: Value) -> bool {
    match value {
        Value::Array(items) => items@.len() > 0 && forall|i: int|
            0 <= i < items@.len() ==> #[trigger] items@[i] is Geography,
        _ => false,
    }
}

/// The cast PostgreSQL needs on a bound `value`, if any.
pub open spec fn param_cast(value: Value) -> Option<ParamCast> {
    match value {
        Value::Uuid(_) => Some(ParamCast::Static("uuid")),
        Value::Json(_) => Some(ParamCast::Static("json")),
        Value::Vector(_) => Some(ParamCast::Static("vector")),
        Value::Geometry(_) => Some(ParamCast::Static("geometry")),
        Value::Geography(_) => Some(ParamCast::Static("geography")),
        Value::Enum { sql_type, .. } => Some(ParamCast::Enum(sql_type)),
        Value::Composite { sql_type, .. } => Some(ParamCast::Composite(sql_type)),
        _ => if homogeneous_geometry_array(value) {
            Some(ParamCast::Static("geometry[]"))
        } else if homogeneous_geography_array(value) {
            Some(ParamCast::Static("geography[]"))
        } else {
            None
        },
    }
}

/// The `::type` text of a cast.
pub open spec fn cast_text(cast: ParamCast) -> Seq<char> {
    match cast {
        ParamCast::Static(name) => "::"@ + name@,
        ParamCast::Enum(sql_type) => "::"@ + quoted_identifier(sql_type@, '"'),
        ParamCast::Composite(sql_type) => "::"@ + quoted_identifier(sql_type@, '"'),
    }
}

/// The text PostgreSQL writes after the placeholder of a bound `value`.
pub open spec fn cast_suffix(value: Value) -> Seq<char> {
    match param_cast(value) {
        Some(cast) => cast_text(cast),
        None => Seq::empty(),
    }
}

impl ParamCast {
    /// Append the `::type` text of this cast.
    pub fn push_sql(&self, sql: &mut String)
        ensures
            final(sql)@ == old(sql)@ + cast_text(*self),
    {
        match self {
            ParamCast::Static(name) => {
                sql.push_str("::");
                sql.push_str(name);
            },
            ParamCast::Enum(sql_type) | ParamCast::Composite(sql_type) => {
                sql.push_str("::");
                push_quoted_identifier(sql, sql_type.as_str(), '"');
            },
        }
    }
}

/// Whether every element of `items` satisfies the geometry test.
pub fn is_homogeneous_geometry_array(value: &Value) -> (r: bool)
    ensures
        r == homogeneous_geometry_array(*value),
{
    match value {
        Value::Array(items) => {
            if items.len() == 0 {
                return false;
            }
            let mut i: usize = 0;
            while i < items.len()
                invariant
                    i <= items@.len(),
                    *value == Value::Array(*items),
                    forall|j: int| 0 <= j < i ==> #[trigger] items@[j] is Geometry,
                decreases items@.len() - i,
            {
                if !matches!(items[i], Value::Geometry(_)) {
                    assert(!(items@[i as int] is Geometry));

                    return false;
                }
                i = i + 1;
            }
            true
        },
        _ => false,
    }
}

/// Whether every element of `items` satisfies the geography test.
pub fn is_homogeneous_geography_array(value: &Value) -> (r: bool)
    ensures
        r == homogeneous_geography_array(*value),
{
    match value {
        Value::Array(items) => {
            if items.len() == 0 {
                return false;
            }
            let mut i: usize = 0;
            while i < items.len()
                invariant
                    i <= items@.len(),
                    *value == Value::Array(*items),
                    forall|j: int| 0 <= j < i ==> #[trigger] items@[j] is Geography,
                decreases items@.len() - i,
            {
                if !matches!(items[i], Value::Geography(_)) {
                    assert(!(items@[i as int] is Geography));
                    return false;
                }
                i = i + 1;
            }
            true
        },
        _ => false,
    }
}

/// The cast PostgreSQL needs on a bound `value`.
pub fn postgres_param_cast(value: &Value) -> (r: Option<ParamCast>)
    ensures
        r == param_cast(*value),
{
    match value {
        Value::Uuid(_) => Some(ParamCast::Static("uuid")),
        Value::Json(_) => Some(ParamCast::Static("json")),
        Value::Vector(_) => Some(ParamCast::Static("vector")),
        Value::Geometry(_) => Some(ParamCast::Static("geometry")),
        Value::Geography(_) => Some(ParamCast::Static("geography")),
        Value::Enum { sql_type, .. } => Some(ParamCast::Enum(sql_type.clone())),
        Value::Composite { sql_type, .. } => Some(ParamCast::Composite(sql_type.clone())),
        _ => if is_homogeneous_geometry_array(value) {
            Some(ParamCast::Static("geometry[]"))
        } else if is_homogeneous_geography_array(value) {
            Some(ParamCast::Static("geography[]"))
        } else {
            None
        },
    }
}

/// The rendered `::type` suffix a bound parameter needs in an INSERT or UPDATE,
/// or `None` when the parameter binds as its own type already.
pub fn postgres_assignment_cast(value: &Value) -> (r: Option<String>)
    ensures
        match r {
            Some(s) => param_cast(*value) is Some && s@ == cast_suffix(*value),
            None => param_cast(*value) is None,
        },
{
    let cast = postgres_param_cast(value);
    match cast {
        Some(cast) => {
            let mut sql = String::new();
            cast.push_sql(&mut sql);
            assert(sql@ =~= cast_suffix(*value));
            Some(sql)
        },
        None => None,
    }
}

} // verus!
