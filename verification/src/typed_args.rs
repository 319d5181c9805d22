//! The arguments of a read given in typed form, with the filter already
//! parsed: the names are stripped of table qualifiers, and the checks the
//! JSON form goes through are applied to them.
use vstd::prelude::*;

use crate::args::{ensure_nearest_supported, field_type_ref, nearest_refusal, VectorNearestQuery};
use crate::ast::{Expr, OrderBy, Value};
use crate::conversion::{ResolvedFieldType, ScalarType};
use crate::distinct::{clone_value, deep_value};
use crate::grouping::type_of;
use crate::naming::{enabled_names, normalize_distinct, normalize_order_by, normalize_select, strip_column_qualifier, unqualified, views_of};
use crate::protocol::ProtocolError;
use crate::query_args::projection_clash_message;

verus! {

/// The typed arguments of a read: the parsed filter, the orderings, the
/// window (a negative `take` reads backward), the projection as field flags,
/// how many relations the caller asks to load, the cursor's fields, the
/// `distinct` fields and the nearest-neighbour search.
pub struct TypedFindArgs {
    pub filter: Option<Expr>,
    pub order_by: Vec<OrderBy>,
    pub take: Option<i32>,
    pub skip: Option<u32>,
    pub select: Vec<(String, bool)>,
    pub relations: usize,
    pub cursor: Option<Vec<(String, Value)>>,
    pub distinct: Vec<String>,
    pub nearest: Option<VectorNearestQuery>,
}

/// The typed arguments once read: names without qualifiers, the window's
/// size and direction, and the enabled projection fields.
pub struct TypedQueryArgs {
    pub filter: Option<Expr>,
    pub order_by: Vec<OrderBy>,
    pub take: Option<i32>,
    pub skip: Option<u32>,
    pub select: Vec<String>,
    pub cursor: Option<Vec<(String, Value)>>,
    pub backward: bool,
    pub distinct: Vec<String>,
    pub nearest: Option<VectorNearestQuery>,
}

/// Whether some field of a typed projection is enabled.
pub open spec fn selects_any(select: Seq<(String, bool)>) -> bool {
    exists|i: int| 0 <= i < select.len() && #[trigger] select[i].1
}

/// The window's size a typed `take` gives: its magnitude, which wraps for
/// the smallest `i32`.
pub open spec fn take_size(t: i32) -> i32 {
    if t >= 0 {
        t
    } else if t == i32::MIN {
        i32::MIN
    } else {
        (-t) as i32
    }
}

/// The refusal of a typed nearest-neighbour search's field, if it has one.
pub open spec fn typed_nearest_refusal(types: Seq<(String, ResolvedFieldType)>, field: Seq<char>) -> Option<Seq<char>> {
    match type_of(types, unqualified(field)) {
        None => Some("'nearest.field' references unknown field '"@ + unqualified(field) + "'"@),
        Some(ty) => if ty matches ResolvedFieldType::Scalar(ScalarType::Vector { .. }) {
            None
        } else {
            Some("'nearest.field' must reference a Vector field, got '"@ + unqualified(field) + "'"@)
        },
    }
}

/// Read typed arguments, with `field_types` the model's field types: a
/// projection together with relations to load is refused first, then a
/// nearest-neighbour search on a field that is not a vector field, then the
/// combinations such a search cannot answer.
#[verifier::rlimit(30)]
pub fn from_find_many_args(args: TypedFindArgs, field_types: &[(String, ResolvedFieldType)]) -> (r: Result<TypedQueryArgs, ProtocolError>)
    ensures
        ({
            let backward = args.take matches Some(t) && t < 0;
            let take = match args.take {
                Some(t) => Some(take_size(t)),
                None => None,
            };
            let nearest_bad = match args.nearest {
                Some(n) => typed_nearest_refusal(field_types@, n.field@),
                None => None,
            };
            if selects_any(args.select@) && args.relations > 0 {
                r matches Err(ProtocolError::InvalidParams(m)) && m@ == projection_clash_message()
            } else if nearest_bad is Some {
                r matches Err(ProtocolError::InvalidParams(m)) && m@ == nearest_bad->0
            } else if nearest_refusal(args.nearest is Some, take, backward, args.cursor is Some, args.distinct@.len())
                is Some {
                r matches Err(ProtocolError::InvalidParams(m)) && m@ == nearest_refusal(
                    args.nearest is Some,
                    take,
                    backward,
                    args.cursor is Some,
                    args.distinct@.len(),
                )->0
            } else {
                r matches Ok(q) && {
                    &&& q.filter == args.filter
                    &&& q.take == take && q.backward == backward && q.skip == args.skip
                    &&& views_of(q.select@).to_set() == enabled_names(args.select@)
                    &&& q.order_by@.len() == args.order_by@.len() && forall|k: int|
                        0 <= k < q.order_by@.len() ==> (#[trigger] q.order_by@[k]).column@ == unqualified(
                            args.order_by@[k].column@,
                        ) && q.order_by@[k].direction == args.order_by@[k].direction
                    &&& q.distinct@.len() == args.distinct@.len() && forall|k: int|
                        0 <= k < q.distinct@.len() ==> #[trigger] q.distinct@[k]@ == unqualified(args.distinct@[k]@)
                    &&& match (q.cursor, args.cursor) {
                        (Some(c), Some(a)) => c@.len() == a@.len() && forall|k: int|
                            0 <= k < c@.len() ==> (#[trigger] c@[k]).0@ == unqualified(a@[k].0@) && deep_value(c@[k].1)
                                == deep_value(a@[k].1),
                        (None, None) => true,
                        _ => false,
                    }
                    &&& match (q.nearest, args.nearest) {
                        (Some(n), Some(a)) => n.field@ == unqualified(a.field@) && n.query@ == a.query@ && n.metric
                            == a.metric,
                        (None, None) => true,
                        _ => false,
                    }
                }
            }
        }),
{
    let ghost a0 = args;
    let TypedFindArgs { filter, order_by, take, skip, select, relations, cursor, distinct, nearest } = args;
    let names = normalize_select(select.as_slice());
    let mut any = false;
    let mut i: usize = 0;
    while i < select.len()
        invariant
            i <= select@.len(),
            any == exists|j: int| 0 <= j < i && #[trigger] select@[j].1,
        decreases select@.len() - i,
    {
        if select[i].1 {
            any = true;
        }
        i = i + 1;
    }
    if any && relations > 0 {
        let r = Err(ProtocolError::InvalidParams(String::from_str(
            "'select' and 'include' cannot be used together. Use 'select' for projection only, or 'include' for relation loading.",
        )));
        proof {
            reveal_strlit("'select' and 'include' cannot be used together. Use 'select' for projection only, or 'include' for relation loading.");
        }
        return r;
    }
    let (size, backward) = match take {
        Some(t) => if t < 0 {
            (Some(if t == i32::MIN { i32::MIN } else { -t }), true)
        } else {
            (Some(t), false)
        },
        None => (None, false),
    };
    let nearest_q = match nearest {
        Some(n) => {
            let field = strip_column_qualifier(n.field.as_str());
            let is_vector = match field_type_ref(field_types, field.as_str()) {
                None => {
                    let mut m = String::from_str("'nearest.field' references unknown field '");
                    m.push_str(field.as_str());
                    m.push_str("'");
                    return Err(ProtocolError::InvalidParams(m));
                },
                Some(ResolvedFieldType::Scalar(ScalarType::Vector { .. })) => true,
                Some(_) => false,
            };
            if !is_vector {
                let mut m = String::from_str("'nearest.field' must reference a Vector field, got '");
                m.push_str(field.as_str());
                m.push_str("'");
                return Err(ProtocolError::InvalidParams(m));
            }
            Some(VectorNearestQuery { field, query: n.query, metric: n.metric })
        },
        None => None,
    };
    let distinct_n = normalize_distinct(distinct.as_slice());
    match ensure_nearest_supported(nearest_q.is_some(), size, backward, cursor.is_some(), distinct_n.as_slice()) {
        Ok(()) => {},
        Err(e) => {
            return Err(e);
        },
    }
    let cursor_n = match &cursor {
        Some(pairs) => {
            let mut out: Vec<(String, Value)> = Vec::new();
            let mut k: usize = 0;
            while k < pairs.len()
                invariant
                    k <= pairs@.len(),
                    out@.len() == k,
                    forall|j: int|
                        0 <= j < k ==> (#[trigger] out@[j]).0@ == unqualified(pairs@[j].0@) && deep_value(out@[j].1)
                            == deep_value(pairs@[j].1),
                decreases pairs@.len() - k,
            {
                out.push((strip_column_qualifier(pairs[k].0.as_str()), clone_value(&pairs[k].1)));
                k = k + 1;
            }
            Some(out)
        },
        None => None,
    };
    Ok(TypedQueryArgs {
        filter,
        order_by: normalize_order_by(order_by.as_slice()),
        take: size,
        skip,
        select: names,
        cursor: cursor_n,
        backward,
        distinct: distinct_n,
        nearest: nearest_q,
    })
}

} // verus!
