//! Checks on the argument object of a query before it is parsed.
use vstd::prelude::*;

use crate::ast::Value;
use crate::clauses::joined;
use crate::conversion::{ResolvedFieldType, ScalarType};
use crate::field::{field_error, json_to_value_field, vector_value};
use crate::grouping::type_of;
use crate::model::{json_get, json_get_ref};
use crate::naming::ascii_lower;
use crate::protocol::ProtocolError;
use crate::json::Json;
use crate::text::str_eq;

verus! {

/// `s` without its leading underscores.
pub open spec fn without_leading_underscores(s: Seq<char>) -> Seq<char>
    decreases s.len(),
{
    if s.len() > 0 && s[0] == '_' {
        without_leading_underscores(s.drop_first())
    } else {
        s
    }
}

/// Whether `a` and `b` match with ASCII letters compared case-insensitively.
pub open spec fn ascii_case_insensitive_eq(a: Seq<char>, b: Seq<char>) -> bool {
    a.len() == b.len() && forall|i: int| 0 <= i < a.len() ==> ascii_lower(#[trigger] a[i]) == ascii_lower(b[i])
}

/// The index of the first key from `k` on that `allowed` does not list.
pub open spec fn first_unknown(keys: Seq<Seq<char>>, allowed: Seq<Seq<char>>, k: int) -> Option<int>
    decreases keys.len() - k,
{
    if k < 0 || k >= keys.len() {
        None
    } else if !allowed.contains(keys[k]) {
        Some(k)
    } else {
        first_unknown(keys, allowed, k + 1)
    }
}

/// The first allowed argument from `k` on that `unknown` misspells only in
/// case or by leading underscores.
pub open spec fn suggestion(unknown: Seq<char>, allowed: Seq<Seq<char>>, k: int) -> Option<Seq<char>>
    decreases allowed.len() - k,
{
    if k < 0 || k >= allowed.len() {
        None
    } else if ascii_case_insensitive_eq(without_leading_underscores(unknown), allowed[k]) {
        Some(allowed[k])
    } else {
        suggestion(unknown, allowed, k + 1)
    }
}

/// The refusal of an unknown argument.
pub open spec fn unknown_argument_message(unknown: Seq<char>, method: Seq<char>, allowed: Seq<Seq<char>>) -> Seq<char> {
    "unknown argument '"@ + unknown + "' in "@ + method + " args"@ + match suggestion(unknown, allowed, 0) {
        Some(c) => " (did you mean '"@ + c + "'?)"@,
        None => Seq::empty(),
    } + "; supported arguments are: "@ + joined(allowed, ", "@)
}

fn strip_leading_underscores(s: &str) -> (r: &str)
    ensures
        r@ == without_leading_underscores(s@),
{
    let n = s.unicode_len();
    let mut i: usize = 0;
    assert(s@.subrange(0, n as int) =~= s@);
    while i < n && s.get_char(i) == '_'
        invariant
            i <= n,
            n == s@.len(),
            without_leading_underscores(s@) == without_leading_underscores(s@.subrange(i as int, n as int)),
        decreases n - i,
    {
        assert(s@.subrange(i as int, n as int).drop_first() =~= s@.subrange(i + 1, n as int));
        i = i + 1;
    }
    s.substring_char(i, n)
}

fn eq_ignore_ascii_case(a: &str, b: &str) -> (r: bool)
    ensures
        r == ascii_case_insensitive_eq(a@, b@),
{
    let n = a.unicode_len();
    if n != b.unicode_len() {
        return false;
    }
    let mut i: usize = 0;
    while i < n
        invariant
            i <= n,
            n == a@.len(),
            n == b@.len(),
            forall|j: int| 0 <= j < i ==> ascii_lower(#[trigger] a@[j]) == ascii_lower(b@[j]),
        decreases n - i,
    {
        let x = a.get_char(i);
        let y = b.get_char(i);
        let lx = if 'A' <= x && x <= 'Z' { ((x as u8) + 32) as char } else { x };
        let ly = if 'A' <= y && y <= 'Z' { ((y as u8) + 32) as char } else { y };
        if lx != ly {
            assert(ascii_lower(a@[i as int]) != ascii_lower(b@[i as int]));
            return false;
        }
        i = i + 1;
    }
    true
}

/// The character views of `names`.
pub open spec fn name_views(names: Seq<&str>) -> Seq<Seq<char>> {
    names.map_values(|s: &str| s@)
}

/// Refuse an argument object holding a key the method does not accept,
/// suggesting the argument it most likely meant.
pub fn ensure_known_arg_keys(args: &Vec<(String, Json)>, method: &str, allowed: &[&str]) -> (r: Result<(), ProtocolError>)
    ensures
        match first_unknown(args@.map_values(|e: (String, Json)| e.0@), name_views(allowed@), 0) {
            None => r is Ok,
            Some(k) => r matches Err(ProtocolError::InvalidParams(m)) && m@ == unknown_argument_message(
                args@[k].0@,
                method@,
                name_views(allowed@),
            ),
        },
{
    let ghost keys = args@.map_values(|e: (String, Json)| e.0@);
    let ghost names = name_views(allowed@);
    let mut k: usize = 0;
    let mut unknown: Option<&str> = None;
    while k < args.len()
        invariant
            k <= args@.len(),
            keys == args@.map_values(|e: (String, Json)| e.0@),
            names == name_views(allowed@),
            unknown is None,
            first_unknown(keys, names, 0) == first_unknown(keys, names, k as int),
        decreases args@.len() - k,
    {
        let key = args[k].0.as_str();
        let mut listed = false;
        let mut j: usize = 0;
        while j < allowed.len()
            invariant
                j <= allowed@.len(),
                k < args@.len(),
                key@ == keys[k as int],
                names == name_views(allowed@),
                listed ==> names.contains(key@),
                !listed ==> forall|t: int| 0 <= t < j ==> names[t] != key@,
            decreases allowed@.len() - j,
        {
            if str_eq(allowed[j], key) {
                assert(names[j as int] == key@);
                listed = true;
            }
            j = j + 1;
        }
        if !listed {
            assert(first_unknown(keys, names, k as int) == Some(k as int));
            let bare = strip_leading_underscores(key);
            let mut m = String::from_str("unknown argument '");
            m.push_str(key);
            m.push_str("' in ");
            m.push_str(method);
            m.push_str(" args");
            let mut hint: Option<usize> = None;
            let mut t: usize = 0;
            while t < allowed.len()
                invariant
                    t <= allowed@.len(),
                    names == name_views(allowed@),
                    bare@ == without_leading_underscores(key@),
                    hint is None ==> suggestion(key@, names, 0) == suggestion(key@, names, t as int),
                    hint matches Some(h) ==> h < allowed@.len() && suggestion(key@, names, 0) == Some(names[h as int]),
                decreases allowed@.len() - t,
            {
                if hint.is_none() && eq_ignore_ascii_case(bare, allowed[t]) {
                    hint = Some(t);
                }
                t = t + 1;
            }
            match hint {
                Some(h) => {
                    m.push_str(" (did you mean '");
                    m.push_str(allowed[h]);
                    m.push_str("'?)");
                },
                None => {},
            }
            m.push_str("; supported arguments are: ");
            crate::unique::push_joined(&mut m, allowed);
            return Err(ProtocolError::InvalidParams(m));
        }
        k = k + 1;
    }
    Ok(())
}

/// Whether `take` is a positive limit.
pub open spec fn positive_take(take: Option<i32>) -> bool {
    take matches Some(t) && t > 0
}

/// The refusal of a search, as a message, or `None` when it is answerable.
pub open spec fn nearest_refusal(nearest: bool, take: Option<i32>, backward: bool, cursor: bool, distinct_len: nat) -> Option<Seq<char>> {
    if !nearest {
        None
    } else if !positive_take(take) {
        Some("'nearest' requires a positive 'take' limit"@)
    } else if backward {
        Some("'nearest' does not support backward pagination"@)
    } else if cursor {
        Some("'nearest' cannot be combined with 'cursor'"@)
    } else if distinct_len > 0 {
        Some("'nearest' cannot be combined with 'distinct'"@)
    } else {
        None
    }
}

/// Refuse the argument combinations a nearest-neighbour search cannot answer:
/// it needs a positive `take`, and takes no backward paging, cursor or
/// `distinct`.
pub fn ensure_nearest_supported(nearest: bool, take: Option<i32>, backward: bool, cursor: bool, distinct: &[String]) -> (r: Result<(), ProtocolError>)
    ensures
        match nearest_refusal(nearest, take, backward, cursor, distinct@.len()) {
            None => r is Ok,
            Some(msg) => r matches Err(ProtocolError::InvalidParams(m)) && m@ == msg,
        },
{
    if !nearest {
        return Ok(());
    }
    let positive = match take {
        Some(value) => value > 0,
        None => false,
    };
    if !positive {
        return Err(ProtocolError::InvalidParams(String::from_str("'nearest' requires a positive 'take' limit")));
    }
    if backward {
        return Err(ProtocolError::InvalidParams(String::from_str("'nearest' does not support backward pagination")));
    }
    if cursor {
        return Err(ProtocolError::InvalidParams(String::from_str("'nearest' cannot be combined with 'cursor'")));
    }
    if distinct.len() > 0 {
        return Err(ProtocolError::InvalidParams(String::from_str("'nearest' cannot be combined with 'distinct'")));
    }
    Ok(())
}

/// The distance a nearest-neighbour search ranks rows by.
#[derive(Debug, Clone, Copy, PartialEq, Eq)]
pub enum VectorMetric {
    L2,
    InnerProduct,
    Cosine,
}

/// A pgvector nearest-neighbour search: the vector field, the query vector
/// (each component by the bit pattern of its double), and the metric.
#[derive(Debug, PartialEq)]
pub struct VectorNearestQuery {
    pub field: String,
    pub query: Vec<u64>,
    pub metric: VectorMetric,
}

/// The metric a `metric` name stands for.
pub open spec fn metric_named(s: Seq<char>) -> Option<VectorMetric> {
    if s == "l2"@ {
        Some(VectorMetric::L2)
    } else if s == "innerProduct"@ {
        Some(VectorMetric::InnerProduct)
    } else if s == "cosine"@ {
        Some(VectorMetric::Cosine)
    } else {
        None
    }
}

/// Whether `r` refuses the parameters with the message `m`.
pub open spec fn refuses_params<T>(r: Result<T, ProtocolError>, m: Seq<char>) -> bool {
    r matches Err(ProtocolError::InvalidParams(t)) && t@ == m
}

/// Whether `r` is what the `nearest` argument `value` parses to, with
/// `types` the model's field types: an object naming a vector field, a query
/// vector valid for it, and one of the three metrics.
pub open spec fn nearest_result(value: Json, types: Seq<(String, ResolvedFieldType)>, r: Result<VectorNearestQuery, ProtocolError>) -> bool {
    match value {
        Json::Object(obj) => match json_get(obj@, "field"@) {
            Some(Json::String(f)) => match type_of(types, f@) {
                None => refuses_params(r, "'nearest.field' references unknown field '"@ + f@ + "'"@),
                Some(ty) => if !(ty matches ResolvedFieldType::Scalar(ScalarType::Vector { .. })) {
                    refuses_params(r, "'nearest.field' must reference a Vector field, got '"@ + f@ + "'"@)
                } else {
                    match json_get(obj@, "query"@) {
                        None => refuses_params(r, "'nearest.query' is required"@),
                        Some(q) => match field_error(q, ty) {
                            Some(m) => refuses_params(r, m),
                            None => if q is Null {
                                refuses_params(r, "'nearest.query' must be a vector"@)
                            } else {
                                match json_get(obj@, "metric"@) {
                                    Some(Json::String(s)) => match metric_named(s@) {
                                        Some(metric) => r matches Ok(n) && n.field@ == f@ && n.metric == metric
                                            && vector_value(q, Value::Vector(n.query)),
                                        None => refuses_params(
                                            r,
                                            "Unsupported nearest metric '"@ + s@
                                                + "'; expected one of: l2, innerProduct, cosine"@,
                                        ),
                                    },
                                    _ => refuses_params(r, "'nearest.metric' is required"@),
                                }
                            },
                        },
                    }
                },
            },
            _ => refuses_params(r, "'nearest.field' must be a string"@),
        },
        _ => refuses_params(r, "'nearest' must be an object"@),
    }
}

/// The type `types` gives `name` (its first entry with that name).
pub(crate) fn field_type_ref<'a>(types: &'a [(String, ResolvedFieldType)], name: &str) -> (r: Option<&'a ResolvedFieldType>)
    ensures
        match r {
            Some(t) => type_of(types@, name@) == Some(*t),
            None => type_of(types@, name@) is None,
        },
{
    let n = types.len();
    let mut i: usize = 0;
    assert(types@.subrange(0, n as int) =~= types@);
    while i < n
        invariant
            i <= n,
            n == types@.len(),
            type_of(types@, name@) == type_of(types@.subrange(i as int, n as int), name@),
        decreases n - i,
    {
        assert(types@.subrange(i as int, n as int).drop_first() =~= types@.subrange(i + 1, n as int));
        if str_eq(types[i].0.as_str(), name) {
            return Some(&types[i].1);
        }
        i = i + 1;
    }
    None
}

fn invalid_params(text: &str) -> (r: ProtocolError)
    ensures
        r matches ProtocolError::InvalidParams(t) && t@ == text@,
{
    ProtocolError::InvalidParams(String::from_str(text))
}

/// Parse the `nearest` argument of a read: `{field, query, metric}`, where
/// `field` names a vector field among `field_types`, `query` is a vector it
/// accepts, and `metric` is `l2`, `innerProduct` or `cosine`.
pub fn parse_nearest_query(value: &Json, field_types: &[(String, ResolvedFieldType)]) -> (r: Result<VectorNearestQuery, ProtocolError>)
    ensures
        nearest_result(*value, field_types@, r),
{
    let obj = match value {
        Json::Object(obj) => obj,
        _ => {
            return Err(invalid_params("'nearest' must be an object"));
        },
    };
    let field = match json_get_ref(obj, "field") {
        Some(Json::String(f)) => f,
        _ => {
            return Err(invalid_params("'nearest.field' must be a string"));
        },
    };
    let field_type = match field_type_ref(field_types, field.as_str()) {
        Some(t) => t,
        None => {
            let mut m = String::from_str("'nearest.field' references unknown field '");
            m.push_str(field.as_str());
            m.push_str("'");
            return Err(ProtocolError::InvalidParams(m));
        },
    };
    let is_vector = match field_type {
        ResolvedFieldType::Scalar(ScalarType::Vector { .. }) => true,
        _ => false,
    };
    if !is_vector {
        let mut m = String::from_str("'nearest.field' must reference a Vector field, got '");
        m.push_str(field.as_str());
        m.push_str("'");
        return Err(ProtocolError::InvalidParams(m));
    }
    let query_json = match json_get_ref(obj, "query") {
        Some(q) => q,
        None => {
            return Err(invalid_params("'nearest.query' is required"));
        },
    };
    let query = match json_to_value_field(query_json, field_type) {
        Ok(Value::Vector(values)) => values,
        Ok(_) => {
            return Err(invalid_params("'nearest.query' must be a vector"));
        },
        Err(e) => {
            return Err(e);
        },
    };
    let metric = match json_get_ref(obj, "metric") {
        Some(Json::String(s)) => {
            if str_eq(s.as_str(), "l2") {
                VectorMetric::L2
            } else if str_eq(s.as_str(), "innerProduct") {
                VectorMetric::InnerProduct
            } else if str_eq(s.as_str(), "cosine") {
                VectorMetric::Cosine
            } else {
                let mut m = String::from_str("Unsupported nearest metric '");
                m.push_str(s.as_str());
                m.push_str("'; expected one of: l2, innerProduct, cosine");
                return Err(ProtocolError::InvalidParams(m));
            }
        },
        _ => {
            return Err(invalid_params("'nearest.metric' is required"));
        },
    };
    Ok(VectorNearestQuery { field: String::from_str(field.as_str()), query, metric })
}

/// Whether a read both projects columns and eager-loads relations, which
/// cannot be asked together: `selected` fields chosen and `loaded` relations
/// named.
pub fn projection_clashes_with_relations(selected: usize, loaded: usize) -> (r: bool)
    ensures
        r == (selected > 0 && loaded > 0),
{
    selected > 0 && loaded > 0
}

} // verus!
