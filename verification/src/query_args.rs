//! The JSON `args` object of a read request, parsed: every key is read here
//! or handed on, so an argument the engine does not act on is refused rather
//! than silently dropped. The `where` filter, the projection and the
//! relations to load are handed on as they arrived, to the parsers that
//! understand them.
use vstd::prelude::*;

use crate::args::{
    projection_clashes_with_relations, ensure_known_arg_keys, ensure_nearest_supported, first_unknown, name_views, nearest_refusal, nearest_result,
    parse_nearest_query, unknown_argument_message, VectorNearestQuery,
};
use crate::ast::{OrderBy, Value};
use crate::conversion::{converts_to, json_to_value, ResolvedFieldType};
use crate::grouping::{order_by_entries, orders_are, parse_order_by};
use crate::ident::{decimal, push_u64};
use crate::json::{json_clone, Json, JsonView};
use crate::model::{json_get, json_get_ref};
use crate::protocol::{json_as_i64, json_as_u64, parse_int, parse_signed_int, refused_with, ProtocolError, Refusal};

verus! {

/// The arguments of a read, parsed.
pub struct QueryArgs {
    /// The `where` argument, for the filter parser.
    pub filter: Option<Json>,
    pub order_by: Vec<OrderBy>,
    /// The window's size; `backward` says it was asked for as a negative one.
    pub take: Option<i32>,
    pub skip: Option<u32>,
    /// The argument naming the relations to load, for its parser.
    pub relations: Option<Json>,
    /// The `select` argument, for the projection parser.
    pub select: Option<Json>,
    /// The cursor's fields and values.
    pub cursor: Option<Vec<(String, Value)>>,
    pub backward: bool,
    pub distinct: Vec<String>,
    pub nearest: Option<VectorNearestQuery>,
}

/// `n` written in decimal, with a minus sign when negative.
pub open spec fn int_text(n: int) -> Seq<char> {
    if n < 0 {
        "-"@ + decimal((-n) as nat)
    } else {
        decimal(n as nat)
    }
}

/// The window a `take` argument asks for: its size, and whether it reads
/// backward.
pub open spec fn take_of(v: Json) -> Result<(i32, bool), Seq<char>> {
    match json_as_i64(v) {
        None => Err("take"@ + " must be an integer"@),
        Some(n) => {
            let m: int = if n < 0 { -n } else { n as int };
            if m <= i32::MAX {
                Ok((m as i32, n < 0))
            } else {
                Err("take must fit in a 32-bit integer, got "@ + int_text(n as int))
            }
        },
    }
}

/// The offset a `skip` argument asks for.
pub open spec fn skip_of(v: Json) -> Result<u32, Seq<char>> {
    match json_as_u64(v) {
        Some(n) => if n <= u32::MAX {
            Ok(n as u32)
        } else {
            Err("skip"@ + " must be a non-negative integer"@)
        },
        None => Err("skip"@ + " must be a non-negative integer"@),
    }
}

/// Whether every item is a string.
pub open spec fn all_strings(items: Seq<Json>) -> bool {
    forall|i: int| 0 <= i < items.len() ==> #[trigger] items[i] is String
}

/// How many members of an object are `true`: the fields a `select` object
/// enables.
pub open spec fn true_members(o: Seq<(String, Json)>) -> nat
    decreases o.len(),
{
    if o.len() == 0 {
        0
    } else {
        true_members(o.drop_last()) + if o.last().1 matches Json::Bool(true) { 1nat } else { 0nat }
    }
}

/// How many members of an object are not `false`: the relations an object
/// naming relations to load asks for.
pub open spec fn loaded_members(o: Seq<(String, Json)>) -> nat
    decreases o.len(),
{
    if o.len() == 0 {
        0
    } else {
        loaded_members(o.drop_last()) + if o.last().1 matches Json::Bool(false) { 0nat } else { 1nat }
    }
}

/// The fields a `select` argument enables, counted.
pub open spec fn selected_count(v: Option<Json>) -> nat {
    match v {
        Some(Json::Object(o)) => true_members(o@),
        _ => 0,
    }
}

/// The relations an argument naming relations to load asks for, counted.
pub open spec fn loaded_count(v: Option<Json>) -> nat {
    match v {
        Some(Json::Object(o)) => loaded_members(o@),
        _ => 0,
    }
}

/// The message refusing a read that both projects and loads relations.
pub open spec fn projection_clash_message() -> Seq<char> {
    "'select' and 'include' cannot be used together. Use 'select' for projection only, or 'include' for relation loading."@
}

/// The refusal the arguments `o` meet before the nearest-neighbour search is
/// read: an unknown key, then `orderBy`, `take`, `skip`, `cursor`, a
/// projection together with relations to load (named by `relations_key`),
/// and `distinct`, in that order.
pub open spec fn args_refusal(
    o: Seq<(String, Json)>,
    method: Seq<char>,
    allowed: Seq<Seq<char>>,
    relations_key: Seq<char>,
    types: Seq<(String, ResolvedFieldType)>,
) -> Option<Refusal> {
    match first_unknown(o.map_values(|e: (String, Json)| e.0@), allowed, 0) {
        Some(k) => Some(Refusal::InvalidParams(unknown_argument_message(o[k].0@, method, allowed))),
        None => if json_get(o, "orderBy"@) matches Some(v) && order_by_entries(v, Some(types)) is Err {
            Some(Refusal::InvalidFilter(order_by_entries(json_get(o, "orderBy"@).unwrap(), Some(types))->Err_0))
        } else if json_get(o, "take"@) matches Some(v) && take_of(v) is Err {
            Some(Refusal::InvalidParams(take_of(json_get(o, "take"@).unwrap())->Err_0))
        } else if json_get(o, "skip"@) matches Some(v) && skip_of(v) is Err {
            Some(Refusal::InvalidParams(skip_of(json_get(o, "skip"@).unwrap())->Err_0))
        } else if json_get(o, "cursor"@) matches Some(v) && !(v is Object) {
            Some(Refusal::InvalidParams("cursor must be an object"@))
        } else if selected_count(json_get(o, "select"@)) > 0 && loaded_count(json_get(o, relations_key)) > 0 {
            Some(Refusal::InvalidParams(projection_clash_message()))
        } else if json_get(o, "distinct"@) matches Some(v) && !(v is Array) {
            Some(Refusal::InvalidParams("'distinct' must be an array of field names"@))
        } else if json_get(o, "distinct"@) matches Some(Json::Array(items)) && !all_strings(items@) {
            Some(Refusal::InvalidParams("each entry in 'distinct' must be a string field name"@))
        } else {
            None
        },
    }
}

/// Whether `r` is what parsing the arguments `args` of `method` gives, where
/// `allowed` lists the keys the method accepts, `relations_key` is the one
/// naming the relations to load, `types` the model's field types, and `n`
/// the outcome of reading the nearest-neighbour search, where there is one.
pub open spec fn query_args_result(
    args: Option<Json>,
    method: Seq<char>,
    allowed: Seq<Seq<char>>,
    relations_key: Seq<char>,
    types: Seq<(String, ResolvedFieldType)>,
    n: Result<VectorNearestQuery, ProtocolError>,
    r: Result<QueryArgs, ProtocolError>,
) -> bool {
    match args {
        None => r matches Ok(q) && q.filter is None && q.order_by@.len() == 0 && q.take is None && q.skip is None
            && q.relations is None && q.select is None && q.cursor is None && !q.backward && q.distinct@.len() == 0
            && q.nearest is None,
        Some(Json::Object(o)) => match args_refusal(o@, method, allowed, relations_key, types) {
            Some(f) => r matches Err(e) && refused_with(e, f),
            None => {
                let nv = json_get(o@, "nearest"@);
                let take = match json_get(o@, "take"@) {
                    Some(v) => Some(take_of(v)->Ok_0),
                    None => None,
                };
                &&& (nv matches Some(v) ==> nearest_result(v, types, n))
                &&& if nv is Some && n is Err {
                    r == Err::<QueryArgs, ProtocolError>(n->Err_0)
                } else {
                    let distinct_len: nat = match json_get(o@, "distinct"@) {
                        Some(Json::Array(items)) => items@.len(),
                        _ => 0,
                    };
                    match nearest_refusal(
                        nv is Some,
                        match take {
                            Some(t) => Some(t.0),
                            None => None,
                        },
                        match take {
                            Some(t) => t.1,
                            None => false,
                        },
                        json_get(o@, "cursor"@) is Some,
                        distinct_len,
                    ) {
                        Some(m) => r matches Err(ProtocolError::InvalidParams(t)) && t@ == m,
                        None => r matches Ok(q) && parsed_as(q, o@, relations_key, types, take, nv, n),
                    }
                }
            },
        },
        _ => r matches Err(ProtocolError::InvalidParams(m)) && m@ == "args must be an object"@,
    }
}

/// Whether `q` holds what the accepted arguments `o` ask for.
pub open spec fn parsed_as(
    q: QueryArgs,
    o: Seq<(String, Json)>,
    relations_key: Seq<char>,
    types: Seq<(String, ResolvedFieldType)>,
    take: Option<(i32, bool)>,
    nv: Option<Json>,
    n: Result<VectorNearestQuery, ProtocolError>,
) -> bool {
    &&& opt_deep(q.filter) == opt_deep(json_get(o, "where"@))
    &&& opt_deep(q.relations) == opt_deep(json_get(o, relations_key))
    &&& opt_deep(q.select) == opt_deep(json_get(o, "select"@))
    &&& match json_get(o, "orderBy"@) {
        Some(v) => orders_are(q.order_by@, order_by_entries(v, Some(types))->Ok_0),
        None => q.order_by@.len() == 0,
    }
    &&& q.take == match take {
        Some(t) => Some(t.0),
        None => None,
    }
    &&& q.backward == match take {
        Some(t) => t.1,
        None => false,
    }
    &&& q.skip == match json_get(o, "skip"@) {
        Some(v) => Some(skip_of(v)->Ok_0),
        None => None,
    }
    &&& match json_get(o, "cursor"@) {
        Some(Json::Object(entries)) => q.cursor matches Some(pairs) && pairs@.len() == entries@.len() && forall|i: int|
            0 <= i < pairs@.len() ==> (#[trigger] pairs@[i]).0@ == entries@[i].0@ && converts_to(
                entries@[i].1,
                pairs@[i].1,
            ),
        _ => q.cursor is None,
    }
    &&& match json_get(o, "distinct"@) {
        Some(Json::Array(items)) => q.distinct@.len() == items@.len() && forall|i: int|
            0 <= i < items@.len() ==> items@[i] is String && (#[trigger] q.distinct@[i])@ == items@[i]->String_0@,
        _ => q.distinct@.len() == 0,
    }
    &&& q.nearest == match nv {
        Some(_) => Some(n->Ok_0),
        None => None,
    }
}

/// The view of an optional JSON value.
pub open spec fn opt_deep(j: Option<Json>) -> Option<JsonView> {
    match j {
        Some(x) => Some(x.deep()),
        None => None,
    }
}

/// The value behind an optional reference.
pub open spec fn opt_value(j: Option<&Json>) -> Option<Json> {
    match j {
        Some(x) => Some(*x),
        None => None,
    }
}

fn clone_opt(j: Option<&Json>) -> (r: Option<Json>)
    ensures
        opt_deep(r) == opt_deep(opt_value(j)),
{
    match j {
        Some(x) => Some(json_clone(x)),
        None => None,
    }
}

fn empty_args() -> (q: QueryArgs)
    ensures
        q.filter is None && q.order_by@.len() == 0 && q.take is None && q.skip is None && q.relations is None
            && q.select is None && q.cursor is None && !q.backward && q.distinct@.len() == 0 && q.nearest is None,
{
    QueryArgs {
        filter: None,
        order_by: Vec::new(),
        take: None,
        skip: None,
        relations: None,
        select: None,
        cursor: None,
        backward: false,
        distinct: Vec::new(),
        nearest: None,
    }
}

fn parse_take(v: &Json) -> (r: Result<(i32, bool), ProtocolError>)
    ensures
        match take_of(*v) {
            Ok(t) => r == Ok::<(i32, bool), ProtocolError>(t),
            Err(m) => r matches Err(ProtocolError::InvalidParams(t)) && t@ == m,
        },
{
    let n = match parse_signed_int(v, "take") {
        Ok(n) => n,
        Err(e) => {
            return Err(e);
        },
    };
    let magnitude: u64 = if n < 0 {
        let p: i64 = -(n + 1);
        (p as u64) + 1
    } else {
        n as u64
    };
    assert(magnitude == (if n < 0 { -(n as int) } else { n as int }));
    if magnitude <= 2147483647u64 {
        return Ok((magnitude as i32, n < 0));
    }
    let mut text = String::from_str("take must fit in a 32-bit integer, got ");
    if n < 0 {
        text.push_str("-");
    }
    push_u64(&mut text, magnitude);
    proof {
        reveal_strlit("-");
    }
    Err(ProtocolError::InvalidParams(text))
}

/// The fields a `select` argument enables, counted.
fn count_true_members(v: Option<&Json>) -> (r: usize)
    ensures
        r == selected_count(
            match v {
                Some(j) => Some(*j),
                None => None,
            },
        ),
{
    match v {
        Some(Json::Object(o)) => {
            let mut n: usize = 0;
            let mut i: usize = 0;
            while i < o.len()
                invariant
                    i <= o@.len(),
                    n == true_members(o@.take(i as int)),
                    n <= i,
                decreases o@.len() - i,
            {
                assert(o@.take(i + 1).drop_last() =~= o@.take(i as int));
                if let Json::Bool(true) = &o[i].1 {
                    n = n + 1;
                }
                i = i + 1;
            }
            assert(o@.take(o@.len() as int) =~= o@);
            n
        },
        _ => 0,
    }
}

/// The relations an argument naming relations to load asks for, counted.
fn count_loaded_members(v: Option<&Json>) -> (r: usize)
    ensures
        r == loaded_count(
            match v {
                Some(j) => Some(*j),
                None => None,
            },
        ),
{
    match v {
        Some(Json::Object(o)) => {
            let mut n: usize = 0;
            let mut i: usize = 0;
            while i < o.len()
                invariant
                    i <= o@.len(),
                    n == loaded_members(o@.take(i as int)),
                    n <= i,
                decreases o@.len() - i,
            {
                assert(o@.take(i + 1).drop_last() =~= o@.take(i as int));
                match &o[i].1 {
                    Json::Bool(false) => {},
                    _ => {
                        n = n + 1;
                    },
                }
                i = i + 1;
            }
            assert(o@.take(o@.len() as int) =~= o@);
            n
        },
        _ => 0,
    }
}

/// Parse the arguments `args` of the read `method`: `allowed` lists the keys
/// it accepts, `relations_key` is the one naming the relations to load (handed
/// on as it arrived, like `where` and `select`), and `field_types` are the
/// model's field types. `take` is read as a size and a direction: a
/// negative one reads backward.
#[verifier::loop_isolation(false)]
pub fn parse_query_args(
    args: Option<&Json>,
    method: &str,
    allowed: &[&str],
    relations_key: &str,
    field_types: &[(String, ResolvedFieldType)],
) -> (r: Result<QueryArgs, ProtocolError>)
    ensures
        exists|n: Result<VectorNearestQuery, ProtocolError>|
            query_args_result(opt_value(args), method@, name_views(allowed@), relations_key@, field_types@, n, r),
{
    let ghost al = name_views(allowed@);
    let ghost ts = field_types@;
    let o = match args {
        None => {
            let r = Ok(empty_args());
            assert(query_args_result(opt_value(args), method@, al, relations_key@, ts, arbitrary(), r));
            return r;
        },
        Some(Json::Object(o)) => o,
        Some(_) => {
            let r = Err(ProtocolError::InvalidParams(String::from_str("args must be an object")));
            assert(query_args_result(opt_value(args), method@, al, relations_key@, ts, arbitrary(), r));
            return r;
        },
    };
    let ghost ov = o@;
    match ensure_known_arg_keys(o, method, allowed) {
        Ok(()) => {},
        Err(e) => {
            let r = Err(e);
            assert(query_args_result(opt_value(args), method@, al, relations_key@, ts, arbitrary(), r));
            return r;
        },
    }
    let order_by = match json_get_ref(o, "orderBy") {
        Some(v) => match parse_order_by(v, Some(field_types)) {
            Ok(orders) => orders,
            Err(e) => {
                let r = Err(e);
                assert(query_args_result(opt_value(args), method@, al, relations_key@, ts, arbitrary(), r));
                return r;
            },
        },
        None => Vec::new(),
    };
    let (take, backward) = match json_get_ref(o, "take") {
        Some(v) => match parse_take(v) {
            Ok((t, b)) => (Some(t), b),
            Err(e) => {
                let r = Err(e);
                assert(query_args_result(opt_value(args), method@, al, relations_key@, ts, arbitrary(), r));
                return r;
            },
        },
        None => (None, false),
    };
    let skip = match json_get_ref(o, "skip") {
        Some(v) => match parse_int(v, "skip") {
            Ok(k) => Some(k),
            Err(e) => {
                let r = Err(e);
                assert(query_args_result(opt_value(args), method@, al, relations_key@, ts, arbitrary(), r));
                return r;
            },
        },
        None => None,
    };
    let cursor = match json_get_ref(o, "cursor") {
        Some(Json::Object(entries)) => {
            let mut pairs: Vec<(String, Value)> = Vec::new();
            let mut i: usize = 0;
            while i < entries.len()
                invariant
                    i <= entries@.len(),
                    pairs@.len() == i,
                    forall|j: int|
                        0 <= j < i ==> (#[trigger] pairs@[j]).0@ == entries@[j].0@ && converts_to(entries@[j].1, pairs@[j].1),
                decreases entries@.len() - i,
            {
                let v = match json_to_value(&entries[i].1) {
                    Ok(v) => v,
                    Err(_) => Value::Null,
                };
                pairs.push((String::from_str(entries[i].0.as_str()), v));
                i = i + 1;
            }
            Some(pairs)
        },
        Some(_) => {
            let r = Err(ProtocolError::InvalidParams(String::from_str("cursor must be an object")));
            assert(query_args_result(opt_value(args), method@, al, relations_key@, ts, arbitrary(), r));
            return r;
        },
        None => None,
    };
    let selected = count_true_members(json_get_ref(o, "select"));
    let loaded = count_loaded_members(json_get_ref(o, relations_key));
    if projection_clashes_with_relations(selected, loaded) {
        let r = Err(ProtocolError::InvalidParams(String::from_str(
            "'select' and 'include' cannot be used together. Use 'select' for projection only, or 'include' for relation loading.",
        )));
        proof {
            reveal_strlit("'select' and 'include' cannot be used together. Use 'select' for projection only, or 'include' for relation loading.");
        }
        assert(query_args_result(opt_value(args), method@, al, relations_key@, ts, arbitrary(), r));
        return r;
    }
    let distinct = match json_get_ref(o, "distinct") {
        Some(Json::Array(items)) => {
            let mut names: Vec<String> = Vec::new();
            let mut i: usize = 0;
            while i < items.len()
                invariant
                    i <= items@.len(),
                    names@.len() == i,
                    forall|j: int| 0 <= j < i ==> #[trigger] items@[j] is String,
                    forall|j: int| 0 <= j < i ==> (#[trigger] names@[j])@ == items@[j]->String_0@,
                decreases items@.len() - i,
            {
                let ghost before = names@;
                match &items[i] {
                    Json::String(s) => {
                        names.push(String::from_str(s.as_str()));
                        assert forall|j: int| 0 <= j <= i implies (#[trigger] names@[j])@ == items@[j]->String_0@ by {
                            if j < i {
                                assert(names@[j] == before[j]);
                            }
                        }
                    },
                    _ => {
                        let r = Err(
                            ProtocolError::InvalidParams(
                                String::from_str("each entry in 'distinct' must be a string field name"),
                            ),
                        );
                        assert(!all_strings(items@));
                        assert(query_args_result(opt_value(args), method@, al, relations_key@, ts, arbitrary(), r));
                        return r;
                    },
                }
                i = i + 1;
            }
            assert(all_strings(items@));
            names
        },
        Some(_) => {
            let r = Err(ProtocolError::InvalidParams(String::from_str("'distinct' must be an array of field names")));
            assert(query_args_result(opt_value(args), method@, al, relations_key@, ts, arbitrary(), r));
            return r;
        },
        None => Vec::new(),
    };
    assert(args_refusal(ov, method@, al, relations_key@, ts) is None);
    let nv = json_get_ref(o, "nearest");
    let ghost mut nres: Result<VectorNearestQuery, ProtocolError> = arbitrary();
    let nearest = match nv {
        Some(v) => {
            let parsed = parse_nearest_query(v, field_types);
            proof {
                nres = parsed;
            }
            match parsed {
                Ok(q) => Some(q),
                Err(e) => {
                    let r = Err(e);
                    assert(query_args_result(opt_value(args), method@, al, relations_key@, ts, nres, r));
                    return r;
                },
            }
        },
        None => None,
    };
    match ensure_nearest_supported(nearest.is_some(), take, backward, cursor.is_some(), distinct.as_slice()) {
        Ok(()) => {},
        Err(e) => {
            let r = Err(e);
            assert(query_args_result(opt_value(args), method@, al, relations_key@, ts, nres, r));
            return r;
        },
    }
    let q = QueryArgs {
        filter: clone_opt(json_get_ref(o, "where")),
        order_by,
        take,
        skip,
        relations: clone_opt(json_get_ref(o, relations_key)),
        select: clone_opt(json_get_ref(o, "select")),
        cursor,
        backward,
        distinct,
        nearest,
    };
    let r = Ok(q);
    assert(query_args_result(opt_value(args), method@, al, relations_key@, ts, nres, r));
    r
}

} // verus!
