//! The shapes a nested-operation payload may take: a single object, an array
//! of them, or `true` for every child, with filters written bare or wrapped in
//! `{ "where": ... }`.
use vstd::prelude::*;

use crate::json::{
    deep_entries, deep_items, json_clone, lemma_deep_entries_index, lemma_deep_entries_len, Json, JsonView,
};
use crate::model::{json_get, json_get_ref};
use crate::protocol::{filter_body, message, protocol_filter_body, ProtocolError};
use crate::text::str_eq;

verus! {

/// One payload, or each element of an array of them.
pub fn payload_items(payload: &Json) -> (r: Vec<&Json>)
    ensures
        match *payload {
            Json::Array(items) => r@.len() == items@.len() && forall|i: int|
                0 <= i < items@.len() ==> *#[trigger] r@[i] == items@[i],
            _ => r@.len() == 1 && *r@[0] == *payload,
        },
{
    match payload {
        Json::Array(items) => {
            let mut r: Vec<&Json> = Vec::new();
            let mut i: usize = 0;
            while i < items.len()
                invariant
                    i <= items@.len(),
                    r@.len() == i,
                    forall|j: int| 0 <= j < i ==> *#[trigger] r@[j] == items@[j],
                decreases items@.len() - i,
            {
                r.push(&items[i]);
                i = i + 1;
            }
            r
        },
        other => {
            let mut r: Vec<&Json> = Vec::new();
            r.push(other);
            r
        },
    }
}

/// The members of `value`, which must be an object.
pub fn require_object<'a>(value: &'a Json, context: &str) -> (r: Result<&'a Vec<(String, Json)>, ProtocolError>)
    ensures
        match *value {
            Json::Object(entries) => r matches Ok(e) && *e == entries,
            _ => r matches Err(ProtocolError::InvalidParams(m)) && m@ == context@ + " must be an object"@,
        },
{
    match value {
        Json::Object(entries) => Ok(entries),
        _ => Err(ProtocolError::InvalidParams(message(context, " must be an object"))),
    }
}

/// The member `key` of an object, which must be present.
pub fn require_member<'a>(object: &'a Vec<(String, Json)>, key: &str, context: &str) -> (r: Result<&'a Json, ProtocolError>)
    ensures
        match json_get(object@, key@) {
            Some(v) => r matches Ok(x) && *x == v,
            None => r matches Err(ProtocolError::InvalidParams(m)) && m@ == context@ + " needs a '"@
                + key@ + "' entry"@,
        },
{
    match json_get_ref(object, key) {
        Some(v) => Ok(v),
        None => {
            let mut m = String::from_str(context);
            m.push_str(" needs a '");
            m.push_str(key);
            m.push_str("' entry");
            Err(ProtocolError::InvalidParams(m))
        },
    }
}

/// A filter written bare or wrapped in `{ "where": ... }`, unwrapped.
pub fn unwrap_where(value: &Json) -> (r: Json)
    ensures
        r.deep() == filter_body(*value).deep(),
{
    json_clone(protocol_filter_body(value))
}

/// `scope` narrowed by a non-empty filter object `extra`.
pub open spec fn scoped_view(scope: JsonView, extra: Option<Json>) -> JsonView {
    match extra {
        Some(Json::Object(entries)) => if entries@.len() > 0 {
            JsonView::Object(
                seq![("AND"@, JsonView::Array(seq![scope, filter_body(Json::Object(entries)).deep()]))],
            )
        } else {
            scope
        },
        _ => scope,
    }
}

/// Narrow `scope` with a filter the caller supplied, which can only ever
/// restrict it further.
pub fn scoped_filter(scope: Json, extra: Option<&Json>) -> (r: Json)
    ensures
        r.deep() == scoped_view(
            scope.deep(),
            match extra {
                Some(e) => Some(*e),
                None => None,
            },
        ),
{
    match extra {
        Some(e) => {
            let nonempty = match e {
                Json::Object(entries) => entries.len() > 0,
                _ => false,
            };
            if nonempty {
                let ghost sv = scope.deep();
                let inner = unwrap_where(e);
                let mut items: Vec<Json> = Vec::new();
                items.push(scope);
                items.push(inner);
                let array = Json::Array(items);
                proof {
                    reveal_with_fuel(deep_items, 3);
                    assert(items@.drop_last() =~= seq![items@[0]]);
                    assert(seq![items@[0]].drop_last() =~= Seq::<Json>::empty());
                    assert(deep_items(seq![items@[0]]) =~= seq![sv]);
                    assert(deep_items(items@) =~= seq![sv, filter_body(*e).deep()]);
                }
                let mut entries: Vec<(String, Json)> = Vec::new();
                entries.push((String::from_str("AND"), array));
                proof {
                    reveal_with_fuel(deep_entries, 2);
                    assert(entries@.drop_last() =~= Seq::<(String, Json)>::empty());
                    assert(deep_entries(entries@) =~= seq![("AND"@, array.deep())]);
                }
                Json::Object(entries)
            } else {
                scope
            }
        },
        None => scope,
    }
}

/// The filters of a nested operation that addresses children: `true` or no
/// payload means every child of this parent, otherwise each filter narrows the
/// parent link.
pub fn child_filters(payload: &Json, link: &Json) -> (r: Vec<Json>)
    ensures
        match *payload {
            Json::Bool(true) | Json::Null => r@.len() == 1 && r@[0].deep() == link.deep(),
            Json::Array(items) => r@.len() == items@.len() && forall|i: int|
                0 <= i < items@.len() ==> (#[trigger] r@[i]).deep() == scoped_view(link.deep(), Some(items@[i])),
            _ => r@.len() == 1 && r@[0].deep() == scoped_view(link.deep(), Some(*payload)),
        },
{
    let mut r: Vec<Json> = Vec::new();
    match payload {
        Json::Bool(true) | Json::Null => {
            r.push(json_clone(link));
        },
        Json::Array(items) => {
            let mut i: usize = 0;
            while i < items.len()
                invariant
                    i <= items@.len(),
                    r@.len() == i,
                    forall|j: int| 0 <= j < i ==> (#[trigger] r@[j]).deep() == scoped_view(link.deep(), Some(items@[j])),
                decreases items@.len() - i,
            {
                r.push(scoped_filter(json_clone(link), Some(&items[i])));
                i = i + 1;
            }
        },
        other => {
            r.push(scoped_filter(json_clone(link), Some(other)));
        },
    }
    r
}

/// The index of the first member of `entries` from `k` on named `key`.
pub open spec fn member_index(entries: Seq<(Seq<char>, JsonView)>, key: Seq<char>, k: int) -> Option<int>
    decreases entries.len() - k,
{
    if k < 0 || k >= entries.len() {
        None
    } else if entries[k].0 == key {
        Some(k)
    } else {
        member_index(entries, key, k + 1)
    }
}

/// `entries` with `key` set to `value`: in place when the key is present,
/// else appended.
pub open spec fn with_member(entries: Seq<(Seq<char>, JsonView)>, key: Seq<char>, value: JsonView) -> Seq<(Seq<char>, JsonView)> {
    match member_index(entries, key, 0) {
        Some(i) => entries.update(i, (key, value)),
        None => entries.push((key, value)),
    }
}

/// `entries` with every member of `link` set in turn.
pub open spec fn with_members(entries: Seq<(Seq<char>, JsonView)>, link: Seq<(Seq<char>, JsonView)>) -> Seq<(Seq<char>, JsonView)>
    decreases link.len(),
{
    if link.len() == 0 {
        entries
    } else {
        let prefix = with_members(entries, link.drop_last());
        with_member(prefix, link.last().0, link.last().1)
    }
}

fn set_member(data: &mut Vec<(String, Json)>, key: &str, value: Json)
    ensures
        deep_entries(final(data)@) == with_member(deep_entries(old(data)@), key@, value.deep()),
{
    let ghost d0 = deep_entries(data@);
    proof {
        lemma_deep_entries_len(data@);
    }
    let n = data.len();
    let mut i: usize = 0;
    while i < n
        invariant
            i <= n,
            n == data@.len(),
            d0 == deep_entries(data@),
            d0 == deep_entries(old(data)@),
            d0.len() == n,
            member_index(d0, key@, 0) == member_index(d0, key@, i as int),
        decreases n - i,
    {
        proof {
            lemma_deep_entries_index(data@, i as int);
        }
        if str_eq(data[i].0.as_str(), key) {
            let ghost before = data@;
            let ghost nv = value.deep();
            data.set(i, (String::from_str(key), value));
            proof {
                assert forall|j: int| 0 <= j < n implies #[trigger] deep_entries(data@)[j] == d0.update(i as int, (key@, nv))[j] by {
                    lemma_deep_entries_index(data@, j);
                    lemma_deep_entries_index(before, j);
                }
                lemma_deep_entries_len(data@);
                assert(deep_entries(data@) =~= d0.update(i as int, (key@, nv)));
                assert(member_index(d0, key@, i as int) == Some(i as int));
            }
            return;
        }
        i = i + 1;
    }
    let ghost before = data@;
    data.push((String::from_str(key), value));
    proof {
        assert(data@.drop_last() =~= before);
    }
}

/// The `data` of a created child, with the columns pointing it at the parent.
pub fn merge_link(item: &Json, link: &Json, field_name: &str) -> (r: Result<Json, ProtocolError>)
    ensures
        match *item {
            Json::Object(entries) => r matches Ok(data) && data.deep() == JsonView::Object(
                match *link {
                    Json::Object(members) => with_members(deep_entries(entries@), deep_entries(members@)),
                    _ => deep_entries(entries@),
                },
            ),
            _ => r matches Err(ProtocolError::InvalidParams(m)) && m@ == "Nested create on '"@
                + field_name@ + "' must be an object or an array of objects"@,
        },
{
    let entries = match item {
        Json::Object(entries) => entries,
        _ => {
            let mut m = String::from_str("Nested create on '");
            m.push_str(field_name);
            m.push_str("' must be an object or an array of objects");
            return Err(ProtocolError::InvalidParams(m));
        },
    };
    let copied = json_clone(item);
    let mut data: Vec<(String, Json)> = match copied {
        Json::Object(d) => d,
        _ => Vec::new(),
    };
    assert(deep_entries(data@) == deep_entries(entries@));
    if let Json::Object(members) = link {
        let mut i: usize = 0;
        while i < members.len()
            invariant
                i <= members@.len(),
                deep_entries(data@) == with_members(deep_entries(entries@), deep_entries(members@.take(i as int))),
            decreases members@.len() - i,
        {
            assert(members@.take(i + 1).drop_last() =~= members@.take(i as int));
            proof {
                lemma_deep_entries_index(members@.take(i + 1), i as int);
                lemma_deep_entries_len(members@.take(i + 1));
                assert(deep_entries(members@.take(i + 1)).drop_last() == deep_entries(members@.take(i as int)));
            }
            let v = json_clone(&members[i].1);
            set_member(&mut data, members[i].0.as_str(), v);
            i = i + 1;
        }
        assert(members@.take(members@.len() as int) =~= members@);
    }
    Ok(Json::Object(data))
}

} // verus!
