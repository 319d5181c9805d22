//! The relations where neither model holds a foreign key: the links live in
//! a join table, so these operations run after the parent statement and add
//! or remove rows there. The operations that reach existing children are
//! narrowed to the relation's current members, so a caller's filter cannot
//! reach a child linked to another parent.
//!
//! The operations are planned here as [`JoinStep`]s; `join_run` decides each
//! store call a step makes, with the filters and rows built here.
use vstd::prelude::*;

use crate::ast::Value;
use crate::hydrate::{object_insert, plain_items, plain_json, plain_view};
use crate::inverse::{items_of, not_found_refusal, not_found_text, refusal_matches};
use crate::json::{deep_entries, deep_items, json_clone, lemma_deep_items_index, lemma_deep_items_len, Json, JsonView};
use crate::model::{json_get, json_get_ref, ManyToManyJoinIr, ModelIr};
use crate::nested_plan::{operation_views, NestedWrite};
use crate::ordered::map_insert;
use crate::payload::{payload_items, require_member, require_object};
use crate::protocol::{refused_with, ProtocolError, Refusal};
use crate::text::str_eq;

verus! {

/// One step of a many-to-many relation's operations, in order.
#[derive(Debug, PartialEq)]
pub enum JoinStep {
    /// Create a child from `data` and link it to the parent.
    Create { data: Json },
    /// Find the child `filter` names and link it, refusing with `missing`
    /// when there is none.
    Connect { filter: Json, missing: ProtocolError },
    /// Find the child `find` names and link it; when there is none, create
    /// one from `create` and link that, or stop with its refusal.
    ConnectOrCreate { find: Json, create: Result<Json, ProtocolError> },
    /// Unlink the parent's children that `narrowing` picks out (all of them
    /// without one).
    Unlink { narrowing: Option<Json> },
    /// Unlink every child of the parent.
    UnlinkAll,
    /// Update the parent's children that `narrowing` picks out with `data`;
    /// when none is updated and `missing` holds a refusal, stop with it.
    Update { narrowing: Option<Json>, data: Json, missing: Option<ProtocolError> },
    /// Delete the parent's children that `narrowing` picks out; the same rule
    /// for none.
    Delete { narrowing: Option<Json>, missing: Option<ProtocolError> },
    /// Stop with this refusal.
    Fail(ProtocolError),
}

/// A planned join step as mathematics sees it.
pub enum JoinView {
    Create(JsonView),
    Connect(JsonView, Refusal),
    ConnectOrCreate(JsonView, Result<JsonView, Refusal>),
    Unlink(Option<JsonView>),
    UnlinkAll,
    Update(Option<JsonView>, JsonView, Option<Refusal>),
    Delete(Option<JsonView>, Option<Refusal>),
    Fail(Refusal),
}

/// The view of an optional JSON value.
pub open spec fn opt_view(j: Option<Json>) -> Option<JsonView> {
    match j {
        Some(x) => Some(x.deep()),
        None => None,
    }
}

/// Whether the step `s` is the one `v` describes.
pub open spec fn join_step_matches(s: JoinStep, v: JoinView) -> bool {
    match v {
        JoinView::Create(d) => s matches JoinStep::Create { data } && data.deep() == d,
        JoinView::Connect(f, m) => s matches JoinStep::Connect { filter, missing } && filter.deep() == f && refused_with(
            missing,
            m,
        ),
        JoinView::ConnectOrCreate(f, c) => s matches JoinStep::ConnectOrCreate { find, create } && find.deep() == f
            && match c {
            Ok(d) => create matches Ok(x) && x.deep() == d,
            Err(m) => create matches Err(x) && refused_with(x, m),
        },
        JoinView::Unlink(n) => s matches JoinStep::Unlink { narrowing } && opt_view(narrowing) == n,
        JoinView::UnlinkAll => s is UnlinkAll,
        JoinView::Update(n, d, m) => s matches JoinStep::Update { narrowing, data, missing } && opt_view(narrowing) == n
            && data.deep() == d && refusal_matches(missing, m),
        JoinView::Delete(n, m) => s matches JoinStep::Delete { narrowing, missing } && opt_view(narrowing) == n
            && refusal_matches(missing, m),
        JoinView::Fail(m) => s matches JoinStep::Fail(e) && refused_with(e, m),
    }
}

/// What each filter of a removal narrows the relation's members by: nothing
/// for `true` or null, else each item.
pub open spec fn narrowings_of(payload: Json) -> Seq<Option<JsonView>> {
    match payload {
        Json::Bool(true) | Json::Null => seq![None],
        Json::Array(items) => items@.map_values(|i: Json| Some(i.deep())),
        _ => seq![Some(payload.deep())],
    }
}

/// The step one item of a per-item operation plans: `kind` 0 creates, 1
/// connects, 2 connects or creates, 3 updates under the operation `op`.
pub open spec fn join_item_step(kind: u8, op: Seq<char>, item: Json, field_name: Seq<char>, target: Seq<char>) -> JoinView {
    if kind == 0 {
        JoinView::Create(item.deep())
    } else if kind == 1 {
        JoinView::Connect(item.deep(), not_found_refusal("connect"@, field_name, target))
    } else if kind == 2 {
        match item {
            Json::Object(o) => match json_get(o@, "where"@) {
                Some(f) => JoinView::ConnectOrCreate(
                    f.deep(),
                    match json_get(o@, "create"@) {
                        Some(d) => Ok(d.deep()),
                        None => Err(Refusal::InvalidParams("connectOrCreate"@ + " needs a '"@ + "create"@ + "' entry"@)),
                    },
                ),
                None => JoinView::Fail(Refusal::InvalidParams("connectOrCreate"@ + " needs a '"@ + "where"@ + "' entry"@)),
            },
            _ => JoinView::Fail(Refusal::InvalidParams("connectOrCreate"@ + " must be an object"@)),
        }
    } else {
        match item {
            Json::Object(o) => match json_get(o@, "data"@) {
                Some(d) => JoinView::Update(
                    opt_view(json_get(o@, "where"@)),
                    d.deep(),
                    if op == "update"@ {
                        Some(not_found_refusal("update"@, field_name, target))
                    } else {
                        None
                    },
                ),
                None => JoinView::Fail(Refusal::InvalidParams(op + " needs a '"@ + "data"@ + "' entry"@)),
            },
            _ => JoinView::Fail(Refusal::InvalidParams(op + " must be an object"@)),
        }
    }
}

/// The steps one operation of a many-to-many relation plans.
pub open spec fn join_operation_steps(
    op: Seq<char>,
    payload: Json,
    model_name: Seq<char>,
    field_name: Seq<char>,
    target: Seq<char>,
) -> Seq<JoinView> {
    if op == "create"@ {
        items_of(payload).map_values(|it: Json| join_item_step(0, op, it, field_name, target))
    } else if op == "createMany"@ {
        match payload {
            Json::Object(o) => match json_get(o@, "data"@) {
                Some(d) => items_of(d).map_values(|it: Json| join_item_step(0, op, it, field_name, target)),
                None => seq![JoinView::Fail(Refusal::InvalidParams("createMany"@ + " needs a '"@ + "data"@ + "' entry"@))],
            },
            _ => seq![JoinView::Fail(Refusal::InvalidParams("createMany"@ + " must be an object"@))],
        }
    } else if op == "connect"@ {
        items_of(payload).map_values(|it: Json| join_item_step(1, op, it, field_name, target))
    } else if op == "connectOrCreate"@ {
        items_of(payload).map_values(|it: Json| join_item_step(2, op, it, field_name, target))
    } else if op == "disconnect"@ {
        narrowings_of(payload).map_values(|n: Option<JsonView>| JoinView::Unlink(n))
    } else if op == "set"@ {
        seq![JoinView::UnlinkAll] + items_of(payload).map_values(|it: Json| join_item_step(1, op, it, field_name, target))
    } else if op == "update"@ || op == "updateMany"@ {
        items_of(payload).map_values(|it: Json| join_item_step(3, op, it, field_name, target))
    } else if op == "delete"@ || op == "deleteMany"@ {
        narrowings_of(payload).map_values(
            |n: Option<JsonView>|
                JoinView::Delete(
                    n,
                    if op == "delete"@ {
                        Some(not_found_refusal("delete"@, field_name, target))
                    } else {
                        None
                    },
                ),
        )
    } else {
        seq![
            JoinView::Fail(
                Refusal::UnsupportedOperation(
                    "Nested '"@ + op + "' is not available on '"@ + model_name + "."@ + field_name + "'"@,
                ),
            ),
        ]
    }
}

/// The steps the operations plan, one operation after another.
pub open spec fn join_all_steps(ops: Seq<(Seq<char>, Json)>, model_name: Seq<char>, field_name: Seq<char>, target: Seq<char>) -> Seq<JoinView>
    decreases ops.len(),
{
    if ops.len() == 0 {
        Seq::empty()
    } else {
        join_all_steps(ops.drop_last(), model_name, field_name, target) + join_operation_steps(
            ops.last().0,
            ops.last().1,
            model_name,
            field_name,
            target,
        )
    }
}

fn join_item_exec(kind: u8, op: &str, item: &Json, field_name: &str, target: &str) -> (r: JoinStep)
    ensures
        join_step_matches(r, join_item_step(kind, op@, *item, field_name@, target@)),
{
    if kind == 0 {
        return JoinStep::Create { data: json_clone(item) };
    }
    if kind == 1 {
        return JoinStep::Connect { filter: json_clone(item), missing: not_found_text("connect", field_name, target) };
    }
    if kind == 2 {
        let object = match require_object(item, "connectOrCreate") {
            Ok(o) => o,
            Err(e) => {
                return JoinStep::Fail(e);
            },
        };
        let filter = match require_member(object, "where", "connectOrCreate") {
            Ok(f) => f,
            Err(e) => {
                return JoinStep::Fail(e);
            },
        };
        let create = match require_member(object, "create", "connectOrCreate") {
            Ok(d) => Ok(json_clone(d)),
            Err(e) => Err(e),
        };
        return JoinStep::ConnectOrCreate { find: json_clone(filter), create };
    }
    let object = match require_object(item, op) {
        Ok(o) => o,
        Err(e) => {
            return JoinStep::Fail(e);
        },
    };
    let data = match require_member(object, "data", op) {
        Ok(d) => d,
        Err(e) => {
            return JoinStep::Fail(e);
        },
    };
    let missing = if str_eq(op, "update") {
        Some(not_found_text("update", field_name, target))
    } else {
        None
    };
    let narrowing = match json_get_ref(object, "where") {
        Some(w) => Some(json_clone(w)),
        None => None,
    };
    JoinStep::Update { narrowing, data: json_clone(data), missing }
}

fn join_items(kind: u8, op: &str, payload: &Json, field_name: &str, target: &str) -> (r: Vec<JoinStep>)
    ensures
        r@.len() == items_of(*payload).len(),
        forall|j: int|
            0 <= j < r@.len() ==> #[trigger] join_step_matches(
                r@[j],
                join_item_step(kind, op@, items_of(*payload)[j], field_name@, target@),
            ),
{
    let items = payload_items(payload);
    let mut out: Vec<JoinStep> = Vec::new();
    let mut i: usize = 0;
    while i < items.len()
        invariant
            i <= items@.len(),
            items@.len() == items_of(*payload).len(),
            forall|j: int| 0 <= j < items@.len() ==> *#[trigger] items@[j] == items_of(*payload)[j],
            out@.len() == i,
            forall|j: int|
                0 <= j < i ==> #[trigger] join_step_matches(
                    out@[j],
                    join_item_step(kind, op@, items_of(*payload)[j], field_name@, target@),
                ),
        decreases items@.len() - i,
    {
        out.push(join_item_exec(kind, op, items[i], field_name, target));
        i = i + 1;
    }
    out
}

fn narrowings(payload: &Json) -> (r: Vec<Option<Json>>)
    ensures
        r@.len() == narrowings_of(*payload).len(),
        forall|j: int| 0 <= j < r@.len() ==> opt_view(#[trigger] r@[j]) == narrowings_of(*payload)[j],
{
    let mut out: Vec<Option<Json>> = Vec::new();
    match payload {
        Json::Bool(true) | Json::Null => {
            out.push(None);
        },
        Json::Array(items) => {
            let mut i: usize = 0;
            while i < items.len()
                invariant
                    i <= items@.len(),
                    *payload == Json::Array(*items),
                    out@.len() == i,
                    forall|j: int| 0 <= j < i ==> opt_view(#[trigger] out@[j]) == Some(items@[j].deep()),
                decreases items@.len() - i,
            {
                out.push(Some(json_clone(&items[i])));
                i = i + 1;
            }
        },
        _ => {
            out.push(Some(json_clone(payload)));
        },
    }
    out
}

/// The step one filter of a removal plans: an unlink, or a delete refused
/// when `required` and nothing matched.
pub open spec fn removal_view(
    disconnect: bool,
    required: bool,
    n: Option<JsonView>,
    field_name: Seq<char>,
    target: Seq<char>,
) -> JoinView {
    if disconnect {
        JoinView::Unlink(n)
    } else {
        JoinView::Delete(n, if required { Some(not_found_refusal("delete"@, field_name, target)) } else { None })
    }
}

fn removal_steps(disconnect: bool, required: bool, payload: &Json, field_name: &str, target: &str) -> (r: Vec<JoinStep>)
    ensures
        r@.len() == narrowings_of(*payload).len(),
        forall|j: int|
            0 <= j < r@.len() ==> #[trigger] join_step_matches(
                r@[j],
                removal_view(disconnect, required, narrowings_of(*payload)[j], field_name@, target@),
            ),
{
    let ns = narrowings(payload);
    let mut out: Vec<JoinStep> = Vec::new();
    let mut i: usize = 0;
    while i < ns.len()
        invariant
            i <= ns@.len(),
            ns@.len() == narrowings_of(*payload).len(),
            forall|j: int| 0 <= j < ns@.len() ==> opt_view(#[trigger] ns@[j]) == narrowings_of(*payload)[j],
            out@.len() == i,
            forall|j: int|
                0 <= j < i ==> #[trigger] join_step_matches(
                    out@[j],
                    removal_view(disconnect, required, narrowings_of(*payload)[j], field_name@, target@),
                ),
        decreases ns@.len() - i,
    {
        let narrowing = match &ns[i] {
            Some(n) => Some(json_clone(n)),
            None => None,
        };
        if disconnect {
            out.push(JoinStep::Unlink { narrowing });
        } else {
            let missing = if required {
                Some(not_found_text("delete", field_name, target))
            } else {
                None
            };
            out.push(JoinStep::Delete { narrowing, missing });
        }
        i = i + 1;
    }
    out
}

fn single_join_fail(e: ProtocolError) -> (r: Vec<JoinStep>)
    ensures
        r@.len() == 1,
        r@[0] == JoinStep::Fail(e),
{
    let mut v = Vec::new();
    v.push(JoinStep::Fail(e));
    v
}

fn join_operation_exec(op: &str, payload: &Json, model_name: &str, field_name: &str, target: &str) -> (r: Vec<JoinStep>)
    ensures
        r@.len() == join_operation_steps(op@, *payload, model_name@, field_name@, target@).len(),
        forall|j: int|
            0 <= j < r@.len() ==> #[trigger] join_step_matches(
                r@[j],
                join_operation_steps(op@, *payload, model_name@, field_name@, target@)[j],
            ),
{
    let ghost want = join_operation_steps(op@, *payload, model_name@, field_name@, target@);
    if str_eq(op, "create") {
        let r = join_items(0, op, payload, field_name, target);
        assert forall|j: int| 0 <= j < r@.len() implies #[trigger] join_step_matches(r@[j], want[j]) by {
            assert(want[j] == join_item_step(0, op@, items_of(*payload)[j], field_name@, target@));
        }
        return r;
    }
    if str_eq(op, "createMany") {
        let object = match require_object(payload, "createMany") {
            Ok(o) => o,
            Err(e) => {
                return single_join_fail(e);
            },
        };
        let data = match require_member(object, "data", "createMany") {
            Ok(d) => d,
            Err(e) => {
                return single_join_fail(e);
            },
        };
        let r = join_items(0, op, data, field_name, target);
        assert forall|j: int| 0 <= j < r@.len() implies #[trigger] join_step_matches(r@[j], want[j]) by {
            assert(want[j] == join_item_step(0, op@, items_of(*data)[j], field_name@, target@));
        }
        return r;
    }
    if str_eq(op, "connect") || str_eq(op, "connectOrCreate") {
        let kind: u8 = if str_eq(op, "connect") {
            1
        } else {
            2
        };
        let r = join_items(kind, op, payload, field_name, target);
        assert forall|j: int| 0 <= j < r@.len() implies #[trigger] join_step_matches(r@[j], want[j]) by {
            assert(want[j] == join_item_step(kind, op@, items_of(*payload)[j], field_name@, target@));
        }
        return r;
    }
    if str_eq(op, "disconnect") {
        let r = removal_steps(true, false, payload, field_name, target);
        assert forall|j: int| 0 <= j < r@.len() implies #[trigger] join_step_matches(r@[j], want[j]) by {
            assert(want[j] == JoinView::Unlink(narrowings_of(*payload)[j]));
            assert(join_step_matches(r@[j], removal_view(true, false, narrowings_of(*payload)[j], field_name@, target@)));
        }
        return r;
    }
    if str_eq(op, "set") {
        let mut v: Vec<JoinStep> = Vec::new();
        v.push(JoinStep::UnlinkAll);
        let mut rest = join_items(1, op, payload, field_name, target);
        let ghost tail = rest@;
        v.append(&mut rest);
        proof {
            assert(want.len() == 1 + items_of(*payload).len());
            assert forall|i: int| 0 <= i < v@.len() implies #[trigger] join_step_matches(v@[i], want[i]) by {
                if i >= 1 {
                    assert(v@[i] == tail[i - 1]);
                    assert(want[i] == join_item_step(1, op@, items_of(*payload)[i - 1], field_name@, target@));
                    assert(join_step_matches(tail[i - 1], join_item_step(1, op@, items_of(*payload)[i - 1], field_name@, target@)));
                } else {
                    assert(want[0] == JoinView::UnlinkAll);
                }
            }
        }
        return v;
    }
    if str_eq(op, "update") || str_eq(op, "updateMany") {
        let r = join_items(3, op, payload, field_name, target);
        assert forall|j: int| 0 <= j < r@.len() implies #[trigger] join_step_matches(r@[j], want[j]) by {
            assert(want[j] == join_item_step(3, op@, items_of(*payload)[j], field_name@, target@));
        }
        return r;
    }
    if str_eq(op, "delete") || str_eq(op, "deleteMany") {
        let required = str_eq(op, "delete");
        let r = removal_steps(false, required, payload, field_name, target);
        assert forall|j: int| 0 <= j < r@.len() implies #[trigger] join_step_matches(r@[j], want[j]) by {
            assert(want[j] == JoinView::Delete(
                narrowings_of(*payload)[j],
                if op@ == "delete"@ {
                    Some(not_found_refusal("delete"@, field_name@, target@))
                } else {
                    None
                },
            ));
            assert(join_step_matches(r@[j], removal_view(false, required, narrowings_of(*payload)[j], field_name@, target@)));
        }
        return r;
    }
    let mut m = String::from_str("Nested '");
    m.push_str(op);
    m.push_str("' is not available on '");
    m.push_str(model_name);
    m.push_str(".");
    m.push_str(field_name);
    m.push_str("'");
    single_join_fail(ProtocolError::UnsupportedOperation(m))
}

/// Plan the operations of one many-to-many relation of `model`, once the
/// parent row exists: each operation in turn, as the steps that link,
/// unlink, update or delete the parent's children.
pub fn many_to_many_steps(model: &ModelIr, write: &NestedWrite) -> (r: Vec<JoinStep>)
    ensures
        r@.len() == join_all_steps(
            operation_views(write.operations@),
            model.logical_name@,
            write.field_name@,
            write.binding.target_model@,
        ).len(),
        forall|i: int|
            0 <= i < r@.len() ==> #[trigger] join_step_matches(
                r@[i],
                join_all_steps(
                    operation_views(write.operations@),
                    model.logical_name@,
                    write.field_name@,
                    write.binding.target_model@,
                )[i],
            ),
{
    let ghost ops = operation_views(write.operations@);
    let ghost mn = model.logical_name@;
    let ghost fnm = write.field_name@;
    let ghost tg = write.binding.target_model@;
    let mut steps: Vec<JoinStep> = Vec::new();
    let mut k: usize = 0;
    assert(ops.take(0) =~= Seq::<(Seq<char>, Json)>::empty());
    while k < write.operations.len()
        invariant
            k <= write.operations@.len(),
            ops == operation_views(write.operations@),
            ops.len() == write.operations@.len(),
            mn == model.logical_name@,
            fnm == write.field_name@,
            tg == write.binding.target_model@,
            steps@.len() == join_all_steps(ops.take(k as int), mn, fnm, tg).len(),
            forall|i: int|
                0 <= i < steps@.len() ==> #[trigger] join_step_matches(
                    steps@[i],
                    join_all_steps(ops.take(k as int), mn, fnm, tg)[i],
                ),
        decreases write.operations@.len() - k,
    {
        let (op, payload) = write.operations[k];
        let mut more = join_operation_exec(
            op,
            payload,
            model.logical_name.as_str(),
            write.field_name,
            write.binding.target_model.as_str(),
        );
        let ghost before = steps@;
        let ghost added = more@;
        steps.append(&mut more);
        proof {
            let t = ops.take(k + 1);
            assert(t.drop_last() =~= ops.take(k as int));
            assert(t.last() == (op@, *payload));
            let w = join_all_steps(t, mn, fnm, tg);
            assert(w == join_all_steps(ops.take(k as int), mn, fnm, tg) + join_operation_steps(op@, *payload, mn, fnm, tg));
            assert forall|i: int| 0 <= i < steps@.len() implies #[trigger] join_step_matches(steps@[i], w[i]) by {
                if i < before.len() {
                    assert(join_step_matches(before[i], join_all_steps(ops.take(k as int), mn, fnm, tg)[i]));
                } else {
                    assert(join_step_matches(
                        added[i - before.len()],
                        join_operation_steps(op@, *payload, mn, fnm, tg)[i - before.len()],
                    ));
                }
            }
        }
        k = k + 1;
    }
    assert(ops.take(ops.len() as int) =~= ops);
    steps
}

/// The filter naming the parent's links: its key in the join table's own
/// column.
pub fn linked_filter(join: &ManyToManyJoinIr, parent_key: &Value) -> (r: Json)
    ensures
        r.deep() == JsonView::Object(seq![(join.self_column@, plain_view(*parent_key))]),
{
    let mut entries: Vec<(String, Json)> = Vec::new();
    entries.push((String::from_str(join.self_column.as_str()), plain_json(parent_key)));
    assert(entries@.drop_last() =~= Seq::<(String, Json)>::empty());
    proof {
        reveal_with_fuel(deep_entries, 3);
    }
    assert(deep_entries(entries@) =~= seq![(join.self_column@, plain_view(*parent_key))]);
    Json::Object(entries)
}

/// The row linking the parent to a child: each key in its join-table
/// column, the members in key order.
pub fn link_row(join: &ManyToManyJoinIr, parent_key: &Value, child_key: &Value) -> (r: Json)
    ensures
        r.deep() == JsonView::Object(
            map_insert(
                map_insert(Seq::empty(), join.self_column@, plain_view(*parent_key)),
                join.target_column@,
                plain_view(*child_key),
            ),
        ),
{
    let mut entries: Vec<(String, Json)> = Vec::new();
    assert(deep_entries(entries@) =~= Seq::<(Seq<char>, JsonView)>::empty());
    object_insert(&mut entries, join.self_column.as_str(), plain_json(parent_key));
    object_insert(&mut entries, join.target_column.as_str(), plain_json(child_key));
    Json::Object(entries)
}

fn plain_list(values: &[Value]) -> (r: Vec<Json>)
    ensures
        deep_items(r@) == plain_items(values@),
{
    let mut out: Vec<Json> = Vec::new();
    let mut i: usize = 0;
    while i < values.len()
        invariant
            i <= values@.len(),
            deep_items(out@) == plain_items(values@.take(i as int)),
        decreases values@.len() - i,
    {
        let ghost before = out@;
        out.push(plain_json(&values[i]));
        proof {
            assert(out@.drop_last() =~= before);
            assert(values@.take(i + 1).drop_last() =~= values@.take(i as int));
        }
        i = i + 1;
    }
    assert(values@.take(values@.len() as int) =~= values@);
    out
}

/// The filter picking out the relation's current members, `{target: {in:
/// members}}`, by the key each stores in the join table.
pub fn member_filter(join: &ManyToManyJoinIr, members: &[Json]) -> (r: Json)
    ensures
        r.deep() == JsonView::Object(
            seq![(join.target_reference@, JsonView::Object(seq![("in"@, JsonView::Array(deep_items(members@)))]))],
        ),
{
    let mut items: Vec<Json> = Vec::new();
    let mut i: usize = 0;
    while i < members.len()
        invariant
            i <= members@.len(),
            deep_items(items@) == deep_items(members@.take(i as int)),
        decreases members@.len() - i,
    {
        let ghost before = items@;
        items.push(json_clone(&members[i]));
        proof {
            assert(items@.drop_last() =~= before);
            assert(members@.take(i + 1).drop_last() =~= members@.take(i as int));
        }
        i = i + 1;
    }
    assert(members@.take(members@.len() as int) =~= members@);
    let ghost iv = deep_items(items@);
    let list = Json::Array(items);
    assert(list.deep() == JsonView::Array(iv));
    let mut inner: Vec<(String, Json)> = Vec::new();
    inner.push((String::from_str("in"), list));
    proof {
        reveal_with_fuel(deep_entries, 3);
        assert(inner@.drop_last() =~= Seq::<(String, Json)>::empty());
        assert(deep_entries(inner@) =~= seq![("in"@, JsonView::Array(iv))]);
    }
    let inner_json = Json::Object(inner);
    let ghost inner_view = inner_json.deep();
    assert(inner_view == JsonView::Object(seq![("in"@, JsonView::Array(deep_items(members@)))]));
    let mut outer: Vec<(String, Json)> = Vec::new();
    outer.push((String::from_str(join.target_reference.as_str()), inner_json));
    proof {
        reveal_with_fuel(deep_entries, 3);
        assert(outer@.drop_last() =~= Seq::<(String, Json)>::empty());
        assert(deep_entries(outer@) =~= seq![(join.target_reference@, inner_view)]);
    }
    Json::Object(outer)
}

/// The filter removing the parent's links to the children with
/// `child_keys`, or nothing when there are none.
pub fn unlink_filter(join: &ManyToManyJoinIr, parent_key: &Value, child_keys: &[Value]) -> (r: Option<Json>)
    ensures
        child_keys@.len() == 0 <==> r is None,
        r matches Some(f) ==> f.deep() == JsonView::Object(
            seq![
                (join.self_column@, plain_view(*parent_key)),
                (join.target_column@, JsonView::Object(seq![("in"@, JsonView::Array(plain_items(child_keys@)))])),
            ],
        ),
{
    if child_keys.len() == 0 {
        return None;
    }
    let items = plain_list(child_keys);
    let list = Json::Array(items);
    assert(list.deep() == JsonView::Array(plain_items(child_keys@)));
    let mut inner: Vec<(String, Json)> = Vec::new();
    inner.push((String::from_str("in"), list));
    proof {
        reveal_with_fuel(deep_entries, 3);
        assert(inner@.drop_last() =~= Seq::<(String, Json)>::empty());
        assert(deep_entries(inner@) =~= seq![("in"@, JsonView::Array(plain_items(child_keys@)))]);
    }
    let inner_json = Json::Object(inner);
    let ghost inner_view = inner_json.deep();
    let pk = plain_json(parent_key);
    let mut entries: Vec<(String, Json)> = Vec::new();
    entries.push((String::from_str(join.self_column.as_str()), pk));
    entries.push((String::from_str(join.target_column.as_str()), inner_json));
    proof {
        reveal_with_fuel(deep_entries, 3);
        assert(entries@.drop_last().drop_last() =~= Seq::<(String, Json)>::empty());
        assert(deep_entries(entries@) =~= seq![(join.self_column@, plain_view(*parent_key)), (join.target_column@, inner_view)]);
    }
    Some(Json::Object(entries))
}

} // verus!
