//! The side where the related model holds the foreign key: the parent row
//! must exist before its children can point at it, so these operations run
//! after the parent statement. Every one is scoped to the parent's key, so a
//! filter the caller supplies can only narrow the rows the relation reaches.
//!
//! The operations are planned here as a list of writes against the related
//! model; whoever runs them performs each write in turn, settles it with
//! [`settle`] or [`ChildStep::resolve`], and stops at the first refusal.
use vstd::prelude::*;

use crate::json::{deep_entries, json_clone, Json, JsonView};
use crate::model::{json_get, json_get_ref, ModelIr, Row};
use crate::nested_plan::{members_with, operation_views, NestedWrite};
use crate::hydrate::{lemma_plain_view_deep, plain_view};
use crate::owning::lemma_key_members_pairs;
use crate::payload::{
    child_filters, merge_link, payload_items, require_member, require_object, scoped_filter, scoped_view,
    unwrap_where, with_members,
};
use crate::protocol::{filter_body, refused_with, ProtocolError, Refusal};
use crate::relation::{
    key_cell, key_filter, key_values_refusal, null_key_data, null_members, row_key_pairs, row_key_values,
};
use crate::text::str_eq;

verus! {

/// One write against the related model, in the order the operations run.
#[derive(Debug, PartialEq)]
pub enum ChildStep {
    /// Create a related row from `data`.
    Create { data: Json },
    /// Update the rows `filter` matches with `data`; when none matches and
    /// `missing` holds a refusal, stop with it.
    Update { filter: Json, data: Json, missing: Option<ProtocolError> },
    /// Delete the rows `filter` matches; the same rule for none.
    Delete { filter: Json, missing: Option<ProtocolError> },
    /// Look for a row matching `find`: when there is one, point the rows
    /// `connect` matches at the parent by writing `link` into them (refusing
    /// with `missing` when none is updated); otherwise create one from
    /// `create`, or stop with its refusal.
    ConnectOrCreate { find: Json, connect: Json, link: Json, missing: ProtocolError, create: Result<Json, ProtocolError> },
    /// Stop with this refusal.
    Fail(ProtocolError),
}

/// A planned write as mathematics sees it.
pub enum StepView {
    Create(JsonView),
    Update { filter: JsonView, data: JsonView, missing: Option<Refusal> },
    Delete { filter: JsonView, missing: Option<Refusal> },
    ConnectOrCreate { find: JsonView, connect: JsonView, link: JsonView, missing: Refusal, create: Result<JsonView, Refusal> },
    Fail(Refusal),
}

/// What the planned writes of one relation depend on: the names the
/// refusals quote, the filter linking a child to the parent, and the data
/// that clears that link.
pub struct StepContext {
    pub model_name: Seq<char>,
    pub field_name: Seq<char>,
    pub target: Seq<char>,
    pub link: JsonView,
    pub nulls: JsonView,
}

/// Whether `e` is the optional refusal `f`.
pub open spec fn refusal_matches(e: Option<ProtocolError>, f: Option<Refusal>) -> bool {
    match f {
        None => e is None,
        Some(f) => e matches Some(x) && refused_with(x, f),
    }
}

/// Whether the planned write `s` is the one `v` describes.
pub open spec fn step_matches(s: ChildStep, v: StepView) -> bool {
    match v {
        StepView::Create(d) => s matches ChildStep::Create { data } && data.deep() == d,
        StepView::Update { filter, data, missing } => s matches ChildStep::Update { filter: f, data: d, missing: m }
            && f.deep() == filter && d.deep() == data && refusal_matches(m, missing),
        StepView::Delete { filter, missing } => s matches ChildStep::Delete { filter: f, missing: m } && f.deep() == filter
            && refusal_matches(m, missing),
        StepView::ConnectOrCreate { find, connect, link, missing, create } => s matches ChildStep::ConnectOrCreate {
            find: a,
            connect: b,
            link: c,
            missing: m,
            create: k,
        } && a.deep() == find && b.deep() == connect && c.deep() == link && refused_with(m, missing) && match create {
            Ok(d) => k matches Ok(x) && x.deep() == d,
            Err(f) => k matches Err(x) && refused_with(x, f),
        },
        StepView::Fail(f) => s matches ChildStep::Fail(e) && refused_with(e, f),
    }
}

/// Whether the planned writes `ss` are the ones `vs` describes, one for one.
pub open spec fn steps_match(ss: Seq<ChildStep>, vs: Seq<StepView>) -> bool {
    ss.len() == vs.len() && forall|i: int| 0 <= i < ss.len() ==> #[trigger] step_matches(ss[i], vs[i])
}

/// The refusal for an operation that reached no row.
pub open spec fn not_found_refusal(operation: Seq<char>, field_name: Seq<char>, target: Seq<char>) -> Refusal {
    Refusal::RecordNotFound(
        "Nested "@ + operation + " on '"@ + field_name + "' matched no '"@ + target + "' record"@,
    )
}

/// The items of a payload: an array's elements, or the payload itself.
pub open spec fn items_of(payload: Json) -> Seq<Json> {
    match payload {
        Json::Array(items) => items@,
        _ => seq![payload],
    }
}

/// The filters a removal reaches through the link: the whole link for
/// `true` or null, else each item narrowing it.
pub open spec fn filters_of(payload: Json, link: JsonView) -> Seq<JsonView> {
    match payload {
        Json::Bool(true) | Json::Null => seq![link],
        Json::Array(items) => items@.map_values(|i: Json| scoped_view(link, Some(i))),
        _ => seq![scoped_view(link, Some(payload))],
    }
}

/// The data a nested create writes from `item`, the link merged in, or its
/// refusal.
pub open spec fn merged_view(item: Json, link: JsonView, field_name: Seq<char>) -> Result<JsonView, Refusal> {
    match item {
        Json::Object(entries) => Ok(
            JsonView::Object(
                match link {
                    JsonView::Object(members) => with_members(deep_entries(entries@), members),
                    _ => deep_entries(entries@),
                },
            ),
        ),
        _ => Err(
            Refusal::InvalidParams(
                "Nested create on '"@ + field_name + "' must be an object or an array of objects"@,
            ),
        ),
    }
}

/// The write creating a child from `item`.
pub open spec fn create_step(item: Json, c: StepContext) -> StepView {
    match merged_view(item, c.link, c.field_name) {
        Ok(d) => StepView::Create(d),
        Err(f) => StepView::Fail(f),
    }
}

/// The write pointing the child `item` finds at the parent.
pub open spec fn connect_step(item: Json, c: StepContext) -> StepView {
    StepView::Update {
        filter: filter_body(item).deep(),
        data: c.link,
        missing: Some(not_found_refusal("connect"@, c.field_name, c.target)),
    }
}

/// The write connecting the child `item` names, or creating it.
pub open spec fn connect_or_create_step(item: Json, c: StepContext) -> StepView {
    match item {
        Json::Object(o) => match json_get(o@, "where"@) {
            Some(f) => StepView::ConnectOrCreate {
                find: f.deep(),
                connect: filter_body(f).deep(),
                link: c.link,
                missing: not_found_refusal("connect"@, c.field_name, c.target),
                create: match json_get(o@, "create"@) {
                    Some(d) => merged_view(d, c.link, c.field_name),
                    None => Err(Refusal::InvalidParams("connectOrCreate"@ + " needs a '"@ + "create"@ + "' entry"@)),
                },
            },
            None => StepView::Fail(Refusal::InvalidParams("connectOrCreate"@ + " needs a '"@ + "where"@ + "' entry"@)),
        },
        _ => StepView::Fail(Refusal::InvalidParams("connectOrCreate"@ + " must be an object"@)),
    }
}

/// The write an `update` or `updateMany` item asks for, narrowed to the
/// parent's children.
pub open spec fn update_step(item: Json, op: Seq<char>, c: StepContext) -> StepView {
    match item {
        Json::Object(o) => match json_get(o@, "data"@) {
            Some(d) => StepView::Update {
                filter: scoped_view(c.link, json_get(o@, "where"@)),
                data: d.deep(),
                missing: if op == "update"@ {
                    Some(not_found_refusal("update"@, c.field_name, c.target))
                } else {
                    None
                },
            },
            None => StepView::Fail(Refusal::InvalidParams(op + " needs a '"@ + "data"@ + "' entry"@)),
        },
        _ => StepView::Fail(Refusal::InvalidParams(op + " must be an object"@)),
    }
}

/// The writes one operation plans.
pub open spec fn operation_steps(op: Seq<char>, payload: Json, c: StepContext) -> Seq<StepView> {
    if op == "create"@ {
        items_of(payload).map_values(|it: Json| create_step(it, c))
    } else if op == "createMany"@ {
        match payload {
            Json::Object(o) => match json_get(o@, "data"@) {
                Some(d) => items_of(d).map_values(|it: Json| create_step(it, c)),
                None => seq![StepView::Fail(Refusal::InvalidParams("createMany"@ + " needs a '"@ + "data"@ + "' entry"@))],
            },
            _ => seq![StepView::Fail(Refusal::InvalidParams("createMany"@ + " must be an object"@))],
        }
    } else if op == "connect"@ {
        items_of(payload).map_values(|it: Json| connect_step(it, c))
    } else if op == "connectOrCreate"@ {
        items_of(payload).map_values(|it: Json| connect_or_create_step(it, c))
    } else if op == "disconnect"@ {
        filters_of(payload, c.link).map_values(|f: JsonView| StepView::Update { filter: f, data: c.nulls, missing: None })
    } else if op == "set"@ {
        seq![StepView::Update { filter: c.link, data: c.nulls, missing: None }] + items_of(payload).map_values(
            |it: Json| connect_step(it, c),
        )
    } else if op == "update"@ || op == "updateMany"@ {
        items_of(payload).map_values(|it: Json| update_step(it, op, c))
    } else if op == "delete"@ || op == "deleteMany"@ {
        filters_of(payload, c.link).map_values(
            |f: JsonView|
                StepView::Delete {
                    filter: f,
                    missing: if op == "delete"@ {
                        Some(not_found_refusal("delete"@, c.field_name, c.target))
                    } else {
                        None
                    },
                },
        )
    } else {
        seq![
            StepView::Fail(
                Refusal::UnsupportedOperation(
                    "Nested '"@ + op + "' is not available on '"@ + c.model_name + "."@ + c.field_name + "'"@,
                ),
            ),
        ]
    }
}

/// The writes the operations plan, one operation after another.
pub open spec fn all_steps(ops: Seq<(Seq<char>, Json)>, c: StepContext) -> Seq<StepView>
    decreases ops.len(),
{
    if ops.len() == 0 {
        Seq::empty()
    } else {
        all_steps(ops.drop_last(), c) + operation_steps(ops.last().0, ops.last().1, c)
    }
}

/// Whether the context `c` describes these names, link and clearing data.
pub open spec fn context_of(c: StepContext, model_name: Seq<char>, field_name: Seq<char>, target: Seq<char>, link: Json, nulls: Json) -> bool {
    c.model_name == model_name && c.field_name == field_name && c.target == target && c.link == link.deep()
        && c.nulls == nulls.deep()
}

/// The write one item of a per-item operation plans: `kind` 0 creates, 1
/// connects, 2 connects or creates, 3 updates under the operation `op`.
pub open spec fn item_step(kind: u8, op: Seq<char>, item: Json, c: StepContext) -> StepView {
    if kind == 0 {
        create_step(item, c)
    } else if kind == 1 {
        connect_step(item, c)
    } else if kind == 2 {
        connect_or_create_step(item, c)
    } else {
        update_step(item, op, c)
    }
}

fn fail_step(e: ProtocolError, Ghost(f): Ghost<Refusal>) -> (r: ChildStep)
    requires
        refused_with(e, f),
    ensures
        step_matches(r, StepView::Fail(f)),
{
    ChildStep::Fail(e)
}

fn item_step_exec(
    kind: u8,
    op: &str,
    item: &Json,
    link: &Json,
    field_name: &str,
    target: &str,
    Ghost(c): Ghost<StepContext>,
) -> (r: ChildStep)
    requires
        c.link == link.deep(),
        c.field_name == field_name@,
        c.target == target@,
    ensures
        step_matches(r, item_step(kind, op@, *item, c)),
{
    if kind == 0 {
        return match merge_link(item, link, field_name) {
            Ok(d) => ChildStep::Create { data: d },
            Err(e) => ChildStep::Fail(e),
        };
    }
    if kind == 1 {
        return ChildStep::Update {
            filter: unwrap_where(item),
            data: json_clone(link),
            missing: Some(not_found_text("connect", field_name, target)),
        };
    }
    if kind == 2 {
        let object = match require_object(item, "connectOrCreate") {
            Ok(o) => o,
            Err(e) => {
                return ChildStep::Fail(e);
            },
        };
        let filter = match require_member(object, "where", "connectOrCreate") {
            Ok(f) => f,
            Err(e) => {
                return ChildStep::Fail(e);
            },
        };
        let create = match require_member(object, "create", "connectOrCreate") {
            Ok(d) => merge_link(d, link, field_name),
            Err(e) => Err(e),
        };
        return ChildStep::ConnectOrCreate {
            find: json_clone(filter),
            connect: unwrap_where(filter),
            link: json_clone(link),
            missing: not_found_text("connect", field_name, target),
            create,
        };
    }
    let object = match require_object(item, op) {
        Ok(o) => o,
        Err(e) => {
            return ChildStep::Fail(e);
        },
    };
    let data = match require_member(object, "data", op) {
        Ok(d) => d,
        Err(e) => {
            return ChildStep::Fail(e);
        },
    };
    let missing = if str_eq(op, "update") {
        Some(not_found_text("update", field_name, target))
    } else {
        None
    };
    ChildStep::Update { filter: scoped_filter(json_clone(link), json_get_ref(object, "where")), data: json_clone(data), missing }
}

/// The refusal for an operation that reached no row of `target`.
pub(crate) fn not_found_text(operation: &str, field_name: &str, target: &str) -> (r: ProtocolError)
    ensures
        refused_with(r, not_found_refusal(operation@, field_name@, target@)),
{
    let mut m = String::from_str("Nested ");
    m.push_str(operation);
    m.push_str(" on '");
    m.push_str(field_name);
    m.push_str("' matched no '");
    m.push_str(target);
    m.push_str("' record");
    ProtocolError::RecordNotFound(m)
}

fn item_steps(
    kind: u8,
    op: &str,
    payload: &Json,
    link: &Json,
    field_name: &str,
    target: &str,
    Ghost(c): Ghost<StepContext>,
) -> (r: Vec<ChildStep>)
    requires
        c.link == link.deep(),
        c.field_name == field_name@,
        c.target == target@,
    ensures
        r@.len() == items_of(*payload).len(),
        forall|j: int| 0 <= j < r@.len() ==> #[trigger] step_matches(r@[j], item_step(kind, op@, items_of(*payload)[j], c)),
{
    let items = payload_items(payload);
    let mut out: Vec<ChildStep> = Vec::new();
    let mut i: usize = 0;
    while i < items.len()
        invariant
            i <= items@.len(),
            items@.len() == items_of(*payload).len(),
            forall|j: int| 0 <= j < items@.len() ==> *#[trigger] items@[j] == items_of(*payload)[j],
            c.link == link.deep(),
            c.field_name == field_name@,
            c.target == target@,
            out@.len() == i,
            forall|j: int| 0 <= j < i ==> #[trigger] step_matches(out@[j], item_step(kind, op@, items_of(*payload)[j], c)),
        decreases items@.len() - i,
    {
        let step = item_step_exec(kind, op, items[i], link, field_name, target, Ghost(c));
        out.push(step);
        i = i + 1;
    }
    out
}

/// The write one filter of a removal plans: a delete, refused with
/// `missing` when `required` and nothing matches, or a clearing update.
pub open spec fn filter_step(
    delete: bool,
    required: bool,
    missing: Refusal,
    nulls: JsonView,
    f: JsonView,
) -> StepView {
    if delete {
        StepView::Delete { filter: f, missing: if required { Some(missing) } else { None } }
    } else {
        StepView::Update { filter: f, data: nulls, missing: None }
    }
}

fn filter_steps(
    delete: bool,
    payload: &Json,
    link: &Json,
    nulls: &Json,
    missing_op: &str,
    field_name: &str,
    target: &str,
    required: bool,
) -> (r: Vec<ChildStep>)
    ensures
        r@.len() == filters_of(*payload, link.deep()).len(),
        forall|j: int|
            0 <= j < r@.len() ==> #[trigger] step_matches(
                r@[j],
                filter_step(
                    delete,
                    required,
                    not_found_refusal(missing_op@, field_name@, target@),
                    nulls.deep(),
                    filters_of(*payload, link.deep())[j],
                ),
            ),
{
    let filters = child_filters(payload, link);
    let ghost fs = filters_of(*payload, link.deep());
    proof {
        if payload is Array {
            assert(fs.len() == payload->Array_0@.len());
        }
    }
    let mut out: Vec<ChildStep> = Vec::new();
    let mut i: usize = 0;
    while i < filters.len()
        invariant
            i <= filters@.len(),
            fs == filters_of(*payload, link.deep()),
            filters@.len() == fs.len(),
            forall|j: int| 0 <= j < filters@.len() ==> (#[trigger] filters@[j]).deep() == fs[j],
            out@.len() == i,
            forall|j: int|
                0 <= j < i ==> #[trigger] step_matches(
                    out@[j],
                    filter_step(delete, required, not_found_refusal(missing_op@, field_name@, target@), nulls.deep(), fs[j]),
                ),
        decreases filters@.len() - i,
    {
        let filter = json_clone(&filters[i]);
        let step = if delete {
            let missing = if required {
                Some(not_found_text(missing_op, field_name, target))
            } else {
                None
            };
            ChildStep::Delete { filter, missing }
        } else {
            ChildStep::Update { filter, data: json_clone(nulls), missing: None }
        };
        out.push(step);
        i = i + 1;
    }
    out
}

fn single_fail(e: ProtocolError) -> (r: Vec<ChildStep>)
    ensures
        r@.len() == 1,
        r@[0] == ChildStep::Fail(e),
{
    let mut v = Vec::new();
    v.push(ChildStep::Fail(e));
    v
}

fn operation_steps_exec(
    op: &str,
    payload: &Json,
    link: &Json,
    nulls: &Json,
    model_name: &str,
    field_name: &str,
    target: &str,
    Ghost(c): Ghost<StepContext>,
) -> (r: Vec<ChildStep>)
    requires
        context_of(c, model_name@, field_name@, target@, *link, *nulls),
    ensures
        steps_match(r@, operation_steps(op@, *payload, c)),
{
    let ghost want = operation_steps(op@, *payload, c);
    if str_eq(op, "create") {
        let r = item_steps(0, op, payload, link, field_name, target, Ghost(c));
        assert forall|j: int| 0 <= j < r@.len() implies #[trigger] step_matches(r@[j], want[j]) by {
            assert(want[j] == create_step(items_of(*payload)[j], c));
            assert(step_matches(r@[j], item_step(0, op@, items_of(*payload)[j], c)));
        }
        return r;
    }
    if str_eq(op, "createMany") {
        let object = match require_object(payload, "createMany") {
            Ok(o) => o,
            Err(e) => {
                return single_fail(e);
            },
        };
        let data = match require_member(object, "data", "createMany") {
            Ok(d) => d,
            Err(e) => {
                return single_fail(e);
            },
        };
        let r = item_steps(0, op, data, link, field_name, target, Ghost(c));
        assert forall|j: int| 0 <= j < r@.len() implies #[trigger] step_matches(r@[j], want[j]) by {
            assert(want[j] == create_step(items_of(*data)[j], c));
            assert(step_matches(r@[j], item_step(0, op@, items_of(*data)[j], c)));
        }
        return r;
    }
    if str_eq(op, "connect") {
        let r = item_steps(1, op, payload, link, field_name, target, Ghost(c));
        assert forall|j: int| 0 <= j < r@.len() implies #[trigger] step_matches(r@[j], want[j]) by {
            assert(want[j] == connect_step(items_of(*payload)[j], c));
            assert(step_matches(r@[j], item_step(1, op@, items_of(*payload)[j], c)));
        }
        return r;
    }
    if str_eq(op, "connectOrCreate") {
        let r = item_steps(2, op, payload, link, field_name, target, Ghost(c));
        assert forall|j: int| 0 <= j < r@.len() implies #[trigger] step_matches(r@[j], want[j]) by {
            assert(want[j] == connect_or_create_step(items_of(*payload)[j], c));
            assert(step_matches(r@[j], item_step(2, op@, items_of(*payload)[j], c)));
        }
        return r;
    }
    if str_eq(op, "disconnect") {
        let r = filter_steps(false, payload, link, nulls, op, field_name, target, false);
        assert forall|j: int| 0 <= j < r@.len() implies #[trigger] step_matches(r@[j], want[j]) by {
            let f = filters_of(*payload, link.deep())[j];
            assert(want[j] == StepView::Update { filter: f, data: c.nulls, missing: None });
            assert(step_matches(
                r@[j],
                filter_step(false, false, not_found_refusal(op@, field_name@, target@), nulls.deep(), f),
            ));
        }
        return r;
    }
    if str_eq(op, "set") {
        let mut v: Vec<ChildStep> = Vec::new();
        v.push(ChildStep::Update { filter: json_clone(link), data: json_clone(nulls), missing: None });
        let mut rest = item_steps(1, op, payload, link, field_name, target, Ghost(c));
        let ghost tail = rest@;
        v.append(&mut rest);
        proof {
            assert(want.len() == 1 + items_of(*payload).len());
            assert forall|i: int| 0 <= i < v@.len() implies #[trigger] step_matches(v@[i], want[i]) by {
                if i >= 1 {
                    assert(v@[i] == tail[i - 1]);
                    assert(want[i] == connect_step(items_of(*payload)[i - 1], c));
                    assert(step_matches(tail[i - 1], item_step(1, op@, items_of(*payload)[i - 1], c)));
                } else {
                    assert(want[0] == StepView::Update { filter: c.link, data: c.nulls, missing: None });
                }
            }
        }
        return v;
    }
    if str_eq(op, "update") || str_eq(op, "updateMany") {
        let r = item_steps(3, op, payload, link, field_name, target, Ghost(c));
        assert forall|j: int| 0 <= j < r@.len() implies #[trigger] step_matches(r@[j], want[j]) by {
            assert(want[j] == update_step(items_of(*payload)[j], op@, c));
            assert(step_matches(r@[j], item_step(3, op@, items_of(*payload)[j], c)));
        }
        return r;
    }
    if str_eq(op, "delete") || str_eq(op, "deleteMany") {
        let required = str_eq(op, "delete");
        let r = filter_steps(true, payload, link, nulls, "delete", field_name, target, required);
        assert forall|j: int| 0 <= j < r@.len() implies #[trigger] step_matches(r@[j], want[j]) by {
            let f = filters_of(*payload, link.deep())[j];
            assert(want[j] == StepView::Delete {
                filter: f,
                missing: if op@ == "delete"@ {
                    Some(not_found_refusal("delete"@, c.field_name, c.target))
                } else {
                    None
                },
            });
            assert(step_matches(
                r@[j],
                filter_step(true, required, not_found_refusal("delete"@, field_name@, target@), nulls.deep(), f),
            ));
        }
        return r;
    }
    let mut m = String::from_str("Nested '");
    m.push_str(op);
    m.push_str("' is not available on '");
    m.push_str(model_name);
    m.push_str(".");
    m.push_str(field_name);
    m.push_str("'");
    single_fail(ProtocolError::UnsupportedOperation(m))
}

/// The context the writes of `write` are planned in: the link names the
/// parent's key in the foreign-key fields, and the clearing data sets them
/// to null.
pub open spec fn inverse_context<'a>(
    logical_to_db: Seq<(String, String)>,
    model: ModelIr,
    write: NestedWrite<'a>,
    parent: Row,
) -> StepContext {
    StepContext {
        model_name: model.logical_name@,
        field_name: write.field_name@,
        target: write.binding.target_model@,
        link: JsonView::Object(
            members_with(
                Seq::empty(),
                row_key_pairs(
                    write.binding.foreign_keys@,
                    write.binding.referenced@,
                    logical_to_db,
                    model.db_name@,
                    parent.columns@,
                ),
            ),
        ),
        nulls: JsonView::Object(null_members(write.binding.foreign_keys@, write.binding.foreign_keys@.len())),
    }
}

/// Plan the writes of one relation whose related model holds the foreign
/// key, once the parent row `parent` of `model` (read with `logical_to_db`)
/// exists: each operation in turn, each scoped to the children of the parent.
pub fn inverse_write_steps(
    logical_to_db: &[(String, String)],
    model: &ModelIr,
    write: &NestedWrite,
    parent: &Row,
) -> (r: Result<Vec<ChildStep>, ProtocolError>)
    ensures
        match key_values_refusal(logical_to_db@, *model, parent.columns@, write.binding.referenced@) {
            Some(f) => r matches Err(e) && refused_with(e, f),
            None => r matches Ok(steps) && steps_match(
                steps@,
                all_steps(operation_views(write.operations@), inverse_context(logical_to_db@, *model, *write, *parent)),
            ),
        },
{
    let binding = &write.binding;
    let values = match row_key_values(logical_to_db, model, parent, binding.referenced.as_slice()) {
        Ok(vs) => vs,
        Err(e) => {
            return Err(e);
        },
    };
    let link = key_filter(binding.foreign_keys.as_slice(), values.as_slice());
    let nulls = null_key_data(binding.foreign_keys.as_slice());
    let ghost c = inverse_context(logical_to_db@, *model, *write, *parent);
    proof {
        let pairs = row_key_pairs(binding.foreign_keys@, binding.referenced@, logical_to_db@, model.db_name@, parent.columns@);
        assert forall|i: int| 0 <= i < pairs.len() implies #[trigger] pairs[i] == (binding.foreign_keys@[i]@, plain_view(values@[i])) by {
            let w = key_cell(logical_to_db@, model.db_name@, parent.columns@, binding.referenced@[i]@)->Some_0->Some_0;
            lemma_plain_view_deep(w, values@[i]);
        }
        lemma_key_members_pairs(binding.foreign_keys@, values@, pairs, pairs.len());
        assert(pairs.take(pairs.len() as int) =~= pairs);
        assert(context_of(c, model.logical_name@, write.field_name@, binding.target_model@, link, nulls));
    }
    let ghost ops = operation_views(write.operations@);
    let mut steps: Vec<ChildStep> = Vec::new();
    let mut k: usize = 0;
    assert(ops.take(0) =~= Seq::<(Seq<char>, Json)>::empty());
    while k < write.operations.len()
        invariant
            k <= write.operations@.len(),
            ops == operation_views(write.operations@),
            ops.len() == write.operations@.len(),
            context_of(c, model.logical_name@, write.field_name@, binding.target_model@, link, nulls),
            steps_match(steps@, all_steps(ops.take(k as int), c)),
        decreases write.operations@.len() - k,
    {
        let (op, payload) = write.operations[k];
        let mut more = operation_steps_exec(
            op,
            payload,
            &link,
            &nulls,
            model.logical_name.as_str(),
            write.field_name,
            binding.target_model.as_str(),
            Ghost(c),
        );
        let ghost before = steps@;
        let ghost added = more@;
        steps.append(&mut more);
        proof {
            let t = ops.take(k + 1);
            assert(t.drop_last() =~= ops.take(k as int));
            assert(t.last() == (op@, *payload));
            let want = all_steps(t, c);
            assert(want == all_steps(ops.take(k as int), c) + operation_steps(op@, *payload, c));
            assert forall|i: int| 0 <= i < steps@.len() implies #[trigger] step_matches(steps@[i], want[i]) by {
                if i < before.len() {
                    assert(step_matches(before[i], all_steps(ops.take(k as int), c)[i]));
                } else {
                    assert(step_matches(added[i - before.len()], operation_steps(op@, *payload, c)[i - before.len()]));
                }
            }
        }
        k = k + 1;
    }
    assert(ops.take(ops.len() as int) =~= ops);
    Ok(steps)
}

/// Whether a write that matched `affected` rows stands: one that matched
/// none fails with its refusal, when it has one.
pub fn settle(missing: Option<ProtocolError>, affected: u64) -> (r: Result<(), ProtocolError>)
    ensures
        match missing {
            Some(e) => if affected == 0 {
                r == Err::<(), ProtocolError>(e)
            } else {
                r is Ok
            },
            None => r is Ok,
        },
{
    match missing {
        Some(e) => if affected == 0 {
            Err(e)
        } else {
            Ok(())
        },
        None => Ok(()),
    }
}

impl ChildStep {
    /// The write a connect-or-create becomes once its lookup has answered:
    /// the connect when a row was found, else the create or its refusal. Any
    /// other step stays as it is.
    pub fn resolve(self, found: bool) -> (r: ChildStep)
        ensures
            match self {
                ChildStep::ConnectOrCreate { find, connect, link, missing, create } => if found {
                    r == (ChildStep::Update { filter: connect, data: link, missing: Some(missing) })
                } else {
                    match create {
                        Ok(d) => r == (ChildStep::Create { data: d }),
                        Err(e) => r == ChildStep::Fail(e),
                    }
                },
                _ => r == self,
            },
    {
        match self {
            ChildStep::ConnectOrCreate { find, connect, link, missing, create } => {
                if found {
                    ChildStep::Update { filter: connect, data: link, missing: Some(missing) }
                } else {
                    match create {
                        Ok(d) => ChildStep::Create { data: d },
                        Err(e) => ChildStep::Fail(e),
                    }
                }
            },
            other => other,
        }
    }
}

/// Whether `filter` reaches only rows `link` reaches: the link itself, or
/// the link narrowed by a filter the caller supplied.
pub open spec fn within_link(filter: JsonView, link: JsonView) -> bool {
    exists|extra: Option<Json>| filter == #[trigger] scoped_view(link, extra)
}

/// Whether a planned write, when it updates or deletes, stays within `link`.
pub open spec fn stays_within(v: StepView, link: JsonView) -> bool {
    match v {
        StepView::Update { filter, .. } => within_link(filter, link),
        StepView::Delete { filter, .. } => within_link(filter, link),
        _ => true,
    }
}

/// A `disconnect`, `update`, `updateMany`, `delete` or `deleteMany` reaches
/// only the parent's children: every update or delete it plans filters by
/// the link, narrowed at most by what the caller supplied, so a caller's
/// filter can never widen it to another parent's rows.
pub proof fn lemma_removals_stay_within_the_link(op: Seq<char>, payload: Json, c: StepContext)
    requires
        op == "disconnect"@ || op == "update"@ || op == "updateMany"@ || op == "delete"@ || op == "deleteMany"@,
    ensures
        forall|j: int|
            0 <= j < operation_steps(op, payload, c).len() ==> #[trigger] stays_within(
                operation_steps(op, payload, c)[j],
                c.link,
            ),
{
    reveal_strlit("disconnect");
    reveal_strlit("update");
    reveal_strlit("updateMany");
    reveal_strlit("delete");
    reveal_strlit("deleteMany");
    reveal_strlit("create");
    reveal_strlit("createMany");
    reveal_strlit("connect");
    reveal_strlit("connectOrCreate");
    reveal_strlit("set");
    let steps = operation_steps(op, payload, c);
    assert forall|j: int| 0 <= j < steps.len() implies #[trigger] stays_within(steps[j], c.link) by {
        if op == "update"@ || op == "updateMany"@ {
            let item = items_of(payload)[j];
            if let Json::Object(o) = item {
                let extra = json_get(o@, "where"@);
                assert(within_link(scoped_view(c.link, extra), c.link));
            }
        } else {
            let fs = filters_of(payload, c.link);
            assert(op[0] == 'd');
            assert("create"@[0] == 'c' && "createMany"@[0] == 'c' && "connect"@[0] == 'c' && "connectOrCreate"@[0] == 'c');
            assert("set"@[0] == 's' && "update"@[0] == 'u' && "updateMany"@[0] == 'u');
            assert(op != "create"@ && op != "createMany"@ && op != "connect"@ && op != "connectOrCreate"@);
            assert(op != "set"@ && op != "update"@ && op != "updateMany"@);
            match payload {
                Json::Array(items) => {
                    assert(fs[j] == scoped_view(c.link, Some(items@[j])));
                },
                Json::Bool(true) | Json::Null => {
                    assert(fs[j] == scoped_view(c.link, None));
                },
                _ => {
                    assert(fs[j] == scoped_view(c.link, Some(payload)));
                },
            }
        }
    }
}

} // verus!
