//! Reading the nested-write operations of one relation entry of a `data`
//! payload: their names in either spelling, refused where the write cannot
//! run them, and ordered so that removals run before additions.
use vstd::prelude::*;

use crate::clauses::joined;
use crate::conversion::ResolvedFieldType;
use crate::hydrate::object_insert;
use crate::json::{deep_entries, json_clone, Json, JsonView};
use crate::model::{FieldIr, ModelIr, RelationIr};
use crate::naming::{
    canonical_operation, canonical_operation_name, operation_names, operation_order, operation_rank,
    supported_operations, update_only_operation_names,
};
use crate::ordered::map_insert;
use crate::protocol::{refused_with, ProtocolError, Refusal};
use crate::relation::{
    binding_for, binding_refusal, binding_result, relation_field, relation_field_index, RelationBinding, RelationSide,
};
use crate::text::str_eq;

verus! {

/// The message an operation named `name` is refused with, if it is refused:
/// an unknown name, or an operation that needs an existing row on a create.
pub open spec fn operation_error(model_name: Seq<char>, field_name: Seq<char>, allow_update_operations: bool, name: Seq<char>) -> Option<Seq<char>> {
    match canonical_operation_name(name) {
        None => Some(
            "Unknown nested-write operation '"@ + name + "' on '"@ + model_name + "."@ + field_name
                + "'; supported operations are "@ + joined(operation_names(allow_update_operations), ", "@),
        ),
        Some(c) => if !allow_update_operations && update_only_operation_names().contains(c) {
            Some(
                "Nested '"@ + c + "' on '"@ + model_name + "."@ + field_name
                    + "' needs an existing row, so it is only available on update"@,
            )
        } else {
            None
        },
    }
}

/// The index of the first operation from `k` on that is refused.
pub open spec fn first_bad_operation(
    entries: Seq<(String, Json)>,
    model_name: Seq<char>,
    field_name: Seq<char>,
    allow_update_operations: bool,
    k: int,
) -> Option<int>
    decreases entries.len() - k,
{
    if k < 0 || k >= entries.len() {
        None
    } else if operation_error(model_name, field_name, allow_update_operations, entries[k].0@) is Some {
        Some(k)
    } else {
        first_bad_operation(entries, model_name, field_name, allow_update_operations, k + 1)
    }
}

/// The operations with their names in the wire spelling, in entry order.
pub open spec fn canonical_operations(entries: Seq<(String, Json)>) -> Seq<(Seq<char>, Json)> {
    entries.map_values(
        |e: (String, Json)|
            (
                match canonical_operation_name(e.0@) {
                    Some(c) => c,
                    None => e.0@,
                },
                e.1,
            ),
    )
}

/// The operations of rank `rank`, in order.
pub open spec fn of_rank(ops: Seq<(Seq<char>, Json)>, rank: u8) -> Seq<(Seq<char>, Json)>
    decreases ops.len(),
{
    if ops.len() == 0 {
        Seq::empty()
    } else if operation_rank(ops.last().0) == rank {
        of_rank(ops.drop_last(), rank).push(ops.last())
    } else {
        of_rank(ops.drop_last(), rank)
    }
}

/// The operations ordered so that removals run before additions: every
/// `set`, then every `disconnect`, the deletions, the updates and the rest,
/// each group in the order given.
pub open spec fn ordered_operations(ops: Seq<(Seq<char>, Json)>) -> Seq<(Seq<char>, Json)> {
    of_rank(ops, 0) + of_rank(ops, 1) + of_rank(ops, 2) + of_rank(ops, 3) + of_rank(ops, 4)
}

/// The names and payloads of parsed operations.
pub open spec fn operation_views<'a>(ops: Seq<(&'static str, &'a Json)>) -> Seq<(Seq<char>, Json)> {
    ops.map_values(|o: (&'static str, &'a Json)| (o.0@, *o.1))
}

fn append_rank<'a>(out: &mut Vec<(&'static str, &'a Json)>, ops: &Vec<(&'static str, &'a Json)>, rank: u8)
    ensures
        operation_views(final(out)@) == operation_views(old(out)@) + of_rank(operation_views(ops@), rank),
{
    let ghost start = operation_views(out@);
    let ghost views = operation_views(ops@);
    let mut i: usize = 0;
    while i < ops.len()
        invariant
            i <= ops@.len(),
            views == operation_views(ops@),
            operation_views(out@) == start + of_rank(views.take(i as int), rank),
        decreases ops@.len() - i,
    {
        let ghost before = operation_views(out@);
        proof {
            let pre = views.take(i as int);
            let next = views.take(i + 1);
            assert(next.drop_last() =~= pre);
            assert(next.last() == views[i as int]);
        }
        if operation_order(ops[i].0) == rank {
            out.push(ops[i]);
            assert(operation_views(out@) =~= before.push(views[i as int]));
        }
        i = i + 1;
    }
    assert(views.take(ops@.len() as int) =~= views);
}

/// Parse the operations of one relation entry of a `data` payload.
/// `allow_update_operations` admits the operations that need an existing
/// row; a create refuses them.
pub fn parse_operations<'a>(model: &ModelIr, field: &FieldIr, value: &'a Json, allow_update_operations: bool) -> (r: Result<Vec<(&'static str, &'a Json)>, ProtocolError>)
    ensures
        match *value {
            Json::Object(entries) => match first_bad_operation(
                entries@,
                model.logical_name@,
                field.logical_name@,
                allow_update_operations,
                0,
            ) {
                Some(k) => r matches Err(ProtocolError::InvalidParams(m)) && Some(m@) == operation_error(
                    model.logical_name@,
                    field.logical_name@,
                    allow_update_operations,
                    entries@[k].0@,
                ),
                None => r matches Ok(ops) && operation_views(ops@) == ordered_operations(
                    canonical_operations(entries@),
                ),
            },
            _ => r matches Err(ProtocolError::InvalidParams(m)) && m@ == "'"@ + model.logical_name@ + "."@
                + field.logical_name@
                + "' is a relation, so its data entry must be an object of nested-write operations"@,
        },
{
    let entries = match value {
        Json::Object(entries) => entries,
        _ => {
            let mut m = String::from_str("'");
            m.push_str(model.logical_name.as_str());
            m.push_str(".");
            m.push_str(field.logical_name.as_str());
            m.push_str("' is a relation, so its data entry must be an object of nested-write operations");
            return Err(ProtocolError::InvalidParams(m));
        },
    };
    let ghost m_name = model.logical_name@;
    let ghost f_name = field.logical_name@;
    let mut collected: Vec<(&'static str, &'a Json)> = Vec::new();
    let mut k: usize = 0;
    while k < entries.len()
        invariant
            k <= entries@.len(),
            *value == Json::Object(*entries),
            m_name == model.logical_name@,
            f_name == field.logical_name@,
            first_bad_operation(entries@, m_name, f_name, allow_update_operations, 0) == first_bad_operation(
                entries@,
                m_name,
                f_name,
                allow_update_operations,
                k as int,
            ),
            operation_views(collected@) == canonical_operations(entries@.take(k as int)),
        decreases entries@.len() - k,
    {
        let name = entries[k].0.as_str();
        let canonical = match canonical_operation(name) {
            Some(c) => c,
            None => {
                let mut m = String::from_str("Unknown nested-write operation '");
                m.push_str(name);
                m.push_str("' on '");
                m.push_str(model.logical_name.as_str());
                m.push_str(".");
                m.push_str(field.logical_name.as_str());
                m.push_str("'; supported operations are ");
                m.push_str(supported_operations(allow_update_operations).as_str());
                return Err(ProtocolError::InvalidParams(m));
            },
        };
        if !allow_update_operations {
            let update_only = str_eq(canonical, "disconnect") || str_eq(canonical, "set") || str_eq(canonical, "update")
                || str_eq(canonical, "updateMany") || str_eq(canonical, "delete") || str_eq(canonical, "deleteMany");
            proof {
                let names = update_only_operation_names();
                assert(names[0] == "disconnect"@ && names[1] == "set"@ && names[2] == "update"@ && names[3]
                    == "updateMany"@ && names[4] == "delete"@ && names[5] == "deleteMany"@);
                if names.contains(canonical@) {
                    let j = choose|j: int| 0 <= j < names.len() && names[j] == canonical@;
                }
                if update_only {
                    if canonical@ == "disconnect"@ {
                        assert(names[0] == canonical@);
                    } else if canonical@ == "set"@ {
                        assert(names[1] == canonical@);
                    } else if canonical@ == "update"@ {
                        assert(names[2] == canonical@);
                    } else if canonical@ == "updateMany"@ {
                        assert(names[3] == canonical@);
                    } else if canonical@ == "delete"@ {
                        assert(names[4] == canonical@);
                    } else {
                        assert(names[5] == canonical@);
                    }
                }
            }
            if update_only {
                let mut m = String::from_str("Nested '");
                m.push_str(canonical);
                m.push_str("' on '");
                m.push_str(model.logical_name.as_str());
                m.push_str(".");
                m.push_str(field.logical_name.as_str());
                m.push_str("' needs an existing row, so it is only available on update");
                return Err(ProtocolError::InvalidParams(m));
            }
        }
        let ghost before = operation_views(collected@);
        collected.push((canonical, &entries[k].1));
        proof {
            assert(entries@.take(k + 1) =~= entries@.take(k as int).push(entries@[k as int]));
            assert(canonical_operations(entries@.take(k + 1)) =~= canonical_operations(entries@.take(k as int)).push(
                (canonical@, entries@[k as int].1),
            ));
            assert(operation_views(collected@) =~= before.push((canonical@, entries@[k as int].1)));
        }
        k = k + 1;
    }
    assert(entries@.take(entries@.len() as int) =~= entries@);
    let mut out: Vec<(&'static str, &'a Json)> = Vec::new();
    assert(operation_views(out@) =~= Seq::<(Seq<char>, Json)>::empty());
    append_rank(&mut out, &collected, 0);
    append_rank(&mut out, &collected, 1);
    append_rank(&mut out, &collected, 2);
    append_rank(&mut out, &collected, 3);
    append_rank(&mut out, &collected, 4);
    assert(operation_views(out@) =~= ordered_operations(canonical_operations(entries@)));
    Ok(out)
}

/// Whether the operations run in rank order.
pub open spec fn rank_ordered(ops: Seq<(Seq<char>, Json)>) -> bool {
    forall|i: int, j: int| 0 <= i < j < ops.len() ==> operation_rank(#[trigger] ops[i].0) <= operation_rank(#[trigger] ops[j].0)
}

proof fn lemma_of_rank_members(ops: Seq<(Seq<char>, Json)>, rank: u8)
    ensures
        forall|i: int| 0 <= i < of_rank(ops, rank).len() ==> operation_rank(#[trigger] of_rank(ops, rank)[i].0) == rank,
    decreases ops.len(),
{
    if ops.len() > 0 {
        lemma_of_rank_members(ops.drop_last(), rank);
        let prev = of_rank(ops.drop_last(), rank);
        if operation_rank(ops.last().0) == rank {
            assert forall|i: int| 0 <= i < of_rank(ops, rank).len() implies operation_rank(
                #[trigger] of_rank(ops, rank)[i].0,
            ) == rank by {
                if i < prev.len() {
                    assert(of_rank(ops, rank)[i] == prev[i]);
                }
            }
        }
    }
}

proof fn lemma_append_rank(p: Seq<(Seq<char>, Json)>, q: Seq<(Seq<char>, Json)>, k: u8)
    requires
        rank_ordered(p),
        forall|i: int| 0 <= i < p.len() ==> operation_rank(#[trigger] p[i].0) < k,
        forall|i: int| 0 <= i < q.len() ==> operation_rank(#[trigger] q[i].0) == k,
    ensures
        rank_ordered(p + q),
        forall|i: int| 0 <= i < (p + q).len() ==> operation_rank(#[trigger] (p + q)[i].0) <= k,
{
    let r = p + q;
    assert forall|i: int, j: int| 0 <= i < j < r.len() implies operation_rank(#[trigger] r[i].0) <= operation_rank(#[trigger] r[j].0) by {
        if j < p.len() {
            assert(r[i] == p[i] && r[j] == p[j]);
        } else if i < p.len() {
            assert(r[i] == p[i] && r[j] == q[j - p.len()]);
        } else {
            assert(r[i] == q[i - p.len()] && r[j] == q[j - p.len()]);
        }
    }
    assert forall|i: int| 0 <= i < r.len() implies operation_rank(#[trigger] r[i].0) <= k by {
        if i < p.len() {
            assert(r[i] == p[i]);
        } else {
            assert(r[i] == q[i - p.len()]);
        }
    }
}

/// Parsed operations run in rank order: every `set` before every
/// `disconnect`, those before the deletions, the updates, and the rest, so a
/// relation is cleared before anything is added to it.
pub proof fn lemma_removals_run_before_additions(ops: Seq<(Seq<char>, Json)>)
    ensures
        rank_ordered(ordered_operations(ops)),
{
    lemma_of_rank_members(ops, 0);
    lemma_of_rank_members(ops, 1);
    lemma_of_rank_members(ops, 2);
    lemma_of_rank_members(ops, 3);
    lemma_of_rank_members(ops, 4);
    let p0 = of_rank(ops, 0);
    let p1 = p0 + of_rank(ops, 1);
    let p2 = p1 + of_rank(ops, 2);
    let p3 = p2 + of_rank(ops, 3);
    lemma_append_rank(Seq::empty(), p0, 0);
    assert(Seq::<(Seq<char>, Json)>::empty() + p0 =~= p0);
    lemma_append_rank(p0, of_rank(ops, 1), 1);
    lemma_append_rank(p1, of_rank(ops, 2), 2);
    lemma_append_rank(p2, of_rank(ops, 3), 3);
    lemma_append_rank(p3, of_rank(ops, 4), 4);
}

/// The refusal parsing the operations of `value` meets, if any.
pub open spec fn operations_refusal(model: ModelIr, field: FieldIr, value: Json, allow_update_operations: bool) -> Option<Refusal> {
    match value {
        Json::Object(entries) => match first_bad_operation(
            entries@,
            model.logical_name@,
            field.logical_name@,
            allow_update_operations,
            0,
        ) {
            Some(k) => Some(
                Refusal::InvalidParams(
                    operation_error(model.logical_name@, field.logical_name@, allow_update_operations, entries@[k].0@).unwrap(),
                ),
            ),
            None => None,
        },
        _ => Some(
            Refusal::InvalidParams(
                "'"@ + model.logical_name@ + "."@ + field.logical_name@
                    + "' is a relation, so its data entry must be an object of nested-write operations"@,
            ),
        ),
    }
}

/// The operations `value` holds once parsed, where parsing succeeds.
pub open spec fn parsed_operations(value: Json) -> Seq<(Seq<char>, Json)> {
    match value {
        Json::Object(entries) => ordered_operations(canonical_operations(entries@)),
        _ => Seq::empty(),
    }
}

/// The relation field a `data` key names, with its relation.
pub open spec fn named_relation(model: ModelIr, key: Seq<char>) -> Option<(FieldIr, RelationIr)> {
    match relation_field_index(model.fields@, key, 0) {
        Some(i) => match model.fields@[i].field_type {
            ResolvedFieldType::Relation(rel) => Some((model.fields@[i], rel)),
            _ => None,
        },
        None => None,
    }
}

/// Whether the written model holds the foreign key of `relation`.
pub open spec fn owning_side(relation: RelationIr) -> bool {
    relation.join is None && relation.fields@.len() > 0
}

/// The refusal splitting the entries from `k` on meets, if any: the first
/// relation entry whose operations are refused, or which holds operations
/// and whose relation cannot be resolved.
pub open spec fn split_refusal(
    models: Seq<ModelIr>,
    model: ModelIr,
    entries: Seq<(String, Json)>,
    allow_update_operations: bool,
    k: int,
) -> Option<Refusal>
    decreases entries.len() - k,
{
    if k < 0 || k >= entries.len() {
        None
    } else {
        match named_relation(model, entries[k].0@) {
            None => split_refusal(models, model, entries, allow_update_operations, k + 1),
            Some((field, relation)) => match operations_refusal(model, field, entries[k].1, allow_update_operations) {
                Some(f) => Some(f),
                None => if parsed_operations(entries[k].1).len() == 0 {
                    split_refusal(models, model, entries, allow_update_operations, k + 1)
                } else {
                    match binding_refusal(models, model, field, relation) {
                        Some(f) => Some(f),
                        None => split_refusal(models, model, entries, allow_update_operations, k + 1),
                    }
                },
            },
        }
    }
}

/// The column entries among the first `n` entries, in key order.
pub open spec fn scalar_members(model: ModelIr, entries: Seq<(String, Json)>, n: nat) -> Seq<(Seq<char>, JsonView)>
    decreases n,
{
    if n == 0 || n > entries.len() {
        Seq::empty()
    } else {
        let before = scalar_members(model, entries, (n - 1) as nat);
        let e = entries[n - 1];
        if named_relation(model, e.0@) is None {
            map_insert(before, e.0@, e.1.deep())
        } else {
            before
        }
    }
}

/// The relation entries among the first `n` entries that hold operations and
/// whose written model is (`owning`) or is not the foreign-key side: each
/// with its field, relation and parsed operations.
pub open spec fn nested_entries(model: ModelIr, entries: Seq<(String, Json)>, owning: bool, n: nat) -> Seq<
    (FieldIr, RelationIr, Seq<(Seq<char>, Json)>),
>
    decreases n,
{
    if n == 0 || n > entries.len() {
        Seq::empty()
    } else {
        let before = nested_entries(model, entries, owning, (n - 1) as nat);
        let e = entries[n - 1];
        match named_relation(model, e.0@) {
            Some((field, relation)) => if parsed_operations(e.1).len() > 0 && owning_side(relation) == owning {
                before.push((field, relation, parsed_operations(e.1)))
            } else {
                before
            },
            None => before,
        }
    }
}

/// One relation field of a `data` payload together with its parsed operations.
pub struct NestedWrite<'a> {
    pub field_name: &'a str,
    pub binding: RelationBinding,
    pub operations: Vec<(&'static str, &'a Json)>,
}

/// Whether `writes` are the nested writes `expected` describes, one for one:
/// the field's name, the operations, and the binding its relation resolves to.
pub open spec fn writes_match<'a>(
    models: Seq<ModelIr>,
    model: ModelIr,
    writes: Seq<NestedWrite<'a>>,
    expected: Seq<(FieldIr, RelationIr, Seq<(Seq<char>, Json)>)>,
) -> bool {
    &&& writes.len() == expected.len()
    &&& forall|j: int|
        0 <= j < writes.len() ==> {
            &&& (#[trigger] writes[j]).field_name@ == expected[j].0.logical_name@
            &&& operation_views(writes[j].operations@) == expected[j].2
            &&& binding_result(models, model, expected[j].0, expected[j].1, Ok(writes[j].binding))
        }
}

/// A `data` payload split into the columns of the written model and the
/// nested writes that run around the statement for it: those on the
/// foreign-key side run before it, the others after.
pub struct NestedPlan<'a> {
    pub scalar_data: Vec<(String, Json)>,
    pub owning: Vec<NestedWrite<'a>>,
    pub inverse: Vec<NestedWrite<'a>>,
}

/// The members of `m` after setting each of `entries` in turn.
pub open spec fn members_with(m: Seq<(Seq<char>, JsonView)>, entries: Seq<(Seq<char>, JsonView)>) -> Seq<(Seq<char>, JsonView)>
    decreases entries.len(),
{
    if entries.len() == 0 {
        m
    } else {
        map_insert(members_with(m, entries.drop_last()), entries.last().0, entries.last().1)
    }
}

impl<'a> NestedPlan<'a> {
    /// Whether the payload was plain column data, with no relation entries.
    pub fn is_empty(&self) -> (r: bool)
        ensures
            r == (self.owning@.len() == 0 && self.inverse@.len() == 0),
    {
        self.owning.len() == 0 && self.inverse.len() == 0
    }

    /// Whether any nested write needs the written row's key.
    pub fn writes_children(&self) -> (r: bool)
        ensures
            r == (self.inverse@.len() > 0),
    {
        self.inverse.len() > 0
    }

    /// The column entries plus the foreign keys the owning-side writes
    /// resolved, set in turn.
    pub fn scalar_data_with(&self, assignments: Vec<(String, Json)>) -> (r: Json)
        ensures
            r.deep() == JsonView::Object(members_with(deep_entries(self.scalar_data@), deep_entries(assignments@))),
    {
        let mut data: Vec<(String, Json)> = Vec::new();
        let mut i: usize = 0;
        while i < self.scalar_data.len()
            invariant
                i <= self.scalar_data@.len(),
                deep_entries(data@) == deep_entries(self.scalar_data@.take(i as int)),
            decreases self.scalar_data@.len() - i,
        {
            let ghost before = data@;
            let entry = (String::from_str(self.scalar_data[i].0.as_str()), json_clone(&self.scalar_data[i].1));
            data.push(entry);
            proof {
                assert(data@.drop_last() =~= before);
                assert(self.scalar_data@.take(i + 1).drop_last() =~= self.scalar_data@.take(i as int));
            }
            i = i + 1;
        }
        assert(self.scalar_data@.take(self.scalar_data@.len() as int) =~= self.scalar_data@);
        let ghost start = deep_entries(data@);
        let mut j: usize = 0;
        while j < assignments.len()
            invariant
                j <= assignments@.len(),
                deep_entries(data@) == members_with(start, deep_entries(assignments@.take(j as int))),
            decreases assignments@.len() - j,
        {
            object_insert(&mut data, assignments[j].0.as_str(), json_clone(&assignments[j].1));
            proof {
                let t = assignments@.take(j + 1);
                assert(t.drop_last() =~= assignments@.take(j as int));
                let d = deep_entries(t);
                assert(d.drop_last() =~= deep_entries(assignments@.take(j as int)));
                assert(d.last() == (assignments@[j as int].0@, assignments@[j as int].1.deep()));
            }
            j = j + 1;
        }
        assert(assignments@.take(assignments@.len() as int) =~= assignments@);
        Json::Object(data)
    }
}

/// Split a `data` payload into its column entries and its nested writes.
/// `allow_update_operations` admits the operations that only make sense
/// against a row that already exists; a create refuses them.
pub fn split<'a>(models: &[ModelIr], model: &'a ModelIr, data: &'a Json, allow_update_operations: bool) -> (r: Result<
    NestedPlan<'a>,
    ProtocolError,
>)
    ensures
        match *data {
            Json::Object(entries) => match split_refusal(models@, *model, entries@, allow_update_operations, 0) {
                Some(f) => r matches Err(e) && refused_with(e, f),
                None => r matches Ok(plan) && deep_entries(plan.scalar_data@) == scalar_members(
                    *model,
                    entries@,
                    entries@.len(),
                ) && writes_match(models@, *model, plan.owning@, nested_entries(*model, entries@, true, entries@.len()))
                    && writes_match(
                    models@,
                    *model,
                    plan.inverse@,
                    nested_entries(*model, entries@, false, entries@.len()),
                ),
            },
            _ => r matches Err(ProtocolError::InvalidParams(m)) && m@ == "data must be an object"@,
        },
{
    let entries = match data {
        Json::Object(entries) => entries,
        _ => {
            return Err(ProtocolError::InvalidParams(String::from_str("data must be an object")));
        },
    };
    let mut plan = NestedPlan { scalar_data: Vec::new(), owning: Vec::new(), inverse: Vec::new() };
    let mut k: usize = 0;
    while k < entries.len()
        invariant
            k <= entries@.len(),
            *data == Json::Object(*entries),
            split_refusal(models@, *model, entries@, allow_update_operations, 0) == split_refusal(
                models@,
                *model,
                entries@,
                allow_update_operations,
                k as int,
            ),
            deep_entries(plan.scalar_data@) == scalar_members(*model, entries@, k as nat),
            writes_match(models@, *model, plan.owning@, nested_entries(*model, entries@, true, k as nat)),
            writes_match(models@, *model, plan.inverse@, nested_entries(*model, entries@, false, k as nat)),
        decreases entries@.len() - k,
    {
        let key = entries[k].0.as_str();
        let value = &entries[k].1;
        match relation_field(model, key) {
            None => {
                object_insert(&mut plan.scalar_data, key, json_clone(value));
            },
            Some((field, relation)) => {
                let operations = match parse_operations(model, field, value, allow_update_operations) {
                    Ok(ops) => ops,
                    Err(e) => {
                        return Err(e);
                    },
                };
                if operations.len() > 0 {
                    let binding = match binding_for(models, model, field, relation) {
                        Ok(b) => b,
                        Err(e) => {
                            return Err(e);
                        },
                    };
                    let owning = match binding.side {
                        RelationSide::Owning => true,
                        _ => false,
                    };
                    let write = NestedWrite { field_name: field.logical_name.as_str(), binding, operations };
                    if owning {
                        plan.owning.push(write);
                    } else {
                        plan.inverse.push(write);
                    }
                }
            },
        }
        k = k + 1;
    }
    Ok(plan)
}

} // verus!
