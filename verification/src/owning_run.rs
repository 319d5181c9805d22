//! Running the operations of a relation whose foreign key the written model
//! holds, one store call at a time, before the parent statement: each call
//! of [`owning_step_next`] takes an operation and what the store answered to
//! its last action, decides the next action, and records in the parent's
//! [`ParentPatch`] the foreign-key columns to write and the deletes to run
//! once the parent no longer points at their rows.
use vstd::prelude::*;

use crate::ast::Value;
use crate::inverse::not_found_refusal;
use crate::join_run::{next_matches, unexpected, unexpected_answer, ActionView, JoinAction, JoinAnswer, NextView};
use crate::json::{deep_entries, json_clone, Json, JsonView};
use crate::model::{json_get, json_get_ref, ModelIr, Row};
use crate::nested_plan::members_with;
use crate::owning::{connected_filter, first_row, not_found, null_pairs, require_current, DeferredDelete, ParentPatch};
use crate::protocol::{refused_with, ProtocolError, Refusal};
use crate::relation::{key_values_refusal, model_index, row_key_pairs, RelationBinding};
use crate::text::str_eq;

verus! {

/// What an answer does to the parent's patch.
pub enum PatchChange {
    /// Nothing.
    Keep,
    /// Set these foreign-key members.
    Point(Seq<(Seq<char>, JsonView)>),
    /// Set every foreign key of the relation to null.
    Clear,
    /// Set every foreign key to null, and delete, afterwards, the related row
    /// this filter names.
    ClearAndDefer(JsonView),
}

/// Whether `new` is `old` changed by `c` for the relation `binding`.
pub open spec fn patch_changed(old: ParentPatch, new: ParentPatch, c: PatchChange, binding: RelationBinding) -> bool {
    match c {
        PatchChange::Keep => deep_entries(new.assignments@) == deep_entries(old.assignments@) && new.deferred@
            == old.deferred@,
        PatchChange::Point(pairs) => deep_entries(new.assignments@) == members_with(
            deep_entries(old.assignments@),
            pairs,
        ) && new.deferred@ == old.deferred@,
        PatchChange::Clear => deep_entries(new.assignments@) == members_with(
            deep_entries(old.assignments@),
            null_pairs(binding.foreign_keys@),
        ) && new.deferred@ == old.deferred@,
        PatchChange::ClearAndDefer(f) => {
            &&& deep_entries(new.assignments@) == members_with(
                deep_entries(old.assignments@),
                null_pairs(binding.foreign_keys@),
            )
            &&& new.deferred@.len() == old.deferred@.len() + 1
            &&& new.deferred@.take(old.deferred@.len() as int) == old.deferred@
            &&& new.deferred@.last().model@ == binding.target_model@
            &&& new.deferred@.last().filter.deep() == f
        },
    }
}

/// The foreign-key members that point the parent at `row` of the related
/// model, or the refusal reading its key meets.
pub open spec fn pointed(
    models: Seq<ModelIr>,
    target_logical_to_db: Seq<(String, String)>,
    binding: RelationBinding,
    row: Row,
) -> Result<Seq<(Seq<char>, JsonView)>, Refusal> {
    match model_index(models, binding.target_model@, 0) {
        None => Err(Refusal::InvalidModel(binding.target_model@)),
        Some(t) => match key_values_refusal(target_logical_to_db, models[t], row.columns@, binding.referenced@) {
            Some(f) => Err(f),
            None => Ok(
                row_key_pairs(
                    binding.foreign_keys@,
                    binding.referenced@,
                    target_logical_to_db,
                    models[t].db_name@,
                    row.columns@,
                ),
            ),
        },
    }
}

/// Pointing the parent at `row`, which ends the operation.
pub open spec fn point_outcome(
    models: Seq<ModelIr>,
    target_logical_to_db: Seq<(String, String)>,
    binding: RelationBinding,
    row: Row,
) -> (NextView, PatchChange) {
    match pointed(models, target_logical_to_db, binding, row) {
        Ok(pairs) => (NextView::Act(ActionView::Done), PatchChange::Point(pairs)),
        Err(f) => (NextView::Refuse(f), PatchChange::Keep),
    }
}

/// Pointing the parent at the first row a create wrote back.
pub open spec fn created_outcome(
    models: Seq<ModelIr>,
    target_logical_to_db: Seq<(String, String)>,
    binding: RelationBinding,
    field_name: Seq<char>,
    rows: Seq<Row>,
) -> (NextView, PatchChange) {
    if rows.len() == 0 {
        (
            NextView::Refuse(
                Refusal::Internal("Nested create on '"@ + field_name + "' returned no row to link the parent to"@),
            ),
            PatchChange::Keep,
        )
    } else {
        point_outcome(models, target_logical_to_db, binding, rows[0])
    }
}

/// The filter naming the related row the parent's foreign key points at.
pub open spec fn connected_view(
    logical_to_db: Seq<(String, String)>,
    model: ModelIr,
    binding: RelationBinding,
    row: Row,
) -> JsonView {
    JsonView::Object(
        members_with(
            Seq::empty(),
            row_key_pairs(binding.referenced@, binding.foreign_keys@, logical_to_db, model.db_name@, row.columns@),
        ),
    )
}

/// The refusal of an operation on the connected row without a current row.
pub open spec fn needs_current(operation: Seq<char>, field_name: Seq<char>) -> Refusal {
    Refusal::InvalidParams(
        "Nested '"@ + operation + "' on '"@ + field_name + "' needs an existing row, so it is only available on update"@,
    )
}

/// What comes next in the owning-side `operation` with `payload` on the
/// relation `binding` of `model` (whose row being updated is `current`, none
/// on a create), after the store's `answer`, and what it does to the patch:
/// - `create`: create the related row, then point the parent at it;
/// - `connect`: find it, refusing when there is none, then point at it;
/// - `connectOrCreate`: find the row `where` names; point at it when found,
///   else create one from `create` and point at that;
/// - `disconnect`: point at nothing;
/// - `update`: update the row the parent points at now;
/// - `delete`: point at nothing and delete that row afterwards;
/// - any other operation is refused.
pub open spec fn owning_next(
    models: Seq<ModelIr>,
    target_logical_to_db: Seq<(String, String)>,
    logical_to_db: Seq<(String, String)>,
    model: ModelIr,
    binding: RelationBinding,
    field_name: Seq<char>,
    current: Option<Row>,
    operation: Seq<char>,
    payload: Json,
    answer: JoinAnswer,
) -> (NextView, PatchChange) {
    let unexpected = (NextView::Refuse(unexpected_answer()), PatchChange::Keep);
    if operation == "create"@ {
        match answer {
            JoinAnswer::Start => (NextView::Act(ActionView::CreateChild(payload.deep())), PatchChange::Keep),
            JoinAnswer::Created(rows) => created_outcome(models, target_logical_to_db, binding, field_name, rows@),
            _ => unexpected,
        }
    } else if operation == "connect"@ {
        match answer {
            JoinAnswer::Start => (NextView::Act(ActionView::FindChild(payload.deep())), PatchChange::Keep),
            JoinAnswer::Found(Some(row)) => point_outcome(models, target_logical_to_db, binding, row),
            JoinAnswer::Found(None) => (
                NextView::Refuse(not_found_refusal("connect"@, field_name, binding.target_model@)),
                PatchChange::Keep,
            ),
            _ => unexpected,
        }
    } else if operation == "connectOrCreate"@ {
        match payload {
            Json::Object(o) => match answer {
                JoinAnswer::Start => match json_get(o@, "where"@) {
                    Some(w) => (NextView::Act(ActionView::FindChild(w.deep())), PatchChange::Keep),
                    None => (
                        NextView::Refuse(Refusal::InvalidParams("connectOrCreate needs a '"@ + "where"@ + "' entry"@)),
                        PatchChange::Keep,
                    ),
                },
                JoinAnswer::Found(Some(row)) => point_outcome(models, target_logical_to_db, binding, row),
                JoinAnswer::Found(None) => match json_get(o@, "create"@) {
                    Some(d) => (NextView::Act(ActionView::CreateChild(d.deep())), PatchChange::Keep),
                    None => (
                        NextView::Refuse(Refusal::InvalidParams("connectOrCreate needs a '"@ + "create"@ + "' entry"@)),
                        PatchChange::Keep,
                    ),
                },
                JoinAnswer::Created(rows) => created_outcome(models, target_logical_to_db, binding, field_name, rows@),
                _ => unexpected,
            },
            _ => (NextView::Refuse(Refusal::InvalidParams("connectOrCreate must be an object"@)), PatchChange::Keep),
        }
    } else if operation == "disconnect"@ {
        match answer {
            JoinAnswer::Start => (NextView::Act(ActionView::Done), PatchChange::Clear),
            _ => unexpected,
        }
    } else if operation == "update"@ || operation == "delete"@ {
        match answer {
            JoinAnswer::Start => match current {
                None => (NextView::Refuse(needs_current(operation, field_name)), PatchChange::Keep),
                Some(row) => match key_values_refusal(logical_to_db, model, row.columns@, binding.foreign_keys@) {
                    Some(f) => (NextView::Refuse(f), PatchChange::Keep),
                    None => if operation == "update"@ {
                        (
                            NextView::Act(
                                ActionView::UpdateChildren(connected_view(logical_to_db, model, binding, row), payload.deep()),
                            ),
                            PatchChange::Keep,
                        )
                    } else {
                        (
                            NextView::Act(ActionView::Done),
                            PatchChange::ClearAndDefer(connected_view(logical_to_db, model, binding, row)),
                        )
                    },
                },
            },
            JoinAnswer::Affected(_) => if operation == "update"@ {
                (NextView::Act(ActionView::Done), PatchChange::Keep)
            } else {
                unexpected
            },
            _ => unexpected,
        }
    } else {
        (
            NextView::Refuse(
                Refusal::UnsupportedOperation(
                    "Nested '"@ + operation + "' is not available on '"@ + model.logical_name@ + "."@ + field_name
                        + "', which is the side holding the foreign key"@,
                ),
            ),
            PatchChange::Keep,
        )
    }
}

fn point(
    models: &[ModelIr],
    target_logical_to_db: &[(String, String)],
    binding: &RelationBinding,
    row: &Row,
    patch: &mut ParentPatch,
) -> (r: Result<JoinAction, ProtocolError>)
    ensures
        next_matches(r, point_outcome(models@, target_logical_to_db@, *binding, *row).0),
        patch_changed(*old(patch), *final(patch), point_outcome(models@, target_logical_to_db@, *binding, *row).1, *binding),
{
    match patch.point_at(models, target_logical_to_db, binding, row) {
        Ok(()) => Ok(JoinAction::Done),
        Err(e) => Err(e),
    }
}

fn point_created(
    models: &[ModelIr],
    target_logical_to_db: &[(String, String)],
    binding: &RelationBinding,
    field_name: &str,
    rows: &Vec<Row>,
    patch: &mut ParentPatch,
) -> (r: Result<JoinAction, ProtocolError>)
    ensures
        next_matches(r, created_outcome(models@, target_logical_to_db@, *binding, field_name@, rows@).0),
        patch_changed(
            *old(patch),
            *final(patch),
            created_outcome(models@, target_logical_to_db@, *binding, field_name@, rows@).1,
            *binding,
        ),
{
    match first_row(rows.as_slice(), field_name) {
        Ok(row) => point(models, target_logical_to_db, binding, row, patch),
        Err(e) => Err(e),
    }
}

/// Decide what comes next in the owning-side `operation` with `payload`,
/// after the store's `answer` to the last action, and record what it does
/// to the parent's `patch`; `target_logical_to_db` is the related model's
/// field-to-column map, `logical_to_db` that of `model`.
#[verifier::rlimit(40)]
pub fn owning_step_next(
    models: &[ModelIr],
    target_logical_to_db: &[(String, String)],
    logical_to_db: &[(String, String)],
    model: &ModelIr,
    binding: &RelationBinding,
    field_name: &str,
    current: Option<&Row>,
    operation: &str,
    payload: &Json,
    answer: JoinAnswer,
    patch: &mut ParentPatch,
) -> (r: Result<JoinAction, ProtocolError>)
    ensures
        ({
            let out = owning_next(
                models@,
                target_logical_to_db@,
                logical_to_db@,
                *model,
                *binding,
                field_name@,
                match current {
                    Some(c) => Some(*c),
                    None => None,
                },
                operation@,
                *payload,
                answer,
            );
            next_matches(r, out.0) && patch_changed(*old(patch), *final(patch), out.1, *binding)
        }),
{
    proof {
        reveal_strlit("create");
        reveal_strlit("connect");
        reveal_strlit("connectOrCreate");
        reveal_strlit("disconnect");
        reveal_strlit("update");
        reveal_strlit("delete");
    }
    if str_eq(operation, "create") {
        match answer {
            JoinAnswer::Start => Ok(JoinAction::CreateChild(json_clone(payload))),
            JoinAnswer::Created(rows) => point_created(models, target_logical_to_db, binding, field_name, &rows, patch),
            _ => unexpected(),
        }
    } else if str_eq(operation, "connect") {
        match answer {
            JoinAnswer::Start => Ok(JoinAction::FindChild(json_clone(payload))),
            JoinAnswer::Found(Some(row)) => point(models, target_logical_to_db, binding, &row, patch),
            JoinAnswer::Found(None) => Err(not_found("connect", field_name, binding)),
            _ => unexpected(),
        }
    } else if str_eq(operation, "connectOrCreate") {
        match payload {
            Json::Object(o) => match answer {
                JoinAnswer::Start => match json_get_ref(o, "where") {
                    Some(w) => Ok(JoinAction::FindChild(json_clone(w))),
                    None => Err(missing_entry("where")),
                },
                JoinAnswer::Found(Some(row)) => point(models, target_logical_to_db, binding, &row, patch),
                JoinAnswer::Found(None) => match json_get_ref(o, "create") {
                    Some(d) => Ok(JoinAction::CreateChild(json_clone(d))),
                    None => Err(missing_entry("create")),
                },
                JoinAnswer::Created(rows) => point_created(models, target_logical_to_db, binding, field_name, &rows, patch),
                _ => unexpected(),
            },
            _ => {
                let r = Err(ProtocolError::InvalidParams(String::from_str("connectOrCreate must be an object")));
                proof {
                    reveal_strlit("connectOrCreate must be an object");
                }
                r
            },
        }
    } else if str_eq(operation, "disconnect") {
        match answer {
            JoinAnswer::Start => {
                patch.clear(binding);
                Ok(JoinAction::Done)
            },
            _ => unexpected(),
        }
    } else if str_eq(operation, "update") || str_eq(operation, "delete") {
        let is_update = str_eq(operation, "update");
        match answer {
            JoinAnswer::Start => {
                let row = match require_current(current, field_name, operation) {
                    Ok(row) => row,
                    Err(e) => {
                        return Err(e);
                    },
                };
                let filter = match connected_filter(logical_to_db, model, binding, row) {
                    Ok(f) => f,
                    Err(e) => {
                        return Err(e);
                    },
                };
                if is_update {
                    Ok(JoinAction::UpdateChildren { filter, data: json_clone(payload) })
                } else {
                    patch.clear(binding);
                    let ghost before = patch.deferred@;
                    patch.deferred.push(DeferredDelete { model: String::from_str(binding.target_model.as_str()), filter });
                    assert(patch.deferred@.take(before.len() as int) =~= before);
                    Ok(JoinAction::Done)
                }
            },
            JoinAnswer::Affected(_) => if is_update {
                Ok(JoinAction::Done)
            } else {
                unexpected()
            },
            _ => unexpected(),
        }
    } else {
        let mut m = String::from_str("Nested '");
        m.push_str(operation);
        m.push_str("' is not available on '");
        m.push_str(model.logical_name.as_str());
        m.push_str(".");
        m.push_str(field_name);
        m.push_str("', which is the side holding the foreign key");
        Err(ProtocolError::UnsupportedOperation(m))
    }
}

/// The refusal of a `connectOrCreate` without the entry `key`.
fn missing_entry(key: &str) -> (e: ProtocolError)
    ensures
        e matches ProtocolError::InvalidParams(m) && m@ == "connectOrCreate needs a '"@ + key@ + "' entry"@,
{
    let mut m = String::from_str("connectOrCreate needs a '");
    m.push_str(key);
    m.push_str("' entry");
    ProtocolError::InvalidParams(m)
}

/// No owning-side operation deletes a related row before the parent
/// statement: a `delete` that goes through clears the parent's foreign keys
/// and defers the deletion; and a `connectOrCreate` creates a row only after
/// finding one answered none.
pub proof fn lemma_owning_writes_wait_and_find_first(
    models: Seq<ModelIr>,
    target_logical_to_db: Seq<(String, String)>,
    logical_to_db: Seq<(String, String)>,
    model: ModelIr,
    binding: RelationBinding,
    field_name: Seq<char>,
    current: Option<Row>,
    operation: Seq<char>,
    payload: Json,
    answer: JoinAnswer,
)
    ensures
        ({
            let out = owning_next(
                models,
                target_logical_to_db,
                logical_to_db,
                model,
                binding,
                field_name,
                current,
                operation,
                payload,
                answer,
            );
            &&& !(out.0 matches NextView::Act(ActionView::DeleteChildren(_)))
            &&& operation == "delete"@ && out.0 == NextView::Act(ActionView::Done) ==> out.1 is ClearAndDefer
            &&& (operation == "connectOrCreate"@ && (out.0 matches NextView::Act(ActionView::CreateChild(_))))
                ==> answer == JoinAnswer::Found(None)
        }),
{
    reveal_strlit("create");
    reveal_strlit("connect");
    reveal_strlit("connectOrCreate");
    reveal_strlit("disconnect");
    reveal_strlit("update");
    reveal_strlit("delete");
    assert("delete"@[0] != "create"@[0] && "delete"@[0] != "connect"@[0] && "delete"@[0] != "connectOrCreate"@[0]);
    assert("delete"@.len() != "disconnect"@.len() && "delete"@[0] != "update"@[0]);
    assert("connectOrCreate"@.len() != "create"@.len() && "connectOrCreate"@.len() != "connect"@.len());
    assert("connectOrCreate"@[0] != "disconnect"@[0] && "connectOrCreate"@[0] != "update"@[0]);
    assert("connectOrCreate"@[0] != "delete"@[0]);
}

} // verus!
