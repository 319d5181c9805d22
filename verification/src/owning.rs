//! The side where the written model holds the foreign key: the related row
//! has to exist before the parent statement runs, so its writes resolve first
//! and contribute foreign-key columns to the payload the parent writes. A
//! `delete` goes the other way: it waits until the parent no longer points at
//! the row.
use vstd::prelude::*;

use crate::ast::Value;
use crate::distinct::{clone_value, deep_value};
use crate::hydrate::{lemma_plain_view_deep, object_insert, plain_json, plain_view};
use crate::json::{deep_entries, Json, JsonView};
use crate::model::{row_get, ManyToManyJoinIr, ModelIr, Row};
use crate::naming::{qualified_name, qualified_name_of};
use crate::nested_plan::members_with;
use crate::protocol::{refused_with, ProtocolError};
use crate::relation::{
    first_unread, key_cell, key_filter, key_members, key_values_refusal, model_index, model_or_error,
    row_key_pairs, row_key_values, RelationBinding,
};

verus! {

/// A delete held back until the parent no longer references the row.
pub struct DeferredDelete {
    pub model: String,
    pub filter: Json,
}

/// What the owning-side writes contribute to the parent statement: the
/// foreign-key columns to set, and the deletes to run afterwards.
pub struct ParentPatch {
    pub assignments: Vec<(String, Json)>,
    pub deferred: Vec<DeferredDelete>,
}

/// The members that set each of `names` to null, in turn.
pub open spec fn null_pairs(names: Seq<String>) -> Seq<(Seq<char>, JsonView)> {
    names.map_values(|n: String| (n@, JsonView::Null))
}

impl ParentPatch {
    /// A patch that changes nothing.
    pub fn new() -> (r: Self)
        ensures
            r.assignments@.len() == 0,
            r.deferred@.len() == 0,
    {
        ParentPatch { assignments: Vec::new(), deferred: Vec::new() }
    }

    /// Point the parent at `row` of the related model by copying the columns
    /// the relation references into its foreign-key fields;
    /// `target_logical_to_db` is the related model's field-to-column map.
    pub fn point_at(
        &mut self,
        models: &[ModelIr],
        target_logical_to_db: &[(String, String)],
        binding: &RelationBinding,
        row: &Row,
    ) -> (r: Result<(), ProtocolError>)
        ensures
            final(self).deferred@ == old(self).deferred@,
            match model_index(models@, binding.target_model@, 0) {
                None => (r matches Err(ProtocolError::InvalidModel(m)) && m@ == binding.target_model@)
                    && final(self).assignments@ == old(self).assignments@,
                Some(t) => match key_values_refusal(target_logical_to_db@, models@[t], row.columns@, binding.referenced@) {
                    Some(f) => (r matches Err(e) && refused_with(e, f)) && final(self).assignments@
                        == old(self).assignments@,
                    None => r is Ok && deep_entries(final(self).assignments@) == members_with(
                        deep_entries(old(self).assignments@),
                        row_key_pairs(
                            binding.foreign_keys@,
                            binding.referenced@,
                            target_logical_to_db@,
                            models@[t].db_name@,
                            row.columns@,
                        ),
                    ),
                },
            },
    {
        let target = match model_or_error(models, binding.target_model.as_str()) {
            Ok(t) => t,
            Err(e) => {
                return Err(e);
            },
        };
        let values = match row_key_values(target_logical_to_db, target, row, binding.referenced.as_slice()) {
            Ok(vs) => vs,
            Err(e) => {
                return Err(e);
            },
        };
        let ghost pairs = row_key_pairs(
            binding.foreign_keys@,
            binding.referenced@,
            target_logical_to_db@,
            target.db_name@,
            row.columns@,
        );
        let ghost start = deep_entries(self.assignments@);
        let n: usize = if binding.foreign_keys.len() <= values.len() {
            binding.foreign_keys.len()
        } else {
            values.len()
        };
        let mut i: usize = 0;
        assert(pairs.take(0) =~= Seq::<(Seq<char>, JsonView)>::empty());
        while i < n
            invariant
                i <= n,
                pairs == row_key_pairs(
                    binding.foreign_keys@,
                    binding.referenced@,
                    target_logical_to_db@,
                    target.db_name@,
                    row.columns@,
                ),
                n == pairs.len(),
                n <= binding.foreign_keys@.len(),
                n <= values@.len(),
                values@.len() == binding.referenced@.len(),
                forall|j: int|
                    0 <= j < binding.referenced@.len() ==> (key_cell(
                        target_logical_to_db@,
                        target.db_name@,
                        row.columns@,
                        #[trigger] binding.referenced@[j]@,
                    ) matches Some(Some(v)) && deep_value(v) == deep_value(values@[j])),
                deep_entries(self.assignments@) == members_with(start, pairs.take(i as int)),
                self.deferred@ == old(self).deferred@,
            decreases n - i,
        {
            let json = plain_json(&values[i]);
            proof {
                let w = key_cell(
                    target_logical_to_db@,
                    target.db_name@,
                    row.columns@,
                    binding.referenced@[i as int]@,
                )->Some_0->Some_0;
                assert(key_cell(
                    target_logical_to_db@,
                    target.db_name@,
                    row.columns@,
                    binding.referenced@[i as int]@,
                ) matches Some(Some(v)) && deep_value(v) == deep_value(values@[i as int]));
                lemma_plain_view_deep(w, values@[i as int]);
                assert(pairs[i as int] == (binding.foreign_keys@[i as int]@, plain_view(w)));
                assert(pairs.take(i + 1).last() == pairs[i as int]);
                assert(pairs.take(i + 1).drop_last() =~= pairs.take(i as int));
            }
            object_insert(&mut self.assignments, binding.foreign_keys[i].as_str(), json);
            i = i + 1;
        }
        assert(pairs.take(n as int) =~= pairs);
        Ok(())
    }

    /// Leave the parent pointing at nothing through this relation.
    pub fn clear(&mut self, binding: &RelationBinding)
        ensures
            final(self).deferred@ == old(self).deferred@,
            deep_entries(final(self).assignments@) == members_with(
                deep_entries(old(self).assignments@),
                null_pairs(binding.foreign_keys@),
            ),
    {
        let ghost pairs = null_pairs(binding.foreign_keys@);
        let ghost start = deep_entries(self.assignments@);
        let mut i: usize = 0;
        assert(pairs.take(0) =~= Seq::<(Seq<char>, JsonView)>::empty());
        while i < binding.foreign_keys.len()
            invariant
                i <= binding.foreign_keys@.len(),
                pairs == null_pairs(binding.foreign_keys@),
                pairs.len() == binding.foreign_keys@.len(),
                deep_entries(self.assignments@) == members_with(start, pairs.take(i as int)),
                self.deferred@ == old(self).deferred@,
            decreases binding.foreign_keys@.len() - i,
        {
            proof {
                assert(pairs.take(i + 1).drop_last() =~= pairs.take(i as int));
            }
            object_insert(&mut self.assignments, binding.foreign_keys[i].as_str(), Json::Null);
            proof {
                assert(pairs[i as int] == (binding.foreign_keys@[i as int]@, JsonView::Null));
                assert(pairs.take(i + 1).last() == pairs[i as int]);
            }
            i = i + 1;
        }
        assert(pairs.take(binding.foreign_keys@.len() as int) =~= pairs);
    }
}

/// The row an operation on the row already connected needs: the row being
/// updated, which a create does not have.
pub fn require_current<'a>(current: Option<&'a Row>, field_name: &str, operation: &str) -> (r: Result<&'a Row, ProtocolError>)
    ensures
        match current {
            Some(row) => r == Ok::<&Row, ProtocolError>(row),
            None => r matches Err(ProtocolError::InvalidParams(m)) && m@ == "Nested '"@ + operation@ + "' on '"@
                + field_name@ + "' needs an existing row, so it is only available on update"@,
        },
{
    match current {
        Some(row) => Ok(row),
        None => {
            let mut m = String::from_str("Nested '");
            m.push_str(operation);
            m.push_str("' on '");
            m.push_str(field_name);
            m.push_str("' needs an existing row, so it is only available on update");
            Err(ProtocolError::InvalidParams(m))
        },
    }
}

/// `key_members` of values with the JSON forms `pairs` gives is the fold of
/// `pairs`.
pub proof fn lemma_key_members_pairs(fields: Seq<String>, values: Seq<Value>, pairs: Seq<(Seq<char>, JsonView)>, n: nat)
    requires
        n <= pairs.len(),
        n <= fields.len(),
        n <= values.len(),
        forall|i: int| 0 <= i < n ==> #[trigger] pairs[i] == (fields[i]@, plain_view(values[i])),
    ensures
        key_members(fields, values, n) == members_with(Seq::empty(), pairs.take(n as int)),
    decreases n,
{
    if n > 0 {
        lemma_key_members_pairs(fields, values, pairs, (n - 1) as nat);
        assert(pairs.take(n as int).drop_last() =~= pairs.take(n - 1));
        assert(pairs[n - 1] == (fields[n - 1]@, plain_view(values[n - 1])));
    } else {
        assert(pairs.take(0) =~= Seq::<(Seq<char>, JsonView)>::empty());
    }
}

/// The filter matching the row the parent's foreign key currently points at:
/// the referenced fields equal to the foreign-key values of `current`, a row
/// of `model` read with `logical_to_db`.
pub fn connected_filter(
    logical_to_db: &[(String, String)],
    model: &ModelIr,
    binding: &RelationBinding,
    current: &Row,
) -> (r: Result<Json, ProtocolError>)
    ensures
        match key_values_refusal(logical_to_db@, *model, current.columns@, binding.foreign_keys@) {
            Some(f) => r matches Err(e) && refused_with(e, f),
            None => r matches Ok(j) && j.deep() == JsonView::Object(
                members_with(
                    Seq::empty(),
                    row_key_pairs(binding.referenced@, binding.foreign_keys@, logical_to_db@, model.db_name@, current.columns@),
                ),
            ),
        },
{
    let values = match row_key_values(logical_to_db, model, current, binding.foreign_keys.as_slice()) {
        Ok(vs) => vs,
        Err(e) => {
            return Err(e);
        },
    };
    let ghost pairs = row_key_pairs(
        binding.referenced@,
        binding.foreign_keys@,
        logical_to_db@,
        model.db_name@,
        current.columns@,
    );
    proof {
        assert forall|i: int| 0 <= i < pairs.len() implies #[trigger] pairs[i] == (binding.referenced@[i]@, plain_view(values@[i])) by {
            let w = key_cell(logical_to_db@, model.db_name@, current.columns@, binding.foreign_keys@[i]@)->Some_0->Some_0;
            lemma_plain_view_deep(w, values@[i]);
        }
        lemma_key_members_pairs(binding.referenced@, values@, pairs, pairs.len());
        assert(pairs.take(pairs.len() as int) =~= pairs);
    }
    Ok(key_filter(binding.referenced.as_slice(), values.as_slice()))
}

/// The row a nested create was supposed to produce.
pub fn first_row<'a>(rows: &'a [Row], field_name: &str) -> (r: Result<&'a Row, ProtocolError>)
    ensures
        rows@.len() > 0 ==> r == Ok::<&Row, ProtocolError>(&rows@[0]),
        rows@.len() == 0 ==> (r matches Err(ProtocolError::Internal(m)) && m@ == "Nested create on '"@ + field_name@
            + "' returned no row to link the parent to"@),
{
    if rows.len() > 0 {
        Ok(&rows[0])
    } else {
        let mut m = String::from_str("Nested create on '");
        m.push_str(field_name);
        m.push_str("' returned no row to link the parent to");
        Err(ProtocolError::Internal(m))
    }
}

/// The refusal for an operation that named a row the relation does not reach.
pub fn not_found(operation: &str, field_name: &str, binding: &RelationBinding) -> (r: ProtocolError)
    ensures
        r matches ProtocolError::RecordNotFound(m) && m@ == "Nested "@ + operation@ + " on '"@ + field_name@
            + "' matched no '"@ + binding.target_model@ + "' record"@,
{
    let mut m = String::from_str("Nested ");
    m.push_str(operation);
    m.push_str(" on '");
    m.push_str(field_name);
    m.push_str("' matched no '");
    m.push_str(binding.target_model.as_str());
    m.push_str("' record");
    ProtocolError::RecordNotFound(m)
}

/// The value the join-table row `row` holds in `column`.
pub fn join_column(join: &ManyToManyJoinIr, row: &Row, column: &str) -> (r: Option<Value>)
    ensures
        match row_get(row.columns@, qualified_name(join.table@, column@)) {
            Some(v) => r matches Some(w) && deep_value(w) == deep_value(v),
            None => r is None,
        },
{
    let name = qualified_name_of(join.table.as_str(), column);
    match row.get(name.as_str()) {
        Some(v) => Some(clone_value(v)),
        None => None,
    }
}

} // verus!
