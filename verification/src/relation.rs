//! Which model of a relation carries the foreign key, and the field lists a
//! nested write follows from it: the side decides whether a nested operation
//! runs before the parent statement, after it, or against a join table.
use vstd::prelude::*;

use crate::ast::Value;
use crate::conversion::ResolvedFieldType;
use crate::distinct::{clone_value, deep_value};
use crate::hydrate::{object_insert, plain_json, plain_view};
use crate::json::{deep_entries, Json, JsonView};
use crate::model::{row_get, FieldIr, ManyToManyJoinIr, ModelIr, RelationIr, Row};
use crate::naming::{lookup, lookup_value, qualified_name, qualified_name_of, snake_case, to_snake_case, views_of};
use crate::ordered::map_insert;
use crate::protocol::{refused_with, ProtocolError, Refusal};
use crate::text::str_eq;

verus! {

/// Which model carries the foreign-key columns of a relation.
#[derive(Debug, Clone, Copy, PartialEq, Eq)]
pub enum RelationSide {
    /// The written model holds them; the related row must exist first.
    Owning,
    /// The related model holds them; the parent row must exist first.
    Inverse,
    /// Neither does: the links live in a join table.
    ManyToMany,
}

/// The two field lists a nested write needs, as logical names: the fields
/// that hold the foreign key, and the fields it points at.
#[derive(Debug, PartialEq)]
pub struct RelationBinding {
    pub target_model: String,
    pub side: RelationSide,
    /// Empty on a many-to-many, where no model holds a foreign key.
    pub foreign_keys: Vec<String>,
    /// On a many-to-many, the written model's own key that the join table
    /// stores.
    pub referenced: Vec<String>,
    pub via: Option<ManyToManyJoinIr>,
}

/// Whether `key` names the relation field `field`: by its logical name, its
/// column name, or the snake_case spelling of its logical name.
pub open spec fn names_relation(field: FieldIr, key: Seq<char>) -> bool {
    field.field_type is Relation && (field.logical_name@ == key || field.db_name@ == key || snake_case(
        field.logical_name@,
    ) == key)
}

/// The index of the first relation field from `k` on that `key` names.
pub open spec fn relation_field_index(fields: Seq<FieldIr>, key: Seq<char>, k: int) -> Option<int>
    decreases fields.len() - k,
{
    if k < 0 || k >= fields.len() {
        None
    } else if names_relation(fields[k], key) {
        Some(k)
    } else {
        relation_field_index(fields, key, k + 1)
    }
}

/// The relation field `key` names, in the wire spelling or the snake_case one,
/// with its relation.
pub fn relation_field<'a>(model: &'a ModelIr, key: &str) -> (r: Option<(&'a FieldIr, &'a RelationIr)>)
    ensures
        match relation_field_index(model.fields@, key@, 0) {
            Some(i) => r matches Some((f, rel)) && *f == model.fields@[i] && f.field_type == ResolvedFieldType::Relation(*rel),
            None => r is None,
        },
{
    let mut i: usize = 0;
    while i < model.fields.len()
        invariant
            i <= model.fields@.len(),
            relation_field_index(model.fields@, key@, 0) == relation_field_index(model.fields@, key@, i as int),
        decreases model.fields@.len() - i,
    {
        let field = &model.fields[i];
        if let ResolvedFieldType::Relation(relation) = &field.field_type {
            if str_eq(field.logical_name.as_str(), key) || str_eq(field.db_name.as_str(), key) || str_eq(
                to_snake_case(field.logical_name.as_str()).as_str(),
                key,
            ) {
                return Some((field, relation));
            }
        }
        i = i + 1;
    }
    None
}

/// Whether the relation field `candidate` of the target model is the other
/// end of `relation` from `model`: it points back at `model`, names the
/// foreign-key fields, and carries the relation's name when it has one.
pub open spec fn is_inverse(candidate: FieldIr, model: ModelIr, relation: RelationIr) -> bool {
    match candidate.field_type {
        ResolvedFieldType::Relation(inv) => inv.target_model@ == model.logical_name@ && inv.fields@.len() > 0
            && match relation.name {
            Some(n) => inv.name matches Some(m) && m@ == n@,
            None => true,
        },
        _ => false,
    }
}

/// The indices of the fields among `fields` that are the other end of
/// `relation`, in order.
pub open spec fn inverse_indices(fields: Seq<FieldIr>, model: ModelIr, relation: RelationIr) -> Seq<int>
    decreases fields.len(),
{
    if fields.len() == 0 {
        Seq::empty()
    } else if is_inverse(fields.last(), model, relation) {
        inverse_indices(fields.drop_last(), model, relation).push(fields.len() - 1)
    } else {
        inverse_indices(fields.drop_last(), model, relation)
    }
}

proof fn lemma_inverse_indices(fields: Seq<FieldIr>, model: ModelIr, relation: RelationIr)
    ensures
        forall|k: int| 0 <= k < inverse_indices(fields, model, relation).len() ==> {
            let i = #[trigger] inverse_indices(fields, model, relation)[k];
            0 <= i < fields.len() && is_inverse(fields[i], model, relation)
        },
    decreases fields.len(),
{
    if fields.len() > 0 {
        lemma_inverse_indices(fields.drop_last(), model, relation);
        let prev = inverse_indices(fields.drop_last(), model, relation);
        assert forall|k: int| 0 <= k < inverse_indices(fields, model, relation).len() implies {
            let i = #[trigger] inverse_indices(fields, model, relation)[k];
            0 <= i < fields.len() && is_inverse(fields[i], model, relation)
        } by {
            if k < prev.len() {
                assert(inverse_indices(fields, model, relation)[k] == prev[k]);
                assert(fields.drop_last()[prev[k]] == fields[prev[k]]);
            }
        }
    }
}

/// Find the relation on `target` that is the other end of `relation`: the
/// one side that names the foreign key, and the only one.
pub fn inverse_relation<'a>(model: &ModelIr, field: &FieldIr, relation: &RelationIr, target: &'a ModelIr) -> (r: Result<&'a RelationIr, ProtocolError>)
    ensures
        ({
            let found = inverse_indices(target.fields@, *model, *relation);
            if found.len() == 0 {
                r matches Err(ProtocolError::QueryPlanning(m)) && m@ == "Nested write on '"@ + model.logical_name@ + "."@
                    + field.logical_name@ + "' needs the foreign-key side of the relation on model '"@
                    + target.logical_name@ + "', and none was found"@
            } else if found.len() > 1 {
                r matches Err(ProtocolError::QueryPlanning(m)) && m@ == "Nested write on '"@ + model.logical_name@ + "."@
                    + field.logical_name@ + "' is ambiguous: model '"@ + target.logical_name@
                    + "' declares more than one relation back to '"@ + model.logical_name@ + "'"@
            } else {
                r matches Ok(inv) && target.fields@[found[0]].field_type == ResolvedFieldType::Relation(*inv)
            }
        }),
{
    let mut first: Option<&'a RelationIr> = None;
    let mut first_index: usize = 0;
    let mut count: usize = 0;
    let mut i: usize = 0;
    while i < target.fields.len() && count < 2
        invariant
            i <= target.fields@.len(),
            count <= 2,
            count <= i,
            ({
                let found = inverse_indices(target.fields@.take(i as int), *model, *relation);
                &&& (count < 2 ==> found.len() == count)
                &&& (count == 2 ==> found.len() >= 2)
                &&& (count >= 1 ==> (first matches Some(inv) && found[0] == first_index && first_index < i
                    && target.fields@[first_index as int].field_type == ResolvedFieldType::Relation(*inv)))
            }),
        decreases target.fields@.len() - i,
    {
        let ghost pre = target.fields@.take(i as int);
        assert(target.fields@.take(i + 1).drop_last() =~= pre);
        assert(target.fields@.take(i + 1).last() == target.fields@[i as int]);
        let candidate = &target.fields[i];
        if let ResolvedFieldType::Relation(inv) = &candidate.field_type {
            let points_back = str_eq(inv.target_model.as_str(), model.logical_name.as_str()) && inv.fields.len() > 0;
            let same_name = match &relation.name {
                Some(n) => match &inv.name {
                    Some(m) => str_eq(m.as_str(), n.as_str()),
                    None => false,
                },
                None => true,
            };
            if points_back && same_name {
                assert(is_inverse(*candidate, *model, *relation));
                if count == 0 {
                    first = Some(inv);
                    first_index = i;
                }
                count = count + 1;
            } else {
                assert(!is_inverse(*candidate, *model, *relation));
            }
        }
        i = i + 1;
    }
    proof {
        let all = inverse_indices(target.fields@, *model, *relation);
        if count < 2 {
            assert(target.fields@.take(i as int) =~= target.fields@);
        } else {
            lemma_inverse_prefix(target.fields@, i as int, *model, *relation);
        }
    }
    if count == 0 {
        let mut m = String::from_str("Nested write on '");
        m.push_str(model.logical_name.as_str());
        m.push_str(".");
        m.push_str(field.logical_name.as_str());
        m.push_str("' needs the foreign-key side of the relation on model '");
        m.push_str(target.logical_name.as_str());
        m.push_str("', and none was found");
        return Err(ProtocolError::QueryPlanning(m));
    }
    if count > 1 {
        let mut m = String::from_str("Nested write on '");
        m.push_str(model.logical_name.as_str());
        m.push_str(".");
        m.push_str(field.logical_name.as_str());
        m.push_str("' is ambiguous: model '");
        m.push_str(target.logical_name.as_str());
        m.push_str("' declares more than one relation back to '");
        m.push_str(model.logical_name.as_str());
        m.push_str("'");
        return Err(ProtocolError::QueryPlanning(m));
    }
    Ok(first.unwrap())
}

/// The inverse indices of a prefix are a prefix of those of the whole.
proof fn lemma_inverse_prefix(fields: Seq<FieldIr>, n: int, model: ModelIr, relation: RelationIr)
    requires
        0 <= n <= fields.len(),
    ensures
        inverse_indices(fields, model, relation).len() >= inverse_indices(fields.take(n), model, relation).len(),
        forall|k: int|
            0 <= k < inverse_indices(fields.take(n), model, relation).len() ==> inverse_indices(fields, model, relation)[k]
                == #[trigger] inverse_indices(fields.take(n), model, relation)[k],
    decreases fields.len() - n,
{
    if n < fields.len() {
        lemma_inverse_prefix(fields, n + 1, model, relation);
        assert(fields.take(n + 1).drop_last() =~= fields.take(n));
        let a = inverse_indices(fields.take(n + 1), model, relation);
        let b = inverse_indices(fields.take(n), model, relation);
        assert(a.len() >= b.len());
        assert forall|k: int| 0 <= k < b.len() implies a[k] == b[k] by {
            if is_inverse(fields.take(n + 1).last(), model, relation) {
                assert(a == b.push(n));
            } else {
                assert(a == b);
            }
        }
    } else {
        assert(fields.take(n) =~= fields);
    }
}

/// The index of the first model from `k` on named `name`.
pub open spec fn model_index(models: Seq<ModelIr>, name: Seq<char>, k: int) -> Option<int>
    decreases models.len() - k,
{
    if k < 0 || k >= models.len() {
        None
    } else if models[k].logical_name@ == name {
        Some(k)
    } else {
        model_index(models, name, k + 1)
    }
}

fn copy_strings(v: &Vec<String>) -> (r: Vec<String>)
    ensures
        views_of(r@) == views_of(v@),
{
    let mut r: Vec<String> = Vec::new();
    let mut i: usize = 0;
    while i < v.len()
        invariant
            i <= v@.len(),
            views_of(r@) == views_of(v@.take(i as int)),
        decreases v@.len() - i,
    {
        let ghost before = r@;
        let copy = String::from_str(v[i].as_str());
        r.push(copy);
        assert(v@.take(i + 1) =~= v@.take(i as int).push(v@[i as int]));
        assert(views_of(r@) =~= views_of(before).push(copy@));
        assert(views_of(v@.take(i + 1)) =~= views_of(v@.take(i as int)).push(v@[i as int]@));
        i = i + 1;
    }
    assert(v@.take(v@.len() as int) =~= v@);
    r
}

/// Whether two join tables name the same columns and fields.
pub open spec fn same_join(a: ManyToManyJoinIr, b: ManyToManyJoinIr) -> bool {
    a.table@ == b.table@ && a.self_column@ == b.self_column@ && a.target_column@ == b.target_column@
        && a.self_reference@ == b.self_reference@ && a.target_reference@ == b.target_reference@
}

fn copy_join(j: &ManyToManyJoinIr) -> (r: ManyToManyJoinIr)
    ensures
        same_join(r, *j),
{
    ManyToManyJoinIr {
        table: String::from_str(j.table.as_str()),
        self_column: String::from_str(j.self_column.as_str()),
        target_column: String::from_str(j.target_column.as_str()),
        self_reference: String::from_str(j.self_reference.as_str()),
        target_reference: String::from_str(j.target_reference.as_str()),
    }
}

/// Whether `b` is the binding `relation` resolves to, with `inverse` the
/// other end where the related model holds the foreign key.
pub open spec fn binds(b: RelationBinding, target: ModelIr, relation: RelationIr, inverse: Option<RelationIr>) -> bool {
    b.target_model@ == target.logical_name@ && match relation.join {
        Some(join) => b.side == RelationSide::ManyToMany && b.foreign_keys@.len() == 0 && views_of(b.referenced@)
            == seq![join.self_reference@] && (b.via matches Some(v) && same_join(v, join)),
        None => b.via is None && if relation.fields@.len() == 0 {
            inverse matches Some(inv) && b.side == RelationSide::Inverse && views_of(b.foreign_keys@) == views_of(
                inv.fields@,
            ) && views_of(b.referenced@) == views_of(inv.references@)
        } else {
            b.side == RelationSide::Owning && views_of(b.foreign_keys@) == views_of(relation.fields@) && views_of(
                b.referenced@,
            ) == views_of(relation.references@)
        },
    }
}

/// The refusal resolving `relation` meets, if any: an unknown related model,
/// or, where this side names no foreign key, no other end or more than one.
pub open spec fn binding_refusal(models: Seq<ModelIr>, model: ModelIr, field: FieldIr, relation: RelationIr) -> Option<Refusal> {
    match model_index(models, relation.target_model@, 0) {
        None => Some(
            Refusal::InvalidModel(
                "Relation '"@ + model.logical_name@ + "."@ + field.logical_name@ + "' targets unknown model '"@
                    + relation.target_model@ + "'"@,
            ),
        ),
        Some(t) => {
            let target = models[t];
            let found = inverse_indices(target.fields@, model, relation);
            if relation.join is None && relation.fields@.len() == 0 && found.len() == 0 {
                Some(
                    Refusal::QueryPlanning(
                        "Nested write on '"@ + model.logical_name@ + "."@ + field.logical_name@
                            + "' needs the foreign-key side of the relation on model '"@ + target.logical_name@
                            + "', and none was found"@,
                    ),
                )
            } else if relation.join is None && relation.fields@.len() == 0 && found.len() > 1 {
                Some(
                    Refusal::QueryPlanning(
                        "Nested write on '"@ + model.logical_name@ + "."@ + field.logical_name@
                            + "' is ambiguous: model '"@ + target.logical_name@
                            + "' declares more than one relation back to '"@ + model.logical_name@ + "'"@,
                    ),
                )
            } else {
                None
            }
        },
    }
}

/// Whether `r` is what resolving `relation` gives: its refusal, or the
/// binding to the related model, with the other end of the relation where
/// that end holds the foreign key.
pub open spec fn binding_result(
    models: Seq<ModelIr>,
    model: ModelIr,
    field: FieldIr,
    relation: RelationIr,
    r: Result<RelationBinding, ProtocolError>,
) -> bool {
    match binding_refusal(models, model, field, relation) {
        Some(f) => r matches Err(e) && refused_with(e, f),
        None => {
            let target = models[model_index(models, relation.target_model@, 0).unwrap()];
            let found = inverse_indices(target.fields@, model, relation);
            r matches Ok(b) && binds(
                b,
                target,
                relation,
                if relation.join is None && relation.fields@.len() == 0 {
                    match target.fields@[found[0]].field_type {
                        ResolvedFieldType::Relation(inv) => Some(inv),
                        _ => None,
                    }
                } else {
                    None
                },
            )
        },
    }
}

/// Resolve the side of `relation` and the key fields its operations work
/// with: a join table makes it many-to-many; a relation that names the
/// foreign-key fields is the owning side; otherwise the related model's end
/// of the relation names them.
pub fn binding_for(models: &[ModelIr], model: &ModelIr, field: &FieldIr, relation: &RelationIr) -> (r: Result<RelationBinding, ProtocolError>)
    ensures
        binding_result(models@, *model, *field, *relation, r),
{
    let mut t: usize = 0;
    while t < models.len() && !str_eq(models[t].logical_name.as_str(), relation.target_model.as_str())
        invariant
            t <= models@.len(),
            model_index(models@, relation.target_model@, 0) == model_index(models@, relation.target_model@, t as int),
        decreases models@.len() - t,
    {
        t = t + 1;
    }
    if t == models.len() {
        let mut m = String::from_str("Relation '");
        m.push_str(model.logical_name.as_str());
        m.push_str(".");
        m.push_str(field.logical_name.as_str());
        m.push_str("' targets unknown model '");
        m.push_str(relation.target_model.as_str());
        m.push_str("'");
        return Err(ProtocolError::InvalidModel(m));
    }
    let target = &models[t];
    if let Some(join) = &relation.join {
        let mut referenced: Vec<String> = Vec::new();
        referenced.push(String::from_str(join.self_reference.as_str()));
        assert(views_of(referenced@) =~= seq![join.self_reference@]);
        let foreign_keys: Vec<String> = Vec::new();
        assert(foreign_keys@.len() == 0);
        return Ok(
            RelationBinding {
                target_model: String::from_str(target.logical_name.as_str()),
                side: RelationSide::ManyToMany,
                foreign_keys,
                referenced,
                via: Some(copy_join(join)),
            },
        );
    }
    if relation.fields.len() == 0 {
        let inverse = match inverse_relation(model, field, relation, target) {
            Ok(inv) => inv,
            Err(e) => {
                return Err(e);
            },
        };
        Ok(
            RelationBinding {
                target_model: String::from_str(target.logical_name.as_str()),
                side: RelationSide::Inverse,
                foreign_keys: copy_strings(&inverse.fields),
                referenced: copy_strings(&inverse.references),
                via: None,
            },
        )
    } else {
        Ok(
            RelationBinding {
                target_model: String::from_str(target.logical_name.as_str()),
                side: RelationSide::Owning,
                foreign_keys: copy_strings(&relation.fields),
                referenced: copy_strings(&relation.references),
                via: None,
            },
        )
    }
}

/// What reading the key field `field` out of a row of the table `table`
/// gives: `None` when the model maps no column to it, `Some(None)` when the
/// row lacks that column, and otherwise the value held there.
pub open spec fn key_cell(
    logical_to_db: Seq<(String, String)>,
    table: Seq<char>,
    columns: Seq<(String, Value)>,
    field: Seq<char>,
) -> Option<Option<Value>> {
    match lookup(logical_to_db, field) {
        None => None,
        Some(db) => Some(row_get(columns, qualified_name(table, db))),
    }
}

/// The first of `fields` from `k` on whose value cannot be read.
pub open spec fn first_unread(
    logical_to_db: Seq<(String, String)>,
    table: Seq<char>,
    columns: Seq<(String, Value)>,
    fields: Seq<String>,
    k: int,
) -> Option<int>
    decreases fields.len() - k,
{
    if k < 0 || k >= fields.len() {
        None
    } else if key_cell(logical_to_db, table, columns, fields[k]@) matches Some(Some(_)) {
        first_unread(logical_to_db, table, columns, fields, k + 1)
    } else {
        Some(k)
    }
}

/// Read the values of the key fields `fields` out of a row of `model`, whose
/// columns are named `table__column`; `logical_to_db` maps the model's field
/// names to its column names.
pub fn row_key_values(logical_to_db: &[(String, String)], model: &ModelIr, row: &Row, fields: &[String]) -> (r: Result<
    Vec<Value>,
    ProtocolError,
>)
    ensures
        match first_unread(logical_to_db@, model.db_name@, row.columns@, fields@, 0) {
            None => r matches Ok(vs) && vs@.len() == fields@.len() && forall|i: int|
                0 <= i < fields@.len() ==> (key_cell(logical_to_db@, model.db_name@, row.columns@, #[trigger] fields@[i]@)
                    matches Some(Some(v)) && deep_value(v) == deep_value(vs@[i])),
            Some(k) => if key_cell(logical_to_db@, model.db_name@, row.columns@, fields@[k]@) is None {
                r matches Err(ProtocolError::QueryPlanning(m)) && m@ == "Relation on model '"@ + model.logical_name@
                    + "' references unknown field '"@ + fields@[k]@ + "'"@
            } else {
                r matches Err(ProtocolError::Internal(m)) && m@ == "Nested write could not read '"@ + model.logical_name@
                    + "."@ + fields@[k]@ + "' back from the written row"@
            },
        },
{
    let mut out: Vec<Value> = Vec::new();
    let mut i: usize = 0;
    while i < fields.len()
        invariant
            i <= fields@.len(),
            out@.len() == i,
            first_unread(logical_to_db@, model.db_name@, row.columns@, fields@, 0) == first_unread(
                logical_to_db@,
                model.db_name@,
                row.columns@,
                fields@,
                i as int,
            ),
            forall|j: int|
                0 <= j < i ==> (key_cell(logical_to_db@, model.db_name@, row.columns@, #[trigger] fields@[j]@)
                    matches Some(Some(v)) && deep_value(v) == deep_value(out@[j])),
        decreases fields@.len() - i,
    {
        let name = fields[i].as_str();
        let db = match lookup_value(logical_to_db, name) {
            Some(db) => db,
            None => {
                let mut m = String::from_str("Relation on model '");
                m.push_str(model.logical_name.as_str());
                m.push_str("' references unknown field '");
                m.push_str(name);
                m.push_str("'");
                return Err(ProtocolError::QueryPlanning(m));
            },
        };
        let column = qualified_name_of(model.db_name.as_str(), db);
        match row.get(column.as_str()) {
            Some(v) => {
                out.push(clone_value(v));
            },
            None => {
                let mut m = String::from_str("Nested write could not read '");
                m.push_str(model.logical_name.as_str());
                m.push_str(".");
                m.push_str(name);
                m.push_str("' back from the written row");
                return Err(ProtocolError::Internal(m));
            },
        }
        i = i + 1;
    }
    Ok(out)
}

/// The members of the filter that pairs the first `n` of `fields` with
/// `values`, each value in its JSON form, in key order.
pub open spec fn key_members(fields: Seq<String>, values: Seq<Value>, n: nat) -> Seq<(Seq<char>, JsonView)>
    decreases n,
{
    if n == 0 {
        Seq::empty()
    } else {
        map_insert(key_members(fields, values, (n - 1) as nat), fields[n - 1]@, plain_view(values[n - 1]))
    }
}

/// A filter matching the rows whose `fields` hold `values`, pairing them
/// up to the shorter of the two lists.
pub fn key_filter(fields: &[String], values: &[Value]) -> (r: Json)
    ensures
        r.deep() == JsonView::Object(
            key_members(fields@, values@, if fields@.len() <= values@.len() { fields@.len() } else { values@.len() }),
        ),
{
    let n: usize = if fields.len() <= values.len() { fields.len() } else { values.len() };
    let mut filter: Vec<(String, Json)> = Vec::new();
    let mut i: usize = 0;
    while i < n
        invariant
            i <= n,
            n <= fields@.len(),
            n <= values@.len(),
            deep_entries(filter@) == key_members(fields@, values@, i as nat),
        decreases n - i,
    {
        object_insert(&mut filter, fields[i].as_str(), plain_json(&values[i]));
        i = i + 1;
    }
    Json::Object(filter)
}

/// The members of a payload setting the first `n` of `fields` to null, in
/// key order.
pub open spec fn null_members(fields: Seq<String>, n: nat) -> Seq<(Seq<char>, JsonView)>
    decreases n,
{
    if n == 0 {
        Seq::empty()
    } else {
        map_insert(null_members(fields, (n - 1) as nat), fields[n - 1]@, JsonView::Null)
    }
}

/// A `data` payload clearing every one of `fields`.
pub fn null_key_data(fields: &[String]) -> (r: Json)
    ensures
        r.deep() == JsonView::Object(null_members(fields@, fields@.len())),
{
    let mut data: Vec<(String, Json)> = Vec::new();
    let mut i: usize = 0;
    while i < fields.len()
        invariant
            i <= fields@.len(),
            deep_entries(data@) == null_members(fields@, i as nat),
        decreases fields@.len() - i,
    {
        object_insert(&mut data, fields[i].as_str(), Json::Null);
        i = i + 1;
    }
    Json::Object(data)
}

/// Read the key a join table stores for a child row of the related model:
/// the child's `target_reference` field, read with `target_logical_to_db`,
/// the related model's field-to-column map.
pub fn child_key_value(
    models: &[ModelIr],
    target_logical_to_db: &[(String, String)],
    binding: &RelationBinding,
    join: &ManyToManyJoinIr,
    child: &Row,
) -> (r: Result<Value, ProtocolError>)
    ensures
        match model_index(models@, binding.target_model@, 0) {
            None => r matches Err(ProtocolError::InvalidModel(m)) && m@ == binding.target_model@,
            Some(t) => {
                let target = models@[t];
                match key_cell(target_logical_to_db@, target.db_name@, child.columns@, join.target_reference@) {
                    None => r matches Err(ProtocolError::QueryPlanning(m)) && m@ == "Relation on model '"@
                        + target.logical_name@ + "' references unknown field '"@ + join.target_reference@ + "'"@,
                    Some(None) => r matches Err(ProtocolError::Internal(m)) && m@ == "Nested write could not read '"@
                        + target.logical_name@ + "."@ + join.target_reference@ + "' back from the written row"@,
                    Some(Some(v)) => r matches Ok(w) && deep_value(w) == deep_value(v),
                }
            },
        },
{
    let mut t: usize = 0;
    while t < models.len() && !str_eq(models[t].logical_name.as_str(), binding.target_model.as_str())
        invariant
            t <= models@.len(),
            model_index(models@, binding.target_model@, 0) == model_index(models@, binding.target_model@, t as int),
        decreases models@.len() - t,
    {
        t = t + 1;
    }
    if t == models.len() {
        return Err(ProtocolError::InvalidModel(String::from_str(binding.target_model.as_str())));
    }
    let target = &models[t];
    let mut fields: Vec<String> = Vec::new();
    fields.push(String::from_str(join.target_reference.as_str()));
    let ghost cell = key_cell(target_logical_to_db@, target.db_name@, child.columns@, join.target_reference@);
    assert(fields@[0]@ == join.target_reference@);
    assert(first_unread(target_logical_to_db@, target.db_name@, child.columns@, fields@, 1) is None);
    let mut values = match row_key_values(target_logical_to_db, target, child, fields.as_slice()) {
        Ok(vs) => vs,
        Err(e) => {
            return Err(e);
        },
    };
    Ok(values.remove(0))
}

/// The model named `name`, or the refusal naming it.
pub fn model_or_error<'a>(models: &'a [ModelIr], name: &str) -> (r: Result<&'a ModelIr, ProtocolError>)
    ensures
        match model_index(models@, name@, 0) {
            Some(t) => r matches Ok(m) && *m == models@[t],
            None => r matches Err(ProtocolError::InvalidModel(m)) && m@ == name@,
        },
{
    let mut t: usize = 0;
    while t < models.len() && !str_eq(models[t].logical_name.as_str(), name)
        invariant
            t <= models@.len(),
            model_index(models@, name@, 0) == model_index(models@, name@, t as int),
        decreases models@.len() - t,
    {
        t = t + 1;
    }
    if t == models.len() {
        return Err(ProtocolError::InvalidModel(String::from_str(name)));
    }
    Ok(&models[t])
}

/// The refusal reading the key fields `fields` out of a row meets, if any.
pub open spec fn key_values_refusal(
    logical_to_db: Seq<(String, String)>,
    model: ModelIr,
    columns: Seq<(String, Value)>,
    fields: Seq<String>,
) -> Option<Refusal> {
    match first_unread(logical_to_db, model.db_name@, columns, fields, 0) {
        None => None,
        Some(k) => Some(
            if key_cell(logical_to_db, model.db_name@, columns, fields[k]@) is None {
                Refusal::QueryPlanning(
                    "Relation on model '"@ + model.logical_name@ + "' references unknown field '"@ + fields[k]@ + "'"@,
                )
            } else {
                Refusal::Internal(
                    "Nested write could not read '"@ + model.logical_name@ + "."@ + fields[k]@
                        + "' back from the written row"@,
                )
            },
        ),
    }
}

/// The members pairing each of `names` with the JSON form of the value the
/// matching one of `fields` holds in a row, up to the shorter list.
pub open spec fn row_key_pairs(
    names: Seq<String>,
    fields: Seq<String>,
    logical_to_db: Seq<(String, String)>,
    table: Seq<char>,
    columns: Seq<(String, Value)>,
) -> Seq<(Seq<char>, JsonView)> {
    Seq::new(
        if names.len() <= fields.len() { names.len() } else { fields.len() },
        |i: int|
            (
                names[i]@,
                match key_cell(logical_to_db, table, columns, fields[i]@) {
                    Some(Some(v)) => plain_view(v),
                    _ => JsonView::Null,
                },
            ),
    )
}

} // verus!
