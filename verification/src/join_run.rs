//! Running the planned steps of a many-to-many relation, one store call at a
//! time. Each call of [`join_step_next`] takes the step and what the store
//! answered to the last action, and decides the next action: the reads that
//! find the relation's current members, the narrowing of every filter that
//! reaches existing children to those members, the lookup that keeps a pair
//! from being linked twice, and whether a connect-or-create links or
//! creates. The host performs each action and hands the answer back.
use vstd::prelude::*;

use crate::ast::Value;
use crate::distinct::deep_value;
use crate::hydrate::{lemma_plain_view_deep, plain_items, plain_json, plain_view};
use crate::join_writes::{link_row, linked_filter, member_filter, unlink_filter, JoinStep};
use crate::json::{deep_items, json_clone, Json, JsonView};
use crate::model::{row_get, ManyToManyJoinIr, ModelIr, Row};
use crate::naming::qualified_name;
use crate::ordered::map_insert;
use crate::owning::{first_row, join_column};
use crate::payload::{scoped_filter, scoped_view};
use crate::protocol::{refused_with, ProtocolError, Refusal};
use crate::relation::{child_key_value, key_cell, model_index, RelationBinding};

verus! {

/// What the store answered to the last action of a step.
#[derive(Debug, PartialEq)]
pub enum JoinAnswer {
    /// Nothing has been asked yet: the step begins.
    Start,
    /// The rows of the join table that link the parent (to `ReadLinks`).
    Links(Vec<Row>),
    /// The first child the filter matched, if any (to `FindChild`).
    Found(Option<Row>),
    /// Every child the filter matched (to `FindChildren`).
    Matched(Vec<Row>),
    /// The rows a created child was written back as (to `CreateChild`).
    Created(Vec<Row>),
    /// Whether the link looked up exists, with that link (to `FindLink`).
    LinkLookup { link: Json, found: bool },
    /// The link was written (to `CreateLink`).
    LinkCreated,
    /// How many rows an update or a deletion reached.
    Affected(u64),
}

/// The next store call of a step, or its end.
#[derive(Debug, PartialEq)]
pub enum JoinAction {
    /// Read the join table's rows that `filter` matches.
    ReadLinks(Json),
    /// Find the first child that `filter` matches.
    FindChild(Json),
    /// Find every child that `filter` matches.
    FindChildren(Json),
    /// Look the link up in the join table.
    FindLink(Json),
    /// Create a child from the data.
    CreateChild(Json),
    /// Write the link into the join table.
    CreateLink(Json),
    /// Update the children `filter` matches with `data`.
    UpdateChildren { filter: Json, data: Json },
    /// Delete the children `filter` matches.
    DeleteChildren(Json),
    /// Delete the join table's rows that `filter` matches.
    DeleteLinks(Json),
    /// The step is finished.
    Done,
}

/// An action as mathematics sees it.
pub enum ActionView {
    ReadLinks(JsonView),
    FindChild(JsonView),
    FindChildren(JsonView),
    FindLink(JsonView),
    CreateChild(JsonView),
    CreateLink(JsonView),
    UpdateChildren(JsonView, JsonView),
    DeleteChildren(JsonView),
    DeleteLinks(JsonView),
    Done,
}

/// What comes of an answer: an action, a refusal, or the step's own refusal
/// handed on.
pub enum NextView {
    Act(ActionView),
    Refuse(Refusal),
    Pass(ProtocolError),
}

/// The view of an action.
pub open spec fn action_view(a: JoinAction) -> ActionView {
    match a {
        JoinAction::ReadLinks(f) => ActionView::ReadLinks(f.deep()),
        JoinAction::FindChild(f) => ActionView::FindChild(f.deep()),
        JoinAction::FindChildren(f) => ActionView::FindChildren(f.deep()),
        JoinAction::FindLink(l) => ActionView::FindLink(l.deep()),
        JoinAction::CreateChild(d) => ActionView::CreateChild(d.deep()),
        JoinAction::CreateLink(l) => ActionView::CreateLink(l.deep()),
        JoinAction::UpdateChildren { filter, data } => ActionView::UpdateChildren(filter.deep(), data.deep()),
        JoinAction::DeleteChildren(f) => ActionView::DeleteChildren(f.deep()),
        JoinAction::DeleteLinks(f) => ActionView::DeleteLinks(f.deep()),
        JoinAction::Done => ActionView::Done,
    }
}

/// Whether two refusals are of the same kind with the same message.
pub open spec fn same_error(a: ProtocolError, b: ProtocolError) -> bool {
    match (a, b) {
        (ProtocolError::InvalidFilter(x), ProtocolError::InvalidFilter(y)) => x@ == y@,
        (ProtocolError::InvalidParams(x), ProtocolError::InvalidParams(y)) => x@ == y@,
        (ProtocolError::Internal(x), ProtocolError::Internal(y)) => x@ == y@,
        (ProtocolError::UnsupportedOperation(x), ProtocolError::UnsupportedOperation(y)) => x@ == y@,
        (ProtocolError::QueryPlanning(x), ProtocolError::QueryPlanning(y)) => x@ == y@,
        (ProtocolError::InvalidModel(x), ProtocolError::InvalidModel(y)) => x@ == y@,
        (ProtocolError::RecordNotFound(x), ProtocolError::RecordNotFound(y)) => x@ == y@,
        (ProtocolError::DatabaseExecution(x), ProtocolError::DatabaseExecution(y)) => x@ == y@,
        (
            ProtocolError::UnsupportedProtocolVersion { actual: a1, expected: e1 },
            ProtocolError::UnsupportedProtocolVersion { actual: a2, expected: e2 },
        ) => a1 == a2 && e1 == e2,
        _ => false,
    }
}

/// Whether `r` is what `v` says comes next.
pub open spec fn next_matches(r: Result<JoinAction, ProtocolError>, v: NextView) -> bool {
    match v {
        NextView::Act(a) => r matches Ok(x) && action_view(x) == a,
        NextView::Refuse(f) => r matches Err(e) && refused_with(e, f),
        NextView::Pass(e0) => r matches Err(e) && same_error(e, e0),
    }
}

/// The filter naming the parent's links.
pub open spec fn links_view(join: ManyToManyJoinIr, parent_key: Value) -> JsonView {
    JsonView::Object(seq![(join.self_column@, plain_view(parent_key))])
}

/// The keys of the children the join-table rows link, in their JSON form.
pub open spec fn linked_keys_view(join: ManyToManyJoinIr, rows: Seq<Row>) -> Seq<JsonView>
    decreases rows.len(),
{
    if rows.len() == 0 {
        Seq::empty()
    } else {
        let before = linked_keys_view(join, rows.drop_last());
        match row_get(rows.last().columns@, qualified_name(join.table@, join.target_column@)) {
            Some(v) => before.push(plain_view(v)),
            None => before,
        }
    }
}

/// The filter reaching the parent's current children, the ones the join-table
/// rows `links` link, narrowed by the caller's `narrowing`.
pub open spec fn reach_view(join: ManyToManyJoinIr, links: Seq<Row>, narrowing: Option<Json>) -> JsonView {
    scoped_view(
        JsonView::Object(
            seq![(join.target_reference@, JsonView::Object(seq![("in"@, JsonView::Array(linked_keys_view(join, links)))]))],
        ),
        narrowing,
    )
}

/// The key the join table stores for the child `row`, in its JSON form, or
/// the refusal reading it meets.
pub open spec fn link_key_view(
    models: Seq<ModelIr>,
    logical_to_db: Seq<(String, String)>,
    binding: RelationBinding,
    join: ManyToManyJoinIr,
    row: Row,
) -> Result<JsonView, Refusal> {
    match model_index(models, binding.target_model@, 0) {
        None => Err(Refusal::InvalidModel(binding.target_model@)),
        Some(t) => match key_cell(logical_to_db, models[t].db_name@, row.columns@, join.target_reference@) {
            None => Err(
                Refusal::QueryPlanning(
                    "Relation on model '"@ + models[t].logical_name@ + "' references unknown field '"@
                        + join.target_reference@ + "'"@,
                ),
            ),
            Some(None) => Err(
                Refusal::Internal(
                    "Nested write could not read '"@ + models[t].logical_name@ + "."@ + join.target_reference@
                        + "' back from the written row"@,
                ),
            ),
            Some(Some(v)) => Ok(plain_view(v)),
        },
    }
}

/// The keys of the children `rows`, or the first refusal reading one meets.
pub open spec fn link_keys_view(
    models: Seq<ModelIr>,
    logical_to_db: Seq<(String, String)>,
    binding: RelationBinding,
    join: ManyToManyJoinIr,
    rows: Seq<Row>,
) -> Result<Seq<JsonView>, Refusal>
    decreases rows.len(),
{
    if rows.len() == 0 {
        Ok(Seq::empty())
    } else {
        match link_keys_view(models, logical_to_db, binding, join, rows.drop_last()) {
            Err(f) => Err(f),
            Ok(ks) => match link_key_view(models, logical_to_db, binding, join, rows.last()) {
                Ok(k) => Ok(ks.push(k)),
                Err(f) => Err(f),
            },
        }
    }
}

/// The join-table row linking the parent to the child with key `key`.
pub open spec fn link_view(join: ManyToManyJoinIr, parent_key: Value, key: JsonView) -> JsonView {
    JsonView::Object(
        map_insert(map_insert(Seq::empty(), join.self_column@, plain_view(parent_key)), join.target_column@, key),
    )
}

/// Look up the link to the child `row`, or refuse reading its key.
pub open spec fn look_for_link(
    models: Seq<ModelIr>,
    logical_to_db: Seq<(String, String)>,
    binding: RelationBinding,
    join: ManyToManyJoinIr,
    parent_key: Value,
    row: Row,
) -> NextView {
    match link_key_view(models, logical_to_db, binding, join, row) {
        Ok(k) => NextView::Act(ActionView::FindLink(link_view(join, parent_key, k))),
        Err(f) => NextView::Refuse(f),
    }
}

/// The refusal for an answer that does not fit the step.
pub open spec fn unexpected_answer() -> Refusal {
    Refusal::Internal("the store's answer does not fit the planned step"@)
}

/// What a step that creates or connects makes of the answers about its link.
pub open spec fn link_answer(answer: JoinAnswer) -> NextView {
    match answer {
        JoinAnswer::LinkLookup { link, found } => if found {
            NextView::Act(ActionView::Done)
        } else {
            NextView::Act(ActionView::CreateLink(link.deep()))
        },
        JoinAnswer::LinkCreated => NextView::Act(ActionView::Done),
        _ => NextView::Refuse(unexpected_answer()),
    }
}

/// What a created child's rows lead to: the lookup of its link.
pub open spec fn created_answer(
    models: Seq<ModelIr>,
    logical_to_db: Seq<(String, String)>,
    binding: RelationBinding,
    join: ManyToManyJoinIr,
    field_name: Seq<char>,
    parent_key: Value,
    rows: Seq<Row>,
) -> NextView {
    if rows.len() == 0 {
        NextView::Refuse(
            Refusal::Internal("Nested create on '"@ + field_name + "' returned no row to link the parent to"@),
        )
    } else {
        look_for_link(models, logical_to_db, binding, join, parent_key, rows[0])
    }
}

/// What a write that reached `affected` children leads to: its refusal when
/// it reached none and has one, otherwise the end of the step.
pub open spec fn settled(missing: Option<ProtocolError>, affected: u64) -> NextView {
    match missing {
        Some(e) => if affected == 0 {
            NextView::Pass(e)
        } else {
            NextView::Act(ActionView::Done)
        },
        None => NextView::Act(ActionView::Done),
    }
}

/// What comes next in `step` after `answer`, for the relation through `join`
/// of the parent with key `parent_key`:
/// - creating: create the child, look its link up, write the link only when
///   the lookup found none;
/// - connecting: find the child, refusing when there is none, then the same
///   for its link;
/// - connecting or creating: find the child; link it when found, else create
///   it and link that;
/// - unlinking, updating and deleting: read the parent's links first, then
///   reach only the children they link, narrowed by the caller's filter;
/// - unlinking every child: delete the parent's links.
pub open spec fn join_next(
    models: Seq<ModelIr>,
    logical_to_db: Seq<(String, String)>,
    binding: RelationBinding,
    join: ManyToManyJoinIr,
    field_name: Seq<char>,
    parent_key: Value,
    step: JoinStep,
    answer: JoinAnswer,
) -> NextView {
    match step {
        JoinStep::Create { data } => match answer {
            JoinAnswer::Start => NextView::Act(ActionView::CreateChild(data.deep())),
            JoinAnswer::Created(rows) => created_answer(models, logical_to_db, binding, join, field_name, parent_key, rows@),
            _ => link_answer(answer),
        },
        JoinStep::Connect { filter, missing } => match answer {
            JoinAnswer::Start => NextView::Act(ActionView::FindChild(filter.deep())),
            JoinAnswer::Found(Some(row)) => look_for_link(models, logical_to_db, binding, join, parent_key, row),
            JoinAnswer::Found(None) => NextView::Pass(missing),
            _ => link_answer(answer),
        },
        JoinStep::ConnectOrCreate { find, create } => match answer {
            JoinAnswer::Start => NextView::Act(ActionView::FindChild(find.deep())),
            JoinAnswer::Found(Some(row)) => look_for_link(models, logical_to_db, binding, join, parent_key, row),
            JoinAnswer::Found(None) => match create {
                Ok(data) => NextView::Act(ActionView::CreateChild(data.deep())),
                Err(e) => NextView::Pass(e),
            },
            JoinAnswer::Created(rows) => created_answer(models, logical_to_db, binding, join, field_name, parent_key, rows@),
            _ => link_answer(answer),
        },
        JoinStep::Unlink { narrowing } => match answer {
            JoinAnswer::Start => NextView::Act(ActionView::ReadLinks(links_view(join, parent_key))),
            JoinAnswer::Links(rows) => NextView::Act(ActionView::FindChildren(reach_view(join, rows@, narrowing))),
            JoinAnswer::Matched(rows) => match link_keys_view(models, logical_to_db, binding, join, rows@) {
                Err(f) => NextView::Refuse(f),
                Ok(ks) => if ks.len() == 0 {
                    NextView::Act(ActionView::Done)
                } else {
                    NextView::Act(
                        ActionView::DeleteLinks(
                            JsonView::Object(
                                seq![
                                    (join.self_column@, plain_view(parent_key)),
                                    (join.target_column@, JsonView::Object(seq![("in"@, JsonView::Array(ks))])),
                                ],
                            ),
                        ),
                    )
                },
            },
            JoinAnswer::Affected(_) => NextView::Act(ActionView::Done),
            _ => NextView::Refuse(unexpected_answer()),
        },
        JoinStep::UnlinkAll => match answer {
            JoinAnswer::Start => NextView::Act(ActionView::DeleteLinks(links_view(join, parent_key))),
            JoinAnswer::Affected(_) => NextView::Act(ActionView::Done),
            _ => NextView::Refuse(unexpected_answer()),
        },
        JoinStep::Update { narrowing, data, missing } => match answer {
            JoinAnswer::Start => NextView::Act(ActionView::ReadLinks(links_view(join, parent_key))),
            JoinAnswer::Links(rows) => NextView::Act(
                ActionView::UpdateChildren(reach_view(join, rows@, narrowing), data.deep()),
            ),
            JoinAnswer::Affected(n) => settled(missing, n),
            _ => NextView::Refuse(unexpected_answer()),
        },
        JoinStep::Delete { narrowing, missing } => match answer {
            JoinAnswer::Start => NextView::Act(ActionView::ReadLinks(links_view(join, parent_key))),
            JoinAnswer::Links(rows) => NextView::Act(ActionView::DeleteChildren(reach_view(join, rows@, narrowing))),
            JoinAnswer::Affected(n) => settled(missing, n),
            _ => NextView::Refuse(unexpected_answer()),
        },
        JoinStep::Fail(e) => NextView::Pass(e),
    }
}

/// A copy of a refusal.
pub fn clone_error(e: &ProtocolError) -> (r: ProtocolError)
    ensures
        same_error(r, *e),
{
    match e {
        ProtocolError::InvalidFilter(m) => ProtocolError::InvalidFilter(String::from_str(m.as_str())),
        ProtocolError::InvalidParams(m) => ProtocolError::InvalidParams(String::from_str(m.as_str())),
        ProtocolError::Internal(m) => ProtocolError::Internal(String::from_str(m.as_str())),
        ProtocolError::UnsupportedOperation(m) => ProtocolError::UnsupportedOperation(String::from_str(m.as_str())),
        ProtocolError::QueryPlanning(m) => ProtocolError::QueryPlanning(String::from_str(m.as_str())),
        ProtocolError::InvalidModel(m) => ProtocolError::InvalidModel(String::from_str(m.as_str())),
        ProtocolError::RecordNotFound(m) => ProtocolError::RecordNotFound(String::from_str(m.as_str())),
        ProtocolError::DatabaseExecution(m) => ProtocolError::DatabaseExecution(String::from_str(m.as_str())),
        ProtocolError::UnsupportedProtocolVersion { actual, expected } => ProtocolError::UnsupportedProtocolVersion {
            actual: *actual,
            expected: *expected,
        },
    }
}

pub(crate) fn unexpected() -> (r: Result<JoinAction, ProtocolError>)
    ensures
        next_matches(r, NextView::Refuse(unexpected_answer())),
{
    let r = Err(ProtocolError::Internal(String::from_str("the store's answer does not fit the planned step")));
    proof {
        reveal_strlit("the store's answer does not fit the planned step");
    }
    r
}

/// The lookup of the link between the parent and the child `row`.
fn find_link(
    models: &[ModelIr],
    logical_to_db: &[(String, String)],
    binding: &RelationBinding,
    join: &ManyToManyJoinIr,
    parent_key: &Value,
    row: &Row,
) -> (r: Result<JoinAction, ProtocolError>)
    ensures
        next_matches(r, look_for_link(models@, logical_to_db@, *binding, *join, *parent_key, *row)),
{
    match child_key_value(models, logical_to_db, binding, join, row) {
        Ok(key) => {
            let link = link_row(join, parent_key, &key);
            proof {
                let t = model_index(models@, binding.target_model@, 0)->0;
                let v = key_cell(logical_to_db@, models@[t].db_name@, row.columns@, join.target_reference@)->0->0;
                lemma_plain_view_deep(key, v);
            }
            Ok(JoinAction::FindLink(link))
        },
        Err(e) => Err(e),
    }
}

/// What a step that creates or connects does with the answers about its link.
fn after_link(answer: JoinAnswer) -> (r: Result<JoinAction, ProtocolError>)
    ensures
        next_matches(r, link_answer(answer)),
{
    match answer {
        JoinAnswer::LinkLookup { link, found } => if found {
            Ok(JoinAction::Done)
        } else {
            Ok(JoinAction::CreateLink(link))
        },
        JoinAnswer::LinkCreated => Ok(JoinAction::Done),
        _ => unexpected(),
    }
}

/// What the rows a created child was written back as lead to.
fn after_create(
    models: &[ModelIr],
    logical_to_db: &[(String, String)],
    binding: &RelationBinding,
    join: &ManyToManyJoinIr,
    field_name: &str,
    parent_key: &Value,
    rows: &Vec<Row>,
) -> (r: Result<JoinAction, ProtocolError>)
    ensures
        next_matches(r, created_answer(models@, logical_to_db@, *binding, *join, field_name@, *parent_key, rows@)),
{
    match first_row(rows.as_slice(), field_name) {
        Ok(row) => find_link(models, logical_to_db, binding, join, parent_key, row),
        Err(e) => Err(e),
    }
}

/// The filter reaching the children the join-table rows `links` link,
/// narrowed by `narrowing`.
fn reach(join: &ManyToManyJoinIr, links: &Vec<Row>, narrowing: &Option<Json>) -> (r: Json)
    ensures
        r.deep() == reach_view(*join, links@, *narrowing),
{
    let mut keys: Vec<Json> = Vec::new();
    let mut i: usize = 0;
    while i < links.len()
        invariant
            i <= links@.len(),
            deep_items(keys@) == linked_keys_view(*join, links@.take(i as int)),
        decreases links@.len() - i,
    {
        let ghost before = keys@;
        assert(links@.take(i + 1).drop_last() =~= links@.take(i as int));
        assert(links@.take(i + 1).last() == links@[i as int]);
        match join_column(join, &links[i], join.target_column.as_str()) {
            Some(w) => {
                let j = plain_json(&w);
                proof {
                    let v = row_get(links@[i as int].columns@, qualified_name(join.table@, join.target_column@))->0;
                    lemma_plain_view_deep(w, v);
                }
                keys.push(j);
                assert(keys@.drop_last() =~= before);
            },
            None => {},
        }
        i = i + 1;
    }
    assert(links@.take(links@.len() as int) =~= links@);
    let scope = member_filter(join, keys.as_slice());
    scoped_filter(
        scope,
        match narrowing {
            Some(n) => Some(n),
            None => None,
        },
    )
}

/// The keys of the children `rows`, or the first refusal reading one meets.
fn link_keys(
    models: &[ModelIr],
    logical_to_db: &[(String, String)],
    binding: &RelationBinding,
    join: &ManyToManyJoinIr,
    rows: &Vec<Row>,
) -> (r: Result<Vec<Value>, ProtocolError>)
    ensures
        match link_keys_view(models@, logical_to_db@, *binding, *join, rows@) {
            Ok(ks) => r matches Ok(vs) && plain_items(vs@) == ks,
            Err(f) => r matches Err(e) && refused_with(e, f),
        },
{
    let mut out: Vec<Value> = Vec::new();
    let mut i: usize = 0;
    while i < rows.len()
        invariant
            i <= rows@.len(),
            link_keys_view(models@, logical_to_db@, *binding, *join, rows@.take(i as int)) matches Ok(ks)
                && plain_items(out@) == ks,
        decreases rows@.len() - i,
    {
        let ghost before = out@;
        assert(rows@.take(i + 1).drop_last() =~= rows@.take(i as int));
        assert(rows@.take(i + 1).last() == rows@[i as int]);
        match child_key_value(models, logical_to_db, binding, join, &rows[i]) {
            Ok(key) => {
                proof {
                    let t = model_index(models@, binding.target_model@, 0)->0;
                    let v = key_cell(logical_to_db@, models@[t].db_name@, rows@[i as int].columns@, join.target_reference@)->0->0;
                    lemma_plain_view_deep(key, v);
                }
                out.push(key);
                assert(out@.drop_last() =~= before);
            },
            Err(e) => {
                proof {
                    lemma_link_keys_stop(models@, logical_to_db@, *binding, *join, rows@, i as int);
                }
                return Err(e);
            },
        }
        i = i + 1;
    }
    assert(rows@.take(rows@.len() as int) =~= rows@);
    Ok(out)
}

proof fn lemma_link_keys_stop(
    models: Seq<ModelIr>,
    logical_to_db: Seq<(String, String)>,
    binding: RelationBinding,
    join: ManyToManyJoinIr,
    rows: Seq<Row>,
    i: int,
)
    requires
        0 <= i < rows.len(),
        link_keys_view(models, logical_to_db, binding, join, rows.take(i)) is Ok,
        link_key_view(models, logical_to_db, binding, join, rows[i]) is Err,
    ensures
        link_keys_view(models, logical_to_db, binding, join, rows) == Err::<Seq<JsonView>, Refusal>(
            link_key_view(models, logical_to_db, binding, join, rows[i])->Err_0,
        ),
    decreases rows.len() - i,
{
    if i + 1 < rows.len() {
        assert(rows.drop_last().take(i) =~= rows.take(i));
        assert(rows.drop_last()[i] == rows[i]);
        lemma_link_keys_stop(models, logical_to_db, binding, join, rows.drop_last(), i);
    } else {
        assert(rows.drop_last() =~= rows.take(i));
        assert(rows.last() == rows[i]);
    }
}

/// Decide what comes next in the planned `step` of the relation through
/// `join`, after the store's `answer` to the last action; `parent_key` is the
/// key the join table stores for the parent, `logical_to_db` the related
/// model's field-to-column map.
pub fn join_step_next(
    models: &[ModelIr],
    logical_to_db: &[(String, String)],
    binding: &RelationBinding,
    join: &ManyToManyJoinIr,
    field_name: &str,
    parent_key: &Value,
    step: &JoinStep,
    answer: JoinAnswer,
) -> (r: Result<JoinAction, ProtocolError>)
    ensures
        next_matches(r, join_next(models@, logical_to_db@, *binding, *join, field_name@, *parent_key, *step, answer)),
{
    match step {
        JoinStep::Create { data } => match answer {
            JoinAnswer::Start => Ok(JoinAction::CreateChild(json_clone(data))),
            JoinAnswer::Created(rows) => after_create(models, logical_to_db, binding, join, field_name, parent_key, &rows),
            other => after_link(other),
        },
        JoinStep::Connect { filter, missing } => match answer {
            JoinAnswer::Start => Ok(JoinAction::FindChild(json_clone(filter))),
            JoinAnswer::Found(Some(row)) => find_link(models, logical_to_db, binding, join, parent_key, &row),
            JoinAnswer::Found(None) => Err(clone_error(missing)),
            other => after_link(other),
        },
        JoinStep::ConnectOrCreate { find, create } => match answer {
            JoinAnswer::Start => Ok(JoinAction::FindChild(json_clone(find))),
            JoinAnswer::Found(Some(row)) => find_link(models, logical_to_db, binding, join, parent_key, &row),
            JoinAnswer::Found(None) => match create {
                Ok(data) => Ok(JoinAction::CreateChild(json_clone(data))),
                Err(e) => Err(clone_error(e)),
            },
            JoinAnswer::Created(rows) => after_create(models, logical_to_db, binding, join, field_name, parent_key, &rows),
            other => after_link(other),
        },
        JoinStep::Unlink { narrowing } => match answer {
            JoinAnswer::Start => Ok(JoinAction::ReadLinks(linked_filter(join, parent_key))),
            JoinAnswer::Links(rows) => Ok(JoinAction::FindChildren(reach(join, &rows, narrowing))),
            JoinAnswer::Matched(rows) => match link_keys(models, logical_to_db, binding, join, &rows) {
                Ok(keys) => match unlink_filter(join, parent_key, keys.as_slice()) {
                    Some(f) => Ok(JoinAction::DeleteLinks(f)),
                    None => Ok(JoinAction::Done),
                },
                Err(e) => Err(e),
            },
            JoinAnswer::Affected(_) => Ok(JoinAction::Done),
            _ => unexpected(),
        },
        JoinStep::UnlinkAll => match answer {
            JoinAnswer::Start => Ok(JoinAction::DeleteLinks(linked_filter(join, parent_key))),
            JoinAnswer::Affected(_) => Ok(JoinAction::Done),
            _ => unexpected(),
        },
        JoinStep::Update { narrowing, data, missing } => match answer {
            JoinAnswer::Start => Ok(JoinAction::ReadLinks(linked_filter(join, parent_key))),
            JoinAnswer::Links(rows) => Ok(
                JoinAction::UpdateChildren { filter: reach(join, &rows, narrowing), data: json_clone(data) },
            ),
            JoinAnswer::Affected(n) => settle_answer(missing, n),
            _ => unexpected(),
        },
        JoinStep::Delete { narrowing, missing } => match answer {
            JoinAnswer::Start => Ok(JoinAction::ReadLinks(linked_filter(join, parent_key))),
            JoinAnswer::Links(rows) => Ok(JoinAction::DeleteChildren(reach(join, &rows, narrowing))),
            JoinAnswer::Affected(n) => settle_answer(missing, n),
            _ => unexpected(),
        },
        JoinStep::Fail(e) => Err(clone_error(e)),
    }
}

fn settle_answer(missing: &Option<ProtocolError>, affected: u64) -> (r: Result<JoinAction, ProtocolError>)
    ensures
        next_matches(r, settled(*missing, affected)),
{
    match missing {
        Some(e) => if affected == 0 {
            Err(clone_error(e))
        } else {
            Ok(JoinAction::Done)
        },
        None => Ok(JoinAction::Done),
    }
}

/// A link is written only after its lookup answered that it does not exist,
/// and it is the link looked up: a pair is never linked twice.
pub proof fn lemma_links_written_once(
    models: Seq<ModelIr>,
    logical_to_db: Seq<(String, String)>,
    binding: RelationBinding,
    join: ManyToManyJoinIr,
    field_name: Seq<char>,
    parent_key: Value,
    step: JoinStep,
    answer: JoinAnswer,
    link: JsonView,
)
    requires
        join_next(models, logical_to_db, binding, join, field_name, parent_key, step, answer) == NextView::Act(
            ActionView::CreateLink(link),
        ),
    ensures
        answer matches JoinAnswer::LinkLookup { link: l, found } && !found && l.deep() == link,
{
}

/// A connect-or-create creates a child only when finding it answered none.
pub proof fn lemma_connect_or_create_creates_only_when_missing(
    models: Seq<ModelIr>,
    logical_to_db: Seq<(String, String)>,
    binding: RelationBinding,
    join: ManyToManyJoinIr,
    field_name: Seq<char>,
    parent_key: Value,
    step: JoinStep,
    answer: JoinAnswer,
    data: JsonView,
)
    requires
        step is ConnectOrCreate,
        join_next(models, logical_to_db, binding, join, field_name, parent_key, step, answer) == NextView::Act(
            ActionView::CreateChild(data),
        ),
    ensures
        answer == JoinAnswer::Found(None),
{
}

/// Every filter that unlinks, updates or deletes children reaches only the
/// children the parent's links name: it is the member filter over the keys
/// those links hold, narrowed by the caller's filter, and the parent's links
/// were read just before.
pub proof fn lemma_children_reached_are_linked(
    models: Seq<ModelIr>,
    logical_to_db: Seq<(String, String)>,
    binding: RelationBinding,
    join: ManyToManyJoinIr,
    field_name: Seq<char>,
    parent_key: Value,
    step: JoinStep,
    answer: JoinAnswer,
    filter: JsonView,
)
    requires
        join_next(models, logical_to_db, binding, join, field_name, parent_key, step, answer) matches NextView::Act(a)
            && (a == ActionView::FindChildren(filter) || a == ActionView::DeleteChildren(filter)
            || (a matches ActionView::UpdateChildren(f, _) && f == filter)),
    ensures
        answer matches JoinAnswer::Links(rows) && match step {
            JoinStep::Unlink { narrowing } => filter == reach_view(join, rows@, narrowing),
            JoinStep::Update { narrowing, .. } => filter == reach_view(join, rows@, narrowing),
            JoinStep::Delete { narrowing, .. } => filter == reach_view(join, rows@, narrowing),
            _ => false,
        },
{
}

} // verus!
