use nautilus::ast::Value;
use nautilus::join_run::{join_step_next, JoinAction, JoinAnswer};
use nautilus::join_writes::{member_filter, JoinStep};
use nautilus::json::{json_clone, Json, JsonNumber};
use nautilus::model::{ManyToManyJoinIr, ModelIr, Row};
use nautilus::payload::scoped_filter;
use nautilus::protocol::ProtocolError;
use nautilus::relation::{RelationBinding, RelationSide};

fn tag() -> ModelIr {
    ModelIr {
        logical_name: "Tag".to_string(),
        db_name: "tags".to_string(),
        fields: vec![],
        primary_key: vec!["id".to_string()],
        unique_constraints: vec![],
    }
}

fn join() -> ManyToManyJoinIr {
    ManyToManyJoinIr {
        table: "_PostTags".to_string(),
        self_column: "A".to_string(),
        target_column: "B".to_string(),
        self_reference: "id".to_string(),
        target_reference: "id".to_string(),
    }
}

fn binding() -> RelationBinding {
    RelationBinding {
        target_model: "Tag".to_string(),
        side: RelationSide::ManyToMany,
        foreign_keys: vec![],
        referenced: vec!["id".to_string()],
        via: Some(join()),
    }
}

fn num(n: u64) -> Json {
    Json::Number(JsonNumber::PosInt(n))
}

fn member(k: &str, v: Json) -> (String, Json) {
    (k.to_string(), v)
}

fn child(id: i64) -> Row {
    Row { columns: vec![("tags__id".to_string(), Value::I64(id))] }
}

fn link_row_of(child: i64) -> Row {
    Row {
        columns: vec![
            ("_PostTags__A".to_string(), Value::I64(1)),
            ("_PostTags__B".to_string(), Value::I64(child)),
        ],
    }
}

fn link(child: u64) -> Json {
    Json::Object(vec![member("A", num(1)), member("B", num(child))])
}

fn next(step: &JoinStep, answer: JoinAnswer) -> Result<JoinAction, ProtocolError> {
    let map = vec![("id".to_string(), "id".to_string())];
    join_step_next(&[tag()], &map, &binding(), &join(), "tags", &Value::I64(1), step, answer)
}

fn missing(op: &str) -> ProtocolError {
    ProtocolError::RecordNotFound(format!("Nested {} on 'tags' matched no 'Tag' record", op))
}

fn data() -> Json {
    Json::Object(vec![member("name", Json::String("rust".to_string()))])
}

#[test]
fn a_created_child_is_linked_unless_the_link_exists() {
    let step = JoinStep::Create { data: data() };
    assert_eq!(next(&step, JoinAnswer::Start), Ok(JoinAction::CreateChild(data())));
    assert_eq!(next(&step, JoinAnswer::Created(vec![child(7)])), Ok(JoinAction::FindLink(link(7))));
    assert_eq!(
        next(&step, JoinAnswer::LinkLookup { link: link(7), found: false }),
        Ok(JoinAction::CreateLink(link(7)))
    );
    assert_eq!(next(&step, JoinAnswer::LinkLookup { link: link(7), found: true }), Ok(JoinAction::Done));
    assert_eq!(next(&step, JoinAnswer::LinkCreated), Ok(JoinAction::Done));
    assert_eq!(
        next(&step, JoinAnswer::Created(vec![])),
        Err(ProtocolError::Internal("Nested create on 'tags' returned no row to link the parent to".to_string()))
    );
}

#[test]
fn connecting_a_missing_child_is_refused() {
    let step = JoinStep::Connect { filter: Json::Object(vec![member("id", num(7))]), missing: missing("connect") };
    assert_eq!(next(&step, JoinAnswer::Start), Ok(JoinAction::FindChild(Json::Object(vec![member("id", num(7))]))));
    assert_eq!(next(&step, JoinAnswer::Found(Some(child(7)))), Ok(JoinAction::FindLink(link(7))));
    assert_eq!(next(&step, JoinAnswer::Found(None)), Err(missing("connect")));
}

#[test]
fn connect_or_create_creates_only_what_it_does_not_find() {
    let step = JoinStep::ConnectOrCreate { find: Json::Object(vec![member("id", num(7))]), create: Ok(data()) };
    assert_eq!(next(&step, JoinAnswer::Found(Some(child(7)))), Ok(JoinAction::FindLink(link(7))));
    assert_eq!(next(&step, JoinAnswer::Found(None)), Ok(JoinAction::CreateChild(data())));
    let refused = JoinStep::ConnectOrCreate {
        find: Json::Object(vec![member("id", num(7))]),
        create: Err(ProtocolError::InvalidParams("connectOrCreate requires 'create'".to_string())),
    };
    assert_eq!(
        next(&refused, JoinAnswer::Found(None)),
        Err(ProtocolError::InvalidParams("connectOrCreate requires 'create'".to_string()))
    );
}

#[test]
fn updates_reach_only_the_linked_children() {
    let narrowing = Json::Object(vec![member("name", Json::String("old".to_string()))]);
    let step = JoinStep::Update { narrowing: Some(json_clone(&narrowing)), data: data(), missing: Some(missing("update")) };
    assert_eq!(
        next(&step, JoinAnswer::Start),
        Ok(JoinAction::ReadLinks(Json::Object(vec![member("A", num(1))])))
    );
    let scope = member_filter(&join(), &[num(7), num(8)]);
    let expected = scoped_filter(scope, Some(&narrowing));
    assert_eq!(
        next(&step, JoinAnswer::Links(vec![link_row_of(7), link_row_of(8)])),
        Ok(JoinAction::UpdateChildren { filter: expected, data: data() })
    );
    assert_eq!(next(&step, JoinAnswer::Affected(0)), Err(missing("update")));
    assert_eq!(next(&step, JoinAnswer::Affected(2)), Ok(JoinAction::Done));
    assert_eq!(
        next(&step, JoinAnswer::Created(vec![])),
        Err(ProtocolError::Internal("the store's answer does not fit the planned step".to_string()))
    );
}

#[test]
fn a_parent_without_links_reaches_no_child() {
    let step = JoinStep::Delete { narrowing: None, missing: None };
    assert_eq!(
        next(&step, JoinAnswer::Links(vec![])),
        Ok(JoinAction::DeleteChildren(Json::Object(vec![member(
            "id",
            Json::Object(vec![member("in", Json::Array(vec![]))])
        )])))
    );
    assert_eq!(next(&step, JoinAnswer::Affected(0)), Ok(JoinAction::Done));
}

#[test]
fn unlinking_removes_the_links_to_the_matched_children() {
    let step = JoinStep::Unlink { narrowing: None };
    assert_eq!(
        next(&step, JoinAnswer::Matched(vec![child(7), child(9)])),
        Ok(JoinAction::DeleteLinks(Json::Object(vec![
            member("A", num(1)),
            member("B", Json::Object(vec![member("in", Json::Array(vec![num(7), num(9)]))])),
        ])))
    );
    assert_eq!(next(&step, JoinAnswer::Matched(vec![])), Ok(JoinAction::Done));
    assert_eq!(
        next(&JoinStep::UnlinkAll, JoinAnswer::Start),
        Ok(JoinAction::DeleteLinks(Json::Object(vec![member("A", num(1))])))
    );
}
