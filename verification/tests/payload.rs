use nautilus::json::{Json, JsonNumber};
use nautilus::payload::{
    child_filters, merge_link, payload_items, require_member, require_object, scoped_filter,
    unwrap_where,
};
use nautilus::protocol::ProtocolError;

fn object(entries: Vec<(&str, Json)>) -> Json {
    Json::Object(entries.into_iter().map(|(k, v)| (k.to_string(), v)).collect())
}

fn number(n: u64) -> Json {
    Json::Number(JsonNumber::PosInt(n))
}

fn check_unwrap_alike() {
    let bare = object(vec![("id", number(1))]);
    let wrapped = object(vec![("where", object(vec![("id", number(1))]))]);
    assert_eq!(unwrap_where(&bare), unwrap_where(&wrapped));
}

fn check_child_filter_narrows() {
    let link = object(vec![("authorId", number(7))]);
    assert_eq!(child_filters(&Json::Bool(true), &link), vec![object(vec![("authorId", number(7))])]);
    assert_eq!(
        child_filters(&object(vec![("id", number(3))]), &link),
        vec![object(vec![(
            "AND",
            Json::Array(vec![object(vec![("authorId", number(7))]), object(vec![("id", number(3))])])
        )])]
    );
}

#[test]
fn nested_a_bare_filter_and_a_wrapped_one_unwrap_alike() {
    check_unwrap_alike();
}

#[test]
fn payload_a_bare_filter_and_a_wrapped_one_unwrap_alike() {
    check_unwrap_alike();
}

#[test]
fn nested_a_child_filter_narrows_to_the_parent_link() {
    check_child_filter_narrows();
}

#[test]
fn payload_a_child_filter_narrows_to_the_parent_link() {
    check_child_filter_narrows();
}

#[test]
fn payloads_are_single_objects_or_arrays() {
    let one = object(vec![("id", number(1))]);
    assert_eq!(payload_items(&one).len(), 1);
    let many = Json::Array(vec![number(1), number(2)]);
    let items = payload_items(&many);
    assert_eq!(items, vec![&number(1), &number(2)]);
}

#[test]
fn objects_and_members_are_required_with_context() {
    let one = object(vec![("id", number(1))]);
    let members = require_object(&one, "connect").expect("object");
    assert_eq!(require_member(members, "id", "connect"), Ok(&number(1)));
    assert_eq!(
        require_member(members, "where", "connect"),
        Err(ProtocolError::InvalidParams("connect needs a 'where' entry".to_string()))
    );
    assert_eq!(
        require_object(&Json::Null, "set").unwrap_err(),
        ProtocolError::InvalidParams("set must be an object".to_string())
    );
}

#[test]
fn an_empty_extra_filter_leaves_the_scope_alone() {
    let scope = object(vec![("a", number(1))]);
    assert_eq!(scoped_filter(scope, Some(&object(vec![]))), object(vec![("a", number(1))]));
    let scope = object(vec![("a", number(1))]);
    assert_eq!(scoped_filter(scope, None), object(vec![("a", number(1))]));
}

#[test]
fn merged_links_override_and_extend_the_data() {
    let item = object(vec![("title", Json::String("t".to_string())), ("authorId", number(1))]);
    let link = object(vec![("authorId", number(7)), ("blogId", number(2))]);
    assert_eq!(
        merge_link(&item, &link, "posts"),
        Ok(object(vec![
            ("title", Json::String("t".to_string())),
            ("authorId", number(7)),
            ("blogId", number(2)),
        ]))
    );
    assert_eq!(
        merge_link(&number(1), &link, "posts"),
        Err(ProtocolError::InvalidParams(
            "Nested create on 'posts' must be an object or an array of objects".to_string()
        ))
    );
}
