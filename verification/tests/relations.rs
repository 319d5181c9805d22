use nautilus::ast::Value;
use nautilus::conversion::{ResolvedFieldType, ScalarType};
use nautilus::json::{Json, JsonNumber};
use nautilus::model::{FieldIr, ManyToManyJoinIr, ModelIr, RelationIr, Row};
use nautilus::protocol::ProtocolError;
use nautilus::nested_plan::split;
use nautilus::owning::{connected_filter, first_row, join_column, not_found, require_current, ParentPatch};
use nautilus::relation::{
    binding_for, child_key_value, inverse_relation, key_filter, model_or_error, null_key_data, relation_field,
    row_key_values, RelationSide,
};

fn scalar(logical: &str, db: &str) -> FieldIr {
    FieldIr {
        logical_name: logical.to_string(),
        db_name: db.to_string(),
        field_type: ResolvedFieldType::Scalar(ScalarType::Int),
        is_array: false,
        is_updated_at: false,
        default_value: None,
    }
}

fn strings(names: &[&str]) -> Vec<String> {
    names.iter().map(|n| n.to_string()).collect()
}

fn relation(logical: &str, db: &str, name: Option<&str>, target: &str, fields: &[&str], references: &[&str]) -> FieldIr {
    let mut f = scalar(logical, db);
    f.field_type = ResolvedFieldType::Relation(RelationIr {
        name: name.map(|n| n.to_string()),
        target_model: target.to_string(),
        fields: strings(fields),
        references: strings(references),
        join: None,
    });
    f
}

fn model(logical: &str, db: &str, fields: Vec<FieldIr>) -> ModelIr {
    ModelIr {
        logical_name: logical.to_string(),
        db_name: db.to_string(),
        fields,
        primary_key: vec!["id".to_string()],
        unique_constraints: vec![],
    }
}

fn user() -> ModelIr {
    model(
        "User",
        "users",
        vec![scalar("id", "id"), relation("posts", "posts", None, "Post", &[], &[])],
    )
}

fn post() -> ModelIr {
    model(
        "Post",
        "posts",
        vec![
            scalar("id", "id"),
            scalar("authorId", "author_id"),
            relation("author", "author", None, "User", &["authorId"], &["id"]),
        ],
    )
}

fn relation_of(field: &FieldIr) -> &RelationIr {
    match &field.field_type {
        ResolvedFieldType::Relation(r) => r,
        _ => panic!("not a relation"),
    }
}

#[test]
fn relation_field_accepts_logical_column_and_snake_case_names() {
    let mut m = post();
    m.fields.push(relation("mainTag", "main_tag_rel", None, "Tag", &["authorId"], &["id"]));
    assert_eq!(relation_field(&m, "author").map(|(f, _)| f.logical_name.clone()), Some("author".to_string()));
    assert_eq!(relation_field(&m, "main_tag").map(|(f, _)| f.logical_name.clone()), Some("mainTag".to_string()));
    assert_eq!(relation_field(&m, "main_tag_rel").map(|(f, _)| f.logical_name.clone()), Some("mainTag".to_string()));
    assert!(relation_field(&m, "authorId").is_none());
    assert!(relation_field(&m, "missing").is_none());
}

#[test]
fn inverse_relation_finds_the_foreign_key_side() {
    let u = user();
    let p = post();
    let field = &u.fields[1];
    let inv = inverse_relation(&u, field, relation_of(field), &p).unwrap();
    assert_eq!(inv.fields, strings(&["authorId"]));
    assert_eq!(inv.references, strings(&["id"]));
}

#[test]
fn inverse_relation_reports_a_missing_side() {
    let u = user();
    let p = model("Post", "posts", vec![scalar("id", "id")]);
    let field = &u.fields[1];
    assert_eq!(
        inverse_relation(&u, field, relation_of(field), &p),
        Err(ProtocolError::QueryPlanning(
            "Nested write on 'User.posts' needs the foreign-key side of the relation on model 'Post', and none was found"
                .to_string()
        ))
    );
}

#[test]
fn inverse_relation_reports_an_ambiguous_side() {
    let u = user();
    let mut p = post();
    p.fields.push(relation("editor", "editor", None, "User", &["authorId"], &["id"]));
    let field = &u.fields[1];
    assert_eq!(
        inverse_relation(&u, field, relation_of(field), &p),
        Err(ProtocolError::QueryPlanning(
            "Nested write on 'User.posts' is ambiguous: model 'Post' declares more than one relation back to 'User'"
                .to_string()
        ))
    );
}

#[test]
fn inverse_relation_tells_named_relations_apart() {
    let mut u = user();
    u.fields[1] = relation("posts", "posts", Some("Authored"), "Post", &[], &[]);
    let mut p = post();
    p.fields[2] = relation("author", "author", Some("Authored"), "User", &["authorId"], &["id"]);
    p.fields.push(relation("editor", "editor", Some("Edited"), "User", &["id"], &["id"]));
    let field = &u.fields[1];
    let inv = inverse_relation(&u, field, relation_of(field), &p).unwrap();
    assert_eq!(inv.name, Some("Authored".to_string()));
}

#[test]
fn binding_for_the_owning_side_uses_its_own_fields() {
    let models = vec![user(), post()];
    let p = post();
    let field = &p.fields[2];
    let b = binding_for(&models, &p, field, relation_of(field)).unwrap();
    assert_eq!(b.side, RelationSide::Owning);
    assert_eq!(b.target_model, "User");
    assert_eq!(b.foreign_keys, strings(&["authorId"]));
    assert_eq!(b.referenced, strings(&["id"]));
    assert!(b.via.is_none());
}

#[test]
fn binding_for_the_inverse_side_uses_the_related_fields() {
    let models = vec![user(), post()];
    let u = user();
    let field = &u.fields[1];
    let b = binding_for(&models, &u, field, relation_of(field)).unwrap();
    assert_eq!(b.side, RelationSide::Inverse);
    assert_eq!(b.target_model, "Post");
    assert_eq!(b.foreign_keys, strings(&["authorId"]));
    assert_eq!(b.referenced, strings(&["id"]));
}

#[test]
fn binding_for_a_join_table_is_many_to_many() {
    let mut tag_field = relation("tags", "tags", None, "Tag", &[], &[]);
    let join = ManyToManyJoinIr {
        table: "_PostTags".to_string(),
        self_column: "A".to_string(),
        target_column: "B".to_string(),
        self_reference: "id".to_string(),
        target_reference: "id".to_string(),
    };
    if let ResolvedFieldType::Relation(r) = &mut tag_field.field_type {
        r.join = Some(join);
    }
    let tag = model("Tag", "tags", vec![scalar("id", "id")]);
    let mut p = post();
    p.fields.push(tag_field);
    let models = vec![tag];
    let field = &p.fields[3];
    let b = binding_for(&models, &p, field, relation_of(field)).unwrap();
    assert_eq!(b.side, RelationSide::ManyToMany);
    assert!(b.foreign_keys.is_empty());
    assert_eq!(b.referenced, strings(&["id"]));
    assert_eq!(b.via.map(|j| j.table), Some("_PostTags".to_string()));
}

#[test]
fn binding_for_an_unknown_model_is_refused() {
    let models = vec![user()];
    let u = user();
    let field = &u.fields[1];
    assert_eq!(
        binding_for(&models, &u, field, relation_of(field)).unwrap_err(),
        ProtocolError::InvalidModel("Relation 'User.posts' targets unknown model 'Post'".to_string())
    );
}

fn mapping() -> Vec<(String, String)> {
    vec![("id".to_string(), "id".to_string()), ("authorId".to_string(), "author_id".to_string())]
}

fn written_row() -> Row {
    Row {
        columns: vec![
            ("posts__id".to_string(), Value::I64(7)),
            ("posts__author_id".to_string(), Value::String("u1".to_string())),
        ],
    }
}

#[test]
fn row_key_values_reads_the_qualified_columns() {
    let values = row_key_values(&mapping(), &post(), &written_row(), &strings(&["authorId", "id"])).unwrap();
    assert_eq!(values, vec![Value::String("u1".to_string()), Value::I64(7)]);
}

#[test]
fn row_key_values_refuses_an_unknown_field() {
    assert_eq!(
        row_key_values(&mapping(), &post(), &written_row(), &strings(&["id", "slug"])),
        Err(ProtocolError::QueryPlanning("Relation on model 'Post' references unknown field 'slug'".to_string()))
    );
}

#[test]
fn row_key_values_reports_a_column_missing_from_the_row() {
    let row = Row { columns: vec![("posts__id".to_string(), Value::I64(7))] };
    assert_eq!(
        row_key_values(&mapping(), &post(), &row, &strings(&["authorId"])),
        Err(ProtocolError::Internal("Nested write could not read 'Post.authorId' back from the written row".to_string()))
    );
}

#[test]
fn key_filter_pairs_fields_with_their_values_in_key_order() {
    let filter = key_filter(&strings(&["b", "a"]), &[Value::I64(-2), Value::String("x".to_string())]);
    assert_eq!(
        filter,
        Json::Object(vec![
            ("a".to_string(), Json::String("x".to_string())),
            ("b".to_string(), Json::Number(JsonNumber::NegInt(-2))),
        ])
    );
}

#[test]
fn key_filter_stops_at_the_shorter_list() {
    let filter = key_filter(&strings(&["a", "b"]), &[Value::I32(3)]);
    assert_eq!(filter, Json::Object(vec![("a".to_string(), Json::Number(JsonNumber::PosInt(3)))]));
}

#[test]
fn null_key_data_clears_every_field() {
    let data = null_key_data(&strings(&["authorId", "editorId", "authorId"]));
    assert_eq!(
        data,
        Json::Object(vec![("authorId".to_string(), Json::Null), ("editorId".to_string(), Json::Null)])
    );
}

fn key(k: &str, v: Json) -> (String, Json) {
    (k.to_string(), v)
}

fn connect_id(n: u64) -> Json {
    Json::Object(vec![key("connect", Json::Object(vec![key("id", Json::Number(JsonNumber::PosInt(n)))]))])
}

#[test]
fn split_separates_columns_from_nested_writes_by_side() {
    let models = vec![user(), post()];
    let p = post();
    let data = Json::Object(vec![
        key("author", connect_id(1)),
        key("title", Json::String("Hi".to_string())),
        key("authorId", Json::Number(JsonNumber::PosInt(3))),
    ]);
    let plan = split(&models, &p, &data, false).unwrap();
    assert_eq!(
        plan.scalar_data,
        vec![
            key("authorId", Json::Number(JsonNumber::PosInt(3))),
            key("title", Json::String("Hi".to_string())),
        ]
    );
    assert_eq!(plan.owning.len(), 1);
    assert_eq!(plan.owning[0].field_name, "author");
    assert_eq!(plan.owning[0].binding.side, RelationSide::Owning);
    assert_eq!(plan.owning[0].operations.iter().map(|(n, _)| *n).collect::<Vec<_>>(), vec!["connect"]);
    assert!(plan.inverse.is_empty());
    assert!(!plan.is_empty());
    assert!(!plan.writes_children());
}

#[test]
fn split_puts_the_inverse_side_after_the_parent() {
    let models = vec![user(), post()];
    let u = user();
    let data = Json::Object(vec![key("posts", Json::Object(vec![key("create", Json::Object(vec![]))]))]);
    let plan = split(&models, &u, &data, false).unwrap();
    assert!(plan.owning.is_empty());
    assert_eq!(plan.inverse.len(), 1);
    assert_eq!(plan.inverse[0].binding.side, RelationSide::Inverse);
    assert!(plan.writes_children());
}

#[test]
fn split_skips_a_relation_entry_without_operations() {
    let models = vec![user(), post()];
    let u = user();
    let data = Json::Object(vec![key("posts", Json::Object(vec![]))]);
    let plan = split(&models, &u, &data, false).unwrap();
    assert!(plan.is_empty());
    assert!(plan.scalar_data.is_empty());
}

#[test]
fn split_refuses_a_payload_that_is_not_an_object() {
    assert_eq!(
        split(&[user()], &user(), &Json::Null, true).err(),
        Some(ProtocolError::InvalidParams("data must be an object".to_string()))
    );
}

#[test]
fn split_refuses_update_operations_on_create() {
    let models = vec![user(), post()];
    let u = user();
    let data = Json::Object(vec![key("posts", Json::Object(vec![key("set", Json::Array(vec![]))]))]);
    assert_eq!(
        split(&models, &u, &data, false).err(),
        Some(ProtocolError::InvalidParams(
            "Nested 'set' on 'User.posts' needs an existing row, so it is only available on update".to_string()
        ))
    );
}

#[test]
fn split_reports_an_unknown_related_model() {
    let models = vec![post()];
    let p = post();
    assert_eq!(
        split(&models, &p, &Json::Object(vec![key("author", connect_id(1))]), true).err(),
        Some(ProtocolError::InvalidModel("Relation 'Post.author' targets unknown model 'User'".to_string()))
    );
}

#[test]
fn scalar_data_with_adds_the_resolved_foreign_keys() {
    let models = vec![user(), post()];
    let p = post();
    let data = Json::Object(vec![key("author", connect_id(1)), key("title", Json::String("Hi".to_string()))]);
    let plan = split(&models, &p, &data, false).unwrap();
    let merged = plan.scalar_data_with(vec![key("authorId", Json::Number(JsonNumber::PosInt(1)))]);
    assert_eq!(
        merged,
        Json::Object(vec![
            key("authorId", Json::Number(JsonNumber::PosInt(1))),
            key("title", Json::String("Hi".to_string())),
        ])
    );
    let replaced = plan.scalar_data_with(vec![key("title", Json::Null)]);
    assert_eq!(replaced, Json::Object(vec![key("title", Json::Null)]));
}

#[test]
fn child_key_value_reads_the_join_reference_of_the_child() {
    let models = vec![user(), post()];
    let binding = binding_for(&models, &post(), &post().fields[2], relation_of(&post().fields[2])).unwrap();
    let join = ManyToManyJoinIr {
        table: "_Links".to_string(),
        self_column: "A".to_string(),
        target_column: "B".to_string(),
        self_reference: "id".to_string(),
        target_reference: "id".to_string(),
    };
    let child = Row { columns: vec![("users__id".to_string(), Value::I64(9))] };
    let map = vec![("id".to_string(), "id".to_string())];
    assert_eq!(child_key_value(&models, &map, &binding, &join, &child), Ok(Value::I64(9)));
    let empty = Row { columns: vec![] };
    assert_eq!(
        child_key_value(&models, &map, &binding, &join, &empty),
        Err(ProtocolError::Internal("Nested write could not read 'User.id' back from the written row".to_string()))
    );
    assert_eq!(
        child_key_value(&[post()], &map, &binding, &join, &child),
        Err(ProtocolError::InvalidModel("User".to_string()))
    );
}

fn post_binding() -> nautilus::relation::RelationBinding {
    let models = vec![user(), post()];
    let p = post();
    binding_for(&models, &p, &p.fields[2], relation_of(&p.fields[2])).unwrap()
}

#[test]
fn point_at_copies_the_referenced_columns_into_the_foreign_keys() {
    let models = vec![user(), post()];
    let mut patch = ParentPatch::new();
    patch.assignments.push(("title".to_string(), Json::String("Hi".to_string())));
    let target_row = Row { columns: vec![("users__id".to_string(), Value::I64(4))] };
    let map = vec![("id".to_string(), "id".to_string())];
    patch.point_at(&models, &map, &post_binding(), &target_row).unwrap();
    assert_eq!(
        patch.assignments,
        vec![
            ("authorId".to_string(), Json::Number(JsonNumber::PosInt(4))),
            ("title".to_string(), Json::String("Hi".to_string())),
        ]
    );
    patch.clear(&post_binding());
    assert_eq!(
        patch.assignments,
        vec![("authorId".to_string(), Json::Null), ("title".to_string(), Json::String("Hi".to_string()))]
    );
    assert!(patch.deferred.is_empty());
}

#[test]
fn point_at_refuses_a_row_without_the_referenced_column() {
    let models = vec![user(), post()];
    let mut patch = ParentPatch::new();
    let map = vec![("id".to_string(), "id".to_string())];
    assert_eq!(
        patch.point_at(&models, &map, &post_binding(), &Row { columns: vec![] }),
        Err(ProtocolError::Internal("Nested write could not read 'User.id' back from the written row".to_string()))
    );
    assert_eq!(
        patch.point_at(&[post()], &map, &post_binding(), &Row { columns: vec![] }),
        Err(ProtocolError::InvalidModel("User".to_string()))
    );
    assert!(patch.assignments.is_empty());
}

#[test]
fn connected_filter_matches_the_row_the_parent_points_at() {
    let current = written_row();
    assert_eq!(
        connected_filter(&mapping(), &post(), &post_binding(), &current),
        Ok(Json::Object(vec![("id".to_string(), Json::String("u1".to_string()))]))
    );
}

#[test]
fn operations_on_the_connected_row_need_an_existing_row() {
    let current = written_row();
    assert!(require_current(Some(&current), "author", "update").is_ok());
    assert_eq!(
        require_current(None, "author", "delete").err(),
        Some(ProtocolError::InvalidParams(
            "Nested 'delete' on 'author' needs an existing row, so it is only available on update".to_string()
        ))
    );
}

#[test]
fn nested_create_and_lookup_failures_are_reported() {
    assert_eq!(
        first_row(&[], "author").err(),
        Some(ProtocolError::Internal("Nested create on 'author' returned no row to link the parent to".to_string()))
    );
    let rows = vec![written_row()];
    assert!(first_row(&rows, "author").is_ok());
    assert_eq!(
        not_found("connect", "author", &post_binding()),
        ProtocolError::RecordNotFound("Nested connect on 'author' matched no 'User' record".to_string())
    );
    assert_eq!(
        model_or_error(&[user()], "Post").err(),
        Some(ProtocolError::InvalidModel("Post".to_string()))
    );
}

#[test]
fn join_column_reads_a_link_row() {
    let join = ManyToManyJoinIr {
        table: "_PostTags".to_string(),
        self_column: "A".to_string(),
        target_column: "B".to_string(),
        self_reference: "id".to_string(),
        target_reference: "id".to_string(),
    };
    let link = Row { columns: vec![("_PostTags__B".to_string(), Value::I32(3))] };
    assert_eq!(join_column(&join, &link, "B"), Some(Value::I32(3)));
    assert_eq!(join_column(&join, &link, "A"), None);
}
