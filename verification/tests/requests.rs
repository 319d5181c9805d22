use nautilus::ast::{Expr, OrderDir, Value};
use nautilus::grouping::{parse_group_by_order_by, parse_order_by, GroupByOrderItem};
use nautilus::conversion::{ResolvedFieldType, ScalarType};
use nautilus::json::{Json, JsonNumber};
use nautilus::model::{
    aggregate_column, create_many_effective_fields, is_autoincrement, primary_key_field,
    qualified_column, row_field_json, should_omit_server_default, unresolvable_key, DefaultValue,
    FieldIr, IncludeProjection, ModelIr, MutationResultData, Row,
};
use nautilus::naming::{
    db_column_for, include_alias, normalize_distinct, strip_column_qualifier,
    strip_order_qualifier, supported_operations, to_snake_case,
};
use nautilus::protocol::{
    count_all_item, ensure_single_record_filter, having_aggregate_fn, having_column, parse_int,
    parse_order_dir, parse_signed_int, protocol_filter_body, ProtocolError,
};
use nautilus::record::parse_pg_record_literal;
use nautilus::unique::resolved_projection;
use nautilus::naming::normalize_select;

fn object(entries: Vec<(&str, Json)>) -> Json {
    Json::Object(entries.into_iter().map(|(k, v)| (k.to_string(), v)).collect())
}

fn text(s: &str) -> Json {
    Json::String(s.to_string())
}

fn field(name: &str, db: &str) -> FieldIr {
    FieldIr {
        logical_name: name.to_string(),
        db_name: db.to_string(),
        field_type: ResolvedFieldType::Scalar(ScalarType::String),
        is_array: false,
        is_updated_at: false,
        default_value: None,
    }
}

fn post_model() -> ModelIr {
    let mut id = field("id", "id");
    id.default_value = Some(DefaultValue::Function("autoincrement".to_string()));
    let mut created = field("createdAt", "created_at");
    created.default_value = Some(DefaultValue::Function("now".to_string()));
    let mut updated = field("updatedAt", "updated_at");
    updated.is_updated_at = true;
    let mut author = field("author", "author");
    author.field_type = ResolvedFieldType::Relation(nautilus::model::RelationIr { name: None, target_model: "Other".to_string(), fields: vec![], references: vec![], join: None });
    ModelIr {
        logical_name: "Post".to_string(),
        db_name: "posts".to_string(),
        fields: vec![id, field("title", "title"), created, updated, author],
        primary_key: vec!["id".to_string()],
        unique_constraints: vec![],
    }
}

#[test]
fn snake_case_splits_before_capitals_after_the_first() {
    assert_eq!(to_snake_case("userId"), "user_id");
    assert_eq!(to_snake_case("UserProfile"), "user_profile");
    assert_eq!(to_snake_case("already_snake"), "already_snake");
    assert_eq!(to_snake_case(""), "");
    assert_eq!(to_snake_case("ÉtéX"), "été_x");
}

#[test]
fn qualifiers_are_stripped_at_the_first_separator() {
    assert_eq!(strip_order_qualifier("users__email"), "email");
    assert_eq!(strip_order_qualifier("email"), "email");
    assert_eq!(strip_column_qualifier("users__profile__slug"), "profile__slug");
    assert_eq!(
        normalize_distinct(&["a__b".to_string(), "c".to_string()]),
        vec!["b".to_string(), "c".to_string()]
    );
    assert_eq!(include_alias("posts"), "posts_json");
}

#[test]
fn db_columns_fall_back_to_the_logical_name() {
    let map = vec![("createdAt".to_string(), "created_at".to_string())];
    assert_eq!(db_column_for(&map, "createdAt"), "created_at");
    assert_eq!(db_column_for(&map, "title"), "title");
    match having_column("posts", &map, "createdAt") {
        Expr::Column(c) => assert_eq!(c, "posts__created_at"),
        other => panic!("unexpected {other:?}"),
    }
    assert!(matches!(having_column("posts", &map, "_all"), Expr::Star));
    match aggregate_column(&post_model(), &map, "createdAt") {
        Expr::Column(c) => assert_eq!(c, "posts__created_at"),
        other => panic!("unexpected {other:?}"),
    }
}

#[test]
fn order_directions_ignore_case() {
    assert_eq!(parse_order_dir("ASC"), Ok(OrderDir::Asc));
    assert_eq!(parse_order_dir("desc"), Ok(OrderDir::Desc));
    assert_eq!(
        parse_order_dir("up"),
        Err(ProtocolError::InvalidFilter("Invalid order direction: up".to_string()))
    );
}

#[test]
fn aggregates_are_named_by_their_keys() {
    assert_eq!(having_aggregate_fn("_count"), Some("COUNT"));
    assert_eq!(having_aggregate_fn("_max"), Some("MAX"));
    assert_eq!(having_aggregate_fn("views"), None);
    let (alias, expr) = count_all_item();
    assert_eq!(alias, "_count___all");
    match expr {
        Expr::FunctionCall { name, args } => {
            assert_eq!(name, "COUNT");
            assert_eq!(args.len(), 1);
            assert!(matches!(args[0], Expr::Star));
        }
        other => panic!("unexpected {other:?}"),
    }
}

#[test]
fn integers_are_read_within_their_ranges() {
    let five = Json::Number(JsonNumber::PosInt(5));
    assert_eq!(parse_int(&five, "take"), Ok(5));
    assert_eq!(
        parse_int(&Json::Number(JsonNumber::PosInt(1 << 40)), "take"),
        Err(ProtocolError::InvalidParams("take must be a non-negative integer".to_string()))
    );
    assert!(parse_int(&Json::Number(JsonNumber::NegInt(-1)), "skip").is_err());
    assert_eq!(parse_signed_int(&Json::Number(JsonNumber::NegInt(-4)), "n"), Ok(-4));
    assert_eq!(parse_signed_int(&five, "n"), Ok(5));
    assert_eq!(
        parse_signed_int(&Json::Number(JsonNumber::PosInt(u64::MAX)), "n"),
        Err(ProtocolError::InvalidParams("n must be an integer".to_string()))
    );
    assert!(parse_signed_int(&text("1"), "n").is_err());
}

#[test]
fn wrapped_and_bare_filters_unwrap_alike() {
    let bare = object(vec![("id", Json::Number(JsonNumber::PosInt(1)))]);
    let wrapped = object(vec![("where", object(vec![("id", Json::Number(JsonNumber::PosInt(1)))]))]);
    assert_eq!(protocol_filter_body(&bare), protocol_filter_body(&wrapped));
    let two = object(vec![("where", Json::Null), ("id", Json::Null)]);
    assert_eq!(protocol_filter_body(&two), &two);
}

#[test]
fn single_record_writes_need_a_filter() {
    assert_eq!(
        ensure_single_record_filter("update", &object(vec![])),
        Err(ProtocolError::InvalidFilter(
            "update needs a where filter; use updateMany to change every row".to_string()
        ))
    );
    assert_eq!(
        ensure_single_record_filter("delete", &Json::Array(vec![])),
        Err(ProtocolError::InvalidFilter("delete where must be an object".to_string()))
    );
    assert!(ensure_single_record_filter("delete", &object(vec![("id", Json::Null)])).is_ok());
}

#[test]
fn mutation_results_answer_in_either_shape() {
    let rows = MutationResultData::Rows(vec![
        Row { columns: vec![("id".to_string(), Value::I32(1))] },
        Row { columns: vec![("id".to_string(), Value::I32(2))] },
    ]);
    assert_eq!(rows.first_row().map(|r| r.columns.len()), Some(1));
    assert_eq!(rows.into_count(), 2);
    let count = MutationResultData::Count(3);
    assert!(count.first_row().is_none());
    assert_eq!(
        count.into_rows("create"),
        Err(ProtocolError::Internal("create path expected returned rows".to_string()))
    );
    assert_eq!(MutationResultData::Count(4).into_count(), 4);
}

#[test]
fn projections_map_aliases_to_logical_names() {
    let explicit = IncludeProjection::new(vec![("a__b".to_string(), "b".to_string())]);
    assert_eq!(explicit.fields, vec![("a__b".to_string(), "b".to_string())]);
    let model = IncludeProjection::for_model(&post_model());
    assert_eq!(
        model.fields,
        vec![
            ("posts__id".to_string(), "id".to_string()),
            ("posts__title".to_string(), "title".to_string()),
            ("posts__created_at".to_string(), "createdAt".to_string()),
            ("posts__updated_at".to_string(), "updatedAt".to_string()),
        ]
    );
}

#[test]
fn fields_resolve_and_defaults_are_honoured() {
    let model = post_model();
    assert!(is_autoincrement(&model.fields[0]));
    assert!(!is_autoincrement(&model.fields[2]));
    assert!(should_omit_server_default(&Json::Null, &model.fields[2]));
    assert!(!should_omit_server_default(&text("x"), &model.fields[2]));
    match qualified_column(&model, &model.fields[2]) {
        Expr::Column(c) => assert_eq!(c, "posts__created_at"),
        other => panic!("unexpected {other:?}"),
    }
    let data = vec![
        ("created_at".to_string(), Json::Null),
        ("title".to_string(), text("Hi")),
    ];
    assert_eq!(row_field_json(&data, &model.fields[2]), Some(&Json::Null));
    assert_eq!(row_field_json(&data, &model.fields[0]), None);
    let written: Vec<&str> = create_many_effective_fields(&model, &data)
        .iter()
        .map(|f| f.logical_name.as_str())
        .collect();
    assert_eq!(written, vec!["title"]);
    assert!(should_omit_server_default(&Json::Null, &model.fields[3]));
    let stamped = vec![("updatedAt".to_string(), text("2024-01-02 03:04:05"))];
    let written: Vec<&str> = create_many_effective_fields(&model, &stamped)
        .iter()
        .map(|f| f.logical_name.as_str())
        .collect();
    assert_eq!(written, vec!["updatedAt"]);
    assert_eq!(primary_key_field(&model, "id").map(|f| f.db_name.as_str()), Ok("id"));
    assert_eq!(
        primary_key_field(&model, "uuid").map(|f| f.db_name.as_str()),
        Err(ProtocolError::QueryPlanning(
            "Model 'Post' names unknown field 'uuid' in its primary key".to_string()
        ))
    );
    assert_eq!(
        unresolvable_key(&model, &model.fields[0]),
        ProtocolError::UnsupportedOperation(
            "Returning the written 'Post' row needs its 'id' value, and this backend cannot report a generated one; supply it in the data or set returnData to false".to_string()
        )
    );
}

#[test]
fn nested_operations_are_listed_creating_ones_first() {
    assert_eq!(supported_operations(false), "create, createMany, connect, connectOrCreate");
    assert_eq!(
        supported_operations(true),
        "create, createMany, connect, connectOrCreate, disconnect, set, update, updateMany, delete, deleteMany"
    );
}

#[test]
fn record_literals_trim_and_stop_at_the_closing_parenthesis() {
    assert_eq!(
        parse_pg_record_literal("  (a b,\"x,y\")\n"),
        Some(vec![Some("a b".to_string()), Some("x,y".to_string())])
    );
    assert_eq!(parse_pg_record_literal("()"), Some(vec![None]));
    assert_eq!(parse_pg_record_literal("("), None);
    assert_eq!(parse_pg_record_literal("(\"ab\"c,d)"), Some(vec![Some("ab".to_string())]));
    assert_eq!(parse_pg_record_literal("(\"a\\)"), Some(vec![Some("a".to_string())]));
    assert_eq!(parse_pg_record_literal("(1,,3)"), Some(vec![Some("1".to_string()), None, Some("3".to_string())]));
}

#[test]
fn grouped_ordering_reads_columns_and_aggregates() {
    let map = vec![("createdAt".to_string(), "created_at".to_string())];
    let order = Json::Array(vec![
        object(vec![("createdAt", text("DESC"))]),
        object(vec![("_count", object(vec![("_all", text("asc")), ("views", text("desc"))]))]),
    ]);
    let items = parse_group_by_order_by(&order, "posts", &map).expect("valid orderBy");
    assert_eq!(items.len(), 3);
    match &items[0] {
        GroupByOrderItem::Column(o) => {
            assert_eq!(o.column, "posts__created_at");
            assert_eq!(o.direction, OrderDir::Desc);
        }
        other => panic!("unexpected {other:?}"),
    }
    match &items[1] {
        GroupByOrderItem::Expr(Expr::FunctionCall { name, args }, OrderDir::Asc) => {
            assert_eq!(name, "COUNT");
            assert!(matches!(args[0], Expr::Star));
        }
        other => panic!("unexpected {other:?}"),
    }
    match &items[2] {
        GroupByOrderItem::Expr(Expr::FunctionCall { name, args }, OrderDir::Desc) => {
            assert_eq!(name, "COUNT");
            assert!(matches!(&args[0], Expr::Column(c) if c == "posts__views"));
        }
        other => panic!("unexpected {other:?}"),
    }
    assert_eq!(
        parse_group_by_order_by(&text("x"), "posts", &map).unwrap_err(),
        ProtocolError::InvalidFilter("orderBy must be an array".to_string())
    );
    assert_eq!(
        parse_group_by_order_by(&Json::Array(vec![Json::Null]), "posts", &map).unwrap_err(),
        ProtocolError::InvalidFilter("orderBy items must be objects".to_string())
    );
    assert_eq!(
        parse_group_by_order_by(&Json::Array(vec![object(vec![("_sum", text("asc"))])]), "posts", &map)
            .unwrap_err(),
        ProtocolError::InvalidFilter("_sum orderBy value must be an object".to_string())
    );
    assert_eq!(
        parse_group_by_order_by(&Json::Array(vec![object(vec![("a", Json::Null)])]), "posts", &map)
            .unwrap_err(),
        ProtocolError::InvalidFilter("orderBy direction must be a string".to_string())
    );
    assert_eq!(
        parse_group_by_order_by(&Json::Array(vec![object(vec![("a", text("up"))])]), "posts", &map)
            .unwrap_err(),
        ProtocolError::InvalidFilter("Invalid order direction: up".to_string())
    );
}

#[test]
fn projections_are_sorted_and_include_the_primary_key() {
    assert_eq!(resolved_projection(&["id"], &[]), Vec::<String>::new());
    assert_eq!(
        resolved_projection(&["id"], &["title", "body"]),
        vec!["body".to_string(), "id".to_string(), "title".to_string()]
    );
    assert_eq!(resolved_projection(&["id"], &["id", "a"]), vec!["a".to_string(), "id".to_string()]);
}

#[test]
fn typed_selects_keep_enabled_unqualified_names_once() {
    let mut names = normalize_select(&[
        ("users__email".to_string(), true),
        ("email".to_string(), true),
        ("name".to_string(), false),
        ("id".to_string(), true),
    ]);
    names.sort();
    assert_eq!(names, vec!["email".to_string(), "id".to_string()]);
}

#[test]
fn order_by_checks_fields_against_their_types() {
    let types = vec![
        ("title".to_string(), ResolvedFieldType::Scalar(ScalarType::String)),
        ("embedding".to_string(), ResolvedFieldType::Scalar(ScalarType::Vector { dimension: 3 })),
        ("address".to_string(), ResolvedFieldType::CompositeType { composite_name: "Address".to_string() }),
    ];
    let order = Json::Array(vec![
        object(vec![("posts__title", text("DESC"))]),
        object(vec![("address.city", text("asc"))]),
    ]);
    let orders = parse_order_by(&order, Some(&types)).expect("known fields");
    assert_eq!(orders.len(), 2);
    assert_eq!(orders[0].column, "posts__title");
    assert_eq!(orders[0].direction, OrderDir::Desc);
    assert_eq!(orders[1].column, "address.city");
    assert_eq!(
        parse_order_by(&Json::Array(vec![object(vec![("nope", text("asc"))])]), Some(&types)).unwrap_err(),
        ProtocolError::InvalidFilter("Unknown orderBy field 'nope'".to_string())
    );
    assert_eq!(
        parse_order_by(&Json::Array(vec![object(vec![("embedding", text("asc"))])]), Some(&types))
            .unwrap_err(),
        ProtocolError::InvalidFilter(
            "Field 'embedding' cannot be used with classic orderBy because it is not orderable".to_string()
        )
    );
    assert!(parse_order_by(&Json::Array(vec![object(vec![("nope", text("asc"))])]), None).is_ok());
    assert_eq!(
        parse_order_by(&text("x"), None).unwrap_err(),
        ProtocolError::InvalidFilter("orderBy must be an array".to_string())
    );
}

#[test]
fn snake_case_is_idempotent_and_adds_one_underscore_per_later_capital() {
    for s in ["createdAt", "UserProfileId", "already_snake", "HTTPServer", "x"] {
        let r = to_snake_case(s);
        assert_eq!(to_snake_case(&r), r);
        assert!(!r.chars().any(|c| c.is_ascii_uppercase()));
        assert_eq!(r.len(), s.len() + s.chars().skip(1).filter(|c| c.is_ascii_uppercase()).count());
    }
}
