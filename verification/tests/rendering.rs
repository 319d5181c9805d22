use nautilus::ast::{
    Assignment, BinaryOp, ColumnMarker, Delete, Expr, Join, JoinType, OrderBy, OrderByItem,
    OrderDir, PartitionWindow, RelationFilter, RelationFilterOp, Select, SelectItem, Update, Value,
    ViaTable,
};
use nautilus::dialect::{Dialect, PostgresDialect, SqliteDialect};

fn select_from(table: &str) -> Select {
    Select {
        table: table.to_string(),
        items: vec![],
        joins: vec![],
        filter: None,
        group_by: vec![],
        having: None,
        order_by: vec![],
        order_by_exprs: vec![],
        order_by_items: vec![],
        take: None,
        skip: None,
        distinct: vec![],
        partition_window: None,
    }
}

fn marker(table: &str, name: &str) -> ColumnMarker {
    ColumnMarker { table: table.to_string(), name: name.to_string() }
}

fn column(name: &str) -> Expr {
    Expr::Column(name.to_string())
}

fn binary(left: Expr, op: BinaryOp, right: Expr) -> Expr {
    Expr::Binary { left: Box::new(left), op, right: Box::new(right) }
}

fn text(s: &str) -> Value {
    Value::String(s.to_string())
}

#[test]
fn projection_joins_grouping_and_paging_render_in_clause_order() {
    let mut select = select_from("users");
    select.items = vec![SelectItem::Column(marker("users", "id"))];
    select.joins = vec![Join {
        join_type: JoinType::Left,
        table: "posts".to_string(),
        on: binary(column("posts__author_id"), BinaryOp::Eq, column("users__id")),
        items: vec![SelectItem::Column(marker("posts", "title"))],
    }];
    select.filter = Some(binary(column("users__age"), BinaryOp::Ge, Expr::Param(Value::I32(18))));
    select.group_by = vec![marker("users", "id")];
    select.having = Some(binary(
        Expr::FunctionCall { name: "COUNT".to_string(), args: vec![Expr::Star] },
        BinaryOp::Gt,
        Expr::Param(Value::I64(2)),
    ));
    select.order_by = vec![OrderBy { column: "users__id".to_string(), direction: OrderDir::Desc }];
    select.take = Some(10);
    select.skip = Some(20);
    let sql = PostgresDialect.render_select_owned(select);
    assert_eq!(
        sql.text,
        "SELECT \"users\".\"id\" AS \"users__id\", \"posts\".\"title\" AS \"posts__title\" FROM \"users\" \
         LEFT JOIN \"posts\" ON (\"posts\".\"author_id\" = \"users\".\"id\") \
         WHERE (\"users\".\"age\" >= $1) GROUP BY \"users\".\"id\" HAVING (COUNT(*) > $2) \
         ORDER BY \"users\".\"id\" DESC LIMIT 10 OFFSET 20"
    );
    assert_eq!(sql.params, vec![Value::I32(18), Value::I64(2)]);
}

#[test]
fn sqlite_offset_without_limit_writes_minus_one() {
    let mut select = select_from("users");
    select.skip = Some(5);
    assert_eq!(
        SqliteDialect.render_select_owned(select).text,
        "SELECT * FROM \"users\" LIMIT -1 OFFSET 5"
    );
    let mut select = select_from("users");
    select.skip = Some(5);
    assert_eq!(
        PostgresDialect.render_select_owned(select).text,
        "SELECT * FROM \"users\" OFFSET 5"
    );
}

#[test]
fn negative_take_limits_by_its_magnitude() {
    let mut select = select_from("users");
    select.take = Some(-3);
    assert_eq!(PostgresDialect.render_select_owned(select).text, "SELECT * FROM \"users\" LIMIT 3");
}

#[test]
fn distinct_is_distinct_on_only_in_postgres() {
    let mut select = select_from("users");
    select.distinct = vec!["users__email".to_string()];
    assert_eq!(
        PostgresDialect.render_select_owned(select).text,
        "SELECT DISTINCT ON (\"users\".\"email\") * FROM \"users\""
    );
    let mut select = select_from("users");
    select.distinct = vec!["users__email".to_string()];
    assert_eq!(SqliteDialect.render_select_owned(select).text, "SELECT DISTINCT * FROM \"users\"");
    assert!(PostgresDialect.supports_distinct_on());
    assert!(!SqliteDialect.supports_distinct_on());
    assert!(PostgresDialect.supports_returning() && SqliteDialect.supports_returning());
}

#[test]
fn null_params_are_written_literally_and_placeholders_count_bound_values() {
    let filter = binary(
        binary(column("users__a"), BinaryOp::Eq, Expr::Param(Value::Null)),
        BinaryOp::And,
        binary(column("users__b"), BinaryOp::Eq, Expr::Param(Value::Bool(true))),
    );
    let mut select = select_from("users");
    select.filter = Some(filter);
    let sql = PostgresDialect.render_select_owned(select);
    assert_eq!(
        sql.text,
        "SELECT * FROM \"users\" WHERE ((\"users\".\"a\" = NULL) AND (\"users\".\"b\" = $1))"
    );
    assert_eq!(sql.params, vec![Value::Bool(true)]);
}

#[test]
fn in_list_and_like_escape_render_per_dialect() {
    let list = Expr::List(vec![Expr::Param(Value::I32(1)), Expr::Param(Value::I32(2))]);
    let mut select = select_from("t");
    select.filter = Some(binary(column("t__id"), BinaryOp::NotIn, list));
    let sql = SqliteDialect.render_select_owned(select);
    assert_eq!(sql.text, "SELECT * FROM \"t\" WHERE (\"t\".\"id\" NOT IN (?, ?))");
    assert_eq!(sql.params.len(), 2);

    let mut select = select_from("t");
    select.filter = Some(binary(column("t__name"), BinaryOp::LikeEscape, Expr::Param(text("a\\%"))));
    assert_eq!(
        SqliteDialect.render_select_owned(select).text,
        "SELECT * FROM \"t\" WHERE (\"t\".\"name\" LIKE ? ESCAPE '\\')"
    );
}

#[test]
fn relation_filters_render_as_correlated_subqueries() {
    let relation = RelationFilter {
        parent_table: "users".to_string(),
        pk_db: "id".to_string(),
        target_table: "posts".to_string(),
        fk_db: "author_id".to_string(),
        via: None,
        filter: Box::new(binary(column("posts__published"), BinaryOp::Eq, Expr::Param(Value::Bool(true)))),
    };
    let mut select = select_from("users");
    select.filter = Some(Expr::Relation { op: RelationFilterOp::Every, relation: Box::new(relation) });
    assert_eq!(
        PostgresDialect.render_select_owned(select).text,
        "SELECT * FROM \"users\" WHERE NOT EXISTS (SELECT * FROM \"posts\" WHERE \"posts\".\"author_id\" = \"users\".\"id\" AND NOT ((\"posts\".\"published\" = $1)))"
    );

    let relation = RelationFilter {
        parent_table: "posts".to_string(),
        pk_db: "id".to_string(),
        target_table: "tags".to_string(),
        fk_db: "id".to_string(),
        via: Some(ViaTable {
            table: "_PostToTag".to_string(),
            parent_column: "A".to_string(),
            child_column: "B".to_string(),
        }),
        filter: Box::new(Expr::Literal("x".to_string())),
    };
    let mut select = select_from("posts");
    select.filter = Some(Expr::Relation { op: RelationFilterOp::Any, relation: Box::new(relation) });
    assert_eq!(
        SqliteDialect.render_select_owned(select).text,
        "SELECT * FROM \"posts\" WHERE EXISTS (SELECT * FROM \"_PostToTag\" INNER JOIN \"tags\" ON \"tags\".\"id\" = \"_PostToTag\".\"B\" WHERE \"_PostToTag\".\"A\" = \"posts\".\"id\" AND 'x')"
    );
}

#[test]
fn sqlite_renames_json_aggregates() {
    let mut select = select_from("t");
    select.items = vec![SelectItem::Computed {
        expr: Expr::FunctionCall { name: "json_agg".to_string(), args: vec![column("t__x")] },
        alias: "xs".to_string(),
    }];
    assert_eq!(
        SqliteDialect.render_select_owned(select).text,
        "SELECT (json_group_array(\"t\".\"x\")) AS \"xs\" FROM \"t\""
    );
}

#[test]
fn partition_window_wraps_the_select() {
    let mut select = select_from("posts");
    select.items = vec![SelectItem::Column(marker("posts", "id"))];
    select.order_by = vec![OrderBy { column: "posts__id".to_string(), direction: OrderDir::Asc }];
    select.partition_window = Some(PartitionWindow {
        partition_by: vec!["posts__author_id".to_string()],
        skip: 1,
        take: Some(2),
    });
    assert_eq!(
        PostgresDialect.render_select_owned(select).text,
        "SELECT \"posts__id\" FROM (SELECT \"posts\".\"id\" AS \"posts__id\", ROW_NUMBER() OVER (PARTITION BY \"posts\".\"author_id\" ORDER BY \"posts\".\"id\" ASC) AS \"__nautilus_rn\" FROM \"posts\") AS \"__nautilus_win\" WHERE \"__nautilus_rn\" > 1 AND \"__nautilus_rn\" <= 3 ORDER BY \"__nautilus_rn\" ASC"
    );
}

#[test]
fn mixed_order_items_and_case_when_render() {
    let mut select = select_from("t");
    select.order_by_items = vec![
        OrderByItem::Column(OrderBy { column: "t__a".to_string(), direction: OrderDir::Asc }),
        OrderByItem::Expr(
            Expr::CaseWhen { condition: Box::new(column("t__b")), then: Box::new(Expr::Param(Value::I32(1))) },
            OrderDir::Desc,
        ),
    ];
    let sql = PostgresDialect.render_select_owned(select);
    assert_eq!(
        sql.text,
        "SELECT * FROM \"t\" ORDER BY \"t\".\"a\" ASC, CASE WHEN \"t\".\"b\" THEN $1 ELSE NULL END DESC"
    );
    assert_eq!(sql.params, vec![Value::I32(1)]);
}

#[test]
fn update_and_delete_render_filters_and_returning() {
    let update = Update {
        table: "posts".to_string(),
        assignments: vec![
            (marker("posts", "views"), Assignment::Expr(binary(column("views"), BinaryOp::Add, Expr::Param(Value::I32(1))))),
            (marker("posts", "title"), Assignment::Value(Value::Null)),
        ],
        filter: Some(binary(column("posts__id"), BinaryOp::Eq, Expr::Param(Value::I64(7)))),
        returning: vec![marker("posts", "id")],
    };
    let sql = PostgresDialect.render_update_owned(update);
    assert_eq!(
        sql.text,
        "UPDATE \"posts\" SET \"views\" = (\"views\" + $1), \"title\" = NULL WHERE (\"posts\".\"id\" = $2) RETURNING \"posts\".\"id\" AS \"posts__id\""
    );
    assert_eq!(sql.params, vec![Value::I32(1), Value::I64(7)]);

    let delete = Delete {
        table: "posts".to_string(),
        filter: Some(binary(column("posts__id"), BinaryOp::Eq, Expr::Param(Value::I64(7)))),
        returning: vec![],
    };
    let sql = SqliteDialect.render_delete_owned(delete);
    assert_eq!(sql.text, "DELETE FROM \"posts\" WHERE (\"posts\".\"id\" = ?)");
    assert_eq!(sql.params, vec![Value::I64(7)]);
}

#[test]
fn uuid_json_and_enum_params_get_postgres_casts() {
    let mut select = select_from("t");
    select.filter = Some(binary(
        binary(column("t__id"), BinaryOp::Eq, Expr::Param(Value::Uuid(1))),
        BinaryOp::Or,
        binary(
            column("t__role"),
            BinaryOp::Eq,
            Expr::Param(Value::Enum { sql_type: "Role".to_string(), value: "ADMIN".to_string() }),
        ),
    ));
    assert_eq!(
        PostgresDialect.render_select_owned(select).text,
        "SELECT * FROM \"t\" WHERE ((\"t\".\"id\" = $1::uuid) OR (\"t\".\"role\" = $2::\"Role\"))"
    );
}
