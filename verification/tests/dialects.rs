use nautilus::ast::{
    Assignment, BinaryOp, ColumnMarker, Expr, Insert, JsonPathCast, OnConflict, OrderDir, Select,
    Update, Value,
};
use nautilus::dialect::{Dialect, PostgresDialect, SqliteDialect};
use nautilus::grammar::VECTOR_COSINE_DISTANCE_FUNCTION;
use nautilus::ident::push_quoted_identifier;

fn quote_identifier(name: &str) -> String {
    let mut sql = String::new();
    push_quoted_identifier(&mut sql, name, '"');
    sql
}

fn select_from(table: &str) -> Select {
    Select {
        table: table.to_string(),
        items: vec![],
        joins: vec![],
        filter: None,
        group_by: vec![],
        having: None,
        order_by: vec![],
        order_by_exprs: vec![],
        order_by_items: vec![],
        take: None,
        skip: None,
        distinct: vec![],
        partition_window: None,
    }
}

fn column(name: &str) -> Expr {
    Expr::Column(name.to_string())
}

fn binary(left: Expr, op: BinaryOp, right: Expr) -> Expr {
    Expr::Binary { left: Box::new(left), op, right: Box::new(right) }
}

fn filtered(table: &str, filter: Expr) -> Select {
    let mut select = select_from(table);
    select.filter = Some(filter);
    select
}

fn strings(items: &[&str]) -> Value {
    Value::Array(items.iter().map(|s| Value::String(s.to_string())).collect())
}

fn vector(components: &[f32]) -> Value {
    Value::Vector(components.iter().map(|c| f64::from(*c).to_bits()).collect())
}

fn composite_stats() -> Value {
    Value::Composite {
        sql_type: "ChampionStatsT".to_string(),
        fields: vec![Value::I32(0), Value::I32(0)],
    }
}

fn marker(table: &str, name: &str) -> ColumnMarker {
    ColumnMarker { table: table.to_string(), name: name.to_string() }
}

#[test]
fn test_quote_identifier() {
    assert_eq!(quote_identifier("users"), "\"users\"");
    assert_eq!(quote_identifier("email"), "\"email\"");
    assert_eq!(quote_identifier("foo\"bar"), "\"foo\"\"bar\"");
    assert_eq!(quote_identifier("a\"b\"c"), "\"a\"\"b\"\"c\"");
}

#[test]
fn postgres_test_array_contains_operator() {
    let select = filtered(
        "posts",
        binary(column("posts__tags"), BinaryOp::ArrayContains, Expr::Param(strings(&["rust"]))),
    );
    let sql = PostgresDialect.render_select_owned(select);
    assert_eq!(sql.text, "SELECT * FROM \"posts\" WHERE (\"posts\".\"tags\" @> $1)");
    assert_eq!(sql.params.len(), 1);
    match &sql.params[0] {
        Value::Array(arr) => {
            assert_eq!(arr.len(), 1);
            assert_eq!(arr[0], Value::String("rust".to_string()));
        }
        _ => panic!("Expected Array value"),
    }
}

#[test]
fn postgres_test_array_contained_by_operator() {
    let select = filtered(
        "posts",
        binary(
            column("posts__tags"),
            BinaryOp::ArrayContainedBy,
            Expr::Param(strings(&["rust", "go"])),
        ),
    );
    let sql = PostgresDialect.render_select_owned(select);
    assert_eq!(sql.text, "SELECT * FROM \"posts\" WHERE (\"posts\".\"tags\" <@ $1)");
    assert_eq!(sql.params.len(), 1);
    match &sql.params[0] {
        Value::Array(arr) => {
            assert_eq!(arr.len(), 2);
            assert_eq!(arr[0], Value::String("rust".to_string()));
            assert_eq!(arr[1], Value::String("go".to_string()));
        }
        _ => panic!("Expected Array value"),
    }
}

#[test]
fn postgres_test_array_overlaps_operator() {
    let select = filtered(
        "posts",
        binary(
            column("posts__tags"),
            BinaryOp::ArrayOverlaps,
            Expr::Param(strings(&["rust", "python"])),
        ),
    );
    let sql = PostgresDialect.render_select_owned(select);
    assert_eq!(sql.text, "SELECT * FROM \"posts\" WHERE (\"posts\".\"tags\" && $1)");
    assert_eq!(sql.params.len(), 1);
    match &sql.params[0] {
        Value::Array(arr) => {
            assert_eq!(arr.len(), 2);
            assert_eq!(arr[0], Value::String("rust".to_string()));
            assert_eq!(arr[1], Value::String("python".to_string()));
        }
        _ => panic!("Expected Array value"),
    }
}

#[test]
fn test_array_operators_with_integers() {
    let select = filtered(
        "posts",
        binary(
            column("posts__scores"),
            BinaryOp::ArrayContains,
            Expr::Param(Value::Array(vec![Value::I32(100), Value::I32(200)])),
        ),
    );
    let sql = PostgresDialect.render_select_owned(select);
    assert_eq!(sql.text, "SELECT * FROM \"posts\" WHERE (\"posts\".\"scores\" @> $1)");
    assert_eq!(sql.params.len(), 1);
    match &sql.params[0] {
        Value::Array(arr) => {
            assert_eq!(arr.len(), 2);
            assert_eq!(arr[0], Value::I32(100));
            assert_eq!(arr[1], Value::I32(200));
        }
        _ => panic!("Expected Array value"),
    }
}

#[test]
fn vector_params_are_cast_to_pgvector_type() {
    let select = filtered(
        "embeddings",
        binary(column("embeddings__vector"), BinaryOp::Eq, Expr::Param(vector(&[1.0, 2.0, 3.0]))),
    );
    let sql = PostgresDialect.render_select_owned(select);
    assert_eq!(
        sql.text,
        "SELECT * FROM \"embeddings\" WHERE (\"embeddings\".\"vector\" = $1::vector)"
    );
    assert_eq!(sql.params, vec![vector(&[1.0, 2.0, 3.0])]);
}

#[test]
fn postgis_params_are_cast_to_spatial_types() {
    let select = filtered(
        "places",
        binary(
            column("places__geom"),
            BinaryOp::Eq,
            Expr::Param(Value::Geometry("POINT(1 2)".to_string())),
        ),
    );
    let sql = PostgresDialect.render_select_owned(select);
    assert_eq!(
        sql.text,
        "SELECT * FROM \"places\" WHERE (\"places\".\"geom\" = $1::geometry)"
    );
    assert_eq!(sql.params, vec![Value::Geometry("POINT(1 2)".to_string())]);

    let select = filtered(
        "places",
        binary(
            column("places__geog"),
            BinaryOp::Eq,
            Expr::Param(Value::Geography("POINT(1 2)".to_string())),
        ),
    );
    let sql = PostgresDialect.render_select_owned(select);
    assert_eq!(
        sql.text,
        "SELECT * FROM \"places\" WHERE (\"places\".\"geog\" = $1::geography)"
    );
    assert_eq!(sql.params, vec![Value::Geography("POINT(1 2)".to_string())]);
}

#[test]
fn composite_params_are_cast_to_their_type_name() {
    let select = filtered(
        "champions",
        binary(column("champions__stats"), BinaryOp::Eq, Expr::Param(composite_stats())),
    );
    let sql = PostgresDialect.render_select_owned(select);
    assert_eq!(
        sql.text,
        "SELECT * FROM \"champions\" WHERE (\"champions\".\"stats\" = $1::\"ChampionStatsT\")"
    );
    assert_eq!(sql.params, vec![composite_stats()]);
}

#[test]
fn composite_insert_and_update_params_are_cast_to_their_type_name() {
    let insert = Insert {
        table: "champions".to_string(),
        columns: vec![marker("champions", "stats")],
        values: vec![vec![composite_stats()]],
        on_conflict: None,
        returning: vec![],
    };
    let sql = PostgresDialect.render_insert_owned(insert);
    assert_eq!(
        sql.text,
        "INSERT INTO \"champions\" (\"stats\") VALUES ($1::\"ChampionStatsT\")"
    );
    assert_eq!(sql.params, vec![composite_stats()]);

    let update = Update {
        table: "champions".to_string(),
        assignments: vec![(marker("champions", "stats"), Assignment::Value(composite_stats()))],
        filter: None,
        returning: vec![],
    };
    let sql = PostgresDialect.render_update_owned(update);
    assert_eq!(sql.text, "UPDATE \"champions\" SET \"stats\" = $1::\"ChampionStatsT\"");
    assert_eq!(sql.params, vec![composite_stats()]);
}

#[test]
fn text_bound_insert_and_update_params_are_cast_to_their_column_type() {
    let insert = Insert {
        table: "docs".to_string(),
        columns: vec![marker("docs", "embedding")],
        values: vec![vec![vector(&[1.0, 0.0, 0.0])]],
        on_conflict: None,
        returning: vec![],
    };
    assert_eq!(
        PostgresDialect.render_insert_owned(insert).text,
        "INSERT INTO \"docs\" (\"embedding\") VALUES ($1::vector)",
        "pgvector, PostGIS and JSON parameters all bind as text, so PostgreSQL \
         rejects them against their real column type without an explicit cast"
    );

    let update = Update {
        table: "docs".to_string(),
        assignments: vec![(
            marker("docs", "embedding"),
            Assignment::Value(vector(&[1.0, 0.0, 0.0])),
        )],
        filter: None,
        returning: vec![],
    };
    assert_eq!(
        PostgresDialect.render_update_owned(update).text,
        "UPDATE \"docs\" SET \"embedding\" = $1::vector"
    );
}

fn eta_minutes() -> Expr {
    Expr::CompositeField {
        table: "shipments".to_string(),
        column: "delivery_snapshot".to_string(),
        field: "eta_minutes".to_string(),
        json_key: "etaMinutes".to_string(),
        cast: JsonPathCast::Signed,
    }
}

#[test]
fn composite_field_ordering_uses_native_attribute_syntax() {
    let mut select = select_from("shipments");
    select.order_by_exprs = vec![(eta_minutes(), OrderDir::Asc)];
    let sql = PostgresDialect.render_select_owned(select);
    assert_eq!(
        sql.text,
        "SELECT * FROM \"shipments\" ORDER BY (\"shipments\".\"delivery_snapshot\").\"eta_minutes\" ASC"
    );
}

#[test]
fn vector_distance_ordering_uses_pgvector_operator() {
    let mut select = select_from("embeddings");
    select.order_by_exprs = vec![(
        Expr::FunctionCall {
            name: VECTOR_COSINE_DISTANCE_FUNCTION.to_string(),
            args: vec![column("embeddings__vector"), Expr::Param(vector(&[1.0, 2.0, 3.0]))],
        },
        OrderDir::Asc,
    )];
    select.take = Some(5);
    let sql = PostgresDialect.render_select_owned(select);
    assert_eq!(
        sql.text,
        "SELECT * FROM \"embeddings\" ORDER BY (\"embeddings\".\"vector\" <=> $1::vector) ASC LIMIT 5"
    );
    assert_eq!(sql.params, vec![vector(&[1.0, 2.0, 3.0])]);
}

#[test]
fn upsert_renders_on_conflict_do_update() {
    let insert = Insert {
        table: "users".to_string(),
        columns: vec![marker("users", "email"), marker("users", "name")],
        values: vec![vec![
            Value::String("alice@example.com".to_string()),
            Value::String("Alice".to_string()),
        ]],
        on_conflict: Some(OnConflict {
            target: vec![marker("users", "email")],
            update: vec![(
                marker("users", "name"),
                Assignment::Value(Value::String("Alice II".to_string())),
            )],
        }),
        returning: vec![],
    };
    let sql = SqliteDialect.render_insert_owned(insert);
    assert_eq!(
        sql.text,
        "INSERT INTO \"users\" (\"email\", \"name\") VALUES (?, ?) \
         ON CONFLICT (\"email\") DO UPDATE SET \"name\" = ?"
    );
    assert_eq!(sql.params.len(), 3);
}

#[test]
fn sqlite_test_array_contains_operator() {
    let select = filtered(
        "posts",
        binary(column("posts__tags"), BinaryOp::ArrayContains, Expr::Param(strings(&["rust"]))),
    );
    let sql = SqliteDialect.render_select_owned(select);
    assert_eq!(
        sql.text,
        "SELECT * FROM \"posts\" WHERE NOT EXISTS (SELECT 1 FROM json_each(?) AS _rhs WHERE NOT EXISTS (SELECT 1 FROM json_each(\"posts\".\"tags\") AS _col WHERE _col.value IS _rhs.value))"
    );
    assert_eq!(sql.params.len(), 1);
    match &sql.params[0] {
        Value::Array(arr) => {
            assert_eq!(arr.len(), 1);
            assert_eq!(arr[0], Value::String("rust".to_string()));
        }
        _ => panic!("Expected Array value"),
    }
}

#[test]
fn sqlite_test_array_contained_by_operator() {
    let select = filtered(
        "posts",
        binary(
            column("posts__tags"),
            BinaryOp::ArrayContainedBy,
            Expr::Param(strings(&["rust", "go"])),
        ),
    );
    let sql = SqliteDialect.render_select_owned(select);
    assert_eq!(
        sql.text,
        "SELECT * FROM \"posts\" WHERE NOT EXISTS (SELECT 1 FROM json_each(\"posts\".\"tags\") AS _col WHERE NOT EXISTS (SELECT 1 FROM json_each(?) AS _rhs WHERE _col.value IS _rhs.value))"
    );
    assert_eq!(sql.params.len(), 1);
    match &sql.params[0] {
        Value::Array(arr) => {
            assert_eq!(arr.len(), 2);
            assert_eq!(arr[0], Value::String("rust".to_string()));
            assert_eq!(arr[1], Value::String("go".to_string()));
        }
        _ => panic!("Expected Array value"),
    }
}

#[test]
fn sqlite_test_array_overlaps_operator() {
    let select = filtered(
        "posts",
        binary(
            column("posts__tags"),
            BinaryOp::ArrayOverlaps,
            Expr::Param(strings(&["rust", "python"])),
        ),
    );
    let sql = SqliteDialect.render_select_owned(select);
    assert_eq!(
        sql.text,
        "SELECT * FROM \"posts\" WHERE EXISTS (SELECT 1 FROM json_each(\"posts\".\"tags\") AS _col WHERE EXISTS (SELECT 1 FROM json_each(?) AS _rhs WHERE _col.value IS _rhs.value))"
    );
    assert_eq!(sql.params.len(), 1);
    match &sql.params[0] {
        Value::Array(arr) => {
            assert_eq!(arr.len(), 2);
            assert_eq!(arr[0], Value::String("rust".to_string()));
            assert_eq!(arr[1], Value::String("python".to_string()));
        }
        _ => panic!("Expected Array value"),
    }
}

#[test]
fn composite_field_ordering_uses_json_extract() {
    let mut select = select_from("shipments");
    select.order_by_exprs = vec![(eta_minutes(), OrderDir::Asc)];
    let sql = SqliteDialect.render_select_owned(select);
    assert_eq!(
        sql.text,
        "SELECT * FROM \"shipments\" ORDER BY json_extract(\"shipments\".\"delivery_snapshot\", '$.\"etaMinutes\"') ASC"
    );
}
