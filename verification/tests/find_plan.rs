use nautilus::ast::{
    BinaryOp, ColumnMarker, Expr, Join, JoinType, OrderBy, OrderByItem, OrderDir, PartitionWindow, SelectItem, Value,
};
use nautilus::normalize::ValueHint;
use nautilus::conversion::{ResolvedFieldType, ScalarType};
use nautilus::find_plan::{build_find_many_plan, finish_rows, FindArgs, JoinedTable};
use nautilus::model::{FieldIr, ModelIr, Row};

fn field(name: &str) -> FieldIr {
    FieldIr {
        logical_name: name.to_string(),
        db_name: name.to_string(),
        field_type: ResolvedFieldType::Scalar(ScalarType::String),
        is_array: false,
        is_updated_at: false,
        default_value: None,
    }
}

fn post() -> ModelIr {
    ModelIr {
        logical_name: "Post".to_string(),
        db_name: "posts".to_string(),
        fields: vec![field("id"), field("title")],
        primary_key: vec!["id".to_string()],
        unique_constraints: vec![],
    }
}

fn marker(name: &str) -> ColumnMarker {
    ColumnMarker { table: "posts".to_string(), name: name.to_string() }
}

fn columns() -> Vec<(String, ColumnMarker)> {
    vec![("id".to_string(), marker("id")), ("title".to_string(), marker("title"))]
}

fn mapping() -> Vec<(String, String)> {
    vec![("id".to_string(), "id".to_string()), ("title".to_string(), "title".to_string())]
}

fn pk() -> Vec<(String, String)> {
    vec![("id".to_string(), "id".to_string())]
}

fn args(take: Option<i32>, backward: bool, distinct: Vec<&str>, select: Vec<&str>) -> FindArgs {
    FindArgs {
        filter: None,
        cursor: None,
        order_by: vec![OrderBy { column: "title".to_string(), direction: OrderDir::Asc }],
        take,
        skip: Some(2),
        select: select.into_iter().map(|s| s.to_string()).collect(),
        distinct: distinct.into_iter().map(|s| s.to_string()).collect(),
        nearest: None,
        backward,
        partition: None,
        join: None,
    }
}

fn hints() -> Vec<Option<ValueHint>> {
    vec![None, Some(ValueHint::Json)]
}

fn row(id: i32, title: &str) -> Row {
    Row {
        columns: vec![
            ("posts__id".to_string(), Value::I32(id)),
            ("posts__title".to_string(), Value::String(title.to_string())),
        ],
    }
}

fn order(column: &str, direction: OrderDir) -> OrderByItem {
    OrderByItem::Column(OrderBy { column: column.to_string(), direction })
}

#[test]
fn reading_backward_flips_the_order() {
    let plan = build_find_many_plan(&[], &post(), &mapping(), &columns(), hints(), &pk(), true, args(Some(10), true, vec![], vec![]))
        .unwrap();
    assert!(plan.backward);
    assert_eq!(plan.select.order_by_items, vec![order("title", OrderDir::Desc)]);
    assert_eq!(plan.select.take, Some(10));
    assert_eq!(plan.select.skip, Some(2));
    assert!(plan.distinct.is_none());
    assert_eq!(plan.select.items, vec![SelectItem::Column(marker("id")), SelectItem::Column(marker("title"))]);
}

#[test]
fn distinct_without_distinct_on_is_applied_after_the_read() {
    let plan = build_find_many_plan(&[], &post(), &mapping(), &columns(), hints(), &pk(), false, args(Some(5), false, vec!["title"], vec![]))
        .unwrap();
    let fallback = plan.distinct.unwrap();
    assert_eq!(fallback.columns, vec!["posts__title".to_string()]);
    assert_eq!(fallback.skip, 2);
    assert_eq!(fallback.take, Some(5));
    assert_eq!(plan.select.take, None);
    assert_eq!(plan.select.skip, None);
    assert!(plan.select.distinct.is_empty());
}

#[test]
fn distinct_on_keeps_the_window_in_the_statement() {
    let plan = build_find_many_plan(&[], &post(), &mapping(), &columns(), hints(), &pk(), true, args(Some(5), false, vec!["id"], vec!["title"]))
        .unwrap();
    assert!(plan.distinct.is_none());
    assert_eq!(plan.select.distinct, vec!["id".to_string()]);
    assert_eq!(plan.select.take, Some(5));
    assert_eq!(plan.select.order_by_items, vec![order("id", OrderDir::Asc), order("title", OrderDir::Asc)]);
}

#[test]
fn only_the_projected_fields_and_the_key_are_selected() {
    let plan = build_find_many_plan(&[], &post(), &mapping(), &columns(), hints(), &pk(), true, args(None, false, vec![], vec!["nope"]))
        .unwrap();
    assert_eq!(plan.select.items, vec![SelectItem::Column(marker("id"))]);
}

#[test]
fn each_projected_column_carries_its_hint() {
    let all = build_find_many_plan(&[], &post(), &mapping(), &columns(), hints(), &pk(), true, args(None, false, vec![], vec![]))
        .unwrap();
    assert_eq!(all.row_hints, vec![None, Some(ValueHint::Json)]);
    let key_only = build_find_many_plan(&[], &post(), &mapping(), &columns(), hints(), &pk(), true, args(None, false, vec![], vec!["nope"]))
        .unwrap();
    assert_eq!(key_only.row_hints, vec![None]);
}

#[test]
fn a_joined_table_and_a_partition_window_are_kept() {
    let mut a = args(None, false, vec![], vec![]);
    a.partition = Some(PartitionWindow { partition_by: vec!["posts__author_id".to_string()], skip: 0, take: Some(3) });
    a.join = Some(JoinedTable {
        clause: Join {
            join_type: JoinType::Inner,
            table: "_PostTags".to_string(),
            on: Expr::Binary {
                left: Box::new(Expr::Column("_PostTags__A".to_string())),
                op: BinaryOp::Eq,
                right: Box::new(Expr::Column("posts__id".to_string())),
            },
            items: vec![],
        },
        hints: vec![Some(ValueHint::Uuid)],
    });
    let plan = build_find_many_plan(&[], &post(), &mapping(), &columns(), hints(), &pk(), true, a).unwrap();
    assert_eq!(plan.row_hints, vec![None, Some(ValueHint::Json), Some(ValueHint::Uuid)]);
    assert_eq!(plan.select.joins.len(), 1);
    assert_eq!(plan.select.joins[0].table, "_PostTags".to_string());
    assert_eq!(
        plan.select.partition_window,
        Some(PartitionWindow { partition_by: vec!["posts__author_id".to_string()], skip: 0, take: Some(3) })
    );
}

#[test]
fn rows_read_backward_come_back_in_the_order_asked_for() {
    let plan = build_find_many_plan(&[], &post(), &mapping(), &columns(), hints(), &pk(), true, args(Some(2), true, vec![], vec![]))
        .unwrap();
    let rows = finish_rows(&plan.distinct, plan.backward, vec![row(3, "c"), row(2, "b")]);
    assert_eq!(rows, vec![row(2, "b"), row(3, "c")]);
}

#[test]
fn the_engine_deduplicates_before_putting_rows_back_in_order() {
    let plan = build_find_many_plan(&[], &post(), &mapping(), &columns(), hints(), &pk(), false, args(Some(5), true, vec!["title"], vec![]))
        .unwrap();
    let rows = finish_rows(&plan.distinct, plan.backward, vec![row(1, "a"), row(2, "a"), row(3, "b"), row(4, "c"), row(5, "d")]);
    assert_eq!(rows, vec![row(5, "d"), row(4, "c")]);
}
