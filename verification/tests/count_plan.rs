use nautilus::ast::{Expr, SelectItem, Value};
use nautilus::count_plan::{count_of_rows, plan_count, render_count, CountPlan};
use nautilus::grammar::DialectKind;
use nautilus::model::Row;

#[test]
fn a_count_without_a_window_is_a_plain_aggregate() {
    let plan = plan_count("posts", None, None, None);
    match &plan {
        CountPlan::Plain(s) => {
            assert_eq!(s.table, "posts".to_string());
            assert_eq!(
                s.items,
                vec![SelectItem::Computed {
                    expr: Expr::FunctionCall { name: "COUNT".to_string(), args: vec![Expr::Star] },
                    alias: "count".to_string(),
                }]
            );
            assert_eq!(s.take, None);
        }
        CountPlan::Windowed(_) => panic!("no window was asked for"),
    }
    let sql = render_count(DialectKind::Postgres, plan);
    assert!(sql.text.contains("COUNT(*)"));
    assert!(!sql.text.contains("_cntq"));
    assert!(sql.params.is_empty());
}

#[test]
fn a_count_with_a_window_counts_the_window_from_a_subquery() {
    let plan = plan_count("posts", None, Some(5), Some(2));
    match &plan {
        CountPlan::Windowed(s) => {
            assert_eq!(s.take, Some(5));
            assert_eq!(s.skip, Some(2));
            assert_eq!(
                s.items,
                vec![SelectItem::Computed { expr: Expr::Param(Value::I32(1)), alias: "_1".to_string() }]
            );
        }
        CountPlan::Plain(_) => panic!("a window was asked for"),
    }
    let sql = render_count(DialectKind::Postgres, plan);
    assert!(sql.text.starts_with("SELECT COUNT(*) FROM (SELECT "));
    assert!(sql.text.ends_with(") AS _cntq"));
    assert_eq!(sql.params[0], Value::I32(1));
    assert!(matches!(plan_count("posts", None, None, Some(1)), CountPlan::Windowed(_)));
}

#[test]
fn the_count_is_read_from_the_first_column_of_the_first_row() {
    let row = |v: Value| Row { columns: vec![("count".to_string(), v)] };
    assert_eq!(count_of_rows(&[row(Value::I64(42))]), 42);
    assert_eq!(count_of_rows(&[row(Value::I32(7))]), 7);
    assert_eq!(count_of_rows(&[row(Value::String("x".to_string()))]), 0);
    assert_eq!(count_of_rows(&[]), 0);
}
