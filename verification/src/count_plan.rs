//! The statement a `count` runs, and the count read back from its row.
//! Without a window the count is a plain aggregate; with `take` or `skip`
//! it counts the rows of the window, which only a subquery can limit.
use vstd::prelude::*;

use crate::ast::{Expr, Select, SelectItem, Value};
use crate::dialect::{render_select_in, Sql};
use crate::grammar::{select_sql, DialectKind};
use crate::model::Row;

verus! {

/// The `SELECT` a count runs, and whether it is the window to count.
pub enum CountPlan {
    /// `COUNT(*)` over the filtered rows.
    Plain(Select),
    /// The window itself, to be counted from a subquery.
    Windowed(Select),
}

/// Whether `s` reads from `table` with `filter` and nothing but the window
/// `take` and `skip` besides its projection.
pub open spec fn bare_select(s: Select, table: Seq<char>, filter: Option<Expr>, take: Option<i32>, skip: Option<u32>) -> bool {
    &&& s.table@ == table
    &&& s.filter == filter
    &&& s.take == take
    &&& s.skip == skip
    &&& s.joins@.len() == 0 && s.group_by@.len() == 0 && s.having is None && s.order_by@.len() == 0
    &&& s.order_by_exprs@.len() == 0 && s.order_by_items@.len() == 0 && s.distinct@.len() == 0
    &&& s.partition_window is None
}

/// Whether `s` projects exactly the computed item `expr` under `alias`.
pub open spec fn projects_only(s: Select, expr: Expr, alias: Seq<char>) -> bool {
    s.items@.len() == 1 && (s.items@[0] matches SelectItem::Computed { expr: e, alias: a } && e == expr && a@ == alias)
}

/// Plan the count of the rows of `table` that `filter` matches: a plain
/// `COUNT(*)` when no window is asked for, else the window, projecting the
/// constant 1, to be counted from a subquery.
pub fn plan_count(table: &str, filter: Option<Expr>, take: Option<i32>, skip: Option<u32>) -> (r: CountPlan)
    ensures
        (take is Some || skip is Some) <==> r is Windowed,
        match r {
            CountPlan::Windowed(s) => bare_select(s, table@, filter, take, skip) && projects_only(
                s,
                Expr::Param(Value::I32(1)),
                "_1"@,
            ),
            CountPlan::Plain(s) => bare_select(s, table@, filter, None, None) && s.items@.len() == 1 && (
            s.items@[0] matches SelectItem::Computed { expr: Expr::FunctionCall { name, args }, alias } && name@
                == "COUNT"@ && args@ == seq![Expr::Star] && alias@ == "count"@),
        },
{
    proof {
        reveal_strlit("_1");
        reveal_strlit("COUNT");
        reveal_strlit("count");
    }
    let windowed = take.is_some() || skip.is_some();
    let mut items: Vec<SelectItem> = Vec::new();
    if windowed {
        items.push(SelectItem::Computed { expr: Expr::Param(Value::I32(1)), alias: String::from_str("_1") });
    } else {
        let mut args: Vec<Expr> = Vec::new();
        args.push(Expr::Star);
        assert(args@ =~= seq![Expr::Star]);
        items.push(
            SelectItem::Computed {
                expr: Expr::FunctionCall { name: String::from_str("COUNT"), args },
                alias: String::from_str("count"),
            },
        );
    }
    let s = Select {
        table: String::from_str(table),
        items,
        joins: Vec::new(),
        filter,
        group_by: Vec::new(),
        having: None,
        order_by: Vec::new(),
        order_by_exprs: Vec::new(),
        order_by_items: Vec::new(),
        take: if windowed { take } else { None },
        skip: if windowed { skip } else { None },
        distinct: Vec::new(),
        partition_window: None,
    };
    if windowed {
        CountPlan::Windowed(s)
    } else {
        CountPlan::Plain(s)
    }
}

/// The SQL a count plan runs in `dialect`: the plain aggregate as it
/// renders, or the window wrapped in `SELECT COUNT(*) FROM (…) AS _cntq`.
pub fn render_count(dialect: DialectKind, plan: CountPlan) -> (r: Sql)
    ensures
        match plan {
            CountPlan::Plain(s) => r.text@ == select_sql(dialect, s, 0).0 && r.params@ == select_sql(dialect, s, 0).1,
            CountPlan::Windowed(s) => r.text@ == "SELECT COUNT(*) FROM ("@ + select_sql(dialect, s, 0).0 + ") AS _cntq"@
                && r.params@ == select_sql(dialect, s, 0).1,
        },
{
    match plan {
        CountPlan::Plain(s) => render_select_in(dialect, s),
        CountPlan::Windowed(s) => {
            let inner = render_select_in(dialect, s);
            let mut text = String::from_str("SELECT COUNT(*) FROM (");
            text.push_str(inner.text.as_str());
            text.push_str(") AS _cntq");
            Sql { text, params: inner.params }
        },
    }
}

/// The count a count query's rows hold: the first column of the first row
/// when it is an integer, otherwise 0.
pub open spec fn counted(rows: Seq<Row>) -> i64 {
    if rows.len() > 0 && rows[0].columns@.len() > 0 {
        match rows[0].columns@[0].1 {
            Value::I64(n) => n,
            Value::I32(n) => n as i64,
            _ => 0,
        }
    } else {
        0
    }
}

/// Read the count back from a count query's rows.
pub fn count_of_rows(rows: &[Row]) -> (r: i64)
    ensures
        r == counted(rows@),
{
    if rows.len() > 0 && rows[0].columns.len() > 0 {
        match &rows[0].columns[0].1 {
            Value::I64(n) => *n,
            Value::I32(n) => *n as i64,
            _ => 0,
        }
    } else {
        0
    }
}

} // verus!
