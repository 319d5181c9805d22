//! Where a fragment is rendered does not change what it binds: the values a
//! fragment binds are the same whatever was bound before it, and SQLite's
//! positional placeholders make its text the same too. Only PostgreSQL's
//! numbered placeholders depend on the values bound before.
use vstd::prelude::*;

use crate::ast::{Expr, Join, OrderByItem, OrderDir, Select, SelectItem};
use crate::grammar::{
    binary_sql, expr_sql, function_call_sql, item_sql, items_sql, joins_items_sql, joins_on_sql,
    list_sql, optional_clause_sql, order_by_clause_sql, order_exprs_sql, order_item_sql,
    order_items_sql, relation_sql, select_sql, select_tail_sql, window_column_sql, DialectKind,
    Rendered,
};

verus! {

/// Whether two renderings of one fragment at different positions agree: the
/// same values, and for SQLite the same text.
pub open spec fn placed_alike(d: DialectKind, a: Rendered, b: Rendered) -> bool {
    a.1 == b.1 && (d is Sqlite ==> a.0 == b.0)
}

/// An expression binds the same values wherever it is rendered, and renders
/// the same SQLite text.
pub proof fn lemma_expr_placement(d: DialectKind, e: Expr, b1: nat, b2: nat)
    ensures
        placed_alike(d, expr_sql(d, e, b1), expr_sql(d, e, b2)),
    decreases e, 1nat,
{
    reveal(expr_sql);
    reveal(select_sql);
    match e {
        Expr::Not(inner) => lemma_expr_placement(d, *inner, b1, b2),
        Expr::IsNull(inner) => lemma_expr_placement(d, *inner, b1, b2),
        Expr::IsNotNull(inner) => lemma_expr_placement(d, *inner, b1, b2),
        Expr::Exists(sub) => lemma_select_placement(d, *sub, b1, b2),
        Expr::NotExists(sub) => lemma_select_placement(d, *sub, b1, b2),
        Expr::ScalarSubquery(sub) => lemma_select_placement(d, *sub, b1, b2),
        Expr::Relation { .. } => lemma_relation(d, e, b1, b2),
        Expr::List(exprs) => lemma_list(d, exprs@, b1, b2),
        Expr::CaseWhen { condition, then } => {
            lemma_expr_placement(d, *condition, b1, b2);
            let c1 = expr_sql(d, *condition, b1);
            let c2 = expr_sql(d, *condition, b2);
            lemma_expr_placement(d, *then, b1 + c1.1.len(), b2 + c2.1.len());
        },
        Expr::Binary { .. } => lemma_binary(d, e, b1, b2),
        Expr::FunctionCall { .. } => lemma_function_call(d, e, b1, b2),
        Expr::Filter { expr, predicate } => {
            lemma_expr_placement(d, *expr, b1, b2);
            let a1 = expr_sql(d, *expr, b1);
            let a2 = expr_sql(d, *expr, b2);
            lemma_expr_placement(d, *predicate, b1 + a1.1.len(), b2 + a2.1.len());
        },
        _ => {},
    }
}

proof fn lemma_relation(d: DialectKind, e: Expr, b1: nat, b2: nat)
    ensures
        placed_alike(d, relation_sql(d, e, b1), relation_sql(d, e, b2)),
    decreases e, 0nat,
{
    reveal(expr_sql);
    if let Expr::Relation { relation, .. } = e {
        lemma_expr_placement(d, *relation.filter, b1, b2);
    }
}

proof fn lemma_binary(d: DialectKind, e: Expr, b1: nat, b2: nat)
    ensures
        placed_alike(d, binary_sql(d, e, b1), binary_sql(d, e, b2)),
    decreases e, 0nat,
{
    reveal(expr_sql);
    if let Expr::Binary { left, op, right } = e {
        if op is In || op is NotIn {
            lemma_expr_placement(d, *left, b1, b2);
            let l1 = expr_sql(d, *left, b1);
            let l2 = expr_sql(d, *left, b2);
            match *right {
                Expr::List(exprs) => lemma_list(d, exprs@, b1 + l1.1.len(), b2 + l2.1.len()),
                other => lemma_expr_placement(d, other, b1 + l1.1.len(), b2 + l2.1.len()),
            }
        } else if (op is ArrayContains || op is ArrayContainedBy || op is ArrayOverlaps) && d is Sqlite
            && op is ArrayContains {
            lemma_expr_placement(d, *right, b1, b2);
            let r1 = expr_sql(d, *right, b1);
            let r2 = expr_sql(d, *right, b2);
            lemma_expr_placement(d, *left, b1 + r1.1.len(), b2 + r2.1.len());
        } else {
            lemma_expr_placement(d, *left, b1, b2);
            let l1 = expr_sql(d, *left, b1);
            let l2 = expr_sql(d, *left, b2);
            lemma_expr_placement(d, *right, b1 + l1.1.len(), b2 + l2.1.len());
        }
    }
}

proof fn lemma_function_call(d: DialectKind, e: Expr, b1: nat, b2: nat)
    ensures
        placed_alike(d, function_call_sql(d, e, b1), function_call_sql(d, e, b2)),
    decreases e, 0nat,
{
    reveal(expr_sql);
    if let Expr::FunctionCall { name, args } = e {
        if args@.len() == 2 {
            lemma_expr_placement(d, args@[0], b1, b2);
            let a1 = expr_sql(d, args@[0], b1);
            let a2 = expr_sql(d, args@[0], b2);
            lemma_expr_placement(d, args@[1], b1 + a1.1.len(), b2 + a2.1.len());
        }
        lemma_list(d, args@, b1, b2);
    }
}

proof fn lemma_list(d: DialectKind, exprs: Seq<Expr>, b1: nat, b2: nat)
    ensures
        placed_alike(d, list_sql(d, exprs, b1), list_sql(d, exprs, b2)),
    decreases exprs, 0nat,
{
    reveal(expr_sql);
    if exprs.len() > 0 {
        lemma_list(d, exprs.drop_last(), b1, b2);
        let p1 = list_sql(d, exprs.drop_last(), b1);
        let p2 = list_sql(d, exprs.drop_last(), b2);
        lemma_expr_placement(d, exprs.last(), b1 + p1.1.len(), b2 + p2.1.len());
    }
}

proof fn lemma_item(d: DialectKind, item: SelectItem, b1: nat, b2: nat)
    ensures
        placed_alike(d, item_sql(d, item, b1), item_sql(d, item, b2)),
    decreases item, 0nat,
{
    reveal(expr_sql);
    if let SelectItem::Computed { expr, .. } = item {
        lemma_expr_placement(d, expr, b1, b2);
    }
}

proof fn lemma_items(d: DialectKind, items: Seq<SelectItem>, b1: nat, b2: nat, lead: bool)
    ensures
        placed_alike(d, items_sql(d, items, b1, lead), items_sql(d, items, b2, lead)),
    decreases items, 0nat,
{
    reveal(expr_sql);
    if items.len() > 0 {
        lemma_items(d, items.drop_last(), b1, b2, lead);
        let p1 = items_sql(d, items.drop_last(), b1, lead);
        let p2 = items_sql(d, items.drop_last(), b2, lead);
        lemma_item(d, items.last(), b1 + p1.1.len(), b2 + p2.1.len());
    }
}

proof fn lemma_joins_items(d: DialectKind, joins: Seq<Join>, b1: nat, b2: nat, lead: bool)
    ensures
        placed_alike(d, joins_items_sql(d, joins, b1, lead), joins_items_sql(d, joins, b2, lead)),
    decreases joins, 0nat,
{
    reveal(expr_sql);
    if joins.len() > 0 {
        lemma_joins_items(d, joins.drop_last(), b1, b2, lead);
        let p1 = joins_items_sql(d, joins.drop_last(), b1, lead);
        let p2 = joins_items_sql(d, joins.drop_last(), b2, lead);
        let l2 = lead || crate::clauses::join_items(joins.drop_last()).len() > 0;
        lemma_items(d, joins.last().items@, b1 + p1.1.len(), b2 + p2.1.len(), l2);
    }
}

proof fn lemma_joins_on(d: DialectKind, joins: Seq<Join>, b1: nat, b2: nat)
    ensures
        placed_alike(d, joins_on_sql(d, joins, b1), joins_on_sql(d, joins, b2)),
    decreases joins, 0nat,
{
    reveal(expr_sql);
    if joins.len() > 0 {
        lemma_joins_on(d, joins.drop_last(), b1, b2);
        let p1 = joins_on_sql(d, joins.drop_last(), b1);
        let p2 = joins_on_sql(d, joins.drop_last(), b2);
        lemma_expr_placement(d, joins.last().on, b1 + p1.1.len(), b2 + p2.1.len());
    }
}

proof fn lemma_order_item(d: DialectKind, item: OrderByItem, b1: nat, b2: nat)
    ensures
        placed_alike(d, order_item_sql(d, item, b1), order_item_sql(d, item, b2)),
    decreases item, 0nat,
{
    reveal(expr_sql);
    if let OrderByItem::Expr(e, _) = item {
        lemma_expr_placement(d, e, b1, b2);
    }
}

proof fn lemma_order_items(d: DialectKind, items: Seq<OrderByItem>, b1: nat, b2: nat)
    ensures
        placed_alike(d, order_items_sql(d, items, b1), order_items_sql(d, items, b2)),
    decreases items, 0nat,
{
    reveal(expr_sql);
    if items.len() > 0 {
        lemma_order_items(d, items.drop_last(), b1, b2);
        let p1 = order_items_sql(d, items.drop_last(), b1);
        let p2 = order_items_sql(d, items.drop_last(), b2);
        lemma_order_item(d, items.last(), b1 + p1.1.len(), b2 + p2.1.len());
    }
}

proof fn lemma_order_exprs(d: DialectKind, exprs: Seq<(Expr, OrderDir)>, b1: nat, b2: nat, lead: bool)
    ensures
        placed_alike(d, order_exprs_sql(d, exprs, b1, lead), order_exprs_sql(d, exprs, b2, lead)),
    decreases exprs, 0nat,
{
    reveal(expr_sql);
    if exprs.len() > 0 {
        lemma_order_exprs(d, exprs.drop_last(), b1, b2, lead);
        let p1 = order_exprs_sql(d, exprs.drop_last(), b1, lead);
        let p2 = order_exprs_sql(d, exprs.drop_last(), b2, lead);
        lemma_expr_placement(d, exprs.last().0, b1 + p1.1.len(), b2 + p2.1.len());
    }
}

proof fn lemma_order_by_clause(d: DialectKind, s: Select, b1: nat, b2: nat, prefix: Seq<char>)
    ensures
        placed_alike(d, order_by_clause_sql(d, s, b1, prefix), order_by_clause_sql(d, s, b2, prefix)),
    decreases s, 0nat,
{
    reveal(expr_sql);
    lemma_order_items(d, s.order_by_items@, b1, b2);
    lemma_order_exprs(d, s.order_by_exprs@, b1, b2, s.order_by@.len() > 0);
}

proof fn lemma_optional_clause(d: DialectKind, keyword: Seq<char>, e: Option<Expr>, b1: nat, b2: nat)
    ensures
        placed_alike(d, optional_clause_sql(d, keyword, e, b1), optional_clause_sql(d, keyword, e, b2)),
    decreases e, 0nat,
{
    reveal(expr_sql);
    if let Some(inner) = e {
        lemma_expr_placement(d, inner, b1, b2);
    }
}

proof fn lemma_window_column(d: DialectKind, s: Select, b1: nat, b2: nat)
    ensures
        placed_alike(d, window_column_sql(d, s, b1), window_column_sql(d, s, b2)),
    decreases s, 1nat,
{
    reveal(expr_sql);
    if let Some(w) = s.partition_window {
        let prefix = if w.partition_by@.len() > 0 {
            seq![' ']
        } else {
            Seq::empty()
        };
        lemma_order_by_clause(d, s, b1, b2, prefix);
    }
}

proof fn lemma_select_tail(d: DialectKind, s: Select, b1: nat, b2: nat)
    ensures
        placed_alike(d, select_tail_sql(d, s, b1), select_tail_sql(d, s, b2)),
    decreases s, 1nat,
{
    reveal(expr_sql);
    lemma_order_by_clause(d, s, b1, b2, seq![' ']);
}

/// A SELECT binds the same values wherever it is rendered, and renders the
/// same SQLite text.
pub proof fn lemma_select_placement(d: DialectKind, s: Select, b1: nat, b2: nat)
    ensures
        placed_alike(d, select_sql(d, s, b1), select_sql(d, s, b2)),
    decreases s, 2nat,
{
    reveal(expr_sql);
    reveal(select_sql);
    lemma_items(d, s.items@, b1, b2, false);
    let i1 = items_sql(d, s.items@, b1, false);
    let i2 = items_sql(d, s.items@, b2, false);
    lemma_joins_items(d, s.joins@, b1 + i1.1.len(), b2 + i2.1.len(), s.items@.len() > 0);
    let j1 = joins_items_sql(d, s.joins@, b1 + i1.1.len(), s.items@.len() > 0);
    let j2 = joins_items_sql(d, s.joins@, b2 + i2.1.len(), s.items@.len() > 0);
    let c1 = b1 + i1.1.len() + j1.1.len();
    let c2 = b2 + i2.1.len() + j2.1.len();
    lemma_window_column(d, s, c1, c2);
    let w1 = window_column_sql(d, s, c1);
    let w2 = window_column_sql(d, s, c2);
    lemma_joins_on(d, s.joins@, c1 + w1.1.len(), c2 + w2.1.len());
    let o1 = joins_on_sql(d, s.joins@, c1 + w1.1.len());
    let o2 = joins_on_sql(d, s.joins@, c2 + w2.1.len());
    let e1 = c1 + w1.1.len() + o1.1.len();
    let e2 = c2 + w2.1.len() + o2.1.len();
    lemma_optional_clause(d, " WHERE "@, s.filter, e1, e2);
    let h1 = e1 + optional_clause_sql(d, " WHERE "@, s.filter, e1).1.len();
    let h2 = e2 + optional_clause_sql(d, " WHERE "@, s.filter, e2).1.len();
    lemma_optional_clause(d, " HAVING "@, s.having, h1, h2);
    let t1 = h1 + optional_clause_sql(d, " HAVING "@, s.having, h1).1.len();
    let t2 = h2 + optional_clause_sql(d, " HAVING "@, s.having, h2).1.len();
    lemma_select_tail(d, s, t1, t2);
}

} // verus!
