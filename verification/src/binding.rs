//! What a rendered statement binds: a `NULL` is always written into the text,
//! so no bound value is ever `NULL`.
use vstd::prelude::*;

use crate::ast::{Delete, Expr, Insert, Join, OrderByItem, OrderDir, Select, SelectItem, Update, Value};
use crate::grammar::{
    binary_sql, bound_value_sql, expr_sql, function_call_sql, item_sql, items_sql,
    joins_items_sql, joins_on_sql, list_sql, optional_clause_sql, order_by_clause_sql,
    order_exprs_sql, order_item_sql, order_items_sql, relation_sql, select_sql, select_tail_sql,
    window_column_sql, DialectKind,
};
use crate::statement::{
    assignment_sql, delete_sql, insert_sql, on_conflict_sql, row_sql, rows_sql, set_list_sql,
    update_sql,
};
use crate::ast::{Assignment, ColumnMarker};

verus! {

/// Whether none of `values` is `NULL`.
pub open spec fn binds_no_null(values: Seq<Value>) -> bool {
    forall|i: int| 0 <= i < values.len() ==> !(#[trigger] values[i] is Null)
}

proof fn lemma_concat(a: Seq<Value>, b: Seq<Value>)
    requires
        binds_no_null(a),
        binds_no_null(b),
    ensures
        binds_no_null(a + b),
{
    assert forall|i: int| 0 <= i < (a + b).len() implies !(#[trigger] (a + b)[i] is Null) by {
        if i < a.len() {
            assert((a + b)[i] == a[i]);
        } else {
            assert((a + b)[i] == b[i - a.len()]);
        }
    }
}

proof fn lemma_bound_value(d: DialectKind, v: Value, base: nat)
    ensures
        binds_no_null(bound_value_sql(d, v, base).1),
{
}

/// No value an expression binds is `NULL`: a `NULL` parameter is written as
/// the keyword instead.
pub proof fn lemma_expr_binds_no_null(d: DialectKind, e: Expr, base: nat)
    ensures
        binds_no_null(expr_sql(d, e, base).1),
    decreases e, 1nat,
{
    reveal(expr_sql);
    reveal(select_sql);
    match e {
        Expr::Not(inner) => lemma_expr_binds_no_null(d, *inner, base),
        Expr::IsNull(inner) => lemma_expr_binds_no_null(d, *inner, base),
        Expr::IsNotNull(inner) => lemma_expr_binds_no_null(d, *inner, base),
        Expr::Exists(sub) => lemma_select_binds_no_null(d, *sub, base),
        Expr::NotExists(sub) => lemma_select_binds_no_null(d, *sub, base),
        Expr::ScalarSubquery(sub) => lemma_select_binds_no_null(d, *sub, base),
        Expr::Relation { .. } => lemma_relation(d, e, base),
        Expr::List(exprs) => lemma_list(d, exprs@, base),
        Expr::CaseWhen { condition, then } => {
            let c = expr_sql(d, *condition, base);
            lemma_expr_binds_no_null(d, *condition, base);
            lemma_expr_binds_no_null(d, *then, base + c.1.len());
            lemma_concat(c.1, expr_sql(d, *then, base + c.1.len()).1);
        },
        Expr::Param(v) => lemma_bound_value(d, v, base),
        Expr::Binary { .. } => lemma_binary(d, e, base),
        Expr::FunctionCall { .. } => lemma_function_call(d, e, base),
        Expr::Filter { expr, predicate } => {
            let a = expr_sql(d, *expr, base);
            lemma_expr_binds_no_null(d, *expr, base);
            lemma_expr_binds_no_null(d, *predicate, base + a.1.len());
            lemma_concat(a.1, expr_sql(d, *predicate, base + a.1.len()).1);
        },
        _ => {},
    }
}

proof fn lemma_relation(d: DialectKind, e: Expr, base: nat)
    ensures
        binds_no_null(relation_sql(d, e, base).1),
    decreases e, 0nat,
{
    reveal(expr_sql);
    if let Expr::Relation { relation, .. } = e {
        lemma_expr_binds_no_null(d, *relation.filter, base);
    }
}

proof fn lemma_binary(d: DialectKind, e: Expr, base: nat)
    ensures
        binds_no_null(binary_sql(d, e, base).1),
    decreases e, 0nat,
{
    reveal(expr_sql);
    if let Expr::Binary { left, op, right } = e {
        if op is In || op is NotIn {
            let l = expr_sql(d, *left, base);
            lemma_expr_binds_no_null(d, *left, base);
            match *right {
                Expr::List(exprs) => {
                    lemma_list(d, exprs@, base + l.1.len());
                    lemma_concat(l.1, list_sql(d, exprs@, base + l.1.len()).1);
                },
                other => {
                    lemma_expr_binds_no_null(d, other, base + l.1.len());
                    lemma_concat(l.1, expr_sql(d, other, base + l.1.len()).1);
                },
            }
        } else if (op is ArrayContains || op is ArrayContainedBy || op is ArrayOverlaps) && d is Sqlite
            && op is ArrayContains {
            let r = expr_sql(d, *right, base);
            lemma_expr_binds_no_null(d, *right, base);
            lemma_expr_binds_no_null(d, *left, base + r.1.len());
            lemma_concat(r.1, expr_sql(d, *left, base + r.1.len()).1);
        } else {
            let l = expr_sql(d, *left, base);
            lemma_expr_binds_no_null(d, *left, base);
            lemma_expr_binds_no_null(d, *right, base + l.1.len());
            lemma_concat(l.1, expr_sql(d, *right, base + l.1.len()).1);
        }
    }
}

proof fn lemma_function_call(d: DialectKind, e: Expr, base: nat)
    ensures
        binds_no_null(function_call_sql(d, e, base).1),
    decreases e, 0nat,
{
    reveal(expr_sql);
    if let Expr::FunctionCall { name, args } = e {
        if args@.len() == 2 {
            let a0 = expr_sql(d, args@[0], base);
            lemma_expr_binds_no_null(d, args@[0], base);
            lemma_expr_binds_no_null(d, args@[1], base + a0.1.len());
            lemma_concat(a0.1, expr_sql(d, args@[1], base + a0.1.len()).1);
        }
        lemma_list(d, args@, base);
    }
}

proof fn lemma_list(d: DialectKind, exprs: Seq<Expr>, base: nat)
    ensures
        binds_no_null(list_sql(d, exprs, base).1),
    decreases exprs, 0nat,
{
    reveal(expr_sql);
    if exprs.len() > 0 {
        let p = list_sql(d, exprs.drop_last(), base);
        lemma_list(d, exprs.drop_last(), base);
        lemma_expr_binds_no_null(d, exprs.last(), base + p.1.len());
        lemma_concat(p.1, expr_sql(d, exprs.last(), base + p.1.len()).1);
    }
}

proof fn lemma_item(d: DialectKind, item: SelectItem, base: nat)
    ensures
        binds_no_null(item_sql(d, item, base).1),
    decreases item, 0nat,
{
    reveal(expr_sql);
    if let SelectItem::Computed { expr, .. } = item {
        lemma_expr_binds_no_null(d, expr, base);
    }
}

proof fn lemma_items(d: DialectKind, items: Seq<SelectItem>, base: nat, lead: bool)
    ensures
        binds_no_null(items_sql(d, items, base, lead).1),
    decreases items, 0nat,
{
    reveal(expr_sql);
    if items.len() > 0 {
        let p = items_sql(d, items.drop_last(), base, lead);
        lemma_items(d, items.drop_last(), base, lead);
        lemma_item(d, items.last(), base + p.1.len());
        lemma_concat(p.1, item_sql(d, items.last(), base + p.1.len()).1);
    }
}

proof fn lemma_joins_items(d: DialectKind, joins: Seq<Join>, base: nat, lead: bool)
    ensures
        binds_no_null(joins_items_sql(d, joins, base, lead).1),
    decreases joins, 0nat,
{
    reveal(expr_sql);
    if joins.len() > 0 {
        let p = joins_items_sql(d, joins.drop_last(), base, lead);
        let l2 = lead || crate::clauses::join_items(joins.drop_last()).len() > 0;
        lemma_joins_items(d, joins.drop_last(), base, lead);
        lemma_items(d, joins.last().items@, base + p.1.len(), l2);
        lemma_concat(p.1, items_sql(d, joins.last().items@, base + p.1.len(), l2).1);
    }
}

proof fn lemma_joins_on(d: DialectKind, joins: Seq<Join>, base: nat)
    ensures
        binds_no_null(joins_on_sql(d, joins, base).1),
    decreases joins, 0nat,
{
    reveal(expr_sql);
    if joins.len() > 0 {
        let p = joins_on_sql(d, joins.drop_last(), base);
        lemma_joins_on(d, joins.drop_last(), base);
        lemma_expr_binds_no_null(d, joins.last().on, base + p.1.len());
        lemma_concat(p.1, expr_sql(d, joins.last().on, base + p.1.len()).1);
    }
}

proof fn lemma_order_item(d: DialectKind, item: OrderByItem, base: nat)
    ensures
        binds_no_null(order_item_sql(d, item, base).1),
    decreases item, 0nat,
{
    reveal(expr_sql);
    if let OrderByItem::Expr(e, _) = item {
        lemma_expr_binds_no_null(d, e, base);
    }
}

proof fn lemma_order_items(d: DialectKind, items: Seq<OrderByItem>, base: nat)
    ensures
        binds_no_null(order_items_sql(d, items, base).1),
    decreases items, 0nat,
{
    reveal(expr_sql);
    if items.len() > 0 {
        let p = order_items_sql(d, items.drop_last(), base);
        lemma_order_items(d, items.drop_last(), base);
        lemma_order_item(d, items.last(), base + p.1.len());
        lemma_concat(p.1, order_item_sql(d, items.last(), base + p.1.len()).1);
    }
}

proof fn lemma_order_exprs(d: DialectKind, exprs: Seq<(Expr, OrderDir)>, base: nat, lead: bool)
    ensures
        binds_no_null(order_exprs_sql(d, exprs, base, lead).1),
    decreases exprs, 0nat,
{
    reveal(expr_sql);
    if exprs.len() > 0 {
        let p = order_exprs_sql(d, exprs.drop_last(), base, lead);
        lemma_order_exprs(d, exprs.drop_last(), base, lead);
        lemma_expr_binds_no_null(d, exprs.last().0, base + p.1.len());
        lemma_concat(p.1, expr_sql(d, exprs.last().0, base + p.1.len()).1);
    }
}

proof fn lemma_order_by_clause(d: DialectKind, s: Select, base: nat, prefix: Seq<char>)
    ensures
        binds_no_null(order_by_clause_sql(d, s, base, prefix).1),
    decreases s, 0nat,
{
    reveal(expr_sql);
    lemma_order_items(d, s.order_by_items@, base);
    lemma_order_exprs(d, s.order_by_exprs@, base, s.order_by@.len() > 0);
}

proof fn lemma_optional_clause(d: DialectKind, keyword: Seq<char>, e: Option<Expr>, base: nat)
    ensures
        binds_no_null(optional_clause_sql(d, keyword, e, base).1),
    decreases e, 0nat,
{
    reveal(expr_sql);
    if let Some(inner) = e {
        lemma_expr_binds_no_null(d, inner, base);
    }
}

proof fn lemma_window_column(d: DialectKind, s: Select, base: nat)
    ensures
        binds_no_null(window_column_sql(d, s, base).1),
    decreases s, 1nat,
{
    reveal(expr_sql);
    if let Some(w) = s.partition_window {
        let prefix = if w.partition_by@.len() > 0 {
            seq![' ']
        } else {
            Seq::empty()
        };
        lemma_order_by_clause(d, s, base, prefix);
    }
}

proof fn lemma_select_tail(d: DialectKind, s: Select, base: nat)
    ensures
        binds_no_null(select_tail_sql(d, s, base).1),
    decreases s, 1nat,
{
    reveal(expr_sql);
    lemma_order_by_clause(d, s, base, seq![' ']);
}

/// No value a SELECT binds is `NULL`.
pub proof fn lemma_select_binds_no_null(d: DialectKind, s: Select, base: nat)
    ensures
        binds_no_null(select_sql(d, s, base).1),
    decreases s, 2nat,
{
    reveal(expr_sql);
    reveal(select_sql);
    let it = items_sql(d, s.items@, base, false);
    let ji = joins_items_sql(d, s.joins@, base + it.1.len(), s.items@.len() > 0);
    let b1 = base + it.1.len() + ji.1.len();
    let wc = window_column_sql(d, s, b1);
    let b2 = b1 + wc.1.len();
    let jo = joins_on_sql(d, s.joins@, b2);
    let b3 = b2 + jo.1.len();
    let wh = optional_clause_sql(d, " WHERE "@, s.filter, b3);
    let b4 = b3 + wh.1.len();
    let hv = optional_clause_sql(d, " HAVING "@, s.having, b4);
    let b5 = b4 + hv.1.len();
    let tail = select_tail_sql(d, s, b5);
    lemma_items(d, s.items@, base, false);
    lemma_joins_items(d, s.joins@, base + it.1.len(), s.items@.len() > 0);
    lemma_window_column(d, s, b1);
    lemma_joins_on(d, s.joins@, b2);
    lemma_optional_clause(d, " WHERE "@, s.filter, b3);
    lemma_optional_clause(d, " HAVING "@, s.having, b4);
    lemma_select_tail(d, s, b5);
    lemma_concat(it.1, ji.1);
    lemma_concat(it.1 + ji.1, wc.1);
    lemma_concat(it.1 + ji.1 + wc.1, jo.1);
    lemma_concat(it.1 + ji.1 + wc.1 + jo.1, wh.1);
    lemma_concat(it.1 + ji.1 + wc.1 + jo.1 + wh.1, hv.1);
    lemma_concat(it.1 + ji.1 + wc.1 + jo.1 + wh.1 + hv.1, tail.1);
}

proof fn lemma_set_list(d: DialectKind, entries: Seq<(ColumnMarker, Assignment)>, base: nat)
    ensures
        binds_no_null(set_list_sql(d, entries, base).1),
    decreases entries.len(),
{
    if entries.len() > 0 {
        let p = set_list_sql(d, entries.drop_last(), base);
        lemma_set_list(d, entries.drop_last(), base);
        match entries.last().1 {
            Assignment::Value(v) => lemma_bound_value(d, v, base + p.1.len()),
            Assignment::Expr(e) => lemma_expr_binds_no_null(d, e, base + p.1.len()),
        }
        lemma_concat(p.1, assignment_sql(d, entries.last().1, base + p.1.len()).1);
    }
}

proof fn lemma_row(d: DialectKind, row: Seq<Value>, base: nat)
    ensures
        binds_no_null(row_sql(d, row, base).1),
    decreases row.len(),
{
    if row.len() > 0 {
        let p = row_sql(d, row.drop_last(), base);
        lemma_row(d, row.drop_last(), base);
        lemma_concat(p.1, bound_value_sql(d, row.last(), base + p.1.len()).1);
    }
}

proof fn lemma_rows(d: DialectKind, rows: Seq<Vec<Value>>, base: nat)
    ensures
        binds_no_null(rows_sql(d, rows, base).1),
    decreases rows.len(),
{
    if rows.len() > 0 {
        let p = rows_sql(d, rows.drop_last(), base);
        lemma_rows(d, rows.drop_last(), base);
        lemma_row(d, rows.last()@, base + p.1.len());
        lemma_concat(p.1, row_sql(d, rows.last()@, base + p.1.len()).1);
    }
}

/// No value an INSERT binds is `NULL`.
pub proof fn lemma_insert_binds_no_null(d: DialectKind, ins: Insert, base: nat)
    ensures
        binds_no_null(insert_sql(d, ins, base).1),
{
    let rows = rows_sql(d, ins.values@, base);
    lemma_rows(d, ins.values@, base);
    if let Some(oc) = ins.on_conflict {
        lemma_set_list(d, oc.update@, base + rows.1.len());
        lemma_concat(rows.1, on_conflict_sql(d, oc, base + rows.1.len()).1);
    } else {
        assert(rows.1 + Seq::<Value>::empty() =~= rows.1);
    }
}

/// No value an UPDATE binds is `NULL`.
pub proof fn lemma_update_binds_no_null(d: DialectKind, upd: Update, base: nat)
    ensures
        binds_no_null(update_sql(d, upd, base).1),
{
    let set = set_list_sql(d, upd.assignments@, base);
    lemma_set_list(d, upd.assignments@, base);
    lemma_optional_clause(d, " WHERE "@, upd.filter, base + set.1.len());
    lemma_concat(set.1, optional_clause_sql(d, " WHERE "@, upd.filter, base + set.1.len()).1);
}

/// No value a DELETE binds is `NULL`.
pub proof fn lemma_delete_binds_no_null(d: DialectKind, del: Delete, base: nat)
    ensures
        binds_no_null(delete_sql(d, del, base).1),
{
    lemma_optional_clause(d, " WHERE "@, del.filter, base);
}

} // verus!
