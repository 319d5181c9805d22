//! One-level unfoldings of the rendering specifications, for the proofs of
//! the renderer.
//!
use vstd::prelude::*;

use crate::ast::{BinaryOp, Expr, Join, OrderByItem, OrderDir, Select, SelectItem};
use crate::clauses::{
    aliased_column, column_order_sql, direction_sql, distinct_sql, group_by_sql,
    identifier_reference_parts, join_items, joined, limit_offset_sql, window_bounds_sql,
    window_projection_sql,
};
use crate::expr::binary_op_text;
use crate::grammar::{binary_sql, bound_value_sql, column_orders_sql, expr_sql, function_call_sql, item_sql, items_sql, join_keyword, joins_items_sql, joins_on_sql, list_sql, optional_clause_sql, order_by_clause_sql, order_exprs_sql, order_item_sql, order_items_sql, offset_limit_sentinel, q, relation_source_sql, relation_sql, select_sql, select_tail_sql, sqlite_function_name, uses_distinct_on, vector_operator, window_column_sql, DialectKind};
use crate::ident::{composite_field_reference, identifier_reference, json_object_path_literal, qualified_identifier, quoted_identifier, sql_string_literal, WINDOW_ROW_NUMBER_ALIAS};

verus! {
/// The definition of `expr_sql`, one level deep.
pub proof fn unfold_expr_sql(d: DialectKind, e: Expr, base: nat)
    ensures
        expr_sql(d, e, base) == {
    match e {
        Expr::Column(name) => (identifier_reference(name@, q()), Seq::empty()),
        Expr::Not(inner) => {
            let r = expr_sql(d, *inner, base);
            ("NOT ("@ + r.0 + ")"@, r.1)
        },
        Expr::Exists(sub) => {
            let r = select_sql(d, *sub, base);
            ("EXISTS ("@ + r.0 + ")"@, r.1)
        },
        Expr::NotExists(sub) => {
            let r = select_sql(d, *sub, base);
            ("NOT EXISTS ("@ + r.0 + ")"@, r.1)
        },
        Expr::Relation { .. } => relation_sql(d, e, base),
        Expr::ScalarSubquery(sub) => {
            let r = select_sql(d, *sub, base);
            ("("@ + r.0 + ")"@, r.1)
        },
        Expr::IsNull(inner) => {
            let r = expr_sql(d, *inner, base);
            ("("@ + r.0 + " IS NULL)"@, r.1)
        },
        Expr::IsNotNull(inner) => {
            let r = expr_sql(d, *inner, base);
            ("("@ + r.0 + " IS NOT NULL)"@, r.1)
        },
        Expr::Literal(s) => (sql_string_literal(s@), Seq::empty()),
        Expr::List(exprs) => list_sql(d, exprs@, base),
        Expr::CaseWhen { condition, then } => {
            let c = expr_sql(d, *condition, base);
            let t = expr_sql(d, *then, base + c.1.len());
            ("CASE WHEN "@ + c.0 + " THEN "@ + t.0 + " ELSE NULL END"@, c.1 + t.1)
        },
        Expr::Star => (seq!['*'], Seq::empty()),
        Expr::CompositeField { table, column, field, json_key, .. } => match d {
            DialectKind::Postgres => (
                composite_field_reference(table@, column@, field@, q()),
                Seq::empty(),
            ),
            DialectKind::Sqlite => (
                "json_extract("@ + qualified_identifier(table@, column@, q()) + ", "@
                    + json_object_path_literal(json_key@) + ")"@,
                Seq::empty(),
            ),
        },
        Expr::Param(v) => bound_value_sql(d, v, base),
        Expr::Binary { .. } => binary_sql(d, e, base),
        Expr::FunctionCall { .. } => function_call_sql(d, e, base),
        Expr::Filter { expr, predicate } => {
            let e1 = expr_sql(d, *expr, base);
            let p = expr_sql(d, *predicate, base + e1.1.len());
            (e1.0 + " FILTER (WHERE "@ + p.0 + seq![')'], e1.1 + p.1)
        },
    }
        },
{
    reveal(expr_sql);
    reveal(select_sql);
}

/// The definition of `relation_sql`, one level deep.
pub proof fn unfold_relation_sql(d: DialectKind, e: Expr, base: nat)
    ensures
        relation_sql(d, e, base) == {
    match e {
        Expr::Relation { op, relation } => {
            let head = if op is Any {
                "EXISTS (SELECT * FROM "@
            } else {
                "NOT EXISTS (SELECT * FROM "@
            };
            let r = expr_sql(d, *relation.filter, base);
            let body = if op is Every {
                "NOT ("@ + r.0 + ")"@
            } else {
                r.0
            };
            (head + relation_source_sql(*relation) + " = "@ + qualified_identifier(
                relation.parent_table@,
                relation.pk_db@,
                q(),
            ) + " AND "@ + body + ")"@, r.1)
        },
        _ => (Seq::empty(), Seq::empty()),
    }
        },
{
    reveal(expr_sql);
}

/// The definition of `binary_sql`, one level deep.
pub proof fn unfold_binary_sql(d: DialectKind, e: Expr, base: nat)
    ensures
        binary_sql(d, e, base) == {
    match e {
        Expr::Binary { left, op, right } => {
            if op is In || op is NotIn {
                let l = expr_sql(d, *left, base);
                let r = match *right {
                    Expr::List(exprs) => list_sql(d, exprs@, base + l.1.len()),
                    other => expr_sql(d, other, base + l.1.len()),
                };
                (seq!['('] + l.0 + seq![' '] + (if op is In {
                    "IN"@
                } else {
                    "NOT IN"@
                }) + " ("@ + r.0 + seq![')'] + seq![')'], l.1 + r.1)
            } else if (op is ArrayContains || op is ArrayContainedBy || op is ArrayOverlaps) && d
                is Sqlite {
                if op is ArrayContains {
                    let r = expr_sql(d, *right, base);
                    let l = expr_sql(d, *left, base + r.1.len());
                    ("NOT EXISTS (SELECT 1 FROM json_each("@ + r.0
                        + ") AS _rhs WHERE NOT EXISTS (SELECT 1 FROM json_each("@ + l.0
                        + ") AS _col WHERE _col.value IS _rhs.value))"@, r.1 + l.1)
                } else {
                    let l = expr_sql(d, *left, base);
                    let r = expr_sql(d, *right, base + l.1.len());
                    if op is ArrayContainedBy {
                        ("NOT EXISTS (SELECT 1 FROM json_each("@ + l.0
                            + ") AS _col WHERE NOT EXISTS (SELECT 1 FROM json_each("@ + r.0
                            + ") AS _rhs WHERE _col.value IS _rhs.value))"@, l.1 + r.1)
                    } else {
                        ("EXISTS (SELECT 1 FROM json_each("@ + l.0
                            + ") AS _col WHERE EXISTS (SELECT 1 FROM json_each("@ + r.0
                            + ") AS _rhs WHERE _col.value IS _rhs.value))"@, l.1 + r.1)
                    }
                }
            } else {
                let l = expr_sql(d, *left, base);
                let r = expr_sql(d, *right, base + l.1.len());
                let op_text = match op {
                    BinaryOp::ArrayContains => "@>"@,
                    BinaryOp::ArrayContainedBy => "<@"@,
                    BinaryOp::ArrayOverlaps => "&&"@,
                    _ => binary_op_text(op),
                };
                let escape = if op is LikeEscape && d is Sqlite {
                    " ESCAPE '\\'"@
                } else {
                    Seq::empty()
                };
                (seq!['('] + l.0 + seq![' '] + op_text + seq![' '] + r.0 + escape + seq![')'], l.1
                    + r.1)
            }
        },
        _ => (Seq::empty(), Seq::empty()),
    }
        },
{
    reveal(expr_sql);
}

/// The definition of `function_call_sql`, one level deep.
pub proof fn unfold_function_call_sql(d: DialectKind, e: Expr, base: nat)
    ensures
        function_call_sql(d, e, base) == {
    match e {
        Expr::FunctionCall { name, args } => {
            if d is Postgres && args@.len() == 2 && vector_operator(name@) is Some {
                let a0 = expr_sql(d, args@[0], base);
                let a1 = expr_sql(d, args@[1], base + a0.1.len());
                (seq!['('] + a0.0 + seq![' '] + vector_operator(name@).unwrap() + seq![' ']
                    + a1.0 + seq![')'], a0.1 + a1.1)
            } else {
                let fname = if d is Sqlite {
                    sqlite_function_name(name@)
                } else {
                    name@
                };
                let a = list_sql(d, args@, base);
                (fname + seq!['('] + a.0 + seq![')'], a.1)
            }
        },
        _ => (Seq::empty(), Seq::empty()),
    }
        },
{
    reveal(expr_sql);
}

/// The definition of `select_sql`, one level deep.
pub proof fn unfold_select_sql(d: DialectKind, s: Select, base: nat)
    ensures
        select_sql(d, s, base) == {
    let head = if s.partition_window is Some {
        "SELECT "@ + window_projection_sql(s, q()) + " FROM ("@
    } else {
        Seq::empty()
    };
    let pre = head + "SELECT "@ + distinct_sql(s.distinct@, uses_distinct_on(d), q());
    let it = items_sql(d, s.items@, base, false);
    let ji = joins_items_sql(d, s.joins@, base + it.1.len(), s.items@.len() > 0);
    let star = if s.items@.len() + join_items(s.joins@).len() == 0 {
        seq!['*']
    } else {
        Seq::empty()
    };
    let b1 = base + it.1.len() + ji.1.len();
    let wc = window_column_sql(d, s, b1);
    let b2 = b1 + wc.1.len();
    let jo = joins_on_sql(d, s.joins@, b2);
    let b3 = b2 + jo.1.len();
    let wh = optional_clause_sql(d, " WHERE "@, s.filter, b3);
    let b4 = b3 + wh.1.len();
    let hv = optional_clause_sql(d, " HAVING "@, s.having, b4);
    let b5 = b4 + hv.1.len();
    let tail = select_tail_sql(d, s, b5);
    (pre + it.0 + ji.0 + star + wc.0 + " FROM "@ + quoted_identifier(s.table@, q()) + jo.0 + wh.0
        + group_by_sql(s.group_by@, q()) + hv.0 + tail.0, it.1 + ji.1 + wc.1 + jo.1 + wh.1 + hv.1
        + tail.1)
        },
{
    reveal(select_sql);
}

/// The definition of `list_sql`, one level deep.
pub proof fn unfold_list_sql(d: DialectKind, exprs: Seq<Expr>, base: nat)
    ensures
        list_sql(d, exprs, base) == {
        if exprs.len() == 0 {
            (Seq::empty(), Seq::empty())
        } else {
            let p = list_sql(d, exprs.drop_last(), base);
            let r = expr_sql(d, exprs.last(), base + p.1.len());
            let sep = if exprs.len() > 1 {
                ", "@
            } else {
                Seq::empty()
            };
            (p.0 + sep + r.0, p.1 + r.1)
        }
        },
{
    reveal(expr_sql);
}

/// The definition of `item_sql`, one level deep.
pub proof fn unfold_item_sql(d: DialectKind, item: SelectItem, base: nat)
    ensures
        item_sql(d, item, base) == {
        match item {
            SelectItem::Column(col) => (aliased_column(col, q()), Seq::empty()),
            SelectItem::Computed { expr, alias } => {
                let r = expr_sql(d, expr, base);
                (seq!['('] + r.0 + seq![')'] + " AS "@ + quoted_identifier(alias@, q()), r.1)
            },
        }
        },
{
    reveal(expr_sql);
}

/// The definition of `items_sql`, one level deep.
pub proof fn unfold_items_sql(d: DialectKind, items: Seq<SelectItem>, base: nat, lead: bool)
    ensures
        items_sql(d, items, base, lead) == {
        if items.len() == 0 {
            (Seq::empty(), Seq::empty())
        } else {
            let p = items_sql(d, items.drop_last(), base, lead);
            let r = item_sql(d, items.last(), base + p.1.len());
            let sep = if items.len() > 1 || lead {
                ", "@
            } else {
                Seq::empty()
            };
            (p.0 + sep + r.0, p.1 + r.1)
        }
        },
{
    reveal(expr_sql);
}

/// The definition of `joins_items_sql`, one level deep.
pub proof fn unfold_joins_items_sql(d: DialectKind, joins: Seq<Join>, base: nat, lead: bool)
    ensures
        joins_items_sql(d, joins, base, lead) == {
        if joins.len() == 0 {
            (Seq::empty(), Seq::empty())
        } else {
            let p = joins_items_sql(d, joins.drop_last(), base, lead);
            let r = items_sql(
                d,
                joins.last().items@,
                base + p.1.len(),
                lead || join_items(joins.drop_last()).len() > 0,
            );
            (p.0 + r.0, p.1 + r.1)
        }
        },
{
    reveal(expr_sql);
}

/// The definition of `joins_on_sql`, one level deep.
pub proof fn unfold_joins_on_sql(d: DialectKind, joins: Seq<Join>, base: nat)
    ensures
        joins_on_sql(d, joins, base) == {
        if joins.len() == 0 {
            (Seq::empty(), Seq::empty())
        } else {
            let p = joins_on_sql(d, joins.drop_last(), base);
            let j = joins.last();
            let r = expr_sql(d, j.on, base + p.1.len());
            (p.0 + join_keyword(j.join_type) + quoted_identifier(j.table@, q()) + " ON "@ + r.0, p.1
                + r.1)
        }
        },
{
    reveal(expr_sql);
}

/// The definition of `order_item_sql`, one level deep.
pub proof fn unfold_order_item_sql(d: DialectKind, item: OrderByItem, base: nat)
    ensures
        order_item_sql(d, item, base) == {
        match item {
            OrderByItem::Column(order) => (column_order_sql(order, q()), Seq::empty()),
            OrderByItem::Expr(e, dir) => {
                let r = expr_sql(d, e, base);
                (r.0 + direction_sql(dir), r.1)
            },
        }
        },
{
    reveal(expr_sql);
}

/// The definition of `order_items_sql`, one level deep.
pub proof fn unfold_order_items_sql(d: DialectKind, items: Seq<OrderByItem>, base: nat)
    ensures
        order_items_sql(d, items, base) == {
        if items.len() == 0 {
            (Seq::empty(), Seq::empty())
        } else {
            let p = order_items_sql(d, items.drop_last(), base);
            let r = order_item_sql(d, items.last(), base + p.1.len());
            let sep = if items.len() > 1 {
                ", "@
            } else {
                Seq::empty()
            };
            (p.0 + sep + r.0, p.1 + r.1)
        }
        },
{
    reveal(expr_sql);
}

/// The definition of `order_exprs_sql`, one level deep.
pub proof fn unfold_order_exprs_sql(d: DialectKind, exprs: Seq<(Expr, OrderDir)>, base: nat, lead: bool)
    ensures
        order_exprs_sql(d, exprs, base, lead) == {
        if exprs.len() == 0 {
            (Seq::empty(), Seq::empty())
        } else {
            let p = order_exprs_sql(d, exprs.drop_last(), base, lead);
            let r = expr_sql(d, exprs.last().0, base + p.1.len());
            let sep = if exprs.len() > 1 || lead {
                ", "@
            } else {
                Seq::empty()
            };
            (p.0 + sep + r.0 + direction_sql(exprs.last().1), p.1 + r.1)
        }
        },
{
    reveal(expr_sql);
}

/// The definition of `order_by_clause_sql`, one level deep.
pub proof fn unfold_order_by_clause_sql(d: DialectKind, s: Select, base: nat, prefix: Seq<char>)
    ensures
        order_by_clause_sql(d, s, base, prefix) == {
        if s.order_by_items@.len() == 0 && s.order_by@.len() == 0 && s.order_by_exprs@.len() == 0 {
            (Seq::empty(), Seq::empty())
        } else if s.order_by_items@.len() > 0 {
            let r = order_items_sql(d, s.order_by_items@, base);
            (prefix + "ORDER BY "@ + r.0, r.1)
        } else {
            let r = order_exprs_sql(d, s.order_by_exprs@, base, s.order_by@.len() > 0);
            (prefix + "ORDER BY "@ + column_orders_sql(s.order_by@) + r.0, r.1)
        }
        },
{
    reveal(expr_sql);
}

/// The definition of `optional_clause_sql`, one level deep.
pub proof fn unfold_optional_clause_sql(d: DialectKind, keyword: Seq<char>, e: Option<Expr>, base: nat)
    ensures
        optional_clause_sql(d, keyword, e, base) == {
        match e {
            Some(inner) => {
                let r = expr_sql(d, inner, base);
                (keyword + r.0, r.1)
            },
            None => (Seq::empty(), Seq::empty()),
        }
        },
{
    reveal(expr_sql);
}

/// The definition of `window_column_sql`, one level deep.
pub proof fn unfold_window_column_sql(d: DialectKind, s: Select, base: nat)
    ensures
        window_column_sql(d, s, base) == {
        match s.partition_window {
            Some(w) => {
                let partition = if w.partition_by@.len() > 0 {
                    "PARTITION BY "@ + joined(identifier_reference_parts(w.partition_by@, q()), ", "@)
                } else {
                    Seq::empty()
                };
                let prefix = if w.partition_by@.len() > 0 {
                    seq![' ']
                } else {
                    Seq::empty()
                };
                let ob = order_by_clause_sql(d, s, base, prefix);
                (", ROW_NUMBER() OVER ("@ + partition + ob.0 + ") AS "@ + quoted_identifier(
                    WINDOW_ROW_NUMBER_ALIAS@,
                    q(),
                ), ob.1)
            },
            None => (Seq::empty(), Seq::empty()),
        }
        },
{
    reveal(expr_sql);
}

/// The definition of `select_tail_sql`, one level deep.
pub proof fn unfold_select_tail_sql(d: DialectKind, s: Select, base: nat)
    ensures
        select_tail_sql(d, s, base) == {
        match s.partition_window {
            Some(w) => (window_bounds_sql(w, q()), Seq::empty()),
            None => {
                let ob = order_by_clause_sql(d, s, base, seq![' ']);
                (ob.0 + limit_offset_sql(s.take, s.skip, offset_limit_sentinel(d)), ob.1)
            },
        }
        },
{
    reveal(expr_sql);
}

} // verus!
