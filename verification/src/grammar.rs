//! What each part of a statement tree renders to.
//!
//! Every render path consumes the tree, moving bound values into the parameter
//! list instead of cloning them. Each part of the tree has a specification of
//! the text it renders and the values it binds; `base` is the number of values
//! bound before it, which numbered placeholders depend on.
use vstd::prelude::*;

use crate::ast::{BinaryOp, Expr, Join, JoinType, OrderBy, OrderByItem, OrderDir, RelationFilter, Select, SelectItem, Value};
use crate::cast::cast_suffix;
use crate::clauses::{aliased_column, column_order_sql, direction_sql, distinct_sql, group_by_sql, identifier_reference_parts, join_items, joined, limit_offset_sql, window_bounds_sql, window_projection_sql};
use crate::expr::binary_op_text;
use crate::ident::{composite_field_reference, decimal, identifier_reference, json_object_path_literal, qualified_identifier, quoted_identifier, sql_string_literal, WINDOW_ROW_NUMBER_ALIAS};

verus! {

/// The dialects this crate renders.
#[derive(Debug, Clone, Copy, PartialEq, Eq)]
pub enum DialectKind {
    Postgres,
    Sqlite,
}

/// The function name of the pgvector L2 distance.
pub const VECTOR_L2_DISTANCE_FUNCTION: &'static str = "l2_distance";

/// The function name of the pgvector negative inner product.
pub const VECTOR_INNER_PRODUCT_FUNCTION: &'static str = "inner_product";

/// The function name of the pgvector cosine distance.
pub const VECTOR_COSINE_DISTANCE_FUNCTION: &'static str = "cosine_distance";

/// Rendered text together with the values it binds, in placeholder order.
pub type Rendered = (Seq<char>, Seq<Value>);

/// The identifier quote of every supported dialect.
pub open spec fn q() -> char {
    '"'
}

/// Whether the dialect restricts a result set with `DISTINCT ON`.
pub open spec fn uses_distinct_on(d: DialectKind) -> bool {
    d is Postgres
}

/// The `LIMIT` a dialect writes before a bare `OFFSET`, or empty.
pub open spec fn offset_limit_sentinel(d: DialectKind) -> Seq<char> {
    match d {
        DialectKind::Postgres => Seq::empty(),
        DialectKind::Sqlite => "-1"@,
    }
}

/// The placeholder of the `index`-th bound value (counting from 1).
pub open spec fn placeholder_sql(d: DialectKind, index: nat) -> Seq<char> {
    match d {
        DialectKind::Postgres => seq!['$'] + decimal(index),
        DialectKind::Sqlite => seq!['?'],
    }
}

/// The text after the placeholder of a bound value.
pub open spec fn param_suffix(d: DialectKind, v: Value) -> Seq<char> {
    match d {
        DialectKind::Postgres => cast_suffix(v),
        DialectKind::Sqlite => Seq::empty(),
    }
}

/// A bound value: `NULL` is written literally, anything else is bound.
pub open spec fn bound_value_sql(d: DialectKind, v: Value, base: nat) -> Rendered {
    if v is Null {
        ("NULL"@, Seq::empty())
    } else {
        (placeholder_sql(d, base + 1) + param_suffix(d, v), seq![v])
    }
}

/// The pgvector operator a two-argument vector function renders as.
pub open spec fn vector_operator(name: Seq<char>) -> Option<Seq<char>> {
    if name == VECTOR_L2_DISTANCE_FUNCTION@ {
        Some("<->"@)
    } else if name == VECTOR_INNER_PRODUCT_FUNCTION@ {
        Some("<#>"@)
    } else if name == VECTOR_COSINE_DISTANCE_FUNCTION@ {
        Some("<=>"@)
    } else {
        None
    }
}

/// The SQLite spelling of a function name.
pub open spec fn sqlite_function_name(name: Seq<char>) -> Seq<char> {
    if name == "json_agg"@ {
        "json_group_array"@
    } else if name == "json_build_object"@ {
        "json_object"@
    } else {
        name
    }
}

/// The keyword that opens a join.
pub open spec fn join_keyword(join_type: JoinType) -> Seq<char> {
    match join_type {
        JoinType::Inner => " INNER JOIN "@,
        JoinType::Left => " LEFT JOIN "@,
    }
}

/// The source a relation filter's subquery reads, up to the parent-key test.
pub open spec fn relation_source_sql(relation: RelationFilter) -> Seq<char> {
    match relation.via {
        Some(via) => quoted_identifier(via.table@, q()) + " INNER JOIN "@ + quoted_identifier(
            relation.target_table@,
            q(),
        ) + " ON "@ + qualified_identifier(relation.target_table@, relation.fk_db@, q())
            + " = "@ + qualified_identifier(via.table@, via.child_column@, q()) + " WHERE "@
            + qualified_identifier(via.table@, via.parent_column@, q()),
        None => quoted_identifier(relation.target_table@, q()) + " WHERE "@
            + qualified_identifier(relation.target_table@, relation.fk_db@, q()),
    }
}

/// An expression.
#[verifier::opaque]
pub open spec fn expr_sql(d: DialectKind, e: Expr, base: nat) -> Rendered
    decreases e, 1nat,
{
    match e {
        Expr::Column(name) => (identifier_reference(name@, q()), Seq::empty()),
        Expr::Not(inner) => {
            let r = expr_sql(d, *inner, base);
            ("NOT ("@ + r.0 + ")"@, r.1)
        },
        Expr::Exists(sub) => {
            let r = select_sql(d, *sub, base);
            ("EXISTS ("@ + r.0 + ")"@, r.1)
        },
        Expr::NotExists(sub) => {
            let r = select_sql(d, *sub, base);
            ("NOT EXISTS ("@ + r.0 + ")"@, r.1)
        },
        Expr::Relation { .. } => relation_sql(d, e, base),
        Expr::ScalarSubquery(sub) => {
            let r = select_sql(d, *sub, base);
            ("("@ + r.0 + ")"@, r.1)
        },
        Expr::IsNull(inner) => {
            let r = expr_sql(d, *inner, base);
            ("("@ + r.0 + " IS NULL)"@, r.1)
        },
        Expr::IsNotNull(inner) => {
            let r = expr_sql(d, *inner, base);
            ("("@ + r.0 + " IS NOT NULL)"@, r.1)
        },
        Expr::Literal(s) => (sql_string_literal(s@), Seq::empty()),
        Expr::List(exprs) => list_sql(d, exprs@, base),
        Expr::CaseWhen { condition, then } => {
            let c = expr_sql(d, *condition, base);
            let t = expr_sql(d, *then, base + c.1.len());
            ("CASE WHEN "@ + c.0 + " THEN "@ + t.0 + " ELSE NULL END"@, c.1 + t.1)
        },
        Expr::Star => (seq!['*'], Seq::empty()),
        Expr::CompositeField { table, column, field, json_key, .. } => match d {
            DialectKind::Postgres => (
                composite_field_reference(table@, column@, field@, q()),
                Seq::empty(),
            ),
            DialectKind::Sqlite => (
                "json_extract("@ + qualified_identifier(table@, column@, q()) + ", "@
                    + json_object_path_literal(json_key@) + ")"@,
                Seq::empty(),
            ),
        },
        Expr::Param(v) => bound_value_sql(d, v, base),
        Expr::Binary { .. } => binary_sql(d, e, base),
        Expr::FunctionCall { .. } => function_call_sql(d, e, base),
        Expr::Filter { expr, predicate } => {
            let e1 = expr_sql(d, *expr, base);
            let p = expr_sql(d, *predicate, base + e1.1.len());
            (e1.0 + " FILTER (WHERE "@ + p.0 + seq![')'], e1.1 + p.1)
        },
    }
}

/// A relation filter.
pub open spec fn relation_sql(d: DialectKind, e: Expr, base: nat) -> Rendered
    decreases e, 0nat,
{
    match e {
        Expr::Relation { op, relation } => {
            let head = if op is Any {
                "EXISTS (SELECT * FROM "@
            } else {
                "NOT EXISTS (SELECT * FROM "@
            };
            let r = expr_sql(d, *relation.filter, base);
            let body = if op is Every {
                "NOT ("@ + r.0 + ")"@
            } else {
                r.0
            };
            (head + relation_source_sql(*relation) + " = "@ + qualified_identifier(
                relation.parent_table@,
                relation.pk_db@,
                q(),
            ) + " AND "@ + body + ")"@, r.1)
        },
        _ => (Seq::empty(), Seq::empty()),
    }
}

/// A binary operation.
pub open spec fn binary_sql(d: DialectKind, e: Expr, base: nat) -> Rendered
    decreases e, 0nat,
{
    match e {
        Expr::Binary { left, op, right } => {
            if op is In || op is NotIn {
                let l = expr_sql(d, *left, base);
                let r = match *right {
                    Expr::List(exprs) => list_sql(d, exprs@, base + l.1.len()),
                    other => expr_sql(d, other, base + l.1.len()),
                };
                (seq!['('] + l.0 + seq![' '] + (if op is In {
                    "IN"@
                } else {
                    "NOT IN"@
                }) + " ("@ + r.0 + seq![')'] + seq![')'], l.1 + r.1)
            } else if (op is ArrayContains || op is ArrayContainedBy || op is ArrayOverlaps) && d
                is Sqlite {
                if op is ArrayContains {
                    let r = expr_sql(d, *right, base);
                    let l = expr_sql(d, *left, base + r.1.len());
                    ("NOT EXISTS (SELECT 1 FROM json_each("@ + r.0
                        + ") AS _rhs WHERE NOT EXISTS (SELECT 1 FROM json_each("@ + l.0
                        + ") AS _col WHERE _col.value IS _rhs.value))"@, r.1 + l.1)
                } else {
                    let l = expr_sql(d, *left, base);
                    let r = expr_sql(d, *right, base + l.1.len());
                    if op is ArrayContainedBy {
                        ("NOT EXISTS (SELECT 1 FROM json_each("@ + l.0
                            + ") AS _col WHERE NOT EXISTS (SELECT 1 FROM json_each("@ + r.0
                            + ") AS _rhs WHERE _col.value IS _rhs.value))"@, l.1 + r.1)
                    } else {
                        ("EXISTS (SELECT 1 FROM json_each("@ + l.0
                            + ") AS _col WHERE EXISTS (SELECT 1 FROM json_each("@ + r.0
                            + ") AS _rhs WHERE _col.value IS _rhs.value))"@, l.1 + r.1)
                    }
                }
            } else {
                let l = expr_sql(d, *left, base);
                let r = expr_sql(d, *right, base + l.1.len());
                let op_text = match op {
                    BinaryOp::ArrayContains => "@>"@,
                    BinaryOp::ArrayContainedBy => "<@"@,
                    BinaryOp::ArrayOverlaps => "&&"@,
                    _ => binary_op_text(op),
                };
                let escape = if op is LikeEscape && d is Sqlite {
                    " ESCAPE '\\'"@
                } else {
                    Seq::empty()
                };
                (seq!['('] + l.0 + seq![' '] + op_text + seq![' '] + r.0 + escape + seq![')'], l.1
                    + r.1)
            }
        },
        _ => (Seq::empty(), Seq::empty()),
    }
}

/// A function call.
pub open spec fn function_call_sql(d: DialectKind, e: Expr, base: nat) -> Rendered
    decreases e, 0nat,
{
    match e {
        Expr::FunctionCall { name, args } => {
            if d is Postgres && args@.len() == 2 && vector_operator(name@) is Some {
                let a0 = expr_sql(d, args@[0], base);
                let a1 = expr_sql(d, args@[1], base + a0.1.len());
                (seq!['('] + a0.0 + seq![' '] + vector_operator(name@).unwrap() + seq![' ']
                    + a1.0 + seq![')'], a0.1 + a1.1)
            } else {
                let fname = if d is Sqlite {
                    sqlite_function_name(name@)
                } else {
                    name@
                };
                let a = list_sql(d, args@, base);
                (fname + seq!['('] + a.0 + seq![')'], a.1)
            }
        },
        _ => (Seq::empty(), Seq::empty()),
    }
}

/// Expressions separated by `, `.
pub open spec fn list_sql(d: DialectKind, exprs: Seq<Expr>, base: nat) -> Rendered
    decreases exprs, 0nat,
{
    if exprs.len() == 0 {
        (Seq::empty(), Seq::empty())
    } else {
        let p = list_sql(d, exprs.drop_last(), base);
        let r = expr_sql(d, exprs.last(), base + p.1.len());
        let sep = if exprs.len() > 1 {
            ", "@
        } else {
            Seq::empty()
        };
        (p.0 + sep + r.0, p.1 + r.1)
    }
}

/// One projected item.
pub open spec fn item_sql(d: DialectKind, item: SelectItem, base: nat) -> Rendered
    decreases item, 0nat,
{
    match item {
        SelectItem::Column(col) => (aliased_column(col, q()), Seq::empty()),
        SelectItem::Computed { expr, alias } => {
            let r = expr_sql(d, expr, base);
            (seq!['('] + r.0 + seq![')'] + " AS "@ + quoted_identifier(alias@, q()), r.1)
        },
    }
}

/// Projected items separated by `, `; `lead` says whether an item precedes them.
pub open spec fn items_sql(d: DialectKind, items: Seq<SelectItem>, base: nat, lead: bool) -> Rendered
    decreases items, 0nat,
{
    if items.len() == 0 {
        (Seq::empty(), Seq::empty())
    } else {
        let p = items_sql(d, items.drop_last(), base, lead);
        let r = item_sql(d, items.last(), base + p.1.len());
        let sep = if items.len() > 1 || lead {
            ", "@
        } else {
            Seq::empty()
        };
        (p.0 + sep + r.0, p.1 + r.1)
    }
}

/// The items the joins add to the projection.
pub open spec fn joins_items_sql(d: DialectKind, joins: Seq<Join>, base: nat, lead: bool) -> Rendered
    decreases joins, 0nat,
{
    if joins.len() == 0 {
        (Seq::empty(), Seq::empty())
    } else {
        let p = joins_items_sql(d, joins.drop_last(), base, lead);
        let r = items_sql(
            d,
            joins.last().items@,
            base + p.1.len(),
            lead || join_items(joins.drop_last()).len() > 0,
        );
        (p.0 + r.0, p.1 + r.1)
    }
}

/// The join clauses.
pub open spec fn joins_on_sql(d: DialectKind, joins: Seq<Join>, base: nat) -> Rendered
    decreases joins, 0nat,
{
    if joins.len() == 0 {
        (Seq::empty(), Seq::empty())
    } else {
        let p = joins_on_sql(d, joins.drop_last(), base);
        let j = joins.last();
        let r = expr_sql(d, j.on, base + p.1.len());
        (p.0 + join_keyword(j.join_type) + quoted_identifier(j.table@, q()) + " ON "@ + r.0, p.1
            + r.1)
    }
}

/// One entry of a mixed `ORDER BY` list.
pub open spec fn order_item_sql(d: DialectKind, item: OrderByItem, base: nat) -> Rendered
    decreases item, 0nat,
{
    match item {
        OrderByItem::Column(order) => (column_order_sql(order, q()), Seq::empty()),
        OrderByItem::Expr(e, dir) => {
            let r = expr_sql(d, e, base);
            (r.0 + direction_sql(dir), r.1)
        },
    }
}

/// A mixed `ORDER BY` list.
pub open spec fn order_items_sql(d: DialectKind, items: Seq<OrderByItem>, base: nat) -> Rendered
    decreases items, 0nat,
{
    if items.len() == 0 {
        (Seq::empty(), Seq::empty())
    } else {
        let p = order_items_sql(d, items.drop_last(), base);
        let r = order_item_sql(d, items.last(), base + p.1.len());
        let sep = if items.len() > 1 {
            ", "@
        } else {
            Seq::empty()
        };
        (p.0 + sep + r.0, p.1 + r.1)
    }
}

/// Expression entries of an `ORDER BY` list; `lead` says whether an entry precedes them.
pub open spec fn order_exprs_sql(
    d: DialectKind,
    exprs: Seq<(Expr, OrderDir)>,
    base: nat,
    lead: bool,
) -> Rendered
    decreases exprs, 0nat,
{
    if exprs.len() == 0 {
        (Seq::empty(), Seq::empty())
    } else {
        let p = order_exprs_sql(d, exprs.drop_last(), base, lead);
        let r = expr_sql(d, exprs.last().0, base + p.1.len());
        let sep = if exprs.len() > 1 || lead {
            ", "@
        } else {
            Seq::empty()
        };
        (p.0 + sep + r.0 + direction_sql(exprs.last().1), p.1 + r.1)
    }
}

/// The column entries of an `ORDER BY` list.
pub open spec fn column_orders_sql(orders: Seq<OrderBy>) -> Seq<char> {
    joined(orders.map_values(|o: OrderBy| column_order_sql(o, q())), ", "@)
}

/// The `ORDER BY` clause of a select, prefixed by `prefix`.
pub open spec fn order_by_clause_sql(d: DialectKind, s: Select, base: nat, prefix: Seq<char>) -> Rendered
    decreases s, 0nat,
{
    if s.order_by_items@.len() == 0 && s.order_by@.len() == 0 && s.order_by_exprs@.len() == 0 {
        (Seq::empty(), Seq::empty())
    } else if s.order_by_items@.len() > 0 {
        let r = order_items_sql(d, s.order_by_items@, base);
        (prefix + "ORDER BY "@ + r.0, r.1)
    } else {
        let r = order_exprs_sql(d, s.order_by_exprs@, base, s.order_by@.len() > 0);
        (prefix + "ORDER BY "@ + column_orders_sql(s.order_by@) + r.0, r.1)
    }
}

/// An optional clause introduced by `keyword`.
pub open spec fn optional_clause_sql(
    d: DialectKind,
    keyword: Seq<char>,
    e: Option<Expr>,
    base: nat,
) -> Rendered
    decreases e, 0nat,
{
    match e {
        Some(inner) => {
            let r = expr_sql(d, inner, base);
            (keyword + r.0, r.1)
        },
        None => (Seq::empty(), Seq::empty()),
    }
}

/// The `ROW_NUMBER()` column a partition window adds to the inner select list.
pub open spec fn window_column_sql(d: DialectKind, s: Select, base: nat) -> Rendered
    decreases s, 1nat,
{
    match s.partition_window {
        Some(w) => {
            let partition = if w.partition_by@.len() > 0 {
                "PARTITION BY "@ + joined(identifier_reference_parts(w.partition_by@, q()), ", "@)
            } else {
                Seq::empty()
            };
            let prefix = if w.partition_by@.len() > 0 {
                seq![' ']
            } else {
                Seq::empty()
            };
            let ob = order_by_clause_sql(d, s, base, prefix);
            (", ROW_NUMBER() OVER ("@ + partition + ob.0 + ") AS "@ + quoted_identifier(
                WINDOW_ROW_NUMBER_ALIAS@,
                q(),
            ), ob.1)
        },
        None => (Seq::empty(), Seq::empty()),
    }
}

/// The clauses after `HAVING`: window bounds, or ordering and paging.
pub open spec fn select_tail_sql(d: DialectKind, s: Select, base: nat) -> Rendered
    decreases s, 1nat,
{
    match s.partition_window {
        Some(w) => (window_bounds_sql(w, q()), Seq::empty()),
        None => {
            let ob = order_by_clause_sql(d, s, base, seq![' ']);
            (ob.0 + limit_offset_sql(s.take, s.skip, offset_limit_sentinel(d)), ob.1)
        },
    }
}

/// The body of a SELECT.
#[verifier::opaque]
pub open spec fn select_sql(d: DialectKind, s: Select, base: nat) -> Rendered
    decreases s, 2nat,
{
    let head = if s.partition_window is Some {
        "SELECT "@ + window_projection_sql(s, q()) + " FROM ("@
    } else {
        Seq::empty()
    };
    let pre = head + "SELECT "@ + distinct_sql(s.distinct@, uses_distinct_on(d), q());
    let it = items_sql(d, s.items@, base, false);
    let ji = joins_items_sql(d, s.joins@, base + it.1.len(), s.items@.len() > 0);
    let star = if s.items@.len() + join_items(s.joins@).len() == 0 {
        seq!['*']
    } else {
        Seq::empty()
    };
    let b1 = base + it.1.len() + ji.1.len();
    let wc = window_column_sql(d, s, b1);
    let b2 = b1 + wc.1.len();
    let jo = joins_on_sql(d, s.joins@, b2);
    let b3 = b2 + jo.1.len();
    let wh = optional_clause_sql(d, " WHERE "@, s.filter, b3);
    let b4 = b3 + wh.1.len();
    let hv = optional_clause_sql(d, " HAVING "@, s.having, b4);
    let b5 = b4 + hv.1.len();
    let tail = select_tail_sql(d, s, b5);
    (pre + it.0 + ji.0 + star + wc.0 + " FROM "@ + quoted_identifier(s.table@, q()) + jo.0 + wh.0
        + group_by_sql(s.group_by@, q()) + hv.0 + tail.0, it.1 + ji.1 + wc.1 + jo.1 + wh.1 + hv.1
        + tail.1)
}


/// On PostgreSQL a two-argument call of a pgvector distance function renders
/// as its operator between the two arguments, in parentheses: `l2_distance`
/// as `<->`, `inner_product` as `<#>` and `cosine_distance` as `<=>`, binding
/// what the first argument binds and then what the second does.
pub proof fn lemma_vector_distance_operators(e: Expr, base: nat)
    requires
        e matches Expr::FunctionCall { args, .. } && args@.len() == 2,
    ensures
        ({
            let name = e->FunctionCall_name@;
            let args = e->FunctionCall_args@;
            let a = expr_sql(DialectKind::Postgres, args[0], base);
            let b = expr_sql(DialectKind::Postgres, args[1], base + a.1.len());
            let r = expr_sql(DialectKind::Postgres, e, base);
            &&& name == "l2_distance"@ ==> r.0 == "("@ + a.0 + " <-> "@ + b.0 + ")"@ && r.1 == a.1 + b.1
            &&& name == "inner_product"@ ==> r.0 == "("@ + a.0 + " <#> "@ + b.0 + ")"@ && r.1 == a.1 + b.1
            &&& name == "cosine_distance"@ ==> r.0 == "("@ + a.0 + " <=> "@ + b.0 + ")"@ && r.1 == a.1 + b.1
        }),
{
    reveal(expr_sql);
    reveal_strlit("l2_distance");
    reveal_strlit("inner_product");
    reveal_strlit("cosine_distance");
    reveal_strlit("(");
    reveal_strlit(")");
    reveal_strlit(" <-> ");
    reveal_strlit(" <#> ");
    reveal_strlit(" <=> ");
    reveal_strlit("<->");
    reveal_strlit("<#>");
    reveal_strlit("<=>");
    let name = e->FunctionCall_name@;
    let args = e->FunctionCall_args@;
    let a = expr_sql(DialectKind::Postgres, args[0], base);
    let b = expr_sql(DialectKind::Postgres, args[1], base + a.1.len());
    assert("l2_distance"@.len() != "inner_product"@.len() && "l2_distance"@.len() != "cosine_distance"@.len());
    assert("inner_product"@.len() != "cosine_distance"@.len());
    let r = expr_sql(DialectKind::Postgres, e, base);
    assert(r == function_call_sql(DialectKind::Postgres, e, base));
    if vector_operator(name) is Some {
        assert(r.0 == seq!['('] + a.0 + seq![' '] + vector_operator(name).unwrap() + seq![' '] + b.0 + seq![')']);
        assert(r.1 == a.1 + b.1);
    }
    if name == "l2_distance"@ {
        assert(vector_operator(name) == Some("<->"@));
        assert(seq!['('] + a.0 + seq![' '] + "<->"@ + seq![' '] + b.0 + seq![')'] =~= "("@ + a.0 + " <-> "@ + b.0 + ")"@);
    }
    if name == "inner_product"@ {
        assert(vector_operator(name) == Some("<#>"@));
        assert(seq!['('] + a.0 + seq![' '] + "<#>"@ + seq![' '] + b.0 + seq![')'] =~= "("@ + a.0 + " <#> "@ + b.0 + ")"@);
    }
    if name == "cosine_distance"@ {
        assert(vector_operator(name) == Some("<=>"@));
        assert(seq!['('] + a.0 + seq![' '] + "<=>"@ + seq![' '] + b.0 + seq![')'] =~= "("@ + a.0 + " <=> "@ + b.0 + ")"@);
    }
}

} // verus!

