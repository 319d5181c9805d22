//! The statement renderer the dialects share: expressions, the SELECT body and
//! the INSERT, UPDATE and DELETE bodies.
//!
//! Every render path consumes the tree, moving bound values into the parameter
//! list instead of cloning them. Each part of the tree has a specification of
//! the text it renders and the values it binds; `base` is the number of values
//! bound before it, which numbered placeholders depend on.
use vstd::prelude::*;
use vstd::seq_lib::lemma_concat_associative;

use crate::ast::{
    BinaryOp, Expr, Join, JoinType, OrderBy, OrderByItem, OrderDir, RelationFilter,
    RelationFilterOp, Select, SelectItem, Value,
};
use crate::clauses::{column_order_sql, distinct_sql, group_by_sql, join_items, joined, window_projection_sql};

use crate::grammar::{binary_sql, bound_value_sql, column_orders_sql, expr_sql, function_call_sql, item_sql, items_sql, joins_items_sql, joins_on_sql, list_sql, optional_clause_sql, order_by_clause_sql, order_exprs_sql, order_item_sql, order_items_sql, placeholder_sql, q, relation_source_sql, relation_sql, select_sql, select_tail_sql, sqlite_function_name, uses_distinct_on, vector_operator, window_column_sql, DialectKind, Rendered, VECTOR_COSINE_DISTANCE_FUNCTION, VECTOR_INNER_PRODUCT_FUNCTION, VECTOR_L2_DISTANCE_FUNCTION};
use crate::unfold::{
    unfold_binary_sql, unfold_expr_sql, unfold_function_call_sql, unfold_item_sql,
    unfold_items_sql, unfold_joins_items_sql, unfold_joins_on_sql, unfold_list_sql,
    unfold_optional_clause_sql, unfold_order_by_clause_sql, unfold_order_exprs_sql,
    unfold_order_item_sql, unfold_order_items_sql, unfold_relation_sql, unfold_select_sql,
    unfold_select_tail_sql, unfold_window_column_sql,
};
use crate::ident::{qualified_identifier, quoted_identifier, WINDOW_ROW_NUMBER_ALIAS};

verus! {
/// The SQL buffer and parameter list a statement renders into.
pub struct RenderContext {
    pub sql: String,
    pub params: Vec<Value>,
    pub dialect: DialectKind,
}

/// `after` is `before` with `r` appended.
pub open spec fn extends(before: RenderContext, after: RenderContext, r: Rendered) -> bool {
    &&& after.sql@ == before.sql@ + r.0
    &&& after.params@ == before.params@ + r.1
    &&& after.dialect == before.dialect
}

/// The number of values bound so far.
pub open spec fn bound(ctx: RenderContext) -> nat {
    ctx.params@.len()
}

/// The entries of a joined table the projection does not need.
pub struct JoinHead {
    pub join_type: JoinType,
    pub table: String,
    pub on: Expr,
}

/// The ordering entries of a select, taken out of it.
pub struct OrderParts {
    pub items: Vec<OrderByItem>,
    pub columns: Vec<OrderBy>,
    pub exprs: Vec<(Expr, OrderDir)>,
}

impl RenderContext {
    /// An empty buffer for `dialect`.
    pub fn new(dialect: DialectKind) -> (ctx: Self)
        ensures
            ctx.sql@ == Seq::<char>::empty(),
            ctx.params@ == Seq::<Value>::empty(),
            ctx.dialect == dialect,
    {
        RenderContext { sql: String::new(), params: Vec::new(), dialect }
    }

    /// Bind `value` and write its placeholder.
    pub fn push_param(&mut self, value: Value)
        ensures
            final(self).params@ == old(self).params@.push(value),
            final(self).sql@ == old(self).sql@ + placeholder_sql(
                old(self).dialect,
                old(self).params@.len() + 1,
            ),
            final(self).dialect == old(self).dialect,
    {
        self.params.push(value);
        match self.dialect {
            DialectKind::Postgres => {
                self.sql.push('$');
                crate::ident::push_usize(&mut self.sql, self.params.len());
            },
            DialectKind::Sqlite => {
                self.sql.push('?');
            },
        }
    }

    /// Bind a value with the cast its dialect needs, or write `NULL` for a null.
    pub fn bind_value(&mut self, value: Value)
        ensures
            extends(*old(self), *final(self), bound_value_sql(old(self).dialect, value, bound(*old(self)))),
    {
        let ghost c0 = *self;
        let ghost v0 = value;
        if matches!(value, Value::Null) {
            self.sql.push_str("NULL");
        } else {
            match self.dialect {
                DialectKind::Postgres => {
                    let cast = crate::cast::postgres_param_cast(&value);
                    self.push_param(value);
                    if let Some(cast) = cast {
                        cast.push_sql(&mut self.sql);
                    }
                },
                DialectKind::Sqlite => {
                    self.push_param(value);
                },
            }
        }
        assert(self.sql@ =~= c0.sql@ + bound_value_sql(c0.dialect, v0, bound(c0)).0);
        assert(self.params@ =~= c0.params@ + bound_value_sql(c0.dialect, v0, bound(c0)).1);
    }
}

/// Whether `name` is one of the pgvector distance functions, and which operator.
pub fn vector_operator_of(name: &str) -> (r: Option<&'static str>)
    ensures
        match r {
            Some(op) => vector_operator(name@) == Some(op@),
            None => vector_operator(name@) is None,
        },
{
    if crate::text::str_eq(name, VECTOR_L2_DISTANCE_FUNCTION) {
        Some("<->")
    } else if crate::text::str_eq(name, VECTOR_INNER_PRODUCT_FUNCTION) {
        Some("<#>")
    } else if crate::text::str_eq(name, VECTOR_COSINE_DISTANCE_FUNCTION) {
        Some("<=>")
    } else {
        None
    }
}

/// The SQLite spelling of a function name.
pub fn sqlite_function<'a>(name: &'a str) -> (r: &'a str)
    ensures
        r@ == sqlite_function_name(name@),
{
    if crate::text::str_eq(name, "json_agg") {
        "json_group_array"
    } else if crate::text::str_eq(name, "json_build_object") {
        "json_object"
    } else {
        name
    }
}


/// Render an expression.
#[verifier::rlimit(50)]
pub fn render_expr(ctx: &mut RenderContext, e: Expr)
    ensures
        extends(*old(ctx), *final(ctx), expr_sql(old(ctx).dialect, e, bound(*old(ctx)))),
    decreases e, 1nat,
{
    let ghost c0 = *ctx;
    let ghost e0 = e;
    let ghost d = ctx.dialect;
    let ghost base = bound(*ctx);
    proof {
        unfold_expr_sql(d, e0, base);
        reveal_strlit(")");
        reveal_strlit("(");
        assert(")"@ =~= seq![')']);
        assert("("@ =~= seq!['(']);
    }
    match e {
        Expr::Column(name) => {
            crate::ident::push_identifier_reference(&mut ctx.sql, name.as_str(), '"');
            assert(ctx.sql@ =~= c0.sql@ + expr_sql(d, e0, base).0);
            assert(ctx.params@ =~= c0.params@ + expr_sql(d, e0, base).1);
        },
        Expr::Not(inner) => {
            ctx.sql.push_str("NOT (");
            render_expr(ctx, *inner);
            ctx.sql.push(')');
            assert(ctx.sql@ =~= c0.sql@ + expr_sql(d, e0, base).0);
            assert(ctx.params@ =~= c0.params@ + expr_sql(d, e0, base).1);
        },
        Expr::Exists(sub) => {
            ctx.sql.push_str("EXISTS (");
            render_select_body(ctx, *sub);
            ctx.sql.push(')');
            assert(ctx.sql@ =~= c0.sql@ + expr_sql(d, e0, base).0);
            assert(ctx.params@ =~= c0.params@ + expr_sql(d, e0, base).1);
        },
        Expr::NotExists(sub) => {
            ctx.sql.push_str("NOT EXISTS (");
            render_select_body(ctx, *sub);
            ctx.sql.push(')');
            assert(ctx.sql@ =~= c0.sql@ + expr_sql(d, e0, base).0);
            assert(ctx.params@ =~= c0.params@ + expr_sql(d, e0, base).1);
        },
        Expr::Relation { op, relation } => {
            render_relation(ctx, op, *relation, Ghost(e0));
            assert(ctx.sql@ =~= c0.sql@ + expr_sql(d, e0, base).0);
            assert(ctx.params@ =~= c0.params@ + expr_sql(d, e0, base).1);
        },
        Expr::ScalarSubquery(sub) => {
            ctx.sql.push('(');
            render_select_body(ctx, *sub);
            ctx.sql.push(')');
            assert(ctx.sql@ =~= c0.sql@ + expr_sql(d, e0, base).0);
            assert(ctx.params@ =~= c0.params@ + expr_sql(d, e0, base).1);
        },
        Expr::IsNull(inner) => {
            ctx.sql.push('(');
            render_expr(ctx, *inner);
            ctx.sql.push_str(" IS NULL)");
            assert(ctx.sql@ =~= c0.sql@ + expr_sql(d, e0, base).0);
            assert(ctx.params@ =~= c0.params@ + expr_sql(d, e0, base).1);
        },
        Expr::IsNotNull(inner) => {
            ctx.sql.push('(');
            render_expr(ctx, *inner);
            ctx.sql.push_str(" IS NOT NULL)");
            assert(ctx.sql@ =~= c0.sql@ + expr_sql(d, e0, base).0);
            assert(ctx.params@ =~= c0.params@ + expr_sql(d, e0, base).1);
        },
        Expr::Literal(s) => {
            crate::ident::push_sql_string_literal(&mut ctx.sql, s.as_str());
            assert(ctx.sql@ =~= c0.sql@ + expr_sql(d, e0, base).0);
            assert(ctx.params@ =~= c0.params@ + expr_sql(d, e0, base).1);
        },
        Expr::List(exprs) => {
            render_list(ctx, exprs);
            assert(ctx.sql@ =~= c0.sql@ + expr_sql(d, e0, base).0);
            assert(ctx.params@ =~= c0.params@ + expr_sql(d, e0, base).1);
        },
        Expr::CaseWhen { condition, then } => {
            ctx.sql.push_str("CASE WHEN ");
            render_expr(ctx, *condition);
            ctx.sql.push_str(" THEN ");
            render_expr(ctx, *then);
            ctx.sql.push_str(" ELSE NULL END");
            assert(ctx.sql@ =~= c0.sql@ + expr_sql(d, e0, base).0);
            assert(ctx.params@ =~= c0.params@ + expr_sql(d, e0, base).1);
        },
        Expr::Star => {
            ctx.sql.push('*');
            assert(ctx.sql@ =~= c0.sql@ + expr_sql(d, e0, base).0);
            assert(ctx.params@ =~= c0.params@ + expr_sql(d, e0, base).1);
        },
        Expr::CompositeField { table, column, field, json_key, .. } => {
            match ctx.dialect {
                DialectKind::Postgres => {
                    crate::ident::push_composite_field_reference(
                        &mut ctx.sql,
                        table.as_str(),
                        column.as_str(),
                        field.as_str(),
                        '"',
                    );
                },
                DialectKind::Sqlite => {
                    ctx.sql.push_str("json_extract(");
                    crate::ident::push_qualified_identifier(
                        &mut ctx.sql,
                        table.as_str(),
                        column.as_str(),
                        '"',
                    );
                    ctx.sql.push_str(", ");
                    crate::ident::push_json_object_path_literal(&mut ctx.sql, json_key.as_str());
                    ctx.sql.push(')');
                },
            }
            assert(ctx.sql@ =~= c0.sql@ + expr_sql(d, e0, base).0);
            assert(ctx.params@ =~= c0.params@ + expr_sql(d, e0, base).1);
        },
        Expr::Param(value) => {
            ctx.bind_value(value);
            assert(ctx.sql@ =~= c0.sql@ + expr_sql(d, e0, base).0);
            assert(ctx.params@ =~= c0.params@ + expr_sql(d, e0, base).1);
        },
        Expr::Binary { left, op, right } => {
            render_binary(ctx, *left, op, *right, Ghost(e0));
            assert(ctx.sql@ =~= c0.sql@ + expr_sql(d, e0, base).0);
            assert(ctx.params@ =~= c0.params@ + expr_sql(d, e0, base).1);
        },
        Expr::FunctionCall { name, args } => {
            render_function_call(ctx, name, args, Ghost(e0));
            assert(ctx.sql@ =~= c0.sql@ + expr_sql(d, e0, base).0);
            assert(ctx.params@ =~= c0.params@ + expr_sql(d, e0, base).1);
        },
        Expr::Filter { expr, predicate } => {
            render_expr(ctx, *expr);
            ctx.sql.push_str(" FILTER (WHERE ");
            render_expr(ctx, *predicate);
            ctx.sql.push(')');
            assert(ctx.sql@ =~= c0.sql@ + expr_sql(d, e0, base).0);
            assert(ctx.params@ =~= c0.params@ + expr_sql(d, e0, base).1);
        },
    }
}

/// Render a relation filter `e0`, whose parts are `op` and `relation`.
#[verifier::rlimit(50)]
fn render_relation(ctx: &mut RenderContext, op: RelationFilterOp, relation: RelationFilter, Ghost(e0): Ghost<Expr>)
    requires
        e0 matches Expr::Relation { op: o, relation: r } && o == op && *r == relation,
    ensures
        extends(*old(ctx), *final(ctx), relation_sql(old(ctx).dialect, e0, bound(*old(ctx)))),
    decreases e0, 0nat,
{
    let ghost c0 = *ctx;
    let ghost d = ctx.dialect;
    let ghost base = bound(*ctx);
    proof {
        unfold_relation_sql(d, e0, base);
        reveal_strlit(")");
        assert(")"@ =~= seq![')']);
    }

    let RelationFilter { parent_table, pk_db, target_table, fk_db, via, filter } = relation;
    if matches!(op, RelationFilterOp::Any) {
        ctx.sql.push_str("EXISTS (SELECT * FROM ");
    } else {
        ctx.sql.push_str("NOT EXISTS (SELECT * FROM ");
    }
    let ghost src_start = ctx.sql@;
    match via {
        Some(via) => {
            crate::ident::push_table_name(&mut ctx.sql, via.table.as_str(), '"');
            ctx.sql.push_str(" INNER JOIN ");
            crate::ident::push_table_name(&mut ctx.sql, target_table.as_str(), '"');
            ctx.sql.push_str(" ON ");
            crate::ident::push_qualified_identifier(
                &mut ctx.sql,
                target_table.as_str(),
                fk_db.as_str(),
                '"',
            );
            ctx.sql.push_str(" = ");
            crate::ident::push_qualified_identifier(
                &mut ctx.sql,
                via.table.as_str(),
                via.child_column.as_str(),
                '"',
            );
            ctx.sql.push_str(" WHERE ");
            crate::ident::push_qualified_identifier(
                &mut ctx.sql,
                via.table.as_str(),
                via.parent_column.as_str(),
                '"',
            );
        },
        None => {
            crate::ident::push_table_name(&mut ctx.sql, target_table.as_str(), '"');
            ctx.sql.push_str(" WHERE ");
            crate::ident::push_qualified_identifier(
                &mut ctx.sql,
                target_table.as_str(),
                fk_db.as_str(),
                '"',
            );
        },
    }
    assert(ctx.sql@ =~= src_start + relation_source_sql(*e0->relation));
    ctx.sql.push_str(" = ");
    crate::ident::push_qualified_identifier(
        &mut ctx.sql,
        parent_table.as_str(),
        pk_db.as_str(),
        '"',
    );
    ctx.sql.push_str(" AND ");
    let ghost head = if op is Any {
        "EXISTS (SELECT * FROM "@
    } else {
        "NOT EXISTS (SELECT * FROM "@
    };
    let ghost prefix = head + relation_source_sql(*e0->relation) + " = "@ + qualified_identifier(
        e0->relation.parent_table@,
        e0->relation.pk_db@,
        q(),
    ) + " AND "@;
    assert(ctx.sql@ =~= c0.sql@ + prefix);
    let ghost c1 = *ctx;
    let ghost r = expr_sql(d, *e0->relation.filter, base);
    if matches!(op, RelationFilterOp::Every) {
        ctx.sql.push_str("NOT (");
        render_expr(ctx, *filter);
        ctx.sql.push(')');
        assert(ctx.sql@ =~= c1.sql@ + ("NOT ("@ + r.0 + ")"@));
    } else {
        render_expr(ctx, *filter);
        assert(ctx.sql@ =~= c1.sql@ + r.0);
    }
    ctx.sql.push(')');
    assert(ctx.sql@ =~= c0.sql@ + relation_sql(d, e0, base).0);
    assert(ctx.params@ =~= c0.params@ + relation_sql(d, e0, base).1);
}

/// Render a binary operation `e0`, whose parts are `left`, `op` and `right`.
#[verifier::rlimit(50)]
fn render_binary(ctx: &mut RenderContext, left: Expr, op: BinaryOp, right: Expr, Ghost(e0): Ghost<Expr>)
    requires
        e0 matches Expr::Binary { left: l, op: o, right: r } && *l == left && o == op && *r == right,
    ensures
        extends(*old(ctx), *final(ctx), binary_sql(old(ctx).dialect, e0, bound(*old(ctx)))),
    decreases e0, 0nat,
{
    let ghost c0 = *ctx;
    let ghost d = ctx.dialect;
    let ghost base = bound(*ctx);
    proof {
        unfold_binary_sql(d, e0, base);
    }
    if matches!(op, BinaryOp::In | BinaryOp::NotIn) {
        ctx.sql.push('(');
        render_expr(ctx, left);
        ctx.sql.push(' ');
        ctx.sql.push_str(if matches!(op, BinaryOp::In) { "IN" } else { "NOT IN" });
        ctx.sql.push_str(" (");
        match right {
            Expr::List(exprs) => render_list(ctx, exprs),
            other => render_expr(ctx, other),
        }
        ctx.sql.push(')');
        ctx.sql.push(')');
    } else if matches!(
        op,
        BinaryOp::ArrayContains | BinaryOp::ArrayContainedBy | BinaryOp::ArrayOverlaps
    ) && matches!(ctx.dialect, DialectKind::Sqlite) {
        match op {
            BinaryOp::ArrayContains => {
                ctx.sql.push_str("NOT EXISTS (SELECT 1 FROM json_each(");
                render_expr(ctx, right);
                ctx.sql.push_str(") AS _rhs WHERE NOT EXISTS (SELECT 1 FROM json_each(");
                render_expr(ctx, left);
                ctx.sql.push_str(") AS _col WHERE _col.value IS _rhs.value))");
            },
            BinaryOp::ArrayContainedBy => {
                ctx.sql.push_str("NOT EXISTS (SELECT 1 FROM json_each(");
                render_expr(ctx, left);
                ctx.sql.push_str(") AS _col WHERE NOT EXISTS (SELECT 1 FROM json_each(");
                render_expr(ctx, right);
                ctx.sql.push_str(") AS _rhs WHERE _col.value IS _rhs.value))");
            },
            _ => {
                ctx.sql.push_str("EXISTS (SELECT 1 FROM json_each(");
                render_expr(ctx, left);
                ctx.sql.push_str(") AS _col WHERE EXISTS (SELECT 1 FROM json_each(");
                render_expr(ctx, right);
                ctx.sql.push_str(") AS _rhs WHERE _col.value IS _rhs.value))");
            },
        }
    } else {
        ctx.sql.push('(');
        render_expr(ctx, left);
        ctx.sql.push(' ');
        ctx.sql.push_str(
            match op {
                BinaryOp::ArrayContains => "@>",
                BinaryOp::ArrayContainedBy => "<@",
                BinaryOp::ArrayOverlaps => "&&",
                _ => crate::expr::binary_op_sql(&op),
            },
        );
        ctx.sql.push(' ');
        render_expr(ctx, right);
        if matches!(op, BinaryOp::LikeEscape) && matches!(ctx.dialect, DialectKind::Sqlite) {
            ctx.sql.push_str(" ESCAPE '\\'");
        }
        ctx.sql.push(')');
    }
    assert(ctx.sql@ =~= c0.sql@ + binary_sql(d, e0, base).0);
    assert(ctx.params@ =~= c0.params@ + binary_sql(d, e0, base).1);
}

/// Render a function call `e0`, whose parts are `name` and `args`.
#[verifier::rlimit(50)]
fn render_function_call(ctx: &mut RenderContext, name: String, args: Vec<Expr>, Ghost(e0): Ghost<Expr>)
    requires
        e0 matches Expr::FunctionCall { name: n, args: a } && n == name && a == args,
    ensures
        extends(*old(ctx), *final(ctx), function_call_sql(old(ctx).dialect, e0, bound(*old(ctx)))),
    decreases e0, 0nat,
{
    let ghost c0 = *ctx;
    let ghost d = ctx.dialect;
    let ghost base = bound(*ctx);
    proof {
        unfold_function_call_sql(d, e0, base);
    }
    let ghost a0 = args@;
    let vector_op = if matches!(ctx.dialect, DialectKind::Postgres) && args.len() == 2 {
        vector_operator_of(name.as_str())
    } else {
        None
    };
    match vector_op {
        Some(op) => {
            let mut args = args;
            let second = args.pop().unwrap();
            let first = args.pop().unwrap();
            proof {
                assert(first == a0[0]);
                assert(second == a0[1]);
            }
            ctx.sql.push('(');
            render_expr(ctx, first);
            ctx.sql.push(' ');
            ctx.sql.push_str(op);
            ctx.sql.push(' ');
            render_expr(ctx, second);
            ctx.sql.push(')');
        },
        None => {
            let fname = match ctx.dialect {
                DialectKind::Sqlite => sqlite_function(name.as_str()),
                DialectKind::Postgres => name.as_str(),
            };
            ctx.sql.push_str(fname);
            ctx.sql.push('(');
            render_list(ctx, args);
            ctx.sql.push(')');
        },
    }
    assert(ctx.sql@ =~= c0.sql@ + function_call_sql(d, e0, base).0);
    assert(ctx.params@ =~= c0.params@ + function_call_sql(d, e0, base).1);
}

/// Render expressions separated by `, `.
pub fn render_list(ctx: &mut RenderContext, exprs: Vec<Expr>)
    ensures
        extends(*old(ctx), *final(ctx), list_sql(old(ctx).dialect, exprs@, bound(*old(ctx)))),
    decreases exprs, 0nat,
{
    let ghost c0 = *ctx;
    let ghost es = exprs@;
    let ghost d = ctx.dialect;
    let ghost base = bound(*ctx);
    let ghost orig = exprs;
    let mut first = true;
    proof {
        unfold_list_sql(d, es.take(0), base);
    }
    for e in it: exprs.into_iter()
        invariant
            d == c0.dialect,
            base == bound(c0),
            first == (it.index() == 0),
            it.seq() == es,
            es == orig@,
            extends(c0, *ctx, list_sql(d, es.take(it.index() as int), base)),
    {
        let ghost k = it.index() as int;
        proof {
            assert(es.take(k + 1).drop_last() =~= es.take(k));
            assert(e == orig@[k]);
        }
        let ghost before = *ctx;
        if !first {
            ctx.sql.push_str(", ");
        }
        render_expr(ctx, e);
        first = false;
        proof {
            unfold_list_sql(d, es.take(k + 1), base);
            assert(ctx.sql@ =~= c0.sql@ + list_sql(d, es.take(k + 1), base).0);
            assert(ctx.params@ =~= c0.params@ + list_sql(d, es.take(k + 1), base).1);
        }
    }
    proof {
        assert(es.take(es.len() as int) =~= es);
    }
}


/// Render one projected item.
fn render_item(ctx: &mut RenderContext, item: SelectItem)
    ensures
        extends(*old(ctx), *final(ctx), item_sql(old(ctx).dialect, item, bound(*old(ctx)))),
    decreases item, 0nat,
{
    let ghost c0 = *ctx;
    let ghost i0 = item;
    match item {
        SelectItem::Column(col) => {
            crate::clauses::push_aliased_column(&mut ctx.sql, &col, '"');
        },
        SelectItem::Computed { expr, alias } => {
            ctx.sql.push('(');
            render_expr(ctx, expr);
            ctx.sql.push(')');
            ctx.sql.push_str(" AS ");
            crate::ident::push_quoted_identifier(&mut ctx.sql, alias.as_str(), '"');
        },
    }
    proof {
        unfold_item_sql(c0.dialect, i0, bound(c0));
    }
    assert(ctx.sql@ =~= c0.sql@ + item_sql(c0.dialect, i0, bound(c0)).0);
    assert(ctx.params@ =~= c0.params@ + item_sql(c0.dialect, i0, bound(c0)).1);
}

/// Render projected items, each after `, ` unless it is the first of the list.
#[verifier::rlimit(100)]
fn render_items(ctx: &mut RenderContext, items: Vec<SelectItem>, lead: bool)
    ensures
        extends(*old(ctx), *final(ctx), items_sql(old(ctx).dialect, items@, bound(*old(ctx)), lead)),
    decreases items, 0nat,
{
    let ghost c0 = *ctx;
    let ghost es = items@;
    let ghost d = ctx.dialect;
    let ghost base = bound(*ctx);
    let ghost orig = items;
    let mut first = true;
    proof {
        unfold_items_sql(d, es.take(0), base, lead);
    }
    for item in it: items.into_iter()
        invariant
            d == c0.dialect,
            base == bound(c0),
            first == (it.index() == 0),
            it.seq() == es,
            es == orig@,
            extends(c0, *ctx, items_sql(d, es.take(it.index() as int), base, lead)),
    {
        let ghost k = it.index() as int;
        proof {
            assert(es.take(k + 1).drop_last() =~= es.take(k));
            assert(item == orig@[k]);
        }
        if !first || lead {
            ctx.sql.push_str(", ");
        }
        render_item(ctx, item);
        first = false;
        proof {
            unfold_items_sql(d, es.take(k + 1), base, lead);
            assert(ctx.sql@ =~= c0.sql@ + items_sql(d, es.take(k + 1), base, lead).0);
            assert(ctx.params@ =~= c0.params@ + items_sql(d, es.take(k + 1), base, lead).1);
        }
    }
    proof {
        assert(es.take(es.len() as int) =~= es);
    }
}

/// Render the items the joins add to the projection, and hand back the rest of
/// each join together with whether any join had items.
#[verifier::rlimit(100)]
fn render_join_items(ctx: &mut RenderContext, joins: Vec<Join>, lead: bool) -> (res: (
    Vec<JoinHead>,
    bool,
))
    ensures
        extends(*old(ctx), *final(ctx), joins_items_sql(old(ctx).dialect, joins@, bound(*old(ctx)), lead)),
        res.0@.len() == joins@.len(),
        forall|k: int|
            0 <= k < joins@.len() ==> (#[trigger] res.0@[k]).join_type == joins@[k].join_type
                && res.0@[k].table == joins@[k].table && res.0@[k].on == joins@[k].on,
        res.1 == (join_items(joins@).len() > 0),
    decreases joins, 0nat,
{
    let ghost c0 = *ctx;
    let ghost js = joins@;
    let ghost d = ctx.dialect;
    let ghost base = bound(*ctx);
    let ghost orig = joins;
    let mut heads: Vec<JoinHead> = Vec::new();
    let mut any = false;
    proof {
        unfold_joins_items_sql(d, js.take(0), base, lead);
    }
    for join in it: joins.into_iter()
        invariant
            d == c0.dialect,
            base == bound(c0),
            it.seq() == js,
            js == orig@,
            heads@.len() == it.index(),
            forall|k: int|
                0 <= k < it.index() ==> (#[trigger] heads@[k]).join_type == js[k].join_type
                    && heads@[k].table == js[k].table && heads@[k].on == js[k].on,
            any == (join_items(js.take(it.index() as int)).len() > 0),
            extends(c0, *ctx, joins_items_sql(d, js.take(it.index() as int), base, lead)),
    {
        let ghost k = it.index() as int;
        proof {
            assert(js.take(k + 1).drop_last() =~= js.take(k));
            assert(join == orig@[k]);
        }
        let Join { join_type, table, on, items } = join;
        let has = items.len() > 0;
        render_items(ctx, items, lead || any);
        heads.push(JoinHead { join_type, table, on });
        any = any || has;
        proof {
            unfold_joins_items_sql(d, js.take(k + 1), base, lead);
            assert(ctx.sql@ =~= c0.sql@ + joins_items_sql(d, js.take(k + 1), base, lead).0);
            assert(ctx.params@ =~= c0.params@ + joins_items_sql(d, js.take(k + 1), base, lead).1);
        }
    }
    proof {
        assert(js.take(js.len() as int) =~= js);
    }
    (heads, any)
}

/// Render the join clauses from the heads of `joins`.
fn render_join_heads(ctx: &mut RenderContext, heads: Vec<JoinHead>, Ghost(joins): Ghost<Vec<Join>>)
    requires
        heads@.len() == joins@.len(),
        forall|k: int|
            0 <= k < joins@.len() ==> (#[trigger] heads@[k]).join_type == joins@[k].join_type
                && heads@[k].table == joins@[k].table && heads@[k].on == joins@[k].on,
    ensures
        extends(*old(ctx), *final(ctx), joins_on_sql(old(ctx).dialect, joins@, bound(*old(ctx)))),
    decreases joins, 0nat,
{
    let ghost c0 = *ctx;
    let ghost js = joins@;
    let ghost hs = heads@;
    let ghost d = ctx.dialect;
    let ghost base = bound(*ctx);
    proof {
        unfold_joins_on_sql(d, js.take(0), base);
    }
    for head in it: heads.into_iter()
        invariant
            d == c0.dialect,
            base == bound(c0),
            it.seq() == hs,
            hs.len() == js.len(),
            js == joins@,
            forall|k: int|
                0 <= k < js.len() ==> (#[trigger] hs[k]).join_type == js[k].join_type
                    && hs[k].table == js[k].table && hs[k].on == js[k].on,
            extends(c0, *ctx, joins_on_sql(d, js.take(it.index() as int), base)),
    {
        let ghost k = it.index() as int;
        proof {
            assert(js.take(k + 1).drop_last() =~= js.take(k));
            assert(head == hs[k]);
            assert(head.on == joins@[k].on);
            assert(decreases_to!(joins => joins@[k]));
        }
        let JoinHead { join_type, table, on } = head;
        match join_type {
            JoinType::Inner => ctx.sql.push_str(" INNER JOIN "),
            JoinType::Left => ctx.sql.push_str(" LEFT JOIN "),
        }
        crate::ident::push_table_name(&mut ctx.sql, table.as_str(), '"');
        ctx.sql.push_str(" ON ");
        render_expr(ctx, on);
        proof {
            unfold_joins_on_sql(d, js.take(k + 1), base);
            assert(ctx.sql@ =~= c0.sql@ + joins_on_sql(d, js.take(k + 1), base).0);
            assert(ctx.params@ =~= c0.params@ + joins_on_sql(d, js.take(k + 1), base).1);
        }
    }
    proof {
        assert(js.take(js.len() as int) =~= js);
    }
}

/// Render one entry of a mixed `ORDER BY` list.
fn render_order_item(ctx: &mut RenderContext, item: OrderByItem)
    ensures
        extends(*old(ctx), *final(ctx), order_item_sql(old(ctx).dialect, item, bound(*old(ctx)))),
    decreases item, 0nat,
{
    let ghost c0 = *ctx;
    let ghost i0 = item;
    match item {
        OrderByItem::Column(order) => {
            crate::clauses::push_column_order(&mut ctx.sql, &order, '"');
        },
        OrderByItem::Expr(e, dir) => {
            render_expr(ctx, e);
            crate::clauses::push_direction(&mut ctx.sql, dir);
        },
    }
    proof {
        unfold_order_item_sql(c0.dialect, i0, bound(c0));
    }
    assert(ctx.sql@ =~= c0.sql@ + order_item_sql(c0.dialect, i0, bound(c0)).0);
    assert(ctx.params@ =~= c0.params@ + order_item_sql(c0.dialect, i0, bound(c0)).1);
}

/// Render a mixed `ORDER BY` list.
#[verifier::rlimit(50)]
fn render_order_items(ctx: &mut RenderContext, items: Vec<OrderByItem>)
    ensures
        extends(*old(ctx), *final(ctx), order_items_sql(old(ctx).dialect, items@, bound(*old(ctx)))),
    decreases items, 0nat,
{
    let ghost c0 = *ctx;
    let ghost es = items@;
    let ghost d = ctx.dialect;
    let ghost base = bound(*ctx);
    let ghost orig = items;
    let mut first = true;
    proof {
        unfold_order_items_sql(d, es.take(0), base);
    }
    for item in it: items.into_iter()
        invariant
            d == c0.dialect,
            base == bound(c0),
            first == (it.index() == 0),
            it.seq() == es,
            es == orig@,
            extends(c0, *ctx, order_items_sql(d, es.take(it.index() as int), base)),
    {
        let ghost k = it.index() as int;
        proof {
            assert(es.take(k + 1).drop_last() =~= es.take(k));
            assert(item == orig@[k]);
        }
        if !first {
            ctx.sql.push_str(", ");
        }
        render_order_item(ctx, item);
        first = false;
        proof {
            unfold_order_items_sql(d, es.take(k + 1), base);
            assert(ctx.sql@ =~= c0.sql@ + order_items_sql(d, es.take(k + 1), base).0);
            assert(ctx.params@ =~= c0.params@ + order_items_sql(d, es.take(k + 1), base).1);
        }
    }
    proof {
        assert(es.take(es.len() as int) =~= es);
    }
}

/// Render expression entries of an `ORDER BY` list.
fn render_order_exprs(ctx: &mut RenderContext, exprs: Vec<(Expr, OrderDir)>, lead: bool)
    ensures
        extends(*old(ctx), *final(ctx), order_exprs_sql(old(ctx).dialect, exprs@, bound(*old(ctx)), lead)),
    decreases exprs, 0nat,
{
    let ghost c0 = *ctx;
    let ghost es = exprs@;
    let ghost d = ctx.dialect;
    let ghost base = bound(*ctx);
    let ghost orig = exprs;
    let mut first = true;
    proof {
        unfold_order_exprs_sql(d, es.take(0), base, lead);
    }
    for entry in it: exprs.into_iter()
        invariant
            d == c0.dialect,
            base == bound(c0),
            first == (it.index() == 0),
            it.seq() == es,
            es == orig@,
            extends(c0, *ctx, order_exprs_sql(d, es.take(it.index() as int), base, lead)),
    {
        let ghost k = it.index() as int;
        proof {
            assert(es.take(k + 1).drop_last() =~= es.take(k));
            assert(entry == orig@[k]);
        }
        if !first || lead {
            ctx.sql.push_str(", ");
        }
        let (e, dir) = entry;
        render_expr(ctx, e);
        crate::clauses::push_direction(&mut ctx.sql, dir);
        first = false;
        proof {
            unfold_order_exprs_sql(d, es.take(k + 1), base, lead);
            assert(ctx.sql@ =~= c0.sql@ + order_exprs_sql(d, es.take(k + 1), base, lead).0);
            assert(ctx.params@ =~= c0.params@ + order_exprs_sql(d, es.take(k + 1), base, lead).1);
        }
    }
    proof {
        assert(es.take(es.len() as int) =~= es);
    }
}

/// Append the column entries of an `ORDER BY` list, comma-separated.
pub fn push_column_orders(sql: &mut String, orders: &[OrderBy])
    ensures
        final(sql)@ == old(sql)@ + column_orders_sql(orders@),
{
    let ghost start = sql@;
    let ghost parts = orders@.map_values(|o: OrderBy| crate::clauses::column_order_sql(o, q()));
    let n = orders.len();
    let mut i: usize = 0;
    while i < n
        invariant
            i <= n,
            n == orders@.len(),
            parts == orders@.map_values(|o: OrderBy| crate::clauses::column_order_sql(o, q())),
            sql@ == start + joined(parts.take(i as int), ", "@),
        decreases n - i,
    {
        proof {
            crate::clauses::lemma_joined_take(parts, ", "@, i as int);
        }
        if i > 0 {
            sql.push_str(", ");
        }
        crate::clauses::push_column_order(sql, &orders[i], '"');
        i = i + 1;
        assert(sql@ =~= start + joined(parts.take(i as int), ", "@));
    }
    assert(parts.take(n as int) =~= parts);
}

/// Render the `ORDER BY` clause of `s0`, whose ordering entries are `parts`.
#[verifier::rlimit(100)]
fn render_order_by(ctx: &mut RenderContext, parts: OrderParts, prefix: &str, Ghost(s0): Ghost<Select>)
    requires
        parts.items == s0.order_by_items,
        parts.columns == s0.order_by,
        parts.exprs == s0.order_by_exprs,
    ensures
        extends(*old(ctx), *final(ctx), order_by_clause_sql(old(ctx).dialect, s0, bound(*old(ctx)), prefix@)),
    decreases s0, 0nat,
{
    let ghost c0 = *ctx;
    let OrderParts { items, columns, exprs } = parts;
    let has_items = items.len() > 0;
    let has_columns = columns.len() > 0;
    let has_exprs = exprs.len() > 0;
    if has_items || has_columns || has_exprs {
        ctx.sql.push_str(prefix);
        ctx.sql.push_str("ORDER BY ");
        if has_items {
            render_order_items(ctx, items);
        } else {
            push_column_orders(&mut ctx.sql, columns.as_slice());
            render_order_exprs(ctx, exprs, has_columns);
        }
    }
    proof {
        unfold_order_by_clause_sql(c0.dialect, s0, bound(c0), prefix@);
    }
    assert(ctx.sql@ =~= c0.sql@ + order_by_clause_sql(c0.dialect, s0, bound(c0), prefix@).0);
    assert(ctx.params@ =~= c0.params@ + order_by_clause_sql(c0.dialect, s0, bound(c0), prefix@).1);
}

/// Render `keyword` and the expression, when there is one.
pub fn render_optional_clause(ctx: &mut RenderContext, keyword: &str, e: Option<Expr>)
    ensures
        extends(*old(ctx), *final(ctx), optional_clause_sql(old(ctx).dialect, keyword@, e, bound(*old(ctx)))),
    decreases e, 0nat,
{
    let ghost c0 = *ctx;
    let ghost e0 = e;
    proof {
        unfold_optional_clause_sql(c0.dialect, keyword@, e0, bound(c0));
    }
    if let Some(inner) = e {
        ctx.sql.push_str(keyword);
        render_expr(ctx, inner);
    }
    assert(ctx.sql@ =~= c0.sql@ + optional_clause_sql(c0.dialect, keyword@, e0, bound(c0)).0);
    assert(ctx.params@ =~= c0.params@ + optional_clause_sql(c0.dialect, keyword@, e0, bound(c0)).1);
}

/// Render the `ROW_NUMBER()` column of a partition window, or hand the
/// ordering entries back when there is no window.
#[verifier::rlimit(100)]
fn render_window_column(
    ctx: &mut RenderContext,
    window: &Option<crate::ast::PartitionWindow>,
    parts: OrderParts,
    Ghost(s0): Ghost<Select>,
) -> (later: Option<OrderParts>)
    requires
        *window == s0.partition_window,
        parts.items == s0.order_by_items,
        parts.columns == s0.order_by,
        parts.exprs == s0.order_by_exprs,
    ensures
        extends(*old(ctx), *final(ctx), window_column_sql(old(ctx).dialect, s0, bound(*old(ctx)))),
        match later {
            Some(p) => s0.partition_window is None && p.items == s0.order_by_items && p.columns
                == s0.order_by && p.exprs == s0.order_by_exprs,
            None => s0.partition_window is Some,
        },
    decreases s0, 1nat,
{
    let ghost c0 = *ctx;
    proof {
        unfold_window_column_sql(c0.dialect, s0, bound(c0));
    }
    match window {
        Some(window) => {
            ctx.sql.push_str(", ROW_NUMBER() OVER (");
            let prefix = if window.partition_by.len() > 0 {
                ctx.sql.push_str("PARTITION BY ");
                crate::clauses::push_identifier_references(
                    &mut ctx.sql,
                    window.partition_by.as_slice(),
                    '"',
                );
                " "
            } else {
                ""
            };
            proof {
                reveal_strlit(" ");
                reveal_strlit("");
                assert(" "@ =~= seq![' ']);
                assert(""@ =~= Seq::<char>::empty());
            }
            render_order_by(ctx, parts, prefix, Ghost(s0));
            ctx.sql.push_str(") AS ");
            crate::ident::push_quoted_identifier(
                &mut ctx.sql,
                crate::ident::WINDOW_ROW_NUMBER_ALIAS,
                '"',
            );
            assert(ctx.sql@ =~= c0.sql@ + window_column_sql(c0.dialect, s0, bound(c0)).0);
            assert(ctx.params@ =~= c0.params@ + window_column_sql(c0.dialect, s0, bound(c0)).1);
            None
        },
        None => {
            assert(ctx.sql@ =~= c0.sql@ + window_column_sql(c0.dialect, s0, bound(c0)).0);
            assert(ctx.params@ =~= c0.params@ + window_column_sql(c0.dialect, s0, bound(c0)).1);
            Some(parts)
        },
    }
}

/// Render the clauses after `HAVING`: the window bounds, or ordering and paging.
#[verifier::rlimit(100)]
fn render_select_tail(
    ctx: &mut RenderContext,
    window: Option<crate::ast::PartitionWindow>,
    later: Option<OrderParts>,
    take: Option<i32>,
    skip: Option<u32>,
    Ghost(s0): Ghost<Select>,
)
    requires
        window == s0.partition_window,
        take == s0.take,
        skip == s0.skip,
        match later {
            Some(p) => s0.partition_window is None && p.items == s0.order_by_items && p.columns
                == s0.order_by && p.exprs == s0.order_by_exprs,
            None => s0.partition_window is Some,
        },
    ensures
        extends(*old(ctx), *final(ctx), select_tail_sql(old(ctx).dialect, s0, bound(*old(ctx)))),
    decreases s0, 1nat,
{
    let ghost c0 = *ctx;
    proof {
        unfold_select_tail_sql(c0.dialect, s0, bound(c0));
    }
    match later {
        None => {
            if let Some(window) = window {
                crate::clauses::push_window_bounds(&mut ctx.sql, &window, '"');
            }
        },
        Some(parts) => {
            proof {
                reveal_strlit(" ");
                assert(" "@ =~= seq![' ']);
            }
            render_order_by(ctx, parts, " ", Ghost(s0));
            let sentinel = match ctx.dialect {
                DialectKind::Postgres => "",
                DialectKind::Sqlite => "-1",
            };
            proof {
                reveal_strlit("");
                assert(""@ =~= Seq::<char>::empty());
            }
            crate::clauses::push_limit_offset(&mut ctx.sql, take, skip, sentinel);
        },
    }
    assert(ctx.sql@ =~= c0.sql@ + select_tail_sql(c0.dialect, s0, bound(c0)).0);
    assert(ctx.params@ =~= c0.params@ + select_tail_sql(c0.dialect, s0, bound(c0)).1);
}

/// Render the head of a SELECT: the window wrapper, when there is one, and the
/// `DISTINCT` prefix.
fn render_select_head(ctx: &mut RenderContext, s: &Select)
    ensures
        final(ctx).sql@ == old(ctx).sql@ + (if s.partition_window is Some {
            "SELECT "@ + window_projection_sql(*s, q()) + " FROM ("@
        } else {
            Seq::empty()
        }) + "SELECT "@ + distinct_sql(s.distinct@, uses_distinct_on(old(ctx).dialect), q()),
        final(ctx).params@ == old(ctx).params@,
        final(ctx).dialect == old(ctx).dialect,
{
    let ghost c0 = *ctx;
    if s.partition_window.is_some() {
        ctx.sql.push_str("SELECT ");
        crate::clauses::push_window_projection(&mut ctx.sql, s, '"');
        ctx.sql.push_str(" FROM (");
    }
    ctx.sql.push_str("SELECT ");
    let distinct_on = matches!(ctx.dialect, DialectKind::Postgres);
    crate::clauses::push_distinct(&mut ctx.sql, s.distinct.as_slice(), distinct_on, '"');
    assert(ctx.sql@ =~= c0.sql@ + (if s.partition_window is Some {
        "SELECT "@ + window_projection_sql(*s, q()) + " FROM ("@
    } else {
        Seq::empty()
    }) + "SELECT "@ + distinct_sql(s.distinct@, uses_distinct_on(c0.dialect), q()));
}

/// Render the body of a SELECT: projection, source, joins, filters, grouping,
/// ordering and paging, including the partition-window rewrite.
#[verifier::rlimit(100)]
#[verifier::spinoff_prover]
pub fn render_select_body(ctx: &mut RenderContext, s: Select)
    ensures
        extends(*old(ctx), *final(ctx), select_sql(old(ctx).dialect, s, bound(*old(ctx)))),
    decreases s, 2nat,
{
    let ghost c0 = *ctx;
    let ghost s0 = s;
    let ghost d = ctx.dialect;
    let ghost base = bound(*ctx);
    render_select_head(ctx, &s);
    let ghost c1 = *ctx;
    let Select {
        table,
        items,
        joins,
        filter,
        group_by,
        having,
        order_by,
        order_by_exprs,
        order_by_items,
        take,
        skip,
        distinct: _,
        partition_window,
    } = s;
    let has_items = items.len() > 0;
    render_items(ctx, items, false);
    let ghost c2 = *ctx;
    let (heads, join_has_items) = render_join_items(ctx, joins, has_items);
    let ghost c3 = *ctx;
    if !has_items && !join_has_items {
        ctx.sql.push('*');
    }
    let ghost c4 = *ctx;
    assert(c4.sql@ =~= c3.sql@ + (if s0.items@.len() + join_items(s0.joins@).len() == 0 {
        seq!['*']
    } else {
        Seq::empty()
    }));
    assert(c1.sql@ =~= c0.sql@ + ((if s0.partition_window is Some {
        "SELECT "@ + window_projection_sql(s0, q()) + " FROM ("@
    } else {
        Seq::empty()
    }) + "SELECT "@ + distinct_sql(s0.distinct@, uses_distinct_on(c0.dialect), q())));
    let parts = OrderParts { items: order_by_items, columns: order_by, exprs: order_by_exprs };
    let later = render_window_column(ctx, &partition_window, parts, Ghost(s0));
    let ghost c5 = *ctx;
    ctx.sql.push_str(" FROM ");
    crate::ident::push_table_name(&mut ctx.sql, table.as_str(), '"');
    let ghost c6 = *ctx;
    render_join_heads(ctx, heads, Ghost(s0.joins));
    let ghost c7 = *ctx;
    render_optional_clause(ctx, " WHERE ", filter);
    let ghost c8 = *ctx;
    crate::clauses::push_group_by(&mut ctx.sql, group_by.as_slice(), '"');
    let ghost c9 = *ctx;
    render_optional_clause(ctx, " HAVING ", having);
    let ghost c10 = *ctx;
    render_select_tail(ctx, partition_window, later, take, skip, Ghost(s0));
    let ghost c11 = *ctx;
    proof {
        lemma_select_assembly(s0, c0, c1, c2, c3, c4, c5, c6, c7, c8, c9, c10, c11);
    }
}

/// A SELECT body rendered piece by piece is its whole rendering.
#[verifier::rlimit(50)]
proof fn lemma_select_assembly(
    s0: Select,
    c0: RenderContext,
    c1: RenderContext,
    c2: RenderContext,
    c3: RenderContext,
    c4: RenderContext,
    c5: RenderContext,
    c6: RenderContext,
    c7: RenderContext,
    c8: RenderContext,
    c9: RenderContext,
    c10: RenderContext,
    c11: RenderContext,
)
    requires
        c1.sql@ == c0.sql@ + ((if s0.partition_window is Some {
            "SELECT "@ + window_projection_sql(s0, q()) + " FROM ("@
        } else {
            Seq::empty()
        }) + "SELECT "@ + distinct_sql(s0.distinct@, uses_distinct_on(c0.dialect), q())),
        c1.params@ == c0.params@,
        c1.dialect == c0.dialect,
        extends(c1, c2, items_sql(c0.dialect, s0.items@, bound(c1), false)),
        extends(c2, c3, joins_items_sql(c0.dialect, s0.joins@, bound(c2), s0.items@.len() > 0)),
        c4.sql@ == c3.sql@ + (if s0.items@.len() + join_items(s0.joins@).len() == 0 {
            seq!['*']
        } else {
            Seq::empty()
        }),
        c4.params@ == c3.params@,
        c4.dialect == c3.dialect,
        extends(c4, c5, window_column_sql(c0.dialect, s0, bound(c4))),
        c6.sql@ == c5.sql@ + " FROM "@ + quoted_identifier(s0.table@, q()),
        c6.params@ == c5.params@,
        c6.dialect == c5.dialect,
        extends(c6, c7, joins_on_sql(c0.dialect, s0.joins@, bound(c6))),
        extends(c7, c8, optional_clause_sql(c0.dialect, " WHERE "@, s0.filter, bound(c7))),
        c9.sql@ == c8.sql@ + group_by_sql(s0.group_by@, q()),
        c9.params@ == c8.params@,
        c9.dialect == c8.dialect,
        extends(c9, c10, optional_clause_sql(c0.dialect, " HAVING "@, s0.having, bound(c9))),
        extends(c10, c11, select_tail_sql(c0.dialect, s0, bound(c10))),
    ensures
        extends(c0, c11, select_sql(c0.dialect, s0, bound(c0))),
{
    let d = c0.dialect;
    let base = bound(c0);
    unfold_select_sql(d, s0, base);
    let head = if s0.partition_window is Some {
        "SELECT "@ + window_projection_sql(s0, q()) + " FROM ("@
    } else {
        Seq::empty()
    };
    let pre = head + "SELECT "@ + distinct_sql(s0.distinct@, uses_distinct_on(d), q());
    let it = items_sql(d, s0.items@, base, false);
    let ji = joins_items_sql(d, s0.joins@, base + it.1.len(), s0.items@.len() > 0);
    let star = if s0.items@.len() + join_items(s0.joins@).len() == 0 {
        seq!['*']
    } else {
        Seq::empty()
    };
    let b1 = base + it.1.len() + ji.1.len();
    let wc = window_column_sql(d, s0, b1);
    let b2 = b1 + wc.1.len();
    let jo = joins_on_sql(d, s0.joins@, b2);
    let b3 = b2 + jo.1.len();
    let wh = optional_clause_sql(d, " WHERE "@, s0.filter, b3);
    let b4 = b3 + wh.1.len();
    let hv = optional_clause_sql(d, " HAVING "@, s0.having, b4);
    let b5 = b4 + hv.1.len();
    let tail = select_tail_sql(d, s0, b5);
    let from = " FROM "@;
    let table = quoted_identifier(s0.table@, q());
    let gb = group_by_sql(s0.group_by@, q());
    let t0 = c0.sql@;
    let p0 = c0.params@;
    // text
    let a1 = pre + it.0;
    lemma_concat_associative(t0, pre, it.0);
    let a2 = a1 + ji.0;
    lemma_concat_associative(t0, a1, ji.0);
    let a3 = a2 + star;
    lemma_concat_associative(t0, a2, star);
    let a4 = a3 + wc.0;
    lemma_concat_associative(t0, a3, wc.0);
    let a5 = a4 + from;
    lemma_concat_associative(t0, a4, from);
    let a6 = a5 + table;
    lemma_concat_associative(t0, a5, table);
    let a7 = a6 + jo.0;
    lemma_concat_associative(t0, a6, jo.0);
    let a8 = a7 + wh.0;
    lemma_concat_associative(t0, a7, wh.0);
    let a9 = a8 + gb;
    lemma_concat_associative(t0, a8, gb);
    let a10 = a9 + hv.0;
    lemma_concat_associative(t0, a9, hv.0);
    let a11 = a10 + tail.0;
    lemma_concat_associative(t0, a10, tail.0);
    assert(c6.sql@ == t0 + a6);
    assert(c11.sql@ == t0 + a11);
    // values
    let q1 = it.1 + ji.1;
    lemma_concat_associative(p0, it.1, ji.1);
    let q2 = q1 + wc.1;
    lemma_concat_associative(p0, q1, wc.1);
    let q3 = q2 + jo.1;
    lemma_concat_associative(p0, q2, jo.1);
    let q4 = q3 + wh.1;
    lemma_concat_associative(p0, q3, wh.1);
    let q5 = q4 + hv.1;
    lemma_concat_associative(p0, q4, hv.1);
    let q6 = q5 + tail.1;
    lemma_concat_associative(p0, q5, tail.1);
    assert(bound(c2) == base + it.1.len());
    assert(bound(c4) == b1);
    assert(bound(c6) == b2);
    assert(bound(c7) == b3);
    assert(bound(c9) == b4);
    assert(bound(c10) == b5);
    assert(c11.params@ == p0 + q6);
}

} // verus!
