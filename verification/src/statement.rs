//! The statements that change rows: INSERT, UPDATE and DELETE, with the
//! assignment, conflict and RETURNING clauses they share.
use vstd::prelude::*;

use crate::ast::{Assignment, ColumnMarker, Delete, Insert, OnConflict, Update, Value};
use crate::clauses::{column_name_parts, joined, push_column_names, push_returning, returning_sql};
use crate::grammar::{bound_value_sql, expr_sql, optional_clause_sql, q, DialectKind, Rendered};
use crate::ident::{push_quoted_identifier, push_table_name, quoted_identifier};
use crate::render::{bound, extends, render_expr, render_optional_clause, RenderContext};

verus! {

/// The right-hand side of one `SET` entry: a bound value or an expression.
pub open spec fn assignment_sql(d: DialectKind, a: Assignment, base: nat) -> Rendered {
    match a {
        Assignment::Value(v) => bound_value_sql(d, v, base),
        Assignment::Expr(e) => expr_sql(d, e, base),
    }
}

/// `column = value` entries separated by `, `.
pub open spec fn set_list_sql(d: DialectKind, entries: Seq<(ColumnMarker, Assignment)>, base: nat) -> Rendered
    decreases entries.len(),
{
    if entries.len() == 0 {
        (Seq::empty(), Seq::empty())
    } else {
        let p = set_list_sql(d, entries.drop_last(), base);
        let a = assignment_sql(d, entries.last().1, base + p.1.len());
        let sep = if entries.len() > 1 {
            ", "@
        } else {
            Seq::empty()
        };
        (p.0 + sep + quoted_identifier(entries.last().0.name@, q()) + " = "@ + a.0, p.1 + a.1)
    }
}

/// The values of one row separated by `, `.
pub open spec fn row_sql(d: DialectKind, row: Seq<Value>, base: nat) -> Rendered
    decreases row.len(),
{
    if row.len() == 0 {
        (Seq::empty(), Seq::empty())
    } else {
        let p = row_sql(d, row.drop_last(), base);
        let v = bound_value_sql(d, row.last(), base + p.1.len());
        let sep = if row.len() > 1 {
            ", "@
        } else {
            Seq::empty()
        };
        (p.0 + sep + v.0, p.1 + v.1)
    }
}

/// Parenthesised rows separated by `, `.
pub open spec fn rows_sql(d: DialectKind, rows: Seq<Vec<Value>>, base: nat) -> Rendered
    decreases rows.len(),
{
    if rows.len() == 0 {
        (Seq::empty(), Seq::empty())
    } else {
        let p = rows_sql(d, rows.drop_last(), base);
        let r = row_sql(d, rows.last()@, base + p.1.len());
        let sep = if rows.len() > 1 {
            ", "@
        } else {
            Seq::empty()
        };
        (p.0 + sep + seq!['('] + r.0 + seq![')'], p.1 + r.1)
    }
}

/// ` ON CONFLICT (target) DO NOTHING`, or `DO UPDATE SET` with the entries.
pub open spec fn on_conflict_sql(d: DialectKind, oc: OnConflict, base: nat) -> Rendered {
    let head = " ON CONFLICT ("@ + joined(column_name_parts(oc.target@, q()), ", "@) + seq![')'];
    if oc.update@.len() == 0 {
        (head + " DO NOTHING"@, Seq::empty())
    } else {
        let s = set_list_sql(d, oc.update@, base);
        (head + " DO UPDATE SET "@ + s.0, s.1)
    }
}

/// An INSERT statement.
pub open spec fn insert_sql(d: DialectKind, ins: Insert, base: nat) -> Rendered {
    let rows = rows_sql(d, ins.values@, base);
    let conflict = match ins.on_conflict {
        Some(oc) => on_conflict_sql(d, oc, base + rows.1.len()),
        None => (Seq::empty(), Seq::empty()),
    };
    ("INSERT INTO "@ + quoted_identifier(ins.table@, q()) + " ("@ + joined(
        column_name_parts(ins.columns@, q()),
        ", "@,
    ) + seq![')'] + " VALUES "@ + rows.0 + conflict.0 + returning_sql(ins.returning@, q()), rows.1
        + conflict.1)
}

/// An UPDATE statement.
pub open spec fn update_sql(d: DialectKind, upd: Update, base: nat) -> Rendered {
    let set = set_list_sql(d, upd.assignments@, base);
    let wh = optional_clause_sql(d, " WHERE "@, upd.filter, base + set.1.len());
    ("UPDATE "@ + quoted_identifier(upd.table@, q()) + " SET "@ + set.0 + wh.0 + returning_sql(
        upd.returning@,
        q(),
    ), set.1 + wh.1)
}

/// A DELETE statement.
pub open spec fn delete_sql(d: DialectKind, del: Delete, base: nat) -> Rendered {
    let wh = optional_clause_sql(d, " WHERE "@, del.filter, base);
    ("DELETE FROM "@ + quoted_identifier(del.table@, q()) + wh.0 + returning_sql(
        del.returning@,
        q(),
    ), wh.1)
}

/// Render the right-hand side of one `SET` entry.
pub fn render_assignment(ctx: &mut RenderContext, a: Assignment)
    ensures
        extends(*old(ctx), *final(ctx), assignment_sql(old(ctx).dialect, a, bound(*old(ctx)))),
{
    match a {
        Assignment::Value(v) => ctx.bind_value(v),
        Assignment::Expr(e) => render_expr(ctx, e),
    }
}

/// Render `column = value` entries.
pub fn render_set_list(ctx: &mut RenderContext, entries: Vec<(ColumnMarker, Assignment)>)
    ensures
        extends(*old(ctx), *final(ctx), set_list_sql(old(ctx).dialect, entries@, bound(*old(ctx)))),
{
    let ghost c0 = *ctx;
    let ghost es = entries@;
    let ghost d = ctx.dialect;
    let ghost base = bound(*ctx);
    let ghost orig = entries;
    let mut first = true;
    proof {
        assert(es.take(0) =~= Seq::<(ColumnMarker, Assignment)>::empty());
    }
    for entry in it: entries.into_iter()
        invariant
            d == c0.dialect,
            base == bound(c0),
            first == (it.index() == 0),
            it.seq() == es,
            es == orig@,
            extends(c0, *ctx, set_list_sql(d, es.take(it.index() as int), base)),
    {
        let ghost k = it.index() as int;
        proof {
            assert(es.take(k + 1).drop_last() =~= es.take(k));
            assert(entry == orig@[k]);
        }
        if !first {
            ctx.sql.push_str(", ");
        }
        let (col, assignment) = entry;
        push_quoted_identifier(&mut ctx.sql, col.name.as_str(), '"');
        ctx.sql.push_str(" = ");
        render_assignment(ctx, assignment);
        first = false;
        proof {
            assert(ctx.sql@ =~= c0.sql@ + set_list_sql(d, es.take(k + 1), base).0);
            assert(ctx.params@ =~= c0.params@ + set_list_sql(d, es.take(k + 1), base).1);
        }
    }
    proof {
        assert(es.take(es.len() as int) =~= es);
    }
}

/// Render the values of one row.
pub fn render_row(ctx: &mut RenderContext, row: Vec<Value>)
    ensures
        extends(*old(ctx), *final(ctx), row_sql(old(ctx).dialect, row@, bound(*old(ctx)))),
{
    let ghost c0 = *ctx;
    let ghost es = row@;
    let ghost d = ctx.dialect;
    let ghost base = bound(*ctx);
    let ghost orig = row;
    let mut first = true;
    proof {
        assert(es.take(0) =~= Seq::<Value>::empty());
    }
    for value in it: row.into_iter()
        invariant
            d == c0.dialect,
            base == bound(c0),
            first == (it.index() == 0),
            it.seq() == es,
            es == orig@,
            extends(c0, *ctx, row_sql(d, es.take(it.index() as int), base)),
    {
        let ghost k = it.index() as int;
        proof {
            assert(es.take(k + 1).drop_last() =~= es.take(k));
            assert(value == orig@[k]);
        }
        if !first {
            ctx.sql.push_str(", ");
        }
        ctx.bind_value(value);
        first = false;
        proof {
            assert(ctx.sql@ =~= c0.sql@ + row_sql(d, es.take(k + 1), base).0);
            assert(ctx.params@ =~= c0.params@ + row_sql(d, es.take(k + 1), base).1);
        }
    }
    proof {
        assert(es.take(es.len() as int) =~= es);
    }
}

/// Render parenthesised rows.
pub fn render_rows(ctx: &mut RenderContext, rows: Vec<Vec<Value>>)
    ensures
        extends(*old(ctx), *final(ctx), rows_sql(old(ctx).dialect, rows@, bound(*old(ctx)))),
{
    let ghost c0 = *ctx;
    let ghost es = rows@;
    let ghost d = ctx.dialect;
    let ghost base = bound(*ctx);
    let ghost orig = rows;
    let mut first = true;
    proof {
        assert(es.take(0) =~= Seq::<Vec<Value>>::empty());
    }
    for row in it: rows.into_iter()
        invariant
            d == c0.dialect,
            base == bound(c0),
            first == (it.index() == 0),
            it.seq() == es,
            es == orig@,
            extends(c0, *ctx, rows_sql(d, es.take(it.index() as int), base)),
    {
        let ghost k = it.index() as int;
        proof {
            assert(es.take(k + 1).drop_last() =~= es.take(k));
            assert(row == orig@[k]);
        }
        if !first {
            ctx.sql.push_str(", ");
        }
        ctx.sql.push('(');
        render_row(ctx, row);
        ctx.sql.push(')');
        first = false;
        proof {
            assert(ctx.sql@ =~= c0.sql@ + rows_sql(d, es.take(k + 1), base).0);
            assert(ctx.params@ =~= c0.params@ + rows_sql(d, es.take(k + 1), base).1);
        }
    }
    proof {
        assert(es.take(es.len() as int) =~= es);
    }
}

/// Render the conflict clause of an INSERT.
pub fn render_on_conflict(ctx: &mut RenderContext, oc: OnConflict)
    ensures
        extends(*old(ctx), *final(ctx), on_conflict_sql(old(ctx).dialect, oc, bound(*old(ctx)))),
{
    let ghost c0 = *ctx;
    let ghost oc0 = oc;
    ctx.sql.push_str(" ON CONFLICT (");
    push_column_names(&mut ctx.sql, oc.target.as_slice(), '"');
    ctx.sql.push(')');
    if oc.update.len() == 0 {
        ctx.sql.push_str(" DO NOTHING");
    } else {
        ctx.sql.push_str(" DO UPDATE SET ");
        render_set_list(ctx, oc.update);
    }
    assert(ctx.sql@ =~= c0.sql@ + on_conflict_sql(c0.dialect, oc0, bound(c0)).0);
    assert(ctx.params@ =~= c0.params@ + on_conflict_sql(c0.dialect, oc0, bound(c0)).1);
}

/// Render an INSERT.
pub fn render_insert_body(ctx: &mut RenderContext, ins: Insert)
    ensures
        extends(*old(ctx), *final(ctx), insert_sql(old(ctx).dialect, ins, bound(*old(ctx)))),
{
    let ghost c0 = *ctx;
    let ghost i0 = ins;
    let Insert { table, columns, values, on_conflict, returning } = ins;
    ctx.sql.push_str("INSERT INTO ");
    push_table_name(&mut ctx.sql, table.as_str(), '"');
    ctx.sql.push_str(" (");
    push_column_names(&mut ctx.sql, columns.as_slice(), '"');
    ctx.sql.push(')');
    ctx.sql.push_str(" VALUES ");
    let ghost c1 = *ctx;
    render_rows(ctx, values);
    let ghost c2 = *ctx;
    if let Some(oc) = on_conflict {
        render_on_conflict(ctx, oc);
    }
    let ghost c3 = *ctx;
    push_returning(&mut ctx.sql, returning.as_slice(), '"');
    proof {
        let d = c0.dialect;
        let base = bound(c0);
        let rows = rows_sql(d, i0.values@, base);
        let conflict = match i0.on_conflict {
            Some(oc) => on_conflict_sql(d, oc, base + rows.1.len()),
            None => (Seq::<char>::empty(), Seq::<Value>::empty()),
        };
        assert(c3.sql@ =~= c2.sql@ + conflict.0);
        assert(c3.params@ =~= c2.params@ + conflict.1);
    }
    assert(ctx.sql@ =~= c0.sql@ + insert_sql(c0.dialect, i0, bound(c0)).0);
    assert(ctx.params@ =~= c0.params@ + insert_sql(c0.dialect, i0, bound(c0)).1);
}

/// Render an UPDATE.
pub fn render_update_body(ctx: &mut RenderContext, upd: Update)
    ensures
        extends(*old(ctx), *final(ctx), update_sql(old(ctx).dialect, upd, bound(*old(ctx)))),
{
    let ghost c0 = *ctx;
    let ghost u0 = upd;
    let Update { table, assignments, filter, returning } = upd;
    ctx.sql.push_str("UPDATE ");
    push_table_name(&mut ctx.sql, table.as_str(), '"');
    ctx.sql.push_str(" SET ");
    render_set_list(ctx, assignments);
    render_optional_clause(ctx, " WHERE ", filter);
    push_returning(&mut ctx.sql, returning.as_slice(), '"');
    assert(ctx.sql@ =~= c0.sql@ + update_sql(c0.dialect, u0, bound(c0)).0);
    assert(ctx.params@ =~= c0.params@ + update_sql(c0.dialect, u0, bound(c0)).1);
}

/// Render a DELETE.
pub fn render_delete_body(ctx: &mut RenderContext, del: Delete)
    ensures
        extends(*old(ctx), *final(ctx), delete_sql(old(ctx).dialect, del, bound(*old(ctx)))),
{
    let ghost c0 = *ctx;
    let ghost d0 = del;
    let Delete { table, filter, returning } = del;
    ctx.sql.push_str("DELETE FROM ");
    push_table_name(&mut ctx.sql, table.as_str(), '"');
    render_optional_clause(ctx, " WHERE ", filter);
    push_returning(&mut ctx.sql, returning.as_slice(), '"');
    assert(ctx.sql@ =~= c0.sql@ + delete_sql(c0.dialect, d0, bound(c0)).0);
    assert(ctx.params@ =~= c0.params@ + delete_sql(c0.dialect, d0, bound(c0)).1);
}

} // verus!
