//! The dialects: PostgreSQL and SQLite renderers of whole statements.
use vstd::prelude::*;

use crate::ast::{Delete, Insert, Select, Update, Value};
use crate::grammar::{select_sql, uses_distinct_on, DialectKind};
use crate::render::{render_select_body, RenderContext};
use crate::statement::{
    delete_sql, insert_sql, render_delete_body, render_insert_body, render_update_body,
    update_sql,
};

verus! {

/// SQL text with the values bound to its placeholders, in placeholder order.
#[derive(Debug, PartialEq)]
pub struct Sql {
    /// The SQL text with parameter placeholders.
    pub text: String,
    /// The values to bind.
    pub params: Vec<Value>,
}

/// A renderer of statement trees into one dialect's SQL.
pub trait Dialect {
    /// Which dialect this renderer writes.
    spec fn kind(&self) -> DialectKind;

    /// Whether the dialect supports `RETURNING` on INSERT, UPDATE and DELETE.
    fn supports_returning(&self) -> (r: bool)
        ensures
            r,
    ;

    /// Whether the dialect restricts a result set with `DISTINCT ON` itself.
    fn supports_distinct_on(&self) -> (r: bool)
        ensures
            r == uses_distinct_on(self.kind()),
    ;

    /// Render a SELECT, moving its bound values into the parameter list.
    fn render_select_owned(&self, select: Select) -> (sql: Sql)
        ensures
            sql.text@ == select_sql(self.kind(), select, 0).0,
            sql.params@ == select_sql(self.kind(), select, 0).1,
    ;

    /// Render an INSERT, moving its bound values into the parameter list.
    fn render_insert_owned(&self, insert: Insert) -> (sql: Sql)
        ensures
            sql.text@ == insert_sql(self.kind(), insert, 0).0,
            sql.params@ == insert_sql(self.kind(), insert, 0).1,
    ;

    /// Render an UPDATE, moving its bound values into the parameter list.
    fn render_update_owned(&self, update: Update) -> (sql: Sql)
        ensures
            sql.text@ == update_sql(self.kind(), update, 0).0,
            sql.params@ == update_sql(self.kind(), update, 0).1,
    ;

    /// Render a DELETE, moving its bound values into the parameter list.
    fn render_delete_owned(&self, delete: Delete) -> (sql: Sql)
        ensures
            sql.text@ == delete_sql(self.kind(), delete, 0).0,
            sql.params@ == delete_sql(self.kind(), delete, 0).1,
    ;
}

/// Render a SELECT in `dialect`.
pub fn render_select_in(dialect: DialectKind, select: Select) -> (sql: Sql)
    ensures
        sql.text@ == select_sql(dialect, select, 0).0,
        sql.params@ == select_sql(dialect, select, 0).1,
{
    let mut ctx = RenderContext::new(dialect);
    render_select_body(&mut ctx, select);
    proof {
        assert(ctx.sql@ =~= select_sql(dialect, select, 0).0);
        assert(ctx.params@ =~= select_sql(dialect, select, 0).1);
    }
    Sql { text: ctx.sql, params: ctx.params }
}

/// Render an INSERT in `dialect`.
pub fn render_insert_in(dialect: DialectKind, insert: Insert) -> (sql: Sql)
    ensures
        sql.text@ == insert_sql(dialect, insert, 0).0,
        sql.params@ == insert_sql(dialect, insert, 0).1,
{
    let mut ctx = RenderContext::new(dialect);
    render_insert_body(&mut ctx, insert);
    proof {
        assert(ctx.sql@ =~= insert_sql(dialect, insert, 0).0);
        assert(ctx.params@ =~= insert_sql(dialect, insert, 0).1);
    }
    Sql { text: ctx.sql, params: ctx.params }
}

/// Render an UPDATE in `dialect`.
pub fn render_update_in(dialect: DialectKind, update: Update) -> (sql: Sql)
    ensures
        sql.text@ == update_sql(dialect, update, 0).0,
        sql.params@ == update_sql(dialect, update, 0).1,
{
    let mut ctx = RenderContext::new(dialect);
    render_update_body(&mut ctx, update);
    proof {
        assert(ctx.sql@ =~= update_sql(dialect, update, 0).0);
        assert(ctx.params@ =~= update_sql(dialect, update, 0).1);
    }
    Sql { text: ctx.sql, params: ctx.params }
}

/// Render a DELETE in `dialect`.
pub fn render_delete_in(dialect: DialectKind, delete: Delete) -> (sql: Sql)
    ensures
        sql.text@ == delete_sql(dialect, delete, 0).0,
        sql.params@ == delete_sql(dialect, delete, 0).1,
{
    let mut ctx = RenderContext::new(dialect);
    render_delete_body(&mut ctx, delete);
    proof {
        assert(ctx.sql@ =~= delete_sql(dialect, delete, 0).0);
        assert(ctx.params@ =~= delete_sql(dialect, delete, 0).1);
    }
    Sql { text: ctx.sql, params: ctx.params }
}

/// The PostgreSQL renderer: `$1, $2, ...` placeholders, double-quoted
/// identifiers, `RETURNING`, `DISTINCT ON`, array operators and parameter casts.
#[derive(Debug, Clone, Copy)]
pub struct PostgresDialect;

/// The SQLite renderer: `?` placeholders, double-quoted identifiers and
/// JSON-based array operators.
#[derive(Debug, Clone, Copy)]
pub struct SqliteDialect;

impl Dialect for PostgresDialect {
    open spec fn kind(&self) -> DialectKind {
        DialectKind::Postgres
    }

    fn supports_returning(&self) -> (r: bool) {
        true
    }

    fn supports_distinct_on(&self) -> (r: bool) {
        true
    }

    fn render_select_owned(&self, select: Select) -> (sql: Sql) {
        render_select_in(DialectKind::Postgres, select)
    }

    fn render_insert_owned(&self, insert: Insert) -> (sql: Sql) {
        render_insert_in(DialectKind::Postgres, insert)
    }

    fn render_update_owned(&self, update: Update) -> (sql: Sql) {
        render_update_in(DialectKind::Postgres, update)
    }

    fn render_delete_owned(&self, delete: Delete) -> (sql: Sql) {
        render_delete_in(DialectKind::Postgres, delete)
    }
}

impl Dialect for SqliteDialect {
    open spec fn kind(&self) -> DialectKind {
        DialectKind::Sqlite
    }

    fn supports_returning(&self) -> (r: bool) {
        true
    }

    fn supports_distinct_on(&self) -> (r: bool) {
        false
    }

    fn render_select_owned(&self, select: Select) -> (sql: Sql) {
        render_select_in(DialectKind::Sqlite, select)
    }

    fn render_insert_owned(&self, insert: Insert) -> (sql: Sql) {
        render_insert_in(DialectKind::Sqlite, insert)
    }

    fn render_update_owned(&self, update: Update) -> (sql: Sql) {
        render_update_in(DialectKind::Sqlite, update)
    }

    fn render_delete_owned(&self, delete: Delete) -> (sql: Sql) {
        render_delete_in(DialectKind::Sqlite, delete)
    }
}

} // verus!
