//! The statement tree the dialects render: values, expressions and the four
//! statement shapes.
use vstd::prelude::*;

use crate::json::Json;

verus! {

/// A value bound to a statement parameter.
///
/// Floating-point payloads are held by their IEEE-754 bit patterns, which is
/// exactly what the driver receives; the renderer only moves values into the
/// parameter list and reads which variant they are.
#[derive(Debug, PartialEq)]
pub enum Value {
    Null,
    Bool(bool),
    I32(i32),
    I64(i64),
    /// A double, by its bit pattern.
    F64(u64),
    /// A decimal number in its canonical text form.
    Decimal(String),
    /// A timestamp in its canonical text form.
    DateTime(String),
    /// A UUID by its 128-bit value.
    Uuid(u128),
    String(String),
    Bytes(Vec<u8>),
    Json(Json),
    Array(Vec<Value>),
    /// A pgvector embedding. Each component is held by the bit pattern of the
    /// double it was given as, which lies in the finite range of `f32`; the
    /// driver binds it narrowed to `f32`.
    Vector(Vec<u64>),
    /// An hstore map: one entry per key, in ascending key order, each with
    /// its text or SQL NULL.
    Hstore(Vec<(String, Option<String>)>),
    /// A PostGIS geometry in WKT or EWKT.
    Geometry(String),
    /// A PostGIS geography in WKT or EWKT.
    Geography(String),
    Enum { sql_type: String, value: String },
    /// Text bound as an extension type such as `citext` or `ltree`.
    Extension { sql_type: String, value: String },
    Composite { sql_type: String, fields: Vec<Value> },
}

/// A column of a table.
#[derive(Debug, Clone, PartialEq)]
pub struct ColumnMarker {
    pub table: String,
    pub name: String,
}

/// Sort direction.
#[derive(Debug, Clone, Copy, PartialEq, Eq)]
pub enum OrderDir {
    Asc,
    Desc,
}

/// One column entry of an `ORDER BY` list, possibly using `table__column`.
#[derive(Debug, Clone, PartialEq)]
pub struct OrderBy {
    pub column: String,
    pub direction: OrderDir,
}

/// Binary operators.
#[derive(Debug, Clone, Copy, PartialEq, Eq)]
pub enum BinaryOp {
    Eq,
    Ne,
    Lt,
    Le,
    Gt,
    Ge,
    And,
    Or,
    Like,
    LikeEscape,
    Add,
    Sub,
    Mul,
    Div,
    ArrayContains,
    ArrayContainedBy,
    ArrayOverlaps,
    In,
    NotIn,
}

/// How a relation filter quantifies over the related rows.
#[derive(Debug, Clone, Copy, PartialEq, Eq)]
pub enum RelationFilterOp {
    /// At least one related row matches.
    Any,
    /// No related row matches.
    NoneOf,
    /// Every related row matches.
    Every,
}

/// The link table of an implicit many-to-many relation.
#[derive(Debug, Clone, PartialEq)]
pub struct ViaTable {
    pub table: String,
    pub parent_column: String,
    pub child_column: String,
}

/// A filter over the rows related to the current one.
#[derive(Debug, PartialEq)]
pub struct RelationFilter {
    pub parent_table: String,
    pub pk_db: String,
    pub target_table: String,
    pub fk_db: String,
    pub via: Option<ViaTable>,
    pub filter: Box<Expr>,
}

/// How a JSON-stored nested field is cast when extracted.
#[derive(Debug, Clone, Copy, PartialEq, Eq)]
pub enum JsonPathCast {
    NoCast,
    Signed,
    Double,
    Decimal,
}

/// Expressions.
#[derive(Debug, PartialEq)]
pub enum Expr {
    /// A column reference, possibly `table__column`.
    Column(String),
    /// A bound value.
    Param(Value),
    /// A string literal written into the statement.
    Literal(String),
    Star,
    Not(Box<Expr>),
    IsNull(Box<Expr>),
    IsNotNull(Box<Expr>),
    Binary { left: Box<Expr>, op: BinaryOp, right: Box<Expr> },
    List(Vec<Expr>),
    FunctionCall { name: String, args: Vec<Expr> },
    Filter { expr: Box<Expr>, predicate: Box<Expr> },
    CaseWhen { condition: Box<Expr>, then: Box<Expr> },
    /// A field of a composite column: native on PostgreSQL, JSON elsewhere.
    CompositeField {
        table: String,
        column: String,
        field: String,
        json_key: String,
        cast: JsonPathCast,
    },
    Exists(Box<Select>),
    NotExists(Box<Select>),
    ScalarSubquery(Box<Select>),
    Relation { op: RelationFilterOp, relation: Box<RelationFilter> },
}

/// One projected item of a SELECT.
#[derive(Debug, PartialEq)]
pub enum SelectItem {
    Column(ColumnMarker),
    Computed { expr: Expr, alias: String },
}

/// Join kinds.
#[derive(Debug, Clone, Copy, PartialEq, Eq)]
pub enum JoinType {
    Inner,
    Left,
}

/// A joined table, with the items it adds to the projection.
#[derive(Debug, PartialEq)]
pub struct Join {
    pub join_type: JoinType,
    pub table: String,
    pub on: Expr,
    pub items: Vec<SelectItem>,
}

/// One entry of an explicit, mixed `ORDER BY` list.
#[derive(Debug, PartialEq)]
pub enum OrderByItem {
    Column(OrderBy),
    Expr(Expr, OrderDir),
}

/// Per-partition pagination, rendered as a `ROW_NUMBER()` window.
#[derive(Debug, Clone, PartialEq)]
pub struct PartitionWindow {
    pub partition_by: Vec<String>,
    pub skip: u32,
    pub take: Option<u32>,
}

/// A SELECT statement.
#[derive(Debug, PartialEq)]
pub struct Select {
    pub table: String,
    pub items: Vec<SelectItem>,
    pub joins: Vec<Join>,
    pub filter: Option<Expr>,
    pub group_by: Vec<ColumnMarker>,
    pub having: Option<Expr>,
    pub order_by: Vec<OrderBy>,
    pub order_by_exprs: Vec<(Expr, OrderDir)>,
    pub order_by_items: Vec<OrderByItem>,
    pub take: Option<i32>,
    pub skip: Option<u32>,
    pub distinct: Vec<String>,
    pub partition_window: Option<PartitionWindow>,
}

/// The right-hand side of one `SET` entry.
#[derive(Debug, PartialEq)]
pub enum Assignment {
    Value(Value),
    Expr(Expr),
}

/// The conflict clause of an INSERT.
#[derive(Debug, PartialEq)]
pub struct OnConflict {
    pub target: Vec<ColumnMarker>,
    pub update: Vec<(ColumnMarker, Assignment)>,
}

/// An INSERT statement.
#[derive(Debug, PartialEq)]
pub struct Insert {
    pub table: String,
    pub columns: Vec<ColumnMarker>,
    pub values: Vec<Vec<Value>>,
    pub on_conflict: Option<OnConflict>,
    pub returning: Vec<ColumnMarker>,
}

/// An UPDATE statement.
#[derive(Debug, PartialEq)]
pub struct Update {
    pub table: String,
    pub assignments: Vec<(ColumnMarker, Assignment)>,
    pub filter: Option<Expr>,
    pub returning: Vec<ColumnMarker>,
}

/// A DELETE statement.
#[derive(Debug, PartialEq)]
pub struct Delete {
    pub table: String,
    pub filter: Option<Expr>,
    pub returning: Vec<ColumnMarker>,
}

} // verus!
