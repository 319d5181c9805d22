//! Verified SQL rendering and request helpers for the Nautilus ORM engine.
pub mod aggregate;
pub mod args;
pub mod ast;
pub mod binding;
pub mod cast;
pub mod clauses;
pub mod conversion;
pub mod count_plan;
pub mod dialect;
pub mod distinct;
pub mod field;
pub mod expr;
pub mod find_plan;
pub mod grammar;
pub mod grouping;
pub mod hydrate;
pub mod ident;
pub mod inverse;
pub mod model;
pub mod join_run;
pub mod join_writes;
pub mod json;
pub mod naming;
pub mod normalize;
pub mod nested_plan;
pub mod order_target;
pub mod ordered;
pub mod owning;
pub mod owning_run;
pub mod payload;
pub mod placement;
pub mod protocol;
pub mod query_args;
pub mod record;
pub mod relation;
pub mod read_back;
pub mod render;
pub mod text;
pub mod unfold;
pub mod unique;
pub mod write_input;
pub mod write_plan;
pub mod statement;
pub mod typed_args;
