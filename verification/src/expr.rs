//! Operator spellings shared by the dialects.
use vstd::prelude::*;

use crate::ast::{BinaryOp, Value};

verus! {

/// Whether `op` is one of the operators every dialect spells the same way.
pub open spec fn is_scalar_op(op: BinaryOp) -> bool {
    !(op is ArrayContains || op is ArrayContainedBy || op is ArrayOverlaps || op is In
        || op is NotIn)
}

/// The SQL spelling of a scalar operator.
pub open spec fn binary_op_text(op: BinaryOp) -> Seq<char> {
    match op {
        BinaryOp::Eq => "="@,
        BinaryOp::Ne => "!="@,
        BinaryOp::Lt => "<"@,
        BinaryOp::Le => "<="@,
        BinaryOp::Gt => ">"@,
        BinaryOp::Ge => ">="@,
        BinaryOp::And => "AND"@,
        BinaryOp::Or => "OR"@,
        BinaryOp::Like => "LIKE"@,
        BinaryOp::LikeEscape => "LIKE"@,
        BinaryOp::Add => "+"@,
        BinaryOp::Sub => "-"@,
        BinaryOp::Mul => "*"@,
        BinaryOp::Div => "/"@,
        _ => Seq::empty(),
    }
}

/// The parameter cast of a dialect that never casts a bound parameter.
pub fn no_param_cast(_value: &Value) -> (r: Option<String>)
    ensures
        r is None,
{
    None
}

/// Return the SQL operator keyword for a standard scalar binary operation.
///
/// Composite cases (IN/NOT IN, array operators) are handled by each dialect
/// before it delegates here.
pub fn binary_op_sql(op: &BinaryOp) -> (s: &'static str)
    requires
        is_scalar_op(*op),
    ensures
        s@ == binary_op_text(*op),
{
    match op {
        BinaryOp::Eq => "=",
        BinaryOp::Ne => "!=",
        BinaryOp::Lt => "<",
        BinaryOp::Le => "<=",
        BinaryOp::Gt => ">",
        BinaryOp::Ge => ">=",
        BinaryOp::And => "AND",
        BinaryOp::Or => "OR",
        BinaryOp::Like | BinaryOp::LikeEscape => "LIKE",
        BinaryOp::Add => "+",
        BinaryOp::Sub => "-",
        BinaryOp::Mul => "*",
        BinaryOp::Div => "/",
        _ => "",
    }
}

} // verus!
