//! Finding again the rows a statement just wrote, on a backend whose dialect
//! has no `RETURNING`: the predicate naming exactly the rows the write
//! touched, from the key the caller supplied, the one the server generated,
//! or the primary-key values captured before an update moved them.
use vstd::prelude::*;

use crate::ast::{BinaryOp, Expr, Value};
use crate::distinct::{clone_value, deep_value};
use crate::model::{
    autoincrements, field_index, is_autoincrement, primary_key_field, qualified_column, row_get, unresolvable_key,
    FieldIr, ModelIr, Row,
};
use crate::naming::{qualified_name, qualified_name_of};
use crate::protocol::ProtocolError;
use crate::write_input::{field_input_result, field_input_value, CompositeSupport, FieldInputMode};

verus! {

/// Whether `e` is the condition `column = value` on the column of `field`,
/// where `value` is a bound value equal to `v`, or, without one,
/// `LAST_INSERT_ID()`.
pub open spec fn key_condition(e: Expr, model: ModelIr, field: FieldIr, v: Option<Value>) -> bool {
    &&& e matches Expr::Binary { left, op, right }
    &&& op == BinaryOp::Eq
    &&& *left matches Expr::Column(c)
    &&& c@ == qualified_name(model.db_name@, field.db_name@)
    &&& match v {
        Some(v) => *right matches Expr::Param(p) && deep_value(p) == deep_value(v),
        None => *right matches Expr::FunctionCall { name, args } && name@ == "LAST_INSERT_ID"@ && args@.len() == 0,
    }
}

/// The conditions joined by `AND`, left to right.
pub open spec fn and_fold(conds: Seq<Expr>) -> Expr
    decreases conds.len(),
{
    if conds.len() <= 1 {
        conds[0]
    } else {
        Expr::Binary { left: Box::new(and_fold(conds.drop_last())), op: BinaryOp::And, right: Box::new(conds.last()) }
    }
}

/// The conditions joined by `OR`, left to right.
pub open spec fn or_fold(conds: Seq<Expr>) -> Expr
    decreases conds.len(),
{
    if conds.len() <= 1 {
        conds[0]
    } else {
        Expr::Binary { left: Box::new(or_fold(conds.drop_last())), op: BinaryOp::Or, right: Box::new(conds.last()) }
    }
}

/// Whether none of the first `k` outcomes left a key to the server.
pub open spec fn none_generated(outcomes: Seq<Result<Option<Value>, ProtocolError>>, k: int) -> bool {
    forall|j: int| 0 <= j < k ==> !(#[trigger] outcomes[j] matches Ok(None))
}

/// The field the `j`-th primary-key name of `model` names.
pub open spec fn key_field(model: ModelIr, j: int) -> Option<FieldIr> {
    match field_index(model.fields@, model.primary_key@[j]@, 0) {
        Some(i) => Some(model.fields@[i]),
        None => None,
    }
}

/// Whether the `j`-th key field of an insert was resolved: its input
/// `outcomes[j]` is a value, bound in `conds[j]`, or it was left to the server
/// as MySQL's one auto-increment column, matched by `LAST_INSERT_ID()`.
pub open spec fn insert_step_ok(
    types: CompositeSupport,
    mysql: bool,
    model: ModelIr,
    data: Seq<(String, crate::json::Json)>,
    outcomes: Seq<Result<Option<Value>, ProtocolError>>,
    conds: Seq<Expr>,
    j: int,
) -> bool {
    key_field(model, j) matches Some(field) && field_input_result(types, data, field, FieldInputMode::Create, outcomes[j])
        && match outcomes[j] {
        Ok(Some(v)) => key_condition(conds[j], model, field, Some(v)),
        Ok(None) => mysql && autoincrements(field) && none_generated(outcomes, j) && key_condition(
            conds[j],
            model,
            field,
            None,
        ),
        Err(_) => false,
    }
}

/// Whether `r` is how resolving the `k`-th key field of an insert fails.
pub open spec fn insert_step_refusal(
    types: CompositeSupport,
    mysql: bool,
    model: ModelIr,
    data: Seq<(String, crate::json::Json)>,
    outcomes: Seq<Result<Option<Value>, ProtocolError>>,
    k: int,
    r: Result<Expr, ProtocolError>,
) -> bool {
    match key_field(model, k) {
        None => r matches Err(ProtocolError::QueryPlanning(m)) && m@ == "Model '"@ + model.logical_name@
            + "' names unknown field '"@ + model.primary_key@[k]@ + "' in its primary key"@,
        Some(field) => k < outcomes.len() && field_input_result(types, data, field, FieldInputMode::Create, outcomes[k])
            && match outcomes[k] {
            Err(e) => r == Err::<Expr, ProtocolError>(e),
            Ok(None) => !(mysql && autoincrements(field) && none_generated(outcomes, k)) && (r matches Err(
                ProtocolError::UnsupportedOperation(m),
            ) && m@ == unresolvable_message(model, field)),
            Ok(Some(_)) => false,
        },
    }
}

/// The refusal for a key the backend cannot report.
pub open spec fn unresolvable_message(model: ModelIr, field: FieldIr) -> Seq<char> {
    "Returning the written '"@ + model.logical_name@ + "' row needs its '"@ + field.logical_name@
        + "' value, and this backend cannot report a generated one; supply it in the data or set returnData to false"@
}

/// Whether `r` is the predicate an insert's read-back uses, given the
/// inputs `outcomes` of its key fields and their conditions `conds`: the
/// conditions of every key field joined by `AND` once all resolve, else the
/// refusal of the first that does not.
pub open spec fn inserted_filter_result(
    types: CompositeSupport,
    mysql: bool,
    model: ModelIr,
    data: Seq<(String, crate::json::Json)>,
    outcomes: Seq<Result<Option<Value>, ProtocolError>>,
    conds: Seq<Expr>,
    r: Result<Expr, ProtocolError>,
) -> bool {
    let k = conds.len();
    &&& k <= model.primary_key@.len()
    &&& outcomes.len() >= k
    &&& forall|j: int| 0 <= j < k ==> #[trigger] insert_step_ok(types, mysql, model, data, outcomes, conds, j)
    &&& if k == model.primary_key@.len() {
        if k == 0 {
            r matches Err(ProtocolError::QueryPlanning(m)) && m@ == "Model '"@ + model.logical_name@
                + "' has no primary key to read a written row back by"@
        } else {
            r == Ok::<Expr, ProtocolError>(and_fold(conds))
        }
    } else {
        insert_step_refusal(types, mysql, model, data, outcomes, k as int, r)
    }
}

fn equals(column: Expr, right: Expr) -> (r: Expr)
    ensures
        r == (Expr::Binary { left: Box::new(column), op: BinaryOp::Eq, right: Box::new(right) }),
{
    Expr::Binary { left: Box::new(column), op: BinaryOp::Eq, right: Box::new(right) }
}

fn and_then(acc: Option<Expr>, cond: Expr, op: BinaryOp) -> (r: Expr)
    ensures
        r == match acc {
            None => cond,
            Some(a) => Expr::Binary { left: Box::new(a), op, right: Box::new(cond) },
        },
{
    match acc {
        None => cond,
        Some(a) => Expr::Binary { left: Box::new(a), op, right: Box::new(cond) },
    }
}

/// The predicate identifying the row an `INSERT` just wrote, for a backend
/// that cannot return it inline: each primary-key field equals the value the
/// caller supplied, except that on MySQL one auto-increment key may be left
/// to the server and matched by `LAST_INSERT_ID()` on the same connection.
pub fn inserted_row_filter(types: &CompositeSupport, mysql: bool, model: &ModelIr, data_obj: &Vec<(String, crate::json::Json)>) -> (r: Result<
    Expr,
    ProtocolError,
>)
    ensures
        exists|outcomes: Seq<Result<Option<Value>, ProtocolError>>, conds: Seq<Expr>|
            inserted_filter_result(*types, mysql, *model, data_obj@, outcomes, conds, r),
{
    let ghost mut outcomes: Seq<Result<Option<Value>, ProtocolError>> = Seq::empty();
    let ghost mut conds: Seq<Expr> = Seq::empty();
    let mut acc: Option<Expr> = None;
    let mut generated = false;
    let mut k: usize = 0;
    while k < model.primary_key.len()
        invariant
            k <= model.primary_key@.len(),
            conds.len() == k,
            outcomes.len() == k,
            forall|j: int| 0 <= j < k ==> #[trigger] insert_step_ok(*types, mysql, *model, data_obj@, outcomes, conds, j),
            generated == !none_generated(outcomes, k as int),
            acc == (if k == 0 { None } else { Some(and_fold(conds)) }),
        decreases model.primary_key@.len() - k,
    {
        let field = match primary_key_field(model, model.primary_key[k].as_str()) {
            Ok(f) => f,
            Err(e) => {
                proof {
                    assert(inserted_filter_result(*types, mysql, *model, data_obj@, outcomes, conds, Err(e)));
                }
                return Err(e);
            },
        };
        assert(key_field(*model, k as int) == Some(*field));
        let input = field_input_value(types, data_obj, field, FieldInputMode::Create);
        let ghost outcome = input;
        let ghost next = outcomes.push(outcome);
        assert(forall|j: int| 0 <= j < k ==> next[j] == outcomes[j]);
        let value = match input {
            Err(e) => {
                proof {
                    assert(insert_step_refusal(*types, mysql, *model, data_obj@, next, k as int, Err(e)));
                    assert forall|j: int| 0 <= j < k implies #[trigger] insert_step_ok(*types, mysql, *model, data_obj@, next, conds, j) by {
                        assert(insert_step_ok(*types, mysql, *model, data_obj@, outcomes, conds, j));
                    }
                    assert(inserted_filter_result(*types, mysql, *model, data_obj@, next, conds, Err(e)));
                }
                return Err(e);
            },
            Ok(v) => v,
        };
        let column = qualified_column(model, field);
        let cond = match value {
            Some(v) => {
                let ghost vv = v;
                let c = equals(column, Expr::Param(v));
                assert(key_condition(c, *model, *field, Some(vv)));
                c
            },
            None => {
                let auto = is_autoincrement(field);
                if generated || !mysql || !auto {
                    let e = unresolvable_key(model, field);
                    proof {
                        assert forall|j: int| 0 <= j < k implies #[trigger] insert_step_ok(*types, mysql, *model, data_obj@, next, conds, j) by {
                            assert(insert_step_ok(*types, mysql, *model, data_obj@, outcomes, conds, j));
                        }
                        assert(none_generated(next, k as int) == none_generated(outcomes, k as int));
                        assert(inserted_filter_result(*types, mysql, *model, data_obj@, next, conds, Err(e)));
                    }
                    return Err(e);
                }
                generated = true;
                let c = equals(column, Expr::FunctionCall { name: String::from_str("LAST_INSERT_ID"), args: Vec::new() });
                assert(key_condition(c, *model, *field, None));
                c
            },
        };
        let ghost prev_outcomes = outcomes;
        let ghost prev_conds = conds;
        let ghost was_generated = generated;
        proof {
            outcomes = next;
            conds = conds.push(cond);
            assert(conds.drop_last() =~= prev_conds);
            assert(forall|j: int| 0 <= j < k ==> conds[j] == prev_conds[j]);
            assert forall|j: int| 0 <= j <= k implies #[trigger] insert_step_ok(*types, mysql, *model, data_obj@, outcomes, conds, j) by {
                if j < k {
                    assert(insert_step_ok(*types, mysql, *model, data_obj@, prev_outcomes, prev_conds, j));
                    assert(none_generated(outcomes, j) == none_generated(prev_outcomes, j));
                } else {
                    assert(none_generated(outcomes, k as int) == none_generated(prev_outcomes, k as int));
                }
            }
            if outcome matches Ok(None) {
                assert(outcomes[k as int] matches Ok(None));
                assert(!none_generated(outcomes, k + 1));
            } else {
                assert(none_generated(outcomes, k + 1) == none_generated(prev_outcomes, k as int));
            }
        }
        acc = Some(and_then(acc, cond, BinaryOp::And));
        k = k + 1;
    }
    match acc {
        Some(e) => {
            assert(inserted_filter_result(*types, mysql, *model, data_obj@, outcomes, conds, Ok(e)));
            Ok(e)
        },
        None => {
            let mut m = String::from_str("Model '");
            m.push_str(model.logical_name.as_str());
            m.push_str("' has no primary key to read a written row back by");
            let r = Err(ProtocolError::QueryPlanning(m));
            assert(inserted_filter_result(*types, mysql, *model, data_obj@, outcomes, conds, r));
            r
        },
    }
}

/// Whether the `j`-th key field of `row` was resolved for an update's
/// read-back: a value the update assigns (`outcome`), bound in `cond`, or,
/// without one, the value the row held before the update.
pub open spec fn update_step_ok(
    types: CompositeSupport,
    model: ModelIr,
    data: Seq<(String, crate::json::Json)>,
    row: Row,
    outcome: Result<Option<Value>, ProtocolError>,
    cond: Expr,
    j: int,
) -> bool {
    key_field(model, j) matches Some(field) && field_input_result(types, data, field, FieldInputMode::Update, outcome)
        && match outcome {
        Ok(Some(v)) => key_condition(cond, model, field, Some(v)),
        Ok(None) => row_get(row.columns@, qualified_name(model.db_name@, field.db_name@)) matches Some(w)
            && key_condition(cond, model, field, Some(w)),
        Err(_) => false,
    }
}

/// Whether the first `k` key fields of `row` were resolved, with inputs
/// `outs` and conditions `cs`.
pub open spec fn row_steps_ok(
    types: CompositeSupport,
    model: ModelIr,
    data: Seq<(String, crate::json::Json)>,
    row: Row,
    outs: Seq<Result<Option<Value>, ProtocolError>>,
    cs: Seq<Expr>,
    k: int,
) -> bool {
    &&& outs.len() >= k
    &&& cs.len() == k
    &&& forall|j: int| 0 <= j < k ==> #[trigger] update_step_ok(types, model, data, row, outs[j], cs[j], j)
}

/// Whether `r` is how resolving the `k`-th key field of `row` fails.
pub open spec fn update_step_refusal(
    types: CompositeSupport,
    model: ModelIr,
    data: Seq<(String, crate::json::Json)>,
    row: Row,
    outs: Seq<Result<Option<Value>, ProtocolError>>,
    k: int,
    r: Result<Option<Expr>, ProtocolError>,
) -> bool {
    match key_field(model, k) {
        None => r matches Err(ProtocolError::QueryPlanning(m)) && m@ == "Model '"@ + model.logical_name@
            + "' names unknown field '"@ + model.primary_key@[k]@ + "' in its primary key"@,
        Some(field) => k < outs.len() && field_input_result(types, data, field, FieldInputMode::Update, outs[k])
            && match outs[k] {
            Err(e) => r == Err::<Option<Expr>, ProtocolError>(e),
            Ok(None) => row_get(row.columns@, qualified_name(model.db_name@, field.db_name@)) is None && (r matches Err(
                ProtocolError::UnsupportedOperation(m),
            ) && m@ == unresolvable_message(model, field)),
            Ok(Some(_)) => false,
        },
    }
}

/// The predicate of each row: its key conditions joined by `AND`.
pub open spec fn row_predicates(conds: Seq<Seq<Expr>>) -> Seq<Expr> {
    conds.map_values(|c: Seq<Expr>| and_fold(c))
}

/// Whether `r` is the predicate an update's read-back uses, given the
/// inputs `outcomes` and conditions `conds` of the key fields of the rows
/// reached: each row's key conditions joined by `AND`, the rows joined by
/// `OR` (none when there is no row or no key), else the refusal of the first
/// key field that does not resolve.
pub open spec fn updated_filter_result(
    types: CompositeSupport,
    model: ModelIr,
    data: Seq<(String, crate::json::Json)>,
    rows: Seq<Row>,
    outcomes: Seq<Seq<Result<Option<Value>, ProtocolError>>>,
    conds: Seq<Seq<Expr>>,
    r: Result<Option<Expr>, ProtocolError>,
) -> bool {
    let m = conds.len();
    let n = model.primary_key@.len() as int;
    &&& outcomes.len() == m
    &&& m <= rows.len()
    &&& if m == rows.len() && (m == 0 || conds[m - 1].len() == n) {
        &&& forall|i: int|
            0 <= i < m ==> #[trigger] row_steps_ok(types, model, data, rows[i], outcomes[i], conds[i], n)
        &&& r == Ok::<Option<Expr>, ProtocolError>(
            if m == 0 || n == 0 {
                None
            } else {
                Some(or_fold(row_predicates(conds)))
            },
        )
    } else {
        &&& m >= 1
        &&& forall|i: int|
            0 <= i < m - 1 ==> #[trigger] row_steps_ok(types, model, data, rows[i], outcomes[i], conds[i], n)
        &&& conds[m - 1].len() < n
        &&& row_steps_ok(types, model, data, rows[m - 1], outcomes[m - 1], conds[m - 1], conds[m - 1].len() as int)
        &&& update_step_refusal(types, model, data, rows[m - 1], outcomes[m - 1], conds[m - 1].len() as int, r)
    }
}

/// The predicate matching the rows an `UPDATE` touched, keyed on the
/// primary-key values captured before it ran: a key field the update assigns
/// is matched by its new value, since the update moved the row.
pub fn updated_rows_filter(
    types: &CompositeSupport,
    model: &ModelIr,
    rows: &[Row],
    data_obj: &Vec<(String, crate::json::Json)>,
) -> (r: Result<Option<Expr>, ProtocolError>)
    ensures
        exists|outcomes: Seq<Seq<Result<Option<Value>, ProtocolError>>>, conds: Seq<Seq<Expr>>|
            updated_filter_result(*types, *model, data_obj@, rows@, outcomes, conds, r),
{
    let ghost n = model.primary_key@.len() as int;
    let ghost mut outcomes: Seq<Seq<Result<Option<Value>, ProtocolError>>> = Seq::empty();
    let ghost mut conds: Seq<Seq<Expr>> = Seq::empty();
    let mut per_row: Option<Expr> = None;
    let mut i: usize = 0;
    while i < rows.len()
        invariant
            n == model.primary_key@.len(),
            i <= rows@.len(),
            outcomes.len() == i,
            conds.len() == i,
            forall|x: int| 0 <= x < i ==> #[trigger] row_steps_ok(*types, *model, data_obj@, rows@[x], outcomes[x], conds[x], n),
            per_row == (if i == 0 || n == 0 { None } else { Some(or_fold(row_predicates(conds))) }),
        decreases rows@.len() - i,
    {
        let row = &rows[i];
        let ghost mut outs: Seq<Result<Option<Value>, ProtocolError>> = Seq::empty();
        let ghost mut cs: Seq<Expr> = Seq::empty();
        let mut acc: Option<Expr> = None;
        let mut k: usize = 0;
        while k < model.primary_key.len()
            invariant
                n == model.primary_key@.len(),
                i < rows@.len(),
                *row == rows@[i as int],
                k <= n,
                outcomes.len() == i,
                conds.len() == i,
                forall|x: int| 0 <= x < i ==> #[trigger] row_steps_ok(*types, *model, data_obj@, rows@[x], outcomes[x], conds[x], n),
                row_steps_ok(*types, *model, data_obj@, *row, outs, cs, k as int),
                outs.len() == k,
                acc == (if k == 0 { None } else { Some(and_fold(cs)) }),
            decreases n - k,
        {
            let field = match primary_key_field(model, model.primary_key[k].as_str()) {
                Ok(f) => f,
                Err(e) => {
                    proof {
                        let o2 = outcomes.push(outs);
                        let c2 = conds.push(cs);
                        assert(forall|x: int| 0 <= x < i ==> o2[x] == outcomes[x] && c2[x] == conds[x]);
                        assert(updated_filter_result(*types, *model, data_obj@, rows@, o2, c2, Err(e)));
                    }
                    return Err(e);
                },
            };
            assert(key_field(*model, k as int) == Some(*field));
            let input = field_input_value(types, data_obj, field, FieldInputMode::Update);
            let ghost outcome = input;
            let ghost next = outs.push(outcome);
            let value = match input {
                Ok(Some(assigned)) => assigned,
                Ok(None) => {
                    let column = qualified_name_of(model.db_name.as_str(), field.db_name.as_str());
                    match row.get(column.as_str()) {
                        Some(v) => clone_value(v),
                        None => {
                            let e = unresolvable_key(model, field);
                            proof {
                                let o2 = outcomes.push(next);
                                let c2 = conds.push(cs);
                                assert(forall|x: int| 0 <= x < i ==> o2[x] == outcomes[x] && c2[x] == conds[x]);
                                assert forall|j: int| 0 <= j < k implies #[trigger] update_step_ok(*types, *model, data_obj@, *row, next[j], cs[j], j) by {
                                    assert(next[j] == outs[j]);
                                    assert(update_step_ok(*types, *model, data_obj@, *row, outs[j], cs[j], j));
                                }
                                assert(updated_filter_result(*types, *model, data_obj@, rows@, o2, c2, Err(e)));
                            }
                            return Err(e);
                        },
                    }
                },
                Err(e) => {
                    proof {
                        let o2 = outcomes.push(next);
                        let c2 = conds.push(cs);
                        assert(forall|x: int| 0 <= x < i ==> o2[x] == outcomes[x] && c2[x] == conds[x]);
                        assert forall|j: int| 0 <= j < k implies #[trigger] update_step_ok(*types, *model, data_obj@, *row, next[j], cs[j], j) by {
                            assert(next[j] == outs[j]);
                            assert(update_step_ok(*types, *model, data_obj@, *row, outs[j], cs[j], j));
                        }
                        assert(updated_filter_result(*types, *model, data_obj@, rows@, o2, c2, Err(e)));
                    }
                    return Err(e);
                },
            };
            let ghost vv = value;
            let cond = equals(qualified_column(model, field), Expr::Param(value));
            assert(update_step_ok(*types, *model, data_obj@, *row, outcome, cond, k as int));
            let ghost prev_outs = outs;
            let ghost prev_cs = cs;
            proof {
                outs = next;
                cs = cs.push(cond);
                assert(cs.drop_last() =~= prev_cs);
                assert forall|j: int| 0 <= j <= k implies #[trigger] update_step_ok(*types, *model, data_obj@, *row, outs[j], cs[j], j) by {
                    if j < k {
                        assert(outs[j] == prev_outs[j] && cs[j] == prev_cs[j]);
                        assert(update_step_ok(*types, *model, data_obj@, *row, prev_outs[j], prev_cs[j], j));
                    }
                }
            }
            acc = Some(and_then(acc, cond, BinaryOp::And));
            k = k + 1;
        }
        let ghost prev_conds = conds;
        proof {
            outcomes = outcomes.push(outs);
            conds = conds.push(cs);
            assert(conds.drop_last() =~= prev_conds);
            assert(row_predicates(conds).drop_last() =~= row_predicates(prev_conds));
            assert forall|x: int| 0 <= x <= i implies #[trigger] row_steps_ok(*types, *model, data_obj@, rows@[x], outcomes[x], conds[x], n) by {
                if x < i {
                    assert(row_steps_ok(*types, *model, data_obj@, rows@[x], outcomes.drop_last()[x], prev_conds[x], n));
                }
            }
        }
        if let Some(predicate) = acc {
            per_row = Some(and_then(per_row, predicate, BinaryOp::Or));
        }
        i = i + 1;
    }
    proof {
        if i > 0 {
            let last = (i - 1) as int;
            assert(row_steps_ok(*types, *model, data_obj@, rows@[last], outcomes[last], conds[last], n));
            assert(conds[last].len() == n);
        }
        assert(updated_filter_result(*types, *model, data_obj@, rows@, outcomes, conds, Ok(per_row)));
    }
    Ok(per_row)
}

} // verus!
