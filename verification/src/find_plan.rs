//! The `SELECT` a find-many request runs: the projected columns, the filter
//! with the cursor's predicate, the ordering (flipped when reading
//! backward), and the window, which the engine applies itself when `distinct`
//! has to be honoured without `DISTINCT ON`.
use vstd::prelude::*;

use crate::args::{VectorMetric, VectorNearestQuery};
use crate::ast::{BinaryOp, ColumnMarker, Expr, Join, OrderBy, OrderByItem, OrderDir, PartitionWindow, Select, SelectItem, Value};
use crate::distinct::{fallback_run, DistinctFallback};
use crate::model::Row;
use crate::normalize::ValueHint;
use crate::grammar::{VECTOR_COSINE_DISTANCE_FUNCTION, VECTOR_INNER_PRODUCT_FUNCTION, VECTOR_L2_DISTANCE_FUNCTION};
use crate::model::{CompositeTypeIr, ModelIr};
use crate::naming::{db_column, db_column_for, qualified_name, qualified_name_of};
use crate::order_target::{answers_target, order_target, resolve_order_target, ResolvedOrderTarget, TargetView};
use crate::protocol::ProtocolError;
use crate::text::str_eq;

verus! {

/// The arguments of a find-many read once parsed: the filter (its columns
/// qualified), the cursor's predicate, the orderings, the window (`take` is
/// its size; `backward` says the caller asked with a negative one), the
/// projection, the `distinct` fields, the nearest-neighbour search, and,
/// where the rows are read for a relation, a window per partition and a
/// joined table with the hints its columns are decoded with.
pub struct FindArgs {
    pub filter: Option<Expr>,
    pub cursor: Option<Expr>,
    pub order_by: Vec<OrderBy>,
    pub take: Option<i32>,
    pub skip: Option<u32>,
    pub select: Vec<String>,
    pub distinct: Vec<String>,
    pub nearest: Option<VectorNearestQuery>,
    pub backward: bool,
    pub partition: Option<PartitionWindow>,
    pub join: Option<JoinedTable>,
}

/// A joined table: its clause, and the hint each of the columns it adds to
/// the projection is decoded with.
pub struct JoinedTable {
    pub clause: Join,
    pub hints: Vec<Option<ValueHint>>,
}

/// The statement a find-many read runs, the hint each projected column is
/// decoded with, whether its rows come back in reverse, and the
/// deduplication the engine applies to them itself.
pub struct FindManyPlan {
    pub select: Select,
    pub row_hints: Vec<Option<ValueHint>>,
    pub backward: bool,
    pub distinct: Option<DistinctFallback>,
}

/// `s` in reverse.
pub open spec fn reversed(s: Seq<Row>) -> Seq<Row> {
    Seq::new(s.len(), |i: int| s[s.len() - 1 - i])
}

/// The rows a read answers with once the statement ran: deduplicated and
/// windowed by the engine where the plan says so, and put back in the order
/// asked for when they were read backward.
pub open spec fn finished_rows(distinct: Option<DistinctFallback>, backward: bool, rows: Seq<Row>) -> Seq<Row> {
    let kept = match distinct {
        Some(d) => fallback_run(rows, d.columns@, d.skip, d.take).kept,
        None => rows,
    };
    if backward {
        reversed(kept)
    } else {
        kept
    }
}

/// Finish the rows a plan's statement returned, given the plan's
/// `distinct` and `backward`: apply the engine's own deduplication where
/// there is one, then reverse rows read backward.
pub fn finish_rows(distinct: &Option<DistinctFallback>, backward: bool, rows: Vec<Row>) -> (r: Vec<Row>)
    ensures
        r@ == finished_rows(*distinct, backward, rows@),
{
        let kept = match distinct {
            Some(d) => d.apply(rows),
            None => rows,
        };
        if !backward {
            return kept;
        }
        let ghost k0 = kept@;
        let mut rest = kept;
        let mut out: Vec<Row> = Vec::new();
        while rest.len() > 0
            invariant
                rest@ == k0.subrange(0, rest@.len() as int),
                out@.len() + rest@.len() == k0.len(),
                forall|j: int| 0 <= j < out@.len() ==> #[trigger] out@[j] == k0[k0.len() - 1 - j],
            decreases rest@.len(),
        {
            let ghost n = rest@.len();
            let x = rest.pop().unwrap();
            assert(x == k0[n - 1]);
            out.push(x);
            assert(rest@ =~= k0.subrange(0, rest@.len() as int));
        }
        assert(out@ =~= reversed(k0));
        out
}

/// Whether the scalar field `logical` is projected: everything without a
/// projection, else the fields named and the primary key.
pub open spec fn projected(select: Seq<String>, primary_key: Seq<(String, String)>, logical: Seq<char>) -> bool {
    select.len() == 0 || (exists|i: int| 0 <= i < select.len() && #[trigger] select[i]@ == logical) || (exists|i: int|
        0 <= i < primary_key.len() && #[trigger] primary_key[i].0@ == logical)
}

/// The columns projected among the first `n` scalar fields.
pub open spec fn projected_columns(
    columns: Seq<(String, ColumnMarker)>,
    select: Seq<String>,
    primary_key: Seq<(String, String)>,
    n: nat,
) -> Seq<ColumnMarker>
    decreases n,
{
    if n == 0 || n > columns.len() {
        Seq::empty()
    } else if projected(select, primary_key, columns[n - 1].0@) {
        projected_columns(columns, select, primary_key, (n - 1) as nat).push(columns[n - 1].1)
    } else {
        projected_columns(columns, select, primary_key, (n - 1) as nat)
    }
}

/// The hint of the `i`-th scalar field, `None` where none is given.
pub open spec fn hint_at(hints: Seq<Option<ValueHint>>, i: int) -> Option<ValueHint> {
    if 0 <= i < hints.len() {
        hints[i]
    } else {
        None
    }
}

/// The hints of the columns projected among the first `n` scalar fields.
pub open spec fn projected_hints(
    columns: Seq<(String, ColumnMarker)>,
    hints: Seq<Option<ValueHint>>,
    select: Seq<String>,
    primary_key: Seq<(String, String)>,
    n: nat,
) -> Seq<Option<ValueHint>>
    decreases n,
{
    if n == 0 || n > columns.len() {
        Seq::empty()
    } else if projected(select, primary_key, columns[n - 1].0@) {
        projected_hints(columns, hints, select, primary_key, (n - 1) as nat).push(hint_at(hints, n - 1))
    } else {
        projected_hints(columns, hints, select, primary_key, (n - 1) as nat)
    }
}

/// The direction an ordering runs in: reversed when reading backward.
pub open spec fn run_direction(d: OrderDir, backward: bool) -> OrderDir {
    if backward {
        match d {
            OrderDir::Asc => OrderDir::Desc,
            OrderDir::Desc => OrderDir::Asc,
        }
    } else {
        d
    }
}

/// Whether `column` is already among the orderings asked for.
pub open spec fn ordered_on(order_by: Seq<OrderBy>, column: Seq<char>) -> bool {
    exists|i: int| 0 <= i < order_by.len() && #[trigger] order_by[i].column@ == column
}

/// One ordering of the plan as mathematics sees it.
pub enum OrderView {
    Column(Seq<char>, OrderDir),
    Distance(Seq<char>, Seq<char>, Seq<u64>),
    Nested(TargetView, OrderDir),
}

/// The orderings, as column and direction, that keep `columns` not already
/// ordered on in a stable order, ascending (descending when reading
/// backward).
pub open spec fn tie_breakers(columns: Seq<Seq<char>>, order_by: Seq<OrderBy>, backward: bool) -> Seq<OrderView>
    decreases columns.len(),
{
    if columns.len() == 0 {
        Seq::empty()
    } else if ordered_on(order_by, columns.last()) {
        tie_breakers(columns.drop_last(), order_by, backward)
    } else {
        tie_breakers(columns.drop_last(), order_by, backward).push(
            OrderView::Column(columns.last(), run_direction(OrderDir::Asc, backward)),
        )
    }
}

/// The distance function of a metric.
pub open spec fn metric_function(m: VectorMetric) -> Seq<char> {
    match m {
        VectorMetric::L2 => VECTOR_L2_DISTANCE_FUNCTION@,
        VectorMetric::InnerProduct => VECTOR_INNER_PRODUCT_FUNCTION@,
        VectorMetric::Cosine => VECTOR_COSINE_DISTANCE_FUNCTION@,
    }
}

/// The orderings a request asks for, each resolved and run in its
/// direction, given that none is refused.
pub open spec fn asked_orders(
    composites: Seq<CompositeTypeIr>,
    model: ModelIr,
    logical_to_db: Seq<(String, String)>,
    order_by: Seq<OrderBy>,
    backward: bool,
) -> Seq<OrderView> {
    order_by.map_values(
        |o: OrderBy|
            match order_target(composites, model, logical_to_db, o.column@) {
                Ok(TargetView::Column(c)) => OrderView::Column(c, run_direction(o.direction, backward)),
                Ok(t) => OrderView::Nested(t, run_direction(o.direction, backward)),
                Err(_) => OrderView::Column(Seq::empty(), o.direction),
            },
    )
}

/// The orderings of the plan: the primary key's when paging by cursor, the
/// distance of a nearest-neighbour search, the `distinct` fields', then
/// those asked for.
pub open spec fn plan_orders(
    composites: Seq<CompositeTypeIr>,
    model: ModelIr,
    logical_to_db: Seq<(String, String)>,
    primary_key: Seq<(String, String)>,
    args: FindArgs,
) -> Seq<OrderView> {
    let ob = args.order_by@;
    (if args.cursor is Some {
        tie_breakers(primary_key.map_values(|p: (String, String)| p.1@), ob, args.backward)
    } else {
        Seq::empty()
    }) + (match args.nearest {
        Some(n) => seq![
            OrderView::Distance(
                metric_function(n.metric),
                qualified_name(model.db_name@, db_column(logical_to_db, n.field@)),
                n.query@,
            ),
        ],
        None => Seq::empty(),
    }) + tie_breakers(args.distinct@.map_values(|d: String| db_column(logical_to_db, d@)), ob, args.backward)
        + asked_orders(composites, model, logical_to_db, ob, args.backward)
}

/// Whether `a` is the column `c` and `b` binds the vector `q`.
pub open spec fn distance_args(a: Expr, b: Expr, c: Seq<char>, q: Seq<u64>) -> bool {
    &&& a matches Expr::Column(col)
    &&& col@ == c
    &&& b matches Expr::Param(Value::Vector(v))
    &&& v@ == q
}

/// Whether `item` projects the column `m`.
pub open spec fn same_column_item(item: SelectItem, m: ColumnMarker) -> bool {
    &&& item matches SelectItem::Column(x)
    &&& x.table@ == m.table@
    &&& x.name@ == m.name@
}

/// Whether the ordering `item` is the one `v` describes.
pub open spec fn order_matches(item: OrderByItem, v: OrderView) -> bool {
    match v {
        OrderView::Column(c, d) => item matches OrderByItem::Column(o) && o.column@ == c && o.direction == d,
        OrderView::Distance(f, c, q) => item matches OrderByItem::Expr(Expr::FunctionCall { name, args }, d)
            && d == OrderDir::Asc && name@ == f && args@.len() == 2 && distance_args(args@[0], args@[1], c, q),
        OrderView::Nested(t, d) => item matches OrderByItem::Expr(e, dd) && dd == d && answers_target(
            Ok(t),
            Ok(ResolvedOrderTarget::Expr(e)),
        ),
    }
}

/// The first ordering from `k` on whose target is refused.
pub open spec fn first_refused_order(
    composites: Seq<CompositeTypeIr>,
    model: ModelIr,
    logical_to_db: Seq<(String, String)>,
    order_by: Seq<OrderBy>,
    k: int,
) -> Option<int>
    decreases order_by.len() - k,
{
    if k < 0 || k >= order_by.len() {
        None
    } else if order_target(composites, model, logical_to_db, order_by[k].column@) is Err {
        Some(k)
    } else {
        first_refused_order(composites, model, logical_to_db, order_by, k + 1)
    }
}

/// Whether `plan` is the plan for `args`.
pub open spec fn plan_is(
    plan: FindManyPlan,
    composites: Seq<CompositeTypeIr>,
    model: ModelIr,
    logical_to_db: Seq<(String, String)>,
    columns: Seq<(String, ColumnMarker)>,
    hints: Seq<Option<ValueHint>>,
    primary_key: Seq<(String, String)>,
    distinct_on: bool,
    args: FindArgs,
) -> bool {
    let s = plan.select;
    let want = projected_columns(columns, args.select@, primary_key, columns.len());
    let orders = plan_orders(composites, model, logical_to_db, primary_key, args);
    let fallback = args.distinct@.len() > 0 && !distinct_on;
    &&& plan.backward == args.backward
    &&& s.table@ == model.db_name@
    &&& s.items@.len() == want.len()
    &&& forall|i: int|
        0 <= i < want.len() ==> same_column_item(#[trigger] s.items@[i], want[i])
    &&& s.filter == match (args.filter, args.cursor) {
        (f, None) => f,
        (None, Some(c)) => Some(c),
        (Some(f), Some(c)) => Some(Expr::Binary { left: Box::new(f), op: BinaryOp::And, right: Box::new(c) }),
    }
    &&& s.order_by_items@.len() == orders.len()
    &&& forall|i: int| 0 <= i < orders.len() ==> #[trigger] order_matches(s.order_by_items@[i], orders[i])
    &&& plan.row_hints@ == projected_hints(columns, hints, args.select@, primary_key, columns.len()) + match args.join {
        Some(j) => j.hints@,
        None => Seq::empty(),
    }
    &&& s.joins@ == match args.join {
        Some(j) => seq![j.clause],
        None => Seq::empty(),
    }
    &&& s.partition_window == args.partition
    &&& s.group_by@.len() == 0 && s.having is None && s.order_by@.len() == 0 && s.order_by_exprs@.len() == 0
    &&& (plan.distinct is Some <==> fallback)
    &&& if fallback {
        &&& s.take is None && s.skip is None && s.distinct@.len() == 0
        &&& plan.distinct matches Some(d) && d.take == args.take && d.skip == (match args.skip {
            Some(k) => k,
            None => 0u32,
        }) && d.columns@.len() == args.distinct@.len() && forall|i: int|
            0 <= i < args.distinct@.len() ==> (#[trigger] d.columns@[i])@ == qualified_name(
                model.db_name@,
                db_column(logical_to_db, args.distinct@[i]@),
            )
    } else {
        &&& s.take == args.take && s.skip == args.skip
        &&& s.distinct@.len() == args.distinct@.len()
        &&& forall|i: int|
            0 <= i < args.distinct@.len() ==> (#[trigger] s.distinct@[i])@ == db_column(
                logical_to_db,
                args.distinct@[i]@,
            )
    }
}

/// Whether the orderings `items` are the ones `views` describes.
pub open spec fn orders_match(items: Seq<OrderByItem>, views: Seq<OrderView>) -> bool {
    items.len() == views.len() && forall|i: int| 0 <= i < items.len() ==> #[trigger] order_matches(items[i], views[i])
}

proof fn lemma_orders_append(a: Seq<OrderByItem>, av: Seq<OrderView>, b: Seq<OrderByItem>, bv: Seq<OrderView>)
    requires
        orders_match(a, av),
        orders_match(b, bv),
    ensures
        orders_match(a + b, av + bv),
{
    assert forall|i: int| 0 <= i < (a + b).len() implies #[trigger] order_matches((a + b)[i], (av + bv)[i]) by {
        if i >= a.len() {
            assert(order_matches(b[i - a.len()], bv[i - a.len()]));
        } else {
            assert(order_matches(a[i], av[i]));
        }
    }
}

fn ordered_on_exec(order_by: &Vec<OrderBy>, column: &str) -> (r: bool)
    ensures
        r == ordered_on(order_by@, column@),
{
    let mut i: usize = 0;
    while i < order_by.len()
        invariant
            i <= order_by@.len(),
            forall|j: int| 0 <= j < i ==> order_by@[j].column@ != column@,
        decreases order_by@.len() - i,
    {
        if str_eq(order_by[i].column.as_str(), column) {
            return true;
        }
        i = i + 1;
    }
    false
}

fn tie_breaker_items(columns: &Vec<String>, order_by: &Vec<OrderBy>, backward: bool) -> (r: Vec<OrderByItem>)
    ensures
        orders_match(r@, tie_breakers(columns@.map_values(|c: String| c@), order_by@, backward)),
{
    let ghost cv = columns@.map_values(|c: String| c@);
    let dir = if backward {
        OrderDir::Desc
    } else {
        OrderDir::Asc
    };
    let mut out: Vec<OrderByItem> = Vec::new();
    let mut i: usize = 0;
    assert(cv.take(0) =~= Seq::<Seq<char>>::empty());
    while i < columns.len()
        invariant
            i <= columns@.len(),
            cv == columns@.map_values(|c: String| c@),
            dir == run_direction(OrderDir::Asc, backward),
            orders_match(out@, tie_breakers(cv.take(i as int), order_by@, backward)),
        decreases columns@.len() - i,
    {
        let ghost before = out@;
        assert(cv.take(i + 1).drop_last() =~= cv.take(i as int));
        assert(cv.take(i + 1).last() == columns@[i as int]@);
        if !ordered_on_exec(order_by, columns[i].as_str()) {
            out.push(OrderByItem::Column(OrderBy { column: String::from_str(columns[i].as_str()), direction: dir }));
            proof {
                let want = tie_breakers(cv.take(i + 1), order_by@, backward);
                assert forall|j: int| 0 <= j < out@.len() implies #[trigger] order_matches(out@[j], want[j]) by {
                    if j < before.len() {
                        assert(order_matches(before[j], tie_breakers(cv.take(i as int), order_by@, backward)[j]));
                    }
                }
            }
        }
        i = i + 1;
    }
    assert(cv.take(columns@.len() as int) =~= cv);
    out
}

fn is_projected(select: &Vec<String>, primary_key: &[(String, String)], logical: &str) -> (r: bool)
    ensures
        r == projected(select@, primary_key@, logical@),
{
    if select.len() == 0 {
        return true;
    }
    let mut i: usize = 0;
    while i < select.len()
        invariant
            i <= select@.len(),
            forall|j: int| 0 <= j < i ==> select@[j]@ != logical@,
        decreases select@.len() - i,
    {
        if str_eq(select[i].as_str(), logical) {
            assert(select@[i as int]@ == logical@);
            return true;
        }
        i = i + 1;
    }
    let mut k: usize = 0;
    while k < primary_key.len()
        invariant
            k <= primary_key@.len(),
            forall|j: int| 0 <= j < select@.len() ==> select@[j]@ != logical@,
            forall|j: int| 0 <= j < k ==> primary_key@[j].0@ != logical@,
        decreases primary_key@.len() - k,
    {
        if str_eq(primary_key[k].0.as_str(), logical) {
            assert(primary_key@[k as int].0@ == logical@);
            return true;
        }
        k = k + 1;
    }
    false
}

fn copy_marker(m: &ColumnMarker) -> (r: ColumnMarker)
    ensures
        r.table@ == m.table@,
        r.name@ == m.name@,
{
    ColumnMarker { table: String::from_str(m.table.as_str()), name: String::from_str(m.name.as_str()) }
}

fn distance_function(m: VectorMetric) -> (r: &'static str)
    ensures
        r@ == metric_function(m),
{
    match m {
        VectorMetric::L2 => VECTOR_L2_DISTANCE_FUNCTION,
        VectorMetric::InnerProduct => VECTOR_INNER_PRODUCT_FUNCTION,
        VectorMetric::Cosine => VECTOR_COSINE_DISTANCE_FUNCTION,
    }
}

/// Plan the `SELECT` of a find-many read over `model`: `columns` are its
/// scalar fields with their columns, `primary_key` its key fields (logical
/// and column names), `logical_to_db` its field-to-column map, and
/// `distinct_on` whether the dialect has `DISTINCT ON`. Without it a
/// non-empty `distinct` is honoured by the engine after the rows come back,
/// so the statement then carries no window of its own.
pub fn build_find_many_plan(
    composites: &[CompositeTypeIr],
    model: &ModelIr,
    logical_to_db: &[(String, String)],
    columns: &[(String, ColumnMarker)],
    hints: Vec<Option<ValueHint>>,
    primary_key: &[(String, String)],
    distinct_on: bool,
    args: FindArgs,
) -> (r: Result<FindManyPlan, ProtocolError>)
    ensures
        match first_refused_order(composites@, *model, logical_to_db@, args.order_by@, 0) {
            Some(k) => r matches Err(e) && answers_target(
                order_target(composites@, *model, logical_to_db@, args.order_by@[k].column@),
                Err(e),
            ),
            None => r matches Ok(plan) && plan_is(
                plan,
                composites@,
                *model,
                logical_to_db@,
                columns@,
                hints@,
                primary_key@,
                distinct_on,
                args,
            ),
        },
{
    let ghost a0 = args;
    let FindArgs { filter, cursor, order_by, take, skip, select, distinct, nearest, backward, partition, join } = args;
    let ghost hints0 = hints@;
    // the orderings asked for, resolved first so that a refusal comes before any work
    let mut asked: Vec<OrderByItem> = Vec::new();
    let mut k: usize = 0;
    while k < order_by.len()
        invariant
            k <= order_by@.len(),
            first_refused_order(composites@, *model, logical_to_db@, order_by@, 0) == first_refused_order(
                composites@,
                *model,
                logical_to_db@,
                order_by@,
                k as int,
            ),
            asked@.len() == k,
            a0.order_by@ == order_by@,
            a0 == args,
            a0.backward == backward,
            forall|j: int|
                0 <= j < k ==> #[trigger] order_matches(
                    asked@[j],
                    asked_orders(composites@, *model, logical_to_db@, order_by@, backward)[j],
                ),
        decreases order_by@.len() - k,
    {
        let dir = match (backward, order_by[k].direction) {
            (false, d) => d,
            (true, OrderDir::Asc) => OrderDir::Desc,
            (true, OrderDir::Desc) => OrderDir::Asc,
        };
        let target = resolve_order_target(composites, model, logical_to_db, order_by[k].column.as_str());
        let ghost t = order_target(composites@, *model, logical_to_db@, order_by@[k as int].column@);
        let ghost tg = target;
        assert(answers_target(t, tg));
        match target {
            Ok(ResolvedOrderTarget::Column(c)) => {
                asked.push(OrderByItem::Column(OrderBy { column: c, direction: dir }));
            },
            Ok(ResolvedOrderTarget::Expr(e)) => {
                asked.push(OrderByItem::Expr(e, dir));
            },
            Err(e) => {
                assert(tg == Err::<ResolvedOrderTarget, ProtocolError>(e));
                assert(t is Err);
                assert(first_refused_order(composites@, *model, logical_to_db@, order_by@, k as int) == Some(k as int));
                assert(answers_target(order_target(composites@, *model, logical_to_db@, a0.order_by@[k as int].column@), Err(e)));
                assert(first_refused_order(composites@, *model, logical_to_db@, a0.order_by@, 0) == Some(k as int));
                return Err(e);
            },
        }
        assert(asked_orders(composites@, *model, logical_to_db@, order_by@, backward)[k as int] == match t {
            Ok(TargetView::Column(c)) => OrderView::Column(c, run_direction(order_by@[k as int].direction, backward)),
            Ok(t2) => OrderView::Nested(t2, run_direction(order_by@[k as int].direction, backward)),
            Err(_) => OrderView::Column(Seq::empty(), order_by@[k as int].direction),
        });
        k = k + 1;
    }
    // the projected columns, with their hints
    let mut items: Vec<SelectItem> = Vec::new();
    let mut row_hints: Vec<Option<ValueHint>> = Vec::new();
    let mut hint_rest = hints;
    let mut i: usize = 0;
    while i < columns.len()
        invariant
            i <= columns@.len(),
            hint_rest@ == hints0.subrange(if i < hints0.len() { i as int } else { hints0.len() as int }, hints0.len() as int),
            row_hints@ == projected_hints(columns@, hints0, select@, primary_key@, i as nat),
            items@.len() == projected_columns(columns@, select@, primary_key@, i as nat).len(),
            forall|j: int|
                0 <= j < items@.len() ==> same_column_item(
                    #[trigger] items@[j],
                    projected_columns(columns@, select@, primary_key@, i as nat)[j],
                ),
        decreases columns@.len() - i,
    {
        let ghost before = items@;
        let h = if hint_rest.len() > 0 {
            hint_rest.remove(0)
        } else {
            None
        };
        assert(h == hint_at(hints0, i as int));
        if is_projected(&select, primary_key, columns[i].0.as_str()) {
            row_hints.push(h);
            items.push(SelectItem::Column(copy_marker(&columns[i].1)));
            proof {
                let want = projected_columns(columns@, select@, primary_key@, (i + 1) as nat);
                assert forall|j: int| 0 <= j < items@.len() implies same_column_item(#[trigger] items@[j], want[j]) by {
                    if j < before.len() {
                        assert(same_column_item(before[j], projected_columns(columns@, select@, primary_key@, i as nat)[j]));
                    }
                }
            }
        }
        i = i + 1;
    }
    // the orderings
    let mut orders: Vec<OrderByItem> = Vec::new();
    let ghost mut views: Seq<OrderView> = Seq::empty();
    if cursor.is_some() {
        let mut pk_names: Vec<String> = Vec::new();
        let mut p: usize = 0;
        while p < primary_key.len()
            invariant
                p <= primary_key@.len(),
                pk_names@.len() == p,
                forall|j: int| 0 <= j < p ==> (#[trigger] pk_names@[j])@ == primary_key@[j].1@,
            decreases primary_key@.len() - p,
        {
            pk_names.push(String::from_str(primary_key[p].1.as_str()));
            p = p + 1;
        }
        assert(pk_names@.map_values(|c: String| c@) =~= primary_key@.map_values(|x: (String, String)| x.1@));
        let mut pk_orders = tie_breaker_items(&pk_names, &order_by, backward);
        proof {
            lemma_orders_append(orders@, views, pk_orders@, tie_breakers(pk_names@.map_values(|c: String| c@), order_by@, backward));
            views = views + tie_breakers(pk_names@.map_values(|c: String| c@), order_by@, backward);
        }
        orders.append(&mut pk_orders);
    }
    match &nearest {
        Some(n) => {
            let column = qualified_name_of(model.db_name.as_str(), db_column_for(logical_to_db, n.field.as_str()).as_str());
            let mut query: Vec<u64> = Vec::new();
            let mut q: usize = 0;
            while q < n.query.len()
                invariant
                    q <= n.query@.len(),
                    query@ == n.query@.take(q as int),
                decreases n.query@.len() - q,
            {
                query.push(n.query[q]);
                assert(query@ =~= n.query@.take(q + 1));
                q = q + 1;
            }
            assert(n.query@.take(n.query@.len() as int) =~= n.query@);
            let mut fargs: Vec<Expr> = Vec::new();
            fargs.push(Expr::Column(column));
            fargs.push(Expr::Param(Value::Vector(query)));
            let item = OrderByItem::Expr(
                Expr::FunctionCall { name: String::from_str(distance_function(n.metric)), args: fargs },
                OrderDir::Asc,
            );
            let ghost v = OrderView::Distance(
                metric_function(n.metric),
                qualified_name(model.db_name@, db_column(logical_to_db@, n.field@)),
                n.query@,
            );
            assert(order_matches(item, v));
            let ghost before = orders@;
            orders.push(item);
            proof {
                lemma_orders_append(before, views, seq![item], seq![v]);
                assert(before + seq![item] =~= orders@);
                views = views + seq![v];
            }
        },
        None => {},
    }
    let mut distinct_db: Vec<String> = Vec::new();
    let mut d: usize = 0;
    while d < distinct.len()
        invariant
            d <= distinct@.len(),
            distinct_db@.len() == d,
            forall|j: int| 0 <= j < d ==> (#[trigger] distinct_db@[j])@ == db_column(logical_to_db@, distinct@[j]@),
        decreases distinct@.len() - d,
    {
        distinct_db.push(db_column_for(logical_to_db, distinct[d].as_str()));
        d = d + 1;
    }
    assert(distinct_db@.map_values(|c: String| c@) =~= distinct@.map_values(|x: String| db_column(logical_to_db@, x@)));
    let mut distinct_orders = tie_breaker_items(&distinct_db, &order_by, backward);
    proof {
        lemma_orders_append(orders@, views, distinct_orders@, tie_breakers(distinct_db@.map_values(|c: String| c@), order_by@, backward));
        views = views + tie_breakers(distinct_db@.map_values(|c: String| c@), order_by@, backward);
    }
    orders.append(&mut distinct_orders);
    proof {
        let av = asked_orders(composites@, *model, logical_to_db@, order_by@, backward);
        assert(orders_match(asked@, av));
        lemma_orders_append(orders@, views, asked@, av);
        views = views + av;
    }
    orders.append(&mut asked);
    assert(views =~= plan_orders(composites@, *model, logical_to_db@, primary_key@, a0));
    // the filter with the cursor's predicate
    let combined = match (filter, cursor) {
        (f, None) => f,
        (None, Some(c)) => Some(c),
        (Some(f), Some(c)) => Some(Expr::Binary { left: Box::new(f), op: BinaryOp::And, right: Box::new(c) }),
    };
    // the window, or the deduplication that stands in for DISTINCT ON
    let fallback = distinct.len() > 0 && !distinct_on;
    let (fallback_plan, take_s, skip_s, distinct_s) = if fallback {
        let mut cols: Vec<String> = Vec::new();
        let mut c: usize = 0;
        while c < distinct_db.len()
            invariant
                c <= distinct_db@.len(),
                distinct_db@.len() == distinct@.len(),
                forall|j: int| 0 <= j < distinct_db@.len() ==> #[trigger] distinct_db@[j]@ == db_column(logical_to_db@, distinct@[j]@),
                cols@.len() == c,
                forall|j: int|
                    0 <= j < c ==> (#[trigger] cols@[j])@ == qualified_name(model.db_name@, db_column(logical_to_db@, distinct@[j]@)),
            decreases distinct_db@.len() - c,
        {
            cols.push(qualified_name_of(model.db_name.as_str(), distinct_db[c].as_str()));
            c = c + 1;
        }
        let sk = match skip {
            Some(x) => x,
            None => 0u32,
        };
        (Some(DistinctFallback { columns: cols, skip: sk, take }), None, None, Vec::new())
    } else {
        (None, take, skip, distinct_db)
    };
    let mut joins: Vec<Join> = Vec::new();
    match join {
        Some(JoinedTable { clause, hints: mut joined_hints }) => {
            row_hints.append(&mut joined_hints);
            joins.push(clause);
        },
        None => {},
    }
    let sel = Select {
        table: String::from_str(model.db_name.as_str()),
        items,
        joins,
        filter: combined,
        group_by: Vec::new(),
        having: None,
        order_by: Vec::new(),
        order_by_exprs: Vec::new(),
        order_by_items: orders,
        take: take_s,
        skip: skip_s,
        distinct: distinct_s,
        partition_window: partition,
    };
    Ok(FindManyPlan { select: sel, row_hints, backward, distinct: fallback_plan })
}

/// A nearest-neighbour read orders, ascending, by the distance function its
/// metric names: `l2_distance` for L2, `inner_product` for the inner product
/// and `cosine_distance` for cosine, between the vector field's column and
/// the query vector.
pub proof fn lemma_nearest_orders_by_its_metric(
    plan: FindManyPlan,
    composites: Seq<CompositeTypeIr>,
    model: ModelIr,
    logical_to_db: Seq<(String, String)>,
    columns: Seq<(String, ColumnMarker)>,
    hints: Seq<Option<ValueHint>>,
    primary_key: Seq<(String, String)>,
    distinct_on: bool,
    args: FindArgs,
)
    requires
        plan_is(plan, composites, model, logical_to_db, columns, hints, primary_key, distinct_on, args),
        args.nearest is Some,
    ensures
        exists|i: int|
            0 <= i < plan.select.order_by_items@.len() && (#[trigger] plan.select.order_by_items@[i] matches OrderByItem::Expr(
                Expr::FunctionCall { name, args: fargs },
                dir,
            ) && dir == OrderDir::Asc && fargs@.len() == 2 && (fargs@[0] matches Expr::Column(c) && c@ == qualified_name(
                model.db_name@,
                db_column(logical_to_db, args.nearest->0.field@),
            )) && (fargs@[1] matches Expr::Param(Value::Vector(q)) && q@ == args.nearest->0.query@) && name@ == match args.nearest->0.metric {
                VectorMetric::L2 => "l2_distance"@,
                VectorMetric::InnerProduct => "inner_product"@,
                VectorMetric::Cosine => "cosine_distance"@,
            }),
{
    reveal_strlit("l2_distance");
    reveal_strlit("inner_product");
    reveal_strlit("cosine_distance");
    let ob = args.order_by@;
    let pre = if args.cursor is Some {
        tie_breakers(primary_key.map_values(|p: (String, String)| p.1@), ob, args.backward)
    } else {
        Seq::empty()
    };
    let orders = plan_orders(composites, model, logical_to_db, primary_key, args);
    let i = pre.len() as int;
    let n = args.nearest->0;
    assert(orders[i] == OrderView::Distance(
        metric_function(n.metric),
        qualified_name(model.db_name@, db_column(logical_to_db, n.field@)),
        n.query@,
    ));
    assert(order_matches(plan.select.order_by_items@[i], orders[i]));
}

} // verus!

