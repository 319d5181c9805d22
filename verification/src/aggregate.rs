//! Aggregates and grouping: the fields an aggregate reads, the grouped
//! columns of a `groupBy`, the aggregate items a request selects, the grouped
//! SELECT, and the nested shape of a grouped result row.
use vstd::prelude::*;

use crate::ast::{ColumnMarker, Expr, OrderBy, OrderDir, Select, SelectItem, Value};
use crate::grouping::GroupByOrderItem;
use crate::hydrate::{object_insert, plain_json, plain_view};
use crate::json::{deep_entries, JsonView};
use crate::model::Row;
use crate::naming::unqualified;
use crate::ordered::map_insert;
use crate::json::Json;
use crate::model::{aggregate_column, json_get, json_get_ref, scalar_fields, ModelIr};
use crate::naming::{db_column, db_column_for, qualified_name};
use crate::protocol::{count_all_item, ProtocolError};

verus! {

/// The keys of the members whose value is `true`, in member order.
pub open spec fn flagged_keys(entries: Seq<(String, Json)>) -> Seq<Seq<char>>
    decreases entries.len(),
{
    if entries.len() == 0 {
        Seq::empty()
    } else if entries.last().1 == Json::Bool(true) {
        flagged_keys(entries.drop_last()).push(entries.last().0@)
    } else {
        flagged_keys(entries.drop_last())
    }
}

/// The fields an aggregate reads: every stored field for `true`, the fields
/// flagged `true` for an object, none otherwise.
pub open spec fn agg_fields(model: ModelIr, value: Json) -> Seq<Seq<char>> {
    match value {
        Json::Bool(true) => scalar_fields(model.fields@).map_values(|f: crate::model::FieldIr| f.logical_name@),
        Json::Object(entries) => flagged_keys(entries@),
        _ => Seq::empty(),
    }
}

/// The logical names of the fields an aggregate reads.
pub fn collect_agg_fields(model: &ModelIr, value: &Json) -> (r: Vec<String>)
    ensures
        r@.map_values(|s: String| s@) == agg_fields(*model, *value),
{
    let mut out: Vec<String> = Vec::new();
    match value {
        Json::Bool(true) => {
            let mut i: usize = 0;
            while i < model.fields.len()
                invariant
                    i <= model.fields@.len(),
                    out@.map_values(|s: String| s@) == scalar_fields(model.fields@.take(i as int)).map_values(
                        |f: crate::model::FieldIr| f.logical_name@,
                    ),
                decreases model.fields@.len() - i,
            {
                assert(model.fields@.take(i + 1).drop_last() =~= model.fields@.take(i as int));
                assert(model.fields@.take(i + 1).last() == model.fields@[i as int]);
                let ghost before = out@;
                let field = &model.fields[i];
                if !field.is_relation() {
                    out.push(String::from_str(field.logical_name.as_str()));
                    assert(out@.map_values(|s: String| s@) =~= before.map_values(|s: String| s@).push(
                        field.logical_name@,
                    ));
                } else {
                    assert(out@ == before);
                }
                i = i + 1;
                assert(scalar_fields(model.fields@.take(i as int)).map_values(|f: crate::model::FieldIr| f.logical_name@)
                    =~= if field.field_type is Relation {
                    scalar_fields(model.fields@.take(i - 1)).map_values(|f: crate::model::FieldIr| f.logical_name@)
                } else {
                    scalar_fields(model.fields@.take(i - 1)).map_values(|f: crate::model::FieldIr| f.logical_name@).push(
                        field.logical_name@,
                    )
                });
            }
            assert(model.fields@.take(model.fields@.len() as int) =~= model.fields@);
        },
        Json::Object(entries) => {
            let mut i: usize = 0;
            while i < entries.len()
                invariant
                    i <= entries@.len(),
                    out@.map_values(|s: String| s@) == flagged_keys(entries@.take(i as int)),
                decreases entries@.len() - i,
            {
                assert(entries@.take(i + 1).drop_last() =~= entries@.take(i as int));
                assert(entries@.take(i + 1).last() == entries@[i as int]);
                let ghost before = out@;
                let (field, flag) = &entries[i];
                if matches!(flag, Json::Bool(true)) {
                    out.push(String::from_str(field.as_str()));
                    assert(out@.map_values(|s: String| s@) =~= before.map_values(|s: String| s@).push(
                        field@,
                    ));
                } else {
                    assert(out@ == before);
                }
                i = i + 1;
            }
            assert(entries@.take(entries@.len() as int) =~= entries@);
        },
        _ => {
            assert(out@.map_values(|s: String| s@) =~= Seq::<Seq<char>>::empty());
        },
    }
    out
}

/// The member `key` of the request arguments, when they are an object.
pub open spec fn arg_get(args: Option<Json>, key: Seq<char>) -> Option<Json> {
    match args {
        Some(Json::Object(entries)) => json_get(entries@, key),
        _ => None,
    }
}

fn arg_ref<'a>(args: Option<&'a Json>, key: &str) -> (r: Option<&'a Json>)
    ensures
        match r {
            Some(v) => arg_get(match args { Some(a) => Some(*a), None => None }, key@) == Some(*v),
            None => arg_get(match args { Some(a) => Some(*a), None => None }, key@) is None,
        },
{
    match args {
        Some(Json::Object(entries)) => json_get_ref(entries, key),
        _ => None,
    }
}

/// The strings among `items`, in order.
pub open spec fn string_items(items: Seq<Json>) -> Seq<Seq<char>>
    decreases items.len(),
{
    if items.len() == 0 {
        Seq::empty()
    } else {
        match items.last() {
            Json::String(s) => string_items(items.drop_last()).push(s@),
            _ => string_items(items.drop_last()),
        }
    }
}

/// The grouped fields a `groupBy` names: the strings of its `by` array.
pub open spec fn by_names(args: Option<Json>) -> Seq<Seq<char>> {
    match arg_get(args, "by"@) {
        Some(Json::Array(items)) => string_items(items@),
        _ => Seq::empty(),
    }
}

/// The fields a `groupBy` groups by; at least one is required.
pub fn parse_by_fields(args: Option<&Json>) -> (r: Result<Vec<String>, ProtocolError>)
    ensures
        by_names(match args { Some(a) => Some(*a), None => None }).len() > 0 ==> (r matches Ok(v)
            && v@.map_values(|s: String| s@) == by_names(match args { Some(a) => Some(*a), None => None })),
        by_names(match args { Some(a) => Some(*a), None => None }).len() == 0 ==> (r matches Err(
            ProtocolError::InvalidParams(m),
        ) && m@ == "groupBy requires at least one field in `by`"@),
{
    let ghost a = match args {
        Some(a) => Some(*a),
        None => None,
    };
    let mut out: Vec<String> = Vec::new();
    if let Some(Json::Array(items)) = arg_ref(args, "by") {
        let mut i: usize = 0;
        while i < items.len()
            invariant
                i <= items@.len(),
                out@.map_values(|s: String| s@) == string_items(items@.take(i as int)),
            decreases items@.len() - i,
        {
            assert(items@.take(i + 1).drop_last() =~= items@.take(i as int));
            assert(items@.take(i + 1).last() == items@[i as int]);
            let ghost before = out@;
            if let Json::String(s) = &items[i] {
                out.push(String::from_str(s.as_str()));
                assert(out@.map_values(|s: String| s@) =~= before.map_values(|s: String| s@).push(s@));
            } else {
                assert(out@ == before);
            }
            i = i + 1;
        }
        assert(items@.take(items@.len() as int) =~= items@);
    } else {
        assert(out@.map_values(|s: String| s@) =~= Seq::<Seq<char>>::empty());
    }
    if out.len() == 0 {
        return Err(
            ProtocolError::InvalidParams(String::from_str("groupBy requires at least one field in `by`")),
        );
    }
    Ok(out)
}

/// An aggregate item as mathematics sees it: `COUNT(*)`, or a function over
/// a column under an alias.
pub enum AggItemView {
    CountAll,
    Over { alias: Seq<char>, function: Seq<char>, column: Seq<char> },
}

/// Whether `item` is the aggregate `view` describes.
pub open spec fn item_is(item: (String, Expr), view: AggItemView) -> bool {
    match view {
        AggItemView::CountAll => item.0@ == "_count___all"@ && (item.1 matches Expr::FunctionCall {
            name,
            args,
        } && name@ == "COUNT"@ && args@.len() == 1 && args@[0] is Star),
        AggItemView::Over { alias, function, column } => item.0@ == alias && (item.1 matches Expr::FunctionCall {
            name,
            args,
        } && name@ == function && args@.len() == 1 && (args@[0] matches Expr::Column(c) && c@ == column)),
    }
}

/// The column an aggregate over the logical `field` reads.
pub open spec fn agg_column(model: ModelIr, logical_to_db: Seq<(String, String)>, field: Seq<char>) -> Seq<char> {
    qualified_name(model.db_name@, db_column(logical_to_db, field))
}

/// The counts an object of `count` flags asks for, in member order: `_all`
/// counts rows, any other field counts its non-null values.
pub open spec fn count_entry_views(entries: Seq<(String, Json)>, model: ModelIr, logical_to_db: Seq<(String, String)>) -> Seq<AggItemView>
    decreases entries.len(),
{
    if entries.len() == 0 {
        Seq::empty()
    } else {
        let prev = count_entry_views(entries.drop_last(), model, logical_to_db);
        let field = entries.last().0@;
        if entries.last().1 != Json::Bool(true) {
            prev
        } else if field == "_all"@ {
            prev.push(AggItemView::CountAll)
        } else {
            prev.push(
                AggItemView::Over {
                    alias: "_count__"@ + field,
                    function: "COUNT"@,
                    column: agg_column(model, logical_to_db, field),
                },
            )
        }
    }
}

/// The counts the `count` argument asks for.
pub open spec fn count_views(model: ModelIr, logical_to_db: Seq<(String, String)>, count: Option<Json>) -> Seq<AggItemView> {
    match count {
        Some(Json::Bool(true)) => seq![AggItemView::CountAll],
        Some(Json::Object(entries)) => count_entry_views(entries@, model, logical_to_db),
        _ => Seq::empty(),
    }
}

/// The alias of an aggregate: `_<key>_<field>`.
pub open spec fn alias_view(key: Seq<char>, field: Seq<char>) -> Seq<char> {
    seq!['_'] + key + seq!['_'] + field
}

/// The aggregate `function` over each of `fields`, aliased `_<key>_<field>`.
pub open spec fn function_views(
    fields: Seq<Seq<char>>,
    key: Seq<char>,
    function: Seq<char>,
    model: ModelIr,
    logical_to_db: Seq<(String, String)>,
) -> Seq<AggItemView> {
    fields.map_values(
        |f: Seq<char>|
            AggItemView::Over {
                alias: alias_view(key, f),
                function,
                column: agg_column(model, logical_to_db, f),
            },
    )
}

/// The aggregates the argument `key` asks for with `function`.
pub open spec fn keyed_views(
    model: ModelIr,
    logical_to_db: Seq<(String, String)>,
    args: Option<Json>,
    key: Seq<char>,
    function: Seq<char>,
) -> Seq<AggItemView> {
    match arg_get(args, key) {
        Some(v) => function_views(agg_fields(model, v), key, function, model, logical_to_db),
        None => Seq::empty(),
    }
}

/// Every aggregate a request asks for: its counts, then its averages, sums,
/// minima and maxima.
pub open spec fn aggregate_views(model: ModelIr, args: Option<Json>, logical_to_db: Seq<(String, String)>) -> Seq<AggItemView> {
    count_views(model, logical_to_db, arg_get(args, "count"@)) + keyed_views(
        model,
        logical_to_db,
        args,
        "avg"@,
        "AVG"@,
    ) + keyed_views(model, logical_to_db, args, "sum"@, "SUM"@) + keyed_views(
        model,
        logical_to_db,
        args,
        "min"@,
        "MIN"@,
    ) + keyed_views(model, logical_to_db, args, "max"@, "MAX"@)
}

/// Whether `items` are, one for one, the aggregates `views` describe.
pub open spec fn items_match(items: Seq<(String, Expr)>, views: Seq<AggItemView>) -> bool {
    items.len() == views.len() && forall|k: int| 0 <= k < items.len() ==> item_is(#[trigger] items[k], views[k])
}

fn function_item(function: &str, alias: String, column: Expr) -> (r: (String, Expr))
    ensures
        r.0 == alias,
        r.1 matches Expr::FunctionCall { name, args } && name@ == function@ && args@.len() == 1
            && args@[0] == column,
{
    let mut args: Vec<Expr> = Vec::new();
    args.push(column);
    (alias, Expr::FunctionCall { name: String::from_str(function), args })
}

fn push_keyed_items(
    items: &mut Vec<(String, Expr)>,
    model: &ModelIr,
    args: Option<&Json>,
    logical_to_db: &[(String, String)],
    key: &str,
    function: &str,
    Ghost(prefix): Ghost<Seq<AggItemView>>,
)
    requires
        items_match(old(items)@, prefix),
    ensures
        items_match(
            final(items)@,
            prefix + keyed_views(
                *model,
                logical_to_db@,
                match args { Some(a) => Some(*a), None => None },
                key@,
                function@,
            ),
        ),
{
    let ghost a = match args {
        Some(a) => Some(*a),
        None => None,
    };
    let ghost start = items@;
    let ghost views = keyed_views(*model, logical_to_db@, a, key@, function@);
    match arg_ref(args, key) {
        Some(value) => {
            let fields = collect_agg_fields(model, value);
            let ghost names = fields@.map_values(|s: String| s@);
            assert(names.len() == fields@.len());
            let mut i: usize = 0;
            while i < fields.len()
                invariant
                    i <= fields@.len(),
                    names == fields@.map_values(|s: String| s@),
                    names == agg_fields(*model, *value),
                    views == function_views(names, key@, function@, *model, logical_to_db@),
                    items_match(start, prefix),
                    items@.len() == start.len() + i,
                    forall|k: int| 0 <= k < start.len() ==> #[trigger] items@[k] == start[k],
                    forall|k: int| 0 <= k < i ==> item_is(#[trigger] items@[start.len() + k], views[k]),
                decreases fields@.len() - i,
            {
                let field = fields[i].as_str();
                let mut alias = String::from_str("_");
                alias.push_str(key);
                alias.push_str("_");
                alias.push_str(field);
                let column = aggregate_column(model, logical_to_db, field);
                proof {
                    reveal_strlit("_");
                }
                assert(alias@ =~= alias_view(key@, field@));
                let item = function_item(function, alias, column);
                assert(names[i as int] == field@);
                assert(alias_view(key@, field@) == item.0@);
                assert(views[i as int] == AggItemView::Over {
                    alias: alias_view(key@, field@),
                    function: function@,
                    column: agg_column(*model, logical_to_db@, field@),
                });
                assert(item_is(item, views[i as int]));
                items.push(item);
                assert(items@[start.len() + i] == item);
                i = i + 1;
            }
            assert forall|k: int| 0 <= k < items@.len() implies item_is(#[trigger] items@[k], (prefix + views)[k]) by {
                if k >= start.len() {
                    assert(items@[start.len() + (k - start.len())] == items@[k]);
                }
            }
        },
        None => {
            assert(views =~= Seq::<AggItemView>::empty());
            assert(prefix + views =~= prefix);
        },
    }
}

/// Build the `(alias, expression)` pair of every aggregate a request asks
/// for. Aliases carry the aggregate's kind (`_count__`, `_avg_`, ...) so the
/// result columns can be folded back into nested objects.
pub fn build_aggregate_items(model: &ModelIr, args: Option<&Json>, logical_to_db: &[(String, String)]) -> (r: Vec<(String, Expr)>)
    ensures
        items_match(r@, aggregate_views(*model, match args { Some(a) => Some(*a), None => None }, logical_to_db@)),
{
    let ghost a = match args {
        Some(a) => Some(*a),
        None => None,
    };
    let mut items: Vec<(String, Expr)> = Vec::new();
    let ghost counts = count_views(*model, logical_to_db@, arg_get(a, "count"@));
    match arg_ref(args, "count") {
        Some(Json::Bool(true)) => {
            items.push(count_all_item());
        },
        Some(Json::Object(entries)) => {
            let mut i: usize = 0;
            while i < entries.len()
                invariant
                    i <= entries@.len(),
                    items@.len() == count_entry_views(entries@.take(i as int), *model, logical_to_db@).len(),
                    forall|k: int|
                        0 <= k < items@.len() ==> item_is(
                            #[trigger] items@[k],
                            count_entry_views(entries@.take(i as int), *model, logical_to_db@)[k],
                        ),
                decreases entries@.len() - i,
            {
                assert(entries@.take(i + 1).drop_last() =~= entries@.take(i as int));
                let (field, flag) = &entries[i];
                if matches!(flag, Json::Bool(true)) {
                    if crate::text::str_eq(field.as_str(), "_all") {
                        items.push(count_all_item());
                    } else {
                        let mut alias = String::from_str("_count__");
                        alias.push_str(field.as_str());
                        let column = aggregate_column(model, logical_to_db, field.as_str());
                        items.push(function_item("COUNT", alias, column));
                    }
                }
                i = i + 1;
            }
            assert(entries@.take(entries@.len() as int) =~= entries@);
        },
        _ => {},
    }
    assert(items_match(items@, counts));
    let ghost v1 = counts + keyed_views(*model, logical_to_db@, a, "avg"@, "AVG"@);
    push_keyed_items(&mut items, model, args, logical_to_db, "avg", "AVG", Ghost(counts));
    let ghost v2 = v1 + keyed_views(*model, logical_to_db@, a, "sum"@, "SUM"@);
    push_keyed_items(&mut items, model, args, logical_to_db, "sum", "SUM", Ghost(v1));
    let ghost v3 = v2 + keyed_views(*model, logical_to_db@, a, "min"@, "MIN"@);
    push_keyed_items(&mut items, model, args, logical_to_db, "min", "MIN", Ghost(v2));
    push_keyed_items(&mut items, model, args, logical_to_db, "max", "MAX", Ghost(v3));
    items
}

/// What a grouped SELECT is built from.
pub struct GroupBySelect<'a> {
    pub model: &'a ModelIr,
    pub logical_to_db: &'a [(String, String)],
    /// The logical names of the grouped fields.
    pub by_fields: &'a [String],
    pub aggregate_items: Vec<(String, Expr)>,
    pub filter: Option<Expr>,
    pub having: Option<Expr>,
    pub orders: Vec<GroupByOrderItem>,
    pub take: Option<i32>,
    pub skip: Option<u32>,
}

/// Whether `m` is the column of the grouped logical field `field`.
pub open spec fn grouped_marker(model: ModelIr, logical_to_db: Seq<(String, String)>, field: Seq<char>, m: ColumnMarker) -> bool {
    m.table@ == model.db_name@ && m.name@ == db_column(logical_to_db, field)
}

/// The column orderings among `orders`, in order.
pub open spec fn column_orders(orders: Seq<GroupByOrderItem>) -> Seq<OrderBy>
    decreases orders.len(),
{
    if orders.len() == 0 {
        Seq::empty()
    } else {
        match orders.last() {
            GroupByOrderItem::Column(o) => column_orders(orders.drop_last()).push(o),
            _ => column_orders(orders.drop_last()),
        }
    }
}

/// The expression orderings among `orders`, in order.
pub open spec fn expr_orders(orders: Seq<GroupByOrderItem>) -> Seq<(Expr, OrderDir)>
    decreases orders.len(),
{
    if orders.len() == 0 {
        Seq::empty()
    } else {
        match orders.last() {
            GroupByOrderItem::Expr(e, d) => expr_orders(orders.drop_last()).push((e, d)),
            _ => expr_orders(orders.drop_last()),
        }
    }
}

/// Build the grouped SELECT: the grouped columns, each selected and grouped
/// by, then the aggregates under their aliases; the filter, the `HAVING`
/// condition, the orderings (columns, then aggregate expressions) and the
/// paging as given.
pub fn build_group_by_select(spec: GroupBySelect) -> (r: Select)
    ensures
        r.table@ == spec.model.db_name@,
        r.items@.len() == spec.by_fields@.len() + spec.aggregate_items@.len(),
        forall|k: int|
            0 <= k < spec.by_fields@.len() ==> (#[trigger] r.items@[k] matches SelectItem::Column(m)
                && grouped_marker(*spec.model, spec.logical_to_db@, spec.by_fields@[k]@, m)),
        forall|k: int|
            0 <= k < spec.aggregate_items@.len() ==> #[trigger] r.items@[spec.by_fields@.len() + k]
                == (SelectItem::Computed {
                expr: spec.aggregate_items@[k].1,
                alias: spec.aggregate_items@[k].0,
            }),
        r.group_by@.len() == spec.by_fields@.len(),
        forall|k: int|
            0 <= k < spec.by_fields@.len() ==> grouped_marker(
                *spec.model,
                spec.logical_to_db@,
                spec.by_fields@[k]@,
                #[trigger] r.group_by@[k],
            ),
        r.filter == spec.filter,
        r.having == spec.having,
        r.order_by@ == column_orders(spec.orders@),
        r.order_by_exprs@ == expr_orders(spec.orders@),
        r.take == spec.take,
        r.skip == spec.skip,
        r.joins@.len() == 0,
        r.order_by_items@.len() == 0,
        r.distinct@.len() == 0,
        (r.partition_window is None),
{
    let GroupBySelect {
        model,
        logical_to_db,
        by_fields,
        aggregate_items,
        filter,
        having,
        orders,
        take,
        skip,
    } = spec;
    let mut items: Vec<SelectItem> = Vec::new();
    let mut group_by: Vec<ColumnMarker> = Vec::new();
    let mut i: usize = 0;
    while i < by_fields.len()
        invariant
            i <= by_fields@.len(),
            items@.len() == i,
            group_by@.len() == i,
            forall|k: int|
                0 <= k < i ==> (#[trigger] items@[k] matches SelectItem::Column(m) && grouped_marker(
                    *model,
                    logical_to_db@,
                    by_fields@[k]@,
                    m,
                )),
            forall|k: int|
                0 <= k < i ==> grouped_marker(*model, logical_to_db@, by_fields@[k]@, #[trigger] group_by@[k]),
        decreases by_fields@.len() - i,
    {
        let item = SelectItem::Column(
            ColumnMarker {
                table: String::from_str(model.db_name.as_str()),
                name: db_column_for(logical_to_db, by_fields[i].as_str()),
            },
        );
        let marker = ColumnMarker {
            table: String::from_str(model.db_name.as_str()),
            name: db_column_for(logical_to_db, by_fields[i].as_str()),
        };
        items.push(item);
        group_by.push(marker);
        assert(items@[i as int] == item);
        i = i + 1;
    }
    let ghost aggs = aggregate_items@;
    let mut rest = aggregate_items;
    let total = rest.len();
    let mut j: usize = 0;
    while rest.len() > 0
        invariant
            j <= aggs.len(),
            aggs.len() == total,
            rest@ == aggs.subrange(j as int, aggs.len() as int),
            items@.len() == by_fields@.len() + j,
            forall|k: int|
                0 <= k < by_fields@.len() ==> (#[trigger] items@[k] matches SelectItem::Column(m) && grouped_marker(
                    *model,
                    logical_to_db@,
                    by_fields@[k]@,
                    m,
                )),
            forall|k: int|
                0 <= k < j ==> #[trigger] items@[by_fields@.len() + k] == (SelectItem::Computed {
                    expr: aggs[k].1,
                    alias: aggs[k].0,
                }),
        decreases rest@.len(),
    {
        let (alias, expr) = rest.remove(0);
        let item = SelectItem::Computed { expr, alias };
        items.push(item);
        assert(items@[by_fields@.len() + j] == item);
        j = j + 1;
    }
    let ghost all_orders = orders@;
    let mut pending = orders;
    let order_count = pending.len();
    let mut order_by: Vec<OrderBy> = Vec::new();
    let mut order_by_exprs: Vec<(Expr, OrderDir)> = Vec::new();
    let mut n: usize = 0;
    while pending.len() > 0
        invariant
            n <= all_orders.len(),
            all_orders.len() == order_count,
            pending@ == all_orders.subrange(n as int, all_orders.len() as int),
            order_by@ == column_orders(all_orders.take(n as int)),
            order_by_exprs@ == expr_orders(all_orders.take(n as int)),
        decreases pending@.len(),
    {
        assert(all_orders.take(n + 1).drop_last() =~= all_orders.take(n as int));
        assert(all_orders.take(n + 1).last() == all_orders[n as int]);
        let order = pending.remove(0);
        match order {
            GroupByOrderItem::Column(o) => order_by.push(o),
            GroupByOrderItem::Expr(e, d) => order_by_exprs.push((e, d)),
        }
        n = n + 1;
    }
    assert(all_orders.take(all_orders.len() as int) =~= all_orders);
    Select {
        table: String::from_str(model.db_name.as_str()),
        items,
        joins: Vec::new(),
        filter,
        group_by,
        having,
        order_by,
        order_by_exprs,
        order_by_items: Vec::new(),
        take,
        skip,
        distinct: Vec::new(),
        partition_window: None,
    }
}

/// The rest of `s` after the prefix `p`, if `s` starts with it.
pub open spec fn strip_prefix(s: Seq<char>, p: Seq<char>) -> Option<Seq<char>> {
    if p.len() <= s.len() && s.subrange(0, p.len() as int) == p {
        Some(s.subrange(p.len() as int, s.len() as int))
    } else {
        None
    }
}

/// Which aggregate object a result column belongs to, and its key there:
/// `_count__*` columns to the counts, then `_avg_*`, `_sum_*`, `_min_*` and
/// `_max_*` to the averages, sums, minima and maxima.
pub open spec fn aggregate_bucket(name: Seq<char>) -> Option<(int, Seq<char>)> {
    match strip_prefix(name, "_count__"@) {
        Some(rest) => Some((0, rest)),
        None => match strip_prefix(name, "_avg_"@) {
            Some(rest) => Some((1, rest)),
            None => match strip_prefix(name, "_sum_"@) {
                Some(rest) => Some((2, rest)),
                None => match strip_prefix(name, "_min_"@) {
                    Some(rest) => Some((3, rest)),
                    None => match strip_prefix(name, "_max_"@) {
                        Some(rest) => Some((4, rest)),
                        None => None,
                    },
                },
            },
        },
    }
}

/// The name of the nested object an aggregate kind is reported under.
pub open spec fn bucket_key(b: int) -> Seq<char> {
    if b == 0 {
        "_count"@
    } else if b == 1 {
        "_avg"@
    } else if b == 2 {
        "_sum"@
    } else if b == 3 {
        "_min"@
    } else {
        "_max"@
    }
}

/// The members of the nested object of aggregate kind `b`: each of its
/// columns under the rest of its name, as a JSON object keeps them.
pub open spec fn bucket_members(columns: Seq<(String, Value)>, b: int) -> Seq<(Seq<char>, JsonView)>
    decreases columns.len(),
{
    if columns.len() == 0 {
        Seq::empty()
    } else {
        let prev = bucket_members(columns.drop_last(), b);
        match aggregate_bucket(columns.last().0@) {
            Some((c, rest)) => if c == b {
                map_insert(prev, rest, plain_view(columns.last().1))
            } else {
                prev
            },
            None => prev,
        }
    }
}

/// The columns that are not aggregates, in order.
pub open spec fn kept_columns(columns: Seq<(String, Value)>) -> Seq<(String, Value)>
    decreases columns.len(),
{
    if columns.len() == 0 {
        Seq::empty()
    } else if aggregate_bucket(columns.last().0@) is Some {
        kept_columns(columns.drop_last())
    } else {
        kept_columns(columns.drop_last()).push(columns.last())
    }
}

/// The name a grouped column is reported under: the logical name of the
/// column after its `table__` qualifier.
pub open spec fn grouped_name(name: Seq<char>, db_to_logical: Seq<(String, String)>) -> Seq<char> {
    db_column(db_to_logical, unqualified(name))
}

/// The nested aggregate objects from kind `b` on that have members.
pub open spec fn nested_objects(columns: Seq<(String, Value)>, b: int) -> Seq<(Seq<char>, Seq<(Seq<char>, JsonView)>)>
    decreases 5 - b,
{
    if b >= 5 {
        Seq::empty()
    } else {
        let members = bucket_members(columns, b);
        let rest = nested_objects(columns, b + 1);
        if members.len() > 0 {
            seq![(bucket_key(b), members)] + rest
        } else {
            rest
        }
    }
}

fn strip_prefix_of<'a>(s: &'a str, p: &str) -> (r: Option<&'a str>)
    ensures
        match r {
            Some(rest) => strip_prefix(s@, p@) == Some(rest@),
            None => strip_prefix(s@, p@) is None,
        },
{
    let n = s.unicode_len();
    let m = p.unicode_len();
    if m > n {
        return None;
    }
    let mut i: usize = 0;
    while i < m
        invariant
            i <= m,
            m <= n,
            n == s@.len(),
            m == p@.len(),
            forall|k: int| 0 <= k < i ==> s@[k] == p@[k],
        decreases m - i,
    {
        if s.get_char(i) != p.get_char(i) {
            assert(s@.subrange(0, m as int)[i as int] != p@[i as int]);
            return None;
        }
        i = i + 1;
    }
    assert(s@.subrange(0, m as int) =~= p@);
    Some(s.substring_char(m, n))
}

/// Fold the flat aggregate columns of a grouped result row into the nested
/// shape clients read: the grouped columns keep their values under their
/// logical names, and the `_count__*`, `_avg_*`, `_sum_*`, `_min_*` and
/// `_max_*` columns become the objects `_count`, `_avg`, `_sum`, `_min` and
/// `_max`, appended in that order when they have members.
pub fn shape_group_row(row: Row, db_to_logical: &[(String, String)]) -> (r: Row)
    ensures
        r.columns@.len() == kept_columns(row.columns@).len() + nested_objects(row.columns@, 0).len(),
        forall|k: int|
            0 <= k < kept_columns(row.columns@).len() ==> (#[trigger] r.columns@[k]).0@ == grouped_name(
                kept_columns(row.columns@)[k].0@,
                db_to_logical@,
            ) && r.columns@[k].1 == kept_columns(row.columns@)[k].1,
        forall|k: int|
            0 <= k < nested_objects(row.columns@, 0).len() ==> (#[trigger] r.columns@[kept_columns(
                row.columns@,
            ).len() + k]).0@ == nested_objects(row.columns@, 0)[k].0 && (r.columns@[kept_columns(
                row.columns@,
            ).len() + k].1 matches Value::Json(j) && j.deep() == JsonView::Object(
                nested_objects(row.columns@, 0)[k].1,
            )),
{
    let ghost cols = row.columns@;
    let mut pending = row.columns;
    let total = pending.len();
    let mut shaped: Vec<(String, Value)> = Vec::new();
    let mut counts: Vec<(String, Json)> = Vec::new();
    let mut avgs: Vec<(String, Json)> = Vec::new();
    let mut sums: Vec<(String, Json)> = Vec::new();
    let mut mins: Vec<(String, Json)> = Vec::new();
    let mut maxs: Vec<(String, Json)> = Vec::new();
    let mut i: usize = 0;
    while pending.len() > 0
        invariant
            i <= cols.len(),
            cols.len() == total,
            pending@ == cols.subrange(i as int, cols.len() as int),
            shaped@.len() == kept_columns(cols.take(i as int)).len(),
            forall|k: int|
                0 <= k < shaped@.len() ==> (#[trigger] shaped@[k]).0@ == grouped_name(
                    kept_columns(cols.take(i as int))[k].0@,
                    db_to_logical@,
                ) && shaped@[k].1 == kept_columns(cols.take(i as int))[k].1,
            deep_entries(counts@) == bucket_members(cols.take(i as int), 0),
            deep_entries(avgs@) == bucket_members(cols.take(i as int), 1),
            deep_entries(sums@) == bucket_members(cols.take(i as int), 2),
            deep_entries(mins@) == bucket_members(cols.take(i as int), 3),
            deep_entries(maxs@) == bucket_members(cols.take(i as int), 4),
        decreases pending@.len(),
    {
        assert(cols.take(i + 1).drop_last() =~= cols.take(i as int));
        assert(cols.take(i + 1).last() == cols[i as int]);
        let (name, value) = pending.remove(0);
        assert((name, value) == cols[i as int]);
        if let Some(rest) = strip_prefix_of(name.as_str(), "_count__") {
            object_insert(&mut counts, rest, plain_json(&value));
        } else if let Some(rest) = strip_prefix_of(name.as_str(), "_avg_") {
            object_insert(&mut avgs, rest, plain_json(&value));
        } else if let Some(rest) = strip_prefix_of(name.as_str(), "_sum_") {
            object_insert(&mut sums, rest, plain_json(&value));
        } else if let Some(rest) = strip_prefix_of(name.as_str(), "_min_") {
            object_insert(&mut mins, rest, plain_json(&value));
        } else if let Some(rest) = strip_prefix_of(name.as_str(), "_max_") {
            object_insert(&mut maxs, rest, plain_json(&value));
        } else {
            let ghost before = shaped@;
            let key = db_column_for(db_to_logical, crate::naming::strip_order_qualifier(name.as_str()));
            shaped.push((key, value));
            assert(shaped@.drop_last() == before);
        }
        i = i + 1;
    }
    assert(cols.take(cols.len() as int) =~= cols);
    let ghost kept_len = shaped@.len();
    proof {
        reveal_with_fuel(nested_objects, 6);
    }
    let mut b: usize = 0;
    let mut objects: Vec<Vec<(String, Json)>> = Vec::new();
    objects.push(counts);
    objects.push(avgs);
    objects.push(sums);
    objects.push(mins);
    objects.push(maxs);
    let keys: [&str; 5] = ["_count", "_avg", "_sum", "_min", "_max"];
    proof {
        reveal_strlit("_count");
        reveal_strlit("_avg");
        reveal_strlit("_sum");
        reveal_strlit("_min");
        reveal_strlit("_max");
    }
    while objects.len() > 0
        invariant
            b <= 5,
            objects@.len() == 5 - b,
            forall|x: int| 0 <= x < objects@.len() ==> deep_entries(#[trigger] objects@[x]@) == bucket_members(cols, b + x),
            forall|x: int| 0 <= x < 5 ==> (#[trigger] keys@[x])@ == bucket_key(x),
            shaped@.len() == kept_len + nested_objects(cols, 0).len() - nested_objects(cols, b as int).len(),
            nested_objects(cols, 0).len() >= nested_objects(cols, b as int).len(),
            forall|k: int|
                0 <= k < kept_len ==> (#[trigger] shaped@[k]).0@ == grouped_name(kept_columns(cols)[k].0@, db_to_logical@)
                    && shaped@[k].1 == kept_columns(cols)[k].1,
            kept_len == kept_columns(cols).len(),
            forall|k: int|
                kept_len <= k < shaped@.len() ==> (#[trigger] shaped@[k]).0@ == nested_objects(cols, 0)[k - kept_len].0
                    && (shaped@[k].1 matches Value::Json(j) && j.deep() == JsonView::Object(
                    nested_objects(cols, 0)[k - kept_len].1,
                )),
            forall|k: int|
                0 <= k < nested_objects(cols, b as int).len() ==> nested_objects(cols, 0)[shaped@.len() - kept_len + k]
                    == #[trigger] nested_objects(cols, b as int)[k],
        decreases objects@.len(),
    {
        let obj = objects.remove(0);
        assert(deep_entries(obj@) == bucket_members(cols, b as int));
        proof {
            crate::json::lemma_deep_entries_len(obj@);
        }
        let ghost nb = nested_objects(cols, b as int);
        let ghost nb1 = nested_objects(cols, b + 1);
        let ghost off = shaped@.len() - kept_len;
        let ghost before = shaped@;
        if obj.len() > 0 {
            assert(nb == seq![(bucket_key(b as int), bucket_members(cols, b as int))] + nb1);
            assert(nb[0] == (bucket_key(b as int), bucket_members(cols, b as int)));
            assert(nested_objects(cols, 0)[off + 0] == nb[0]);
            let v = Value::Json(Json::Object(obj));
            shaped.push((String::from_str(keys[b]), v));
            assert forall|k: int| 0 <= k < nb1.len() implies nested_objects(cols, 0)[shaped@.len() - kept_len + k]
                == #[trigger] nb1[k] by {
                assert(nb[k + 1] == nb1[k]);
                assert(nested_objects(cols, 0)[off + (k + 1)] == nb[k + 1]);
            }
            assert forall|k: int| kept_len <= k < shaped@.len() implies (#[trigger] shaped@[k]).0@ == nested_objects(cols, 0)[k - kept_len].0
                && (shaped@[k].1 matches Value::Json(j) && j.deep() == JsonView::Object(
                nested_objects(cols, 0)[k - kept_len].1,
            )) by {
                if k < shaped@.len() - 1 {
                    assert(shaped@[k] == before[k]);
                }
            }
        } else {
            assert(nb == nb1);
        }
        b = b + 1;
    }
    Row { columns: shaped }
}

/// Whether `item`, when its alias begins with `prefix`, is a call of
/// `function` over the column of the field the rest of its alias names.
pub open spec fn calls_for_prefix(
    item: (String, Expr),
    prefix: Seq<char>,
    function: Seq<char>,
    model: ModelIr,
    logical_to_db: Seq<(String, String)>,
) -> bool {
    prefix.is_prefix_of(item.0@) ==> (item.1 matches Expr::FunctionCall { name, args } && name@ == function
        && args@.len() == 1 && (args@[0] matches Expr::Column(c) && c@ == agg_column(
        model,
        logical_to_db,
        item.0@.subrange(prefix.len() as int, item.0@.len() as int),
    )))
}

/// Whether `v` is an aggregate over some field under the alias `_<key>_<field>`.
pub open spec fn keyed_shape(v: AggItemView, key: Seq<char>, function: Seq<char>, model: ModelIr, logical_to_db: Seq<(String, String)>) -> bool {
    exists|f: Seq<char>|
        v == AggItemView::Over { alias: #[trigger] alias_view(key, f), function, column: agg_column(model, logical_to_db, f) }
}

/// Whether `v` is a count: of rows, or under an alias beginning `_c`.
pub open spec fn count_shape(v: AggItemView) -> bool {
    match v {
        AggItemView::CountAll => true,
        AggItemView::Over { alias, .. } => alias.len() >= 2 && alias[0] == '_' && alias[1] == 'c',
    }
}

proof fn lemma_count_entries_shape(entries: Seq<(String, Json)>, model: ModelIr, logical_to_db: Seq<(String, String)>)
    ensures
        forall|k: int| 0 <= k < count_entry_views(entries, model, logical_to_db).len() ==> count_shape(
            #[trigger] count_entry_views(entries, model, logical_to_db)[k],
        ),
    decreases entries.len(),
{
    reveal_strlit("_count__");
    if entries.len() > 0 {
        lemma_count_entries_shape(entries.drop_last(), model, logical_to_db);
        let prev = count_entry_views(entries.drop_last(), model, logical_to_db);
        let field = entries.last().0@;
        let a = "_count__"@ + field;
        assert(a[0] == '_' && a[1] == 'c');
        let all = count_entry_views(entries, model, logical_to_db);
        assert forall|k: int| 0 <= k < all.len() implies count_shape(#[trigger] all[k]) by {
            if k < prev.len() {
                assert(all[k] == prev[k]);
            }
        }
    }
}

proof fn lemma_prefix_chars(p: Seq<char>, a: Seq<char>)
    requires
        p.is_prefix_of(a),
        p.len() == 5,
    ensures
        a.len() >= 5,
        a[0] == p[0] && a[1] == p[1] && a[2] == p[2] && a[3] == p[3] && a[4] == p[4],
        a.subrange(0, 5) =~= p,
{
    assert(a.subrange(0, 5)[0] == a[0]);
}

proof fn lemma_item_calls(
    item: (String, Expr),
    v: AggItemView,
    model: ModelIr,
    logical_to_db: Seq<(String, String)>,
)
    requires
        item_is(item, v),
        count_shape(v) || keyed_shape(v, "avg"@, "AVG"@, model, logical_to_db) || keyed_shape(
            v,
            "sum"@,
            "SUM"@,
            model,
            logical_to_db,
        ) || keyed_shape(v, "min"@, "MIN"@, model, logical_to_db) || keyed_shape(v, "max"@, "MAX"@, model, logical_to_db),
    ensures
        calls_for_prefix(item, "_min_"@, "MIN"@, model, logical_to_db),
        calls_for_prefix(item, "_max_"@, "MAX"@, model, logical_to_db),
        calls_for_prefix(item, "_avg_"@, "AVG"@, model, logical_to_db),
        calls_for_prefix(item, "_sum_"@, "SUM"@, model, logical_to_db),
{
    reveal_strlit("_min_");
    reveal_strlit("_max_");
    reveal_strlit("_avg_");
    reveal_strlit("_sum_");
    reveal_strlit("min");
    reveal_strlit("max");
    reveal_strlit("avg");
    reveal_strlit("sum");
    reveal_strlit("_count___all");
    let a = item.0@;
    if "_min_"@.is_prefix_of(a) {
        lemma_prefix_chars("_min_"@, a);
    }
    if "_max_"@.is_prefix_of(a) {
        lemma_prefix_chars("_max_"@, a);
    }
    if "_avg_"@.is_prefix_of(a) {
        lemma_prefix_chars("_avg_"@, a);
    }
    if "_sum_"@.is_prefix_of(a) {
        lemma_prefix_chars("_sum_"@, a);
    }
    if count_shape(v) {
        if v is CountAll {
            assert(a == "_count___all"@);
        }
        assert(a.len() >= 2 && a[1] == 'c');
    } else {
        let (key, function) = if keyed_shape(v, "avg"@, "AVG"@, model, logical_to_db) {
            ("avg"@, "AVG"@)
        } else if keyed_shape(v, "sum"@, "SUM"@, model, logical_to_db) {
            ("sum"@, "SUM"@)
        } else if keyed_shape(v, "min"@, "MIN"@, model, logical_to_db) {
            ("min"@, "MIN"@)
        } else {
            ("max"@, "MAX"@)
        };
        let f = choose|f: Seq<char>|
            v == AggItemView::Over { alias: #[trigger] alias_view(key, f), function, column: agg_column(model, logical_to_db, f) };
        assert(a == alias_view(key, f));
        assert(key.len() == 3);
        assert(a.len() == 5 + f.len());
        assert(a[1] == key[0] && a[2] == key[1]);
        assert(a.subrange(5, a.len() as int) =~= f);
    }
}

/// The argument key fixes the SQL aggregate: in the items an aggregate
/// request builds, one whose alias begins `_min_` is `MIN`, `_max_` is
/// `MAX`, `_avg_` is `AVG` and `_sum_` is `SUM`, each over the column of
/// the field the rest of its alias names.
pub proof fn lemma_aggregate_items_follow_their_keys(
    model: ModelIr,
    args: Option<Json>,
    logical_to_db: Seq<(String, String)>,
    items: Seq<(String, Expr)>,
)
    requires
        items_match(items, aggregate_views(model, args, logical_to_db)),
    ensures
        forall|k: int|
            0 <= k < items.len() ==> calls_for_prefix(#[trigger] items[k], "_min_"@, "MIN"@, model, logical_to_db)
                && calls_for_prefix(items[k], "_max_"@, "MAX"@, model, logical_to_db) && calls_for_prefix(
                items[k],
                "_avg_"@,
                "AVG"@,
                model,
                logical_to_db,
            ) && calls_for_prefix(items[k], "_sum_"@, "SUM"@, model, logical_to_db),
{
    let c = count_views(model, logical_to_db, arg_get(args, "count"@));
    let va = keyed_views(model, logical_to_db, args, "avg"@, "AVG"@);
    let vs = keyed_views(model, logical_to_db, args, "sum"@, "SUM"@);
    let vi = keyed_views(model, logical_to_db, args, "min"@, "MIN"@);
    let vx = keyed_views(model, logical_to_db, args, "max"@, "MAX"@);
    let views = aggregate_views(model, args, logical_to_db);
    assert(views == c + va + vs + vi + vx);
    match arg_get(args, "count"@) {
        Some(Json::Object(entries)) => lemma_count_entries_shape(entries@, model, logical_to_db),
        _ => {},
    }
    assert forall|k: int| 0 <= k < items.len() implies calls_for_prefix(#[trigger] items[k], "_min_"@, "MIN"@, model, logical_to_db)
        && calls_for_prefix(items[k], "_max_"@, "MAX"@, model, logical_to_db) && calls_for_prefix(
        items[k],
        "_avg_"@,
        "AVG"@,
        model,
        logical_to_db,
    ) && calls_for_prefix(items[k], "_sum_"@, "SUM"@, model, logical_to_db) by {
        let v = views[k];
        assert(item_is(items[k], v));
        let n1 = c.len() as int;
        let n2 = n1 + va.len();
        let n3 = n2 + vs.len();
        let n4 = n3 + vi.len();
        if k < n1 {
            assert(v == c[k]);
            assert(count_shape(v));
        } else if k < n2 {
            assert(v == va[k - n1]);
            let f = match arg_get(args, "avg"@) { Some(x) => agg_fields(model, x)[k - n1], None => Seq::empty() };
            assert(v == AggItemView::Over { alias: alias_view("avg"@, f), function: "AVG"@, column: agg_column(model, logical_to_db, f) });
            assert(keyed_shape(v, "avg"@, "AVG"@, model, logical_to_db));
        } else if k < n3 {
            assert(v == vs[k - n2]);
            let f = match arg_get(args, "sum"@) { Some(x) => agg_fields(model, x)[k - n2], None => Seq::empty() };
            assert(v == AggItemView::Over { alias: alias_view("sum"@, f), function: "SUM"@, column: agg_column(model, logical_to_db, f) });
            assert(keyed_shape(v, "sum"@, "SUM"@, model, logical_to_db));
        } else if k < n4 {
            assert(v == vi[k - n3]);
            let f = match arg_get(args, "min"@) { Some(x) => agg_fields(model, x)[k - n3], None => Seq::empty() };
            assert(v == AggItemView::Over { alias: alias_view("min"@, f), function: "MIN"@, column: agg_column(model, logical_to_db, f) });
            assert(keyed_shape(v, "min"@, "MIN"@, model, logical_to_db));
        } else {
            assert(v == vx[k - n4]);
            let f = match arg_get(args, "max"@) { Some(x) => agg_fields(model, x)[k - n4], None => Seq::empty() };
            assert(v == AggItemView::Over { alias: alias_view("max"@, f), function: "MAX"@, column: agg_column(model, logical_to_db, f) });
            assert(keyed_shape(v, "max"@, "MAX"@, model, logical_to_db));
        }
        lemma_item_calls(items[k], v, model, logical_to_db);
    }
}

} // verus!

