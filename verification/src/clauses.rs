//! Clause fragments every dialect writes the same way and that bind nothing.
//!
//! They write identifiers and keywords only, so they need the SQL buffer and
//! the dialect's quote character, not a render context or an expression
//! renderer.
use vstd::prelude::*;

use crate::ast::{ColumnMarker, Join, OrderBy, OrderDir, PartitionWindow, Select, SelectItem};
use crate::ident::{
    column_alias, decimal, identifier_reference, push_column_alias, push_identifier_reference,
    push_qualified_identifier, push_quoted_identifier, push_u32, push_u64, qualified_identifier,
    quoted_identifier, WINDOW_ROW_NUMBER_ALIAS, WINDOW_SUBQUERY_ALIAS,
};

verus! {

/// `parts` written one after another with `sep` between neighbours.
pub open spec fn joined(parts: Seq<Seq<char>>, sep: Seq<char>) -> Seq<char>
    decreases parts.len(),
{
    if parts.len() == 0 {
        Seq::empty()
    } else if parts.len() == 1 {
        parts[0]
    } else {
        joined(parts.drop_last(), sep) + sep + parts.last()
    }
}

/// Growing a joined list by its next part.
pub proof fn lemma_joined_take(parts: Seq<Seq<char>>, sep: Seq<char>, i: int)
    requires
        0 <= i < parts.len(),
    ensures
        joined(parts.take(i + 1), sep) == joined(parts.take(i), sep) + (if i > 0 {
            sep
        } else {
            Seq::empty()
        }) + parts[i],
{
    assert(parts.take(i + 1).drop_last() =~= parts.take(i));
    if i == 0 {
        assert(joined(parts.take(0), sep) =~= Seq::<char>::empty());
        assert(Seq::<char>::empty() + Seq::<char>::empty() + parts[0] =~= parts[0]);
    }
}

/// `table.column AS table__column`.
pub open spec fn aliased_column(col: ColumnMarker, quote: char) -> Seq<char> {
    qualified_identifier(col.table@, col.name@, quote) + " AS "@ + column_alias(
        col.table@,
        col.name@,
        quote,
    )
}

/// The quoted unqualified names of `columns`.
pub open spec fn column_name_parts(columns: Seq<ColumnMarker>, quote: char) -> Seq<Seq<char>> {
    columns.map_values(|c: ColumnMarker| quoted_identifier(c.name@, quote))
}

/// The rendered references of `names`.
pub open spec fn identifier_reference_parts(names: Seq<String>, quote: char) -> Seq<Seq<char>> {
    names.map_values(|n: String| identifier_reference(n@, quote))
}

/// The qualified references of `columns`.
pub open spec fn qualified_parts(columns: Seq<ColumnMarker>, quote: char) -> Seq<Seq<char>> {
    columns.map_values(|c: ColumnMarker| qualified_identifier(c.table@, c.name@, quote))
}

/// The aliased projections of `columns`.
pub open spec fn aliased_parts(columns: Seq<ColumnMarker>, quote: char) -> Seq<Seq<char>> {
    columns.map_values(|c: ColumnMarker| aliased_column(c, quote))
}

/// The `DISTINCT` prefix of a select list.
pub open spec fn distinct_sql(distinct: Seq<String>, distinct_on: bool, quote: char) -> Seq<char> {
    if distinct.len() == 0 {
        Seq::empty()
    } else if distinct_on {
        "DISTINCT ON ("@ + joined(identifier_reference_parts(distinct, quote), ", "@) + ") "@
    } else {
        "DISTINCT "@
    }
}

/// The ` GROUP BY` clause.
pub open spec fn group_by_sql(group_by: Seq<ColumnMarker>, quote: char) -> Seq<char> {
    if group_by.len() == 0 {
        Seq::empty()
    } else {
        " GROUP BY "@ + joined(qualified_parts(group_by, quote), ", "@)
    }
}

/// ` ASC` or ` DESC`.
pub open spec fn direction_sql(dir: OrderDir) -> Seq<char> {
    match dir {
        OrderDir::Asc => " ASC"@,
        OrderDir::Desc => " DESC"@,
    }
}

/// One column entry of an `ORDER BY` list.
pub open spec fn column_order_sql(order: OrderBy, quote: char) -> Seq<char> {
    identifier_reference(order.column@, quote) + direction_sql(order.direction)
}

/// The ` RETURNING` clause.
pub open spec fn returning_sql(returning: Seq<ColumnMarker>, quote: char) -> Seq<char> {
    if returning.len() == 0 {
        Seq::empty()
    } else {
        " RETURNING "@ + joined(aliased_parts(returning, quote), ", "@)
    }
}

/// The magnitude of `take`.
pub open spec fn take_magnitude(take: i32) -> nat {
    if take < 0 {
        (-take) as nat
    } else {
        take as nat
    }
}

/// The `LIMIT` and `OFFSET` of a statement.
pub open spec fn limit_offset_sql(take: Option<i32>, skip: Option<u32>, sentinel: Seq<char>) -> Seq<
    char,
> {
    let limit = match take {
        Some(t) => " LIMIT "@ + decimal(take_magnitude(t)),
        None => if skip is Some && sentinel.len() > 0 {
            " LIMIT "@ + sentinel
        } else {
            Seq::empty()
        },
    };
    let offset = match skip {
        Some(s) => " OFFSET "@ + decimal(s as nat),
        None => Seq::empty(),
    };
    limit + offset
}

/// The items the joins of a select add to its projection, in join order.
pub open spec fn join_items(joins: Seq<Join>) -> Seq<SelectItem>
    decreases joins.len(),
{
    if joins.len() == 0 {
        Seq::empty()
    } else {
        join_items(joins.drop_last()) + joins.last().items@
    }
}

/// How the outer query of a partition window names one inner item.
pub open spec fn window_item_name(item: SelectItem, quote: char) -> Seq<char> {
    match item {
        SelectItem::Column(col) => column_alias(col.table@, col.name@, quote),
        SelectItem::Computed { alias, .. } => quoted_identifier(alias@, quote),
    }
}

/// The outer projection of a partition-window subquery.
pub open spec fn window_projection_sql(select: Select, quote: char) -> Seq<char> {
    let items = select.items@ + join_items(select.joins@);
    if items.len() == 0 {
        seq!['*']
    } else {
        joined(items.map_values(|it: SelectItem| window_item_name(it, quote)), ", "@)
    }
}

/// The close of a partition-window subquery with its row-number bounds.
pub open spec fn window_bounds_sql(window: PartitionWindow, quote: char) -> Seq<char> {
    let rn = quoted_identifier(WINDOW_ROW_NUMBER_ALIAS@, quote);
    let lower = if window.skip > 0 {
        " WHERE "@ + rn + " > "@ + decimal(window.skip as nat)
    } else {
        Seq::empty()
    };
    let upper = match window.take {
        Some(t) => (if window.skip > 0 {
            " AND "@
        } else {
            " WHERE "@
        }) + rn + " <= "@ + decimal(window.skip as nat + t as nat),
        None => Seq::empty(),
    };
    ") AS "@ + quoted_identifier(WINDOW_SUBQUERY_ALIAS@, quote) + lower + upper + " ORDER BY "@
        + rn + " ASC"@
}

/// Append `table.column AS table__column`, the projection of a plain column.
pub fn push_aliased_column(sql: &mut String, col: &ColumnMarker, quote: char)
    ensures
        final(sql)@ == old(sql)@ + aliased_column(*col, quote),
{
    let ghost start = sql@;
    push_qualified_identifier(sql, col.table.as_str(), col.name.as_str(), quote);
    sql.push_str(" AS ");
    push_column_alias(sql, col.table.as_str(), col.name.as_str(), quote);
    assert(sql@ =~= start + aliased_column(*col, quote));
}

/// Append the unqualified names of `columns`, comma-separated.
pub fn push_column_names(sql: &mut String, columns: &[ColumnMarker], quote: char)
    ensures
        final(sql)@ == old(sql)@ + joined(column_name_parts(columns@, quote), ", "@),
{
    let ghost start = sql@;
    let ghost parts = column_name_parts(columns@, quote);
    let n = columns.len();
    let mut i: usize = 0;
    while i < n
        invariant
            i <= n,
            n == columns@.len(),
            parts == column_name_parts(columns@, quote),
            sql@ == start + joined(parts.take(i as int), ", "@),
        decreases n - i,
    {
        proof {
            lemma_joined_take(parts, ", "@, i as int);
        }
        if i > 0 {
            sql.push_str(", ");
        }
        push_quoted_identifier(sql, columns[i].name.as_str(), quote);
        i = i + 1;
        assert(sql@ =~= start + joined(parts.take(i as int), ", "@));
    }
    assert(parts.take(n as int) =~= parts);
}

/// Append identifier references, comma-separated; each may use the
/// `table__column` shorthand.
pub fn push_identifier_references(sql: &mut String, names: &[String], quote: char)
    ensures
        final(sql)@ == old(sql)@ + joined(identifier_reference_parts(names@, quote), ", "@),
{
    let ghost start = sql@;
    let ghost parts = identifier_reference_parts(names@, quote);
    let n = names.len();
    let mut i: usize = 0;
    while i < n
        invariant
            i <= n,
            n == names@.len(),
            parts == identifier_reference_parts(names@, quote),
            sql@ == start + joined(parts.take(i as int), ", "@),
        decreases n - i,
    {
        proof {
            lemma_joined_take(parts, ", "@, i as int);
        }
        if i > 0 {
            sql.push_str(", ");
        }
        push_identifier_reference(sql, names[i].as_str(), quote);
        i = i + 1;
        assert(sql@ =~= start + joined(parts.take(i as int), ", "@));
    }
    assert(parts.take(n as int) =~= parts);
}

/// Append `DISTINCT ON (...) ` when the dialect has it, or `DISTINCT `, when
/// the select deduplicates at all.
pub fn push_distinct(sql: &mut String, distinct: &[String], distinct_on: bool, quote: char)
    ensures
        final(sql)@ == old(sql)@ + distinct_sql(distinct@, distinct_on, quote),
{
    let ghost start = sql@;
    if distinct.len() == 0 {
        assert(sql@ =~= start + distinct_sql(distinct@, distinct_on, quote));
        return ;
    }
    if distinct_on {
        sql.push_str("DISTINCT ON (");
        push_identifier_references(sql, distinct, quote);
        sql.push_str(") ");
    } else {
        sql.push_str("DISTINCT ");
    }
    assert(sql@ =~= start + distinct_sql(distinct@, distinct_on, quote));
}

/// Append ` GROUP BY table.column, ...` when `group_by` is non-empty.
pub fn push_group_by(sql: &mut String, group_by: &[ColumnMarker], quote: char)
    ensures
        final(sql)@ == old(sql)@ + group_by_sql(group_by@, quote),
{
    let ghost start = sql@;
    if group_by.len() == 0 {
        assert(sql@ =~= start + group_by_sql(group_by@, quote));
        return ;
    }
    sql.push_str(" GROUP BY ");
    let ghost mid = sql@;
    let ghost parts = qualified_parts(group_by@, quote);
    let n = group_by.len();
    let mut i: usize = 0;
    while i < n
        invariant
            i <= n,
            n == group_by@.len(),
            parts == qualified_parts(group_by@, quote),
            sql@ == mid + joined(parts.take(i as int), ", "@),
        decreases n - i,
    {
        proof {
            lemma_joined_take(parts, ", "@, i as int);
        }
        if i > 0 {
            sql.push_str(", ");
        }
        push_qualified_identifier(
            sql,
            group_by[i].table.as_str(),
            group_by[i].name.as_str(),
            quote,
        );
        i = i + 1;
        assert(sql@ =~= mid + joined(parts.take(i as int), ", "@));
    }
    assert(parts.take(n as int) =~= parts);
    assert(sql@ =~= start + group_by_sql(group_by@, quote));
}

/// Append ` ASC` or ` DESC`.
pub fn push_direction(sql: &mut String, dir: OrderDir)
    ensures
        final(sql)@ == old(sql)@ + direction_sql(dir),
{
    match dir {
        OrderDir::Asc => sql.push_str(" ASC"),
        OrderDir::Desc => sql.push_str(" DESC"),
    }
}

/// Append one column entry of an `ORDER BY` list.
pub fn push_column_order(sql: &mut String, order: &OrderBy, quote: char)
    ensures
        final(sql)@ == old(sql)@ + column_order_sql(*order, quote),
{
    let ghost start = sql@;
    push_identifier_reference(sql, order.column.as_str(), quote);
    push_direction(sql, order.direction);
    assert(sql@ =~= start + column_order_sql(*order, quote));
}

/// Append ` RETURNING table.column AS table__column, ...` when `returning` is
/// non-empty.
pub fn push_returning(sql: &mut String, returning: &[ColumnMarker], quote: char)
    ensures
        final(sql)@ == old(sql)@ + returning_sql(returning@, quote),
{
    let ghost start = sql@;
    if returning.len() == 0 {
        assert(sql@ =~= start + returning_sql(returning@, quote));
        return ;
    }
    sql.push_str(" RETURNING ");
    let ghost mid = sql@;
    let ghost parts = aliased_parts(returning@, quote);
    let n = returning.len();
    let mut i: usize = 0;
    while i < n
        invariant
            i <= n,
            n == returning@.len(),
            parts == aliased_parts(returning@, quote),
            sql@ == mid + joined(parts.take(i as int), ", "@),
        decreases n - i,
    {
        proof {
            lemma_joined_take(parts, ", "@, i as int);
        }
        if i > 0 {
            sql.push_str(", ");
        }
        push_aliased_column(sql, &returning[i], quote);
        i = i + 1;
        assert(sql@ =~= mid + joined(parts.take(i as int), ", "@));
    }
    assert(parts.take(n as int) =~= parts);
    assert(sql@ =~= start + returning_sql(returning@, quote));
}

/// The magnitude of a signed 32-bit count.
pub fn unsigned_abs(take: i32) -> (r: u32)
    ensures
        r as nat == take_magnitude(take),
{
    if take < 0 {
        let wide: i64 = take as i64;
        (-wide) as u32
    } else {
        take as u32
    }
}

/// Append the statement's `LIMIT` and `OFFSET`.
///
/// A negative `take` asks for backward pagination, which the caller serves by
/// reversing the ordering, so only its magnitude reaches the SQL. A provider
/// that rejects a bare `OFFSET` passes the largest limit it accepts as
/// `offset_limit_sentinel`; an empty sentinel writes the `OFFSET` alone.
pub fn push_limit_offset(
    sql: &mut String,
    take: Option<i32>,
    skip: Option<u32>,
    offset_limit_sentinel: &str,
)
    ensures
        final(sql)@ == old(sql)@ + limit_offset_sql(take, skip, offset_limit_sentinel@),
{
    let ghost start = sql@;
    if let Some(take) = take {
        sql.push_str(" LIMIT ");
        push_u32(sql, unsigned_abs(take));
    } else if skip.is_some() && offset_limit_sentinel.unicode_len() > 0 {
        sql.push_str(" LIMIT ");
        sql.push_str(offset_limit_sentinel);
    }
    let ghost mid = sql@;
    if let Some(skip) = skip {
        sql.push_str(" OFFSET ");
        push_u32(sql, skip);
    }
    assert(sql@ =~= start + limit_offset_sql(take, skip, offset_limit_sentinel@));
}

/// Append the outer-query name of one inner item.
fn push_window_item_name(sql: &mut String, item: &SelectItem, quote: char)
    ensures
        final(sql)@ == old(sql)@ + window_item_name(*item, quote),
{
    match item {
        SelectItem::Column(col) => push_column_alias(
            sql,
            col.table.as_str(),
            col.name.as_str(),
            quote,
        ),
        SelectItem::Computed { alias, .. } => push_quoted_identifier(sql, alias.as_str(), quote),
    }
}

/// Render the outer projection of a partition-window subquery: the inner select
/// list referenced by alias, so the row-number column stays internal and the
/// result keeps exactly the columns an unwindowed render would return.
pub fn push_window_projection(sql: &mut String, select: &Select, quote: char)
    ensures
        final(sql)@ == old(sql)@ + window_projection_sql(*select, quote),
{
    let ghost start = sql@;
    let ghost all = select.items@ + join_items(select.joins@);
    let ghost parts = all.map_values(|it: SelectItem| window_item_name(it, quote));
    let mut first = true;
    let n = select.items.len();
    let mut i: usize = 0;
    while i < n
        invariant
            i <= n,
            n == select.items@.len(),
            all == select.items@ + join_items(select.joins@),
            parts == all.map_values(|it: SelectItem| window_item_name(it, quote)),
            first == (i == 0),
            sql@ == start + joined(parts.take(i as int), ", "@),
        decreases n - i,
    {
        proof {
            lemma_joined_take(parts, ", "@, i as int);
        }
        if !first {
            sql.push_str(", ");
        }
        first = false;
        push_window_item_name(sql, &select.items[i], quote);
        i = i + 1;
        assert(sql@ =~= start + joined(parts.take(i as int), ", "@));
    }
    let nj = select.joins.len();
    let mut j: usize = 0;
    while j < nj
        invariant
            j <= nj,
            nj == select.joins@.len(),
            n == select.items@.len(),
            all == select.items@ + join_items(select.joins@),
            parts == all.map_values(|it: SelectItem| window_item_name(it, quote)),
            first == (n + join_items(select.joins@.take(j as int)).len() == 0),
            sql@ == start + joined(
                parts.take(n + join_items(select.joins@.take(j as int)).len()),
                ", "@,
            ),
        decreases nj - j,
    {
        let join = &select.joins[j];
        let ghost done = n + join_items(select.joins@.take(j as int)).len();
        proof {
            assert(select.joins@.take(j + 1).drop_last() =~= select.joins@.take(j as int));
            lemma_join_items_prefix(select.joins@, j as int);
            let ji = join_items(select.joins@.take(j as int)).len();
            assert forall|t: int| 0 <= t < join.items@.len() implies #[trigger] all[done + t]
                == join.items@[t] by {
                assert(all[done + t] == join_items(select.joins@)[ji + t]);
            }
        }
        let m = join.items.len();
        let mut k: usize = 0;
        while k < m
            invariant
                k <= m,
                m == join.items@.len(),
                join == &select.joins[j as int],
                0 <= j < nj,
                nj == select.joins@.len(),
                done == n + join_items(select.joins@.take(j as int)).len(),
                done + m <= all.len(),
                forall|t: int| 0 <= t < m ==> #[trigger] all[done + t] == join.items@[t],
                parts == all.map_values(|it: SelectItem| window_item_name(it, quote)),
                first == (done + k == 0),
                sql@ == start + joined(parts.take(done + k), ", "@),
            decreases m - k,
        {
            proof {
                lemma_joined_take(parts, ", "@, done + k);
                assert(parts[done + k] == window_item_name(join.items@[k as int], quote));
            }
            if !first {
                sql.push_str(", ");
            }
            first = false;
            push_window_item_name(sql, &join.items[k], quote);
            k = k + 1;
            assert(sql@ =~= start + joined(parts.take(done + k), ", "@));
        }
        j = j + 1;
    }
    proof {
        assert(select.joins@.take(nj as int) =~= select.joins@);
        assert(parts.take(all.len() as int) =~= parts);
    }
    if first {
        sql.push('*');
    }
    assert(sql@ =~= start + window_projection_sql(*select, quote));
}

/// The items of the first `j + 1` joins extend those of the first `j` by the
/// items of join `j`, and all of them sit inside the full list.
proof fn lemma_join_items_prefix(joins: Seq<Join>, j: int)
    requires
        0 <= j < joins.len(),
    ensures
        join_items(joins.take(j + 1)) == join_items(joins.take(j)) + joins[j].items@,
        join_items(joins.take(j + 1)).len() <= join_items(joins).len(),
        forall|t: int|
            0 <= t < joins[j].items@.len() ==> #[trigger] join_items(joins)[join_items(
                joins.take(j),
            ).len() + t] == joins[j].items@[t],
{
    assert(joins.take(j + 1).drop_last() =~= joins.take(j));
    lemma_join_items_extend(joins, j + 1);
}

/// The items of a prefix of the joins are a prefix of all their items.
proof fn lemma_join_items_extend(joins: Seq<Join>, p: int)
    requires
        0 <= p <= joins.len(),
    ensures
        join_items(joins.take(p)).len() <= join_items(joins).len(),
        forall|t: int|
            0 <= t < join_items(joins.take(p)).len() ==> #[trigger] join_items(joins)[t]
                == join_items(joins.take(p))[t],
    decreases joins.len() - p,
{
    if p == joins.len() {
        assert(joins.take(p) =~= joins);
    } else {
        lemma_join_items_extend(joins, p + 1);
        assert(joins.take(p + 1).drop_last() =~= joins.take(p));
    }
}

/// Close a partition-window subquery and keep the rows whose number falls in
/// `(skip, skip + take]`, in partition order.
pub fn push_window_bounds(sql: &mut String, window: &PartitionWindow, quote: char)
    ensures
        final(sql)@ == old(sql)@ + window_bounds_sql(*window, quote),
{
    let ghost start = sql@;
    sql.push_str(") AS ");
    push_quoted_identifier(sql, WINDOW_SUBQUERY_ALIAS, quote);
    let ghost head = sql@;
    let mut first_bound = true;
    if window.skip > 0 {
        sql.push_str(" WHERE ");
        first_bound = false;
        push_quoted_identifier(sql, WINDOW_ROW_NUMBER_ALIAS, quote);
        sql.push_str(" > ");
        push_u32(sql, window.skip);
    }
    let ghost mid = sql@;
    if let Some(take) = window.take {
        sql.push_str(if first_bound { " WHERE " } else { " AND " });
        push_quoted_identifier(sql, WINDOW_ROW_NUMBER_ALIAS, quote);
        sql.push_str(" <= ");
        push_u64(sql, window.skip as u64 + take as u64);
    }
    let ghost tail = sql@;
    sql.push_str(" ORDER BY ");
    push_quoted_identifier(sql, WINDOW_ROW_NUMBER_ALIAS, quote);
    sql.push_str(" ASC");
    assert(sql@ =~= start + window_bounds_sql(*window, quote));
}

} // verus!
