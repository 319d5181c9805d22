//! The `orderBy` arguments of queries: plain columns with directions, and
//! for grouped queries also aggregates.
use vstd::prelude::*;

use crate::ast::{Expr, OrderBy, OrderDir};
use crate::json::Json;
use crate::naming::{db_column, qualified_name};
use crate::protocol::{aggregate_function, having_aggregate_fn, having_column, message, order_direction, parse_order_dir, ProtocolError};

verus! {

/// One entry of a grouped query's ordering.
#[derive(Debug, PartialEq)]
pub enum GroupByOrderItem {
    /// A grouped column.
    Column(OrderBy),
    /// An aggregate over a column, or over all rows.
    Expr(Expr, OrderDir),
}

/// What an ordering entry stands for: an aggregate function name (or `None`
/// for a plain column), the column (or `None` for all rows), and the direction.
pub type OrderEntry = (Option<Seq<char>>, Option<Seq<char>>, OrderDir);

/// Whether `item` is the entry `entry` describes.
pub open spec fn item_is(item: GroupByOrderItem, entry: OrderEntry) -> bool {
    match entry.0 {
        None => item matches GroupByOrderItem::Column(o) && entry.1 == Some(o.column@)
            && o.direction == entry.2,
        Some(f) => item matches GroupByOrderItem::Expr(Expr::FunctionCall { name, args }, dir)
            && name@ == f && dir == entry.2 && args@.len() == 1 && match entry.1 {
            None => args@[0] is Star,
            Some(c) => args@[0] matches Expr::Column(n) && n@ == c,
        },
    }
}

/// Whether `items` are the entries `entries` describes, in order.
pub open spec fn items_are(items: Seq<GroupByOrderItem>, entries: Seq<OrderEntry>) -> bool {
    items.len() == entries.len() && forall|i: int| 0 <= i < items.len() ==> #[trigger] item_is(items[i], entries[i])
}

/// The direction a JSON value names, or the refusal.
pub open spec fn direction_of(value: Json) -> Result<OrderDir, Seq<char>> {
    match value {
        Json::String(s) => match order_direction(s@) {
            Some(d) => Ok(d),
            None => Err("Invalid order direction: "@ + s@),
        },
        _ => Err("orderBy direction must be a string"@),
    }
}

/// The column a field orders by: `*` for `_all` under an aggregate, else the
/// qualified database column.
pub open spec fn aggregate_argument(table: Seq<char>, map: Seq<(String, String)>, field: Seq<char>) -> Option<Seq<char>> {
    if field == "_all"@ {
        None
    } else {
        Some(qualified_name(table, db_column(map, field)))
    }
}

/// The entries of an aggregate's `{ field: direction }` object.
pub open spec fn aggregate_entries(
    func: Seq<char>,
    fields: Seq<(String, Json)>,
    table: Seq<char>,
    map: Seq<(String, String)>,
) -> Result<Seq<OrderEntry>, Seq<char>>
    decreases fields.len(),
{
    if fields.len() == 0 {
        Ok(Seq::empty())
    } else {
        match aggregate_entries(func, fields.drop_last(), table, map) {
            Err(e) => Err(e),
            Ok(p) => match direction_of(fields.last().1) {
                Err(e) => Err(e),
                Ok(d) => Ok(p.push((Some(func), aggregate_argument(table, map, fields.last().0@), d))),
            },
        }
    }
}

/// The entries one `key: value` member of an `orderBy` object stands for.
pub open spec fn member_entries(key: Seq<char>, value: Json, table: Seq<char>, map: Seq<(String, String)>) -> Result<Seq<OrderEntry>, Seq<char>> {
    match aggregate_function(key) {
        Some(f) => match value {
            Json::Object(fields) => aggregate_entries(f, fields@, table, map),
            _ => Err(key + " orderBy value must be an object"@),
        },
        None => match direction_of(value) {
            Err(e) => Err(e),
            Ok(d) => Ok(seq![(None, Some(qualified_name(table, db_column(map, key))), d)]),
        },
    }
}

/// The entries of the members of one `orderBy` object.
pub open spec fn object_entries(members: Seq<(String, Json)>, table: Seq<char>, map: Seq<(String, String)>) -> Result<Seq<OrderEntry>, Seq<char>>
    decreases members.len(),
{
    if members.len() == 0 {
        Ok(Seq::empty())
    } else {
        match object_entries(members.drop_last(), table, map) {
            Err(e) => Err(e),
            Ok(p) => match member_entries(members.last().0@, members.last().1, table, map) {
                Err(e) => Err(e),
                Ok(x) => Ok(p + x),
            },
        }
    }
}

/// The entries of the objects of an `orderBy` array.
pub open spec fn array_entries(items: Seq<Json>, table: Seq<char>, map: Seq<(String, String)>) -> Result<Seq<OrderEntry>, Seq<char>>
    decreases items.len(),
{
    if items.len() == 0 {
        Ok(Seq::empty())
    } else {
        match array_entries(items.drop_last(), table, map) {
            Err(e) => Err(e),
            Ok(p) => match items.last() {
                Json::Object(members) => match object_entries(members@, table, map) {
                    Err(e) => Err(e),
                    Ok(x) => Ok(p + x),
                },
                _ => Err("orderBy items must be objects"@),
            },
        }
    }
}

/// The entries of a grouped query's `orderBy` argument, or the refusal.
pub open spec fn group_order_entries(order: Json, table: Seq<char>, map: Seq<(String, String)>) -> Result<Seq<OrderEntry>, Seq<char>> {
    match order {
        Json::Array(items) => array_entries(items@, table, map),
        _ => Err("orderBy must be an array"@),
    }
}

fn parse_direction(value: &Json) -> (r: Result<OrderDir, ProtocolError>)
    ensures
        match direction_of(*value) {
            Ok(d) => r == Ok::<OrderDir, ProtocolError>(d),
            Err(m) => r matches Err(ProtocolError::InvalidFilter(e)) && e@ == m,
        },
{
    match value {
        Json::String(s) => parse_order_dir(s.as_str()),
        _ => Err(ProtocolError::InvalidFilter(String::from_str("orderBy direction must be a string"))),
    }
}

proof fn lemma_items_extend(items: Seq<GroupByOrderItem>, entries: Seq<OrderEntry>, item: GroupByOrderItem, entry: OrderEntry)
    requires
        items_are(items, entries),
        item_is(item, entry),
    ensures
        items_are(items.push(item), entries.push(entry)),
{
    assert forall|i: int| 0 <= i < items.len() + 1 implies #[trigger] item_is(items.push(item)[i], entries.push(entry)[i]) by {
        if i < items.len() {
            assert(items.push(item)[i] == items[i]);
            assert(entries.push(entry)[i] == entries[i]);
        }
    }
}

proof fn lemma_items_append(items: Seq<GroupByOrderItem>, entries: Seq<OrderEntry>, more: Seq<GroupByOrderItem>, more_entries: Seq<OrderEntry>)
    requires
        items_are(items, entries),
        items_are(more, more_entries),
    ensures
        items_are(items + more, entries + more_entries),
{
    assert forall|i: int| 0 <= i < items.len() + more.len() implies #[trigger] item_is((items + more)[i], (entries + more_entries)[i]) by {
        if i < items.len() {
            assert((items + more)[i] == items[i]);
            assert((entries + more_entries)[i] == entries[i]);
        } else {
            assert((items + more)[i] == more[i - items.len()]);
            assert((entries + more_entries)[i] == more_entries[i - items.len()]);
        }
    }
}

fn parse_aggregate_members(
    key: &str,
    func: &str,
    fields: &Vec<(String, Json)>,
    table: &str,
    logical_to_db: &[(String, String)],
    orders: &mut Vec<GroupByOrderItem>,
) -> (r: Result<(), ProtocolError>)
    requires
        aggregate_function(key@) == Some(func@),
    ensures
        match aggregate_entries(func@, fields@, table@, logical_to_db@) {
            Ok(x) => r is Ok && final(orders)@.len() == old(orders)@.len() + x.len() && forall|e: Seq<OrderEntry>|
                items_are(old(orders)@, e) ==> items_are(final(orders)@, e + x),
            Err(m) => r matches Err(ProtocolError::InvalidFilter(e)) && e@ == m,
        },
{
    let ghost start = orders@;
    let mut i: usize = 0;
    while i < fields.len()
        invariant
            i <= fields@.len(),
            aggregate_function(key@) == Some(func@),
            aggregate_entries(func@, fields@.take(i as int), table@, logical_to_db@) matches Ok(x) && orders@.len() == start.len() + x.len() && forall|e: Seq<OrderEntry>|
                items_are(start, e) ==> items_are(orders@, e + x),
        decreases fields@.len() - i,
    {
        let ghost pre = fields@.take(i as int);
        let ghost x = match aggregate_entries(func@, pre, table@, logical_to_db@) {
            Ok(v) => v,
            Err(_) => Seq::empty(),
        };
        assert(fields@.take(i + 1).drop_last() =~= pre);
        let field = &fields[i].0;
        let dir = match parse_direction(&fields[i].1) {
            Ok(d) => d,
            Err(e) => {
                proof {
                    lemma_aggregate_entries_error_persists(func@, fields@, table@, logical_to_db@, i as int + 1);
                }
                return Err(e);
            },
        };
        let arg = having_column(table, logical_to_db, field.as_str());
        let mut args: Vec<Expr> = Vec::new();
        args.push(arg);
        let item = GroupByOrderItem::Expr(Expr::FunctionCall { name: String::from_str(func), args }, dir);
        let ghost entry = (Some(func@), aggregate_argument(table@, logical_to_db@, field@), dir);
        assert(item_is(item, entry));
        let ghost before = orders@;
        orders.push(item);
        proof {
            assert forall|e: Seq<OrderEntry>| items_are(start, e) implies items_are(orders@, e + x.push(entry)) by {
                lemma_items_extend(before, e + x, item, entry);
                assert((e + x).push(entry) =~= e + x.push(entry));
            }
        }
        i = i + 1;
    }
    assert(fields@.take(fields@.len() as int) =~= fields@);
    Ok(())
}

proof fn lemma_aggregate_entries_error_persists(func: Seq<char>, fields: Seq<(String, Json)>, table: Seq<char>, map: Seq<(String, String)>, k: int)
    requires
        0 < k <= fields.len(),
        aggregate_entries(func, fields.take(k), table, map) is Err,
    ensures
        aggregate_entries(func, fields, table, map) == aggregate_entries(func, fields.take(k), table, map),
    decreases fields.len() - k,
{
    if k == fields.len() {
        assert(fields.take(k) =~= fields);
    } else {
        assert(fields.take(k + 1).drop_last() =~= fields.take(k));
        lemma_aggregate_entries_error_persists(func, fields, table, map, k + 1);
    }
}

proof fn lemma_object_entries_error_persists(members: Seq<(String, Json)>, table: Seq<char>, map: Seq<(String, String)>, k: int)
    requires
        0 < k <= members.len(),
        object_entries(members.take(k), table, map) is Err,
    ensures
        object_entries(members, table, map) == object_entries(members.take(k), table, map),
    decreases members.len() - k,
{
    if k == members.len() {
        assert(members.take(k) =~= members);
    } else {
        assert(members.take(k + 1).drop_last() =~= members.take(k));
        lemma_object_entries_error_persists(members, table, map, k + 1);
    }
}

proof fn lemma_array_entries_error_persists(items: Seq<Json>, table: Seq<char>, map: Seq<(String, String)>, k: int)
    requires
        0 < k <= items.len(),
        array_entries(items.take(k), table, map) is Err,
    ensures
        array_entries(items, table, map) == array_entries(items.take(k), table, map),
    decreases items.len() - k,
{
    if k == items.len() {
        assert(items.take(k) =~= items);
    } else {
        assert(items.take(k + 1).drop_last() =~= items.take(k));
        lemma_array_entries_error_persists(items, table, map, k + 1);
    }
}

fn parse_order_member(
    key: &str,
    value: &Json,
    table: &str,
    logical_to_db: &[(String, String)],
    orders: &mut Vec<GroupByOrderItem>,
) -> (r: Result<(), ProtocolError>)
    ensures
        match member_entries(key@, *value, table@, logical_to_db@) {
            Ok(x) => r is Ok && final(orders)@.len() == old(orders)@.len() + x.len() && forall|e: Seq<OrderEntry>|
                items_are(old(orders)@, e) ==> items_are(final(orders)@, e + x),
            Err(m) => r matches Err(ProtocolError::InvalidFilter(e)) && e@ == m,
        },
{
    match having_aggregate_fn(key) {
        Some(func) => match value {
            Json::Object(fields) => parse_aggregate_members(key, func, fields, table, logical_to_db, orders),
            _ => Err(ProtocolError::InvalidFilter(message(key, " orderBy value must be an object"))),
        },
        None => {
            let dir = parse_direction(value)?;
            let qualified = crate::naming::qualified_name_of(table, crate::naming::db_column_for(logical_to_db, key).as_str());
            let item = GroupByOrderItem::Column(OrderBy { column: qualified, direction: dir });
            let ghost entry: OrderEntry = (None, Some(qualified_name(table@, db_column(logical_to_db@, key@))), dir);
            assert(item_is(item, entry));
            let ghost before = orders@;
            orders.push(item);
            proof {
                assert forall|e: Seq<OrderEntry>| items_are(before, e) implies items_are(orders@, e + seq![entry]) by {
                    lemma_items_extend(before, e, item, entry);
                    assert(e.push(entry) =~= e + seq![entry]);
                }
            }
            Ok(())
        },
    }
}

/// Parse the `orderBy` argument of a grouped query: each member of each
/// object is a column with a direction, or an aggregate (`_count`, `_avg`,
/// `_sum`, `_min`, `_max`) over `{ field: direction }` pairs, `_all` standing
/// for every row.
pub fn parse_group_by_order_by(
    order_value: &Json,
    table: &str,
    logical_to_db: &[(String, String)],
) -> (r: Result<Vec<GroupByOrderItem>, ProtocolError>)
    ensures
        match group_order_entries(*order_value, table@, logical_to_db@) {
            Ok(x) => r matches Ok(items) && items_are(items@, x),
            Err(m) => r matches Err(ProtocolError::InvalidFilter(e)) && e@ == m,
        },
{
    let items = match order_value {
        Json::Array(items) => items,
        _ => {
            return Err(ProtocolError::InvalidFilter(String::from_str("orderBy must be an array")));
        },
    };
    let mut orders: Vec<GroupByOrderItem> = Vec::new();
    let mut i: usize = 0;
    while i < items.len()
        invariant
            i <= items@.len(),
            *order_value == Json::Array(*items),
            array_entries(items@.take(i as int), table@, logical_to_db@) matches Ok(x) && items_are(orders@, x),
        decreases items@.len() - i,
    {
        let ghost pre = items@.take(i as int);
        let ghost x = match array_entries(pre, table@, logical_to_db@) {
            Ok(v) => v,
            Err(_) => Seq::empty(),
        };
        assert(items@.take(i + 1).drop_last() =~= pre);
        let members = match &items[i] {
            Json::Object(members) => members,
            _ => {
                proof {
                    lemma_array_entries_error_persists(items@, table@, logical_to_db@, i as int + 1);
                }
                return Err(ProtocolError::InvalidFilter(String::from_str("orderBy items must be objects")));
            },
        };
        let ghost orders_at_item = orders@;
        let mut j: usize = 0;
        while j < members.len()
            invariant
                j <= members@.len(),
                i < items@.len(),
                *order_value == Json::Array(*items),
                items@[i as int] == Json::Object(*members),
                array_entries(items@.take(i as int), table@, logical_to_db@) == Ok::<Seq<OrderEntry>, Seq<char>>(x),
                items@.take(i + 1).drop_last() == items@.take(i as int),
                items_are(orders_at_item, x),
                object_entries(members@.take(j as int), table@, logical_to_db@) matches Ok(y) && items_are(orders@, x + y),
            decreases members@.len() - j,
        {
            let ghost mpre = members@.take(j as int);
            let ghost y = match object_entries(mpre, table@, logical_to_db@) {
                Ok(v) => v,
                Err(_) => Seq::empty(),
            };
            assert(members@.take(j + 1).drop_last() =~= mpre);
            let ghost before = orders@;
            match parse_order_member(members[j].0.as_str(), &members[j].1, table, logical_to_db, &mut orders) {
                Ok(()) => {
                    proof {
                        let z = match member_entries(members@[j as int].0@, members@[j as int].1, table@, logical_to_db@) {
                            Ok(v) => v,
                            Err(_) => Seq::empty(),
                        };
                        assert(items_are(orders@, (x + y) + z));
                        assert((x + y) + z =~= x + (y + z));
                    }
                },
                Err(e) => {
                    proof {
                        lemma_object_entries_error_persists(members@, table@, logical_to_db@, j as int + 1);
                        assert(object_entries(members@, table@, logical_to_db@) is Err);
                        assert(array_entries(items@.take(i + 1), table@, logical_to_db@) is Err);
                        lemma_array_entries_error_persists(items@, table@, logical_to_db@, i as int + 1);
                    }
                    return Err(e);
                },
            }
            j = j + 1;
        }
        assert(members@.take(members@.len() as int) =~= members@);
        i = i + 1;
    }
    assert(items@.take(items@.len() as int) =~= items@);
    Ok(orders)
}

} // verus!

verus! {

/// The index of the first `.` in `s`, or `None`.
pub open spec fn first_dot(s: Seq<char>, k: int) -> Option<int>
    decreases s.len() - k,
{
    if k < 0 || k >= s.len() {
        None
    } else if s[k] == '.' {
        Some(k)
    } else {
        first_dot(s, k + 1)
    }
}

/// The field an `orderBy` key is checked against: the column after a
/// `table__` qualifier, up to a `.` that reaches into a composite.
pub open spec fn order_root(field: Seq<char>) -> Seq<char> {
    let column = crate::naming::unqualified(field);
    match first_dot(column, 0) {
        Some(i) => column.subrange(0, i),
        None => column,
    }
}

/// The type `types` gives `name` (its first entry with that name).
pub open spec fn type_of(types: Seq<(String, crate::conversion::ResolvedFieldType)>, name: Seq<char>) -> Option<crate::conversion::ResolvedFieldType>
    decreases types.len(),
{
    if types.len() == 0 {
        None
    } else if types[0].0@ == name {
        Some(types[0].1)
    } else {
        type_of(types.drop_first(), name)
    }
}

/// Whether a field of this type cannot be sorted on.
pub open spec fn unorderable(t: Option<crate::conversion::ResolvedFieldType>) -> bool {
    match t {
        Some(crate::conversion::ResolvedFieldType::Scalar(s)) => s is Vector || s is Geometry || s is Geography,
        _ => false,
    }
}

/// The ordering one `field: direction` member stands for, or the refusal.
pub open spec fn order_member(field: Seq<char>, value: Json, types: Option<Seq<(String, crate::conversion::ResolvedFieldType)>>) -> Result<(Seq<char>, OrderDir), Seq<char>> {
    match direction_of(value) {
        Err(e) => Err(e),
        Ok(d) => if types matches Some(t) && t.len() > 0 && type_of(t, order_root(field)) is None {
            Err("Unknown orderBy field '"@ + field + "'"@)
        } else if types matches Some(t) && unorderable(type_of(t, field)) {
            Err("Field '"@ + field + "' cannot be used with classic orderBy because it is not orderable"@)
        } else {
            Ok((field, d))
        },
    }
}

/// The orderings of the members of one `orderBy` object.
pub open spec fn order_members(members: Seq<(String, Json)>, types: Option<Seq<(String, crate::conversion::ResolvedFieldType)>>) -> Result<Seq<(Seq<char>, OrderDir)>, Seq<char>>
    decreases members.len(),
{
    if members.len() == 0 {
        Ok(Seq::empty())
    } else {
        match order_members(members.drop_last(), types) {
            Err(e) => Err(e),
            Ok(p) => match order_member(members.last().0@, members.last().1, types) {
                Err(e) => Err(e),
                Ok(x) => Ok(p.push(x)),
            },
        }
    }
}

/// The orderings of the objects of an `orderBy` array.
pub open spec fn order_items(items: Seq<Json>, types: Option<Seq<(String, crate::conversion::ResolvedFieldType)>>) -> Result<Seq<(Seq<char>, OrderDir)>, Seq<char>>
    decreases items.len(),
{
    if items.len() == 0 {
        Ok(Seq::empty())
    } else {
        match order_items(items.drop_last(), types) {
            Err(e) => Err(e),
            Ok(p) => match items.last() {
                Json::Object(members) => match order_members(members@, types) {
                    Err(e) => Err(e),
                    Ok(x) => Ok(p + x),
                },
                _ => Err("orderBy items must be objects"@),
            },
        }
    }
}

/// The orderings of an `orderBy` argument, or the refusal.
pub open spec fn order_by_entries(order: Json, types: Option<Seq<(String, crate::conversion::ResolvedFieldType)>>) -> Result<Seq<(Seq<char>, OrderDir)>, Seq<char>> {
    match order {
        Json::Array(items) => order_items(items@, types),
        _ => Err("orderBy must be an array"@),
    }
}

/// Whether `orders` are the orderings `entries` describes.
pub open spec fn orders_are(orders: Seq<OrderBy>, entries: Seq<(Seq<char>, OrderDir)>) -> bool {
    orders.len() == entries.len() && forall|i: int|
        #![trigger orders[i]]
        0 <= i < orders.len() ==> orders[i].column@ == entries[i].0 && orders[i].direction == entries[i].1
}

fn find_type<'a>(types: &'a [(String, crate::conversion::ResolvedFieldType)], name: &str) -> (r: Option<&'a crate::conversion::ResolvedFieldType>)
    ensures
        match r {
            Some(t) => type_of(types@, name@) == Some(*t),
            None => type_of(types@, name@) is None,
        },
{
    let n = types.len();
    let mut i: usize = 0;
    assert(types@.subrange(0, n as int) =~= types@);
    while i < n
        invariant
            i <= n,
            n == types@.len(),
            type_of(types@, name@) == type_of(types@.subrange(i as int, n as int), name@),
        decreases n - i,
    {
        assert(types@.subrange(i as int, n as int).drop_first() =~= types@.subrange(i + 1, n as int));
        if crate::text::str_eq(types[i].0.as_str(), name) {
            return Some(&types[i].1);
        }
        i = i + 1;
    }
    None
}

fn root_of(field: &str) -> (r: &str)
    ensures
        r@ == order_root(field@),
{
    let column = crate::naming::strip_order_qualifier(field);
    let n = column.unicode_len();
    let mut i: usize = 0;
    while i < n && column.get_char(i) != '.'
        invariant
            i <= n,
            n == column@.len(),
            first_dot(column@, 0) == first_dot(column@, i as int),
        decreases n - i,
    {
        i = i + 1;
    }
    if i < n {
        column.substring_char(0, i)
    } else {
        assert(column@.subrange(0, n as int) =~= column@);
        column
    }
}

fn parse_order_entry(
    field: &str,
    value: &Json,
    field_types: Option<&[(String, crate::conversion::ResolvedFieldType)]>,
) -> (r: Result<OrderBy, ProtocolError>)
    ensures
        match order_member(field@, *value, match field_types { Some(t) => Some(t@), None => None }) {
            Ok(x) => r matches Ok(o) && o.column@ == x.0 && o.direction == x.1,
            Err(m) => r matches Err(ProtocolError::InvalidFilter(e)) && e@ == m,
        },
{
    let dir = parse_direction(value)?;
    if let Some(types) = field_types {
        if types.len() > 0 {
            let root = root_of(field);
            if find_type(types, root).is_none() {
                let mut m = String::from_str("Unknown orderBy field '");
                m.push_str(field);
                m.push_str("'");
                return Err(ProtocolError::InvalidFilter(m));
            }
        }
        let unsortable = match find_type(types, field) {
            Some(crate::conversion::ResolvedFieldType::Scalar(s)) => matches!(
                s,
                crate::conversion::ScalarType::Vector { .. } | crate::conversion::ScalarType::Geometry
                    | crate::conversion::ScalarType::Geography
            ),
            _ => false,
        };
        if unsortable {
            let mut m = String::from_str("Field '");
            m.push_str(field);
            m.push_str("' cannot be used with classic orderBy because it is not orderable");
            return Err(ProtocolError::InvalidFilter(m));
        }
    }
    Ok(OrderBy { column: String::from_str(field), direction: dir })
}

proof fn lemma_order_members_error_persists(members: Seq<(String, Json)>, types: Option<Seq<(String, crate::conversion::ResolvedFieldType)>>, k: int)
    requires
        0 < k <= members.len(),
        order_members(members.take(k), types) is Err,
    ensures
        order_members(members, types) == order_members(members.take(k), types),
    decreases members.len() - k,
{
    if k == members.len() {
        assert(members.take(k) =~= members);
    } else {
        assert(members.take(k + 1).drop_last() =~= members.take(k));
        lemma_order_members_error_persists(members, types, k + 1);
    }
}

proof fn lemma_order_items_error_persists(items: Seq<Json>, types: Option<Seq<(String, crate::conversion::ResolvedFieldType)>>, k: int)
    requires
        0 < k <= items.len(),
        order_items(items.take(k), types) is Err,
    ensures
        order_items(items, types) == order_items(items.take(k), types),
    decreases items.len() - k,
{
    if k == items.len() {
        assert(items.take(k) =~= items);
    } else {
        assert(items.take(k + 1).drop_last() =~= items.take(k));
        lemma_order_items_error_persists(items, types, k + 1);
    }
}

/// Parse an `orderBy` argument: an array of objects mapping field names to
/// `asc` or `desc`. With the model's field types at hand, a field must exist
/// and must be sortable.
pub fn parse_order_by(
    order_value: &Json,
    field_types: Option<&[(String, crate::conversion::ResolvedFieldType)]>,
) -> (r: Result<Vec<OrderBy>, ProtocolError>)
    ensures
        match order_by_entries(*order_value, match field_types { Some(t) => Some(t@), None => None }) {
            Ok(x) => r matches Ok(orders) && orders_are(orders@, x),
            Err(m) => r matches Err(ProtocolError::InvalidFilter(e)) && e@ == m,
        },
{
    let ghost types = match field_types {
        Some(t) => Some(t@),
        None => None,
    };
    let items = match order_value {
        Json::Array(items) => items,
        _ => {
            return Err(ProtocolError::InvalidFilter(String::from_str("orderBy must be an array")));
        },
    };
    let mut result: Vec<OrderBy> = Vec::new();
    let mut i: usize = 0;
    while i < items.len()
        invariant
            i <= items@.len(),
            *order_value == Json::Array(*items),
            types == (match field_types { Some(t) => Some(t@), None => None }),
            order_items(items@.take(i as int), types) matches Ok(x) && orders_are(result@, x),
        decreases items@.len() - i,
    {
        let ghost pre = items@.take(i as int);
        let ghost x = match order_items(pre, types) {
            Ok(v) => v,
            Err(_) => Seq::empty(),
        };
        assert(items@.take(i + 1).drop_last() =~= pre);
        let members = match &items[i] {
            Json::Object(members) => members,
            _ => {
                proof {
                    lemma_order_items_error_persists(items@, types, i as int + 1);
                }
                return Err(ProtocolError::InvalidFilter(String::from_str("orderBy items must be objects")));
            },
        };
        let ghost at_item = result@;
        let mut j: usize = 0;
        while j < members.len()
            invariant
                j <= members@.len(),
                i < items@.len(),
                *order_value == Json::Array(*items),
                types == (match field_types { Some(t) => Some(t@), None => None }),
                items@[i as int] == Json::Object(*members),
                order_items(items@.take(i as int), types) == Ok::<Seq<(Seq<char>, OrderDir)>, Seq<char>>(x),
                items@.take(i + 1).drop_last() == items@.take(i as int),
                orders_are(at_item, x),
                order_members(members@.take(j as int), types) matches Ok(y) && orders_are(result@, x + y),
            decreases members@.len() - j,
        {
            let ghost mpre = members@.take(j as int);
            let ghost y = match order_members(mpre, types) {
                Ok(v) => v,
                Err(_) => Seq::empty(),
            };
            assert(members@.take(j + 1).drop_last() =~= mpre);
            match parse_order_entry(members[j].0.as_str(), &members[j].1, field_types) {
                Ok(o) => {
                    let ghost before = result@;
                    let ghost e = match order_member(members@[j as int].0@, members@[j as int].1, types) {
                        Ok(v) => v,
                        Err(_) => (Seq::empty(), OrderDir::Asc),
                    };
                    assert(order_member(members@[j as int].0@, members@[j as int].1, types) is Ok);
                    assert(o.column@ == e.0 && o.direction == e.1);
                    result.push(o);
                    proof {
                        assert((x + y).push(e) =~= x + y.push(e));
                        assert forall|k: int| 0 <= k < result@.len() implies #[trigger] result@[k].column@ == (x + y.push(e))[k].0 && result@[k].direction == (x + y.push(e))[k].1 by {
                            if k < before.len() {
                                assert(result@[k] == before[k]);
                                assert((x + y.push(e))[k] == (x + y)[k]);
                            } else {
                                assert(order_member(members@[j as int].0@, members@[j as int].1, types) is Ok);
                                assert(result@[k] == o);
                                assert((x + y.push(e))[k] == e);
                            }
                        }
                    }
                },
                Err(err) => {
                    proof {
                        lemma_order_members_error_persists(members@, types, j as int + 1);
                        assert(order_items(items@.take(i + 1), types) is Err);
                        lemma_order_items_error_persists(items@, types, i as int + 1);
                    }
                    return Err(err);
                },
            }
            j = j + 1;
        }
        proof {
            assert(members@.take(members@.len() as int) =~= members@);
            let y = match order_members(members@, types) {
                Ok(v) => v,
                Err(_) => Seq::empty(),
            };
            assert(order_items(items@.take(i + 1), types) == Ok::<Seq<(Seq<char>, OrderDir)>, Seq<char>>(x + y));
        }
        i = i + 1;
    }
    assert(items@.take(items@.len() as int) =~= items@);
    Ok(result)
}

proof fn lemma_aggregate_entries_use_func(func: Seq<char>, fields: Seq<(String, Json)>, table: Seq<char>, map: Seq<(String, String)>)
    ensures
        aggregate_entries(func, fields, table, map) matches Ok(x) ==> forall|i: int|
            0 <= i < x.len() ==> (#[trigger] x[i]).0 == Some(func),
    decreases fields.len(),
{
    if fields.len() > 0 {
        lemma_aggregate_entries_use_func(func, fields.drop_last(), table, map);
    }
}

/// In a `groupBy` ordering, an aggregate key orders every field it lists by
/// its own SQL aggregate: `_count` by `COUNT`, `_avg` by `AVG`, `_sum` by
/// `SUM`, `_min` by `MIN` and `_max` by `MAX`; any other key orders by a
/// plain column.
pub proof fn lemma_order_keys_name_their_aggregates(key: Seq<char>, value: Json, table: Seq<char>, map: Seq<(String, String)>)
    ensures
        member_entries(key, value, table, map) matches Ok(x) ==> forall|i: int|
            0 <= i < x.len() ==> {
                &&& key == "_count"@ ==> (#[trigger] x[i]).0 == Some("COUNT"@)
                &&& key == "_avg"@ ==> x[i].0 == Some("AVG"@)
                &&& key == "_sum"@ ==> x[i].0 == Some("SUM"@)
                &&& key == "_min"@ ==> x[i].0 == Some("MIN"@)
                &&& key == "_max"@ ==> x[i].0 == Some("MAX"@)
                &&& !(key == "_count"@ || key == "_avg"@ || key == "_sum"@ || key == "_min"@ || key == "_max"@)
                    ==> x[i].0 is None
            },
{
    reveal_strlit("_count");
    reveal_strlit("_avg");
    reveal_strlit("_sum");
    reveal_strlit("_min");
    reveal_strlit("_max");
    assert("_count"@.len() == 6 && "_avg"@.len() == 4 && "_sum"@.len() == 4 && "_min"@.len() == 4 && "_max"@.len() == 4);
    assert("_avg"@[1] != "_sum"@[1] && "_avg"@[1] != "_min"@[1] && "_avg"@[1] != "_max"@[1]);
    assert("_sum"@[1] != "_min"@[1] && "_sum"@[1] != "_max"@[1] && "_min"@[2] != "_max"@[2]);
    match aggregate_function(key) {
        Some(f) => match value {
            Json::Object(fields) => lemma_aggregate_entries_use_func(f, fields@, table, map),
            _ => {},
        },
        None => {},
    }
}

} // verus!

