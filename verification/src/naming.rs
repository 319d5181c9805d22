//! Names as the engine handles them: the `table__column` qualifier, snake_case,
//! include aliases and the nested-write operation names.
use vstd::prelude::*;

use crate::ast::OrderBy;
use crate::clauses::joined;
use crate::ident::{find_double_underscore, first_double_underscore, lemma_double_underscore_from};
use crate::text::str_eq;

verus! {

/// Whether `char::is_uppercase` holds of a character beyond ASCII (the
/// Unicode `Uppercase` property).
pub uninterp spec fn unicode_uppercase(c: char) -> bool;

/// Whether `char::is_uppercase` holds of `c`: of the ASCII characters exactly
/// `A` to `Z` have the Unicode `Uppercase` property.
pub open spec fn char_is_uppercase(c: char) -> bool {
    if c <= '\u{7f}' {
        'A' <= c <= 'Z'
    } else {
        unicode_uppercase(c)
    }
}

/// What `char::to_lowercase` yields for a character beyond ASCII (its Unicode
/// lowercase mapping).
pub uninterp spec fn unicode_lowercase(c: char) -> Seq<char>;

/// What `char::to_lowercase` yields for `c`: an ASCII character maps to its
/// ASCII lowercase form, any other to its Unicode lowercase mapping.
pub open spec fn char_to_lowercase(c: char) -> Seq<char> {
    if c <= '\u{7f}' {
        seq![ascii_lower(c)]
    } else {
        unicode_lowercase(c)
    }
}

/// `c` lowered if it is an ASCII capital letter.
pub open spec fn ascii_lower(c: char) -> char {
    if 'A' <= c <= 'Z' {
        ((c as u32) + 32) as char
    } else {
        c
    }
}

/// `char::is_uppercase`: whether `c` has the Unicode `Uppercase` property. Of the
/// ASCII characters exactly `A` to `Z` have it.
#[verifier::external_body]
pub(crate) fn is_uppercase(c: char) -> (r: bool)
    ensures
        r == char_is_uppercase(c),
        c > '\u{7f}' ==> r == unicode_uppercase(c),
{
    c.is_uppercase()
}

/// `char::to_lowercase`, collected: the one or more characters of the lowercase
/// mapping of `c`. An ASCII character maps to its ASCII lowercase form.
#[verifier::external_body]
pub(crate) fn lowercase(c: char) -> (r: Vec<char>)
    ensures
        r@ == char_to_lowercase(c),
        r@.len() >= 1,
        c > '\u{7f}' ==> r@ == unicode_lowercase(c),
{
    c.to_lowercase().collect()
}

/// The first character of the lowercase mapping of `c`, or `c` itself.
pub open spec fn first_lowercase(c: char) -> char {
    if char_to_lowercase(c).len() > 0 {
        char_to_lowercase(c)[0]
    } else {
        c
    }
}

/// camelCase or PascalCase to snake_case: every uppercase character after the
/// first gets a `_` before it, and every character is lowered.
pub open spec fn snake_case(s: Seq<char>) -> Seq<char>
    decreases s.len(),
{
    if s.len() == 0 {
        Seq::empty()
    } else {
        let sep = if char_is_uppercase(s.last()) && s.len() > 1 {
            seq!['_']
        } else {
            Seq::empty()
        };
        snake_case(s.drop_last()) + sep + seq![first_lowercase(s.last())]
    }
}

/// Convert a camelCase or PascalCase string to snake_case.
pub fn to_snake_case(s: &str) -> (r: String)
    ensures
        r@ == snake_case(s@),
{
    let n = s.unicode_len();
    let mut result = String::new();
    let mut i: usize = 0;
    while i < n
        invariant
            i <= n,
            n == s@.len(),
            result@ == snake_case(s@.subrange(0, i as int)),
        decreases n - i,
    {
        let ch = s.get_char(i);
        proof {
            assert(s@.subrange(0, i + 1).drop_last() =~= s@.subrange(0, i as int));
        }
        if is_uppercase(ch) && i > 0 {
            result.push('_');
        }
        let lowered = lowercase(ch);
        result.push(lowered[0]);
        i = i + 1;
        assert(result@ =~= snake_case(s@.subrange(0, i as int)));
    }
    assert(s@.subrange(0, n as int) =~= s@);
    result
}

/// How many ASCII capitals `s` holds after its first character.
pub open spec fn capitals_after_first(s: Seq<char>) -> nat
    decreases s.len(),
{
    if s.len() == 0 {
        0
    } else {
        capitals_after_first(s.drop_last()) + if s.len() > 1 && 'A' <= s.last() <= 'Z' { 1nat } else { 0nat }
    }
}

/// Whether every character of `s` is ASCII.
pub open spec fn all_ascii(s: Seq<char>) -> bool {
    forall|i: int| 0 <= i < s.len() ==> #[trigger] s[i] <= '\u{7f}'
}

/// Whether `s` holds no ASCII capital.
pub open spec fn no_capitals(s: Seq<char>) -> bool {
    forall|i: int| 0 <= i < s.len() ==> !('A' <= #[trigger] s[i] <= 'Z')
}

proof fn lemma_snake_case_of_lowercase(t: Seq<char>)
    requires
        all_ascii(t),
        no_capitals(t),
    ensures
        snake_case(t) == t,
    decreases t.len(),
{
    if t.len() > 0 {
        let u = t.drop_last();
        assert(all_ascii(u) && no_capitals(u)) by {
            assert forall|i: int| 0 <= i < u.len() implies #[trigger] u[i] <= '\u{7f}' && !('A' <= u[i] <= 'Z') by {
                assert(u[i] == t[i]);
            }
        }
        lemma_snake_case_of_lowercase(u);
        assert(t.last() == t[t.len() - 1]);
        assert(t =~= u + seq![t.last()]);
    }
}

/// On ASCII input, snake_case leaves no capital, adds one underscore for
/// each capital after the first character, and is idempotent.
pub proof fn lemma_snake_case_ascii(s: Seq<char>)
    requires
        all_ascii(s),
    ensures
        all_ascii(snake_case(s)),
        no_capitals(snake_case(s)),
        snake_case(s).len() == s.len() + capitals_after_first(s),
        snake_case(snake_case(s)) == snake_case(s),
    decreases s.len(),
{
    if s.len() > 0 {
        let u = s.drop_last();
        assert(all_ascii(u)) by {
            assert forall|i: int| 0 <= i < u.len() implies #[trigger] u[i] <= '\u{7f}' by {
                assert(u[i] == s[i]);
            }
        }
        lemma_snake_case_ascii(u);
        let c = s.last();
        assert(c == s[s.len() - 1]);
        let sep = if char_is_uppercase(c) && s.len() > 1 { seq!['_'] } else { Seq::<char>::empty() };
        let r = snake_case(u) + sep + seq![first_lowercase(c)];
        assert(first_lowercase(c) == ascii_lower(c));
        assert(r == snake_case(s));
        assert forall|i: int| 0 <= i < r.len() implies #[trigger] r[i] <= '\u{7f}' && !('A' <= r[i] <= 'Z') by {
            if i < snake_case(u).len() {
                assert(r[i] == snake_case(u)[i]);
            } else if i < snake_case(u).len() + sep.len() {
                assert(r[i] == '_');
            } else {
                assert(r[i] == ascii_lower(c));
            }
        }
        lemma_snake_case_of_lowercase(r);
    }
}

/// The part of `name` after its first `__`, or all of it when it has none.
pub open spec fn unqualified(name: Seq<char>) -> Seq<char> {
    let i = first_double_underscore(name);
    if i < 0 {
        name
    } else {
        name.subrange(i + 2, name.len() as int)
    }
}

/// The column of a `table__column` order key, or the key itself.
pub fn strip_order_qualifier(name: &str) -> (r: &str)
    ensures
        r@ == unqualified(name@),
{
    proof {
        lemma_double_underscore_from(name@, 0);
    }
    match find_double_underscore(name) {
        Some(i) => {
            let n = name.unicode_len();
            assert(crate::ident::double_underscore_at(name@, i as int));
            name.substring_char(i + 2, n)
        },
        None => name,
    }
}

/// The column of a `table__column` name, or the name itself.
pub fn strip_column_qualifier(name: &str) -> (r: String)
    ensures
        r@ == unqualified(name@),
{
    String::from_str(strip_order_qualifier(name))
}

/// The `distinct` names without their table qualifiers.
pub fn normalize_distinct(distinct: &[String]) -> (r: Vec<String>)
    ensures
        r@.len() == distinct@.len(),
        forall|k: int| 0 <= k < distinct@.len() ==> #[trigger] r@[k]@ == unqualified(distinct@[k]@),
{
    let mut r: Vec<String> = Vec::new();
    let mut i: usize = 0;
    while i < distinct.len()
        invariant
            i <= distinct@.len(),
            r@.len() == i,
            forall|k: int| 0 <= k < i ==> #[trigger] r@[k]@ == unqualified(distinct@[k]@),
        decreases distinct@.len() - i,
    {
        r.push(strip_column_qualifier(distinct[i].as_str()));
        i = i + 1;
    }
    r
}

/// The orderings with their column names stripped of a table qualifier,
/// directions kept.
pub fn normalize_order_by(order_by: &[OrderBy]) -> (r: Vec<OrderBy>)
    ensures
        r@.len() == order_by@.len(),
        forall|k: int|
            0 <= k < order_by@.len() ==> (#[trigger] r@[k]).column@ == unqualified(order_by@[k].column@)
                && r@[k].direction == order_by@[k].direction,
{
    let mut r: Vec<OrderBy> = Vec::new();
    let mut i: usize = 0;
    while i < order_by.len()
        invariant
            i <= order_by@.len(),
            r@.len() == i,
            forall|k: int|
                0 <= k < i ==> (#[trigger] r@[k]).column@ == unqualified(order_by@[k].column@) && r@[k].direction
                    == order_by@[k].direction,
        decreases order_by@.len() - i,
    {
        r.push(OrderBy { column: strip_column_qualifier(order_by[i].column.as_str()), direction: order_by[i].direction });
        i = i + 1;
    }
    r
}

/// The column alias an include's JSON payload is selected under.
pub fn include_alias(field_name: &str) -> (r: String)
    ensures
        r@ == field_name@ + "_json"@,
{
    let mut r = String::from_str(field_name);
    r.push_str("_json");
    r
}

/// `table__column`.
pub open spec fn qualified_name(table: Seq<char>, column: Seq<char>) -> Seq<char> {
    table + seq!['_', '_'] + column
}

/// Write `table__column`.
pub fn qualified_name_of(table: &str, column: &str) -> (r: String)
    ensures
        r@ == qualified_name(table@, column@),
{
    let mut r = String::from_str(table);
    r.push_str("__");
    r.push_str(column);
    proof {
        reveal_strlit("__");
    }
    assert(r@ =~= qualified_name(table@, column@));
    r
}

/// The value `map` holds for `key` (its first entry with that key).
pub open spec fn lookup(map: Seq<(String, String)>, key: Seq<char>) -> Option<Seq<char>>
    decreases map.len(),
{
    if map.len() == 0 {
        None
    } else if map[0].0@ == key {
        Some(map[0].1@)
    } else {
        lookup(map.drop_first(), key)
    }
}

/// The database column of a logical field: its mapped name, or the field name.
pub open spec fn db_column(logical_to_db: Seq<(String, String)>, field: Seq<char>) -> Seq<char> {
    match lookup(logical_to_db, field) {
        Some(c) => c,
        None => field,
    }
}

/// The database column `logical_to_db` maps `field` to, or `field` itself.
pub fn db_column_for(logical_to_db: &[(String, String)], field: &str) -> (r: String)
    ensures
        r@ == db_column(logical_to_db@, field@),
{
    let n = logical_to_db.len();
    let mut i: usize = 0;
    assert(logical_to_db@.subrange(0, n as int) =~= logical_to_db@);
    while i < n
        invariant
            i <= n,
            n == logical_to_db@.len(),
            lookup(logical_to_db@, field@) == lookup(logical_to_db@.subrange(i as int, n as int), field@),
        decreases n - i,
    {
        let ghost rest = logical_to_db@.subrange(i as int, n as int);
        assert(rest.drop_first() =~= logical_to_db@.subrange(i + 1, n as int));
        if str_eq(logical_to_db[i].0.as_str(), field) {
            return String::from_str(logical_to_db[i].1.as_str());
        }
        i = i + 1;
    }
    String::from_str(field)
}

/// The value `logical_to_db` maps `field` to, if any.
pub fn lookup_value<'a>(logical_to_db: &'a [(String, String)], field: &str) -> (r: Option<&'a str>)
    ensures
        match r {
            Some(c) => lookup(logical_to_db@, field@) == Some(c@),
            None => lookup(logical_to_db@, field@) is None,
        },
{
    let n = logical_to_db.len();
    let mut i: usize = 0;
    assert(logical_to_db@.subrange(0, n as int) =~= logical_to_db@);
    while i < n
        invariant
            i <= n,
            n == logical_to_db@.len(),
            lookup(logical_to_db@, field@) == lookup(logical_to_db@.subrange(i as int, n as int), field@),
        decreases n - i,
    {
        let ghost rest = logical_to_db@.subrange(i as int, n as int);
        assert(rest.drop_first() =~= logical_to_db@.subrange(i + 1, n as int));
        if str_eq(logical_to_db[i].0.as_str(), field) {
            return Some(logical_to_db[i].1.as_str());
        }
        i = i + 1;
    }
    None
}

/// The operations a nested create accepts.
pub open spec fn create_operation_names() -> Seq<Seq<char>> {
    seq!["create"@, "createMany"@, "connect"@, "connectOrCreate"@]
}

/// The operations a nested write accepts only on update.
pub open spec fn update_only_operation_names() -> Seq<Seq<char>> {
    seq!["disconnect"@, "set"@, "update"@, "updateMany"@, "delete"@, "deleteMany"@]
}

/// The nested operations, creating ones first.
pub open spec fn operation_names(allow_update_operations: bool) -> Seq<Seq<char>> {
    if allow_update_operations {
        create_operation_names() + update_only_operation_names()
    } else {
        create_operation_names()
    }
}

/// The lowercase mappings of the characters of `s`, concatenated.
pub open spec fn lowercase_seq(s: Seq<char>) -> Seq<char>
    decreases s.len(),
{
    if s.len() == 0 {
        Seq::empty()
    } else {
        lowercase_seq(s.drop_last()) + char_to_lowercase(s.last())
    }
}

/// The characters of `s`, without its underscores when `skip_underscores`.
pub open spec fn kept_chars(s: Seq<char>, skip_underscores: bool) -> Seq<char>
    decreases s.len(),
{
    if s.len() == 0 {
        Seq::empty()
    } else if skip_underscores && s.last() == '_' {
        kept_chars(s.drop_last(), skip_underscores)
    } else {
        kept_chars(s.drop_last(), skip_underscores).push(s.last())
    }
}

proof fn lemma_kept_all(s: Seq<char>)
    ensures
        kept_chars(s, false) == s,
    decreases s.len(),
{
    if s.len() > 0 {
        lemma_kept_all(s.drop_last());
        assert(s.drop_last().push(s.last()) =~= s);
    }
}

/// `s` with its underscores dropped and lowered: how an operation name is
/// compared, whatever its spelling.
pub open spec fn flattened(s: Seq<char>) -> Seq<char> {
    lowercase_seq(kept_chars(s, true))
}

/// The first of `names` from `k` on that flattens to `target`.
pub open spec fn first_match(names: Seq<Seq<char>>, target: Seq<char>, k: int) -> Option<Seq<char>>
    decreases names.len() - k,
{
    if k < 0 || k >= names.len() {
        None
    } else if lowercase_seq(names[k]) == target {
        Some(names[k])
    } else {
        first_match(names, target, k + 1)
    }
}

/// The wire spelling of an operation given in either spelling.
pub open spec fn canonical_operation_name(name: Seq<char>) -> Option<Seq<char>> {
    first_match(operation_names(true), flattened(name), 0)
}

/// The nested operations, creating ones first, as `&'static str`.
pub fn nested_operations(allow_update_operations: bool) -> (v: Vec<&'static str>)
    ensures
        v@.len() == operation_names(allow_update_operations).len(),
        forall|k: int| 0 <= k < v@.len() ==> #[trigger] v@[k]@ == operation_names(allow_update_operations)[k],
{
    let mut v: Vec<&'static str> = Vec::new();
    v.push("create");
    v.push("createMany");
    v.push("connect");
    v.push("connectOrCreate");
    if allow_update_operations {
        v.push("disconnect");
        v.push("set");
        v.push("update");
        v.push("updateMany");
        v.push("delete");
        v.push("deleteMany");
    }
    v
}

/// The lowercase mappings of the characters of `s`, collected; underscores are
/// skipped when `skip_underscores`.
fn lowercase_chars(s: &str, skip_underscores: bool) -> (r: Vec<char>)
    ensures
        r@ == lowercase_seq(kept_chars(s@, skip_underscores)),
{
    let n = s.unicode_len();
    let mut r: Vec<char> = Vec::new();
    let mut i: usize = 0;
    while i < n
        invariant
            i <= n,
            n == s@.len(),
            r@ == lowercase_seq(kept_chars(s@.subrange(0, i as int), skip_underscores)),
        decreases n - i,
    {
        let c = s.get_char(i);
        let ghost pre = s@.subrange(0, i as int);
        proof {
            assert(s@.subrange(0, i + 1).drop_last() =~= pre);
        }
        if !skip_underscores || c != '_' {
            let low = lowercase(c);
            let mut j: usize = 0;
            let ghost r0 = r@;
            while j < low.len()
                invariant
                    j <= low@.len(),
                    r@ == r0 + low@.subrange(0, j as int),
                decreases low@.len() - j,
            {
                r.push(low[j]);
                j = j + 1;
                assert(r@ =~= r0 + low@.subrange(0, j as int));
            }
            proof {
                let k = kept_chars(pre, skip_underscores);
                assert(low@.subrange(0, low@.len() as int) =~= low@);
                assert(k.push(c).drop_last() =~= k);
            }
        }
        i = i + 1;
    }
    assert(s@.subrange(0, n as int) =~= s@);
    r
}

/// Whether two character vectors are equal.
fn chars_eq(a: &Vec<char>, b: &Vec<char>) -> (r: bool)
    ensures
        r == (a@ == b@),
{
    if a.len() != b.len() {
        return false;
    }
    let mut i: usize = 0;
    while i < a.len()
        invariant
            i <= a@.len(),
            a@.len() == b@.len(),
            a@.subrange(0, i as int) == b@.subrange(0, i as int),
        decreases a@.len() - i,
    {
        if a[i] != b[i] {
            return false;
        }
        assert(a@.subrange(0, i + 1) =~= a@.subrange(0, i as int).push(a@[i as int]));
        assert(b@.subrange(0, i + 1) =~= b@.subrange(0, i as int).push(b@[i as int]));
        i = i + 1;
    }
    assert(a@ =~= a@.subrange(0, a@.len() as int));
    assert(b@ =~= b@.subrange(0, b@.len() as int));
    true
}

/// Accept an operation name in the wire spelling or the snake_case one, and
/// answer with the wire spelling.
pub fn canonical_operation(name: &str) -> (r: Option<&'static str>)
    ensures
        match r {
            Some(op) => canonical_operation_name(name@) == Some(op@),
            None => canonical_operation_name(name@) is None,
        },
{
    let target = lowercase_chars(name, true);
    let names = nested_operations(true);
    let mut k: usize = 0;
    while k < names.len()
        invariant
            k <= names@.len(),
            names@.len() == operation_names(true).len(),
            forall|j: int| 0 <= j < names@.len() ==> #[trigger] names@[j]@ == operation_names(true)[j],
            target@ == flattened(name@),
            canonical_operation_name(name@) == first_match(operation_names(true), target@, k as int),
        decreases names@.len() - k,
    {
        let candidate = names[k];
        let low = lowercase_chars(candidate, false);
        proof {
            lemma_kept_all(candidate@);
        }
        if chars_eq(&low, &target) {
            return Some(candidate);
        }
        k = k + 1;
    }
    None
}

/// The nested operations as a comma-separated list, for error messages.
pub fn supported_operations(allow_update_operations: bool) -> (r: String)
    ensures
        r@ == joined(operation_names(allow_update_operations), ", "@),
{
    let names = nested_operations(allow_update_operations);
    let ghost parts = operation_names(allow_update_operations);
    let mut r = String::new();
    let mut i: usize = 0;
    while i < names.len()
        invariant
            i <= names@.len(),
            names@.len() == parts.len(),
            parts == operation_names(allow_update_operations),
            forall|j: int| 0 <= j < names@.len() ==> #[trigger] names@[j]@ == parts[j],
            r@ == joined(parts.take(i as int), ", "@),
        decreases names@.len() - i,
    {
        proof {
            crate::clauses::lemma_joined_take(parts, ", "@, i as int);
        }
        if i > 0 {
            r.push_str(", ");
        }
        r.push_str(names[i]);
        i = i + 1;
        assert(r@ =~= joined(parts.take(i as int), ", "@));
    }
    assert(parts.take(names@.len() as int) =~= parts);
    r
}

/// The rank of a nested operation: removals run before additions.
pub open spec fn operation_rank(name: Seq<char>) -> u8 {
    if name == "set"@ {
        0
    } else if name == "disconnect"@ {
        1
    } else if name == "delete"@ || name == "deleteMany"@ {
        2
    } else if name == "update"@ || name == "updateMany"@ {
        3
    } else {
        4
    }
}

/// Order the operations of one relation so that removals run before additions:
/// `set` first, then `disconnect`, the deletions, the updates, and the rest.
pub fn operation_order(name: &str) -> (r: u8)
    ensures
        r == operation_rank(name@),
{
    if str_eq(name, "set") {
        0
    } else if str_eq(name, "disconnect") {
        1
    } else if str_eq(name, "delete") || str_eq(name, "deleteMany") {
        2
    } else if str_eq(name, "update") || str_eq(name, "updateMany") {
        3
    } else {
        4
    }
}

} // verus!

verus! {

proof fn lemma_separator_at_table_end(table: Seq<char>, column: Seq<char>, from: int)
    requires
        0 <= from <= table.len(),
        first_double_underscore(table) == -1,
        table.len() == 0 || table.last() != '_',
    ensures
        crate::ident::double_underscore_from(qualified_name(table, column), from) == table.len(),
    decreases table.len() - from,
{
    let s = qualified_name(table, column);
    assert(s[table.len() as int] == '_');
    assert(s[table.len() as int + 1] == '_');
    if from < table.len() {
        lemma_double_underscore_from(table, 0);
        if from + 1 < table.len() {
            assert(!crate::ident::double_underscore_at(table, from));
            assert(s[from] == table[from] && s[from + 1] == table[from + 1]);
        } else {
            assert(s[from] == table.last());
        }
        lemma_separator_at_table_end(table, column, from + 1);
    }
}

/// A name written `table__column` splits back at its separator, whenever the
/// table name holds no `__` and does not end in `_`: the reference renders as
/// the qualified column, and the unqualified name is the column.
pub proof fn lemma_qualified_name_splits(table: Seq<char>, column: Seq<char>, quote: char)
    requires
        first_double_underscore(table) == -1,
        table.len() == 0 || table.last() != '_',
    ensures
        first_double_underscore(qualified_name(table, column)) == table.len(),
        crate::ident::identifier_reference(qualified_name(table, column), quote)
            == crate::ident::qualified_identifier(table, column, quote),
        unqualified(qualified_name(table, column)) == column,
{
    lemma_separator_at_table_end(table, column, 0);
    let s = qualified_name(table, column);
    assert(s.subrange(0, table.len() as int) =~= table);
    assert(s.subrange(table.len() as int + 2, s.len() as int) =~= column);
}

proof fn lemma_first_match_is_listed(names: Seq<Seq<char>>, target: Seq<char>, k: int)
    ensures
        first_match(names, target, k) matches Some(op) ==> names.contains(op),
    decreases names.len() - k,
{
    if 0 <= k < names.len() {
        if lowercase_seq(names[k]) == target {
            assert(names[k] == names[k]);
        } else {
            lemma_first_match_is_listed(names, target, k + 1);
        }
    }
}

/// Whatever spelling it was given in, an accepted operation name is answered
/// with the wire spelling of one of the nested operations.
pub proof fn lemma_canonical_operation_is_listed(name: Seq<char>)
    ensures
        canonical_operation_name(name) matches Some(op) ==> operation_names(true).contains(op),
{
    lemma_first_match_is_listed(operation_names(true), flattened(name), 0);
}

proof fn lemma_first_match_law(names: Seq<Seq<char>>, target: Seq<char>, k: int)
    requires
        0 <= k,
    ensures
        first_match(names, target, k) matches Some(op) ==> names.contains(op) && lowercase_seq(op) == target,
        first_match(names, target, k) is None <==> forall|j: int| k <= j < names.len() ==> lowercase_seq(#[trigger] names[j]) != target,
    decreases names.len() - k,
{
    if k < names.len() {
        lemma_first_match_law(names, target, k + 1);
        if lowercase_seq(names[k]) == target {
            assert(names.contains(names[k]));
        }
    }
}

/// An operation name is accepted in either spelling, compared without its
/// underscores and ignoring case: when one is accepted it is answered with a
/// listed operation whose lowercase form is the name's, and a name is refused
/// exactly when no listed operation matches it that way.
pub proof fn lemma_canonical_operation_matches(name: Seq<char>)
    ensures
        canonical_operation_name(name) matches Some(op) ==> operation_names(true).contains(op) && lowercase_seq(op)
            == lowercase_seq(kept_chars(name, true)),
        canonical_operation_name(name) is None <==> forall|j: int|
            0 <= j < operation_names(true).len() ==> lowercase_seq(#[trigger] operation_names(true)[j])
                != lowercase_seq(kept_chars(name, true)),
{
    lemma_first_match_law(operation_names(true), flattened(name), 0);
}

proof fn lemma_letters_lower(s: Seq<char>)
    requires
        forall|x: int| 0 <= x < s.len() ==> ('a' <= #[trigger] s[x] <= 'z' || 'A' <= s[x] <= 'Z'),
    ensures
        lowercase_seq(s) == s.map_values(|c: char| ascii_lower(c)),
        kept_chars(s, true) == s,
    decreases s.len(),
{
    if s.len() > 0 {
        let t = s.drop_last();
        assert forall|x: int| 0 <= x < t.len() implies ('a' <= #[trigger] t[x] <= 'z' || 'A' <= t[x] <= 'Z') by {
            assert(t[x] == s[x]);
        }
        lemma_letters_lower(t);
        assert(s.last() == s[s.len() - 1]);
        assert(s.map_values(|c: char| ascii_lower(c)) =~= t.map_values(|c: char| ascii_lower(c)) + seq![ascii_lower(s.last())]);
        assert(t.push(s.last()) =~= s);
    }
}

proof fn lemma_operation_name_letters(i: int)
    requires
        0 <= i < operation_names(true).len(),
    ensures
        forall|x: int| 0 <= x < operation_names(true)[i].len() ==> ('a' <= #[trigger] operation_names(true)[i][x] <= 'z'
            || 'A' <= operation_names(true)[i][x] <= 'Z'),
        operation_names(true)[i].len() >= 3,
        'a' <= operation_names(true)[i][0] <= 'z',
        'a' <= operation_names(true)[i][1] <= 'z',
{
    reveal_strlit("create");
    reveal_strlit("createMany");
    reveal_strlit("connect");
    reveal_strlit("connectOrCreate");
    reveal_strlit("disconnect");
    reveal_strlit("set");
    reveal_strlit("update");
    reveal_strlit("updateMany");
    reveal_strlit("delete");
    reveal_strlit("deleteMany");
    let names = operation_names(true);
    assert(names =~= seq![
        "create"@, "createMany"@, "connect"@, "connectOrCreate"@, "disconnect"@, "set"@, "update"@,
        "updateMany"@, "delete"@, "deleteMany"@,
    ]);
}

proof fn lemma_operation_names_distinct_lowered(k: int, j: int)
    requires
        0 <= k < j < operation_names(true).len(),
    ensures
        lowercase_seq(operation_names(true)[k]) != lowercase_seq(operation_names(true)[j]),
{
    reveal_strlit("create");
    reveal_strlit("createMany");
    reveal_strlit("connect");
    reveal_strlit("connectOrCreate");
    reveal_strlit("disconnect");
    reveal_strlit("set");
    reveal_strlit("update");
    reveal_strlit("updateMany");
    reveal_strlit("delete");
    reveal_strlit("deleteMany");
    let names = operation_names(true);
    assert(names =~= seq![
        "create"@, "createMany"@, "connect"@, "connectOrCreate"@, "disconnect"@, "set"@, "update"@,
        "updateMany"@, "delete"@, "deleteMany"@,
    ]);
    lemma_operation_name_letters(k);
    lemma_operation_name_letters(j);
    lemma_letters_lower(names[k]);
    lemma_letters_lower(names[j]);
    let a = names[k];
    let b = names[j];
    assert(a.len() != b.len() || a[0] != b[0] || a[1] != b[1]);
    let la = a.map_values(|c: char| ascii_lower(c));
    let lb = b.map_values(|c: char| ascii_lower(c));
    assert(la.len() == a.len() && lb.len() == b.len());
    assert(la[0] == ascii_lower(a[0]) && lb[0] == ascii_lower(b[0]));
    assert(la[1] == ascii_lower(a[1]) && lb[1] == ascii_lower(b[1]));
    assert(ascii_lower(a[0]) == a[0] && ascii_lower(b[0]) == b[0]);
    assert(ascii_lower(a[1]) == a[1] && ascii_lower(b[1]) == b[1]);
    if la == lb {
        assert(la[0] == lb[0] && la[1] == lb[1]);
    }
}

proof fn lemma_wire_spelling_from(j: int, k: int)
    requires
        0 <= k <= j < operation_names(true).len(),
    ensures
        first_match(operation_names(true), lowercase_seq(operation_names(true)[j]), k) == Some(operation_names(true)[j]),
    decreases j - k,
{
    if k < j {
        lemma_operation_names_distinct_lowered(k, j);
        lemma_wire_spelling_from(j, k + 1);
    }
}

/// Each operation's wire spelling is read as itself.
pub proof fn lemma_canonical_operation_of_wire_spelling(op: Seq<char>)
    requires
        operation_names(true).contains(op),
    ensures
        canonical_operation_name(op) == Some(op),
{
    let names = operation_names(true);
    let j = choose|j: int| 0 <= j < names.len() && names[j] == op;
    lemma_operation_name_letters(j);
    lemma_letters_lower(op);
    assert(flattened(op) == lowercase_seq(op));
    lemma_wire_spelling_from(j, 0);
}

/// Reading an operation name is idempotent: what a name is read as is read
/// as itself.
pub proof fn lemma_canonical_operation_idempotent(name: Seq<char>)
    ensures
        canonical_operation_name(name) matches Some(op) ==> canonical_operation_name(op) == Some(op),
{
    lemma_canonical_operation_is_listed(name);
    if let Some(op) = canonical_operation_name(name) {
        lemma_canonical_operation_of_wire_spelling(op);
    }
}

/// The reading of an operation name, in full: a name is answered with a
/// listed operation whose lowercase form is the name's without its
/// underscores, lowercased, and which reads as itself; a name is refused
/// exactly when no listed operation matches it that way.
pub proof fn lemma_canonical_operation_law(name: Seq<char>)
    ensures
        canonical_operation_name(name) matches Some(c) ==> operation_names(true).contains(c)
            && canonical_operation_name(c) == Some(c) && lowercase_seq(c) == lowercase_seq(kept_chars(name, true)),
        canonical_operation_name(name) is None <==> forall|j: int|
            0 <= j < operation_names(true).len() ==> lowercase_seq(#[trigger] operation_names(true)[j])
                != lowercase_seq(kept_chars(name, true)),
{
    lemma_canonical_operation_matches(name);
    lemma_canonical_operation_idempotent(name);
}

/// Removals run before additions: `set` before `disconnect`, `disconnect`
/// before the deletions, and every removal before every creating operation.
pub proof fn lemma_removals_before_additions(removal: Seq<char>, addition: Seq<char>)
    requires
        removal == "set"@ || removal == "disconnect"@ || removal == "delete"@ || removal
            == "deleteMany"@,
        create_operation_names().contains(addition),
    ensures
        operation_rank(removal) < operation_rank(addition),
        operation_rank("set"@) < operation_rank("disconnect"@),
        operation_rank("disconnect"@) < operation_rank("delete"@),
        operation_rank("delete"@) == operation_rank("deleteMany"@),
{
    reveal_strlit("set");
    reveal_strlit("disconnect");
    reveal_strlit("delete");
    reveal_strlit("deleteMany");
    reveal_strlit("update");
    reveal_strlit("updateMany");
    reveal_strlit("create");
    reveal_strlit("createMany");
    reveal_strlit("connect");
    reveal_strlit("connectOrCreate");
    let names = create_operation_names();
    let k = choose|k: int| 0 <= k < names.len() && names[k] == addition;
    assert(0 <= k < 4);
    assert(addition[0] == 'c');
    assert("set"@[0] == 's' && "set"@.len() == 3);
    assert("disconnect"@[0] == 'd' && "disconnect"@.len() == 10);
    assert("delete"@[0] == 'd' && "delete"@.len() == 6);
    assert("deleteMany"@[0] == 'd' && "deleteMany"@.len() == 10 && "deleteMany"@[1] == 'e');
    assert("disconnect"@[1] == 'i');
    assert("update"@[0] == 'u');
    assert("updateMany"@[0] == 'u');
}

} // verus!

verus! {

/// The names of the fields `select` enables, without their table qualifiers.
pub open spec fn enabled_names(select: Seq<(String, bool)>) -> Set<Seq<char>> {
    Set::new(|n: Seq<char>| exists|i: int| 0 <= i < select.len() && #[trigger] select[i].1 && unqualified(select[i].0@) == n)
}

/// The character views of `strings`.
pub open spec fn views_of(strings: Seq<String>) -> Seq<Seq<char>> {
    strings.map_values(|s: String| s@)
}

/// The fields a typed `select` enables, without their table qualifiers and
/// each once.
pub fn normalize_select(select: &[(String, bool)]) -> (r: Vec<String>)
    ensures
        forall|a: int, b: int| 0 <= a < b < r@.len() ==> r@[a]@ != r@[b]@,
        views_of(r@).to_set() == enabled_names(select@),
{
    let mut r: Vec<String> = Vec::new();
    let mut i: usize = 0;
    assert(views_of(r@).to_set() =~= enabled_names(select@.take(0)));
    while i < select.len()
        invariant
            i <= select@.len(),
            forall|a: int, b: int| 0 <= a < b < r@.len() ==> r@[a]@ != r@[b]@,
            views_of(r@).to_set() == enabled_names(select@.take(i as int)),
        decreases select@.len() - i,
    {
        let ghost old_set = enabled_names(select@.take(i as int));
        let ghost new_set = enabled_names(select@.take(i + 1));
        let ghost before = r@;
        assert forall|n: Seq<char>| old_set.contains(n) implies new_set.contains(n) by {
            let j = choose|j: int| 0 <= j < i && #[trigger] select@.take(i as int)[j].1 && unqualified(select@.take(i as int)[j].0@) == n;
            assert(select@.take(i + 1)[j] == select@.take(i as int)[j]);
        }
        if select[i].1 {
            let name = strip_column_qualifier(select[i].0.as_str());
            assert(select@.take(i + 1)[i as int] == select@[i as int]);
            assert(new_set.contains(name@));
            assert forall|n: Seq<char>| new_set.contains(n) implies old_set.contains(n) || n == name@ by {
                let j = choose|j: int| 0 <= j < i + 1 && #[trigger] select@.take(i + 1)[j].1 && unqualified(select@.take(i + 1)[j].0@) == n;
                if j < i {
                    assert(select@.take(i + 1)[j] == select@.take(i as int)[j]);
                }
            }
            let mut seen = false;
            let mut t: usize = 0;
            while t < r.len()
                invariant
                    t <= r@.len(),
                    seen ==> views_of(r@).contains(name@),
                    !seen ==> forall|k: int| 0 <= k < t ==> r@[k]@ != name@,
                decreases r@.len() - t,
            {
                if str_eq(r[t].as_str(), name.as_str()) {
                    assert(views_of(r@)[t as int] == name@);
                    seen = true;
                }
                t = t + 1;
            }
            if !seen {
                r.push(name);
                proof {
                    let rv = views_of(r@);
                    let bv = views_of(before);
                    assert(rv =~= bv.push(name@));
                    assert forall|n: Seq<char>| rv.contains(n) <==> new_set.contains(n) by {
                        if rv.contains(n) {
                            let k = choose|k: int| 0 <= k < rv.len() && rv[k] == n;
                            if k < bv.len() {
                                assert(bv[k] == n);
                                assert(bv.to_set().contains(n));
                            }
                        }
                        if new_set.contains(n) {
                            if n == name@ {
                                assert(rv[bv.len() as int] == n);
                            } else {
                                assert(old_set.contains(n));
                                assert(bv.to_set().contains(n));
                                let k = choose|k: int| 0 <= k < bv.len() && bv[k] == n;
                                assert(rv[k] == n);
                            }
                        }
                    }
                    assert(rv.to_set() =~= new_set);
                }
            } else {
                proof {
                    assert(views_of(r@).to_set() =~= new_set);
                }
            }
        } else {
            proof {
                assert forall|n: Seq<char>| new_set.contains(n) implies old_set.contains(n) by {
                    let j = choose|j: int| 0 <= j < i + 1 && #[trigger] select@.take(i + 1)[j].1 && unqualified(select@.take(i + 1)[j].0@) == n;
                    assert(j < i);
                    assert(select@.take(i + 1)[j] == select@.take(i as int)[j]);
                }
                assert(old_set =~= new_set);
            }
        }
        i = i + 1;
    }
    assert(select@.take(select@.len() as int) =~= select@);
    r
}

} // verus!
