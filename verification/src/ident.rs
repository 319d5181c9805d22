//! Text written straight into a statement rather than bound as a parameter:
//! identifiers, column aliases, JSON path keys, string literals and integers.
use vstd::prelude::*;

verus! {

/// Alias of the row-number column a partition window adds to the inner select.
pub const WINDOW_ROW_NUMBER_ALIAS: &'static str = "__nautilus_rn";

/// Alias of the subquery a partition window wraps the select in.
pub const WINDOW_SUBQUERY_ALIAS: &'static str = "__nautilus_win";

/// The characters of `text` with every occurrence of `quote` doubled.
pub open spec fn escape_doubling(text: Seq<char>, quote: char) -> Seq<char>
    decreases text.len(),
{
    if text.len() == 0 {
        Seq::empty()
    } else {
        let rest = escape_doubling(text.drop_last(), quote);
        if text.last() == quote {
            rest.push(quote).push(quote)
        } else {
            rest.push(text.last())
        }
    }
}

/// `name` delimited by `quote`, with embedded quotes doubled.
pub open spec fn quoted_identifier(name: Seq<char>, quote: char) -> Seq<char> {
    seq![quote] + escape_doubling(name, quote) + seq![quote]
}

/// `table.column`, each part quoted on its own.
pub open spec fn qualified_identifier(table: Seq<char>, column: Seq<char>, quote: char) -> Seq<char> {
    quoted_identifier(table, quote) + seq!['.'] + quoted_identifier(column, quote)
}

/// The join-safe `table__column` alias of a column, quoted as one identifier.
pub open spec fn column_alias(table: Seq<char>, column: Seq<char>, quote: char) -> Seq<char> {
    quoted_identifier(table + seq!['_', '_'] + column, quote)
}

/// Whether `s` holds the separator `__` starting at index `i`.
pub open spec fn double_underscore_at(s: Seq<char>, i: int) -> bool {
    0 <= i && i + 1 < s.len() && s[i] == '_' && s[i + 1] == '_'
}

/// The index of the first `__` in `s` at or after `from`, or `-1` when none follows.
pub open spec fn double_underscore_from(s: Seq<char>, from: int) -> int
    decreases s.len() - from,
{
    if from < 0 || from + 1 >= s.len() {
        -1
    } else if double_underscore_at(s, from) {
        from
    } else {
        double_underscore_from(s, from + 1)
    }
}

/// What the search for `__` answers: `-1`, or an in-bounds separator at or after `from`
/// with no separator between `from` and it.
pub proof fn lemma_double_underscore_from(s: Seq<char>, from: int)
    requires
        0 <= from,
    ensures
        double_underscore_from(s, from) == -1 || (from <= double_underscore_from(s, from)
            && double_underscore_at(s, double_underscore_from(s, from))),
        forall|j: int|
            from <= j < (if double_underscore_from(s, from) == -1 {
                s.len() as int
            } else {
                double_underscore_from(s, from)
            }) ==> !#[trigger] double_underscore_at(s, j),
    decreases s.len() - from,
{
    if from < 0 || from + 1 >= s.len() {
    } else if double_underscore_at(s, from) {
    } else {
        lemma_double_underscore_from(s, from + 1);
    }
}

/// The index of the first `__` in `s`, or `-1` when it has none.
pub open spec fn first_double_underscore(s: Seq<char>) -> int {
    double_underscore_from(s, 0)
}

/// A reference written with the `table__column` shorthand: split on the first
/// `__` into a qualified reference, or quoted whole when there is no `__`.
pub open spec fn identifier_reference(name: Seq<char>, quote: char) -> Seq<char> {
    let i = first_double_underscore(name);
    if i < 0 {
        quoted_identifier(name, quote)
    } else {
        qualified_identifier(name.subrange(0, i), name.subrange(i + 2, name.len() as int), quote)
    }
}

/// A PostgreSQL native composite field reference: `("table"."column")."field"`.
pub open spec fn composite_field_reference(
    table: Seq<char>,
    column: Seq<char>,
    field: Seq<char>,
    quote: char,
) -> Seq<char> {
    seq!['('] + qualified_identifier(table, column, quote) + seq![')', '.'] + quoted_identifier(
        field,
        quote,
    )
}

/// The characters of `key` with `"` and `\` escaped by a backslash.
pub open spec fn escape_json_key(key: Seq<char>) -> Seq<char>
    decreases key.len(),
{
    if key.len() == 0 {
        Seq::empty()
    } else {
        let rest = escape_json_key(key.drop_last());
        let ch = key.last();
        if ch == '"' || ch == '\\' {
            rest.push('\\').push(ch)
        } else {
            rest.push(ch)
        }
    }
}

/// The JSON path `$."key"` selecting one object member.
pub open spec fn json_path_key(key: Seq<char>) -> Seq<char> {
    seq!['$', '.', '"'] + escape_json_key(key) + seq!['"']
}

/// `value` as a single-quoted SQL string literal, embedded quotes doubled.
pub open spec fn sql_string_literal(value: Seq<char>) -> Seq<char> {
    seq!['\''] + escape_doubling(value, '\'') + seq!['\'']
}

/// The single-quoted JSON path literal selecting the member `key`.
pub open spec fn json_object_path_literal(key: Seq<char>) -> Seq<char> {
    sql_string_literal(json_path_key(key))
}

/// The ASCII digit of `d`.
pub open spec fn digit_char(d: nat) -> char {
    ((48 + d) as u8) as char
}

/// The decimal spelling of `n`, without sign or leading zeros.
pub open spec fn decimal(n: nat) -> Seq<char>
    decreases n,
{
    if n < 10 {
        seq![digit_char(n)]
    } else {
        decimal(n / 10).push(digit_char(n % 10))
    }
}

/// Append `name` to `sql` as a quoted identifier.
pub fn push_quoted_identifier(sql: &mut String, name: &str, quote: char)
    ensures
        final(sql)@ == old(sql)@ + quoted_identifier(name@, quote),
{
    let ghost start = sql@;
    sql.push(quote);
    push_escaped(sql, name, quote);
    sql.push(quote);
}

/// Append `text` with every `quote` doubled.
fn push_escaped(sql: &mut String, text: &str, quote: char)
    ensures
        final(sql)@ == old(sql)@ + escape_doubling(text@, quote),
{
    let ghost start = sql@;
    let n = text.unicode_len();
    let mut i: usize = 0;
    while i < n
        invariant
            i <= n,
            n == text@.len(),
            sql@ == start + escape_doubling(text@.subrange(0, i as int), quote),
        decreases n - i,
    {
        let ch = text.get_char(i);
        proof {
            assert(text@.subrange(0, i + 1).drop_last() =~= text@.subrange(0, i as int));
        }
        if ch == quote {
            sql.push(quote);
        }
        sql.push(ch);
        i = i + 1;
    }
    proof {
        assert(text@.subrange(0, n as int) =~= text@);
    }
}

/// Append `table.column`, each part quoted.
pub fn push_qualified_identifier(sql: &mut String, table: &str, column: &str, quote: char)
    ensures
        final(sql)@ == old(sql)@ + qualified_identifier(table@, column@, quote),
{
    push_quoted_identifier(sql, table, quote);
    sql.push('.');
    push_quoted_identifier(sql, column, quote);
}

/// Append a table name as a quoted identifier.
pub fn push_table_name(sql: &mut String, table: &str, quote: char)
    ensures
        final(sql)@ == old(sql)@ + quoted_identifier(table@, quote),
{
    push_quoted_identifier(sql, table, quote);
}

/// Render a join-safe `table__column` alias directly into the SQL buffer.
pub fn push_column_alias(sql: &mut String, table: &str, column: &str, quote: char)
    ensures
        final(sql)@ == old(sql)@ + column_alias(table@, column@, quote),
{
    proof {
        lemma_escape_doubling_concat(table@, seq!['_', '_'], quote);
        lemma_escape_doubling_concat(table@ + seq!['_', '_'], column@, quote);
        reveal_with_fuel(escape_doubling, 3);
        assert(seq!['_', '_'].drop_last() =~= seq!['_']);
        assert(seq!['_'].drop_last() =~= Seq::<char>::empty());
    }
    sql.push(quote);
    push_escaped(sql, table, quote);
    if quote == '_' {
        sql.push_str("____");
    } else {
        sql.push_str("__");
    }
    push_escaped(sql, column, quote);
    sql.push(quote);
    proof {
        reveal_strlit("____");
        reveal_strlit("__");
    }
}

/// Escaping distributes over concatenation.
pub proof fn lemma_escape_doubling_concat(a: Seq<char>, b: Seq<char>, quote: char)
    ensures
        escape_doubling(a + b, quote) == escape_doubling(a, quote) + escape_doubling(b, quote),
    decreases b.len(),
{
    if b.len() == 0 {
        assert(a + b =~= a);
    } else {
        lemma_escape_doubling_concat(a, b.drop_last(), quote);
        assert((a + b).drop_last() =~= a + b.drop_last());
    }
}

/// Escaping JSON keys distributes over concatenation.
pub proof fn lemma_escape_json_key_concat(a: Seq<char>, b: Seq<char>)
    ensures
        escape_json_key(a + b) == escape_json_key(a) + escape_json_key(b),
    decreases b.len(),
{
    if b.len() == 0 {
        assert(a + b =~= a);
    } else {
        lemma_escape_json_key_concat(a, b.drop_last());
        assert((a + b).drop_last() =~= a + b.drop_last());
    }
}

/// Find the first `__` in `name`, or `None`.
pub fn find_double_underscore(name: &str) -> (res: Option<usize>)
    ensures
        match res {
            Some(i) => i as int == first_double_underscore(name@),
            None => first_double_underscore(name@) == -1,
        },
{
    let n = name.unicode_len();
    if n < 2 {
        return None;
    }
    let mut i: usize = 0;
    while i + 1 < n
        invariant
            n == name@.len(),
            n >= 2,
            i + 1 <= n,
            double_underscore_from(name@, i as int) == first_double_underscore(name@),
        decreases n - i,
    {
        if name.get_char(i) == '_' && name.get_char(i + 1) == '_' {
            return Some(i);
        }
        i = i + 1;
    }
    None
}

/// Render an identifier reference that may use the `table__column` shorthand.
///
/// The split happens only on the first `__`, so mapped column names like
/// `users__profile__slug` still render as `users.profile__slug`.
pub fn push_identifier_reference(sql: &mut String, name: &str, quote: char)
    ensures
        final(sql)@ == old(sql)@ + identifier_reference(name@, quote),
{
    proof {
        lemma_double_underscore_from(name@, 0);
    }
    match find_double_underscore(name) {
        Some(i) => {
            let n = name.unicode_len();
            let table = name.substring_char(0, i);
            let column = name.substring_char(i + 2, n);
            push_qualified_identifier(sql, table, column, quote);
        },
        None => {
            push_quoted_identifier(sql, name, quote);
        },
    }
}

/// Render a PostgreSQL native composite field reference.
pub fn push_composite_field_reference(
    sql: &mut String,
    table: &str,
    column: &str,
    field: &str,
    quote: char,
)
    ensures
        final(sql)@ == old(sql)@ + composite_field_reference(table@, column@, field@, quote),
{
    let ghost start = sql@;
    sql.push('(');
    push_qualified_identifier(sql, table, column, quote);
    sql.push(')');
    sql.push('.');
    push_quoted_identifier(sql, field, quote);
    assert(sql@ =~= start + composite_field_reference(table@, column@, field@, quote));
}

/// Append the JSON path `$."key"`, escaping `"` and `\` in the key.
fn push_json_path_key(sql: &mut String, key: &str)
    ensures
        final(sql)@ == old(sql)@ + json_path_key(key@),
{
    let ghost start = sql@;
    sql.push('$');
    sql.push('.');
    sql.push('"');
    let n = key.unicode_len();
    let mut i: usize = 0;
    while i < n
        invariant
            i <= n,
            n == key@.len(),
            sql@ == start + seq!['$', '.', '"'] + escape_json_key(key@.subrange(0, i as int)),
        decreases n - i,
    {
        let ch = key.get_char(i);
        proof {
            assert(key@.subrange(0, i + 1).drop_last() =~= key@.subrange(0, i as int));
        }
        if ch == '"' || ch == '\\' {
            sql.push('\\');
        }
        sql.push(ch);
        i = i + 1;
    }
    proof {
        assert(key@.subrange(0, n as int) =~= key@);
    }
    sql.push('"');
    assert(sql@ =~= start + json_path_key(key@));
}

/// Render a single-quoted JSON object path literal for a schema-known key.
pub fn push_json_object_path_literal(sql: &mut String, key: &str)
    ensures
        final(sql)@ == old(sql)@ + json_object_path_literal(key@),
{
    let mut path = String::new();
    push_json_path_key(&mut path, key);
    assert(path@ =~= json_path_key(key@));
    push_sql_string_literal(sql, path.as_str());
}

/// Render a single-quoted SQL string literal directly into the SQL buffer.
pub fn push_sql_string_literal(sql: &mut String, value: &str)
    ensures
        final(sql)@ == old(sql)@ + sql_string_literal(value@),
{
    sql.push('\'');
    push_escaped(sql, value, '\'');
    sql.push('\'');
}

/// The decimal digits of `value`, most significant first.
pub fn decimal_digits(value: u64) -> (digits: Vec<char>)
    ensures
        digits@ == decimal(value as nat),
    decreases value,
{
    if value < 10 {
        let d: u8 = value as u8;
        let mut v = Vec::new();
        v.push((48u8 + d) as char);
        v
    } else {
        let mut v = decimal_digits(value / 10);
        let d: u8 = (value % 10) as u8;
        v.push((48u8 + d) as char);
        v
    }
}

/// Append a `u64` value directly into the SQL buffer.
pub fn push_u64(sql: &mut String, value: u64)
    ensures
        final(sql)@ == old(sql)@ + decimal(value as nat),
{
    let ghost start = sql@;
    let digits = decimal_digits(value);
    let n = digits.len();
    let mut i: usize = 0;
    while i < n
        invariant
            i <= n,
            n == digits@.len(),
            digits@ == decimal(value as nat),
            sql@ == start + digits@.subrange(0, i as int),
        decreases n - i,
    {
        sql.push(digits[i]);
        i = i + 1;
        assert(sql@ =~= start + digits@.subrange(0, i as int));
    }
    assert(digits@.subrange(0, n as int) =~= digits@);
}

/// Append a `u32` value directly into the SQL buffer.
pub fn push_u32(sql: &mut String, value: u32)
    ensures
        final(sql)@ == old(sql)@ + decimal(value as nat),
{
    push_u64(sql, value as u64);
}

/// Append a `usize` value directly into the SQL buffer.
pub fn push_usize(sql: &mut String, value: usize)
    ensures
        final(sql)@ == old(sql)@ + decimal(value as nat),
{
    push_u64(sql, value as u64);
}

} // verus!

verus! {

/// Read an escaped identifier body back: a doubled `quote` stands for one.
pub open spec fn unescape_doubling(text: Seq<char>, quote: char) -> Seq<char>
    decreases text.len(),
{
    if text.len() == 0 {
        Seq::empty()
    } else if text.len() >= 2 && text[0] == quote && text[1] == quote {
        seq![quote] + unescape_doubling(text.subrange(2, text.len() as int), quote)
    } else {
        seq![text[0]] + unescape_doubling(text.drop_first(), quote)
    }
}

/// Quoting loses nothing: the body of a quoted identifier reads back as the
/// name, so two different names never quote alike.
pub proof fn lemma_quoted_identifier_round_trip(name: Seq<char>, quote: char)
    ensures
        unescape_doubling(escape_doubling(name, quote), quote) == name,
        quoted_identifier(name, quote) == seq![quote] + escape_doubling(name, quote) + seq![quote],
    decreases name.len(),
{
    if name.len() > 0 {
        let c = name[0];
        let rest = name.drop_first();
        assert(name =~= seq![c] + rest);
        lemma_escape_doubling_concat(seq![c], rest, quote);
        reveal_with_fuel(escape_doubling, 2);
        assert(seq![c].drop_last() =~= Seq::<char>::empty());
        lemma_quoted_identifier_round_trip(rest, quote);
        let e = escape_doubling(rest, quote);
        if c == quote {
            assert(escape_doubling(seq![c], quote) =~= seq![quote, quote]);
            let t = seq![quote, quote] + e;
            assert(t.subrange(2, t.len() as int) =~= e);
        } else {
            assert(escape_doubling(seq![c], quote) =~= seq![c]);
            let t = seq![c] + e;
            assert(t.drop_first() =~= e);
        }
        assert(seq![c] + rest =~= name);
    }
}

/// Different names never quote alike.
pub proof fn lemma_quoted_identifier_injective(a: Seq<char>, b: Seq<char>, quote: char)
    requires
        quoted_identifier(a, quote) == quoted_identifier(b, quote),
    ensures
        a == b,
{
    let qa = quoted_identifier(a, quote);
    assert(qa.subrange(1, qa.len() - 1) =~= escape_doubling(a, quote));
    let qb = quoted_identifier(b, quote);
    assert(qb.subrange(1, qb.len() - 1) =~= escape_doubling(b, quote));
    lemma_quoted_identifier_round_trip(a, quote);
    lemma_quoted_identifier_round_trip(b, quote);
}

} // verus!
