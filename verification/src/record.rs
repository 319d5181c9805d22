//! Reading PostgreSQL record (composite) literals such as `(1,"a b",)`.
use vstd::prelude::*;

verus! {

/// Whether `c` has the Unicode `White_Space` property, which is what
/// `char::is_whitespace` and `str::trim` go by.
pub open spec fn is_white_space(c: char) -> bool {
    ||| '\u{9}' <= c <= '\u{d}'
    ||| c == ' '
    ||| c == '\u{85}'
    ||| c == '\u{a0}'
    ||| c == '\u{1680}'
    ||| '\u{2000}' <= c <= '\u{200a}'
    ||| c == '\u{2028}'
    ||| c == '\u{2029}'
    ||| c == '\u{202f}'
    ||| c == '\u{205f}'
    ||| c == '\u{3000}'
}

/// `s` without its leading white space.
pub open spec fn trim_leading(s: Seq<char>) -> Seq<char>
    decreases s.len(),
{
    if s.len() > 0 && is_white_space(s[0]) {
        trim_leading(s.drop_first())
    } else {
        s
    }
}

/// `s` without its trailing white space.
pub open spec fn trim_trailing(s: Seq<char>) -> Seq<char>
    decreases s.len(),
{
    if s.len() > 0 && is_white_space(s.last()) {
        trim_trailing(s.drop_last())
    } else {
        s
    }
}

/// `s` without leading and trailing white space.
pub open spec fn trimmed(s: Seq<char>) -> Seq<char> {
    trim_trailing(trim_leading(s))
}

/// The text of a quoted field whose body starts at `i`, and the position just
/// after its closing quote (or the end). `""` stands for `"` and a backslash
/// takes the next character literally.
pub open spec fn quoted_body(s: Seq<char>, i: int) -> (Seq<char>, int)
    decreases s.len() - i,
{
    if i < 0 || i >= s.len() {
        (Seq::empty(), s.len() as int)
    } else if s[i] == '"' {
        if i + 1 < s.len() && s[i + 1] == '"' {
            let r = quoted_body(s, i + 2);
            (seq!['"'] + r.0, r.1)
        } else {
            (Seq::empty(), i + 1)
        }
    } else if s[i] == '\\' {
        if i + 1 < s.len() {
            let r = quoted_body(s, i + 2);
            (seq![s[i + 1]] + r.0, r.1)
        } else {
            (Seq::empty(), s.len() as int)
        }
    } else {
        let r = quoted_body(s, i + 1);
        (seq![s[i]] + r.0, r.1)
    }
}

/// The position of the first `,` at or after `i`, or the end.
pub open spec fn unquoted_end(s: Seq<char>, i: int) -> int
    decreases s.len() - i,
{
    if i < 0 || i >= s.len() || s[i] == ',' {
        i
    } else {
        unquoted_end(s, i + 1)
    }
}

/// The field that starts at `i` and the position after it: a quoted field is
/// always present, an empty unquoted one is SQL `NULL`.
pub open spec fn record_field(s: Seq<char>, i: int) -> (Option<Seq<char>>, int) {
    if 0 <= i < s.len() && s[i] == '"' {
        let r = quoted_body(s, i + 1);
        (Some(r.0), r.1)
    } else {
        let j = unquoted_end(s, i);
        (if j <= i {
            None
        } else {
            Some(s.subrange(i, j))
        }, j)
    }
}

/// The fields from position `i` on: one field, then more after each `,`.
pub open spec fn record_fields(s: Seq<char>, i: int) -> Seq<Option<Seq<char>>>
    decreases s.len() - i,
{
    let f = record_field(s, i);
    if i < f.1 + 1 && 0 <= f.1 < s.len() && s[f.1] == ',' {
        seq![f.0] + record_fields(s, f.1 + 1)
    } else {
        seq![f.0]
    }
}

/// The fields of a record literal, or `None` when the trimmed input is not
/// wrapped in parentheses.
pub open spec fn record_literal(input: Seq<char>) -> Option<Seq<Option<Seq<char>>>> {
    let t = trimmed(input);
    if t.len() >= 2 && t[0] == '(' && t.last() == ')' {
        Some(record_fields(t.subrange(1, t.len() - 1), 0))
    } else {
        None
    }
}

/// The character views of parsed fields.
pub open spec fn field_views(fields: Seq<Option<String>>) -> Seq<Option<Seq<char>>> {
    fields.map_values(
        |f: Option<String>|
            match f {
                Some(s) => Some(s@),
                None => None,
            },
    )
}

proof fn lemma_trim_leading_skip(s: Seq<char>, i: int)
    requires
        0 <= i <= s.len(),
        forall|j: int| 0 <= j < i ==> is_white_space(#[trigger] s[j]),
    ensures
        trim_leading(s) == trim_leading(s.subrange(i, s.len() as int)),
    decreases i,
{
    if i == 0 {
        assert(s.subrange(0, s.len() as int) =~= s);
    } else {
        let t = s.drop_first();
        assert forall|j: int| 0 <= j < i - 1 implies is_white_space(#[trigger] t[j]) by {
            assert(t[j] == s[j + 1]);
        }
        lemma_trim_leading_skip(t, i - 1);
        assert(t.subrange(i - 1, t.len() as int) =~= s.subrange(i, s.len() as int));
    }
}

proof fn lemma_trim_trailing_skip(s: Seq<char>, k: int)
    requires
        0 <= k <= s.len(),
        forall|j: int| k <= j < s.len() ==> is_white_space(#[trigger] s[j]),
    ensures
        trim_trailing(s) == trim_trailing(s.subrange(0, k)),
    decreases s.len() - k,
{
    if k == s.len() {
        assert(s.subrange(0, k) =~= s);
    } else {
        let t = s.drop_last();
        assert forall|j: int| k <= j < t.len() implies is_white_space(#[trigger] t[j]) by {
            assert(t[j] == s[j]);
        }
        lemma_trim_trailing_skip(t, k);
        assert(t.subrange(0, k) =~= s.subrange(0, k));
    }
}

proof fn lemma_quoted_body_advances(s: Seq<char>, i: int)
    requires
        0 <= i,
    ensures
        i <= quoted_body(s, i).1 <= s.len() || (i > s.len() && quoted_body(s, i).1 == s.len()),
    decreases s.len() - i,
{
    if i >= s.len() {
    } else if s[i] == '"' {
        if i + 1 < s.len() && s[i + 1] == '"' {
            lemma_quoted_body_advances(s, i + 2);
        }
    } else if s[i] == '\\' {
        if i + 1 < s.len() {
            lemma_quoted_body_advances(s, i + 2);
        }
    } else {
        lemma_quoted_body_advances(s, i + 1);
    }
}

proof fn lemma_unquoted_end_bounds(s: Seq<char>, i: int)
    requires
        0 <= i <= s.len(),
    ensures
        i <= unquoted_end(s, i) <= s.len(),
        unquoted_end(s, i) < s.len() ==> s[unquoted_end(s, i)] == ',',
        forall|j: int| i <= j < unquoted_end(s, i) ==> s[j] != ',',
    decreases s.len() - i,
{
    if i < s.len() && s[i] != ',' {
        lemma_unquoted_end_bounds(s, i + 1);
    }
}

/// Whether `c` is white space, as `char::is_whitespace` decides it.
pub fn is_whitespace_char(c: char) -> (r: bool)
    ensures
        r == is_white_space(c),
{
    ('\u{9}' <= c && c <= '\u{d}') || c == ' ' || c == '\u{85}' || c == '\u{a0}' || c
        == '\u{1680}' || ('\u{2000}' <= c && c <= '\u{200a}') || c == '\u{2028}' || c
        == '\u{2029}' || c == '\u{202f}' || c == '\u{205f}' || c == '\u{3000}'
}

/// The characters of `s`, in order.
pub fn chars_of(s: &str) -> (v: Vec<char>)
    ensures
        v@ == s@,
{
    let n = s.unicode_len();
    let mut v: Vec<char> = Vec::new();
    let mut i: usize = 0;
    while i < n
        invariant
            i <= n,
            n == s@.len(),
            v@ == s@.subrange(0, i as int),
        decreases n - i,
    {
        v.push(s.get_char(i));
        i = i + 1;
        assert(v@ =~= s@.subrange(0, i as int));
    }
    assert(s@.subrange(0, n as int) =~= s@);
    v
}

/// Read a quoted field whose body starts at `i` of `s`.
fn read_quoted(s: &Vec<char>, i: usize) -> (r: (String, usize))
    requires
        i <= s@.len(),
    ensures
        r.0@ == quoted_body(s@, i as int).0,
        r.1 as int == quoted_body(s@, i as int).1,
{
    let n = s.len();
    let mut buf = String::new();
    let mut pos = i;
    loop
        invariant_except_break
            pos <= n,
            n == s@.len(),
            buf@ + quoted_body(s@, pos as int).0 == quoted_body(s@, i as int).0,
            quoted_body(s@, pos as int).1 == quoted_body(s@, i as int).1,
        ensures
            buf@ == quoted_body(s@, i as int).0,
            pos as int == quoted_body(s@, i as int).1,
        decreases n - pos,
    {
        if pos >= n {
            assert(buf@ =~= buf@ + Seq::<char>::empty());
            break;
        }
        let c = s[pos];
        if c == '"' {
            if pos + 1 < n && s[pos + 1] == '"' {
                buf.push('"');
                assert(seq!['"'] + quoted_body(s@, pos + 2).0 == quoted_body(s@, pos as int).0);
                assert(buf@ + quoted_body(s@, pos + 2).0 =~= quoted_body(s@, i as int).0);
                pos = pos + 2;
            } else {
                assert(buf@ =~= buf@ + Seq::<char>::empty());
                pos = pos + 1;
                break;
            }
        } else if c == '\\' {
            if pos + 1 < n {
                buf.push(s[pos + 1]);
                assert(buf@ + quoted_body(s@, pos + 2).0 =~= quoted_body(s@, i as int).0);
                pos = pos + 2;
            } else {
                assert(buf@ =~= buf@ + Seq::<char>::empty());
                pos = n;
                break;
            }
        } else {
            buf.push(c);
            assert(buf@ + quoted_body(s@, pos + 1).0 =~= quoted_body(s@, i as int).0);
            pos = pos + 1;
        }
    }
    (buf, pos)
}

/// Read the field that starts at `i` of `s`.
fn read_field(s: &Vec<char>, i: usize) -> (r: (Option<String>, usize))
    requires
        i <= s@.len(),
    ensures
        (match r.0 {
            Some(t) => Some(t@),
            None => None,
        }) == record_field(s@, i as int).0,
        r.1 as int == record_field(s@, i as int).1,
        i < r.1 + 1,
        r.1 <= s@.len(),
{
    let n = s.len();
    if i < n && s[i] == '"' {
        proof {
            lemma_quoted_body_advances(s@, i + 1);
        }
        let (buf, pos) = read_quoted(s, i + 1);
        (Some(buf), pos)
    } else {
        proof {
            lemma_unquoted_end_bounds(s@, i as int);
        }
        let mut buf = String::new();
        let mut pos = i;
        while pos < n && s[pos] != ','
            invariant
                i <= pos <= unquoted_end(s@, i as int),
                n == s@.len(),
                unquoted_end(s@, i as int) <= n,
                unquoted_end(s@, i as int) < n ==> s@[unquoted_end(s@, i as int)] == ',',
                forall|j: int| i <= j < unquoted_end(s@, i as int) ==> s@[j] != ',',
                buf@ == s@.subrange(i as int, pos as int),
            decreases n - pos,
        {
            buf.push(s[pos]);
            pos = pos + 1;
            assert(buf@ =~= s@.subrange(i as int, pos as int));
        }
        if pos == i {
            (None, pos)
        } else {
            (Some(buf), pos)
        }
    }
}

/// Parse a PostgreSQL record literal into its top-level fields.
///
/// Returns `None` when the trimmed input is not parenthesised. Each field is
/// `None` for an unquoted empty slot (SQL `NULL`), or its text with the quotes
/// stripped and the `""` and backslash escapes decoded.
pub fn parse_pg_record_literal(input: &str) -> (r: Option<Vec<Option<String>>>)
    ensures
        match r {
            Some(v) => record_literal(input@) == Some(field_views(v@)),
            None => record_literal(input@) is None,
        },
{
    let cs = chars_of(input);
    let n = cs.len();
    let mut start: usize = 0;
    while start < n && is_whitespace_char(cs[start])
        invariant
            start <= n,
            n == cs@.len(),
            forall|j: int| 0 <= j < start ==> is_white_space(#[trigger] cs@[j]),
        decreases n - start,
    {
        start = start + 1;
    }
    let ghost lead = cs@.subrange(start as int, n as int);
    proof {
        lemma_trim_leading_skip(cs@, start as int);
        assert(trim_leading(lead) == lead);
    }
    let mut end: usize = n;
    while end > start && is_whitespace_char(cs[end - 1])
        invariant
            start <= end <= n,
            n == cs@.len(),
            forall|j: int| end <= j < n ==> is_white_space(#[trigger] cs@[j]),
        decreases end,
    {
        end = end - 1;
    }
    let ghost t = cs@.subrange(start as int, end as int);
    proof {
        assert forall|j: int| (end - start) <= j < lead.len() implies is_white_space(
            #[trigger] lead[j],
        ) by {
            assert(lead[j] == cs@[start + j]);
        }
        lemma_trim_trailing_skip(lead, end - start);
        assert(lead.subrange(0, end - start) =~= t);
        assert(trim_trailing(t) == t);
        assert(trimmed(input@) == t);
    }
    if end - start < 2 || cs[start] != '(' || cs[end - 1] != ')' {
        return None;
    }
    let mut inner: Vec<char> = Vec::new();
    let mut k = start + 1;
    while k < end - 1
        invariant
            start + 1 <= k <= end - 1,
            end <= n,
            n == cs@.len(),
            inner@ == cs@.subrange(start + 1, k as int),
        decreases end - 1 - k,
    {
        inner.push(cs[k]);
        k = k + 1;
        assert(inner@ =~= cs@.subrange(start + 1, k as int));
    }
    let ghost s = inner@;
    proof {
        assert(s =~= t.subrange(1, t.len() - 1));
    }
    let mut fields: Vec<Option<String>> = Vec::new();
    let mut pos: usize = 0;
    loop
        invariant_except_break
            pos <= s.len(),
            inner@ == s,
            field_views(fields@) + record_fields(s, pos as int) == record_fields(s, 0),
        ensures
            field_views(fields@) == record_fields(s, 0),
        decreases s.len() - pos,
    {
        let (field, next) = read_field(&inner, pos);
        let ghost fv = match &field {
            Some(t) => Some(t@),
            None => None::<Seq<char>>,
        };
        let ghost before = fields@;
        fields.push(field);
        proof {
            assert(field_views(fields@) =~= field_views(before).push(fv));
        }
        if next < inner.len() && inner[next] == ',' {
            assert(field_views(fields@) + record_fields(s, next + 1) =~= record_fields(s, 0));
            pos = next + 1;
        } else {
            assert(field_views(fields@) =~= record_fields(s, 0));
            break;
        }
    }
    Some(fields)
}

} // verus!
