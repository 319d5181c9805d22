//! Attaching loaded relation children to their parent rows: the JSON form of
//! a value, the key children are grouped by, the JSON object of a child row,
//! and the value each parent receives.
use vstd::prelude::*;

use crate::ast::{BinaryOp, Expr, Value};
use crate::ident::{decimal, digit_char, push_u64};
use crate::json::{
    deep_entries, deep_items, json_clone, lemma_deep_entries_index, lemma_deep_entries_len,
    lemma_deep_items_index, lemma_deep_items_len, Json, JsonNumber, JsonView,
};
use crate::model::{row_get, IncludeProjection, Row};
use crate::ordered::{
    key_position, lemma_key_position_bounds, lemma_map_insert, map_insert, strictly_ascending,
};
use crate::distinct::{clone_value, deep_value, deep_values, float_key, lemma_deep_values_len};
use crate::field::{hstore_view, text_of};
use crate::record::chars_of;
use crate::text::str_eq;
use crate::unique::str_less;

verus! {

/// The `k`-th hexadecimal digit of `u`, the most significant first.
pub open spec fn uuid_nibble(u: u128, k: int) -> nat {
    ((u >> ((4 * (31 - k)) as u128)) & 0xFu128) as nat
}

/// The hyphenated lowercase form of a UUID: its 32 hexadecimal digits, most
/// significant first, with a hyphen after the 8th, 12th, 16th and 20th.
pub open spec fn uuid_text(u: u128) -> Seq<char> {
    Seq::new(
        36,
        |i: int|
            if i == 8 || i == 13 || i == 18 || i == 23 {
                '-'
            } else {
                hex_digit(
                    uuid_nibble(
                        u,
                        if i < 8 {
                            i
                        } else if i < 13 {
                            i - 1
                        } else if i < 18 {
                            i - 2
                        } else if i < 23 {
                            i - 3
                        } else {
                            i - 4
                        },
                    ),
                )
            },
    )
}

/// The hyphenated lowercase form of a UUID, from `uuid::Uuid`'s `Display`;
/// the claim is that it writes the 32 digits grouped 8-4-4-4-12.
#[verifier::external_body]
fn hyphenated_uuid(u: u128) -> (r: String)
    ensures
        r@ == uuid_text(u),
{
    uuid::Uuid::from_u128(u).to_string()
}

/// An integer as a JSON number.
pub open spec fn int_view(i: int) -> JsonView {
    if i >= 0 {
        JsonView::Number(JsonNumber::PosInt(i as u64))
    } else {
        JsonView::Number(JsonNumber::NegInt(i as i64))
    }
}

/// Whether the double with bit pattern `bits` is finite: its exponent bits
/// are not all set.
pub open spec fn finite_bits(bits: u64) -> bool {
    (bits & 0x7FF0_0000_0000_0000u64) != 0x7FF0_0000_0000_0000u64
}

/// An hstore cell as JSON: its text, or null.
pub open spec fn cell_view(c: Option<String>) -> JsonView {
    match c {
        Some(t) => JsonView::String(t@),
        None => JsonView::Null,
    }
}

/// The JSON form a value is reported in: numbers as numbers (a double that
/// is not finite as null), text-like values and UUIDs as strings, bytes and
/// vector components as arrays of numbers, an hstore as an object, a
/// composite as the array of its fields, and JSON as itself.
pub open spec fn plain_view(v: Value) -> JsonView
    decreases v, 1nat,
{
    match v {
        Value::Null => JsonView::Null,
        Value::Bool(b) => JsonView::Bool(b),
        Value::I32(i) => int_view(i as int),
        Value::I64(i) => int_view(i as int),
        Value::F64(bits) => if finite_bits(bits) {
            JsonView::Number(JsonNumber::Float(bits))
        } else {
            JsonView::Null
        },
        Value::Decimal(t) => JsonView::String(t@),
        Value::DateTime(t) => JsonView::String(t@),
        Value::Uuid(u) => JsonView::String(uuid_text(u)),
        Value::String(t) => JsonView::String(t@),
        Value::Bytes(b) => JsonView::Array(
            b@.map_values(|x: u8| JsonView::Number(JsonNumber::PosInt(x as u64))),
        ),
        Value::Json(j) => j.deep(),
        Value::Array(vs) => JsonView::Array(plain_items(vs@)),
        Value::Vector(cs) => JsonView::Array(
            cs@.map_values(|c: u64| JsonView::Number(JsonNumber::Float(c))),
        ),
        Value::Hstore(entries) => JsonView::Object(
            entries@.map_values(|e: (String, Option<String>)| (e.0@, cell_view(e.1))),
        ),
        Value::Geometry(t) => JsonView::String(t@),
        Value::Geography(t) => JsonView::String(t@),
        Value::Enum { value, .. } => JsonView::String(value@),
        Value::Extension { value, .. } => JsonView::String(value@),
        Value::Composite { fields, .. } => JsonView::Array(plain_items(fields@)),
    }
}

/// The JSON forms of `vs`.
pub open spec fn plain_items(vs: Seq<Value>) -> Seq<JsonView>
    decreases vs, 0nat,
{
    if vs.len() == 0 {
        Seq::empty()
    } else {
        plain_items(vs.drop_last()).push(plain_view(vs.last()))
    }
}

/// Two values with the same mathematical value have the same JSON form.
pub proof fn lemma_plain_view_deep(a: Value, b: Value)
    requires
        deep_value(a) == deep_value(b),
    ensures
        plain_view(a) == plain_view(b),
    decreases a, 1nat,
{
    match a {
        Value::Array(vs) => {
            if let Value::Array(ws) = b {
                lemma_plain_items_deep(vs@, ws@);
            }
        },
        Value::Composite { fields, .. } => {
            if let Value::Composite { fields: gs, .. } = b {
                lemma_plain_items_deep(fields@, gs@);
            }
        },
        Value::F64(x) => {
            if let Value::F64(y) = b {
                assert(float_key(x) == float_key(y) ==> finite_bits(x) == finite_bits(y)) by (bit_vector);
                assert(float_key(x) == float_key(y) && finite_bits(x) ==> x == y) by (bit_vector);
            }
        },
        Value::Hstore(e1) => {
            if let Value::Hstore(e2) = b {
                let pa = e1@.map_values(|e: (String, Option<String>)| (e.0@, cell_view(e.1)));
                let pb = e2@.map_values(|e: (String, Option<String>)| (e.0@, cell_view(e.1)));
                assert(hstore_view(e1@).len() == e1@.len());
                assert forall|k: int| 0 <= k < pa.len() implies pa[k] == pb[k] by {
                    assert(hstore_view(e1@)[k] == hstore_view(e2@)[k]);
                }
                assert(pa =~= pb);
            }
        },
        _ => {},
    }
}

/// Two lists with the same mathematical values have the same JSON forms.
pub proof fn lemma_plain_items_deep(a: Seq<Value>, b: Seq<Value>)
    requires
        deep_values(a) == deep_values(b),
    ensures
        plain_items(a) == plain_items(b),
    decreases a, 0nat,
{
    lemma_deep_values_len(a);
    lemma_deep_values_len(b);
    if a.len() > 0 {
        assert(deep_values(a).drop_last() =~= deep_values(a.drop_last()));
        assert(deep_values(b).drop_last() =~= deep_values(b.drop_last()));
        assert(deep_values(a).last() == deep_value(a.last()));
        assert(deep_values(b).last() == deep_value(b.last()));
        lemma_plain_items_deep(a.drop_last(), b.drop_last());
        lemma_plain_view_deep(a.last(), b.last());
    }
}

fn int_json(i: i64) -> (r: Json)
    ensures
        r.deep() == int_view(i as int),
{
    if i >= 0 {
        Json::Number(JsonNumber::PosInt(i as u64))
    } else {
        Json::Number(JsonNumber::NegInt(i))
    }
}

fn text_json(t: &str) -> (r: Json)
    ensures
        r.deep() == JsonView::String(t@),
{
    Json::String(String::from_str(t))
}

/// The JSON form of `v`.
pub fn plain_json(v: &Value) -> (r: Json)
    ensures
        r.deep() == plain_view(*v),
    decreases v, 1nat,
{
    match v {
        Value::Null => Json::Null,
        Value::Bool(b) => Json::Bool(*b),
        Value::I32(i) => int_json(*i as i64),
        Value::I64(i) => int_json(*i),
        Value::F64(bits) => {
            if (*bits & 0x7FF0_0000_0000_0000u64) != 0x7FF0_0000_0000_0000u64 {
                Json::Number(JsonNumber::Float(*bits))
            } else {
                Json::Null
            }
        },
        Value::Decimal(t) => text_json(t.as_str()),
        Value::DateTime(t) => text_json(t.as_str()),
        Value::Uuid(u) => Json::String(hyphenated_uuid(*u)),
        Value::String(t) => text_json(t.as_str()),
        Value::Bytes(b) => {
            let mut items: Vec<Json> = Vec::new();
            let mut i: usize = 0;
            while i < b.len()
                invariant
                    i <= b@.len(),
                    items@.len() == i,
                    forall|k: int|
                        0 <= k < i ==> #[trigger] items@[k] == Json::Number(
                            JsonNumber::PosInt(b@[k] as u64),
                        ),
                decreases b@.len() - i,
            {
                items.push(Json::Number(JsonNumber::PosInt(b[i] as u64)));
                i = i + 1;
            }
            proof {
                lemma_deep_items_len(items@);
                assert forall|k: int| 0 <= k < items@.len() implies deep_items(items@)[k] == b@.map_values(
                    |x: u8| JsonView::Number(JsonNumber::PosInt(x as u64)),
                )[k] by {
                    lemma_deep_items_index(items@, k);
                }
                assert(deep_items(items@) =~= b@.map_values(
                    |x: u8| JsonView::Number(JsonNumber::PosInt(x as u64)),
                ));
            }
            Json::Array(items)
        },
        Value::Json(j) => json_clone(j),
        Value::Array(vs) => Json::Array(plain_list(vs, Ghost(*v))),
        Value::Vector(cs) => {
            let mut items: Vec<Json> = Vec::new();
            let mut i: usize = 0;
            while i < cs.len()
                invariant
                    i <= cs@.len(),
                    items@.len() == i,
                    forall|k: int|
                        0 <= k < i ==> #[trigger] items@[k] == Json::Number(JsonNumber::Float(cs@[k])),
                decreases cs@.len() - i,
            {
                items.push(Json::Number(JsonNumber::Float(cs[i])));
                i = i + 1;
            }
            proof {
                lemma_deep_items_len(items@);
                assert forall|k: int| 0 <= k < items@.len() implies deep_items(items@)[k] == cs@.map_values(
                    |c: u64| JsonView::Number(JsonNumber::Float(c)),
                )[k] by {
                    lemma_deep_items_index(items@, k);
                }
                assert(deep_items(items@) =~= cs@.map_values(
                    |c: u64| JsonView::Number(JsonNumber::Float(c)),
                ));
            }
            Json::Array(items)
        },
        Value::Hstore(entries) => {
            let mut members: Vec<(String, Json)> = Vec::new();
            let mut i: usize = 0;
            while i < entries.len()
                invariant
                    i <= entries@.len(),
                    members@.len() == i,
                    forall|k: int|
                        0 <= k < i ==> #[trigger] members@[k].0@ == entries@[k].0@ && members@[k].1.deep()
                            == cell_view(entries@[k].1),
                decreases entries@.len() - i,
            {
                let (key, cell) = &entries[i];
                let value = match cell {
                    Some(t) => text_json(t.as_str()),
                    None => Json::Null,
                };
                assert(value.deep() == cell_view(entries@[i as int].1));
                let member = (String::from_str(key.as_str()), value);
                members.push(member);
                assert(members@[i as int] == member);
                i = i + 1;
            }
            proof {
                lemma_deep_entries_len(members@);
                assert forall|k: int| 0 <= k < members@.len() implies deep_entries(members@)[k] == entries@.map_values(
                    |e: (String, Option<String>)| (e.0@, cell_view(e.1)),
                )[k] by {
                    lemma_deep_entries_index(members@, k);
                }
                assert(deep_entries(members@) =~= entries@.map_values(
                    |e: (String, Option<String>)| (e.0@, cell_view(e.1)),
                ));
            }
            Json::Object(members)
        },
        Value::Geometry(t) => text_json(t.as_str()),
        Value::Geography(t) => text_json(t.as_str()),
        Value::Enum { value, .. } => text_json(value.as_str()),
        Value::Extension { value, .. } => text_json(value.as_str()),
        Value::Composite { fields, .. } => Json::Array(plain_list(fields, Ghost(*v))),
    }
}

fn plain_list(vs: &Vec<Value>, Ghost(parent): Ghost<Value>) -> (r: Vec<Json>)
    requires
        parent == Value::Array(*vs) || (parent matches Value::Composite { fields, .. } && fields == *vs),
    ensures
        deep_items(r@) == plain_items(vs@),
    decreases parent, 0nat,
{
    let mut r: Vec<Json> = Vec::new();
    let mut i: usize = 0;
    while i < vs.len()
        invariant
            i <= vs@.len(),
            parent == Value::Array(*vs) || (parent matches Value::Composite { fields, .. } && fields
                == *vs),
            deep_items(r@) == plain_items(vs@.take(i as int)),
        decreases vs@.len() - i,
    {
        assert(vs@.take(i + 1).drop_last() =~= vs@.take(i as int));
        let ghost before = r@;
        proof {
            if parent is Array {
                assert(decreases_to!(parent => parent->Array_0));
            } else {
                assert(decreases_to!(parent => parent->fields));
            }
            assert(decreases_to!(*vs => vs@));
            assert(decreases_to!(vs@ => vs@[i as int]));
        }
        let j = plain_json(&vs[i]);
        r.push(j);
        assert(r@.drop_last() =~= before);
        i = i + 1;
    }
    assert(vs@.take(vs@.len() as int) =~= vs@);
    r
}

/// The lowercase hexadecimal digit of `d`.
pub open spec fn hex_digit(d: nat) -> char {
    if d < 10 {
        digit_char(d)
    } else {
        ((87 + d) as u8) as char
    }
}

/// How a JSON string writes the character `c`: quotes, backslashes and
/// control characters escaped, everything else as itself.
pub open spec fn escape_char(c: char) -> Seq<char> {
    if c == '"' {
        seq!['\\', '"']
    } else if c == '\\' {
        seq!['\\', '\\']
    } else if c == '\n' {
        seq!['\\', 'n']
    } else if c == '\r' {
        seq!['\\', 'r']
    } else if c == '\t' {
        seq!['\\', 't']
    } else if c == '\u{8}' {
        seq!['\\', 'b']
    } else if c == '\u{c}' {
        seq!['\\', 'f']
    } else if (c as u32) < 0x20 {
        seq!['\\', 'u', '0', '0', hex_digit(((c as u32) / 16) as nat), hex_digit(((c as u32) % 16) as nat)]
    } else {
        seq![c]
    }
}

/// The escaped characters of `s`.
pub open spec fn escaped(s: Seq<char>) -> Seq<char>
    decreases s.len(),
{
    if s.len() == 0 {
        Seq::empty()
    } else {
        escaped(s.drop_last()) + escape_char(s.last())
    }
}

/// A JSON string literal holding `s`.
pub open spec fn string_text(s: Seq<char>) -> Seq<char> {
    seq!['"'] + escaped(s) + seq!['"']
}

/// How a number is written. A double is written by its bit pattern after a
/// `~`: its shortest decimal form is not something this library computes.
pub open spec fn number_text(n: JsonNumber) -> Seq<char> {
    match n {
        JsonNumber::PosInt(u) => decimal(u as nat),
        JsonNumber::NegInt(i) => if i < 0 {
            seq!['-'] + decimal((-i) as nat)
        } else {
            decimal(i as nat)
        },
        JsonNumber::Float(bits) => seq!['~'] + decimal(bits as nat),
    }
}

/// The compact JSON text of `j`: no spaces, members in their order.
pub open spec fn json_text(j: JsonView) -> Seq<char>
    decreases j, 1nat,
{
    match j {
        JsonView::Null => "null"@,
        JsonView::Bool(b) => if b {
            "true"@
        } else {
            "false"@
        },
        JsonView::Number(n) => number_text(n),
        JsonView::String(s) => string_text(s),
        JsonView::Array(items) => seq!['['] + items_text(items) + seq![']'],
        JsonView::Object(entries) => seq!['{'] + members_text(entries) + seq!['}'],
    }
}

/// The texts of `items`, separated by commas.
pub open spec fn items_text(items: Seq<JsonView>) -> Seq<char>
    decreases items, 0nat,
{
    if items.len() == 0 {
        Seq::empty()
    } else if items.len() == 1 {
        json_text(items[0])
    } else {
        items_text(items.drop_last()) + seq![','] + json_text(items.last())
    }
}

/// The texts of `entries` as `"key":value`, separated by commas.
pub open spec fn members_text(entries: Seq<(Seq<char>, JsonView)>) -> Seq<char>
    decreases entries, 0nat,
{
    if entries.len() == 0 {
        Seq::empty()
    } else if entries.len() == 1 {
        string_text(entries[0].0) + seq![':'] + json_text(entries[0].1)
    } else {
        members_text(entries.drop_last()) + seq![','] + string_text(entries.last().0) + seq![':']
            + json_text(entries.last().1)
    }
}

fn hex_char(d: u32) -> (c: char)
    requires
        d < 16,
    ensures
        c == hex_digit(d as nat),
{
    let b: u8 = d as u8;
    if b < 10 {
        (48u8 + b) as char
    } else {
        (87u8 + b) as char
    }
}

fn push_escape_char(out: &mut String, c: char)
    ensures
        final(out)@ == old(out)@ + escape_char(c),
{
    let ghost start = out@;
    if c == '"' {
        out.push('\\');
        out.push('"');
    } else if c == '\\' {
        out.push('\\');
        out.push('\\');
    } else if c == '\n' {
        out.push('\\');
        out.push('n');
    } else if c == '\r' {
        out.push('\\');
        out.push('r');
    } else if c == '\t' {
        out.push('\\');
        out.push('t');
    } else if c == '\u{8}' {
        out.push('\\');
        out.push('b');
    } else if c == '\u{c}' {
        out.push('\\');
        out.push('f');
    } else if (c as u32) < 0x20u32 {
        let code = c as u32;
        out.push('\\');
        out.push('u');
        out.push('0');
        out.push('0');
        out.push(hex_char(code / 16));
        out.push(hex_char(code % 16));
    } else {
        out.push(c);
    }
    assert(out@ =~= start + escape_char(c));
}

/// Append the JSON string literal holding `s`.
pub fn push_string_text(out: &mut String, s: &str)
    ensures
        final(out)@ == old(out)@ + string_text(s@),
{
    let ghost start = out@;
    let chars = chars_of(s);
    out.push('"');
    let mut i: usize = 0;
    while i < chars.len()
        invariant
            i <= chars@.len(),
            chars@ == s@,
            out@ == start + seq!['"'] + escaped(s@.take(i as int)),
        decreases chars@.len() - i,
    {
        assert(s@.take(i + 1).drop_last() =~= s@.take(i as int));
        push_escape_char(out, chars[i]);
        i = i + 1;
    }
    assert(s@.take(s@.len() as int) =~= s@);
    out.push('"');
    assert(out@ =~= start + string_text(s@));
}

fn push_number_text(out: &mut String, n: &JsonNumber)
    ensures
        final(out)@ == old(out)@ + number_text(*n),
{
    match n {
        JsonNumber::PosInt(u) => push_u64(out, *u),
        JsonNumber::NegInt(i) => {
            if *i < 0 {
                out.push('-');
                let magnitude: u64 = if *i == i64::MIN {
                    9223372036854775808u64
                } else {
                    (-*i) as u64
                };
                push_u64(out, magnitude);
            } else {
                push_u64(out, *i as u64);
            }
        },
        JsonNumber::Float(bits) => {
            out.push('~');
            push_u64(out, *bits);
        },
    }
}

proof fn lemma_items_text_take(items: Seq<JsonView>, i: int)
    requires
        0 <= i < items.len(),
    ensures
        items_text(items.take(i + 1)) == items_text(items.take(i)) + (if i > 0 {
            seq![',']
        } else {
            Seq::empty()
        }) + json_text(items[i]),
{
    assert(items.take(i + 1).drop_last() =~= items.take(i));
    if i == 0 {
        assert(items_text(items.take(0)) =~= Seq::<char>::empty());
        assert(Seq::<char>::empty() + Seq::<char>::empty() + json_text(items[0]) =~= json_text(items[0]));
    }
}

proof fn lemma_members_text_take(entries: Seq<(Seq<char>, JsonView)>, i: int)
    requires
        0 <= i < entries.len(),
    ensures
        members_text(entries.take(i + 1)) == members_text(entries.take(i)) + (if i > 0 {
            seq![',']
        } else {
            Seq::empty()
        }) + string_text(entries[i].0) + seq![':'] + json_text(entries[i].1),
{
    assert(entries.take(i + 1).drop_last() =~= entries.take(i));
    if i == 0 {
        assert(members_text(entries.take(0)) =~= Seq::<char>::empty());
        assert(Seq::<char>::empty() + Seq::<char>::empty() + string_text(entries[0].0) + seq![':']
            + json_text(entries[0].1) =~= string_text(entries[0].0) + seq![':'] + json_text(
            entries[0].1,
        ));
    }
}

/// Append the compact JSON text of `j`.
pub fn push_json_text(out: &mut String, j: &Json)
    ensures
        final(out)@ == old(out)@ + json_text(j.deep()),
    decreases j,
{
    let ghost start = out@;
    match j {
        Json::Null => {
            out.push_str("null");
        },
        Json::Bool(b) => {
            if *b {
                out.push_str("true");
            } else {
                out.push_str("false");
            }
        },
        Json::Number(n) => push_number_text(out, n),
        Json::String(s) => push_string_text(out, s.as_str()),
        Json::Array(items) => {
            let ghost views = deep_items(items@);
            proof {
                lemma_deep_items_len(items@);
            }
            out.push('[');
            let mut i: usize = 0;
            while i < items.len()
                invariant
                    i <= items@.len(),
                    *j == Json::Array(*items),
                    views == deep_items(items@),
                    views.len() == items@.len(),
                    out@ == start + seq!['['] + items_text(views.take(i as int)),
                decreases items@.len() - i,
            {
                proof {
                    lemma_items_text_take(views, i as int);
                    lemma_deep_items_index(items@, i as int);
                    assert(decreases_to!(*j => j->Array_0));
                    assert(decreases_to!(*items => items@));
                    assert(decreases_to!(items@ => items@[i as int]));
                }
                let ghost before = out@;
                if i > 0 {
                    out.push(',');
                }
                push_json_text(out, &items[i]);
                assert(out@ =~= start + seq!['['] + items_text(views.take(i + 1)));
                i = i + 1;
            }
            assert(views.take(views.len() as int) =~= views);
            out.push(']');
        },
        Json::Object(entries) => {
            let ghost views = deep_entries(entries@);
            proof {
                lemma_deep_entries_len(entries@);
            }
            out.push('{');
            let mut i: usize = 0;
            while i < entries.len()
                invariant
                    i <= entries@.len(),
                    *j == Json::Object(*entries),
                    views == deep_entries(entries@),
                    views.len() == entries@.len(),
                    out@ == start + seq!['{'] + members_text(views.take(i as int)),
                decreases entries@.len() - i,
            {
                proof {
                    lemma_members_text_take(views, i as int);
                    lemma_deep_entries_index(entries@, i as int);
                    assert(decreases_to!(*j => j->Object_0));
                    assert(decreases_to!(*entries => entries@));
                    assert(decreases_to!(entries@ => entries@[i as int]));
                    assert(decreases_to!(entries@[i as int] => entries@[i as int].1));
                }
                if i > 0 {
                    out.push(',');
                }
                push_string_text(out, entries[i].0.as_str());
                out.push(':');
                push_json_text(out, &entries[i].1);
                assert(out@ =~= start + seq!['{'] + members_text(views.take(i + 1)));
                i = i + 1;
            }
            assert(views.take(views.len() as int) =~= views);
            out.push('}');
        },
    }
    proof {
        reveal_strlit("null");
        reveal_strlit("true");
        reveal_strlit("false");
    }
    assert(out@ =~= start + json_text(j.deep()));
}

/// The key children are grouped by: integers of either width alike, UUIDs,
/// and text.
#[derive(Debug, Clone, PartialEq, Eq, Hash)]
pub enum GroupKey {
    Int(i64),
    Uuid(u128),
    Str(String),
}

/// A grouping key as mathematics sees it.
pub enum KeyView {
    Int(i64),
    Uuid(u128),
    Str(Seq<char>),
}

impl View for GroupKey {
    type V = KeyView;

    open spec fn view(&self) -> KeyView {
        match self {
            GroupKey::Int(i) => KeyView::Int(*i),
            GroupKey::Uuid(u) => KeyView::Uuid(*u),
            GroupKey::Str(s) => KeyView::Str(s@),
        }
    }
}

/// The key a value groups by: an `I32` as the `I64` of the same number, a
/// UUID as itself, a string or an enum value as its text, and anything else
/// as the compact JSON text of its JSON form.
pub open spec fn value_key(v: Value) -> KeyView {
    match v {
        Value::I32(i) => KeyView::Int(i as i64),
        Value::I64(i) => KeyView::Int(i),
        Value::Uuid(u) => KeyView::Uuid(u),
        Value::String(s) => KeyView::Str(s@),
        Value::Enum { value, .. } => KeyView::Str(value@),
        _ => KeyView::Str(json_text(plain_view(v))),
    }
}

/// The key `value` groups by.
pub fn group_key(value: &Value) -> (r: GroupKey)
    ensures
        r@ == value_key(*value),
{
    match value {
        Value::I32(v) => GroupKey::Int(*v as i64),
        Value::I64(v) => GroupKey::Int(*v),
        Value::Uuid(v) => GroupKey::Uuid(*v),
        Value::String(v) => GroupKey::Str(String::from_str(v.as_str())),
        Value::Enum { value, .. } => GroupKey::Str(String::from_str(value.as_str())),
        other => {
            let j = plain_json(other);
            let mut text = String::new();
            push_json_text(&mut text, &j);
            GroupKey::Str(text)
        },
    }
}

/// Whether two keys are the same.
pub fn same_group_key(a: &GroupKey, b: &GroupKey) -> (r: bool)
    ensures
        r == (a@ == b@),
{
    match (a, b) {
        (GroupKey::Int(x), GroupKey::Int(y)) => *x == *y,
        (GroupKey::Uuid(x), GroupKey::Uuid(y)) => *x == *y,
        (GroupKey::Str(x), GroupKey::Str(y)) => crate::text::str_eq(x.as_str(), y.as_str()),
        _ => false,
    }
}

/// Whether a column carries a nested relation payload: its name ends in
/// `_json`.
pub open spec fn is_nested_column(name: Seq<char>) -> bool {
    name.len() >= 5 && name.subrange(name.len() - 5, name.len() as int) == "_json"@
}

/// Whether the column `name` carries a nested relation payload.
pub fn ends_with_json(name: &str) -> (r: bool)
    ensures
        r == is_nested_column(name@),
{
    proof {
        reveal_strlit("_json");
    }
    let n = name.unicode_len();
    if n < 5 {
        return false;
    }
    let r = name.get_char(n - 5) == '_' && name.get_char(n - 4) == 'j' && name.get_char(n - 3) == 's'
        && name.get_char(n - 2) == 'o' && name.get_char(n - 1) == 'n';
    proof {
        let tail = name@.subrange(n - 5, n as int);
        if r {
            assert(tail =~= "_json"@);
        } else if tail == "_json"@ {
            assert(tail[0] == '_' && tail[1] == 'j' && tail[2] == 's' && tail[3] == 'o' && tail[4] == 'n');
        }
    }
    r
}

/// The object the projected fields of a row give: each logical name set to
/// the JSON form of the column it is read from, where the row has that
/// column.
pub open spec fn projected_object(fields: Seq<(String, String)>, columns: Seq<(String, Value)>) -> Seq<(Seq<char>, JsonView)>
    decreases fields.len(),
{
    if fields.len() == 0 {
        Seq::empty()
    } else {
        let acc = projected_object(fields.drop_last(), columns);
        match row_get(columns, fields.last().0@) {
            Some(v) => map_insert(acc, fields.last().1@, plain_view(v)),
            None => acc,
        }
    }
}

/// `acc` with every nested `_json` column of the row set under its own name.
pub open spec fn with_nested(acc: Seq<(Seq<char>, JsonView)>, columns: Seq<(String, Value)>) -> Seq<(Seq<char>, JsonView)>
    decreases columns.len(),
{
    if columns.len() == 0 {
        acc
    } else {
        let prev = with_nested(acc, columns.drop_last());
        if is_nested_column(columns.last().0@) {
            map_insert(prev, columns.last().0@, plain_view(columns.last().1))
        } else {
            prev
        }
    }
}

/// The members of the JSON object a child row becomes.
pub open spec fn row_members(fields: Seq<(String, String)>, columns: Seq<(String, Value)>) -> Seq<(Seq<char>, JsonView)> {
    with_nested(projected_object(fields, columns), columns)
}

proof fn lemma_deep_entries_update(s: Seq<(String, Json)>, p: int, e: (String, Json))
    requires
        0 <= p < s.len(),
    ensures
        deep_entries(s.update(p, e)) == deep_entries(s).update(p, (e.0@, e.1.deep())),
{
    let t = s.update(p, e);
    lemma_deep_entries_len(s);
    lemma_deep_entries_len(t);
    assert forall|k: int| 0 <= k < t.len() implies deep_entries(t)[k] == deep_entries(s).update(
        p,
        (e.0@, e.1.deep()),
    )[k] by {
        lemma_deep_entries_index(t, k);
        lemma_deep_entries_index(s, k);
    }
    assert(deep_entries(t) =~= deep_entries(s).update(p, (e.0@, e.1.deep())));
}

proof fn lemma_deep_entries_insert(s: Seq<(String, Json)>, p: int, e: (String, Json))
    requires
        0 <= p <= s.len(),
    ensures
        deep_entries(s.insert(p, e)) == deep_entries(s).insert(p, (e.0@, e.1.deep())),
{
    let t = s.insert(p, e);
    lemma_deep_entries_len(s);
    lemma_deep_entries_len(t);
    assert forall|k: int| 0 <= k < t.len() implies deep_entries(t)[k] == deep_entries(s).insert(
        p,
        (e.0@, e.1.deep()),
    )[k] by {
        lemma_deep_entries_index(t, k);
        if k < p {
            lemma_deep_entries_index(s, k);
        } else if k > p {
            lemma_deep_entries_index(s, k - 1);
        }
    }
    assert(deep_entries(t) =~= deep_entries(s).insert(p, (e.0@, e.1.deep())));
}

/// Set `key` to `value` in an object kept in ascending key order, as a
/// `serde_json::Map` does.
pub(crate) fn object_insert(obj: &mut Vec<(String, Json)>, key: &str, value: Json)
    ensures
        deep_entries(final(obj)@) == map_insert(deep_entries(old(obj)@), key@, value.deep()),
{
    let ghost m = deep_entries(obj@);
    proof {
        lemma_deep_entries_len(obj@);
    }
    let mut p: usize = 0;
    while p < obj.len() && str_less(obj[p].0.as_str(), key)
        invariant
            p <= obj@.len(),
            m == deep_entries(obj@),
            m.len() == obj@.len(),
            key_position(m, key@, 0) == key_position(m, key@, p as int),
        decreases obj@.len() - p,
    {
        proof {
            lemma_deep_entries_index(obj@, p as int);
        }
        p = p + 1;
    }
    proof {
        if p < obj@.len() {
            lemma_deep_entries_index(obj@, p as int);
        }
        lemma_key_position_bounds(m, key@, p as int);
    }
    assert(key_position(m, key@, 0) == p);
    let entry = (String::from_str(key), value);
    if p < obj.len() && str_eq(obj[p].0.as_str(), key) {
        proof {
            lemma_deep_entries_update(obj@, p as int, entry);
        }
        obj[p] = entry;
    } else {
        proof {
            lemma_deep_entries_insert(obj@, p as int, entry);
        }
        obj.insert(p, entry);
    }
}

/// Convert a child row into the JSON object attached to its parent: each
/// projected logical field the row has a column for, then each nested
/// `<field>_json` payload under its own name, in ascending key order.
pub fn row_to_json_value(projection: &IncludeProjection, row: &Row) -> (r: Json)
    ensures
        r.deep() == JsonView::Object(row_members(projection.fields@, row.columns@)),
{
    let mut obj: Vec<(String, Json)> = Vec::new();
    let mut i: usize = 0;
    while i < projection.fields.len()
        invariant
            i <= projection.fields@.len(),
            deep_entries(obj@) == projected_object(projection.fields@.take(i as int), row.columns@),
        decreases projection.fields@.len() - i,
    {
        assert(projection.fields@.take(i + 1).drop_last() =~= projection.fields@.take(i as int));
        let (alias, logical_name) = &projection.fields[i];
        match row.get(alias.as_str()) {
            Some(value) => {
                let j = plain_json(value);
                object_insert(&mut obj, logical_name.as_str(), j);
            },
            None => {},
        }
        i = i + 1;
    }
    assert(projection.fields@.take(projection.fields@.len() as int) =~= projection.fields@);
    let ghost base = deep_entries(obj@);
    let mut k: usize = 0;
    while k < row.columns.len()
        invariant
            k <= row.columns@.len(),
            base == projected_object(projection.fields@, row.columns@),
            deep_entries(obj@) == with_nested(base, row.columns@.take(k as int)),
        decreases row.columns@.len() - k,
    {
        assert(row.columns@.take(k + 1).drop_last() =~= row.columns@.take(k as int));
        let (name, value) = &row.columns[k];
        if ends_with_json(name.as_str()) {
            let j = plain_json(value);
            object_insert(&mut obj, name.as_str(), j);
        }
        k = k + 1;
    }
    assert(row.columns@.take(row.columns@.len() as int) =~= row.columns@);
    Json::Object(obj)
}

proof fn lemma_projected_ascending(fields: Seq<(String, String)>, columns: Seq<(String, Value)>)
    ensures
        strictly_ascending(projected_object(fields, columns)),
    decreases fields.len(),
{
    if fields.len() > 0 {
        let acc = projected_object(fields.drop_last(), columns);
        lemma_projected_ascending(fields.drop_last(), columns);
        if let Some(v) = row_get(columns, fields.last().0@) {
            lemma_map_insert(acc, fields.last().1@, plain_view(v));
        }
    } else {
        assert(projected_object(fields, columns) =~= Seq::<(Seq<char>, JsonView)>::empty());
    }
}

proof fn lemma_nested_ascending(acc: Seq<(Seq<char>, JsonView)>, columns: Seq<(String, Value)>)
    requires
        strictly_ascending(acc),
    ensures
        strictly_ascending(with_nested(acc, columns)),
    decreases columns.len(),
{
    if columns.len() > 0 {
        let prev = with_nested(acc, columns.drop_last());
        lemma_nested_ascending(acc, columns.drop_last());
        if is_nested_column(columns.last().0@) {
            lemma_map_insert(prev, columns.last().0@, plain_view(columns.last().1));
        }
    }
}

/// The JSON object of a child row names each key once, in ascending order,
/// as a `serde_json::Map` keeps its members.
pub proof fn lemma_row_members_ascending(fields: Seq<(String, String)>, columns: Seq<(String, Value)>)
    ensures
        strictly_ascending(row_members(fields, columns)),
{
    lemma_projected_ascending(fields, columns);
    lemma_nested_ascending(projected_object(fields, columns), columns);
}

/// The key of a child row: that of its value in the join column, if it has
/// the column.
pub open spec fn child_key(columns: Seq<(String, Value)>, join: Seq<char>) -> Option<KeyView> {
    match row_get(columns, join) {
        Some(v) => Some(value_key(v)),
        None => None,
    }
}

/// The JSON objects of the rows whose key is `key`, in row order.
pub open spec fn children_of(rows: Seq<Row>, join: Seq<char>, fields: Seq<(String, String)>, key: KeyView) -> Seq<JsonView>
    decreases rows.len(),
{
    if rows.len() == 0 {
        Seq::empty()
    } else {
        let prev = children_of(rows.drop_last(), join, fields, key);
        if child_key(rows.last().columns@, join) == Some(key) {
            prev.push(JsonView::Object(row_members(fields, rows.last().columns@)))
        } else {
            prev
        }
    }
}

/// The value a parent receives: for a to-many relation the array of its
/// children, for a to-one relation its first child or null; a parent without
/// a key receives an empty array or null.
pub open spec fn parent_value(
    key: Option<KeyView>,
    rows: Seq<Row>,
    join: Seq<char>,
    fields: Seq<(String, String)>,
    is_array: bool,
    v: Value,
) -> bool {
    let children = match key {
        Some(k) => children_of(rows, join, fields, k),
        None => Seq::empty(),
    };
    if is_array {
        v matches Value::Json(j) && j.deep() == JsonView::Array(children)
    } else if children.len() > 0 {
        v matches Value::Json(j) && j.deep() == children[0]
    } else {
        v is Null
    }
}

/// The value a parent without a key receives: an empty array for a to-many
/// relation, null for a to-one relation.
pub fn empty_include_value(is_array: bool) -> (r: Value)
    ensures
        is_array ==> (r matches Value::Json(j) && j.deep() == JsonView::Array(Seq::empty())),
        !is_array ==> r is Null,
{
    if is_array {
        let items: Vec<Json> = Vec::new();
        assert(deep_items(items@) =~= Seq::<JsonView>::empty());
        Value::Json(Json::Array(items))
    } else {
        Value::Null
    }
}

/// The view of an optional key.
pub open spec fn key_view_of(k: Option<GroupKey>) -> Option<KeyView> {
    match k {
        Some(k) => Some(k@),
        None => None,
    }
}

/// Group the child rows by the key in their join column and give each parent,
/// in the order of `row_keys`, the value its key selects: every child with an
/// equal key, in child order, for a to-many relation; the first such child
/// for a to-one relation.
pub fn build_include_values(
    row_keys: Vec<Option<GroupKey>>,
    child_rows: &[Row],
    child_join: &str,
    projection: &IncludeProjection,
    is_array: bool,
) -> (r: Vec<Value>)
    ensures
        r@.len() == row_keys@.len(),
        forall|i: int|
            0 <= i < r@.len() ==> parent_value(
                key_view_of(row_keys@[i]),
                child_rows@,
                child_join@,
                projection.fields@,
                is_array,
                #[trigger] r@[i],
            ),
{
    let mut child_keys: Vec<Option<GroupKey>> = Vec::new();
    let mut child_objects: Vec<Json> = Vec::new();
    let mut c: usize = 0;
    while c < child_rows.len()
        invariant
            c <= child_rows@.len(),
            child_keys@.len() == c,
            child_objects@.len() == c,
            forall|j: int|
                0 <= j < c ==> key_view_of(#[trigger] child_keys@[j]) == child_key(
                    child_rows@[j].columns@,
                    child_join@,
                ),
            forall|j: int|
                0 <= j < c ==> (#[trigger] child_objects@[j]).deep() == JsonView::Object(
                    row_members(projection.fields@, child_rows@[j].columns@),
                ),
        decreases child_rows@.len() - c,
    {
        let row = &child_rows[c];
        let key = match row.get(child_join) {
            Some(fk) => Some(group_key(fk)),
            None => None,
        };
        child_keys.push(key);
        child_objects.push(row_to_json_value(projection, row));
        c = c + 1;
    }
    let mut values: Vec<Value> = Vec::new();
    let mut i: usize = 0;
    while i < row_keys.len()
        invariant
            i <= row_keys@.len(),
            values@.len() == i,
            child_keys@.len() == child_rows@.len(),
            child_objects@.len() == child_rows@.len(),
            forall|j: int|
                0 <= j < child_rows@.len() ==> key_view_of(#[trigger] child_keys@[j]) == child_key(
                    child_rows@[j].columns@,
                    child_join@,
                ),
            forall|j: int|
                0 <= j < child_rows@.len() ==> (#[trigger] child_objects@[j]).deep()
                    == JsonView::Object(row_members(projection.fields@, child_rows@[j].columns@)),
            forall|k: int|
                0 <= k < i ==> parent_value(
                    key_view_of(row_keys@[k]),
                    child_rows@,
                    child_join@,
                    projection.fields@,
                    is_array,
                    #[trigger] values@[k],
                ),
        decreases row_keys@.len() - i,
    {
        let mut children: Vec<Json> = Vec::new();
        match &row_keys[i] {
            Some(key) => {
                let mut j: usize = 0;
                while j < child_rows.len()
                    invariant
                        j <= child_rows@.len(),
                        child_keys@.len() == child_rows@.len(),
                        child_objects@.len() == child_rows@.len(),
                        forall|x: int|
                            0 <= x < child_rows@.len() ==> key_view_of(#[trigger] child_keys@[x])
                                == child_key(child_rows@[x].columns@, child_join@),
                        forall|x: int|
                            0 <= x < child_rows@.len() ==> (#[trigger] child_objects@[x]).deep()
                                == JsonView::Object(
                                row_members(projection.fields@, child_rows@[x].columns@),
                            ),
                        deep_items(children@) == children_of(
                            child_rows@.take(j as int),
                            child_join@,
                            projection.fields@,
                            key@,
                        ),
                    decreases child_rows@.len() - j,
                {
                    assert(child_rows@.take(j + 1).drop_last() =~= child_rows@.take(j as int));
                    assert(child_rows@.take(j + 1).last() == child_rows@[j as int]);
                    let matched = match &child_keys[j] {
                        Some(ck) => same_group_key(ck, key),
                        None => false,
                    };
                    if matched {
                        let ghost before = children@;
                        children.push(json_clone(&child_objects[j]));
                        assert(children@.drop_last() =~= before);
                    }
                    j = j + 1;
                }
                assert(child_rows@.take(child_rows@.len() as int) =~= child_rows@);
            },
            None => {
                assert(deep_items(children@) =~= Seq::<JsonView>::empty());
            },
        }
        let ghost cs = deep_items(children@);
        proof {
            lemma_deep_items_len(children@);
        }
        let v = if row_keys[i].is_none() {
            empty_include_value(is_array)
        } else if is_array {
            Value::Json(Json::Array(children))
        } else if children.len() > 0 {
            proof {
                lemma_deep_items_index(children@, 0);
            }
            Value::Json(json_clone(&children[0]))
        } else {
            Value::Null
        };
        values.push(v);
        assert(values@[i as int] == v);
        i = i + 1;
    }
    values
}

/// The key a parent row is grouped by: the value in its join column, unless
/// that is missing or null.
pub open spec fn parent_key(row: Row, join: Seq<char>) -> Option<KeyView> {
    match row_get(row.columns@, join) {
        Some(v) => if v is Null {
            None
        } else {
            Some(value_key(v))
        },
        None => None,
    }
}

/// The join values of the first `n` parent rows, each the first with its
/// key, in row order.
pub open spec fn first_keyed(rows: Seq<Row>, join: Seq<char>, n: nat) -> Seq<Value>
    decreases n,
{
    if n == 0 || n > rows.len() {
        Seq::empty()
    } else {
        let prev = first_keyed(rows, join, (n - 1) as nat);
        match row_get(rows[n - 1].columns@, join) {
            Some(v) => if !(v is Null) && !prev.map_values(|w: Value| value_key(w)).contains(value_key(v)) {
                prev.push(v)
            } else {
                prev
            },
            None => prev,
        }
    }
}

/// Whether `e` is `column IN (values...)`, each value bound.
pub open spec fn in_values(e: Expr, column: Seq<char>, values: Seq<Value>) -> bool {
    &&& e matches Expr::Binary { left, op, right }
    &&& op == BinaryOp::In
    &&& *left matches Expr::Column(c)
    &&& c@ == column
    &&& *right matches Expr::List(items)
    &&& items@.len() == values.len()
    &&& forall|i: int|
        0 <= i < values.len() ==> (#[trigger] items@[i] matches Expr::Param(p) && deep_value(p) == deep_value(values[i]))
}

/// Whether `e` selects the children whose `column` holds one of `values`,
/// narrowed by `filter` when there is one.
pub open spec fn child_query(e: Expr, column: Seq<char>, values: Seq<Value>, filter: Option<Expr>) -> bool {
    match filter {
        None => in_values(e, column, values),
        Some(f) => e matches Expr::Binary { left, op, right } && op == BinaryOp::And && in_values(*left, column, values)
            && *right == f,
    }
}

/// The batched way to load a relation for `parent_rows`: each parent's key
/// from its `parent_join` column, and the one query over the children whose
/// `child_join` column holds one of the distinct keys, narrowed by `filter`
/// (none when no parent has a key). A relation with its own `take` or `skip`
/// cannot be batched, and gets nothing.
pub fn include_child_query(
    parent_rows: &[Row],
    parent_join: &str,
    child_join: &str,
    take: Option<i32>,
    skip: Option<u32>,
    filter: Option<Expr>,
) -> (r: Option<(Vec<Option<GroupKey>>, Option<Expr>)>)
    ensures
        r is None <==> (take is Some || skip is Some),
        r matches Some((keys, q)) ==> {
            &&& keys@.len() == parent_rows@.len()
            &&& forall|i: int|
                0 <= i < keys@.len() ==> key_view_of(#[trigger] keys@[i]) == parent_key(parent_rows@[i], parent_join@)
            &&& if first_keyed(parent_rows@, parent_join@, parent_rows@.len()).len() == 0 {
                q is None
            } else {
                q matches Some(e) && child_query(
                    e,
                    child_join@,
                    first_keyed(parent_rows@, parent_join@, parent_rows@.len()),
                    filter,
                )
            }
        },
{
    if take.is_some() || skip.is_some() {
        return None;
    }
    let mut keys: Vec<Option<GroupKey>> = Vec::new();
    let mut seen: Vec<GroupKey> = Vec::new();
    let mut params: Vec<Expr> = Vec::new();
    let mut i: usize = 0;
    while i < parent_rows.len()
        invariant
            i <= parent_rows@.len(),
            keys@.len() == i,
            forall|x: int| 0 <= x < i ==> key_view_of(#[trigger] keys@[x]) == parent_key(parent_rows@[x], parent_join@),
            seen@.len() == first_keyed(parent_rows@, parent_join@, i as nat).len(),
            params@.len() == seen@.len(),
            forall|x: int|
                0 <= x < seen@.len() ==> (#[trigger] seen@[x])@ == value_key(
                    first_keyed(parent_rows@, parent_join@, i as nat)[x],
                ),
            forall|x: int|
                0 <= x < params@.len() ==> (#[trigger] params@[x] matches Expr::Param(p) && deep_value(p) == deep_value(
                    first_keyed(parent_rows@, parent_join@, i as nat)[x],
                )),
        decreases parent_rows@.len() - i,
    {
        let ghost prev = first_keyed(parent_rows@, parent_join@, i as nat);
        let ghost pk = prev.map_values(|w: Value| value_key(w));
        match parent_rows[i].get(parent_join) {
            Some(v) => {
                if matches!(v, Value::Null) {
                    keys.push(None);
                } else {
                    let key = group_key(v);
                    let mut found = false;
                    let mut j: usize = 0;
                    while j < seen.len()
                        invariant
                            j <= seen@.len(),
                            seen@.len() == prev.len(),
                            pk == prev.map_values(|w: Value| value_key(w)),
                            forall|x: int| 0 <= x < seen@.len() ==> (#[trigger] seen@[x])@ == value_key(prev[x]),
                            found ==> pk.contains(key@),
                            !found ==> forall|x: int| 0 <= x < j ==> pk[x] != key@,
                        decreases seen@.len() - j,
                    {
                        if same_group_key(&seen[j], &key) {
                            assert(pk[j as int] == key@);
                            found = true;
                        }
                        j = j + 1;
                    }
                    if !found {
                        let k2 = group_key(v);
                        seen.push(k2);
                        params.push(Expr::Param(clone_value(v)));
                    }
                    keys.push(Some(key));
                }
            },
            None => {
                keys.push(None);
            },
        }
        proof {
            assert(first_keyed(parent_rows@, parent_join@, (i + 1) as nat) == (match row_get(
                parent_rows@[i as int].columns@,
                parent_join@,
            ) {
                Some(v) => if !(v is Null) && !pk.contains(value_key(v)) {
                    prev.push(v)
                } else {
                    prev
                },
                None => prev,
            }));
        }
        i = i + 1;
    }
    let n = params.len();
    if n == 0 {
        return Some((keys, None));
    }
    let in_list = Expr::Binary {
        left: Box::new(Expr::Column(String::from_str(child_join))),
        op: BinaryOp::In,
        right: Box::new(Expr::List(params)),
    };
    let q = match filter {
        Some(f) => Expr::Binary { left: Box::new(in_list), op: BinaryOp::And, right: Box::new(f) },
        None => in_list,
    };
    Some((keys, Some(q)))
}

} // verus!
