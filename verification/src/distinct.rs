//! `distinct` honoured by the engine itself where the dialect has no
//! `DISTINCT ON`: rows are compared on the distinct columns, the first row of
//! each combination is kept, and the paging window is applied to what is
//! left, in the order the database sorted the rows.
use vstd::prelude::*;

use crate::ast::Value;
use crate::field::hstore_view;
use crate::json::{same_json, JsonView};
use crate::model::{row_get, Row};
use crate::text::str_eq;

verus! {

/// A value as mathematics sees it: text as characters, lists as sequences.
pub enum ValueView {
    Null,
    Bool(bool),
    I32(i32),
    I64(i64),
    F64(u64),
    Decimal(Seq<char>),
    DateTime(Seq<char>),
    Uuid(u128),
    String(Seq<char>),
    Bytes(Seq<u8>),
    Json(JsonView),
    Array(Seq<ValueView>),
    Vector(Seq<u64>),
    Hstore(Seq<(Seq<char>, Option<Seq<char>>)>),
    Geometry(Seq<char>),
    Geography(Seq<char>),
    Enum { sql_type: Seq<char>, value: Seq<char> },
    Extension { sql_type: Seq<char>, value: Seq<char> },
    Composite { sql_type: Seq<char>, fields: Seq<ValueView> },
}

/// Whether the double with bit pattern `bits` is a NaN: all exponent bits
/// set and a nonzero fraction.
pub open spec fn is_nan_bits(bits: u64) -> bool {
    (bits & 0x7FF0_0000_0000_0000u64) == 0x7FF0_0000_0000_0000u64 && (bits & 0x000F_FFFF_FFFF_FFFFu64) != 0
}

/// The bit pattern a double is compared by: every NaN alike, as all of them
/// print as `NaN`; any other double by its own bits.
pub open spec fn float_key(bits: u64) -> u64 {
    if is_nan_bits(bits) {
        0x7FF8_0000_0000_0000u64
    } else {
        bits
    }
}

/// The bit pattern the double with bits `bits` is compared by.
pub fn float_key_of(bits: u64) -> (r: u64)
    ensures
        r == float_key(bits),
{
    if (bits & 0x7FF0_0000_0000_0000u64) == 0x7FF0_0000_0000_0000u64 && (bits & 0x000F_FFFF_FFFF_FFFFu64) != 0 {
        0x7FF8_0000_0000_0000u64
    } else {
        bits
    }
}

/// The mathematical value of `v`.
pub open spec fn deep_value(v: Value) -> ValueView
    decreases v, 1nat,
{
    match v {
        Value::Null => ValueView::Null,
        Value::Bool(b) => ValueView::Bool(b),
        Value::I32(i) => ValueView::I32(i),
        Value::I64(i) => ValueView::I64(i),
        Value::F64(bits) => ValueView::F64(float_key(bits)),
        Value::Decimal(t) => ValueView::Decimal(t@),
        Value::DateTime(t) => ValueView::DateTime(t@),
        Value::Uuid(u) => ValueView::Uuid(u),
        Value::String(t) => ValueView::String(t@),
        Value::Bytes(b) => ValueView::Bytes(b@),
        Value::Json(j) => ValueView::Json(j.deep()),
        Value::Array(vs) => ValueView::Array(deep_values(vs@)),
        Value::Vector(cs) => ValueView::Vector(cs@),
        Value::Hstore(entries) => ValueView::Hstore(hstore_view(entries@)),
        Value::Geometry(t) => ValueView::Geometry(t@),
        Value::Geography(t) => ValueView::Geography(t@),
        Value::Enum { sql_type, value } => ValueView::Enum { sql_type: sql_type@, value: value@ },
        Value::Extension { sql_type, value } => ValueView::Extension { sql_type: sql_type@, value: value@ },
        Value::Composite { sql_type, fields } => ValueView::Composite {
            sql_type: sql_type@,
            fields: deep_values(fields@),
        },
    }
}

/// The mathematical values of `vs`.
pub open spec fn deep_values(vs: Seq<Value>) -> Seq<ValueView>
    decreases vs, 0nat,
{
    if vs.len() == 0 {
        Seq::empty()
    } else {
        deep_values(vs.drop_last()).push(deep_value(vs.last()))
    }
}

pub proof fn lemma_deep_values_index(vs: Seq<Value>, i: int)
    requires
        0 <= i < vs.len(),
    ensures
        deep_values(vs).len() == vs.len(),
        deep_values(vs)[i] == deep_value(vs[i]),
    decreases vs.len(),
{
    lemma_deep_values_len(vs);
    lemma_deep_values_len(vs.drop_last());
    if i < vs.len() - 1 {
        lemma_deep_values_index(vs.drop_last(), i);
        assert(vs.drop_last()[i] == vs[i]);
    }
}

pub proof fn lemma_deep_values_len(vs: Seq<Value>)
    ensures
        deep_values(vs).len() == vs.len(),
    decreases vs.len(),
{
    if vs.len() > 0 {
        lemma_deep_values_len(vs.drop_last());
    }
}

fn same_u8s(a: &Vec<u8>, b: &Vec<u8>) -> (r: bool)
    ensures
        r == (a@ == b@),
{
    if a.len() != b.len() {
        return false;
    }
    let mut i: usize = 0;
    while i < a.len()
        invariant
            i <= a@.len(),
            a@.len() == b@.len(),
            forall|k: int| 0 <= k < i ==> a@[k] == b@[k],
        decreases a@.len() - i,
    {
        if a[i] != b[i] {
            return false;
        }
        i = i + 1;
    }
    assert(a@ =~= b@);
    true
}

fn same_u64s(a: &Vec<u64>, b: &Vec<u64>) -> (r: bool)
    ensures
        r == (a@ == b@),
{
    if a.len() != b.len() {
        return false;
    }
    let mut i: usize = 0;
    while i < a.len()
        invariant
            i <= a@.len(),
            a@.len() == b@.len(),
            forall|k: int| 0 <= k < i ==> a@[k] == b@[k],
        decreases a@.len() - i,
    {
        if a[i] != b[i] {
            return false;
        }
        i = i + 1;
    }
    assert(a@ =~= b@);
    true
}

fn same_cells(a: &Vec<(String, Option<String>)>, b: &Vec<(String, Option<String>)>) -> (r: bool)
    ensures
        r == (hstore_view(a@) == hstore_view(b@)),
{
    if a.len() != b.len() {
        return false;
    }
    let mut i: usize = 0;
    while i < a.len()
        invariant
            i <= a@.len(),
            a@.len() == b@.len(),
            forall|k: int| 0 <= k < i ==> hstore_view(a@)[k] == hstore_view(b@)[k],
        decreases a@.len() - i,
    {
        let same_key = str_eq(a[i].0.as_str(), b[i].0.as_str());
        let same_cell = match (&a[i].1, &b[i].1) {
            (Some(x), Some(y)) => str_eq(x.as_str(), y.as_str()),
            (None, None) => true,
            _ => false,
        };
        if !same_key || !same_cell {
            assert(hstore_view(a@)[i as int] != hstore_view(b@)[i as int]);
            return false;
        }
        i = i + 1;
    }
    assert(hstore_view(a@) =~= hstore_view(b@));
    true
}

/// Whether two values are the same value.
pub fn same_value(a: &Value, b: &Value) -> (r: bool)
    ensures
        r == (deep_value(*a) == deep_value(*b)),
    decreases a, 1nat,
{
    match (a, b) {
        (Value::Null, Value::Null) => true,
        (Value::Bool(x), Value::Bool(y)) => *x == *y,
        (Value::I32(x), Value::I32(y)) => *x == *y,
        (Value::I64(x), Value::I64(y)) => *x == *y,
        (Value::F64(x), Value::F64(y)) => float_key_of(*x) == float_key_of(*y),
        (Value::Decimal(x), Value::Decimal(y)) => str_eq(x.as_str(), y.as_str()),
        (Value::DateTime(x), Value::DateTime(y)) => str_eq(x.as_str(), y.as_str()),
        (Value::Uuid(x), Value::Uuid(y)) => *x == *y,
        (Value::String(x), Value::String(y)) => str_eq(x.as_str(), y.as_str()),
        (Value::Bytes(x), Value::Bytes(y)) => same_u8s(x, y),
        (Value::Json(x), Value::Json(y)) => same_json(x, y),
        (Value::Array(xs), Value::Array(ys)) => same_list(xs, ys, Ghost(*a)),
        (Value::Vector(x), Value::Vector(y)) => same_u64s(x, y),
        (Value::Hstore(x), Value::Hstore(y)) => same_cells(x, y),
        (Value::Geometry(x), Value::Geometry(y)) => str_eq(x.as_str(), y.as_str()),
        (Value::Geography(x), Value::Geography(y)) => str_eq(x.as_str(), y.as_str()),
        (Value::Enum { sql_type: s, value: x }, Value::Enum { sql_type: t, value: y }) => str_eq(
            s.as_str(),
            t.as_str(),
        ) && str_eq(x.as_str(), y.as_str()),
        (Value::Extension { sql_type: s, value: x }, Value::Extension { sql_type: t, value: y }) => str_eq(
            s.as_str(),
            t.as_str(),
        ) && str_eq(x.as_str(), y.as_str()),
        (Value::Composite { sql_type: s, fields: xs }, Value::Composite { sql_type: t, fields: ys }) => str_eq(
            s.as_str(),
            t.as_str(),
        ) && same_list(xs, ys, Ghost(*a)),
        _ => false,
    }
}

fn same_list(xs: &Vec<Value>, ys: &Vec<Value>, Ghost(parent): Ghost<Value>) -> (r: bool)
    requires
        parent == Value::Array(*xs) || (parent matches Value::Composite { fields, .. } && fields == *xs),
    ensures
        r == (deep_values(xs@) == deep_values(ys@)),
    decreases parent, 0nat,
{
    proof {
        lemma_deep_values_len(xs@);
        lemma_deep_values_len(ys@);
    }
    if xs.len() != ys.len() {
        return false;
    }
    let mut i: usize = 0;
    while i < xs.len()
        invariant
            i <= xs@.len(),
            xs@.len() == ys@.len(),
            parent == Value::Array(*xs) || (parent matches Value::Composite { fields, .. } && fields
                == *xs),
            forall|k: int| 0 <= k < i ==> deep_value(#[trigger] xs@[k]) == deep_value(ys@[k]),
        decreases xs@.len() - i,
    {
        proof {
            if parent is Array {
                assert(decreases_to!(parent => parent->Array_0));
            } else {
                assert(decreases_to!(parent => parent->fields));
            }
            assert(decreases_to!(*xs => xs@));
            assert(decreases_to!(xs@ => xs@[i as int]));
        }
        if !same_value(&xs[i], &ys[i]) {
            proof {
                lemma_deep_values_index(xs@, i as int);
                lemma_deep_values_index(ys@, i as int);
                assert(deep_values(xs@)[i as int] != deep_values(ys@)[i as int]);
            }
            return false;
        }
        i = i + 1;
    }
    proof {
        assert forall|k: int| 0 <= k < xs@.len() implies deep_values(xs@)[k] == deep_values(ys@)[k] by {
            lemma_deep_values_index(xs@, k);
            lemma_deep_values_index(ys@, k);
        }
        assert(deep_values(xs@) =~= deep_values(ys@));
    }
    true
}

/// What a row holds in each of `columns`, as mathematics sees it.
pub open spec fn row_key(row: Row, columns: Seq<String>) -> Seq<Option<ValueView>> {
    columns.map_values(
        |c: String|
            match row_get(row.columns@, c@) {
                Some(v) => Some(deep_value(v)),
                None => None,
            },
    )
}

/// How far the deduplication has come: the keys seen, the distinct rows
/// skipped, the rows kept, and whether the window is full.
pub struct FallbackState {
    pub seen: Seq<Seq<Option<ValueView>>>,
    pub skipped: nat,
    pub kept: Seq<Row>,
    pub done: bool,
}

/// The deduplication over `rows`, row by row: a row whose key was seen is
/// dropped; otherwise its key is seen, and it is skipped while fewer than
/// `skip` distinct rows have been, else kept. Once `take` rows are kept (a
/// negative `take` sets no bound) the remaining rows are dropped, so at most
/// `take` rows are kept: none at all when it is zero.
pub open spec fn fallback_run(rows: Seq<Row>, columns: Seq<String>, skip: u32, take: Option<i32>) -> FallbackState
    decreases rows.len(),
{
    if rows.len() == 0 {
        FallbackState { seen: Seq::empty(), skipped: 0, kept: Seq::empty(), done: take == Some(0i32) }
    } else {
        let st = fallback_run(rows.drop_last(), columns, skip, take);
        let key = row_key(rows.last(), columns);
        if st.done || st.seen.contains(key) {
            st
        } else if st.skipped < skip {
            FallbackState { seen: st.seen.push(key), skipped: st.skipped + 1, kept: st.kept, done: false }
        } else {
            let kept = st.kept.push(rows.last());
            FallbackState {
                seen: st.seen.push(key),
                skipped: st.skipped,
                kept,
                done: match take {
                    Some(t) => t >= 0 && kept.len() >= t,
                    None => false,
                },
            }
        }
    }
}

/// The window holds: with a non-negative `take`, at most `take` rows are
/// kept, and once the window is full nothing more is kept.
pub proof fn lemma_fallback_window(rows: Seq<Row>, columns: Seq<String>, skip: u32, take: Option<i32>)
    ensures
        take is Some && take->0 >= 0 ==> fallback_run(rows, columns, skip, take).kept.len() <= take->0,
        take is Some && take->0 >= 0 && !fallback_run(rows, columns, skip, take).done
            ==> fallback_run(rows, columns, skip, take).kept.len() < take->0,
        fallback_run(rows, columns, skip, take).done ==> take is Some && take->0 >= 0
            && fallback_run(rows, columns, skip, take).kept.len() == take->0,
    decreases rows.len(),
{
    if rows.len() > 0 {
        lemma_fallback_window(rows.drop_last(), columns, skip, take);
    }
}

/// Deduplication the engine performs itself, standing in for `DISTINCT ON`
/// on a dialect without it: the query is rendered without `LIMIT` and
/// `OFFSET`, and both the deduplication and the window apply to the rows.
pub struct DistinctFallback {
    /// The qualified columns rows are compared on.
    pub columns: Vec<String>,
    pub skip: u32,
    pub take: Option<i32>,
}

/// The rows whose flag is set, in order.
pub open spec fn flagged(rows: Seq<Row>, flags: Seq<bool>) -> Seq<Row>
    decreases rows.len(),
{
    if rows.len() == 0 || flags.len() < rows.len() {
        Seq::empty()
    } else if flags[rows.len() - 1] {
        flagged(rows.drop_last(), flags).push(rows.last())
    } else {
        flagged(rows.drop_last(), flags)
    }
}

proof fn lemma_flagged_prefix(rows: Seq<Row>, flags: Seq<bool>, more: Seq<bool>)
    requires
        flags.len() >= rows.len(),
        more.len() >= rows.len(),
        forall|i: int| 0 <= i < rows.len() ==> flags[i] == more[i],
    ensures
        flagged(rows, flags) == flagged(rows, more),
    decreases rows.len(),
{
    if rows.len() > 0 {
        lemma_flagged_prefix(rows.drop_last(), flags, more);
    }
}

fn same_row_key(rows: &Vec<Row>, a: usize, b: usize, columns: &Vec<String>) -> (r: bool)
    requires
        a < rows@.len(),
        b < rows@.len(),
    ensures
        r == (row_key(rows@[a as int], columns@) == row_key(rows@[b as int], columns@)),
{
    let mut k: usize = 0;
    while k < columns.len()
        invariant
            k <= columns@.len(),
            a < rows@.len(),
            b < rows@.len(),
            forall|j: int| 0 <= j < k ==> row_key(rows@[a as int], columns@)[j] == row_key(rows@[b as int], columns@)[j],
        decreases columns@.len() - k,
    {
        let x = rows[a].get(columns[k].as_str());
        let y = rows[b].get(columns[k].as_str());
        let same = match (x, y) {
            (Some(v), Some(w)) => same_value(v, w),
            (None, None) => true,
            _ => false,
        };
        if !same {
            assert(row_key(rows@[a as int], columns@)[k as int] != row_key(rows@[b as int], columns@)[k as int]);
            return false;
        }
        k = k + 1;
    }
    assert(row_key(rows@[a as int], columns@) =~= row_key(rows@[b as int], columns@));
    true
}

impl DistinctFallback {
    /// Keep the first row of each combination of the distinct columns, then
    /// skip `skip` of them and keep at most `take`.
    pub fn apply(&self, rows: Vec<Row>) -> (r: Vec<Row>)
        ensures
            r@ == fallback_run(rows@, self.columns@, self.skip, self.take).kept,
    {
        let ghost all = rows@;
        let mut firsts: Vec<usize> = Vec::new();
        let mut flags: Vec<bool> = Vec::new();
        let mut skipped: u32 = 0;
        let mut kept_count: usize = 0;
        let mut done = match self.take {
            Some(t) => t == 0,
            None => false,
        };
        let mut i: usize = 0;
        while i < rows.len()
            invariant
                i <= rows@.len(),
                rows@ == all,
                flags@.len() == i,
                kept_count <= i,
                ({
                    let st = fallback_run(all.take(i as int), self.columns@, self.skip, self.take);
                    &&& st.seen.len() == firsts@.len()
                    &&& forall|j: int| 0 <= j < firsts@.len() ==> #[trigger] firsts@[j] < i && st.seen[j] == row_key(
                        all[firsts@[j] as int],
                        self.columns@,
                    )
                    &&& st.skipped == skipped
                    &&& st.kept.len() == kept_count
                    &&& st.done == done
                    &&& st.kept == flagged(all.take(i as int), flags@)
                }),
            decreases rows@.len() - i,
        {
            let ghost pre = all.take(i as int);
            let ghost st = fallback_run(pre, self.columns@, self.skip, self.take);
            assert(all.take(i + 1).drop_last() =~= pre);
            assert(all.take(i + 1).last() == all[i as int]);
            let ghost key = row_key(all[i as int], self.columns@);
            let ghost old_firsts = firsts@;
            let mut keep = false;
            if !done {
                let mut seen = false;
                let mut j: usize = 0;
                while j < firsts.len() && !seen
                    invariant
                        j <= firsts@.len(),
                        i < rows@.len(),
                        key == row_key(all[i as int], self.columns@),
                        rows@ == all,
                        forall|x: int| 0 <= x < firsts@.len() ==> #[trigger] firsts@[x] < i,
                        seen ==> exists|x: int| 0 <= x < firsts@.len() && row_key(all[#[trigger] firsts@[x] as int], self.columns@) == key,
                        !seen ==> forall|x: int| 0 <= x < j ==> row_key(all[#[trigger] firsts@[x] as int], self.columns@) != key,
                    decreases firsts@.len() - j,
                {
                    let f = firsts[j];
                    if same_row_key(&rows, f, i, &self.columns) {
                        seen = true;
                    }
                    j = j + 1;
                }
                proof {
                    if seen {
                        let x = choose|x: int| 0 <= x < firsts@.len() && row_key(all[#[trigger] firsts@[x] as int], self.columns@) == key;
                        assert(st.seen[x] == key);
                        assert(st.seen.contains(key));
                    } else {
                        assert forall|x: int| 0 <= x < st.seen.len() implies st.seen[x] != key by {
                            assert(firsts@[x] < i);
                        }
                        assert(!st.seen.contains(key));
                    }
                }
                if !seen {
                    firsts.push(i);
                    if skipped < self.skip {
                        skipped = skipped + 1;
                    } else {
                        keep = true;
                        kept_count = kept_count + 1;
                        done = match self.take {
                            Some(t) => t >= 0 && kept_count as u64 >= t as u64,
                            None => false,
                        };
                    }
                }
            }
            let ghost old_flags = flags@;
            flags.push(keep);
            proof {
                lemma_flagged_prefix(pre, old_flags, flags@);
                let st2 = fallback_run(all.take(i + 1), self.columns@, self.skip, self.take);
                assert forall|j: int| 0 <= j < firsts@.len() implies #[trigger] firsts@[j] < i + 1 && st2.seen[j] == row_key(
                    all[firsts@[j] as int],
                    self.columns@,
                ) by {
                    if j < old_firsts.len() {
                        assert(firsts@[j] == old_firsts[j]);
                    }
                }
            }
            i = i + 1;
        }
        assert(all.take(all.len() as int) =~= all);
        let ghost final_flags = flags@;
        let mut out: Vec<Row> = Vec::new();
        let mut rest = rows;
        let mut n: usize = 0;
        let total = rest.len();
        while rest.len() > 0
            invariant
                n <= all.len(),
                total == all.len(),
                rest@ == all.subrange(n as int, all.len() as int),
                flags@ == final_flags,
                final_flags.len() == all.len(),
                out@ == flagged(all.take(n as int), final_flags),
            decreases rest@.len(),
        {
            assert(all.take(n + 1).drop_last() =~= all.take(n as int));
            assert(all.take(n + 1).last() == all[n as int]);
            let row = rest.remove(0);
            if flags[n] {
                out.push(row);
            }
            n = n + 1;
        }
        assert(all.take(all.len() as int) =~= all);
        out
    }
}

fn copy_text(t: &String) -> (r: String)
    ensures
        r@ == t@,
{
    String::from_str(t.as_str())
}

/// A copy of `v`.
pub fn clone_value(v: &Value) -> (r: Value)
    ensures
        deep_value(r) == deep_value(*v),
    decreases v, 1nat,
{
    match v {
        Value::Null => Value::Null,
        Value::Bool(b) => Value::Bool(*b),
        Value::I32(i) => Value::I32(*i),
        Value::I64(i) => Value::I64(*i),
        Value::F64(bits) => Value::F64(*bits),
        Value::Decimal(t) => Value::Decimal(copy_text(t)),
        Value::DateTime(t) => Value::DateTime(copy_text(t)),
        Value::Uuid(u) => Value::Uuid(*u),
        Value::String(t) => Value::String(copy_text(t)),
        Value::Bytes(b) => {
            let mut out: Vec<u8> = Vec::new();
            let mut i: usize = 0;
            while i < b.len()
                invariant
                    i <= b@.len(),
                    out@ == b@.take(i as int),
                decreases b@.len() - i,
            {
                out.push(b[i]);
                assert(out@ =~= b@.take(i + 1));
                i = i + 1;
            }
            assert(b@.take(b@.len() as int) =~= b@);
            Value::Bytes(out)
        },
        Value::Json(j) => Value::Json(crate::json::json_clone(j)),
        Value::Array(vs) => Value::Array(clone_list(vs, Ghost(*v))),
        Value::Vector(cs) => {
            let mut out: Vec<u64> = Vec::new();
            let mut i: usize = 0;
            while i < cs.len()
                invariant
                    i <= cs@.len(),
                    out@ == cs@.take(i as int),
                decreases cs@.len() - i,
            {
                out.push(cs[i]);
                assert(out@ =~= cs@.take(i + 1));
                i = i + 1;
            }
            assert(cs@.take(cs@.len() as int) =~= cs@);
            Value::Vector(out)
        },
        Value::Hstore(entries) => {
            let mut out: Vec<(String, Option<String>)> = Vec::new();
            let mut i: usize = 0;
            while i < entries.len()
                invariant
                    i <= entries@.len(),
                    hstore_view(out@) == hstore_view(entries@.take(i as int)),
                decreases entries@.len() - i,
            {
                let cell = match &entries[i].1 {
                    Some(t) => Some(copy_text(t)),
                    None => None,
                };
                let entry = (copy_text(&entries[i].0), cell);
                let ghost before = out@;
                out.push(entry);
                assert(hstore_view(out@) =~= hstore_view(before).push((entries@[i as int].0@, crate::field::text_of(entries@[i as int].1))));
                assert(entries@.take(i + 1) =~= entries@.take(i as int).push(entries@[i as int]));
                assert(hstore_view(entries@.take(i + 1)) =~= hstore_view(entries@.take(i as int)).push((entries@[i as int].0@, crate::field::text_of(entries@[i as int].1))));
                i = i + 1;
            }
            assert(entries@.take(entries@.len() as int) =~= entries@);
            Value::Hstore(out)
        },
        Value::Geometry(t) => Value::Geometry(copy_text(t)),
        Value::Geography(t) => Value::Geography(copy_text(t)),
        Value::Enum { sql_type, value } => Value::Enum { sql_type: copy_text(sql_type), value: copy_text(value) },
        Value::Extension { sql_type, value } => Value::Extension { sql_type: copy_text(sql_type), value: copy_text(value) },
        Value::Composite { sql_type, fields } => Value::Composite {
            sql_type: copy_text(sql_type),
            fields: clone_list(fields, Ghost(*v)),
        },
    }
}

fn clone_list(vs: &Vec<Value>, Ghost(parent): Ghost<Value>) -> (r: Vec<Value>)
    requires
        parent == Value::Array(*vs) || (parent matches Value::Composite { fields, .. } && fields == *vs),
    ensures
        deep_values(r@) == deep_values(vs@),
    decreases parent, 0nat,
{
    let mut r: Vec<Value> = Vec::new();
    let mut i: usize = 0;
    while i < vs.len()
        invariant
            i <= vs@.len(),
            parent == Value::Array(*vs) || (parent matches Value::Composite { fields, .. } && fields
                == *vs),
            deep_values(r@) == deep_values(vs@.take(i as int)),
        decreases vs@.len() - i,
    {
        assert(vs@.take(i + 1).drop_last() =~= vs@.take(i as int));
        let ghost before = r@;
        proof {
            if parent is Array {
                assert(decreases_to!(parent => parent->Array_0));
            } else {
                assert(decreases_to!(parent => parent->fields));
            }
            assert(decreases_to!(*vs => vs@));
            assert(decreases_to!(vs@ => vs@[i as int]));
        }
        let c = clone_value(&vs[i]);
        r.push(c);
        assert(r@.drop_last() =~= before);
        i = i + 1;
    }
    assert(vs@.take(vs@.len() as int) =~= vs@);
    r
}

} // verus!
