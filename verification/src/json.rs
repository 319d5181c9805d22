//! The JSON values of the protocol, as the engine reads them.
use vstd::prelude::*;

verus! {

/// A JSON number as the parser classifies it.
#[derive(Debug, Clone, Copy, PartialEq)]
pub enum JsonNumber {
    /// A non-negative integer.
    PosInt(u64),
    /// A negative integer.
    NegInt(i64),
    /// Any other number, by the bit pattern of its `f64`.
    Float(u64),
}

/// A JSON value. Object members keep the order the parser produced.
#[derive(Debug, PartialEq)]
pub enum Json {
    Null,
    Bool(bool),
    Number(JsonNumber),
    String(String),
    Array(Vec<Json>),
    Object(Vec<(String, Json)>),
}

} // verus!

verus! {

/// A JSON value as mathematics sees it: text as characters, arrays and
/// objects as sequences.
pub enum JsonView {
    Null,
    Bool(bool),
    Number(JsonNumber),
    String(Seq<char>),
    Array(Seq<JsonView>),
    Object(Seq<(Seq<char>, JsonView)>),
}

impl Json {
    /// The mathematical value of this JSON value.
    pub open spec fn deep(self) -> JsonView
        decreases self, 1nat,
    {
        match self {
            Json::Null => JsonView::Null,
            Json::Bool(b) => JsonView::Bool(b),
            Json::Number(n) => JsonView::Number(n),
            Json::String(s) => JsonView::String(s@),
            Json::Array(items) => JsonView::Array(deep_items(items@)),
            Json::Object(entries) => JsonView::Object(deep_entries(entries@)),
        }
    }
}

/// The mathematical values of `items`.
pub open spec fn deep_items(items: Seq<Json>) -> Seq<JsonView>
    decreases items, 0nat,
{
    if items.len() == 0 {
        Seq::empty()
    } else {
        deep_items(items.drop_last()).push(items.last().deep())
    }
}

/// The mathematical values of object members.
pub open spec fn deep_entries(entries: Seq<(String, Json)>) -> Seq<(Seq<char>, JsonView)>
    decreases entries, 0nat,
{
    if entries.len() == 0 {
        Seq::empty()
    } else {
        deep_entries(entries.drop_last()).push((entries.last().0@, entries.last().1.deep()))
    }
}

/// The members' views, one by one.
pub proof fn lemma_deep_entries_index(entries: Seq<(String, Json)>, i: int)
    requires
        0 <= i < entries.len(),
    ensures
        deep_entries(entries).len() == entries.len(),
        deep_entries(entries)[i] == (entries[i].0@, entries[i].1.deep()),
    decreases entries.len(),
{
    lemma_deep_entries_len(entries);
    lemma_deep_entries_len(entries.drop_last());
    if i < entries.len() - 1 {
        lemma_deep_entries_index(entries.drop_last(), i);
        assert(entries.drop_last()[i] == entries[i]);
    }
}

/// As many member views as members.
pub proof fn lemma_deep_entries_len(entries: Seq<(String, Json)>)
    ensures
        deep_entries(entries).len() == entries.len(),
    decreases entries.len(),
{
    if entries.len() > 0 {
        lemma_deep_entries_len(entries.drop_last());
    }
}

/// As many item views as items.
pub proof fn lemma_deep_items_len(items: Seq<Json>)
    ensures
        deep_items(items).len() == items.len(),
    decreases items.len(),
{
    if items.len() > 0 {
        lemma_deep_items_len(items.drop_last());
    }
}

/// The items' views, one by one.
pub proof fn lemma_deep_items_index(items: Seq<Json>, i: int)
    requires
        0 <= i < items.len(),
    ensures
        deep_items(items).len() == items.len(),
        deep_items(items)[i] == items[i].deep(),
    decreases items.len(),
{
    lemma_deep_items_len(items);
    lemma_deep_items_len(items.drop_last());
    if i < items.len() - 1 {
        lemma_deep_items_index(items.drop_last(), i);
        assert(items.drop_last()[i] == items[i]);
    }
}

/// A copy of `value`.
pub fn json_clone(value: &Json) -> (r: Json)
    ensures
        r.deep() == value.deep(),
    decreases value, 1nat,
{
    match value {
        Json::Null => Json::Null,
        Json::Bool(b) => Json::Bool(*b),
        Json::Number(n) => Json::Number(*n),
        Json::String(s) => Json::String(String::from_str(s.as_str())),
        Json::Array(items) => Json::Array(clone_items(items, Ghost(*value))),
        Json::Object(entries) => Json::Object(clone_entries(entries, Ghost(*value))),
    }
}

fn clone_items(items: &Vec<Json>, Ghost(parent): Ghost<Json>) -> (r: Vec<Json>)
    requires
        parent == Json::Array(*items),
    ensures
        deep_items(r@) == deep_items(items@),
    decreases parent, 0nat,
{
    let mut r: Vec<Json> = Vec::new();
    let mut i: usize = 0;
    while i < items.len()
        invariant
            i <= items@.len(),
            parent == Json::Array(*items),
            deep_items(r@) == deep_items(items@.take(i as int)),
        decreases items@.len() - i,
    {
        assert(items@.take(i + 1).drop_last() =~= items@.take(i as int));
        let ghost before = r@;
        proof {
            assert(parent->Array_0 == *items);
            assert(decreases_to!(parent => parent->Array_0));
            assert(decreases_to!(*items => items@));
            assert(decreases_to!(items@ => items@[i as int]));
        }
        let c = json_clone(&items[i]);
        r.push(c);
        assert(r@.drop_last() =~= before);
        i = i + 1;
    }
    assert(items@.take(items@.len() as int) =~= items@);
    r
}

fn clone_entries(entries: &Vec<(String, Json)>, Ghost(parent): Ghost<Json>) -> (r: Vec<(String, Json)>)
    requires
        parent == Json::Object(*entries),
    ensures
        deep_entries(r@) == deep_entries(entries@),
    decreases parent, 0nat,
{
    let mut r: Vec<(String, Json)> = Vec::new();
    let mut i: usize = 0;
    while i < entries.len()
        invariant
            i <= entries@.len(),
            parent == Json::Object(*entries),
            deep_entries(r@) == deep_entries(entries@.take(i as int)),
        decreases entries@.len() - i,
    {
        assert(entries@.take(i + 1).drop_last() =~= entries@.take(i as int));
        let ghost before = r@;
        let k = String::from_str(entries[i].0.as_str());
        proof {
            assert(parent->Object_0 == *entries);
            assert(decreases_to!(parent => parent->Object_0));
            assert(decreases_to!(*entries => entries@));
            assert(decreases_to!(entries@ => entries@[i as int]));
            assert(decreases_to!(entries@[i as int] => entries@[i as int].1));
        }
        let v = json_clone(&entries[i].1);
        r.push((k, v));
        assert(r@.drop_last() =~= before);
        i = i + 1;
    }
    assert(entries@.take(entries@.len() as int) =~= entries@);
    r
}

/// Whether two JSON values are the same value.
pub fn same_json(a: &Json, b: &Json) -> (r: bool)
    ensures
        r == (a.deep() == b.deep()),
    decreases a,
{
    match (a, b) {
        (Json::Null, Json::Null) => true,
        (Json::Bool(x), Json::Bool(y)) => *x == *y,
        (Json::Number(x), Json::Number(y)) => match (x, y) {
            (JsonNumber::PosInt(p), JsonNumber::PosInt(q)) => *p == *q,
            (JsonNumber::NegInt(p), JsonNumber::NegInt(q)) => *p == *q,
            (JsonNumber::Float(p), JsonNumber::Float(q)) => *p == *q,
            _ => false,
        },
        (Json::String(x), Json::String(y)) => crate::text::str_eq(x.as_str(), y.as_str()),
        (Json::Array(xs), Json::Array(ys)) => {
            proof {
                lemma_deep_items_len(xs@);
                lemma_deep_items_len(ys@);
            }
            if xs.len() != ys.len() {
                return false;
            }
            let mut i: usize = 0;
            while i < xs.len()
                invariant
                    i <= xs@.len(),
                    xs@.len() == ys@.len(),
                    *a == Json::Array(*xs),
                    *b == Json::Array(*ys),
                    forall|k: int| 0 <= k < i ==> (#[trigger] xs@[k]).deep() == ys@[k].deep(),
                decreases xs@.len() - i,
            {
                proof {
                    assert(decreases_to!(*a => a->Array_0));
                    assert(decreases_to!(*xs => xs@));
                    assert(decreases_to!(xs@ => xs@[i as int]));
                }
                if !same_json(&xs[i], &ys[i]) {
                    proof {
                        lemma_deep_items_index(xs@, i as int);
                        lemma_deep_items_index(ys@, i as int);
                        assert(deep_items(xs@)[i as int] != deep_items(ys@)[i as int]);
                        assert(deep_items(xs@) != deep_items(ys@));
                    }
                    return false;
                }
                i = i + 1;
            }
            proof {
                assert forall|k: int| 0 <= k < xs@.len() implies deep_items(xs@)[k] == deep_items(ys@)[k] by {
                    lemma_deep_items_index(xs@, k);
                    lemma_deep_items_index(ys@, k);
                }
                assert(deep_items(xs@) =~= deep_items(ys@));
            }
            true
        },
        (Json::Object(xs), Json::Object(ys)) => {
            proof {
                lemma_deep_entries_len(xs@);
                lemma_deep_entries_len(ys@);
            }
            if xs.len() != ys.len() {
                return false;
            }
            let mut i: usize = 0;
            while i < xs.len()
                invariant
                    i <= xs@.len(),
                    xs@.len() == ys@.len(),
                    *a == Json::Object(*xs),
                    *b == Json::Object(*ys),
                    forall|k: int| 0 <= k < i ==> (#[trigger] xs@[k]).0@ == ys@[k].0@ && xs@[k].1.deep() == ys@[k].1.deep(),
                decreases xs@.len() - i,
            {
                proof {
                    assert(decreases_to!(*a => a->Object_0));
                    assert(decreases_to!(*xs => xs@));
                    assert(decreases_to!(xs@ => xs@[i as int]));
                    assert(decreases_to!(xs@[i as int] => xs@[i as int].1));
                }
                if !crate::text::str_eq(xs[i].0.as_str(), ys[i].0.as_str()) || !same_json(&xs[i].1, &ys[i].1) {
                    proof {
                        lemma_deep_entries_index(xs@, i as int);
                        lemma_deep_entries_index(ys@, i as int);
                        assert(deep_entries(xs@)[i as int] != deep_entries(ys@)[i as int]);
                        assert(deep_entries(xs@) != deep_entries(ys@));
                    }
                    return false;
                }
                i = i + 1;
            }
            proof {
                assert forall|k: int| 0 <= k < xs@.len() implies deep_entries(xs@)[k] == deep_entries(ys@)[k] by {
                    lemma_deep_entries_index(xs@, k);
                    lemma_deep_entries_index(ys@, k);
                }
                assert(deep_entries(xs@) =~= deep_entries(ys@));
            }
            true
        },
        _ => false,
    }
}

} // verus!
