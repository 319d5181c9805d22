//! Maps keyed by text and kept in ascending key order, as a
//! `BTreeMap<String, _>` keeps them: the shape of hstore values and of the
//! JSON objects the engine builds.
use vstd::prelude::*;

use crate::unique::{lemma_text_less_irreflexive, lemma_text_less_transitive, text_less};

verus! {

/// The first position from `i` on whose key does not sort before `key`.
pub open spec fn key_position<T>(m: Seq<(Seq<char>, T)>, key: Seq<char>, i: int) -> int
    decreases m.len() - i,
{
    if i >= m.len() {
        m.len() as int
    } else if text_less(m[i].0, key) {
        key_position(m, key, i + 1)
    } else {
        i
    }
}

/// `m` with `key` set to `value`, as an ordered map inserts: an entry with an
/// equal key is replaced, otherwise the new entry goes before the first key
/// that does not sort before it.
pub open spec fn map_insert<T>(m: Seq<(Seq<char>, T)>, key: Seq<char>, value: T) -> Seq<(Seq<char>, T)> {
    let p = key_position(m, key, 0);
    if 0 <= p < m.len() && m[p].0 == key {
        m.update(p, (key, value))
    } else {
        m.insert(p, (key, value))
    }
}

/// Whether the keys of `m` ascend strictly.
pub open spec fn strictly_ascending<T>(m: Seq<(Seq<char>, T)>) -> bool {
    forall|i: int, j: int| 0 <= i < j < m.len() ==> text_less(#[trigger] m[i].0, #[trigger] m[j].0)
}

/// The value `m` holds under `key`: that of its first entry with that key.
pub open spec fn map_lookup<T>(m: Seq<(Seq<char>, T)>, key: Seq<char>) -> Option<T>
    decreases m.len(),
{
    if m.len() == 0 {
        None
    } else if m[0].0 == key {
        Some(m[0].1)
    } else {
        map_lookup(m.drop_first(), key)
    }
}

proof fn lemma_lookup_first<T>(m: Seq<(Seq<char>, T)>, k: Seq<char>, i: int)
    requires
        0 <= i < m.len(),
        m[i].0 == k,
        forall|j: int| 0 <= j < i ==> #[trigger] m[j].0 != k,
    ensures
        map_lookup(m, k) == Some(m[i].1),
    decreases i,
{
    if i > 0 {
        let rest = m.drop_first();
        assert forall|j: int| 0 <= j < i - 1 implies #[trigger] rest[j].0 != k by {
            assert(rest[j] == m[j + 1]);
        }
        assert(rest[i - 1] == m[i]);
        lemma_lookup_first(rest, k, i - 1);
    }
}

proof fn lemma_lookup_none<T>(m: Seq<(Seq<char>, T)>, k: Seq<char>)
    requires
        forall|j: int| 0 <= j < m.len() ==> #[trigger] m[j].0 != k,
    ensures
        map_lookup(m, k) is None,
    decreases m.len(),
{
    if m.len() > 0 {
        let rest = m.drop_first();
        assert forall|j: int| 0 <= j < rest.len() implies #[trigger] rest[j].0 != k by {
            assert(rest[j] == m[j + 1]);
        }
        lemma_lookup_none(rest, k);
    }
}

/// Two distinct texts are ordered one way or the other.
pub proof fn lemma_text_less_total(a: Seq<char>, b: Seq<char>)
    requires
        a != b,
    ensures
        text_less(a, b) || text_less(b, a),
    decreases a.len(),
{
    if a.len() == 0 || b.len() == 0 {
        if a.len() == 0 && b.len() == 0 {
            assert(a =~= b);
        }
    } else if a[0] != b[0] {
        assert((a[0] as u32) != (b[0] as u32)) by {
            vstd::utf8::char_u32_cast(a[0], a[0] as u32);
            vstd::utf8::char_u32_cast(b[0], b[0] as u32);
        }
    } else {
        if a.drop_first() == b.drop_first() {
            assert(a.drop_first().len() == a.len() - 1);
            assert(b.drop_first().len() == b.len() - 1);
            assert(a.len() == b.len());
            assert forall|i: int| 0 <= i < a.len() implies a[i] == b[i] by {
                if i > 0 {
                    assert(a[i] == a.drop_first()[i - 1]);
                    assert(b[i] == b.drop_first()[i - 1]);
                }
            }
            assert(a =~= b);
        }
        lemma_text_less_total(a.drop_first(), b.drop_first());
    }
}

pub proof fn lemma_key_position_bounds<T>(m: Seq<(Seq<char>, T)>, key: Seq<char>, i: int)
    requires
        0 <= i <= m.len(),
    ensures
        i <= key_position(m, key, i) <= m.len(),
        forall|j: int| i <= j < key_position(m, key, i) ==> text_less(#[trigger] m[j].0, key),
        key_position(m, key, i) < m.len() ==> !text_less(m[key_position(m, key, i)].0, key),
    decreases m.len() - i,
{
    if i < m.len() && text_less(m[i].0, key) {
        lemma_key_position_bounds(m, key, i + 1);
    }
}

/// In a strictly ascending map, a key found at `i` is found only there.
pub proof fn lemma_lookup_at<T>(m: Seq<(Seq<char>, T)>, k: Seq<char>, i: int)
    requires
        strictly_ascending(m),
        0 <= i < m.len(),
        m[i].0 == k,
    ensures
        map_lookup(m, k) == Some(m[i].1),
{
    assert forall|j: int| 0 <= j < i implies #[trigger] m[j].0 != k by {
        if m[j].0 == k {
            assert(text_less(m[j].0, m[i].0));
            lemma_text_less_irreflexive(k);
        }
    }
    lemma_lookup_first(m, k, i);
}

/// An insert keeps the keys strictly ascending.
pub proof fn lemma_map_insert_ascending<T>(m: Seq<(Seq<char>, T)>, key: Seq<char>, value: T)
    requires
        strictly_ascending(m),
    ensures
        strictly_ascending(map_insert(m, key, value)),
{
    let p = key_position(m, key, 0);
    lemma_key_position_bounds(m, key, 0);
    let r = map_insert(m, key, value);
    if 0 <= p < m.len() && m[p].0 == key {
        assert forall|i: int, j: int| 0 <= i < j < r.len() implies text_less(#[trigger] r[i].0, #[trigger] r[j].0) by {
            assert(r[i].0 == m[i].0 && r[j].0 == m[j].0);
        }
    } else {
        assert forall|j: int| p <= j < m.len() implies text_less(key, #[trigger] m[j].0) by {
            lemma_text_less_total(key, m[p].0);
            if j > p {
                lemma_text_less_transitive(key, m[p].0, m[j].0);
            }
        }
        assert forall|i: int, j: int| 0 <= i < j < r.len() implies text_less(#[trigger] r[i].0, #[trigger] r[j].0) by {
            if j < p {
            } else if j == p {
                assert(r[i].0 == m[i].0);
            } else if i < p {
                assert(r[j].0 == m[j - 1].0);
                lemma_text_less_transitive(m[i].0, key, m[j - 1].0);
            } else if i == p {
                assert(r[j].0 == m[j - 1].0);
            } else {
                assert(r[i].0 == m[i - 1].0 && r[j].0 == m[j - 1].0);
            }
        }
    }
}

/// An insert keeps the keys strictly ascending, holds `value` under `key`, and
/// leaves every other key's value as it was.
pub proof fn lemma_map_insert<T>(m: Seq<(Seq<char>, T)>, key: Seq<char>, value: T)
    requires
        strictly_ascending(m),
    ensures
        strictly_ascending(map_insert(m, key, value)),
        map_lookup(map_insert(m, key, value), key) == Some(value),
        forall|k: Seq<char>| k != key ==> map_lookup(#[trigger] map_insert(m, key, value), k) == map_lookup(m, k),
{
    let p = key_position(m, key, 0);
    lemma_key_position_bounds(m, key, 0);
    lemma_map_insert_ascending(m, key, value);
    let r = map_insert(m, key, value);
    let replaced = 0 <= p < m.len() && m[p].0 == key;
    assert(r[p].0 == key && r[p].1 == value);
    lemma_lookup_at(r, key, p);
    assert forall|k: Seq<char>| k != key implies map_lookup(#[trigger] map_insert(m, key, value), k) == map_lookup(m, k) by {
        if exists|i: int| 0 <= i < m.len() && #[trigger] m[i].0 == k {
            let i = choose|i: int| 0 <= i < m.len() && #[trigger] m[i].0 == k;
            lemma_lookup_at(m, k, i);
            if replaced || i < p {
                assert(r[i] == m[i]);
                lemma_lookup_at(r, k, i);
            } else {
                assert(r[i + 1] == m[i]);
                lemma_lookup_at(r, k, i + 1);
            }
        } else {
            assert forall|i: int| 0 <= i < r.len() implies #[trigger] r[i].0 != k by {
                if i == p {
                } else if replaced || i < p {
                    assert(r[i] == m[i]);
                } else {
                    assert(r[i] == m[i - 1]);
                }
            }
            lemma_lookup_none(m, k);
            lemma_lookup_none(r, k);
        }
    }
}

} // verus!
