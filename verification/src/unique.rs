//! Matching a filter against the model's primary key and unique constraints.
use vstd::prelude::*;

use crate::clauses::joined;
use crate::json::Json;
use crate::model::{FieldIr, ModelIr};
use crate::protocol::{filter_body, protocol_filter_body, ProtocolError};
use crate::text::str_eq;

verus! {

/// Whether `a` sorts before `b`, comparing characters by code point as `str`'s
/// ordering does.
pub open spec fn text_less(a: Seq<char>, b: Seq<char>) -> bool
    decreases a.len(),
{
    if a.len() == 0 {
        b.len() > 0
    } else if b.len() == 0 {
        false
    } else if a[0] != b[0] {
        (a[0] as u32) < (b[0] as u32)
    } else {
        text_less(a.drop_first(), b.drop_first())
    }
}

/// Whether `names` is in ascending order.
pub open spec fn sorted_names(names: Seq<Seq<char>>) -> bool {
    forall|i: int, j: int| 0 <= i < j < names.len() ==> !text_less(names[j], names[i])
}

pub proof fn lemma_text_less_transitive(a: Seq<char>, b: Seq<char>, c: Seq<char>)
    requires
        text_less(a, b),
        text_less(b, c),
    ensures
        text_less(a, c),
    decreases a.len(),
{
    if a.len() > 0 && b.len() > 0 && c.len() > 0 && a[0] == b[0] && b[0] == c[0] {
        lemma_text_less_transitive(a.drop_first(), b.drop_first(), c.drop_first());
    }
}

pub proof fn lemma_text_less_irreflexive(a: Seq<char>)
    ensures
        !text_less(a, a),
    decreases a.len(),
{
    if a.len() > 0 {
        lemma_text_less_irreflexive(a.drop_first());
    }
}

/// Whether `a` sorts before `b`.
pub fn str_less(a: &str, b: &str) -> (r: bool)
    ensures
        r == text_less(a@, b@),
{
    let n = a.unicode_len();
    let m = b.unicode_len();
    let mut i: usize = 0;
    assert(a@.subrange(0, n as int) =~= a@);
    assert(b@.subrange(0, m as int) =~= b@);
    while i < n && i < m
        invariant
            i <= n,
            i <= m,
            n == a@.len(),
            m == b@.len(),
            text_less(a@, b@) == text_less(a@.subrange(i as int, n as int), b@.subrange(i as int, m as int)),
        decreases n - i,
    {
        let x = a.get_char(i);
        let y = b.get_char(i);
        let ghost ra = a@.subrange(i as int, n as int);
        let ghost rb = b@.subrange(i as int, m as int);
        assert(ra[0] == x && rb[0] == y);
        if x != y {
            return (x as u32) < (y as u32);
        }
        assert(ra.drop_first() =~= a@.subrange(i + 1, n as int));
        assert(rb.drop_first() =~= b@.subrange(i + 1, m as int));
        i = i + 1;
    }
    i == n && i < m
}

/// `names` in ascending order.
pub fn sort_names<'a>(names: Vec<&'a str>) -> (r: Vec<&'a str>)
    ensures
        r@.len() == names@.len(),
        sorted_names(r@.map_values(|s: &str| s@)),
        forall|i: int| 0 <= i < names@.len() ==> r@.contains(#[trigger] names@[i]),
        forall|i: int| 0 <= i < r@.len() ==> names@.contains(#[trigger] r@[i]),
{
    let ghost orig = names@;
    let mut rest = names;
    let mut out: Vec<&'a str> = Vec::new();
    while rest.len() > 0
        invariant
            out@.len() + rest@.len() == orig.len(),
            sorted_names(out@.map_values(|s: &str| s@)),
            forall|i: int, x: int|
                0 <= i < out@.len() && 0 <= x < rest@.len() ==> !text_less(
                    #[trigger] rest@[x]@,
                    #[trigger] out@[i]@,
                ),
            forall|i: int| 0 <= i < orig.len() ==> out@.contains(#[trigger] orig[i]) || rest@.contains(orig[i]),
            forall|i: int| 0 <= i < out@.len() ==> orig.contains(#[trigger] out@[i]),
            forall|i: int| 0 <= i < rest@.len() ==> orig.contains(#[trigger] rest@[i]),
        decreases rest@.len(),
    {
        let mut best: usize = 0;
        let mut k: usize = 1;
        proof {
            lemma_text_less_irreflexive(rest@[0]@);
        }
        while k < rest.len()
            invariant
                0 <= best < rest@.len(),
                1 <= k <= rest@.len(),
                forall|y: int| 0 <= y < k ==> !text_less(#[trigger] rest@[y]@, rest@[best as int]@),
            decreases rest@.len() - k,
        {
            if str_less(rest[k], rest[best]) {
                proof {
                    lemma_text_less_irreflexive(rest@[k as int]@);
                    assert forall|y: int| 0 <= y < k implies !text_less(
                        #[trigger] rest@[y]@,
                        rest@[k as int]@,
                    ) by {
                        if text_less(rest@[y]@, rest@[k as int]@) {
                            lemma_text_less_transitive(rest@[y]@, rest@[k as int]@, rest@[best as int]@);
                        }
                    }
                }
                best = k;
            }
            k = k + 1;
        }
        let ghost before_rest = rest@;
        let ghost before_out = out@;
        let m = rest.remove(best);
        out.push(m);
        proof {
            assert(out@.map_values(|s: &str| s@) =~= before_out.map_values(|s: &str| s@).push(m@));
            assert forall|i: int, x: int|
                0 <= i < out@.len() && 0 <= x < rest@.len() implies !text_less(
                #[trigger] rest@[x]@,
                #[trigger] out@[i]@,
            ) by {
                let y = if x < best { x } else { x + 1 };
                assert(rest@[x] == before_rest[y]);
                if i < before_out.len() {
                    assert(out@[i] == before_out[i]);
                }
            }
            assert forall|i: int| 0 <= i < orig.len() implies out@.contains(#[trigger] orig[i]) || rest@.contains(orig[i]) by {
                if before_out.contains(orig[i]) {
                    let j = choose|j: int| 0 <= j < before_out.len() && before_out[j] == orig[i];
                    assert(out@[j] == orig[i]);
                } else {
                    let j = choose|j: int| 0 <= j < before_rest.len() && before_rest[j] == orig[i];
                    if j == best {
                        assert(out@[out@.len() - 1] == orig[i]);
                    } else if j < best {
                        assert(rest@[j] == orig[i]);
                    } else {
                        assert(rest@[j - 1] == orig[i]);
                    }
                }
            }
            assert forall|i: int| 0 <= i < out@.len() implies orig.contains(#[trigger] out@[i]) by {
                if i < before_out.len() {
                    assert(out@[i] == before_out[i]);
                } else {
                    assert(out@[i] == before_rest[best as int]);
                }
            }
            assert forall|i: int| 0 <= i < rest@.len() implies orig.contains(#[trigger] rest@[i]) by {
                let y = if i < best { i } else { i + 1 };
                assert(rest@[i] == before_rest[y]);
            }
        }
    }
    proof {
        assert forall|i: int| 0 <= i < orig.len() implies out@.contains(#[trigger] orig[i]) by {
            if rest@.contains(orig[i]) {
                let j = choose|j: int| 0 <= j < rest@.len() && rest@[j] == orig[i];
            }
        }
    }
    out
}

/// Write `names` separated by `, `.
pub fn push_joined(sql: &mut String, names: &[&str])
    ensures
        final(sql)@ == old(sql)@ + joined(names@.map_values(|s: &str| s@), ", "@),
{
    let ghost start = sql@;
    let ghost parts = names@.map_values(|s: &str| s@);
    let mut i: usize = 0;
    while i < names.len()
        invariant
            i <= names@.len(),
            parts == names@.map_values(|s: &str| s@),
            sql@ == start + joined(parts.take(i as int), ", "@),
        decreases names@.len() - i,
    {
        proof {
            crate::clauses::lemma_joined_take(parts, ", "@, i as int);
        }
        if i > 0 {
            sql.push_str(", ");
        }
        sql.push_str(names[i]);
        i = i + 1;
        assert(sql@ =~= start + joined(parts.take(i as int), ", "@));
    }
    assert(parts.take(names@.len() as int) =~= parts);
}

/// Whether `field` is the one `name` refers to, by logical or column name.
pub open spec fn names_field(field: FieldIr, name: Seq<char>) -> bool {
    field.logical_name@ == name || field.db_name@ == name
}

/// The index of the first stored field from `k` on that `key` refers to.
pub open spec fn scalar_field_named(fields: Seq<FieldIr>, key: Seq<char>, k: int) -> Option<int>
    decreases fields.len() - k,
{
    if k < 0 || k >= fields.len() {
        None
    } else if !(fields[k].field_type is Relation) && names_field(fields[k], key) {
        Some(k)
    } else {
        scalar_field_named(fields, key, k + 1)
    }
}

/// The column lists a single row can be found by: the primary key, then each
/// unique constraint.
pub open spec fn key_candidates(model: ModelIr) -> Seq<Seq<Seq<char>>> {
    seq![model.primary_key@.map_values(|s: String| s@)] + model.unique_constraints@.map_values(
        |c: Vec<String>| c@.map_values(|s: String| s@),
    )
}

/// Whether filter key `key` refers to a stored field that `name` also names.
pub open spec fn key_names(model: ModelIr, key: Seq<char>, name: Seq<char>) -> bool {
    scalar_field_named(model.fields@, key, 0) matches Some(i) && names_field(model.fields@[i], name)
}

/// Whether one of `keys` names the column `name`.
pub open spec fn named_by_a_key(model: ModelIr, keys: Seq<Seq<char>>, name: Seq<char>) -> bool {
    exists|j: int| 0 <= j < keys.len() && #[trigger] key_names(model, keys[j], name)
}

/// Whether `keys` name exactly the columns of `candidate`.
pub open spec fn keys_match(model: ModelIr, candidate: Seq<Seq<char>>, keys: Seq<Seq<char>>) -> bool {
    candidate.len() == keys.len() && forall|i: int|
        0 <= i < candidate.len() ==> #[trigger] named_by_a_key(model, keys, candidate[i])
}

/// The first candidate from `k` on that `keys` name exactly.
pub open spec fn first_matching_candidate(model: ModelIr, keys: Seq<Seq<char>>, k: int) -> Option<int>
    decreases key_candidates(model).len() - k,
{
    if k < 0 || k >= key_candidates(model).len() {
        None
    } else if keys_match(model, key_candidates(model)[k], keys) {
        Some(k)
    } else {
        first_matching_candidate(model, keys, k + 1)
    }
}

pub(crate) fn scalar_field_index(model: &ModelIr, key: &str) -> (r: Option<usize>)
    ensures
        match r {
            Some(i) => scalar_field_named(model.fields@, key@, 0) == Some(i as int) && i
                < model.fields@.len(),
            None => scalar_field_named(model.fields@, key@, 0) is None,
        },
{
    let n = model.fields.len();
    let mut i: usize = 0;
    while i < n
        invariant
            i <= n,
            n == model.fields@.len(),
            scalar_field_named(model.fields@, key@, 0) == scalar_field_named(model.fields@, key@, i as int),
        decreases n - i,
    {
        let f = &model.fields[i];
        if !f.is_relation() && (str_eq(f.logical_name.as_str(), key) || str_eq(f.db_name.as_str(), key)) {
            return Some(i);
        }
        i = i + 1;
    }
    None
}

fn field_names(field: &FieldIr, name: &str) -> (r: bool)
    ensures
        r == names_field(*field, name@),
{
    str_eq(field.logical_name.as_str(), name) || str_eq(field.db_name.as_str(), name)
}

fn candidate_at<'a>(model: &'a ModelIr, k: usize) -> (r: Vec<&'a str>)
    requires
        k < key_candidates(*model).len(),
    ensures
        r@.map_values(|s: &str| s@) == key_candidates(*model)[k as int],
{
    let names: &'a Vec<String> = if k == 0 {
        &model.primary_key
    } else {
        &model.unique_constraints[k - 1]
    };
    assert(names@.map_values(|s: String| s@) == key_candidates(*model)[k as int]);
    let mut r: Vec<&'a str> = Vec::new();
    let mut i: usize = 0;
    while i < names.len()
        invariant
            i <= names@.len(),
            r@.len() == i,
            forall|j: int| 0 <= j < i ==> #[trigger] r@[j]@ == names@[j]@,
        decreases names@.len() - i,
    {
        r.push(names[i].as_str());
        i = i + 1;
    }
    assert(r@.map_values(|s: &str| s@) =~= names@.map_values(|s: String| s@));
    r
}

fn key_names_exec(model: &ModelIr, key: &str, name: &str) -> (r: bool)
    ensures
        r == key_names(*model, key@, name@),
{
    match scalar_field_index(model, key) {
        Some(i) => field_names(&model.fields[i], name),
        None => false,
    }
}

fn keys_match_exec(model: &ModelIr, candidate: &Vec<&str>, keys: &[&str]) -> (r: bool)
    ensures
        r == keys_match(*model, candidate@.map_values(|s: &str| s@), keys@.map_values(|s: &str| s@)),
{
    let ghost cand = candidate@.map_values(|s: &str| s@);
    let ghost ks = keys@.map_values(|s: &str| s@);
    if candidate.len() != keys.len() {
        return false;
    }
    let mut i: usize = 0;
    while i < candidate.len()
        invariant
            i <= candidate@.len(),
            candidate@.len() == keys@.len(),
            cand == candidate@.map_values(|s: &str| s@),
            ks == keys@.map_values(|s: &str| s@),
            forall|a: int| 0 <= a < i ==> #[trigger] named_by_a_key(*model, ks, cand[a]),
        decreases candidate@.len() - i,
    {
        let mut found = false;
        let mut j: usize = 0;
        while j < keys.len()
            invariant
                j <= keys@.len(),
                i < candidate@.len(),
                cand == candidate@.map_values(|s: &str| s@),
                ks == keys@.map_values(|s: &str| s@),
                found ==> named_by_a_key(*model, ks, cand[i as int]),
                !found ==> forall|b: int| 0 <= b < j ==> !#[trigger] key_names(*model, ks[b], cand[i as int]),
            decreases keys@.len() - j,
        {
            if key_names_exec(model, keys[j], candidate[i]) {
                assert(key_names(*model, ks[j as int], cand[i as int]));
                found = true;
                j = keys.len();
            } else {
                j = j + 1;
            }
        }
        if !found {
            assert(!named_by_a_key(*model, ks, cand[i as int]));
            return false;
        }
        i = i + 1;
    }
    true
}

/// The primary key or unique constraint whose columns `keys` name exactly, or
/// `None` when no constraint matches.
pub fn matching_unique_constraint<'a>(model: &'a ModelIr, keys: &[&str]) -> (r: Option<Vec<&'a str>>)
    ensures
        match r {
            Some(v) => first_matching_candidate(*model, keys@.map_values(|s: &str| s@), 0) matches Some(
                k,
            ) && v@.map_values(|s: &str| s@) == key_candidates(*model)[k],
            None => first_matching_candidate(*model, keys@.map_values(|s: &str| s@), 0) is None,
        },
{
    let ghost ks = keys@.map_values(|s: &str| s@);
    let n = model.unique_constraints.len();
    let mut k: usize = 0;
    while k <= n
        invariant
            k <= n + 1,
            n + 1 == key_candidates(*model).len(),
            ks == keys@.map_values(|s: &str| s@),
            first_matching_candidate(*model, ks, 0) == first_matching_candidate(*model, ks, k as int),
        decreases n + 1 - k,
    {
        let candidate = candidate_at(model, k);
        if keys_match_exec(model, &candidate, keys) {
            return Some(candidate);
        }
        if k == n {
            assert(first_matching_candidate(*model, ks, k as int + 1) is None);
            return None;
        }
        k = k + 1;
    }
    None
}

/// The keys of a JSON object.
pub fn object_keys(entries: &Vec<(String, Json)>) -> (r: Vec<&str>)
    ensures
        r@.map_values(|s: &str| s@) == entries@.map_values(|e: (String, Json)| e.0@),
{
    let mut r: Vec<&str> = Vec::new();
    let mut i: usize = 0;
    while i < entries.len()
        invariant
            i <= entries@.len(),
            r@.len() == i,
            forall|j: int| 0 <= j < i ==> #[trigger] r@[j]@ == entries@[j].0@,
        decreases entries@.len() - i,
    {
        r.push(entries[i].0.as_str());
        i = i + 1;
    }
    assert(r@.map_values(|s: &str| s@) =~= entries@.map_values(|e: (String, Json)| e.0@));
    r
}

/// The message of a filter that matches no key, listing its keys in order.
pub open spec fn no_key_message(op: Seq<char>, names: Seq<Seq<char>>, model: Seq<char>) -> Seq<char> {
    op + " where ["@ + joined(names, ", "@)
        + "] does not match the primary key or any unique constraint of model '"@ + model + "'"@
}

/// Whether `sorted` holds the keys of `entries` in ascending order.
pub open spec fn sorted_keys_of(sorted: Seq<Seq<char>>, entries: Seq<(String, Json)>) -> bool {
    &&& sorted.len() == entries.len()
    &&& sorted_names(sorted)
    &&& forall|i: int| 0 <= i < entries.len() ==> sorted.contains(#[trigger] entries[i].0@)
    &&& forall|i: int| 0 <= i < sorted.len() ==> exists|j: int| 0 <= j < entries.len() && #[trigger] sorted[i] == entries[j].0@
}

fn no_key_error(op: &str, keys: Vec<&str>, model: &ModelIr, Ghost(entries): Ghost<Seq<(String, Json)>>) -> (r: ProtocolError)
    requires
        keys@.map_values(|s: &str| s@) == entries.map_values(|e: (String, Json)| e.0@),
    ensures
        r matches ProtocolError::InvalidFilter(m) && exists|sorted: Seq<Seq<char>>|
            sorted_keys_of(sorted, entries) && m@ == no_key_message(op@, sorted, model.logical_name@),
{
    let ghost kv = keys@;
    let sorted = sort_names(keys);
    let mut m = String::from_str(op);
    m.push_str(" where [");
    push_joined(&mut m, sorted.as_slice());
    m.push_str("] does not match the primary key or any unique constraint of model '");
    m.push_str(model.logical_name.as_str());
    m.push_str("'");
    let ghost sv = sorted@.map_values(|s: &str| s@);
    proof {
        assert(kv.map_values(|s: &str| s@).len() == kv.len());
        assert(entries.map_values(|e: (String, Json)| e.0@).len() == entries.len());
        assert(kv.len() == entries.len());
        assert forall|i: int| 0 <= i < entries.len() implies sv.contains(#[trigger] entries[i].0@) by {
            assert(kv.map_values(|s: &str| s@)[i] == entries[i].0@);
            assert(sorted@.contains(kv[i]));
            let j = choose|j: int| 0 <= j < sorted@.len() && sorted@[j] == kv[i];
            assert(sv[j] == entries[i].0@);
        }
        assert forall|i: int| 0 <= i < sv.len() implies exists|j: int| 0 <= j < entries.len() && #[trigger] sv[i] == entries[j].0@ by {
            assert(kv.contains(sorted@[i]));
            let j = choose|j: int| 0 <= j < kv.len() && kv[j] == sorted@[i];
            assert(kv.map_values(|s: &str| s@)[j] == entries[j].0@);
        }
        assert(sorted_keys_of(sv, entries));
    }
    ProtocolError::InvalidFilter(m)
}

/// Reject a `findUnique` filter that cannot identify at most one row: its keys
/// must name exactly the primary key or a unique constraint.
pub fn ensure_unique_filter(model: &ModelIr, filter: &Json) -> (r: Result<(), ProtocolError>)
    ensures
        match filter_body(*filter) {
            Json::Object(entries) => if first_matching_candidate(
                *model,
                entries@.map_values(|e: (String, Json)| e.0@),
                0,
            ) is Some {
                r is Ok
            } else {
                r matches Err(ProtocolError::InvalidFilter(m)) && exists|sorted: Seq<Seq<char>>|
                    sorted_keys_of(sorted, entries@) && m@ == no_key_message(
                        "findUnique"@,
                        sorted,
                        model.logical_name@,
                    )
            },
            _ => r matches Err(ProtocolError::InvalidFilter(m)) && m@
                == "findUnique where must be an object"@,
        },
{
    match protocol_filter_body(filter) {
        Json::Object(entries) => {
            let keys = object_keys(entries);
            if matching_unique_constraint(model, keys.as_slice()).is_some() {
                Ok(())
            } else {
                Err(no_key_error("findUnique", keys, model, Ghost(entries@)))
            }
        },
        _ => Err(ProtocolError::InvalidFilter(String::from_str("findUnique where must be an object"))),
    }
}

} // verus!

verus! {

/// The index of the first of `keys` from `j` on that names no stored field.
pub open spec fn first_unknown_key(model: ModelIr, keys: Seq<Seq<char>>, j: int) -> Option<int>
    decreases keys.len() - j,
{
    if j < 0 || j >= keys.len() {
        None
    } else if scalar_field_named(model.fields@, keys[j], 0) is None {
        Some(j)
    } else {
        first_unknown_key(model, keys, j + 1)
    }
}

/// The index of the first of `keys` from `j` on that names the column `name`.
pub open spec fn first_key_naming(model: ModelIr, keys: Seq<Seq<char>>, name: Seq<char>, j: int) -> Option<int>
    decreases keys.len() - j,
{
    if j < 0 || j >= keys.len() {
        None
    } else if key_names(model, keys[j], name) {
        Some(j)
    } else {
        first_key_naming(model, keys, name, j + 1)
    }
}

/// The field a filter key refers to, when the key names one.
pub open spec fn field_of_key(model: ModelIr, key: Seq<char>) -> FieldIr {
    model.fields@[scalar_field_named(model.fields@, key, 0).unwrap()]
}

/// The conflict target `candidate` resolves to: for each of its columns, the
/// field of the first key that names it.
pub open spec fn conflict_fields(model: ModelIr, keys: Seq<Seq<char>>, candidate: Seq<Seq<char>>) -> Seq<FieldIr> {
    candidate.map_values(
        |name: Seq<char>| field_of_key(model, keys[first_key_naming(model, keys, name, 0).unwrap()]),
    )
}

proof fn lemma_first_key_naming_found(model: ModelIr, keys: Seq<Seq<char>>, name: Seq<char>, j: int, b: int)
    requires
        0 <= j <= b < keys.len(),
        key_names(model, keys[b], name),
    ensures
        first_key_naming(model, keys, name, j) matches Some(k) && j <= k <= b && key_names(
            model,
            keys[k],
            name,
        ),
    decreases b - j,
{
    if !key_names(model, keys[j], name) {
        lemma_first_key_naming_found(model, keys, name, j + 1, b);
    }
}

/// Whether `r` is the conflict target an upsert's unique `where` filter
/// resolves to, or its refusal.
pub open spec fn conflict_target_result<'a>(model: ModelIr, filter: Json, r: Result<Vec<&'a FieldIr>, ProtocolError>) -> bool {
    match filter_body(filter) {
        Json::Object(entries) => {
            let keys = entries@.map_values(|e: (String, Json)| e.0@);
            if entries@.len() == 0 {
                r matches Err(ProtocolError::InvalidFilter(m)) && m@ == "upsert where cannot be empty"@
            } else {
                match first_unknown_key(model, keys, 0) {
                    Some(j) => r matches Err(ProtocolError::InvalidFilter(m)) && m@
                        == "Unknown field '"@ + keys[j] + "' in upsert where on model '"@
                        + model.logical_name@ + "'"@,
                    None => match first_matching_candidate(model, keys, 0) {
                        Some(c) => r matches Ok(fields) && fields@.len() == key_candidates(
                            model,
                        )[c].len() && forall|i: int|
                            0 <= i < fields@.len() ==> *#[trigger] fields@[i] == conflict_fields(
                                model,
                                keys,
                                key_candidates(model)[c],
                            )[i],
                        None => r matches Err(ProtocolError::InvalidFilter(m)) && exists|
                            sorted: Seq<Seq<char>>,
                        |
                            sorted_keys_of(sorted, entries@) && m@ == no_key_message(
                                "upsert"@,
                                sorted,
                                model.logical_name@,
                            ),
                    },
                }
            }
        },
        _ => r matches Err(ProtocolError::InvalidFilter(m)) && m@ == "upsert where must be an object"@,
    }
}

/// Resolve the conflict target of an upsert from its unique `where` filter: the
/// filter must name exactly the columns of the primary key or of one unique
/// constraint, and the target lists them in the order the constraint declares.
pub fn unique_conflict_target<'a>(model: &'a ModelIr, filter: &Json) -> (r: Result<Vec<&'a FieldIr>, ProtocolError>)
    ensures
        conflict_target_result(*model, *filter, r),
{
    let body = protocol_filter_body(filter);
    let entries = match body {
        Json::Object(entries) => entries,
        _ => {
            return Err(ProtocolError::InvalidFilter(String::from_str("upsert where must be an object")));
        },
    };
    assert(filter_body(*filter) == Json::Object(*entries));
    if entries.len() == 0 {
        return Err(ProtocolError::InvalidFilter(String::from_str("upsert where cannot be empty")));
    }
    let keys = object_keys(entries);
    let ghost ks = keys@.map_values(|s: &str| s@);
    let mut filter_fields: Vec<&'a FieldIr> = Vec::new();
    let mut j: usize = 0;
    while j < keys.len()
        invariant
            j <= keys@.len(),
            filter_body(*filter) == Json::Object(*entries),
            entries@.len() > 0,
            ks == keys@.map_values(|s: &str| s@),
            ks == entries@.map_values(|e: (String, Json)| e.0@),
            filter_fields@.len() == j,
            first_unknown_key(*model, ks, 0) == first_unknown_key(*model, ks, j as int),
            forall|b: int| 0 <= b < j ==> scalar_field_named(model.fields@, #[trigger] ks[b], 0) is Some,
            forall|b: int| 0 <= b < j ==> *#[trigger] filter_fields@[b] == field_of_key(*model, ks[b]),
        decreases keys@.len() - j,
    {
        match scalar_field_index(model, keys[j]) {
            Some(i) => {
                filter_fields.push(&model.fields[i]);
            },
            None => {
                assert(ks[j as int] == keys@[j as int]@);
                assert(first_unknown_key(*model, ks, j as int) == Some(j as int));
                let mut m = String::from_str("Unknown field '");
                m.push_str(keys[j]);
                m.push_str("' in upsert where on model '");
                m.push_str(model.logical_name.as_str());
                m.push_str("'");
                return Err(ProtocolError::InvalidFilter(m));
            },
        }
        j = j + 1;
    }
    assert(first_unknown_key(*model, ks, j as int) is None);
    let candidate = match matching_unique_constraint(model, keys.as_slice()) {
        Some(c) => c,
        None => {
            return Err(no_key_error("upsert", keys, model, Ghost(entries@)));
        },
    };
    let ghost cand = candidate@.map_values(|s: &str| s@);
    let ghost c = first_matching_candidate(*model, ks, 0).unwrap();
    proof {
        assert(cand == key_candidates(*model)[c]);
        lemma_first_matching_is_match(*model, ks, 0);
    }
    let mut target: Vec<&'a FieldIr> = Vec::new();
    let mut i: usize = 0;
    while i < candidate.len()
        invariant
            i <= candidate@.len(),
            cand == candidate@.map_values(|s: &str| s@),
            keys_match(*model, cand, ks),
            ks == keys@.map_values(|s: &str| s@),
            filter_fields@.len() == keys@.len(),
            forall|b: int| 0 <= b < keys@.len() ==> scalar_field_named(model.fields@, #[trigger] ks[b], 0) is Some,
            forall|b: int| 0 <= b < keys@.len() ==> *#[trigger] filter_fields@[b] == field_of_key(*model, ks[b]),
            target@.len() == i,
            forall|a: int| 0 <= a < i ==> *#[trigger] target@[a] == conflict_fields(*model, ks, cand)[a],
        decreases candidate@.len() - i,
    {
        assert(named_by_a_key(*model, ks, cand[i as int]));
        let ghost b0 = choose|b: int| 0 <= b < ks.len() && key_names(*model, ks[b], cand[i as int]);
        proof {
            lemma_first_key_naming_found(*model, ks, cand[i as int], 0, b0);
        }
        let mut k: usize = 0;
        while k < filter_fields.len() && !field_names(filter_fields[k], candidate[i])
            invariant
                k <= filter_fields@.len(),
                filter_fields@.len() == keys@.len(),
                i < candidate@.len(),
                cand == candidate@.map_values(|s: &str| s@),
                ks == keys@.map_values(|s: &str| s@),
                forall|b: int| 0 <= b < keys@.len() ==> scalar_field_named(model.fields@, #[trigger] ks[b], 0) is Some,
                forall|b: int| 0 <= b < keys@.len() ==> *#[trigger] filter_fields@[b] == field_of_key(*model, ks[b]),
                first_key_naming(*model, ks, cand[i as int], 0) == first_key_naming(*model, ks, cand[i as int], k as int),
                first_key_naming(*model, ks, cand[i as int], 0) matches Some(f) && f < keys@.len(),
            decreases filter_fields@.len() - k,
        {
            assert(!key_names(*model, ks[k as int], cand[i as int]));
            k = k + 1;
        }
        proof {
            if k < filter_fields.len() {
                assert(key_names(*model, ks[k as int], cand[i as int]));
            }
        }
        target.push(filter_fields[k]);
        i = i + 1;
    }
    Ok(target)
}

proof fn lemma_first_matching_is_match(model: ModelIr, keys: Seq<Seq<char>>, k: int)
    requires
        first_matching_candidate(model, keys, k) is Some,
    ensures
        keys_match(model, key_candidates(model)[first_matching_candidate(model, keys, k).unwrap()], keys),
    decreases key_candidates(model).len() - k,
{
    if !keys_match(model, key_candidates(model)[k], keys) {
        lemma_first_matching_is_match(model, keys, k + 1);
    }
}

} // verus!

verus! {

/// The character views of `strings`.
pub open spec fn string_views(strings: Seq<String>) -> Seq<Seq<char>> {
    strings.map_values(|s: String| s@)
}

/// Whether `names` holds no name twice.
pub open spec fn distinct_names(names: Seq<Seq<char>>) -> bool {
    forall|i: int, j: int| 0 <= i < j < names.len() ==> names[i] != names[j]
}

/// The projection a plan-cache key records: nothing when every column is
/// selected, else the selected fields and the primary-key fields, sorted and
/// without repeats.
pub fn resolved_projection(primary_key_fields: &[&str], selected_fields: &[&str]) -> (r: Vec<String>)
    ensures
        selected_fields@.len() == 0 ==> r@.len() == 0,
        selected_fields@.len() > 0 ==> {
            let names = string_views(r@);
            &&& sorted_names(names)
            &&& distinct_names(names)
            &&& forall|n: Seq<char>| #[trigger] names.contains(n) <==> (exists|i: int|
                0 <= i < selected_fields@.len() && selected_fields@[i]@ == n) || (exists|i: int|
                0 <= i < primary_key_fields@.len() && primary_key_fields@[i]@ == n)
        },
{
    if selected_fields.len() == 0 {
        return Vec::new();
    }
    let mut combined: Vec<&str> = Vec::new();
    let mut i: usize = 0;
    while i < selected_fields.len()
        invariant
            i <= selected_fields@.len(),
            combined@ == selected_fields@.take(i as int),
        decreases selected_fields@.len() - i,
    {
        combined.push(selected_fields[i]);
        i = i + 1;
        assert(combined@ =~= selected_fields@.take(i as int));
    }
    assert(selected_fields@.take(selected_fields@.len() as int) =~= selected_fields@);
    let mut k: usize = 0;
    while k < primary_key_fields.len()
        invariant
            k <= primary_key_fields@.len(),
            combined@ == selected_fields@ + primary_key_fields@.take(k as int),
        decreases primary_key_fields@.len() - k,
    {
        combined.push(primary_key_fields[k]);
        k = k + 1;
        assert(combined@ =~= selected_fields@ + primary_key_fields@.take(k as int));
    }
    assert(primary_key_fields@.take(primary_key_fields@.len() as int) =~= primary_key_fields@);
    let ghost all = combined@;
    let sorted = sort_names(combined);
    let ghost sv = sorted@.map_values(|s: &str| s@);
    let mut out: Vec<String> = Vec::new();
    let mut j: usize = 0;
    while j < sorted.len()
        invariant
            j <= sorted@.len(),
            sv == sorted@.map_values(|s: &str| s@),
            sorted_names(sv),
            sorted_names(string_views(out@)),
            distinct_names(string_views(out@)),
            forall|k: int| 0 <= k < out@.len() ==> exists|m: int| 0 <= m < j && #[trigger] out@[k]@ == sv[m],
            forall|m: int| 0 <= m < j ==> #[trigger] string_views(out@).contains(sv[m]),
        decreases sorted@.len() - j,
    {
        let ghost ov = string_views(out@);
        let mut seen = false;
        let mut t: usize = 0;
        while t < out.len()
            invariant
                t <= out@.len(),
                j < sorted@.len(),
                ov == string_views(out@),
                seen ==> ov.contains(sorted@[j as int]@),
                !seen ==> forall|u: int| 0 <= u < t ==> ov[u] != sorted@[j as int]@,
            decreases out@.len() - t,
        {
            if crate::text::str_eq(out[t].as_str(), sorted[j]) {
                assert(ov[t as int] == sorted@[j as int]@);
                seen = true;
            }
            t = t + 1;
        }
        assert(sv[j as int] == sorted@[j as int]@);
        if !seen {
            let ghost before = out@;
            out.push(String::from_str(sorted[j]));
            proof {
                let nv = string_views(out@);
                assert(nv =~= ov.push(sv[j as int]));
                assert forall|a: int, b: int| 0 <= a < b < nv.len() implies !text_less(nv[b], nv[a]) by {
                    if b == nv.len() - 1 {
                        let m = choose|m: int| 0 <= m < j && #[trigger] before[a]@ == sv[m];
                        assert(nv[a] == before[a]@);
                    } else {
                        assert(nv[a] == ov[a] && nv[b] == ov[b]);
                    }
                }
                assert forall|a: int, b: int| 0 <= a < b < nv.len() implies nv[a] != nv[b] by {
                    if b == nv.len() - 1 {
                        assert(nv[a] == ov[a]);
                    } else {
                        assert(nv[a] == ov[a] && nv[b] == ov[b]);
                    }
                }
                assert forall|k: int| 0 <= k < out@.len() implies exists|m: int| 0 <= m < j + 1 && #[trigger] out@[k]@ == sv[m] by {
                    if k < before.len() {
                        let m = choose|m: int| 0 <= m < j && #[trigger] before[k]@ == sv[m];
                        assert(out@[k] == before[k]);
                    } else {
                        assert(out@[k]@ == sv[j as int]);
                    }
                }
                assert forall|m: int| 0 <= m < j + 1 implies #[trigger] nv.contains(sv[m]) by {
                    if m < j {
                        assert(ov.contains(sv[m]));
                        let w = choose|w: int| 0 <= w < ov.len() && ov[w] == sv[m];
                        assert(nv[w] == sv[m]);
                    } else {
                        assert(nv[nv.len() - 1] == sv[m]);
                    }
                }
            }
        } else {
            proof {
                assert forall|m: int| 0 <= m < j + 1 implies #[trigger] ov.contains(sv[m]) by {
                }
                assert forall|k: int| 0 <= k < out@.len() implies exists|m: int| 0 <= m < j + 1 && #[trigger] out@[k]@ == sv[m] by {
                    let m = choose|m: int| 0 <= m < j && #[trigger] out@[k]@ == sv[m];
                }
            }
        }
        j = j + 1;
    }
    proof {
        let names = string_views(out@);
        assert forall|n: Seq<char>| #[trigger] names.contains(n) <==> (exists|i: int|
            0 <= i < selected_fields@.len() && selected_fields@[i]@ == n) || (exists|i: int|
            0 <= i < primary_key_fields@.len() && primary_key_fields@[i]@ == n) by {
            if names.contains(n) {
                let w = choose|w: int| 0 <= w < names.len() && names[w] == n;
                let m = choose|m: int| 0 <= m < sorted@.len() && #[trigger] out@[w]@ == sv[m];
                assert(all.contains(sorted@[m]));
                let a = choose|a: int| 0 <= a < all.len() && all[a] == sorted@[m];
                if a < selected_fields@.len() {
                    assert(all[a] == selected_fields@[a]);
                } else {
                    assert(all[a] == primary_key_fields@[a - selected_fields@.len()]);
                }
            }
            if exists|i: int| 0 <= i < selected_fields@.len() && selected_fields@[i]@ == n {
                let i = choose|i: int| 0 <= i < selected_fields@.len() && selected_fields@[i]@ == n;
                assert(all[i] == selected_fields@[i]);
                assert(sorted@.contains(all[i]));
                let m = choose|m: int| 0 <= m < sorted@.len() && sorted@[m] == all[i];
                assert(sv[m] == n);
            }
            if exists|i: int| 0 <= i < primary_key_fields@.len() && primary_key_fields@[i]@ == n {
                let i = choose|i: int| 0 <= i < primary_key_fields@.len() && primary_key_fields@[i]@ == n;
                let a = selected_fields@.len() + i;
                assert(all[a] == primary_key_fields@[i]);
                assert(sorted@.contains(all[a]));
                let m = choose|m: int| 0 <= m < sorted@.len() && sorted@[m] == all[a];
                assert(sv[m] == n);
            }
        }
    }
    out
}

} // verus!
