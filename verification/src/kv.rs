//! Key-ordered maps from strings to values, modelled as sequences of
//! `(key, value)` pairs: the shape in which `BTreeMap<String, _>` is iterated.

use vstd::prelude::*;
use crate::text::{seq_lt, str_eq, str_lt, lemma_seq_lt_transitive, lemma_seq_lt_total, lemma_seq_lt_irreflexive, lemma_seq_lt_asymmetric};

verus! {

/// First value stored under `k`.
pub open spec fn entries_get<V>(e: Seq<(Seq<char>, V)>, k: Seq<char>) -> Option<V>
    decreases e.len(),
{
    if e.len() == 0 {
        None
    } else if e[0].0 == k {
        Some(e[0].1)
    } else {
        entries_get(e.skip(1), k)
    }
}

/// `BTreeMap::insert` on key-ordered entries: replace the value of an equal
/// key, or place the new entry before the first greater key.
pub open spec fn entries_insert<V>(e: Seq<(Seq<char>, V)>, k: Seq<char>, v: V) -> Seq<(Seq<char>, V)>
    decreases e.len(),
{
    if e.len() == 0 {
        seq![(k, v)]
    } else if e[0].0 == k {
        seq![(k, v)] + e.skip(1)
    } else if seq_lt(k, e[0].0) {
        seq![(k, v)] + e
    } else {
        seq![e[0]] + entries_insert(e.skip(1), k, v)
    }
}

/// Drop the first entry stored under `k`.
pub open spec fn entries_remove<V>(e: Seq<(Seq<char>, V)>, k: Seq<char>) -> Seq<(Seq<char>, V)>
    decreases e.len(),
{
    if e.len() == 0 {
        e
    } else if e[0].0 == k {
        e.skip(1)
    } else {
        seq![e[0]] + entries_remove(e.skip(1), k)
    }
}


/// Inserting every entry of `s`, first to last, into `acc`: what collecting
/// an iterator of pairs into a `BTreeMap` (or extending one) yields.
pub open spec fn insert_all<V>(acc: Seq<(Seq<char>, V)>, s: Seq<(Seq<char>, V)>) -> Seq<
    (Seq<char>, V),
>
    decreases s.len(),
{
    if s.len() == 0 {
        acc
    } else {
        entries_insert(insert_all(acc, s.drop_last()), s.last().0, s.last().1)
    }
}

/// Value of the last pair stored under `k`.
pub open spec fn last_value<V>(s: Seq<(Seq<char>, V)>, k: Seq<char>) -> Option<V>
    decreases s.len(),
{
    if s.len() == 0 {
        None
    } else if s.last().0 == k {
        Some(s.last().1)
    } else {
        last_value(s.drop_last(), k)
    }
}

/// The last value stored under a key is the value of one of its pairs.
pub proof fn lemma_last_value_found<V>(s: Seq<(Seq<char>, V)>, k: Seq<char>)
    requires
        last_value(s, k) is Some,
    ensures
        exists|j: int| 0 <= j < s.len() && #[trigger] s[j] == (k, last_value(s, k)->0),
    decreases s.len(),
{
    if s.last().0 == k {
        assert(s[s.len() - 1] == (k, last_value(s, k)->0));
    } else {
        lemma_last_value_found(s.drop_last(), k);
        let j = choose|j: int| 0 <= j < s.drop_last().len() && #[trigger] s.drop_last()[j] == (k, last_value(s.drop_last(), k)->0);
        assert(s[j] == s.drop_last()[j]);
    }
}

/// After collecting pairs, a key reads back the value of its last pair, or
/// what it read before when no pair carries it.
pub proof fn lemma_get_insert_all<V>(acc: Seq<(Seq<char>, V)>, s: Seq<(Seq<char>, V)>, k: Seq<char>)
    ensures
        entries_get(insert_all(acc, s), k) == match last_value(s, k) {
            Some(v) => Some(v),
            None => entries_get(acc, k),
        },
    decreases s.len(),
{
    if s.len() > 0 {
        lemma_get_insert_all(acc, s.drop_last(), k);
        lemma_get_after_insert(insert_all(acc, s.drop_last()), s.last().0, s.last().1, k);
    }
}

/// Pairs built from keys by a function: a key's last pair carries the
/// function's value, when the key occurs.
pub proof fn lemma_last_value_keyed<V>(keys: Seq<Seq<char>>, f: spec_fn(Seq<char>) -> V, k: Seq<char>)
    ensures
        last_value(keys.map_values(|n: Seq<char>| (n, f(n))), k) == if keys.contains(k) {
            Some(f(k))
        } else {
            None
        },
    decreases keys.len(),
{
    let s = keys.map_values(|n: Seq<char>| (n, f(n)));
    if keys.len() > 0 {
        assert(s.drop_last() =~= keys.drop_last().map_values(|n: Seq<char>| (n, f(n))));
        lemma_last_value_keyed(keys.drop_last(), f, k);
        if keys.last() != k {
            if keys.contains(k) {
                let i = choose|i: int| 0 <= i < keys.len() && keys[i] == k;
                assert(keys.drop_last()[i] == k);
            }
            if keys.drop_last().contains(k) {
                let i = choose|i: int| 0 <= i < keys.drop_last().len() && keys.drop_last()[i] == k;
                assert(keys[i] == k);
            }
        } else {
            assert(keys[keys.len() - 1] == k);
        }
    }
}

/// Keys strictly ascending: the `BTreeMap` invariant.
pub open spec fn keys_sorted<V>(e: Seq<(Seq<char>, V)>) -> bool {
    forall|i: int, j: int| 0 <= i < j < e.len() ==> seq_lt(#[trigger] e[i].0, #[trigger] e[j].0)
}

/// Inserting into entries with ordered, unique keys keeps them so; the keys
/// afterwards are the inserted key and keys that were there before.
pub proof fn lemma_entries_insert_sorted<V>(e: Seq<(Seq<char>, V)>, k: Seq<char>, v: V)
    requires
        keys_sorted(e),
    ensures
        keys_sorted(entries_insert(e, k, v)),
        forall|i: int| 0 <= i < entries_insert(e, k, v).len() ==> (#[trigger] entries_insert(e, k, v)[i]).0 == k
            || exists|j: int| 0 <= j < e.len() && (#[trigger] e[j]).0 == entries_insert(e, k, v)[i].0,
    decreases e.len(),
{
    let r = entries_insert(e, k, v);
    if e.len() == 0 {
    } else if e[0].0 == k {
        assert forall|i: int| 0 <= i < r.len() implies (#[trigger] r[i]).0 == e[i].0 by {
            if i > 0 {
                assert(r[i] == e[i]);
            }
        }
        assert forall|i: int, j: int| 0 <= i < j < r.len() implies seq_lt(#[trigger] r[i].0, #[trigger] r[j].0) by {
            assert(r[i].0 == e[i].0 && r[j].0 == e[j].0);
        }
        assert forall|i: int| 0 <= i < r.len() implies (#[trigger] r[i]).0 == k
            || exists|j: int| 0 <= j < e.len() && (#[trigger] e[j]).0 == r[i].0 by {
            assert(e[i].0 == r[i].0);
        }
    } else if seq_lt(k, e[0].0) {
        assert forall|i: int, j: int| 0 <= i < j < r.len() implies seq_lt(#[trigger] r[i].0, #[trigger] r[j].0) by {
            assert(r[j] == e[j - 1]);
            if i == 0 {
                if j - 1 > 0 {
                    lemma_seq_lt_transitive(k, e[0].0, e[j - 1].0);
                }
            } else {
                assert(r[i] == e[i - 1]);
            }
        }
        assert forall|i: int| 0 <= i < r.len() implies (#[trigger] r[i]).0 == k
            || exists|j: int| 0 <= j < e.len() && (#[trigger] e[j]).0 == r[i].0 by {
            if i > 0 {
                assert(r[i] == e[i - 1]);
            }
        }
    } else {
        let rest = e.skip(1);
        assert(keys_sorted(rest)) by {
            assert forall|i: int, j: int| 0 <= i < j < rest.len() implies seq_lt(#[trigger] rest[i].0, #[trigger] rest[j].0) by {
                assert(rest[i] == e[i + 1] && rest[j] == e[j + 1]);
            }
        }
        lemma_entries_insert_sorted(rest, k, v);
        let t = entries_insert(rest, k, v);
        assert(r =~= seq![e[0]] + t);
        lemma_seq_lt_total(k, e[0].0);
        assert forall|i: int| 0 <= i < t.len() implies seq_lt(e[0].0, (#[trigger] t[i]).0) by {
            if t[i].0 != k {
                let j = choose|j: int| 0 <= j < rest.len() && (#[trigger] rest[j]).0 == t[i].0;
                assert(rest[j] == e[j + 1]);
            }
        }
        assert forall|i: int, j: int| 0 <= i < j < r.len() implies seq_lt(#[trigger] r[i].0, #[trigger] r[j].0) by {
            assert(r[j] == t[j - 1]);
            if i > 0 {
                assert(r[i] == t[i - 1]);
            }
        }
        assert forall|i: int| 0 <= i < r.len() implies (#[trigger] r[i]).0 == k
            || exists|j: int| 0 <= j < e.len() && (#[trigger] e[j]).0 == r[i].0 by {
            if i == 0 {
                assert(e[0].0 == r[0].0);
            } else {
                assert(r[i] == t[i - 1]);
                if t[i - 1].0 != k {
                    let j = choose|j: int| 0 <= j < rest.len() && (#[trigger] rest[j]).0 == t[i - 1].0;
                    assert(rest[j] == e[j + 1]);
                }
            }
        }
    }
}

/// Collecting entries into ordered, unique keys keeps them so.
pub proof fn lemma_insert_all_sorted<V>(acc: Seq<(Seq<char>, V)>, s: Seq<(Seq<char>, V)>)
    requires
        keys_sorted(acc),
    ensures
        keys_sorted(insert_all(acc, s)),
    decreases s.len(),
{
    if s.len() > 0 {
        lemma_insert_all_sorted(acc, s.drop_last());
        lemma_entries_insert_sorted(insert_all(acc, s.drop_last()), s.last().0, s.last().1);
    }
}

/// After an insert, the inserted key reads back the inserted value and every
/// other key reads back what it read before.
pub proof fn lemma_get_after_insert<V>(e: Seq<(Seq<char>, V)>, k: Seq<char>, v: V, k2: Seq<char>)
    ensures
        entries_get(entries_insert(e, k, v), k2) == if k2 == k {
            Some(v)
        } else {
            entries_get(e, k2)
        },
    decreases e.len(),
{
    let r = entries_insert(e, k, v);
    if e.len() == 0 {
        assert(r == seq![(k, v)]);
        assert(r[0] == (k, v));
        assert(r.skip(1) =~= Seq::<(Seq<char>, V)>::empty());
        assert(entries_get(r.skip(1), k2) is None);
    } else if e[0].0 == k {
        assert(r == seq![(k, v)] + e.skip(1));
        assert(r[0] == (k, v));
        assert(r.skip(1) =~= e.skip(1));
    } else if seq_lt(k, e[0].0) {
        assert(r == seq![(k, v)] + e);
        assert(r[0] == (k, v));
        assert(r.skip(1) =~= e);
    } else {
        assert(r == seq![e[0]] + entries_insert(e.skip(1), k, v));
        assert(r[0] == e[0]);
        assert(r.skip(1) =~= entries_insert(e.skip(1), k, v));
        lemma_get_after_insert(e.skip(1), k, v, k2);
    }
}

/// After a remove, the key reads back nothing (when keys are unique) and every
/// other key reads back what it read before.
pub proof fn lemma_get_after_remove<V>(e: Seq<(Seq<char>, V)>, k: Seq<char>, k2: Seq<char>)
    requires
        keys_sorted(e),
    ensures
        entries_get(entries_remove(e, k), k2) == if k2 == k {
            None
        } else {
            entries_get(e, k2)
        },
    decreases e.len(),
{
    if e.len() == 0 {
    } else if e[0].0 == k {
        if k2 == k {
            lemma_sorted_skip_get(e, k);
        }
    } else {
        let r = seq![e[0]] + entries_remove(e.skip(1), k);
        assert(r[0] == e[0]);
        assert(r.skip(1) =~= entries_remove(e.skip(1), k));
        assert(keys_sorted(e.skip(1))) by {
            assert forall|i: int, j: int| 0 <= i < j < e.skip(1).len() implies seq_lt(
                #[trigger] e.skip(1)[i].0,
                #[trigger] e.skip(1)[j].0,
            ) by {
                assert(e.skip(1)[i] == e[i + 1]);
                assert(e.skip(1)[j] == e[j + 1]);
            }
        }
        lemma_get_after_remove(e.skip(1), k, k2);
    }
}

proof fn lemma_seq_lt_irrefl(a: Seq<char>)
    ensures
        !seq_lt(a, a),
    decreases a.len(),
{
    if a.len() > 0 {
        lemma_seq_lt_irrefl(a.skip(1));
    }
}

proof fn lemma_sorted_skip_get<V>(e: Seq<(Seq<char>, V)>, k: Seq<char>)
    requires
        keys_sorted(e),
        e.len() > 0,
        e[0].0 == k,
    ensures
        entries_get(e.skip(1), k) is None,
{
    lemma_not_in_tail(e.skip(1), k, e, 1);
}

proof fn lemma_not_in_tail<V>(t: Seq<(Seq<char>, V)>, k: Seq<char>, e: Seq<(Seq<char>, V)>, off: int)
    requires
        keys_sorted(e),
        e.len() > 0,
        e[0].0 == k,
        1 <= off <= e.len(),
        t =~= e.skip(off),
    ensures
        entries_get(t, k) is None,
    decreases t.len(),
{
    if t.len() > 0 {
        assert(t[0] == e[off]);
        assert(seq_lt(e[0].0, e[off].0));
        lemma_seq_lt_irrefl(k);
        assert(t[0].0 != k);
        assert(t.skip(1) =~= e.skip(off + 1));
        lemma_not_in_tail(t.skip(1), k, e, off + 1);
    }
}

/// View of string pairs.
pub open spec fn pairs_view(s: Seq<(String, String)>) -> Seq<(Seq<char>, Seq<char>)> {
    s.map_values(|p: (String, String)| (p.0@, p.1@))
}

/// `map.get(key)` over key-ordered string pairs.
pub fn pairs_lookup<'a>(pairs: &'a Vec<(String, String)>, key: &str) -> (r: Option<&'a String>)
    ensures
        match r {
            Some(s) => entries_get(pairs_view(pairs@), key@) == Some(s@),
            None => entries_get(pairs_view(pairs@), key@) is None,
        },
{
    let ghost e = pairs_view(pairs@);
    let n = pairs.len();
    let mut i: usize = 0;
    assert(e.skip(0) =~= e);
    while i < n
        invariant
            n == pairs@.len(),
            e == pairs_view(pairs@),
            i <= n,
            entries_get(e, key@) == entries_get(e.skip(i as int), key@),
        decreases n - i,
    {
        assert(e.skip(i as int)[0] == e[i as int]);
        if str_eq(pairs[i].0.as_str(), key) {
            return Some(&pairs[i].1);
        }
        assert(e.skip(i as int).skip(1) =~= e.skip(i + 1));
        i = i + 1;
    }
    None
}

/// `map.insert(key, value)` on key-ordered string pairs.
pub fn pairs_insert(pairs: &mut Vec<(String, String)>, key: String, value: String)
    ensures
        pairs_view(final(pairs)@) == entries_insert(pairs_view(old(pairs)@), key@, value@),
{
    let ghost e = pairs_view(pairs@);
    let ghost k = key@;
    let ghost v = value@;
    let n = pairs.len();
    let mut i: usize = 0;
    proof {
        assert(e.skip(0) =~= e);
        assert(e.take(0) + entries_insert(e, k, v) =~= entries_insert(e, k, v));
    }
    while i < n
        invariant
            n == pairs@.len(),
            pairs@ == old(pairs)@,
            e == pairs_view(pairs@),
            k == key@,
            v == value@,
            i <= n,
            entries_insert(e, k, v) == e.take(i as int) + entries_insert(e.skip(i as int), k, v),
        decreases n - i,
    {
        assert(e.skip(i as int)[0] == e[i as int]);
        if str_eq(pairs[i].0.as_str(), key.as_str()) {
            pairs.set(i, (key, value));
            proof {
                assert(e.skip(i as int).skip(1) =~= e.skip(i + 1));
                assert(pairs_view(pairs@) =~= e.take(i as int) + (seq![(k, v)] + e.skip(i + 1)));
            }
            return;
        }
        if str_lt(key.as_str(), pairs[i].0.as_str()) {
            pairs.insert(i, (key, value));
            proof {
                assert(pairs_view(pairs@) =~= e.take(i as int) + (seq![(k, v)] + e.skip(i as int)));
            }
            return;
        }
        proof {
            assert(e.skip(i as int).skip(1) =~= e.skip(i + 1));
            assert(e.take(i as int) + seq![e[i as int]] =~= e.take(i + 1));
            assert(e.take(i + 1) + entries_insert(e.skip(i + 1), k, v) =~= e.take(i as int) + (
            seq![e[i as int]] + entries_insert(e.skip(i + 1), k, v)));
        }
        i = i + 1;
    }
    pairs.push((key, value));
    proof {
        assert(e.skip(n as int).len() == 0);
        assert(e.take(n as int) =~= e);
        assert(pairs_view(pairs@) =~= e.push((k, v)));
    }
}


/// The pairs collected into a fresh key-ordered map.
pub fn pairs_collect(pairs: &Vec<(String, String)>) -> (r: Vec<(String, String)>)
    ensures
        pairs_view(r@) == insert_all(Seq::empty(), pairs_view(pairs@)),
{
    let mut out: Vec<(String, String)> = Vec::new();
    let n = pairs.len();
    let mut i: usize = 0;
    assert(pairs_view(out@) =~= Seq::<(Seq<char>, Seq<char>)>::empty());
    while i < n
        invariant
            n == pairs@.len(),
            i <= n,
            pairs_view(out@) == insert_all(Seq::empty(), pairs_view(pairs@).take(i as int)),
        decreases n - i,
    {
        let k = pairs[i].0.clone();
        let v = pairs[i].1.clone();
        pairs_insert(&mut out, k, v);
        assert(pairs_view(pairs@).take(i + 1).drop_last() =~= pairs_view(pairs@).take(i as int));
        i = i + 1;
    }
    assert(pairs_view(pairs@).take(n as int) =~= pairs_view(pairs@));
    out
}


/// Model of key-value pairs whose values have deep views.
pub open spec fn kv_view<V: DeepView>(s: Seq<(String, V)>) -> Seq<(Seq<char>, V::V)> {
    s.map_values(|p: (String, V)| (p.0@, p.1.deep_view()))
}

/// `map.get(key)` over key-ordered pairs.
pub fn kv_lookup<'a, V: DeepView>(pairs: &'a Vec<(String, V)>, key: &str) -> (r: Option<&'a V>)
    ensures
        match r {
            Some(x) => entries_get(kv_view(pairs@), key@) == Some(x.deep_view()),
            None => entries_get(kv_view(pairs@), key@) is None,
        },
{
    let ghost e = kv_view(pairs@);
    let n = pairs.len();
    let mut i: usize = 0;
    assert(e.skip(0) =~= e);
    while i < n
        invariant
            n == pairs@.len(),
            e == kv_view(pairs@),
            i <= n,
            entries_get(e, key@) == entries_get(e.skip(i as int), key@),
        decreases n - i,
    {
        assert(e.skip(i as int)[0] == e[i as int]);
        if str_eq(pairs[i].0.as_str(), key) {
            return Some(&pairs[i].1);
        }
        assert(e.skip(i as int).skip(1) =~= e.skip(i + 1));
        i = i + 1;
    }
    None
}

/// `map.insert(key, value)` on key-ordered pairs.
pub fn kv_insert<V: DeepView>(pairs: &mut Vec<(String, V)>, key: String, value: V)
    ensures
        kv_view(final(pairs)@) == entries_insert(kv_view(old(pairs)@), key@, value.deep_view()),
{
    let ghost e = kv_view(pairs@);
    let ghost k = key@;
    let ghost v = value.deep_view();
    let n = pairs.len();
    let mut i: usize = 0;
    proof {
        assert(e.skip(0) =~= e);
        assert(e.take(0) + entries_insert(e, k, v) =~= entries_insert(e, k, v));
    }
    while i < n
        invariant
            n == pairs@.len(),
            pairs@ == old(pairs)@,
            e == kv_view(pairs@),
            k == key@,
            v == value.deep_view(),
            i <= n,
            entries_insert(e, k, v) == e.take(i as int) + entries_insert(e.skip(i as int), k, v),
        decreases n - i,
    {
        assert(e.skip(i as int)[0] == e[i as int]);
        if str_eq(pairs[i].0.as_str(), key.as_str()) {
            pairs.set(i, (key, value));
            proof {
                assert(e.skip(i as int).skip(1) =~= e.skip(i + 1));
                assert(kv_view(pairs@) =~= e.take(i as int) + (seq![(k, v)] + e.skip(i + 1)));
            }
            return;
        }
        if str_lt(key.as_str(), pairs[i].0.as_str()) {
            pairs.insert(i, (key, value));
            proof {
                assert(kv_view(pairs@) =~= e.take(i as int) + (seq![(k, v)] + e.skip(i as int)));
            }
            return;
        }
        proof {
            assert(e.skip(i as int).skip(1) =~= e.skip(i + 1));
            assert(e.take(i as int) + seq![e[i as int]] =~= e.take(i + 1));
            assert(e.take(i + 1) + entries_insert(e.skip(i + 1), k, v) =~= e.take(i as int) + (
            seq![e[i as int]] + entries_insert(e.skip(i + 1), k, v)));
        }
        i = i + 1;
    }
    pairs.push((key, value));
    proof {
        assert(e.skip(n as int).len() == 0);
        assert(e.take(n as int) =~= e);
        assert(kv_view(pairs@) =~= e.push((k, v)));
    }
}

/// Insert a key into a strictly ascending list of keys (no change when it is
/// already there).
pub open spec fn key_insert(s: Seq<Seq<char>>, k: Seq<char>) -> Seq<Seq<char>>
    decreases s.len(),
{
    if s.len() == 0 {
        seq![k]
    } else if s[0] == k {
        s
    } else if seq_lt(k, s[0]) {
        seq![k] + s
    } else {
        seq![s[0]] + key_insert(s.skip(1), k)
    }
}

/// The distinct keys in ascending order: what `sort()` followed by
/// `dedup()` leaves of a list of strings.
pub open spec fn sorted_keys(s: Seq<Seq<char>>) -> Seq<Seq<char>>
    decreases s.len(),
{
    if s.len() == 0 {
        Seq::empty()
    } else {
        key_insert(sorted_keys(s.drop_last()), s.last())
    }
}

/// Strictly ascending keys.
pub open spec fn strictly_ascending(s: Seq<Seq<char>>) -> bool {
    forall|i: int, j: int| 0 <= i < j < s.len() ==> seq_lt(#[trigger] s[i], #[trigger] s[j])
}

proof fn lemma_key_insert(s: Seq<Seq<char>>, k: Seq<char>)
    requires
        strictly_ascending(s),
    ensures
        strictly_ascending(key_insert(s, k)),
        key_insert(s, k).to_set() == s.to_set().insert(k),
        forall|x: Seq<char>| #[trigger] key_insert(s, k).contains(x) ==> x == k || s.contains(x),
    decreases s.len(),
{
    let r = key_insert(s, k);
    if s.len() == 0 {
        assert(r.to_set() =~= s.to_set().insert(k)) by {
            assert forall|x: Seq<char>| r.to_set().contains(x) <==> s.to_set().insert(k).contains(x) by {
                if r.contains(x) {
                    assert(r[0] == x);
                }
                if x == k {
                    assert(r[0] == k);
                }
            }
        }
    } else if s[0] == k {
        assert(r.to_set() =~= s.to_set().insert(k)) by {
            assert(s.contains(k));
        }
    } else if seq_lt(k, s[0]) {
        assert forall|i: int, j: int| 0 <= i < j < r.len() implies seq_lt(#[trigger] r[i], #[trigger] r[j]) by {
            if i == 0 {
                assert(r[j] == s[j - 1]);
                if j - 1 > 0 {
                    lemma_seq_lt_transitive(k, s[0], s[j - 1]);
                }
            } else {
                assert(r[i] == s[i - 1]);
                assert(r[j] == s[j - 1]);
            }
        }
        assert(r.to_set() =~= s.to_set().insert(k)) by {
            assert forall|x: Seq<char>| r.contains(x) <==> s.to_set().insert(k).contains(x) by {
                if r.contains(x) {
                    let i = choose|i: int| 0 <= i < r.len() && r[i] == x;
                    if i > 0 {
                        assert(s[i - 1] == x);
                    }
                }
                if s.contains(x) {
                    let i = choose|i: int| 0 <= i < s.len() && s[i] == x;
                    assert(r[i + 1] == x);
                }
                if x == k {
                    assert(r[0] == k);
                }
            }
        }
    } else {
        let t = s.skip(1);
        assert forall|i: int, j: int| 0 <= i < j < t.len() implies seq_lt(#[trigger] t[i], #[trigger] t[j]) by {
            assert(t[i] == s[i + 1]);
            assert(t[j] == s[j + 1]);
        }
        lemma_key_insert(t, k);
        let rt = key_insert(t, k);
        lemma_seq_lt_total(k, s[0]);
        assert forall|i: int, j: int| 0 <= i < j < r.len() implies seq_lt(#[trigger] r[i], #[trigger] r[j]) by {
            if i == 0 {
                assert(r[j] == rt[j - 1]);
                assert(rt.contains(rt[j - 1]));
                if rt[j - 1] == k {
                } else {
                    assert(t.contains(rt[j - 1]));
                    let m = choose|m: int| 0 <= m < t.len() && t[m] == rt[j - 1];
                    assert(s[m + 1] == t[m]);
                }
            } else {
                assert(r[i] == rt[i - 1]);
                assert(r[j] == rt[j - 1]);
            }
        }
        assert(r.to_set() =~= s.to_set().insert(k)) by {
            assert forall|x: Seq<char>| r.contains(x) <==> s.to_set().insert(k).contains(x) by {
                if r.contains(x) {
                    let i = choose|i: int| 0 <= i < r.len() && r[i] == x;
                    if i > 0 {
                        assert(rt[i - 1] == x);
                        assert(rt.contains(x));
                        if t.contains(x) {
                            let m = choose|m: int| 0 <= m < t.len() && t[m] == x;
                            assert(s[m + 1] == x);
                        }
                    } else {
                        assert(s[0] == x);
                    }
                }
                if s.contains(x) {
                    let i = choose|i: int| 0 <= i < s.len() && s[i] == x;
                    if i == 0 {
                        assert(r[0] == x);
                    } else {
                        assert(t[i - 1] == x);
                        assert(rt.to_set().contains(x));
                        let m = choose|m: int| 0 <= m < rt.len() && rt[m] == x;
                        assert(r[m + 1] == x);
                    }
                }
                if x == k {
                    assert(rt.to_set().contains(k));
                    let m = choose|m: int| 0 <= m < rt.len() && rt[m] == k;
                    assert(r[m + 1] == k);
                }
            }
        }
        assert forall|x: Seq<char>| #[trigger] r.contains(x) implies x == k || s.contains(x) by {
            assert(r.to_set().contains(x));
        }
    }
}

/// Sorting and removing repeats yields strictly ascending keys holding
/// exactly the keys of the input.
pub proof fn lemma_sorted_keys(s: Seq<Seq<char>>)
    ensures
        strictly_ascending(sorted_keys(s)),
        sorted_keys(s).to_set() == s.to_set(),
    decreases s.len(),
{
    if s.len() == 0 {
        assert(sorted_keys(s).to_set() =~= s.to_set());
    } else {
        lemma_sorted_keys(s.drop_last());
        lemma_key_insert(sorted_keys(s.drop_last()), s.last());
        assert(s.to_set() =~= s.drop_last().to_set().insert(s.last())) by {
            assert(s =~= s.drop_last().push(s.last()));
            s.drop_last().lemma_push_to_set_commute(s.last());
        }
    }
}

/// `v.sort(); v.dedup();` on a list of strings.
pub fn sort_dedup(v: &Vec<String>) -> (r: Vec<String>)
    ensures
        r@.map_values(|x: String| x@) == sorted_keys(v@.map_values(|x: String| x@)),
{
    let ghost sv = v@.map_values(|x: String| x@);
    let mut out: Vec<String> = Vec::new();
    let n = v.len();
    let mut i: usize = 0;
    assert(out@.map_values(|x: String| x@) =~= sorted_keys(sv.take(0)));
    while i < n
        invariant
            n == v@.len(),
            sv == v@.map_values(|x: String| x@),
            i <= n,
            out@.map_values(|x: String| x@) == sorted_keys(sv.take(i as int)),
        decreases n - i,
    {
        assert(sv.take(i + 1).drop_last() =~= sv.take(i as int));
        assert(sv.take(i + 1).last() == v@[i as int]@);
        key_insert_exec(&mut out, &v[i]);
        i = i + 1;
    }
    assert(sv.take(n as int) =~= sv);
    out
}

fn key_insert_exec(out: &mut Vec<String>, key: &String)
    ensures
        final(out)@.map_values(|x: String| x@) == key_insert(old(out)@.map_values(|x: String| x@), key@),
{
    let ghost e = out@.map_values(|x: String| x@);
    let ghost k = key@;
    let n = out.len();
    let mut i: usize = 0;
    proof {
        assert(e.skip(0) =~= e);
        assert(e.take(0) + key_insert(e, k) =~= key_insert(e, k));
    }
    while i < n
        invariant
            n == out@.len(),
            out@ == old(out)@,
            e == out@.map_values(|x: String| x@),
            k == key@,
            i <= n,
            key_insert(e, k) == e.take(i as int) + key_insert(e.skip(i as int), k),
        decreases n - i,
    {
        assert(e.skip(i as int)[0] == e[i as int]);
        if str_eq(out[i].as_str(), key.as_str()) {
            proof {
                assert(key_insert(e.skip(i as int), k) == e.skip(i as int));
                assert(e.take(i as int) + e.skip(i as int) =~= e);
            }
            return;
        }
        if str_lt(key.as_str(), out[i].as_str()) {
            out.insert(i, key.clone());
            proof {
                assert(out@.map_values(|x: String| x@) =~= e.take(i as int) + (seq![k] + e.skip(i as int)));
            }
            return;
        }
        proof {
            assert(e.skip(i as int).skip(1) =~= e.skip(i + 1));
            assert(e.take(i as int) + seq![e[i as int]] =~= e.take(i + 1));
            assert(e.take(i as int) + (seq![e[i as int]] + key_insert(e.skip(i + 1), k)) =~= e.take(i + 1) + key_insert(e.skip(i + 1), k));
        }
        i = i + 1;
    }
    out.push(key.clone());
    proof {
        assert(e.skip(n as int) =~= Seq::<Seq<char>>::empty());
        assert(e.take(n as int) =~= e);
        assert(out@.map_values(|x: String| x@) =~= e + seq![k]);
    }
}

} // verus!
