//! The mathematical model of a map: its entries as a sequence of key-value
//! pairs in insertion order, and facts about that sequence.

use vstd::prelude::*;
use vstd::std_specs::cmp::PartialEqSpec;
use vstd::std_specs::hash::obeys_key_model;

verus! {

/// What the map assumes of its key type: hashing is deterministic, `==` is
/// identity, and `clone` returns an identical key.
pub open spec fn obeys_key_laws<K: Clone>() -> bool {
    &&& obeys_key_model::<K>()
    &&& forall|a: K, b: K| #[trigger] call_ensures(K::clone, (&a,), b) ==> a == b
}

/// Whether some entry of `s` has key `k`.
pub open spec fn has_key<K, V>(s: Seq<(K, V)>, k: K) -> bool {
    exists|i: int| 0 <= i < s.len() && s[i].0 == k
}

/// No two entries of `s` share a key.
pub open spec fn distinct_keys<K, V>(s: Seq<(K, V)>) -> bool {
    forall|i: int, j: int|
        0 <= i < s.len() && 0 <= j < s.len() && #[trigger] s[i].0 == #[trigger] s[j].0 ==> i == j
}

/// The position of the entry of `s` with key `k`; meaningful where
/// `has_key(s, k)` holds.
pub open spec fn position_of<K, V>(s: Seq<(K, V)>, k: K) -> int {
    choose|i: int| 0 <= i < s.len() && s[i].0 == k
}

/// The value that `s` associates with `k`, if any.
pub open spec fn lookup<K, V>(s: Seq<(K, V)>, k: K) -> Option<V> {
    if has_key(s, k) {
        Some(s[position_of(s, k)].1)
    } else {
        None
    }
}

/// `s` after inserting each of `pairs` in turn, where a pair whose key is
/// already present is dropped: the first occurrence of a key wins.
pub open spec fn extended<K, V>(s: Seq<(K, V)>, pairs: Seq<(K, V)>) -> Seq<(K, V)>
    decreases pairs.len(),
{
    if pairs.len() == 0 {
        s
    } else {
        let prev = extended(s, pairs.drop_last());
        if has_key(prev, pairs.last().0) {
            prev
        } else {
            prev.push(pairs.last())
        }
    }
}

/// Where keys are distinct, the entry at `i` is the one found for its key.
pub proof fn lemma_position_of<K, V>(s: Seq<(K, V)>, i: int)
    requires
        distinct_keys(s),
        0 <= i < s.len(),
    ensures
        has_key(s, s[i].0),
        position_of(s, s[i].0) == i,
        lookup(s, s[i].0) == Some(s[i].1),
{
    assert(has_key(s, s[i].0));
}

/// Replacing the value at `i` keeps every key in its place.
pub proof fn lemma_keys_after_value_update<K, V>(s: Seq<(K, V)>, i: int, v: V)
    requires
        0 <= i < s.len(),
    ensures
        distinct_keys(s) ==> distinct_keys(s.update(i, (s[i].0, v))),
        forall|k: K| has_key(s.update(i, (s[i].0, v)), k) <==> #[trigger] has_key(s, k),
        forall|t: int| 0 <= t < s.len() ==> #[trigger] s.update(i, (s[i].0, v))[t].0 == s[t].0,
{
    let u = s.update(i, (s[i].0, v));
    assert forall|t: int| 0 <= t < s.len() implies #[trigger] u[t].0 == s[t].0 by {}
    assert forall|k: K| has_key(u, k) <==> #[trigger] has_key(s, k) by {
        if has_key(u, k) {
            let j = choose|j: int| 0 <= j < u.len() && u[j].0 == k;
            assert(s[j].0 == k);
        }
        if has_key(s, k) {
            let j = choose|j: int| 0 <= j < s.len() && s[j].0 == k;
            assert(u[j].0 == k);
        }
    }
    if distinct_keys(s) {
        assert forall|a: int, b: int|
            0 <= a < u.len() && 0 <= b < u.len() && #[trigger] u[a].0 == #[trigger] u[b].0 implies a
            == b by {
            assert(s[a].0 == s[b].0);
        }
    }
}

/// Two entry sequences with the same key at every position agree on which
/// keys they hold and on whether those are distinct.
pub proof fn lemma_same_keys<K, V>(a: Seq<(K, V)>, b: Seq<(K, V)>)
    requires
        a.len() == b.len(),
        forall|i: int| 0 <= i < a.len() ==> #[trigger] a[i].0 == b[i].0,
    ensures
        distinct_keys(a) ==> distinct_keys(b),
        forall|k: K| has_key(a, k) <==> #[trigger] has_key(b, k),
{
    assert forall|k: K| has_key(a, k) <==> #[trigger] has_key(b, k) by {
        if has_key(a, k) {
            let j = choose|j: int| 0 <= j < a.len() && a[j].0 == k;
            assert(b[j].0 == k);
        }
        if has_key(b, k) {
            let j = choose|j: int| 0 <= j < b.len() && b[j].0 == k;
            assert(a[j].0 == k);
        }
    }
    if distinct_keys(a) {
        assert forall|x: int, y: int|
            0 <= x < b.len() && 0 <= y < b.len() && #[trigger] b[x].0 == #[trigger] b[y].0 implies x
            == y by {
            assert(a[x].0 == a[y].0);
        }
    }
}

/// Removing the entry at `i` removes its key and keeps the others.
pub proof fn lemma_has_key_after_remove<K, V>(s: Seq<(K, V)>, i: int, k: K)
    requires
        distinct_keys(s),
        0 <= i < s.len(),
    ensures
        has_key(s.remove(i), k) <==> has_key(s, k) && k != s[i].0,
        distinct_keys(s.remove(i)),
{
    let r = s.remove(i);
    if has_key(r, k) {
        let j = choose|j: int| 0 <= j < r.len() && r[j].0 == k;
        if j < i {
            assert(s[j].0 == k);
        } else {
            assert(s[j + 1].0 == k);
        }
    }
    if has_key(s, k) && k != s[i].0 {
        let j = choose|j: int| 0 <= j < s.len() && s[j].0 == k;
        if j < i {
            assert(r[j].0 == k);
        } else {
            assert(r[j - 1].0 == k);
        }
    }
    assert forall|a: int, b: int|
        0 <= a < r.len() && 0 <= b < r.len() && #[trigger] r[a].0 == #[trigger] r[b].0 implies a
        == b by {
        let a2 = if a < i { a } else { a + 1 };
        let b2 = if b < i { b } else { b + 1 };
        assert(s[a2].0 == s[b2].0);
    }
}

/// The keys of `s`, in order.
pub open spec fn keys_of<K, V>(s: Seq<(K, V)>) -> Seq<K> {
    s.map_values(|e: (K, V)| e.0)
}

/// The values of `s`, in order.
pub open spec fn values_of<K, V>(s: Seq<(K, V)>) -> Seq<V> {
    s.map_values(|e: (K, V)| e.1)
}

/// `a` and `b` hold equal entries at every position, as `==` on keys and
/// values decides.
pub open spec fn entries_eq<K: PartialEq, V: PartialEq>(a: Seq<(K, V)>, b: Seq<(K, V)>) -> bool {
    &&& a.len() == b.len()
    &&& forall|i: int|
        0 <= i < a.len() ==> (#[trigger] a[i]).0.eq_spec(&b[i].0) && a[i].1.eq_spec(&b[i].1)
}

} // verus!
