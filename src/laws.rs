//! Properties that relate several operations of the map, stated over its
//! model: the sequence of entries in insertion order.

use vstd::prelude::*;

use crate::model::{
    distinct_keys, extended, has_key, keys_of, lemma_has_key_after_remove,
    lemma_keys_after_value_update, lemma_position_of, lookup, position_of,
};

verus! {

/// Inserting pairs one after another, none of whose keys is already present
/// or repeated, appends them, and so their keys, in exactly the order of
/// insertion.
pub proof fn lemma_distinct_inserts_keep_order<K, V>(s: Seq<(K, V)>, pairs: Seq<(K, V)>)
    requires
        distinct_keys(s + pairs),
    ensures
        extended(s, pairs) == s + pairs,
        keys_of(extended(s, pairs)) == keys_of(s) + keys_of(pairs),
    decreases pairs.len(),
{
    let all = s + pairs;
    if pairs.len() == 0 {
        assert(s + pairs =~= s);
    } else {
        let prev = pairs.drop_last();
        let front = s + prev;
        assert(front =~= all.drop_last());
        assert(distinct_keys(front)) by {
            assert forall|i: int, j: int|
                0 <= i < front.len() && 0 <= j < front.len() && #[trigger] front[i].0
                    == #[trigger] front[j].0 implies i == j by {
                assert(all[i].0 == all[j].0);
            }
        }
        lemma_distinct_inserts_keep_order(s, prev);
        if has_key(front, pairs.last().0) {
            let j = choose|j: int| 0 <= j < front.len() && front[j].0 == pairs.last().0;
            assert(all[j].0 == all[all.len() - 1].0);
        }
        assert(front.push(pairs.last()) =~= all);
    }
    assert(keys_of(all) =~= keys_of(s) + keys_of(pairs));
}

/// After inserting a new key `k` with value `v`, a lookup of `k` gives `v`
/// and `k` stands last; a lookup of any other key is unchanged.
pub proof fn lemma_lookup_after_insert<K, V>(s: Seq<(K, V)>, k: K, v: V, q: K)
    requires
        distinct_keys(s),
        !has_key(s, k),
    ensures
        distinct_keys(s.push((k, v))),
        lookup(s.push((k, v)), q) == if q == k {
            Some(v)
        } else {
            lookup(s, q)
        },
        position_of(s.push((k, v)), k) == s.len(),
{
    let t = s.push((k, v));
    assert forall|i: int, j: int|
        0 <= i < t.len() && 0 <= j < t.len() && #[trigger] t[i].0 == #[trigger] t[j].0 implies i
        == j by {
        if i < s.len() && j < s.len() {
            assert(s[i].0 == s[j].0);
        } else if i < s.len() {
            assert(s[i].0 == k);
        } else if j < s.len() {
            assert(s[j].0 == k);
        }
    }
    lemma_position_of(t, s.len() as int);
    if q != k {
        if has_key(s, q) {
            let j = position_of(s, q);
            assert(t[j] == s[j]);
            lemma_position_of(s, j);
            lemma_position_of(t, j);
        }
        if has_key(t, q) {
            let j = choose|j: int| 0 <= j < t.len() && t[j].0 == q;
            assert(s[j].0 == q);
        }
    }
}

/// After the value of a present key `k` is replaced by `v`, as through
/// `get_mut`, a lookup of `k` gives `v` and a lookup of any other key is
/// unchanged.
pub proof fn lemma_lookup_after_value_update<K, V>(s: Seq<(K, V)>, k: K, v: V, q: K)
    requires
        distinct_keys(s),
        has_key(s, k),
    ensures
        lookup(s.update(position_of(s, k), (k, v)), q) == if q == k {
            Some(v)
        } else {
            lookup(s, q)
        },
{
    let i = position_of(s, k);
    let t = s.update(i, (k, v));
    lemma_keys_after_value_update(s, i, v);
    assert(t == s.update(i, (s[i].0, v)));
    lemma_position_of(t, i);
    if q != k && has_key(s, q) {
        let j = position_of(s, q);
        lemma_position_of(s, j);
        assert(t[j] == s[j]);
        lemma_position_of(t, j);
    }
}

/// After removing a present key `k`, a lookup of `k` gives nothing and a
/// lookup of any other key is unchanged.
pub proof fn lemma_lookup_after_remove<K, V>(s: Seq<(K, V)>, k: K, q: K)
    requires
        distinct_keys(s),
        has_key(s, k),
    ensures
        lookup(s.remove(position_of(s, k)), q) == if q == k {
            None
        } else {
            lookup(s, q)
        },
{
    let i = position_of(s, k);
    let t = s.remove(i);
    lemma_has_key_after_remove(s, i, q);
    if q != k && has_key(s, q) {
        let j = position_of(s, q);
        lemma_position_of(s, j);
        if j < i {
            assert(t[j] == s[j]);
            lemma_position_of(t, j);
        } else {
            assert(t[j - 1] == s[j]);
            lemma_position_of(t, j - 1);
        }
    }
}

/// Removing a present key `k` moves every key after it one position towards
/// the front and leaves every key before it in place.
pub proof fn lemma_positions_after_remove<K, V>(s: Seq<(K, V)>, k: K, q: K)
    requires
        distinct_keys(s),
        has_key(s, k),
        has_key(s, q),
        q != k,
    ensures
        has_key(s.remove(position_of(s, k)), q),
        position_of(s.remove(position_of(s, k)), q) == if position_of(s, q) < position_of(s, k) {
            position_of(s, q)
        } else {
            position_of(s, q) - 1
        },
{
    let i = position_of(s, k);
    let t = s.remove(i);
    let j = position_of(s, q);
    lemma_has_key_after_remove(s, i, q);
    lemma_position_of(s, j);
    lemma_position_of(s, i);
    if j < i {
        assert(t[j] == s[j]);
        lemma_position_of(t, j);
    } else {
        assert(t[j - 1] == s[j]);
        lemma_position_of(t, j - 1);
    }
}

/// The pair at `i` is the first in `pairs` with its key.
pub open spec fn first_occurrence<K, V>(pairs: Seq<(K, V)>, i: int) -> bool {
    &&& 0 <= i < pairs.len()
    &&& forall|j: int| 0 <= j < i ==> pairs[j].0 != pairs[i].0
}

/// The keys of `pairs` are those of its front part and that of its last pair.
proof fn lemma_has_key_split<K, V>(pairs: Seq<(K, V)>)
    requires
        pairs.len() > 0,
    ensures
        forall|k: K| #[trigger]
            has_key(pairs, k) <==> has_key(pairs.drop_last(), k) || pairs.last().0 == k,
        forall|i: int|
            0 <= i < pairs.len() - 1 && #[trigger] first_occurrence(pairs, i) ==> first_occurrence(
                pairs.drop_last(),
                i,
            ) && has_key(pairs.drop_last(), pairs[i].0),
        first_occurrence(pairs, pairs.len() - 1) ==> !has_key(pairs.drop_last(), pairs.last().0),
{
    let prev = pairs.drop_last();
    let n = pairs.len() - 1;
    assert forall|k: K| #[trigger]
        has_key(pairs, k) <==> has_key(prev, k) || pairs.last().0 == k by {
        if has_key(pairs, k) {
            let j = choose|j: int| 0 <= j < pairs.len() && pairs[j].0 == k;
            if j < n {
                assert(prev[j].0 == k);
            }
        }
        if has_key(prev, k) {
            let j = choose|j: int| 0 <= j < prev.len() && prev[j].0 == k;
            assert(pairs[j].0 == k);
        }
        if pairs.last().0 == k {
            assert(pairs[n].0 == k);
        }
    }
    assert forall|i: int|
        0 <= i < n && #[trigger] first_occurrence(pairs, i) implies first_occurrence(prev, i)
        && has_key(prev, pairs[i].0) by {
        assert(prev[i].0 == pairs[i].0);
        assert forall|j: int| 0 <= j < i implies prev[j].0 != prev[i].0 by {
            assert(pairs[j].0 != pairs[i].0);
        }
    }
    if first_occurrence(pairs, n) && has_key(prev, pairs.last().0) {
        let j = choose|j: int| 0 <= j < prev.len() && prev[j].0 == pairs.last().0;
        assert(pairs[j].0 == pairs[n].0);
    }
}

/// Extending keeps `s` in front and holds the keys of `s` and of `pairs`,
/// each once.
proof fn lemma_extended_keys<K, V>(s: Seq<(K, V)>, pairs: Seq<(K, V)>)
    requires
        distinct_keys(s),
    ensures
        distinct_keys(extended(s, pairs)),
        extended(s, pairs).len() >= s.len(),
        extended(s, pairs).subrange(0, s.len() as int) == s,
        forall|k: K|
            #[trigger] has_key(extended(s, pairs), k) <==> has_key(s, k) || has_key(pairs, k),
    decreases pairs.len(),
{
    let e = extended(s, pairs);
    if pairs.len() == 0 {
        assert(s.subrange(0, s.len() as int) =~= s);
    } else {
        let p = pairs.last();
        let e0 = extended(s, pairs.drop_last());
        lemma_extended_keys(s, pairs.drop_last());
        lemma_has_key_split(pairs);
        if !has_key(e0, p.0) {
            assert(e.subrange(0, s.len() as int) =~= e0.subrange(0, s.len() as int));
            lemma_lookup_after_insert(e0, p.0, p.1, p.0);
            assert forall|k: K| #[trigger] has_key(e, k) <==> has_key(e0, k) || k == p.0 by {
                if has_key(e, k) && k != p.0 {
                    let j = choose|j: int| 0 <= j < e.len() && e[j].0 == k;
                    assert(e0[j].0 == k);
                }
                if has_key(e0, k) {
                    let j = choose|j: int| 0 <= j < e0.len() && e0[j].0 == k;
                    assert(e[j].0 == k);
                }
                if k == p.0 {
                    assert(e[e0.len() as int].0 == k);
                }
            }
        }
    }
}

/// Extending leaves the value of a key of `s` as it was.
proof fn lemma_extended_old_value<K, V>(s: Seq<(K, V)>, pairs: Seq<(K, V)>, k: K)
    requires
        distinct_keys(s),
        has_key(s, k),
    ensures
        lookup(extended(s, pairs), k) == lookup(s, k),
    decreases pairs.len(),
{
    if pairs.len() > 0 {
        let p = pairs.last();
        let e0 = extended(s, pairs.drop_last());
        lemma_extended_old_value(s, pairs.drop_last(), k);
        lemma_extended_keys(s, pairs.drop_last());
        if !has_key(e0, p.0) {
            lemma_lookup_after_insert(e0, p.0, p.1, k);
        }
    }
}

/// Extending gives a new key the value of its first occurrence in `pairs`.
proof fn lemma_extended_new_value<K, V>(s: Seq<(K, V)>, pairs: Seq<(K, V)>, i: int)
    requires
        distinct_keys(s),
        first_occurrence(pairs, i),
        !has_key(s, pairs[i].0),
    ensures
        has_key(extended(s, pairs), pairs[i].0),
        lookup(extended(s, pairs), pairs[i].0) == Some(pairs[i].1),
    decreases pairs.len(),
{
    let prev = pairs.drop_last();
    let p = pairs.last();
    let n = pairs.len() - 1;
    let e0 = extended(s, prev);
    lemma_extended_keys(s, prev);
    lemma_has_key_split(pairs);
    if i < n {
        assert(first_occurrence(prev, i));
        assert(prev[i] == pairs[i]);
        lemma_extended_new_value(s, prev, i);
        if !has_key(e0, p.0) {
            lemma_lookup_after_insert(e0, p.0, p.1, pairs[i].0);
            lemma_extended_keys(s, pairs);
        }
    } else {
        assert(pairs[i] == p);
        assert(!has_key(prev, p.0));
        assert(!has_key(e0, p.0));
        lemma_lookup_after_insert(e0, p.0, p.1, p.0);
        lemma_extended_keys(s, pairs);
    }
}

/// Extending places two new keys in the order of their first occurrences in
/// `pairs`.
proof fn lemma_extended_order<K, V>(s: Seq<(K, V)>, pairs: Seq<(K, V)>, i1: int, i2: int)
    requires
        distinct_keys(s),
        i1 < i2,
        first_occurrence(pairs, i1),
        first_occurrence(pairs, i2),
        !has_key(s, pairs[i1].0),
        !has_key(s, pairs[i2].0),
    ensures
        position_of(extended(s, pairs), pairs[i1].0) < position_of(extended(s, pairs), pairs[i2].0),
    decreases pairs.len(),
{
    let prev = pairs.drop_last();
    let p = pairs.last();
    let n = pairs.len() - 1;
    let e = extended(s, pairs);
    let e0 = extended(s, prev);
    lemma_extended_keys(s, prev);
    lemma_has_key_split(pairs);
    assert(first_occurrence(prev, i1));
    assert(prev[i1] == pairs[i1]);
    assert(has_key(prev, pairs[i1].0));
    assert(has_key(e0, pairs[i1].0));
    let j1 = position_of(e0, pairs[i1].0);
    lemma_position_of(e0, j1);
    if i2 < n {
        assert(first_occurrence(prev, i2));
        assert(prev[i2] == pairs[i2]);
        assert(has_key(prev, pairs[i2].0));
        assert(has_key(e0, pairs[i2].0));
        lemma_extended_order(s, prev, i1, i2);
        if !has_key(e0, p.0) {
            let j2 = position_of(e0, pairs[i2].0);
            lemma_position_of(e0, j2);
            lemma_lookup_after_insert(e0, p.0, p.1, p.0);
            assert(e[j1] == e0[j1]);
            assert(e[j2] == e0[j2]);
            lemma_position_of(e, j1);
            lemma_position_of(e, j2);
        }
    } else {
        assert(pairs[i2] == p);
        assert(!has_key(e0, p.0));
        lemma_lookup_after_insert(e0, p.0, p.1, p.0);
        assert(e[j1] == e0[j1]);
        lemma_position_of(e, j1);
    }
}

/// Extending entries `s` with `pairs` (building a map from `pairs` is the
/// case of empty `s`) keeps `s` in front and holds the keys of both, each
/// once; a key of `s` keeps its value; a new key gets the value of its first
/// occurrence in `pairs`, and the new keys stand in the order of their first
/// occurrences.
pub proof fn lemma_first_occurrence_wins<K, V>(s: Seq<(K, V)>, pairs: Seq<(K, V)>)
    requires
        distinct_keys(s),
    ensures
        distinct_keys(extended(s, pairs)),
        extended(s, pairs).len() >= s.len(),
        extended(s, pairs).subrange(0, s.len() as int) == s,
        forall|k: K|
            #[trigger] has_key(extended(s, pairs), k) <==> has_key(s, k) || has_key(pairs, k),
        forall|k: K| has_key(s, k) ==> #[trigger] lookup(extended(s, pairs), k) == lookup(s, k),
        forall|i: int|
            first_occurrence(pairs, i) && !has_key(s, pairs[i].0) ==> #[trigger] lookup(
                extended(s, pairs),
                pairs[i].0,
            ) == Some(pairs[i].1),
        forall|i1: int, i2: int|
            i1 < i2 && first_occurrence(pairs, i1) && first_occurrence(pairs, i2) && !has_key(
                s,
                pairs[i1].0,
            ) && !has_key(s, pairs[i2].0) ==> #[trigger] position_of(extended(s, pairs), pairs[i1].0)
                < #[trigger] position_of(extended(s, pairs), pairs[i2].0),
{
    lemma_extended_keys(s, pairs);
    let e = extended(s, pairs);
    assert forall|k: K| has_key(s, k) implies #[trigger] lookup(e, k) == lookup(s, k) by {
        lemma_extended_old_value(s, pairs, k);
    }
    assert forall|i: int|
        first_occurrence(pairs, i) && !has_key(s, pairs[i].0) implies #[trigger] lookup(
        e,
        pairs[i].0,
    ) == Some(pairs[i].1) by {
        lemma_extended_new_value(s, pairs, i);
    }
    assert forall|i1: int, i2: int|
        i1 < i2 && first_occurrence(pairs, i1) && first_occurrence(pairs, i2) && !has_key(
            s,
            pairs[i1].0,
        ) && !has_key(s, pairs[i2].0) implies #[trigger] position_of(e, pairs[i1].0)
        < #[trigger] position_of(e, pairs[i2].0) by {
        lemma_extended_order(s, pairs, i1, i2);
    }
}

} // verus!
