//! The map itself: a hash index from keys to positions, beside the entries
//! in insertion order.

use std::collections::HashMap;
use std::hash::Hash;
use vstd::prelude::*;
use vstd::std_specs::cmp::PartialEqSpec;

use crate::error::SeqMapError;
use crate::model::{
    distinct_keys, entries_eq, extended, has_key, keys_of, lemma_has_key_after_remove,
    lemma_keys_after_value_update, lemma_position_of, lemma_same_keys, lookup, obeys_key_laws,
    position_of, values_of,
};
use crate::render::{debug_text, display_text, render_debug, render_display, texts_view};

verus! {

/// A deterministic map that preserves insertion order.
///
/// A hash index maps each key to its position in `entries`, which holds the
/// key-value pairs in the order in which they were inserted.
#[verifier::reject_recursive_types(K)]
#[derive(Clone)]
pub struct SeqMap<K, V> where K: Eq + Hash + Clone {
    key_to_index: HashMap<K, usize>,
    entries: Vec<(K, V)>,
}

impl<K: Eq + Hash + Clone, V> View for SeqMap<K, V> {
    type V = Seq<(K, V)>;

    /// The entries, in insertion order.
    closed spec fn view(&self) -> Seq<(K, V)> {
        self.entries@
    }
}

impl<K: Eq + Hash + Clone, V> SeqMap<K, V> {
    /// The index holds exactly the keys of the entries, each with its position.
    pub closed spec fn index_synced(&self) -> bool {
        &&& forall|k: K| #[trigger]
            self.key_to_index@.contains_key(k) <==> has_key(self.entries@, k)
        &&& forall|i: int|
            0 <= i < self.entries.len() ==> #[trigger] self.key_to_index@[self.entries@[i].0]
                == i
    }

    /// Well-formedness: the key type behaves, keys are unique, and the index
    /// agrees with the entries.
    pub open spec fn wf(&self) -> bool {
        &&& obeys_key_laws::<K>()
        &&& distinct_keys(self@)
        &&& self.index_synced()
    }

    /// Creates a new, empty `SeqMap`.
    pub fn new() -> (r: Self)
        ensures
            r@ == Seq::<(K, V)>::empty(),
            obeys_key_laws::<K>() ==> r.wf(),
    {
        let r = Self { key_to_index: HashMap::new(), entries: Vec::new() };
        assert(r.index_synced());
        r
    }

    /// Returns the number of key-value pairs in the map.
    pub fn len(&self) -> (r: usize)
        ensures
            r == self@.len(),
    {
        self.entries.len()
    }

    /// Returns `true` if the map contains no elements.
    pub fn is_empty(&self) -> (r: bool)
        ensures
            r == (self@.len() == 0),
    {
        self.entries.is_empty()
    }

    /// Checks if the map contains a key.
    pub fn contains_key(&self, key: &K) -> (r: bool)
        requires
            self.wf(),
        ensures
            r == has_key(self@, *key),
    {
        self.key_to_index.contains_key(key)
    }

    /// Retrieves a reference to the value corresponding to the key.
    pub fn get(&self, key: &K) -> (r: Option<&V>)
        requires
            self.wf(),
        ensures
            match r {
                Some(v) => lookup(self@, *key) == Some(*v),
                None => lookup(self@, *key) is None,
            },
    {
        match self.get_index(key) {
            Some(i) => {
                proof {
                    lemma_position_of(self@, i as int);
                }
                Some(&self.entries[i].1)
            },
            None => None,
        }
    }

    /// Returns a mutable reference to the value corresponding to the key.
    ///
    /// Writing through it changes that value alone.
    pub fn get_mut(&mut self, key: &K) -> (r: Option<&mut V>)
        requires
            old(self).wf(),
        ensures
            final(self).wf(),
            match r {
                Some(v) => {
                    &&& lookup(old(self)@, *key) == Some(*v)
                    &&& final(self)@ == old(self)@.update(
                        position_of(old(self)@, *key),
                        (*key, *final(v)),
                    )
                },
                None => {
                    &&& lookup(old(self)@, *key) is None
                    &&& final(self)@ == old(self)@
                },
            },
    {
        match self.get_index(key) {
            Some(i) => {
                proof {
                    lemma_position_of(self@, i as int);
                }
                let value = &mut self.entries[i].1;
                proof {
                    lemma_keys_after_value_update(old(self)@, i as int, *final(value));
                }
                Some(value)
            },
            None => None,
        }
    }

    /// Removes `key` and returns its value, if present.
    ///
    /// The entries after it move one position towards the front, and their
    /// recorded positions follow.
    pub fn remove(&mut self, key: &K) -> (r: Option<V>)
        requires
            old(self).wf(),
        ensures
            final(self).wf(),
            r == lookup(old(self)@, *key),
            has_key(old(self)@, *key) ==> final(self)@ == old(self)@.remove(
                position_of(old(self)@, *key),
            ),
            !has_key(old(self)@, *key) ==> final(self)@ == old(self)@,
    {
        let i: usize = match self.get_index(key) {
            Some(i) => i,
            None => return None,
        };
        let ghost old_entries = self.entries@;
        self.key_to_index.remove(key);
        let (_, value) = self.entries.remove(i);
        proof {
            lemma_position_of(old_entries, i as int);
            assert forall|k: K| #[trigger]
                self.key_to_index@.contains_key(k) <==> has_key(self.entries@, k) by {
                lemma_has_key_after_remove(old_entries, i as int, k);
            }
        }
        let mut j: usize = i;
        while j < self.entries.len()
            invariant
                obeys_key_laws::<K>(),
                distinct_keys(old_entries),
                i <= j <= self.entries.len(),
                i < old_entries.len(),
                old_entries[i as int].0 == *key,
                self.entries@ == old_entries.remove(i as int),
                forall|k: K| #[trigger]
                    self.key_to_index@.contains_key(k) <==> has_key(self.entries@, k),
                forall|t: int|
                    0 <= t < j ==> #[trigger] self.key_to_index@[self.entries@[t].0] == t,
                forall|t: int|
                    j <= t < self.entries.len() ==> #[trigger] self.key_to_index@[self.entries@[t].0]
                        == t + 1,
            decreases self.entries.len() - j,
        {
            let moved = self.entries[j].0.clone();
            self.key_to_index.insert(moved, j);
            j = j + 1;
        }
        Some(value)
    }

    /// Inserts each of `pairs` in order; a pair whose key is already present
    /// (before or earlier in `pairs`) is dropped.
    pub fn extend(&mut self, pairs: Vec<(K, V)>)
        requires
            old(self).wf(),
        ensures
            final(self).wf(),
            final(self)@ == extended(old(self)@, pairs@),
    {
        let ghost start = self@;
        let ghost all = pairs@;
        for pair in it: pairs.into_iter()
            invariant
                self.wf(),
                it.seq() == all,
                self@ == extended(start, all.take(it.index())),
        {
            let ghost i = it.index();
            proof {
                assert(all.take(i + 1).drop_last() =~= all.take(i));
            }
            let (key, value) = pair;
            let _ = self.insert(key, value);
        }
        proof {
            assert(all.take(all.len() as int) =~= all);
        }
    }

    /// Builds a map by inserting `pairs` in order; where a key repeats, its
    /// first occurrence is kept, both its value and its position.
    pub fn from_pairs(pairs: Vec<(K, V)>) -> (r: Self)
        requires
            obeys_key_laws::<K>(),
        ensures
            r.wf(),
            r@ == extended(Seq::<(K, V)>::empty(), pairs@),
    {
        let mut r = Self::new();
        r.extend(pairs);
        r
    }

    /// Consumes the map, returning its entries in insertion order.
    pub fn into_entries(self) -> (r: Vec<(K, V)>)
        ensures
            r@ == self@,
    {
        self.entries
    }

    /// Consumes the map, returning its keys in insertion order.
    pub fn into_keys(self) -> (r: Vec<K>)
        ensures
            r@ == keys_of(self@),
    {
        let ghost all = self@;
        let mut r: Vec<K> = Vec::new();
        for pair in it: self.entries.into_iter()
            invariant
                it.seq() == all,
                r@ == keys_of(all.take(it.index())),
        {
            let ghost i = it.index();
            proof {
                assert(keys_of(all.take(i + 1)) =~= keys_of(all.take(i)).push(pair.0));
            }
            r.push(pair.0);
        }
        proof {
            assert(all.take(all.len() as int) =~= all);
        }
        r
    }

    /// Consumes the map, returning its values in insertion order.
    pub fn into_values(self) -> (r: Vec<V>)
        ensures
            r@ == values_of(self@),
    {
        let ghost all = self@;
        let mut r: Vec<V> = Vec::new();
        for pair in it: self.entries.into_iter()
            invariant
                it.seq() == all,
                r@ == values_of(all.take(it.index())),
        {
            let ghost i = it.index();
            proof {
                assert(values_of(all.take(i + 1)) =~= values_of(all.take(i)).push(pair.1));
            }
            r.push(pair.1);
        }
        proof {
            assert(all.take(all.len() as int) =~= all);
        }
        r
    }

    /// The key-value pairs in insertion order, each value writable; the keys
    /// and the order stay as they are.
    pub fn iter_mut(&mut self) -> (r: Vec<(&K, &mut V)>)
        requires
            old(self).wf(),
        ensures
            r@.len() == old(self)@.len(),
            forall|i: int| 0 <= i < r@.len() ==> *(#[trigger] r@[i]).0 == old(self)@[i].0,
            forall|i: int| 0 <= i < r@.len() ==> *(#[trigger] r@[i]).1 == old(self)@[i].1,
            final(self).wf(),
            final(self)@.len() == old(self)@.len(),
            forall|i: int|
                0 <= i < r@.len() ==> final(self)@[i] == (old(self)@[i].0, *final((#[trigger] r@[i]).1)),
    {
        let ghost start = self.entries@;
        let ghost index = self.key_to_index@;
        let mut r: Vec<(&K, &mut V)> = Vec::new();
        let mut rest: &mut [(K, V)] = self.entries.as_mut_slice();
        let ghost first_rest = rest;
        while rest.len() > 0
            invariant
                r@.len() + rest@.len() == start.len(),
                rest@ == start.subrange(r@.len() as int, start.len() as int),
                forall|i: int| 0 <= i < r@.len() ==> *(#[trigger] r@[i]).0 == start[i].0,
                forall|i: int| 0 <= i < r@.len() ==> *(#[trigger] r@[i]).1 == start[i].1,
                final(first_rest)@.len() == r@.len() + final(rest)@.len(),
                forall|i: int|
                    0 <= i < r@.len() ==> final(first_rest)@[i] == (start[i].0, *final((#[trigger] r@[i]).1)),
                forall|i: int|
                    0 <= i < final(rest)@.len() ==> final(first_rest)@[r@.len() + i] == #[trigger] final(rest)@[i],
            decreases rest@.len(),
        {
            let ghost n = r@.len();
            let ghost before = rest;
            let (head, tail) = rest.split_at_mut(1);
            assert(final(before)@ == final(head)@ + final(tail)@);
            let ghost h = head;
            let entry = &mut head[0];
            assert(final(h)@ == h@.update(0, *final(entry)));
            let ghost e = entry;
            let pair = (&entry.0, &mut entry.1);
            assert(*final(e) == (*pair.0, *final(pair.1)));
            r.push(pair);
            rest = tail;
            proof {
                assert(final(before)@[0] == (start[n as int].0, *final(r@[n as int].1)));
                assert forall|i: int| 0 <= i < final(rest)@.len() implies final(first_rest)@[r@.len() + i] == #[trigger] final(rest)@[i] by {
                    assert(final(before)@[1 + i] == final(rest)@[i]);
                }
            }
        }
        proof {
            let fin = final(first_rest)@;
            assert forall|i: int| 0 <= i < start.len() implies #[trigger] start[i].0 == fin[i].0 by {
                assert(fin[i] == (start[i].0, *final(r@[i].1)));
            }
            lemma_same_keys(start, fin);
            assert forall|i: int| 0 <= i < fin.len() implies #[trigger] index[fin[i].0] == i by {
                assert(start[i].0 == fin[i].0);
            }
        }
        r
    }

    /// The values in insertion order, each writable; the keys and the order
    /// stay as they are.
    pub fn values_mut(&mut self) -> (r: Vec<&mut V>)
        requires
            old(self).wf(),
        ensures
            r@.len() == old(self)@.len(),
            forall|i: int| 0 <= i < r@.len() ==> *(#[trigger] r@[i]) == old(self)@[i].1,
            final(self).wf(),
            final(self)@.len() == old(self)@.len(),
            forall|i: int|
                0 <= i < r@.len() ==> final(self)@[i] == (old(self)@[i].0, *final(#[trigger] r@[i])),
    {
        let pairs = self.iter_mut();
        let ghost all = pairs@;
        let mut r: Vec<&mut V> = Vec::new();
        for pair in it: pairs.into_iter()
            invariant
                it.seq() == all,
                r@.len() == it.index(),
                forall|i: int| 0 <= i < r@.len() ==> *(#[trigger] r@[i]) == *all[i].1,
                forall|i: int| 0 <= i < r@.len() ==> *final(#[trigger] r@[i]) == *final(all[i].1),
        {
            r.push(pair.1);
        }
        r
    }

    /// Removes all entries.
    pub fn clear(&mut self)
        requires
            old(self).wf(),
        ensures
            final(self).wf(),
            final(self)@ == Seq::<(K, V)>::empty(),
    {
        self.entries.clear();
        self.key_to_index.clear();
    }

    /// Removes all entries and returns them in insertion order.
    pub fn drain(&mut self) -> (r: Vec<(K, V)>)
        requires
            old(self).wf(),
        ensures
            final(self).wf(),
            final(self)@ == Seq::<(K, V)>::empty(),
            r@ == old(self)@,
    {
        let mut drained: Vec<(K, V)> = Vec::new();
        std::mem::swap(&mut drained, &mut self.entries);
        self.key_to_index.clear();
        drained
    }

    /// The keys, in insertion order.
    pub fn keys(&self) -> (r: Vec<&K>)
        ensures
            r@.len() == self@.len(),
            forall|i: int| 0 <= i < r@.len() ==> *r@[i] == #[trigger] self@[i].0,
    {
        let mut r: Vec<&K> = Vec::new();
        for i in 0..self.entries.len()
            invariant
                r@.len() == i,
                forall|t: int| 0 <= t < i ==> *r@[t] == #[trigger] self@[t].0,
        {
            r.push(&self.entries[i].0);
        }
        r
    }

    /// The values, in insertion order.
    pub fn values(&self) -> (r: Vec<&V>)
        ensures
            r@.len() == self@.len(),
            forall|i: int| 0 <= i < r@.len() ==> *r@[i] == #[trigger] self@[i].1,
    {
        let mut r: Vec<&V> = Vec::new();
        for i in 0..self.entries.len()
            invariant
                r@.len() == i,
                forall|t: int| 0 <= t < i ==> *r@[t] == #[trigger] self@[t].1,
        {
            r.push(&self.entries[i].1);
        }
        r
    }

    /// The key-value pairs, in insertion order.
    pub fn iter(&self) -> (r: Vec<(&K, &V)>)
        ensures
            r@.len() == self@.len(),
            forall|i: int| 0 <= i < r@.len() ==> *(#[trigger] r@[i]).0 == self@[i].0,
            forall|i: int| 0 <= i < r@.len() ==> *(#[trigger] r@[i]).1 == self@[i].1,
    {
        let mut r: Vec<(&K, &V)> = Vec::new();
        for i in 0..self.entries.len()
            invariant
                r@.len() == i,
                forall|t: int| 0 <= t < i ==> *(#[trigger] r@[t]).0 == self@[t].0,
                forall|t: int| 0 <= t < i ==> *(#[trigger] r@[t]).1 == self@[t].1,
        {
            let pair = (&self.entries[i].0, &self.entries[i].1);
            assert(*pair.0 == self@[i as int].0 && *pair.1 == self@[i as int].1);
            r.push(pair);
        }
        r
    }

    /// The zero-based insertion-order position of `key`, if present.
    pub fn get_index(&self, key: &K) -> (r: Option<usize>)
        requires
            self.wf(),
        ensures
            r == (if has_key(self@, *key) {
                Some(position_of(self@, *key) as usize)
            } else {
                None
            }),
            r matches Some(i) ==> i < self@.len() && self@[i as int].0 == *key,
    {
        match self.key_to_index.get(key) {
            Some(i) => {
                let i: usize = *i;
                proof {
                    let j = choose|j: int| 0 <= j < self@.len() && self@[j].0 == *key;
                    assert(self.key_to_index@[self.entries@[j].0] == j);
                }
                Some(i)
            },
            None => None,
        }
    }

    /// Inserts a key-value pair at the end of the map.
    ///
    /// Fails with `KeyAlreadyExists`, leaving the map unchanged, if the key is
    /// already present.
    pub fn insert(&mut self, key: K, value: V) -> (r: Result<(), SeqMapError>)
        requires
            old(self).wf(),
        ensures
            final(self).wf(),
            has_key(old(self)@, key) ==> r == Err::<(), SeqMapError>(SeqMapError::KeyAlreadyExists)
                && final(self)@ == old(self)@,
            !has_key(old(self)@, key) ==> r is Ok && final(self)@ == old(self)@.push((key, value)),
    {
        if self.key_to_index.contains_key(&key) {
            Err(SeqMapError::KeyAlreadyExists)
        } else {
            let ghost old_entries = self.entries@;
            let index_key = key.clone();
            self.entries.push((key, value));
            let n: usize = self.entries.len() - 1;
            self.key_to_index.insert(index_key, n);
            proof {
                assert forall|k: K| #[trigger]
                    self.key_to_index@.contains_key(k) <==> has_key(self.entries@, k) by {
                    if has_key(self.entries@, k) && k != index_key {
                        let j = choose|j: int| 0 <= j < self.entries@.len() && self.entries@[j].0 == k;
                        assert(old_entries[j].0 == k);
                    }
                    if has_key(old_entries, k) {
                        let j = choose|j: int| 0 <= j < old_entries.len() && old_entries[j].0 == k;
                        assert(self.entries@[j].0 == k);
                    }
                    if k == index_key {
                        assert(self.entries@[n as int].0 == k);
                    }
                }
            }
            Ok(())
        }
    }
}

impl<K: Eq + Hash + Clone + std::fmt::Display, V: std::fmt::Display> SeqMap<K, V> {
    /// The human-readable form: `SeqMap(<count>)`, then a line `<key>: <value>`
    /// for each entry, in insertion order, each key and value as its
    /// `Display` writes it.
    pub fn to_string(&self) -> (r: String)
        ensures
            exists|texts: Seq<(String, String)>|
                {
                    &&& texts.len() == self@.len()
                    &&& forall|i: int|
                        0 <= i < texts.len() ==> vstd::string::to_string_from_display_ensures::<K>(
                            &self@[i].0,
                            (#[trigger] texts[i]).0,
                        )
                    &&& forall|i: int|
                        0 <= i < texts.len() ==> vstd::string::to_string_from_display_ensures::<V>(
                            &self@[i].1,
                            (#[trigger] texts[i]).1,
                        )
                    &&& r@ == display_text(#[trigger] texts_view(texts))
                },
    {
        let mut texts: Vec<(String, String)> = Vec::new();
        for i in 0..self.entries.len()
            invariant
                texts@.len() == i,
                forall|t: int|
                    0 <= t < i ==> vstd::string::to_string_from_display_ensures::<K>(
                        &self@[t].0,
                        (#[trigger] texts@[t]).0,
                    ),
                forall|t: int|
                    0 <= t < i ==> vstd::string::to_string_from_display_ensures::<V>(
                        &self@[t].1,
                        (#[trigger] texts@[t]).1,
                    ),
        {
            let key_text = self.entries[i].0.to_string();
            let value_text = self.entries[i].1.to_string();
            texts.push((key_text, value_text));
        }
        let r = render_display(&texts);
        assert(r@ == display_text(texts_view(texts@)));
        r
    }
}

/// Relies on `format!` with `{:?}`: the text that the `Debug` impl of `value`
/// writes. Nothing is assumed of that text.
#[verifier::external_body]
fn debug_text_of<T: std::fmt::Debug>(value: &T) -> String {
    format!("{:?}", value)
}

impl<K: Eq + Hash + Clone + std::fmt::Debug, V: std::fmt::Debug> SeqMap<K, V> {
    /// The debugging form: `SeqMap(<key>: <value>, ...)`, in insertion order,
    /// each key and value as its `Debug` writes it.
    pub fn to_debug_string(&self) -> (r: String)
        ensures
            exists|texts: Seq<(String, String)>|
                texts.len() == self@.len() && r@ == debug_text(#[trigger] texts_view(texts)),
    {
        let mut texts: Vec<(String, String)> = Vec::new();
        for i in 0..self.entries.len()
            invariant
                texts@.len() == i,
        {
            let key_text = debug_text_of(&self.entries[i].0);
            let value_text = debug_text_of(&self.entries[i].1);
            texts.push((key_text, value_text));
        }
        let r = render_debug(&texts);
        assert(r@ == debug_text(texts_view(texts@)));
        r
    }
}

impl<K: Eq + Hash + Clone, V: PartialEq> PartialEq for SeqMap<K, V> {
    /// Maps are equal when they hold equal entries in the same order.
    fn eq(&self, other: &Self) -> (r: bool) {
        if self.entries.len() != other.entries.len() {
            return false;
        }
        let mut i: usize = 0;
        while i < self.entries.len()
            invariant
                self.entries.len() == other.entries.len(),
                0 <= i <= self.entries.len(),
                K::obeys_eq_spec() && V::obeys_eq_spec() ==> forall|t: int|
                    0 <= t < i ==> (#[trigger] self@[t]).0.eq_spec(&other@[t].0) && self@[t].1.eq_spec(
                        &other@[t].1,
                    ),
            decreases self.entries.len() - i,
        {
            if !(self.entries[i].0 == other.entries[i].0 && self.entries[i].1 == other.entries[i].1) {
                return false;
            }
            i = i + 1;
        }
        true
    }
}

impl<K: Eq + Hash + Clone, V: PartialEq> vstd::std_specs::cmp::PartialEqSpecImpl for SeqMap<K, V> {
    open spec fn obeys_eq_spec() -> bool {
        K::obeys_eq_spec() && V::obeys_eq_spec()
    }

    open spec fn eq_spec(&self, other: &Self) -> bool {
        entries_eq(self@, other@)
    }
}

impl<K: Eq + Hash + Clone, V: Eq> Eq for SeqMap<K, V> {

}

/// Relies on `Hash::hash`: feeds `value` into `state`.
#[verifier::external_body]
fn hash_into<T: Hash, H: std::hash::Hasher>(value: &T, state: &mut H) {
    value.hash(state)
}

impl<K: Eq + Hash + Clone, V: Hash> Hash for SeqMap<K, V> {
    /// Feeds each key and then its value into `state`, in insertion order.
    fn hash<H: std::hash::Hasher>(&self, state: &mut H) {
        for i in 0..self.entries.len() {
            hash_into(&self.entries[i].0, state);
            hash_into(&self.entries[i].1, state);
        }
    }
}

impl<K: Eq + Hash + Clone, V> Default for SeqMap<K, V> {
    /// Creates a new, empty `SeqMap`.
    fn default() -> (r: Self)
        ensures
            r@ == Seq::<(K, V)>::empty(),
            obeys_key_laws::<K>() ==> r.wf(),
    {
        Self::new()
    }
}

impl<K: Eq + Hash + Clone, V> std::ops::Index<&K> for SeqMap<K, V> {
    type Output = V;

    /// The value of `key`, which must be present: a verified caller has to
    /// show that it is, and an absent key panics.
    fn index(&self, key: &K) -> (r: &V)
        ensures
            lookup(self@, *key) == Some(*r),
    {
        self.get(key).expect("Key not found in SeqMap")
    }
}

impl<K: Eq + Hash + Clone, V> vstd::std_specs::core::IndexSpecImpl<&K> for SeqMap<K, V> {
    open spec fn index_req(&self, key: &&K) -> bool {
        self.wf() && has_key(self@, **key)
    }
}

} // verus!
