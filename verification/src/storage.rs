//! Keyed storage maps of the ledger.
//!
//! A `StorageMap` is a finite map held as a list of entries with pairwise
//! distinct keys. Its view is the mathematical map from keys to values; every
//! operation is specified over that view alone.

use vstd::prelude::*;
use crate::account::AccountId;

verus! {

/// Keys of a storage map: values that can be compared for equality at run time,
/// with a comparison that agrees with mathematical equality.
pub trait StorageKey: Sized {
    fn key_eq(&self, other: &Self) -> (same: bool)
        ensures
            same == (*self == *other),
    ;
}

impl StorageKey for u16 {
    fn key_eq(&self, other: &Self) -> (same: bool) {
        *self == *other
    }
}

impl StorageKey for AccountId {
    fn key_eq(&self, other: &Self) -> (same: bool) {
        self.hi == other.hi && self.lo == other.lo
    }
}

impl<A: StorageKey, B: StorageKey> StorageKey for (A, B) {
    fn key_eq(&self, other: &Self) -> (same: bool) {
        self.0.key_eq(&other.0) && self.1.key_eq(&other.1)
    }
}

impl<A: StorageKey, B: StorageKey, C: StorageKey> StorageKey for (A, B, C) {
    fn key_eq(&self, other: &Self) -> (same: bool) {
        self.0.key_eq(&other.0) && self.1.key_eq(&other.1) && self.2.key_eq(&other.2)
    }
}

/// Whether no key occurs in two entries of `entries`.
pub open spec fn distinct_keys<K, V>(entries: Seq<(K, V)>) -> bool {
    forall|i: int, j: int|
        0 <= i < entries.len() && 0 <= j < entries.len() && i != j ==> entries[i].0 != entries[j].0
}

/// Whether some entry of `entries` has the key `k`.
pub open spec fn has_key<K, V>(entries: Seq<(K, V)>, k: K) -> bool {
    exists|i: int| 0 <= i < entries.len() && #[trigger] entries[i].0 == k
}

/// The position of an entry with key `k`, where there is one.
pub open spec fn index_of_key<K, V>(entries: Seq<(K, V)>, k: K) -> int {
    choose|i: int| 0 <= i < entries.len() && #[trigger] entries[i].0 == k
}

/// The map that a list of entries stands for.
pub open spec fn entries_map<K, V>(entries: Seq<(K, V)>) -> Map<K, V> {
    Map::new(|k: K| has_key(entries, k), |k: K| entries[index_of_key(entries, k)].1)
}

/// The value that `m` holds for `k`, or `default` where it holds none.
pub open spec fn value_or<K, V>(m: Map<K, V>, k: K, default: V) -> V {
    if m.contains_key(k) {
        m[k]
    } else {
        default
    }
}

/// Every entry of a list with distinct keys is found in its map.
pub proof fn lemma_entry_in_map<K, V>(entries: Seq<(K, V)>, i: int)
    requires
        distinct_keys(entries),
        0 <= i < entries.len(),
    ensures
        entries_map(entries).contains_key(entries[i].0),
        entries_map(entries)[entries[i].0] == entries[i].1,
{
    let k = entries[i].0;
    assert(has_key(entries, k));
    let j = index_of_key(entries, k);
    assert(0 <= j < entries.len() && entries[j].0 == k);
    assert(i == j);
}

/// A finite map with keys of type `K` and values of type `V`.
pub struct StorageMap<K, V> {
    entries: Vec<(K, V)>,
}

impl<K, V> View for StorageMap<K, V> {
    type V = Map<K, V>;

    closed spec fn view(&self) -> Map<K, V> {
        entries_map(self.entries@)
    }
}

impl<K, V> StorageMap<K, V> {
    #[verifier::type_invariant]
    spec fn keys_are_distinct(self) -> bool {
        distinct_keys(self.entries@)
    }
}

impl<K: StorageKey + Copy, V> StorageMap<K, V> {
    /// The empty map.
    pub fn new() -> (m: Self)
        ensures
            m@ == Map::<K, V>::empty(),
    {
        let m = StorageMap { entries: Vec::new() };
        assert(m@ =~= Map::<K, V>::empty());
        m
    }

    /// The map holds finitely many keys.
    pub proof fn lemma_finite(&self)
        ensures
            self@.dom().finite(),
    {
        let entries = self.entries@;
        let keys = entries.map_values(|e: (K, V)| e.0);
        assert forall|k: K| self@.dom().contains(k) implies keys.to_set().contains(k) by {
            let i = index_of_key(entries, k);
            assert(keys[i] == k);
        }
        vstd::seq_lib::seq_to_set_is_finite(keys);
        vstd::set_lib::lemma_len_subset(self@.dom(), keys.to_set());
    }

    /// The position of the entry for `k`, if there is one.
    fn position(&self, k: &K) -> (at: Option<usize>)
        ensures
            match at {
                Some(i) => i < self.entries@.len() && self.entries@[i as int].0 == *k,
                None => !has_key(self.entries@, *k),
            },
    {
        let mut i: usize = 0;
        while i < self.entries.len()
            invariant
                i <= self.entries@.len(),
                forall|j: int| 0 <= j < i ==> self.entries@[j].0 != *k,
            decreases self.entries@.len() - i,
        {
            if self.entries[i].0.key_eq(k) {
                return Some(i);
            }
            i += 1;
        }
        None
    }

    /// Whether the map holds a value for `k`.
    pub fn contains_key(&self, k: &K) -> (found: bool)
        ensures
            found == self@.contains_key(*k),
    {
        self.position(k).is_some()
    }

    /// The value held for `k`, if there is one.
    pub fn get(&self, k: &K) -> (value: Option<&V>)
        ensures
            match value {
                Some(v) => self@.contains_key(*k) && *v == self@[*k],
                None => !self@.contains_key(*k),
            },
    {
        proof {
            use_type_invariant(self);
        }
        match self.position(k) {
            Some(i) => {
                proof {
                    lemma_entry_in_map(self.entries@, i as int);
                }
                Some(&self.entries[i].1)
            },
            None => None,
        }
    }

    /// Sets the value for `k` to `v`, whether or not one was held before.
    pub fn insert(&mut self, k: K, v: V)
        ensures
            final(self)@ == old(self)@.insert(k, v),
    {
        proof {
            use_type_invariant(&*self);
        }
        let at = self.position(&k);
        let mut entries: Vec<(K, V)> = Vec::new();
        std::mem::swap(&mut entries, &mut self.entries);
        let ghost before = entries@;
        match at {
            Some(i) => {
                entries.set(i, (k, v));
                proof {
                    lemma_update_map(before, i as int, k, v);
                }
            },
            None => {
                entries.push((k, v));
                proof {
                    lemma_push_map(before, k, v);
                }
            },
        }
        self.entries = entries;
    }

    /// Drops the value held for `k`, if there is one.
    pub fn remove(&mut self, k: &K)
        ensures
            final(self)@ == old(self)@.remove(*k),
    {
        proof {
            use_type_invariant(&*self);
        }
        let at = self.position(k);
        match at {
            Some(i) => {
                let mut entries: Vec<(K, V)> = Vec::new();
                std::mem::swap(&mut entries, &mut self.entries);
                let ghost before = entries@;
                let _ = entries.remove(i);
                proof {
                    lemma_remove_map(before, i as int);
                }
                self.entries = entries;
            },
            None => {
                assert(self@ =~= self@.remove(*k));
            },
        }
    }

    /// The keys for which the map holds a value, each once, in no stated order.
    pub fn keys(&self) -> (keys: Vec<K>)
        ensures
            keys@.no_duplicates(),
            keys@.to_set() == self@.dom(),
            keys@.len() == self@.dom().len(),
            self@.dom().finite(),
    {
        proof {
            use_type_invariant(self);
        }
        let mut keys: Vec<K> = Vec::new();
        let mut i: usize = 0;
        while i < self.entries.len()
            invariant
                i <= self.entries@.len(),
                keys@.len() == i,
                forall|j: int| 0 <= j < i ==> keys@[j] == self.entries@[j].0,
            decreases self.entries@.len() - i,
        {
            keys.push(self.entries[i].0);
            i += 1;
        }
        proof {
            let entries = self.entries@;
            assert(keys@.no_duplicates());
            assert forall|k: K| keys@.to_set().contains(k) == self@.dom().contains(k) by {
                if keys@.to_set().contains(k) {
                    let j = choose|j: int| 0 <= j < keys@.len() && keys@[j] == k;
                    assert(entries[j].0 == k);
                    assert(has_key(entries, k));
                }
                if self@.dom().contains(k) {
                    let j = index_of_key(entries, k);
                    assert(keys@[j] == k);
                }
            }
            assert(keys@.to_set() =~= self@.dom());
            keys@.unique_seq_to_set();
        }
        keys
    }
}

impl<K: StorageKey + Copy, V: Copy> StorageMap<K, V> {
    /// The value held for `k`, or `default` where none is held.
    pub fn get_or(&self, k: &K, default: V) -> (value: V)
        ensures
            value == value_or(self@, *k, default),
    {
        match self.get(k) {
            Some(v) => *v,
            None => default,
        }
    }
}

/// Replacing the entry at `i` by one with the same key updates the map at that key.
proof fn lemma_update_map<K, V>(entries: Seq<(K, V)>, i: int, k: K, v: V)
    requires
        distinct_keys(entries),
        0 <= i < entries.len(),
        entries[i].0 == k,
    ensures
        distinct_keys(entries.update(i, (k, v))),
        entries_map(entries.update(i, (k, v))) == entries_map(entries).insert(k, v),
{
    let after = entries.update(i, (k, v));
    assert(distinct_keys(after));
    assert forall|x: K| has_key(after, x) == (x == k || has_key(entries, x)) by {
        if has_key(after, x) {
            let j = index_of_key(after, x);
            assert(entries[j].0 == x);
        }
        if has_key(entries, x) {
            let j = index_of_key(entries, x);
            assert(after[j].0 == x);
        }
        if x == k {
            assert(after[i].0 == x);
        }
    }
    assert forall|x: K| has_key(after, x) implies #[trigger] entries_map(after)[x] == entries_map(
        entries,
    ).insert(k, v)[x] by {
        let j = index_of_key(after, x);
        lemma_entry_in_map(after, j);
        if x != k {
            assert(j != i);
            assert(entries[j].0 == x);
            lemma_entry_in_map(entries, j);
        }
    }
    assert(entries_map(after) =~= entries_map(entries).insert(k, v));
}

/// Appending an entry with a new key adds that key to the map.
proof fn lemma_push_map<K, V>(entries: Seq<(K, V)>, k: K, v: V)
    requires
        distinct_keys(entries),
        !has_key(entries, k),
    ensures
        distinct_keys(entries.push((k, v))),
        entries_map(entries.push((k, v))) == entries_map(entries).insert(k, v),
{
    let after = entries.push((k, v));
    assert forall|i: int, j: int|
        0 <= i < after.len() && 0 <= j < after.len() && i != j implies after[i].0 != after[j].0 by {
        if i < entries.len() {
            assert(entries[i].0 == after[i].0);
        }
        if j < entries.len() {
            assert(entries[j].0 == after[j].0);
        }
    }
    assert forall|x: K| has_key(after, x) == (x == k || has_key(entries, x)) by {
        if has_key(after, x) {
            let j = index_of_key(after, x);
            if j < entries.len() {
                assert(entries[j].0 == x);
            }
        }
        if has_key(entries, x) {
            let j = index_of_key(entries, x);
            assert(after[j].0 == x);
        }
        if x == k {
            assert(after[entries.len() as int].0 == x);
        }
    }
    assert forall|x: K| has_key(after, x) implies #[trigger] entries_map(after)[x] == entries_map(
        entries,
    ).insert(k, v)[x] by {
        let j = index_of_key(after, x);
        lemma_entry_in_map(after, j);
        if x != k {
            assert(j < entries.len());
            assert(entries[j].0 == x);
            lemma_entry_in_map(entries, j);
        }
    }
    assert(entries_map(after) =~= entries_map(entries).insert(k, v));
}

/// Taking out the entry at `i` removes its key from the map.
proof fn lemma_remove_map<K, V>(entries: Seq<(K, V)>, i: int)
    requires
        distinct_keys(entries),
        0 <= i < entries.len(),
    ensures
        distinct_keys(entries.remove(i)),
        entries_map(entries.remove(i)) == entries_map(entries).remove(entries[i].0),
{
    let after = entries.remove(i);
    let k = entries[i].0;
    assert forall|a: int, b: int|
        0 <= a < after.len() && 0 <= b < after.len() && a != b implies after[a].0 != after[b].0 by {
        let a0 = if a < i { a } else { a + 1 };
        let b0 = if b < i { b } else { b + 1 };
        assert(after[a] == entries[a0]);
        assert(after[b] == entries[b0]);
    }
    assert forall|x: K| has_key(after, x) == (x != k && has_key(entries, x)) by {
        if has_key(after, x) {
            let j = index_of_key(after, x);
            let j0 = if j < i { j } else { j + 1 };
            assert(after[j] == entries[j0]);
            assert(entries[j0].0 == x);
        }
        if x != k && has_key(entries, x) {
            let j0 = index_of_key(entries, x);
            let j = if j0 < i { j0 } else { j0 - 1 };
            assert(after[j] == entries[j0]);
            assert(after[j].0 == x);
        }
    }
    assert forall|x: K| has_key(after, x) implies #[trigger] entries_map(after)[x] == entries_map(
        entries,
    ).remove(k)[x] by {
        let j = index_of_key(after, x);
        let j0 = if j < i { j } else { j + 1 };
        assert(after[j] == entries[j0]);
        lemma_entry_in_map(after, j);
        lemma_entry_in_map(entries, j0);
    }
    assert(entries_map(after) =~= entries_map(entries).remove(k));
}

} // verus!
