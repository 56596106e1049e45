//! A map from storage keys to values that remembers the order in which its
//! keys were first inserted.
//!
//! The map is a list of pairs in which no key occurs twice. Its view is the
//! mathematical map from the views of the keys to the views of the values.

use crate::key::{Key, KeySegView};
use crate::order::insert_once;
use vstd::prelude::*;

verus! {

/// What a key stands for in contracts.
pub type KeyView = Seq<KeySegView>;

/// No key occurs twice among the pairs.
pub open spec fn keys_distinct<K, W>(pairs: Seq<(K, W)>) -> bool {
    forall|i: int, j: int| 0 <= i < j < pairs.len() ==> (#[trigger] pairs[i]).0 != (#[trigger] pairs[j]).0
}

/// Some pair has the key `key`.
pub open spec fn has_key<K, W>(pairs: Seq<(K, W)>, key: K) -> bool {
    exists|i: int| 0 <= i < pairs.len() && (#[trigger] pairs[i]).0 == key
}

/// The position of a pair with the key `key`.
pub open spec fn index_of_key<K, W>(pairs: Seq<(K, W)>, key: K) -> int {
    choose|i: int| 0 <= i < pairs.len() && (#[trigger] pairs[i]).0 == key
}

/// The map that a list of pairs stands for.
pub open spec fn map_of<K, W>(pairs: Seq<(K, W)>) -> Map<K, W> {
    Map::new(|key: K| has_key(pairs, key), |key: K| pairs[index_of_key(pairs, key)].1)
}

/// The keys of a list of pairs, in order.
pub open spec fn keys_of<K, W>(pairs: Seq<(K, W)>) -> Seq<K> {
    pairs.map_values(|pair: (K, W)| pair.0)
}

/// A key is held exactly when it is among the keys.
pub proof fn lemma_has_key_keys_of<K, W>(pairs: Seq<(K, W)>, key: K)
    ensures
        has_key(pairs, key) <==> keys_of(pairs).contains(key),
        map_of(pairs).dom().contains(key) <==> keys_of(pairs).contains(key),
{
    if has_key(pairs, key) {
        let i = index_of_key(pairs, key);
        assert(keys_of(pairs)[i] == key);
    }
    if keys_of(pairs).contains(key) {
        let i = choose|i: int| 0 <= i < keys_of(pairs).len() && keys_of(pairs)[i] == key;
        assert(pairs[i].0 == key);
    }
}

/// In a list without repeated keys, each pair is an entry of the map.
pub proof fn lemma_map_of_at<K, W>(pairs: Seq<(K, W)>, i: int)
    requires
        keys_distinct(pairs),
        0 <= i < pairs.len(),
    ensures
        has_key(pairs, pairs[i].0),
        index_of_key(pairs, pairs[i].0) == i,
        map_of(pairs).dom().contains(pairs[i].0),
        map_of(pairs)[pairs[i].0] == pairs[i].1,
{
    let j = index_of_key(pairs, pairs[i].0);
    assert(0 <= j < pairs.len() && pairs[j].0 == pairs[i].0);
    if j != i {
        if j < i {
            assert(pairs[j].0 != pairs[i].0);
        } else {
            assert(pairs[i].0 != pairs[j].0);
        }
    }
}

/// Adding a pair with a new key inserts it into the map.
pub proof fn lemma_map_of_push<K, W>(pairs: Seq<(K, W)>, key: K, value: W)
    requires
        keys_distinct(pairs),
        !has_key(pairs, key),
    ensures
        keys_distinct(pairs.push((key, value))),
        map_of(pairs.push((key, value))) == map_of(pairs).insert(key, value),
{
    let longer = pairs.push((key, value));
    assert forall|i: int, j: int| 0 <= i < j < longer.len() implies (#[trigger] longer[i]).0 != (
    #[trigger] longer[j]).0 by {
        if j < pairs.len() {
            assert(pairs[i].0 != pairs[j].0);
        } else {
            assert(longer[i] == pairs[i]);
        }
    }
    assert forall|k: K| #[trigger]
        map_of(longer).dom().contains(k) <==> map_of(pairs).insert(key, value).dom().contains(
            k,
        ) by {
        if has_key(longer, k) {
            let i = index_of_key(longer, k);
            if i < pairs.len() {
                assert(pairs[i].0 == k);
            }
        }
        if has_key(pairs, k) {
            let i = index_of_key(pairs, k);
            assert(longer[i].0 == k);
        }
        if k == key {
            assert(longer[pairs.len() as int].0 == k);
        }
    }
    assert forall|k: K| #[trigger] map_of(longer).dom().contains(k) implies map_of(longer)[k]
        == map_of(pairs).insert(key, value)[k] by {
        let i = index_of_key(longer, k);
        lemma_map_of_at(longer, i);
        if i < pairs.len() {
            assert(longer[i] == pairs[i]);
            lemma_map_of_at(pairs, i);
        }
    }
    assert(map_of(longer) =~= map_of(pairs).insert(key, value));
}

/// Replacing the value of a pair inserts the new value into the map.
pub proof fn lemma_map_of_update<K, W>(pairs: Seq<(K, W)>, i: int, value: W)
    requires
        keys_distinct(pairs),
        0 <= i < pairs.len(),
    ensures
        keys_distinct(pairs.update(i, (pairs[i].0, value))),
        map_of(pairs.update(i, (pairs[i].0, value))) == map_of(pairs).insert(pairs[i].0, value),
        keys_of(pairs.update(i, (pairs[i].0, value))) == keys_of(pairs),
{
    let key = pairs[i].0;
    let changed = pairs.update(i, (key, value));
    assert forall|a: int, b: int| 0 <= a < b < changed.len() implies (#[trigger] changed[a]).0 != (
    #[trigger] changed[b]).0 by {
        assert(changed[a].0 == pairs[a].0);
        assert(changed[b].0 == pairs[b].0);
        assert(pairs[a].0 != pairs[b].0);
    }
    assert forall|k: K| #[trigger]
        map_of(changed).dom().contains(k) <==> map_of(pairs).insert(key, value).dom().contains(
            k,
        ) by {
        if has_key(changed, k) {
            let j = index_of_key(changed, k);
            assert(pairs[j].0 == k);
        }
        if has_key(pairs, k) {
            let j = index_of_key(pairs, k);
            assert(changed[j].0 == k);
        }
        if k == key {
            assert(changed[i].0 == k);
        }
    }
    assert forall|k: K| #[trigger] map_of(changed).dom().contains(k) implies map_of(
        changed,
    )[k] == map_of(pairs).insert(key, value)[k] by {
        let j = index_of_key(changed, k);
        lemma_map_of_at(changed, j);
        if j != i {
            assert(changed[j] == pairs[j]);
            lemma_map_of_at(pairs, j);
            lemma_map_of_at(pairs, i);
        }
    }
    assert(map_of(changed) =~= map_of(pairs).insert(key, value));
    assert(keys_of(changed) =~= keys_of(pairs));
}

/// Taking a pair out removes its key from the map.
pub proof fn lemma_map_of_remove<K, W>(pairs: Seq<(K, W)>, i: int)
    requires
        keys_distinct(pairs),
        0 <= i < pairs.len(),
    ensures
        keys_distinct(pairs.remove(i)),
        map_of(pairs.remove(i)) == map_of(pairs).remove(pairs[i].0),
{
    let key = pairs[i].0;
    let shorter = pairs.remove(i);
    assert forall|a: int, b: int| 0 <= a < b < shorter.len() implies (#[trigger] shorter[a]).0 != (
    #[trigger] shorter[b]).0 by {
        let a0 = if a < i { a } else { a + 1 };
        let b0 = if b < i { b } else { b + 1 };
        assert(shorter[a] == pairs[a0]);
        assert(shorter[b] == pairs[b0]);
        assert(pairs[a0].0 != pairs[b0].0);
    }
    assert forall|k: K| #[trigger]
        map_of(shorter).dom().contains(k) <==> map_of(pairs).remove(key).dom().contains(k) by {
        if has_key(shorter, k) {
            let j = index_of_key(shorter, k);
            let j0 = if j < i { j } else { j + 1 };
            assert(shorter[j] == pairs[j0]);
            assert(pairs[j0].0 == k);
            lemma_map_of_at(pairs, j0);
            lemma_map_of_at(pairs, i);
        }
        if has_key(pairs, k) && k != key {
            let j = index_of_key(pairs, k);
            let j1 = if j < i { j } else { j - 1 };
            assert(shorter[j1] == pairs[j]);
            assert(shorter[j1].0 == k);
        }
    }
    assert forall|k: K| #[trigger] map_of(shorter).dom().contains(k) implies map_of(
        shorter,
    )[k] == map_of(pairs).remove(key)[k] by {
        let j = index_of_key(shorter, k);
        let j0 = if j < i { j } else { j + 1 };
        lemma_map_of_at(shorter, j);
        assert(shorter[j] == pairs[j0]);
        lemma_map_of_at(pairs, j0);
    }
    assert(map_of(shorter) =~= map_of(pairs).remove(key));
}

/// The empty list stands for the empty map.
pub proof fn lemma_map_of_empty<K, W>()
    ensures
        keys_distinct(Seq::<(K, W)>::empty()),
        map_of(Seq::<(K, W)>::empty()) == Map::<K, W>::empty(),
{
    assert(map_of(Seq::<(K, W)>::empty()) =~= Map::<K, W>::empty());
}

/// A map from keys to values, in insertion order.
#[derive(Debug)]
pub struct KeyMap<V> {
    pub entries: Vec<(Key, V)>,
}

impl<V: View> KeyMap<V> {
    /// The pairs of the map as they stand in contracts, in insertion order.
    pub open spec fn pairs(&self) -> Seq<(KeyView, V::V)> {
        self.entries@.map_values(|entry: (Key, V)| (entry.0@, entry.1@))
    }

    /// No key is held twice.
    pub open spec fn wf(&self) -> bool {
        keys_distinct(self.pairs())
    }

    /// The keys in insertion order.
    pub open spec fn keys(&self) -> Seq<KeyView> {
        keys_of(self.pairs())
    }

    /// The mathematical map that this map stands for.
    pub open spec fn map(&self) -> Map<KeyView, V::V> {
        map_of(self.pairs())
    }

    /// The empty map.
    pub fn new() -> (map: KeyMap<V>)
        ensures
            map.wf(),
            map.pairs() == Seq::<(KeyView, V::V)>::empty(),
            map.map() == Map::<KeyView, V::V>::empty(),
    {
        let map = KeyMap { entries: Vec::new() };
        proof {
            lemma_map_of_empty::<KeyView, V::V>();
            assert(map.pairs() =~= Seq::<(KeyView, V::V)>::empty());
        }
        map
    }

    /// The number of keys.
    pub fn len(&self) -> (n: usize)
        ensures
            n == self.pairs().len(),
    {
        self.entries.len()
    }

    /// Where `key` stands in the list, if the map holds it.
    pub fn position(&self, key: &Key) -> (found: Option<usize>)
        ensures
            match found {
                Some(i) => i < self.pairs().len() && self.pairs()[i as int].0 == key@,
                None => !has_key(self.pairs(), key@),
            },
    {
        let mut i: usize = 0;
        while i < self.entries.len()
            invariant
                i <= self.entries.len(),
                forall|j: int| 0 <= j < i ==> (#[trigger] self.pairs()[j]).0 != key@,
            decreases self.entries.len() - i,
        {
            if self.entries[i].0.same(key) {
                return Some(i);
            }
            i += 1;
        }
        None
    }

    /// The value stored under `key`, if any.
    pub fn get(&self, key: &Key) -> (value: Option<&V>)
        requires
            self.wf(),
        ensures
            match value {
                Some(v) => self.map().dom().contains(key@) && self.map()[key@] == v@,
                None => !self.map().dom().contains(key@),
            },
    {
        match self.position(key) {
            Some(i) => {
                proof {
                    lemma_map_of_at(self.pairs(), i as int);
                }
                Some(&self.entries[i].1)
            },
            None => None,
        }
    }

    /// Whether the map holds `key`.
    pub fn contains_key(&self, key: &Key) -> (found: bool)
        ensures
            found == self.map().dom().contains(key@),
    {
        self.position(key).is_some()
    }

    /// Store `value` under `key`. A key that the map already holds keeps its
    /// place in the order; a new key goes to the end.
    pub fn insert(&mut self, key: Key, value: V)
        requires
            old(self).wf(),
        ensures
            final(self).wf(),
            final(self).map() == old(self).map().insert(key@, value@),
            final(self).keys() == insert_once(old(self).keys(), key@),
            has_key(old(self).pairs(), key@) ==> keys_of(final(self).pairs()) == keys_of(
                old(self).pairs(),
            ),
            !has_key(old(self).pairs(), key@) ==> final(self).pairs() == old(self).pairs().push(
                (key@, value@),
            ),
    {
        let ghost before = self.pairs();
        proof {
            lemma_has_key_keys_of(before, key@);
        }
        match self.position(&key) {
            Some(i) => {
                self.entries.set(i, (key, value));
                proof {
                    lemma_map_of_update(before, i as int, value@);
                    assert(self.pairs() =~= before.update(i as int, (before[i as int].0, value@)));
                }
            },
            None => {
                self.entries.push((key, value));
                proof {
                    lemma_map_of_push(before, key@, value@);
                    assert(self.pairs() =~= before.push((key@, value@)));
                    assert(keys_of(before.push((key@, value@))) =~= keys_of(before).push(key@));
                }
            },
        }
    }

    /// Take `key` out of the map.
    pub fn remove(&mut self, key: &Key)
        requires
            old(self).wf(),
        ensures
            final(self).wf(),
            final(self).map() == old(self).map().remove(key@),
    {
        let ghost before = self.pairs();
        match self.position(key) {
            Some(i) => {
                self.entries.remove(i);
                proof {
                    lemma_map_of_remove(before, i as int);
                    assert(self.pairs() =~= before.remove(i as int));
                }
            },
            None => {
                proof {
                    assert(self.map() =~= self.map().remove(key@));
                }
            },
        }
    }

    /// Take every key out of the map.
    pub fn clear(&mut self)
        ensures
            final(self).wf(),
            final(self).pairs() == Seq::<(KeyView, V::V)>::empty(),
            final(self).map() == Map::<KeyView, V::V>::empty(),
    {
        self.entries.clear();
        proof {
            lemma_map_of_empty::<KeyView, V::V>();
            assert(self.pairs() =~= Seq::<(KeyView, V::V)>::empty());
        }
    }
}

} // verus!
