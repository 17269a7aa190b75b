//! A small insertion-ordered map from integer keys to values, used for the
//! engine's key tables. Walking it is deterministic: entries come out in the
//! order in which their keys were first inserted.

use vstd::prelude::*;

verus! {

/// One key with its value.
pub struct Entry<V> {
    pub key: u32,
    pub value: V,
}

/// An insertion-ordered map keyed by `u32`.
pub struct Table<V> {
    entries: Vec<Entry<V>>,
}

/// The first position at which `key` occurs in `keys`, or `keys.len()`.
pub open spec fn position_of(keys: Seq<u32>, key: u32) -> int
    decreases keys.len(),
{
    if keys.len() == 0 {
        0
    } else if keys[0] == key {
        0
    } else {
        1 + position_of(keys.drop_first(), key)
    }
}

pub proof fn lemma_position_of(keys: Seq<u32>, key: u32)
    ensures
        0 <= position_of(keys, key) <= keys.len(),
        position_of(keys, key) < keys.len() ==> keys[position_of(keys, key)] == key,
        forall|i: int| 0 <= i < position_of(keys, key) ==> keys[i] != key,
        keys.contains(key) <==> position_of(keys, key) < keys.len(),
    decreases keys.len(),
{
    if keys.len() == 0 {
    } else if keys[0] == key {
    } else {
        let rest = keys.drop_first();
        lemma_position_of(rest, key);
        let p = position_of(rest, key);
        assert forall|i: int| 0 <= i < 1 + p implies keys[i] != key by {
            if i > 0 {
                assert(keys[i] == rest[i - 1]);
            }
        }
        if keys.contains(key) {
            let j = choose|j: int| 0 <= j < keys.len() && keys[j] == key;
            assert(rest[j - 1] == key);
        }
        if p < rest.len() {
            assert(keys[1 + p] == rest[p]);
        }
    }
}

/// Where keys do not repeat, a key's position is the index that holds it.
pub proof fn lemma_position_unique(keys: Seq<u32>, i: int)
    requires
        keys.no_duplicates(),
        0 <= i < keys.len(),
    ensures
        position_of(keys, keys[i]) == i,
{
    lemma_position_of(keys, keys[i]);
}

/// The map that a list of distinct keys and the list of their values stand
/// for.
pub open spec fn map_of<V>(keys: Seq<u32>, values: Seq<V>) -> Map<u32, V> {
    Map::new(|k: u32| keys.contains(k), |k: u32| values[position_of(keys, k)])
}

/// A new key at the end adds one pair to the map.
pub proof fn lemma_push_view<V>(keys: Seq<u32>, values: Seq<V>, key: u32, value: V)
    requires
        keys.len() == values.len(),
        !keys.contains(key),
    ensures
        map_of(keys.push(key), values.push(value)) == map_of(keys, values).insert(key, value),
        keys.no_duplicates() ==> keys.push(key).no_duplicates(),
{
    let k2 = keys.push(key);
    let v2 = values.push(value);
    assert forall|q: u32| k2.contains(q) <==> (q == key || keys.contains(q)) by {
        if keys.contains(q) {
            let j = choose|j: int| 0 <= j < keys.len() && keys[j] == q;
            assert(k2[j] == q);
        }
        if q == key {
            assert(k2[keys.len() as int] == key);
        }
    }
    assert forall|q: u32| k2.contains(q) implies #[trigger] map_of(k2, v2)[q] == map_of(
        keys,
        values,
    ).insert(key, value)[q] by {
        lemma_position_of(k2, q);
        lemma_position_of(keys, q);
        let p = position_of(k2, q);
        if q != key {
            let p1 = position_of(keys, q);
            assert(k2[p1] == q);
            if p < p1 {
                assert(keys[p] == k2[p]);
            }
        } else {
            if p < keys.len() {
                assert(keys[p] == k2[p]);
            }
        }
    }
    assert(map_of(k2, v2) =~= map_of(keys, values).insert(key, value));
}

/// Writing a new value at a key's index changes that key's pair alone.
pub proof fn lemma_update_view<V>(keys: Seq<u32>, values: Seq<V>, i: int, value: V)
    requires
        keys.len() == values.len(),
        keys.no_duplicates(),
        0 <= i < keys.len(),
    ensures
        map_of(keys, values.update(i, value)) == map_of(keys, values).insert(keys[i], value),
{
    let v2 = values.update(i, value);
    lemma_position_unique(keys, i);
    assert forall|q: u32| keys.contains(q) implies #[trigger] map_of(keys, v2)[q] == map_of(
        keys,
        values,
    ).insert(keys[i], value)[q] by {
        lemma_position_of(keys, q);
    }
    assert(map_of(keys, v2) =~= map_of(keys, values).insert(keys[i], value));
}

/// Taking out the entry at an index removes that key's pair alone.
pub proof fn lemma_remove_view<V>(keys: Seq<u32>, values: Seq<V>, i: int)
    requires
        keys.len() == values.len(),
        keys.no_duplicates(),
        0 <= i < keys.len(),
    ensures
        map_of(keys.remove(i), values.remove(i)) == map_of(keys, values).remove(keys[i]),
        keys.remove(i).no_duplicates(),
        !keys.remove(i).contains(keys[i]),
{
    let k2 = keys.remove(i);
    let v2 = values.remove(i);
    assert forall|a: int, b: int| 0 <= a < k2.len() && 0 <= b < k2.len() && a != b implies k2[a]
        != k2[b] by {
        let a1 = if a < i { a } else { a + 1 };
        let b1 = if b < i { b } else { b + 1 };
        assert(k2[a] == keys[a1] && k2[b] == keys[b1]);
    }
    assert forall|q: u32| k2.contains(q) <==> (q != keys[i] && keys.contains(q)) by {
        if k2.contains(q) {
            let j = choose|j: int| 0 <= j < k2.len() && k2[j] == q;
            let j1 = if j < i { j } else { j + 1 };
            assert(keys[j1] == q);
        }
        if q != keys[i] && keys.contains(q) {
            let j = choose|j: int| 0 <= j < keys.len() && keys[j] == q;
            let j2 = if j < i { j } else { j - 1 };
            assert(k2[j2] == q);
        }
    }
    assert forall|q: u32| k2.contains(q) implies #[trigger] map_of(k2, v2)[q] == map_of(
        keys,
        values,
    ).remove(keys[i])[q] by {
        lemma_position_of(k2, q);
        lemma_position_of(keys, q);
        let p2 = position_of(k2, q);
        let p2up = if p2 < i { p2 } else { p2 + 1 };
        assert(keys[p2up] == q);
        lemma_position_unique(keys, p2up);
    }
    assert(map_of(k2, v2) =~= map_of(keys, values).remove(keys[i]));
}

impl<V> Table<V> {
    /// The keys in insertion order.
    pub closed spec fn keys(&self) -> Seq<u32> {
        Seq::new(self.entries@.len(), |i: int| self.entries@[i].key)
    }

    /// The values, each at the index of its key in `keys`.
    pub closed spec fn values(&self) -> Seq<V> {
        Seq::new(self.entries@.len(), |i: int| self.entries@[i].value)
    }

    /// No key occurs twice.
    pub open spec fn wf(&self) -> bool {
        &&& self.keys().no_duplicates()
        &&& self.keys().len() == self.values().len()
    }

    /// The table as a map.
    pub open spec fn view(&self) -> Map<u32, V> {
        map_of(self.keys(), self.values())
    }

    pub proof fn lemma_lengths(&self)
        ensures
            self.keys().len() == self.values().len(),
    {
    }

    /// The entry at index `i` is what the map holds for the key there.
    pub proof fn lemma_entry_at(&self, i: int)
        requires
            self.wf(),
            0 <= i < self.keys().len(),
        ensures
            self@.contains_key(self.keys()[i]),
            self@[self.keys()[i]] == self.values()[i],
    {
        lemma_position_unique(self.keys(), i);
    }

    /// The map's domain is finite and as large as the list of keys.
    pub proof fn lemma_dom_len(&self)
        requires
            self.wf(),
        ensures
            self@.dom().finite(),
            self@.dom().len() == self.keys().len(),
    {
        self.keys().unique_seq_to_set();
        assert(self@.dom() =~= self.keys().to_set());
    }

    pub fn new() -> (t: Self)
        ensures
            t.wf(),
            t.keys() == Seq::<u32>::empty(),
            t.values() == Seq::<V>::empty(),
            t@ == Map::<u32, V>::empty(),
    {
        let t = Table { entries: Vec::new() };
        assert(t.keys() =~= Seq::<u32>::empty());
        assert(t.values() =~= Seq::<V>::empty());
        assert(t@ =~= Map::<u32, V>::empty());
        t
    }

    pub fn len(&self) -> (n: usize)
        ensures
            n == self.keys().len(),
    {
        self.entries.len()
    }

    pub fn is_empty(&self) -> (b: bool)
        ensures
            b == (self.keys().len() == 0),
    {
        self.entries.len() == 0
    }

    /// The index of `key` in insertion order, if the table holds it.
    pub fn find(&self, key: u32) -> (r: Option<usize>)
        ensures
            match r {
                Some(i) => i < self.keys().len() && self.keys()[i as int] == key && i
                    == position_of(self.keys(), key),
                None => !self.keys().contains(key),
            },
    {
        let mut i: usize = 0;
        while i < self.entries.len()
            invariant
                i <= self.entries.len(),
                forall|j: int| 0 <= j < i ==> self.keys()[j] != key,
            decreases self.entries.len() - i,
        {
            if self.entries[i].key == key {
                proof {
                    lemma_position_of(self.keys(), key);
                    assert(self.keys()[i as int] == key);
                    let p = position_of(self.keys(), key);
                    if p < i {
                        assert(self.keys()[p] != key);
                    }
                }
                return Some(i);
            }
            i += 1;
        }
        None
    }

    pub fn contains_key(&self, key: u32) -> (b: bool)
        ensures
            b == self@.contains_key(key),
            b == self.keys().contains(key),
    {
        self.find(key).is_some()
    }

    pub fn get(&self, key: u32) -> (r: Option<&V>)
        ensures
            match r {
                Some(v) => self@.contains_key(key) && *v == self@[key],
                None => !self@.contains_key(key),
            },
    {
        match self.find(key) {
            Some(i) => Some(&self.entries[i].value),
            None => None,
        }
    }

    /// The key at index `i` in insertion order.
    pub fn key_at(&self, i: usize) -> (k: u32)
        requires
            i < self.keys().len(),
        ensures
            k == self.keys()[i as int],
    {
        self.entries[i].key
    }

    /// The value at index `i` in insertion order.
    pub fn value_at(&self, i: usize) -> (v: &V)
        requires
            i < self.keys().len(),
        ensures
            *v == self.values()[i as int],
    {
        &self.entries[i].value
    }

    /// Sets the value of `key`. A new key goes to the end; a key that is
    /// already there keeps its place and hands back its old value.
    pub fn insert(&mut self, key: u32, value: V) -> (prev: Option<V>)
        requires
            old(self).wf(),
        ensures
            final(self).wf(),
            final(self)@ == old(self)@.insert(key, value),
            match prev {
                Some(p) => old(self)@.contains_key(key) && p == old(self)@[key] && final(self).keys() == old(self).keys() && final(self).values() == old(self).values().update(
                    position_of(old(self).keys(), key),
                    value,
                ),
                None => !old(self)@.contains_key(key) && final(self).keys() == old(self).keys().push(key) && final(self).values() == old(self).values().push(value),
            },
    {
        match self.find(key) {
            Some(i) => {
                let mut e = Entry { key, value };
                std::mem::swap(&mut self.entries[i], &mut e);
                proof {
                    assert(self.keys() =~= old(self).keys());
                    assert(self.values() =~= old(self).values().update(i as int, value));
                    lemma_update_view(old(self).keys(), old(self).values(), i as int, value);
                }
                Some(e.value)
            },
            None => {
                self.entries.push(Entry { key, value });
                proof {
                    assert(self.keys() =~= old(self).keys().push(key));
                    assert(self.values() =~= old(self).values().push(value));
                    lemma_push_view(old(self).keys(), old(self).values(), key, value);
                }
                None
            },
        }
    }

    /// Takes `key` out, closing the gap; later entries keep their order.
    pub fn remove(&mut self, key: u32) -> (prev: Option<V>)
        requires
            old(self).wf(),
        ensures
            final(self).wf(),
            final(self)@ == old(self)@.remove(key),
            match prev {
                Some(p) => old(self)@.contains_key(key) && p == old(self)@[key] && final(self).keys() == old(self).keys().remove(position_of(old(self).keys(), key))
                    && final(self).values() == old(self).values().remove(
                    position_of(old(self).keys(), key),
                ),
                None => !old(self)@.contains_key(key) && final(self).keys() == old(self).keys()
                    && final(self).values() == old(self).values(),
            },
    {
        match self.find(key) {
            Some(i) => {
                let e = self.entries.remove(i);
                proof {
                    assert(self.keys() =~= old(self).keys().remove(i as int));
                    assert(self.values() =~= old(self).values().remove(i as int));
                    lemma_remove_view(old(self).keys(), old(self).values(), i as int);
                }
                Some(e.value)
            },
            None => {
                assert(self@ =~= old(self)@.remove(key));
                None
            },
        }
    }
}

} // verus!
