//! Lists of keys in which no key occurs twice, as rooms keep them of their
//! users and entities.

use vstd::prelude::*;

verus! {

/// The list without `key`.
pub open spec fn without(list: Seq<u64>, key: u64) -> Seq<u64>
    decreases list.len(),
{
    if list.len() == 0 {
        Seq::empty()
    } else {
        let front = without(list.drop_last(), key);
        if list.last() == key {
            front
        } else {
            front.push(list.last())
        }
    }
}

/// The list with `key`, added at the end unless it is there already.
pub open spec fn with(list: Seq<u64>, key: u64) -> Seq<u64> {
    if list.contains(key) {
        list
    } else {
        list.push(key)
    }
}

/// Removing a key removes it alone.
pub proof fn lemma_without(list: Seq<u64>, key: u64)
    ensures
        !without(list, key).contains(key),
        forall|k: u64| k != key ==> (without(list, key).contains(k) <==> list.contains(k)),
        without(list, key).len() <= list.len(),
    decreases list.len(),
{
    if list.len() > 0 {
        let front = list.drop_last();
        lemma_without(front, key);
        let out = without(list, key);
        let fo = without(front, key);
        assert forall|k: u64| out.contains(k) <==> (k != key && list.contains(k)) by {
            if out.contains(k) {
                let i = choose|i: int| 0 <= i < out.len() && out[i] == k;
                if i < fo.len() {
                    assert(fo[i] == k);
                    assert(fo.contains(k));
                    assert(k != key);
                    assert(front.contains(k));
                    let j = choose|j: int| 0 <= j < front.len() && front[j] == k;
                    assert(list[j] == k);
                } else {
                    assert(list[list.len() - 1] == k);
                }
            }
            if k != key && list.contains(k) {
                let j = choose|j: int| 0 <= j < list.len() && list[j] == k;
                if j < front.len() {
                    assert(front[j] == k);
                    assert(front.contains(k));
                    assert(fo.contains(k));
                    let i = choose|i: int| 0 <= i < fo.len() && fo[i] == k;
                    assert(out[i] == k);
                } else {
                    assert(out[out.len() - 1] == k);
                }
            }
        }
    }
}

/// Whether the list holds `key`.
pub fn list_contains(list: &Vec<u64>, key: u64) -> (b: bool)
    ensures
        b == list@.contains(key),
{
    let mut i: usize = 0;
    while i < list.len()
        invariant
            i <= list@.len(),
            forall|j: int| 0 <= j < i ==> list@[j] != key,
        decreases list@.len() - i,
    {
        if list[i] == key {
            return true;
        }
        i += 1;
    }
    false
}

/// Adds `key` unless the list holds it.
pub fn list_insert(list: &mut Vec<u64>, key: u64)
    ensures
        final(list)@ == with(old(list)@, key),
{
    if !list_contains(list, key) {
        list.push(key);
    }
}

/// Removes `key` from the list.
pub fn list_remove(list: &mut Vec<u64>, key: u64)
    ensures
        final(list)@ == without(old(list)@, key),
{
    let mut kept: Vec<u64> = Vec::new();
    let mut i: usize = 0;
    assert(list@.subrange(0, 0) =~= Seq::empty());
    while i < list.len()
        invariant
            i <= list@.len(),
            list@ == old(list)@,
            kept@ == without(list@.subrange(0, i as int), key),
        decreases list@.len() - i,
    {
        proof {
            let part = list@.subrange(0, i + 1);
            assert(part.drop_last() =~= list@.subrange(0, i as int));
            assert(part.last() == list@[i as int]);
        }
        if list[i] != key {
            kept.push(list[i]);
        }
        i += 1;
    }
    assert(list@.subrange(0, i as int) =~= list@);
    *list = kept;
}

} // verus!
