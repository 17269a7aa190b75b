//! A fixed-capacity ring of entries keyed by wrapping 16-bit sequence
//! numbers. An entry lives in the slot `sequence % capacity`; writing ahead
//! of the newest sequence clears the slots that the write skips over.

use crate::sequence::{advance, greater_than, less_than, sequence_greater_than, sequence_less_than};
use vstd::prelude::*;

verus! {

/// The slot of a ring of `capacity` slots in which `sequence` lives.
pub open spec fn slot_of(sequence: u16, capacity: int) -> int {
    sequence as int % capacity
}

/// The slots after those of `count` consecutive sequence numbers, the first
/// of them `start`, have been emptied.
pub open spec fn clear_run<T>(slots: Seq<Option<(u16, T)>>, start: u16, count: nat) -> Seq<
    Option<(u16, T)>,
>
    decreases count,
{
    if count == 0 {
        slots
    } else {
        clear_run(
            slots.update(slot_of(start, slots.len() as int), None),
            advance(start, 1),
            (count - 1) as nat,
        )
    }
}

/// The number of steps from `from` forward to `to`, in `0..65536`.
pub open spec fn forward_gap(from: u16, to: u16) -> int {
    if to >= from {
        to - from
    } else {
        to + 65536 - from
    }
}

/// A sequence number is too old for a ring whose next sequence is `next`
/// when it lies before the `capacity` numbers that end just before `next`.
pub open spec fn too_old(next: u16, capacity: int, sequence: u16) -> bool {
    less_than(sequence, advance(next, -capacity))
}

/// The slots once the ring has made room for `sequence`: unchanged unless
/// the number is newer than every one written so far, else with the skipped
/// slots emptied (all of them where the skip is as long as the ring).
pub open spec fn slots_advanced<T>(slots: Seq<Option<(u16, T)>>, next: u16, sequence: u16) -> Seq<
    Option<(u16, T)>,
> {
    if greater_than(advance(sequence, 1), next) {
        let gap = forward_gap(next, sequence);
        if gap < slots.len() {
            clear_run(slots, next, (gap + 1) as nat)
        } else {
            Seq::new(slots.len(), |i: int| None)
        }
    } else {
        slots
    }
}

/// The number after the newest one once `sequence` has been written.
pub open spec fn next_advanced(next: u16, sequence: u16) -> u16 {
    if greater_than(advance(sequence, 1), next) {
        advance(sequence, 1)
    } else {
        next
    }
}

/// `slot` is the slot of one of `count` consecutive sequence numbers, the
/// first of them `start`.
pub open spec fn in_run(start: u16, count: int, capacity: int, slot: int) -> bool {
    exists|j: int| 0 <= j < count && #[trigger] slot_of(advance(start, j), capacity) == slot
}

/// Writing `sequence` into a ring whose next number is `next` evicts the
/// entry of `key`: the two share a slot, or the write moves the ring forward
/// over the slot of `key`.
pub open spec fn evicts(next: u16, capacity: int, sequence: u16, key: u16) -> bool {
    ||| slot_of(key, capacity) == slot_of(sequence, capacity)
    ||| (greater_than(advance(sequence, 1), next) && (forward_gap(next, sequence) >= capacity
        || in_run(next, forward_gap(next, sequence) + 1, capacity, slot_of(key, capacity))))
}

/// The entries of a ring after `data` has been written under `sequence`.
pub open spec fn map_inserted<T>(
    entries: Map<u16, T>,
    next: u16,
    capacity: int,
    sequence: u16,
    data: T,
) -> Map<u16, T> {
    if too_old(next, capacity, sequence) {
        entries
    } else {
        entries.remove_keys(Set::new(|k: u16| evicts(next, capacity, sequence, k))).insert(
            sequence,
            data,
        )
    }
}

/// A cleared run empties exactly the slots of its sequence numbers.
#[verifier::rlimit(60)]
#[verifier::spinoff_prover]
pub proof fn lemma_clear_run<T>(slots: Seq<Option<(u16, T)>>, start: u16, count: nat)
    requires
        slots.len() > 0,
    ensures
        clear_run(slots, start, count).len() == slots.len(),
        forall|i: int|
            0 <= i < slots.len() ==> #[trigger] clear_run(slots, start, count)[i] == if in_run(
                start,
                count as int,
                slots.len() as int,
                i,
            ) {
                Option::<(u16, T)>::None
            } else {
                slots[i]
            },
    decreases count,
{
    let cap = slots.len() as int;
    if count > 0 {
        let first = slots.update(slot_of(start, cap), None);
        let next = advance(start, 1);
        lemma_clear_run(first, next, (count - 1) as nat);
        let done = clear_run(first, next, (count - 1) as nat);
        assert forall|i: int| 0 <= i < slots.len() implies #[trigger] clear_run(
            slots,
            start,
            count,
        )[i] == if in_run(start, count as int, cap, i) {
            Option::<(u16, T)>::None
        } else {
            slots[i]
        } by {
            assert(advance(start, 0) == start);
            if in_run(next, count - 1, cap, i) {
                let j = choose|j: int|
                    0 <= j < count - 1 && #[trigger] slot_of(advance(next, j), cap) == i;
                assert(advance(next, j) == advance(start, j + 1));
                assert(slot_of(advance(start, j + 1), cap) == i);
            } else if slot_of(start, cap) == i {
                assert(slot_of(advance(start, 0), cap) == i);
            } else {
                if in_run(start, count as int, cap, i) {
                    let j = choose|j: int|
                        0 <= j < count && #[trigger] slot_of(advance(start, j), cap) == i;
                    assert(j != 0);
                    assert(advance(next, j - 1) == advance(start, j));
                    assert(slot_of(advance(next, j - 1), cap) == i);
                }
            }
        }
    } else {
        assert forall|i: int| 0 <= i < slots.len() implies !in_run(start, 0, cap, i) by {}
    }
}

/// A ring of values keyed by sequence number.
pub struct SequenceBuffer<T> {
    sequence_num: u16,
    slots: Vec<Option<(u16, T)>>,
}

impl<T> SequenceBuffer<T> {
    /// The slots: slot `i` is empty or holds a sequence number with its
    /// value.
    pub closed spec fn slots(&self) -> Seq<Option<(u16, T)>> {
        self.slots@
    }

    /// One past the newest sequence number written so far.
    pub closed spec fn next(&self) -> u16 {
        self.sequence_num
    }

    pub open spec fn capacity(&self) -> int {
        self.slots().len() as int
    }

    /// Each entry sits in the slot of its sequence number.
    pub open spec fn wf(&self) -> bool {
        &&& 0 < self.capacity() <= 65535
        &&& forall|i: int|
            0 <= i < self.capacity() ==> (#[trigger] self.slots()[i] matches Some(e) ==> slot_of(
                e.0,
                self.capacity(),
            ) == i)
    }

    /// The ring holds an entry for `sequence`.
    pub open spec fn has(&self, sequence: u16) -> bool {
        self.slots()[slot_of(sequence, self.capacity())] matches Some(e) && e.0 == sequence
    }

    /// The value stored for `sequence`.
    pub open spec fn value(&self, sequence: u16) -> T {
        match self.slots()[slot_of(sequence, self.capacity())] {
            Some(e) => e.1,
            None => arbitrary(),
        }
    }

    /// The entries as a map from sequence number to value.
    pub open spec fn view(&self) -> Map<u16, T> {
        Map::new(|k: u16| self.has(k), |k: u16| self.value(k))
    }

    /// An empty ring of `size` slots.
    pub fn with_capacity(size: u16) -> (b: Self)
        requires
            size > 0,
        ensures
            b.wf(),
            b.capacity() == size,
            b.next() == 0,
            b.slots() == Seq::new(size as nat, |i: int| Option::<(u16, T)>::None),
            b@ == Map::<u16, T>::empty(),
    {
        let mut slots: Vec<Option<(u16, T)>> = Vec::new();
        let mut i: u16 = 0;
        while i < size
            invariant
                i <= size,
                slots@.len() == i,
                forall|j: int| 0 <= j < i ==> slots@[j] == Option::<(u16, T)>::None,
            decreases size - i,
        {
            slots.push(None);
            i += 1;
        }
        let b = SequenceBuffer { sequence_num: 0, slots };
        assert(b.slots() =~= Seq::new(size as nat, |i: int| Option::<(u16, T)>::None));
        assert(b@ =~= Map::<u16, T>::empty());
        b
    }

    /// One past the newest sequence number written so far.
    pub fn sequence_num(&self) -> (n: u16)
        ensures
            n == self.next(),
    {
        self.sequence_num
    }

    fn index(&self, sequence: u16) -> (i: usize)
        requires
            self.wf(),
        ensures
            i == slot_of(sequence, self.capacity()),
            i < self.capacity(),
    {
        (sequence as usize) % self.slots.len()
    }

    pub fn contains(&self, sequence: u16) -> (b: bool)
        requires
            self.wf(),
        ensures
            b == self.has(sequence),
            b == self@.contains_key(sequence),
    {
        let index = self.index(sequence);
        match &self.slots[index] {
            Some(e) => e.0 == sequence,
            None => false,
        }
    }

    pub fn get(&self, sequence: u16) -> (r: Option<&T>)
        requires
            self.wf(),
        ensures
            match r {
                Some(v) => self.has(sequence) && *v == self.value(sequence),
                None => !self.has(sequence),
            },
    {
        let index = self.index(sequence);
        match &self.slots[index] {
            Some(e) => {
                if e.0 == sequence {
                    Some(&e.1)
                } else {
                    None
                }
            },
            None => None,
        }
    }

    /// Takes the entry for `sequence` out of the ring.
    pub fn remove(&mut self, sequence: u16) -> (r: Option<T>)
        requires
            old(self).wf(),
        ensures
            final(self).wf(),
            final(self).next() == old(self).next(),
            match r {
                Some(v) => old(self).has(sequence) && v == old(self).value(sequence) && final(self).slots()
                    == old(self).slots().update(slot_of(sequence, old(self).capacity()), None),
                None => !old(self).has(sequence) && final(self).slots() == old(self).slots(),
            },
            final(self)@ == old(self)@.remove(sequence),
    {
        if self.contains(sequence) {
            let index = self.index(sequence);
            let mut taken: Option<(u16, T)> = None;
            std::mem::swap(&mut self.slots[index], &mut taken);
            proof {
                assert(self.slots() =~= old(self).slots().update(index as int, None));
                assert(self@ =~= old(self)@.remove(sequence));
            }
            match taken {
                Some(e) => Some(e.1),
                None => None,
            }
        } else {
            assert(self@ =~= old(self)@.remove(sequence));
            None
        }
    }

    /// Takes out every entry whose sequence number comes before `sequence`.
    pub fn remove_older(&mut self, sequence: u16)
        requires
            old(self).wf(),
        ensures
            final(self).wf(),
            final(self).next() == old(self).next(),
            final(self).capacity() == old(self).capacity(),
            final(self)@ == without_older(old(self)@, sequence),
    {
        let mut i: usize = 0;
        while i < self.slots.len()
            invariant
                i <= self.slots@.len(),
                self.slots@.len() == old(self).slots@.len(),
                self.sequence_num == old(self).sequence_num,
                forall|j: int|
                    0 <= j < self.slots@.len() ==> #[trigger] self.slots@[j] == (if j < i && (old(self).slots@[j] matches Some(e) && less_than(e.0, sequence)) {
                        None
                    } else {
                        old(self).slots@[j]
                    }),
            decreases self.slots@.len() - i,
        {
            let stale = match &self.slots[i] {
                Some(e) => sequence_less_than(e.0, sequence),
                None => false,
            };
            if stale {
                self.slots.set(i, None);
            }
            i += 1;
        }
        proof {
            assert forall|k: u16| self.has(k) == (old(self).has(k) && !less_than(k, sequence)) by {
                let at = slot_of(k, self.capacity());
                assert(0 <= at < self.capacity());
                assert(self.slots@[at] == (if old(self).slots@[at] matches Some(e) && less_than(
                    e.0,
                    sequence,
                ) {
                    None
                } else {
                    old(self).slots@[at]
                }));
            }
            assert(self@ =~= without_older(old(self)@, sequence));
        }
    }

    /// Puts `data` in place of the value stored for `sequence` and hands the
    /// old value back; where the ring holds no entry for `sequence`, nothing
    /// changes and `data` comes back as the error.
    pub fn replace(&mut self, sequence: u16, data: T) -> (r: Result<T, T>)
        requires
            old(self).wf(),
        ensures
            final(self).wf(),
            final(self).next() == old(self).next(),
            match r {
                Ok(v) => old(self).has(sequence) && v == old(self).value(sequence) && final(self).slots()
                    == old(self).slots().update(
                    slot_of(sequence, old(self).capacity()),
                    Some((sequence, data)),
                ),
                Err(d) => !old(self).has(sequence) && d == data && final(self).slots() == old(self).slots(),
            },
            r is Ok ==> final(self)@ == old(self)@.insert(sequence, data),
            r is Err ==> final(self)@ == old(self)@,
    {
        if self.contains(sequence) {
            let index = self.index(sequence);
            let mut taken: Option<(u16, T)> = None;
            std::mem::swap(&mut self.slots[index], &mut taken);
            match taken {
                Some(e) => {
                    self.slots.set(index, Some((sequence, data)));
                    proof {
                        assert(self.slots() =~= old(self).slots().update(
                            index as int,
                            Some((sequence, data)),
                        ));
                        assert(self@ =~= old(self)@.insert(sequence, data));
                    }
                    Ok(e.1)
                },
                None => Err(data),
            }
        } else {
            Err(data)
        }
    }

    fn clear_slots(&mut self, start: u16, count: u16)
        requires
            old(self).wf(),
        ensures
            final(self).wf(),
            final(self).next() == old(self).next(),
            final(self).slots() == clear_run(old(self).slots(), start, count as nat),
    {
        let mut sequence = start;
        let mut left = count;
        while left > 0
            invariant
                self.wf(),
                self.next() == old(self).next(),
                self.capacity() == old(self).capacity(),
                clear_run(self.slots(), sequence, left as nat) == clear_run(
                    old(self).slots(),
                    start,
                    count as nat,
                ),
            decreases left,
        {
            let index = self.index(sequence);
            let ghost before = self.slots();
            self.slots.set(index, None);
            proof {
                assert(self.slots() =~= before.update(slot_of(sequence, before.len() as int), None));
            }
            sequence = sequence.wrapping_add(1);
            left -= 1;
        }
    }

    fn clear_all(&mut self)
        requires
            old(self).wf(),
        ensures
            final(self).wf(),
            final(self).next() == old(self).next(),
            final(self).slots() == Seq::new(
                old(self).slots().len(),
                |i: int| Option::<(u16, T)>::None,
            ),
    {
        let n = self.slots.len();
        let mut i: usize = 0;
        while i < n
            invariant
                i <= n,
                n == self.slots@.len(),
                self.wf(),
                self.next() == old(self).next(),
                self.capacity() == old(self).capacity(),
                forall|j: int| 0 <= j < i ==> self.slots()[j] == Option::<(u16, T)>::None,
            decreases n - i,
        {
            self.slots.set(i, None);
            i += 1;
        }
        assert(self.slots() =~= Seq::new(
            old(self).slots().len(),
            |i: int| Option::<(u16, T)>::None,
        ));
    }

    /// Stores `data` under `sequence`, unless that number is too old for the
    /// ring. A number newer than all before it moves the ring forward and
    /// empties the slots it skips; the entry that shared the slot is evicted.
    #[verifier::rlimit(60)]
    #[verifier::spinoff_prover]
    pub fn insert(&mut self, sequence: u16, data: T) -> (stored: bool)
        requires
            old(self).wf(),
        ensures
            final(self).wf(),
            final(self).capacity() == old(self).capacity(),
            stored == !too_old(old(self).next(), old(self).capacity(), sequence),
            stored ==> final(self).next() == next_advanced(old(self).next(), sequence)
                && final(self).slots() == slots_advanced(
                old(self).slots(),
                old(self).next(),
                sequence,
            ).update(slot_of(sequence, old(self).capacity()), Some((sequence, data))),
            stored ==> final(self).has(sequence) && final(self).value(sequence) == data,
            !stored ==> final(self).next() == old(self).next() && final(self).slots() == old(self).slots(),
            final(self)@ == map_inserted(
                old(self)@,
                old(self).next(),
                old(self).capacity(),
                sequence,
                data,
            ),
    {
        let capacity: u16 = self.slots.len() as u16;
        if sequence_less_than(sequence, self.sequence_num.wrapping_sub(capacity)) {
            return false;
        }
        if sequence_greater_than(sequence.wrapping_add(1), self.sequence_num) {
            let gap: u16 = sequence.wrapping_sub(self.sequence_num);
            assert(gap == forward_gap(self.sequence_num, sequence));
            if gap < capacity {
                self.clear_slots(self.sequence_num, gap + 1);
            } else {
                self.clear_all();
            }
            proof {
                lemma_clear_run(old(self).slots(), old(self).next(), (gap + 1) as nat);
            }
            self.sequence_num = sequence.wrapping_add(1);
        }
        let index = self.index(sequence);
        self.slots.set(index, Some((sequence, data)));
        proof {
            let cap = old(self).capacity();
            let next = old(self).next();
            let gap = forward_gap(next, sequence);
            if greater_than(advance(sequence, 1), next) && gap < cap {
                lemma_clear_run(old(self).slots(), next, (gap + 1) as nat);
            }
            let want = map_inserted(old(self)@, next, cap, sequence, data);
            assert forall|k: u16| self@.contains_key(k) == want.contains_key(k) && (
            self@.contains_key(k) ==> self@[k] == want[k]) by {
                let i = slot_of(k, cap);
                assert(0 <= i < cap);
                if k != sequence && i != slot_of(sequence, cap) {
                    assert(self.slots()[i] == slots_advanced(old(self).slots(), next, sequence)[i]);
                }
            }
            assert(self@ =~= want);
        }
        true
    }
}

/// The entries without those whose sequence number comes before
/// `sequence` in wrapping order.
pub open spec fn without_older<T>(entries: Map<u16, T>, sequence: u16) -> Map<u16, T> {
    Map::new(|k: u16| entries.contains_key(k) && !less_than(k, sequence), |k: u16| entries[k])
}

} // verus!
