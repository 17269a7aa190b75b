//! A queue of items keyed by tick that hands them out earliest tick first,
//! once the current tick has reached them. It serves as the jitter buffer
//! for incoming data packets.

use crate::sequence::{greater_than, less_than, not_after, sequence_greater_than, sequence_less_than};
use crate::sequence_buffer::forward_gap;
use vstd::prelude::*;

verus! {

/// The index of the item that leaves the queue first: the scan keeps the
/// first item and moves to a later one only where that one's tick comes
/// before the tick kept so far.
pub open spec fn earliest(ticks: Seq<u16>) -> int
    decreases ticks.len(),
{
    if ticks.len() <= 1 {
        0
    } else {
        let e = earliest(ticks.drop_last());
        if less_than(ticks.last(), ticks[e]) {
            ticks.len() - 1
        } else {
            e
        }
    }
}

/// All ticks lie fewer than half the sequence space ahead of `base`. Two
/// ticks that lie exactly half the space apart are left out: with a third
/// tick between them the wrapping order goes round in a circle (40000 comes
/// before 50000, 50000 before 7232, and 7232 before 40000), and no order of
/// leaving the queue is then non-decreasing.
pub open spec fn windowed(ticks: Seq<u16>, base: u16) -> bool {
    forall|i: int| 0 <= i < ticks.len() ==> forward_gap(base, #[trigger] ticks[i]) < 32768
}

/// The ticks of a queue's items.
pub open spec fn ticks_of<T>(items: Seq<(u16, T)>) -> Seq<u16> {
    Seq::new(items.len(), |i: int| items[i].0)
}

/// The items in the order in which they leave a queue that is drained at
/// `current`: the earliest first, until none is left that `current` has
/// reached.
pub open spec fn drained<T>(items: Seq<(u16, T)>, current: u16) -> Seq<(u16, T)>
    decreases items.len(),
{
    if items.len() == 0 {
        Seq::empty()
    } else {
        let e = earliest(ticks_of(items));
        proof {
            lemma_earliest_in_range(ticks_of(items));
        }
        if not_after(items[e].0, current) {
            seq![items[e]] + drained(items.remove(e), current)
        } else {
            Seq::empty()
        }
    }
}

/// What is left of a queue that is drained at `current`.
pub open spec fn undrained<T>(items: Seq<(u16, T)>, current: u16) -> Seq<(u16, T)>
    decreases items.len(),
{
    if items.len() == 0 {
        items
    } else {
        let e = earliest(ticks_of(items));
        proof {
            lemma_earliest_in_range(ticks_of(items));
        }
        if not_after(items[e].0, current) {
            undrained(items.remove(e), current)
        } else {
            items
        }
    }
}

pub proof fn lemma_earliest_in_range(ticks: Seq<u16>)
    requires
        ticks.len() > 0,
    ensures
        0 <= earliest(ticks) < ticks.len(),
    decreases ticks.len(),
{
    if ticks.len() > 1 {
        lemma_earliest_in_range(ticks.drop_last());
    }
}

/// In a windowed queue no tick comes before the earliest one.
pub proof fn lemma_earliest_is_least(ticks: Seq<u16>, base: u16)
    requires
        ticks.len() > 0,
        windowed(ticks, base),
    ensures
        forall|j: int|
            0 <= j < ticks.len() ==> forward_gap(base, ticks[earliest(ticks)]) <= forward_gap(
                base,
                #[trigger] ticks[j],
            ),
        forall|j: int| 0 <= j < ticks.len() ==> !less_than(#[trigger] ticks[j], ticks[earliest(ticks)]),
    decreases ticks.len(),
{
    lemma_earliest_in_range(ticks);
    if ticks.len() > 1 {
        let front = ticks.drop_last();
        assert forall|i: int| 0 <= i < front.len() implies forward_gap(base, #[trigger] front[i])
            < 32768 by {
            assert(front[i] == ticks[i]);
        }
        lemma_earliest_in_range(front);
        lemma_earliest_is_least(front, base);
        let e = earliest(front);
        assert(front[e] == ticks[e]);
        assert forall|j: int| 0 <= j < ticks.len() implies forward_gap(
            base,
            ticks[earliest(ticks)],
        ) <= forward_gap(base, #[trigger] ticks[j]) by {
            if j < front.len() {
                assert(front[j] == ticks[j]);
            }
        }
    }
}

/// Draining a windowed queue hands the items out in non-decreasing tick
/// order, whatever the order in which they were added, and every item
/// handed out has a tick that `current` has reached.
pub proof fn lemma_drained_in_tick_order<T>(items: Seq<(u16, T)>, current: u16, base: u16)
    requires
        windowed(ticks_of(items), base),
    ensures
        drained(items, current).len() <= items.len(),
        forall|i: int, j: int|
            0 <= i <= j < drained(items, current).len() ==> not_after(
                #[trigger] drained(items, current)[i].0,
                #[trigger] drained(items, current)[j].0,
            ),
        forall|i: int|
            0 <= i < drained(items, current).len() ==> not_after(
                #[trigger] drained(items, current)[i].0,
                current,
            ) && forward_gap(base, drained(items, current)[i].0) < 32768,
        forall|i: int|
            0 <= i < drained(items, current).len() ==> forward_gap(
                base,
                items[earliest(ticks_of(items))].0,
            ) <= forward_gap(base, #[trigger] drained(items, current)[i].0),
    decreases items.len(),
{
    if items.len() > 0 {
        let ticks = ticks_of(items);
        lemma_earliest_in_range(ticks);
        lemma_earliest_is_least(ticks, base);
        let e = earliest(ticks);
        assert(ticks[e] == items[e].0);
        if not_after(items[e].0, current) {
            let rest = items.remove(e);
            let rest_ticks = ticks_of(rest);
            assert forall|i: int| 0 <= i < rest_ticks.len() implies forward_gap(
                base,
                #[trigger] rest_ticks[i],
            ) < 32768 && forward_gap(base, ticks[e]) <= forward_gap(base, rest_ticks[i]) by {
                let i1 = if i < e { i } else { i + 1 };
                assert(rest_ticks[i] == ticks[i1]);
            }
            lemma_drained_in_tick_order(rest, current, base);
            let d = drained(items, current);
            let dr = drained(rest, current);
            assert(d =~= seq![items[e]] + dr);
            if rest.len() > 0 {
                lemma_earliest_in_range(rest_ticks);
                let e2 = earliest(rest_ticks);
                assert(rest_ticks[e2] == rest[e2].0);
            }
            assert forall|i: int| 0 <= i < d.len() implies forward_gap(base, ticks[e])
                <= forward_gap(base, #[trigger] d[i].0) && forward_gap(base, d[i].0) < 32768
                && not_after(d[i].0, current) by {
                if i > 0 {
                    assert(d[i] == dr[i - 1]);
                    assert(rest.len() > 0);
                }
            }
            assert forall|i: int, j: int| 0 <= i <= j < d.len() implies not_after(
                #[trigger] d[i].0,
                #[trigger] d[j].0,
            ) by {
                if i > 0 {
                    assert(d[i] == dr[i - 1]);
                    assert(d[j] == dr[j - 1]);
                }
            }
        }
    }
}

/// A queue of items, each with the tick at which it falls due.
pub struct TickQueue<T> {
    items: Vec<(u16, T)>,
}

impl<T> TickQueue<T> {
    /// The queued items with their ticks, in the order in which they were
    /// added.
    pub closed spec fn view(&self) -> Seq<(u16, T)> {
        self.items@
    }

    pub fn new() -> (q: Self)
        ensures
            q@ == Seq::<(u16, T)>::empty(),
    {
        TickQueue { items: Vec::new() }
    }

    pub fn len(&self) -> (n: usize)
        ensures
            n == self@.len(),
    {
        self.items.len()
    }

    /// Queues `item` for `tick`.
    pub fn add_item(&mut self, tick: u16, item: T)
        ensures
            final(self)@ == old(self)@.push((tick, item)),
    {
        self.items.push((tick, item));
    }

    fn earliest_index(&self) -> (e: usize)
        requires
            self@.len() > 0,
        ensures
            e == earliest(ticks_of(self@)),
            e < self@.len(),
    {
        let mut e: usize = 0;
        let mut i: usize = 1;
        let ghost ticks = ticks_of(self@);
        assert(ticks.subrange(0, 1).len() == 1);
        while i < self.items.len()
            invariant
                1 <= i <= self.items.len(),
                e < i,
                ticks == ticks_of(self@),
                e == earliest(ticks.subrange(0, i as int)),
            decreases self.items.len() - i,
        {
            proof {
                let next = ticks.subrange(0, i + 1);
                assert(next.drop_last() =~= ticks.subrange(0, i as int));
                assert(next.last() == ticks[i as int]);
                assert(next[e as int] == ticks[e as int]);
            }
            if sequence_less_than(self.items[i].0, self.items[e].0) {
                e = i;
            }
            i += 1;
        }
        assert(ticks.subrange(0, i as int) =~= ticks);
        e
    }

    /// Hands out the earliest item if `current_tick` has reached its tick.
    pub fn pop_item(&mut self, current_tick: u16) -> (r: Option<(u16, T)>)
        ensures
            match r {
                Some(item) => {
                    let e = earliest(ticks_of(old(self)@));
                    &&& old(self)@.len() > 0
                    &&& item == old(self)@[e]
                    &&& not_after(item.0, current_tick)
                    &&& final(self)@ == old(self)@.remove(e)
                },
                None => {
                    &&& final(self)@ == old(self)@
                    &&& old(self)@.len() > 0 ==> !not_after(
                        old(self)@[earliest(ticks_of(old(self)@))].0,
                        current_tick,
                    )
                },
            },
            r is Some ==> drained(old(self)@, current_tick) == seq![r->0] + drained(
                final(self)@,
                current_tick,
            ),
            r is Some ==> undrained(old(self)@, current_tick) == undrained(
                final(self)@,
                current_tick,
            ),
            r is None ==> drained(old(self)@, current_tick) == Seq::<(u16, T)>::empty(),
            r is None ==> undrained(old(self)@, current_tick) == old(self)@,
    {
        if self.items.len() == 0 {
            return None;
        }
        let e = self.earliest_index();
        let tick = self.items[e].0;
        if current_tick == tick || sequence_greater_than(current_tick, tick) {
            let item = self.items.remove(e);
            Some(item)
        } else {
            None
        }
    }
}

} // verus!
