//! Why updates that may be lost still bring the receiver to the sender's
//! value. The model follows one replicate: the sender's properties, the
//! properties written since the last update, the updates in flight, and the
//! receiver's properties. Updates reach the receiver in the order in which
//! they were sent, or not at all; the sender is told that a packet was
//! confirmed only if its update arrived, and may be told that a packet was
//! given up whether or not it arrived.

use crate::replicate_record::{
    not_sent_later, property_written, redirtied, update_sent, updates_without, RecordView,
};
use crate::replicate_sender::{confirmed, given_up};
use crate::variant::MAX_PROPERTY_LEN;
use crate::state_mask::{all_clear, clear_mask, mask_or, mask_without};
use crate::variant::{apply_fields, masked_fields};
use vstd::prelude::*;

verus! {

/// An update in flight, as the model sees it.
pub struct Flight {
    pub packet_index: u16,
    /// The properties that the update carries.
    pub mask: Seq<bool>,
    /// Whether the update reached the receiver.
    pub arrived: bool,
}

/// One replicate on both ends of a connection.
pub struct Channel {
    /// The sender's properties.
    pub sender: Seq<Seq<u8>>,
    /// The properties written since the last update was sent.
    pub dirty: Seq<bool>,
    /// The updates in flight, oldest first.
    pub flights: Seq<Flight>,
    /// The receiver's properties.
    pub receiver: Seq<Seq<u8>>,
}

/// What can happen to the replicate.
pub enum Step {
    /// The sender writes a property.
    Write { index: int, bytes: Seq<u8> },
    /// The sender sends an update with the written properties in a packet,
    /// which arrives or is lost.
    Send { packet_index: u16, arrives: bool },
    /// The sender is told that a packet was confirmed.
    Confirmed { packet_index: u16 },
    /// The sender is told that a packet was given up.
    GivenUp { packet_index: u16 },
}

/// The updates in flight as the sender keeps them.
pub open spec fn kept(flights: Seq<Flight>) -> Seq<(u16, Seq<bool>)> {
    Seq::new(flights.len(), |k: int| (flights[k].packet_index, flights[k].mask))
}

/// The flights that did not go out in `packet_index`.
pub open spec fn flights_without(flights: Seq<Flight>, packet_index: u16) -> Seq<Flight>
    decreases flights.len(),
{
    if flights.len() == 0 {
        Seq::empty()
    } else {
        let front = flights_without(flights.drop_last(), packet_index);
        if flights.last().packet_index == packet_index {
            front
        } else {
            front.push(flights.last())
        }
    }
}

/// Whether an update carries property `i`.
pub open spec fn carries(mask: Seq<bool>, i: int) -> bool {
    0 <= i < mask.len() && mask[i]
}

/// The index of the newest update in flight that carries property `i`.
pub open spec fn latest(updates: Seq<(u16, Seq<bool>)>, i: int) -> Option<int>
    decreases updates.len(),
{
    if updates.len() == 0 {
        None
    } else if carries(updates.last().1, i) {
        Some(updates.len() - 1)
    } else {
        latest(updates.drop_last(), i)
    }
}

/// Whether every flight of the packet arrived.
pub open spec fn all_arrived(flights: Seq<Flight>, packet_index: u16) -> bool {
    forall|k: int|
        0 <= k < flights.len() && (#[trigger] flights[k]).packet_index == packet_index
            ==> flights[k].arrived
}

/// Whether a step can happen: a packet is confirmed only if its update
/// arrived.
pub open spec fn allowed(ch: Channel, step: Step) -> bool {
    match step {
        Step::Confirmed { packet_index } => all_arrived(ch.flights, packet_index),
        _ => true,
    }
}

/// The replicate after a step.
pub open spec fn after_step(ch: Channel, step: Step) -> Channel {
    match step {
        Step::Write { index, bytes } => if 0 <= index < ch.sender.len() {
            Channel {
                sender: ch.sender.update(index, bytes),
                dirty: ch.dirty.update(index, true),
                ..ch
            }
        } else {
            ch
        },
        Step::Send { packet_index, arrives } => Channel {
            dirty: clear_mask(ch.dirty.len()),
            flights: ch.flights.push(Flight { packet_index, mask: ch.dirty, arrived: arrives }),
            receiver: if arrives {
                apply_fields(ch.receiver, masked_fields(ch.sender, ch.dirty))
            } else {
                ch.receiver
            },
            ..ch
        },
        Step::Confirmed { packet_index } => Channel {
            flights: flights_without(ch.flights, packet_index),
            ..ch
        },
        Step::GivenUp { packet_index } => Channel {
            dirty: redirtied(ch.dirty, kept(ch.flights), packet_index),
            flights: flights_without(ch.flights, packet_index),
            ..ch
        },
    }
}

/// Whether a list of steps can happen in order.
pub open spec fn all_allowed(ch: Channel, steps: Seq<Step>) -> bool
    decreases steps.len(),
{
    steps.len() == 0 || (allowed(ch, steps[0]) && all_allowed(
        after_step(ch, steps[0]),
        steps.drop_first(),
    ))
}

/// The replicate after a list of steps.
pub open spec fn after_steps(ch: Channel, steps: Seq<Step>) -> Channel
    decreases steps.len(),
{
    if steps.len() == 0 {
        ch
    } else {
        after_steps(after_step(ch, steps[0]), steps.drop_first())
    }
}

/// Both ends hold the same number of properties and every mask covers
/// them.
pub open spec fn shaped(ch: Channel) -> bool {
    &&& ch.receiver.len() == ch.sender.len()
    &&& ch.dirty.len() == ch.sender.len()
    &&& forall|k: int| 0 <= k < ch.flights.len() ==> (#[trigger] ch.flights[k]).mask.len()
        == ch.sender.len()
}

/// A property that differs between the two ends is written anew, or the
/// newest update in flight that carries it did not arrive.
pub open spec fn covered(ch: Channel) -> bool {
    forall|i: int|
        0 <= i < ch.sender.len() && !(#[trigger] ch.dirty[i]) ==> (ch.receiver[i] == ch.sender[i]
            || (latest(kept(ch.flights), i) matches Some(k) && !ch.flights[k].arrived))
}

/// Nothing is written anew and nothing is in flight.
pub open spec fn quiescent(ch: Channel) -> bool {
    all_clear(ch.dirty) && ch.flights.len() == 0
}

/// A replicate that was just created: both ends hold the same properties,
/// nothing is written and nothing is in flight.
pub open spec fn in_sync(ch: Channel) -> bool {
    &&& ch.receiver == ch.sender
    &&& ch.dirty == clear_mask(ch.sender.len())
    &&& ch.flights.len() == 0
}

proof fn lemma_latest_range(updates: Seq<(u16, Seq<bool>)>, i: int)
    ensures
        latest(updates, i) matches Some(k) ==> 0 <= k < updates.len() && carries(updates[k].1, i)
            && forall|j: int| k < j < updates.len() ==> !carries(#[trigger] updates[j].1, i),
        latest(updates, i) is None ==> forall|j: int|
            0 <= j < updates.len() ==> !carries(#[trigger] updates[j].1, i),
    decreases updates.len(),
{
    if updates.len() > 0 && !carries(updates.last().1, i) {
        let front = updates.drop_last();
        lemma_latest_range(front, i);
        match latest(front, i) {
            Some(k) => {
                assert(front[k] == updates[k]);
                assert forall|j: int| k < j < updates.len() implies !carries(
                    #[trigger] updates[j].1,
                    i,
                ) by {
                    if j < front.len() {
                        assert(front[j] == updates[j]);
                    }
                }
            },
            None => {
                assert forall|j: int| 0 <= j < updates.len() implies !carries(
                    #[trigger] updates[j].1,
                    i,
                ) by {
                    if j < front.len() {
                        assert(front[j] == updates[j]);
                    }
                }
            },
        }
    }
}

/// The newest update that carries a property is the newest one among the
/// later updates, or else the first update.
proof fn lemma_latest_first_rest(updates: Seq<(u16, Seq<bool>)>, i: int)
    requires
        updates.len() > 0,
    ensures
        latest(updates, i) == match latest(updates.drop_first(), i) {
            Some(k) => Some(k + 1),
            None => if carries(updates[0].1, i) {
                Some(0int)
            } else {
                None
            },
        },
    decreases updates.len(),
{
    let rest = updates.drop_first();
    if rest.len() == 0 {
        assert(updates.drop_last().len() == 0);
        assert(updates.last() == updates[0]);
        assert(latest(updates.drop_last(), i) is None);
        assert(latest(rest, i) is None);
    } else {
        assert(updates.last() == rest.last());
        if carries(updates.last().1, i) {
            assert(latest(updates, i) == Some(updates.len() - 1));
            assert(latest(rest, i) == Some(rest.len() - 1));
        } else {
            let front = updates.drop_last();
            lemma_latest_first_rest(front, i);
            assert(front.drop_first() =~= rest.drop_last());
            assert(front[0] == updates[0]);
            assert(latest(updates, i) == latest(front, i));
            assert(latest(rest, i) == latest(rest.drop_last(), i));
        }
    }
}

proof fn lemma_not_sent_later(mask: Seq<bool>, later: Seq<(u16, Seq<bool>)>, i: int)
    ensures
        not_sent_later(mask, later).len() == mask.len(),
        0 <= i < mask.len() ==> (not_sent_later(mask, later)[i] <==> (mask[i] && latest(later, i)
            is None)),
    decreases later.len(),
{
    if later.len() > 0 {
        let m1 = mask_without(mask, later[0].1);
        lemma_not_sent_later(m1, later.drop_first(), i);
        lemma_latest_first_rest(later, i);
    }
}

/// A property is written anew after a packet was given up exactly if it
/// was written before, or the newest update that carries it went out in
/// that packet.
pub proof fn lemma_redirtied_bit(
    dirty: Seq<bool>,
    updates: Seq<(u16, Seq<bool>)>,
    packet_index: u16,
    i: int,
)
    ensures
        redirtied(dirty, updates, packet_index).len() == dirty.len(),
        0 <= i < dirty.len() ==> (redirtied(dirty, updates, packet_index)[i] <==> (dirty[i] || (
        latest(updates, i) matches Some(k) && updates[k].0 == packet_index))),
    decreases updates.len(),
{
    if updates.len() > 0 {
        let rest = updates.drop_first();
        lemma_redirtied_bit(dirty, rest, packet_index, i);
        lemma_latest_first_rest(updates, i);
        lemma_not_sent_later(updates[0].1, rest, i);
        lemma_latest_range(rest, i);
        match latest(rest, i) {
            Some(k) => {
                assert(rest[k] == updates[k + 1]);
            },
            None => {},
        }
    }
}

/// The sender's list of updates after a packet is settled is the model's
/// list of flights after the packet is settled.
pub proof fn lemma_kept_without(flights: Seq<Flight>, packet_index: u16)
    ensures
        kept(flights_without(flights, packet_index)) == updates_without(
            kept(flights),
            packet_index,
        ),
    decreases flights.len(),
{
    if flights.len() == 0 {
        assert(kept(flights_without(flights, packet_index)) =~= updates_without(
            kept(flights),
            packet_index,
        ));
    } else {
        let front = flights.drop_last();
        lemma_kept_without(front, packet_index);
        assert(kept(flights).drop_last() =~= kept(front));
        assert(kept(flights).last() == (flights.last().packet_index, flights.last().mask));
        if flights.last().packet_index != packet_index {
            assert(kept(flights_without(front, packet_index).push(flights.last())) =~= kept(
                flights_without(front, packet_index),
            ).push(kept(flights).last()));
        }
    }
}

/// Settling a packet keeps the flights of other packets, in order.
proof fn lemma_without_members(flights: Seq<Flight>, packet_index: u16)
    ensures
        flights_without(flights, packet_index).len() <= flights.len(),
        forall|k: int|
            0 <= k < flights_without(flights, packet_index).len() ==> flights.contains(
                #[trigger] flights_without(flights, packet_index)[k],
            ) && flights_without(flights, packet_index)[k].packet_index != packet_index,
    decreases flights.len(),
{
    if flights.len() > 0 {
        let front = flights.drop_last();
        lemma_without_members(front, packet_index);
        let out = flights_without(flights, packet_index);
        let fo = flights_without(front, packet_index);
        assert forall|k: int| 0 <= k < out.len() implies flights.contains(#[trigger] out[k])
            && out[k].packet_index != packet_index by {
            if k < fo.len() {
                assert(out[k] == fo[k]);
                let j = choose|j: int| 0 <= j < front.len() && front[j] == fo[k];
                assert(flights[j] == fo[k]);
            } else {
                assert(out[k] == flights.last());
                assert(flights[flights.len() - 1] == flights.last());
            }
        }
    }
}

/// Where the newest flight that carries a property is of another packet,
/// it is still the newest one after the packet is settled.
proof fn lemma_latest_survives(flights: Seq<Flight>, packet_index: u16, i: int)
    requires
        latest(kept(flights), i) matches Some(k) && flights[k].packet_index != packet_index,
    ensures
        latest(kept(flights_without(flights, packet_index)), i) matches Some(k2)
            && flights_without(flights, packet_index)[k2] == flights[latest(
            kept(flights),
            i,
        ).unwrap()],
    decreases flights.len(),
{
    lemma_latest_range(kept(flights), i);
    let front = flights.drop_last();
    let last = flights.last();
    let fo = flights_without(front, packet_index);
    assert(kept(flights).drop_last() =~= kept(front));
    assert(kept(flights).last() == (last.packet_index, last.mask));
    if carries(last.mask, i) {
        let out = fo.push(last);
        assert(kept(out).last() == (last.packet_index, last.mask));
        assert(out[out.len() - 1] == last);
    } else {
        lemma_latest_survives(front, packet_index, i);
        let k = latest(kept(front), i).unwrap();
        lemma_latest_range(kept(front), i);
        assert(front[k] == flights[k]);
        if last.packet_index != packet_index {
            let out = fo.push(last);
            assert(kept(out).last() == (last.packet_index, last.mask));
            assert(kept(out).drop_last() =~= kept(fo));
            lemma_latest_range(kept(fo), i);
            let k2 = latest(kept(fo), i).unwrap();
            assert(out[k2] == fo[k2]);
        }
    }
}

/// Every step that can happen keeps the shape and keeps every difference
/// between the two ends covered.
pub proof fn lemma_step_keeps_covered(ch: Channel, step: Step)
    requires
        shaped(ch),
        covered(ch),
        allowed(ch, step),
    ensures
        shaped(after_step(ch, step)),
        covered(after_step(ch, step)),
{
    let after = after_step(ch, step);
    let n = ch.sender.len() as int;
    match step {
        Step::Write { index, bytes } => {
            assert forall|i: int| 0 <= i < n && !(#[trigger] after.dirty[i]) implies (
            after.receiver[i] == after.sender[i] || (latest(kept(after.flights), i) matches Some(
                k,
            ) && !after.flights[k].arrived)) by {
                if 0 <= index < n {
                    assert(i != index);
                }
                assert(!ch.dirty[i]);
            }
        },
        Step::Send { packet_index, arrives } => {
            let flight = Flight { packet_index, mask: ch.dirty, arrived: arrives };
            assert forall|k: int| 0 <= k < after.flights.len() implies (
            #[trigger] after.flights[k]).mask.len() == n by {
                if k < ch.flights.len() {
                    assert(after.flights[k] == ch.flights[k]);
                }
            }
            assert(kept(after.flights).drop_last() =~= kept(ch.flights));
            assert(kept(after.flights).last() == (packet_index, ch.dirty));
            assert forall|i: int| 0 <= i < n && !(#[trigger] after.dirty[i]) implies (
            after.receiver[i] == after.sender[i] || (latest(kept(after.flights), i) matches Some(
                k,
            ) && !after.flights[k].arrived)) by {
                if ch.dirty[i] {
                    assert(latest(kept(after.flights), i) == Some(after.flights.len() - 1));
                    if arrives {
                        assert(masked_fields(ch.sender, ch.dirty)[i] == Some(ch.sender[i]));
                    }
                } else {
                    assert(latest(kept(after.flights), i) == latest(kept(ch.flights), i));
                    if arrives {
                        assert(masked_fields(ch.sender, ch.dirty)[i] is None);
                    }
                    if ch.receiver[i] != ch.sender[i] {
                        lemma_latest_range(kept(ch.flights), i);
                        let k = latest(kept(ch.flights), i).unwrap();
                        assert(after.flights[k] == ch.flights[k]);
                    }
                }
            }
        },
        Step::Confirmed { packet_index } => {
            lemma_without_members(ch.flights, packet_index);
            assert forall|k: int| 0 <= k < after.flights.len() implies (
            #[trigger] after.flights[k]).mask.len() == n by {
                let j = choose|j: int| 0 <= j < ch.flights.len() && ch.flights[j] == after.flights[k];
                assert(ch.flights[j].mask.len() == n);
            }
            assert forall|i: int| 0 <= i < n && !(#[trigger] after.dirty[i]) implies (
            after.receiver[i] == after.sender[i] || (latest(kept(after.flights), i) matches Some(
                k,
            ) && !after.flights[k].arrived)) by {
                if ch.receiver[i] != ch.sender[i] {
                    lemma_latest_range(kept(ch.flights), i);
                    let k = latest(kept(ch.flights), i).unwrap();
                    assert(!ch.flights[k].arrived);
                    assert(ch.flights[k].packet_index != packet_index);
                    lemma_latest_survives(ch.flights, packet_index, i);
                }
            }
        },
        Step::GivenUp { packet_index } => {
            lemma_without_members(ch.flights, packet_index);
            assert forall|k: int| 0 <= k < after.flights.len() implies (
            #[trigger] after.flights[k]).mask.len() == n by {
                let j = choose|j: int| 0 <= j < ch.flights.len() && ch.flights[j] == after.flights[k];
                assert(ch.flights[j].mask.len() == n);
            }
            lemma_redirtied_bit(ch.dirty, kept(ch.flights), packet_index, 0);
            assert forall|i: int| 0 <= i < n && !(#[trigger] after.dirty[i]) implies (
            after.receiver[i] == after.sender[i] || (latest(kept(after.flights), i) matches Some(
                k,
            ) && !after.flights[k].arrived)) by {
                lemma_redirtied_bit(ch.dirty, kept(ch.flights), packet_index, i);
                assert(!ch.dirty[i]);
                if ch.receiver[i] != ch.sender[i] {
                    lemma_latest_range(kept(ch.flights), i);
                    let k = latest(kept(ch.flights), i).unwrap();
                    assert(kept(ch.flights)[k].0 == ch.flights[k].packet_index);
                    lemma_latest_survives(ch.flights, packet_index, i);
                }
            }
        },
    }
}

/// Whatever is written and sent, and whichever packets are lost: once
/// nothing is written anew and nothing is in flight, the receiver holds the
/// sender's current value.
pub proof fn lemma_updates_coalesce(ch: Channel, steps: Seq<Step>)
    requires
        shaped(ch),
        covered(ch),
        all_allowed(ch, steps),
        quiescent(after_steps(ch, steps)),
    ensures
        after_steps(ch, steps).receiver == after_steps(ch, steps).sender,
    decreases steps.len(),
{
    if steps.len() == 0 {
        assert forall|i: int| 0 <= i < ch.sender.len() implies ch.receiver[i] == ch.sender[i] by {
            assert(!ch.dirty[i]);
            assert(kept(ch.flights).len() == 0);
        }
        assert(ch.receiver =~= ch.sender);
    } else {
        lemma_step_keeps_covered(ch, steps[0]);
        lemma_updates_coalesce(after_step(ch, steps[0]), steps.drop_first());
    }
}

/// A replicate that was just created has nothing to cover.
pub proof fn lemma_in_sync_is_covered(ch: Channel)
    requires
        in_sync(ch),
    ensures
        shaped(ch),
        covered(ch),
{
}

/// Whether a channel shows what a sender's record keeps of a replicate.
pub open spec fn shows(ch: Channel, r: RecordView) -> bool {
    &&& ch.sender == r.value.props
    &&& ch.dirty == r.dirty
    &&& kept(ch.flights) == r.updates
}

/// The steps of the model are what the sender does to its record: writing a
/// property, noting an update as sent, and settling a packet that was
/// confirmed or given up change the record as the model says.
pub proof fn lemma_model_follows_the_record(
    ch: Channel,
    r: RecordView,
    index: int,
    bytes: Seq<u8>,
    packet_index: u16,
    arrives: bool,
)
    requires
        shows(ch, r),
        ch.dirty.len() == ch.sender.len(),
        bytes.len() <= MAX_PROPERTY_LEN,
    ensures
        shows(after_step(ch, Step::Write { index, bytes }), property_written(r, index, bytes)),
        shows(
            after_step(ch, Step::Send { packet_index, arrives }),
            update_sent(r, packet_index),
        ),
        confirmed(r, packet_index) matches Some(after) ==> shows(
            after_step(ch, Step::Confirmed { packet_index }),
            after,
        ),
        shows(after_step(ch, Step::GivenUp { packet_index }), given_up(r, packet_index)),
{
    lemma_kept_without(ch.flights, packet_index);
    let sent = after_step(ch, Step::Send { packet_index, arrives });
    assert(kept(sent.flights) =~= r.updates.push((packet_index, r.dirty)));
}

} // verus!
