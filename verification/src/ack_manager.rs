//! Packet sequencing and selective acknowledgement. Every packet sent gets
//! the next index and is remembered until the peer's headers settle its
//! fate: confirmed, or fallen out of the acknowledgement window unconfirmed.

use crate::sequence::advance;
use crate::sequence_buffer::{forward_gap, map_inserted, next_advanced, too_old, SequenceBuffer};
use crate::standard_header::{encode_header, PacketType, StandardHeader};
use crate::wire::write_bytes;
use vstd::prelude::*;

verus! {

/// The number of earlier packets that one header acknowledges besides the
/// newest.
pub const REDUNDANT_PACKET_ACKS_SIZE: u16 = 32;

/// The number of received indices that are remembered.
pub const RECEIVED_WINDOW: u16 = 64;

/// Two to the power `n`.
pub open spec fn pow2(n: nat) -> nat
    decreases n,
{
    if n == 0 {
        1
    } else {
        2 * pow2((n - 1) as nat)
    }
}

/// Whether bit `k` of `field` is set.
pub open spec fn bit_set(field: u32, k: nat) -> bool {
    (field as nat / pow2(k)) % 2 == 1
}

/// A packet that was sent and whose fate is open.
#[derive(Clone, Copy, PartialEq, Eq, Debug, Structural)]
pub struct SentPacket {
    pub packet_index: u16,
    pub packet_type: PacketType,
    pub sent_at: u64,
}

/// What became of a packet that was sent.
#[derive(Clone, Copy, PartialEq, Eq, Debug, Structural)]
pub struct AckNotice {
    pub packet_index: u16,
    pub packet_type: PacketType,
    /// Confirmed by the peer if true; fallen out of the window if false.
    pub delivered: bool,
    /// The time from sending to this notice, in milliseconds.
    pub elapsed: u64,
}

/// What a header that acknowledges `ack_index` with `ack_field` says of the
/// packet sent as `sent`: confirmed, given up, or nothing yet.
pub open spec fn ack_outcome(ack_index: u16, ack_field: u32, sent: u16) -> Option<bool> {
    let behind = forward_gap(sent, ack_index);
    if behind == 0 {
        Some(true)
    } else if behind <= REDUNDANT_PACKET_ACKS_SIZE {
        if bit_set(ack_field, (behind - 1) as nat) {
            Some(true)
        } else {
            None
        }
    } else if behind < 32768 {
        Some(false)
    } else {
        None
    }
}

/// The time between two clock readings, zero where the clock went back.
pub open spec fn elapsed_between(earlier: u64, later: u64) -> u64 {
    if later >= earlier {
        (later - earlier) as u64
    } else {
        0
    }
}

/// The notices that a header gives on the packets in flight, in the order
/// in which these were sent.
pub open spec fn notices_of(sent: Seq<SentPacket>, ack_index: u16, ack_field: u32, now: u64) -> Seq<
    AckNotice,
>
    decreases sent.len(),
{
    if sent.len() == 0 {
        Seq::empty()
    } else {
        let front = notices_of(sent.drop_last(), ack_index, ack_field, now);
        let p = sent.last();
        match ack_outcome(ack_index, ack_field, p.packet_index) {
            Some(delivered) => front.push(
                AckNotice {
                    packet_index: p.packet_index,
                    packet_type: p.packet_type,
                    delivered,
                    elapsed: elapsed_between(p.sent_at, now),
                },
            ),
            None => front,
        }
    }
}

/// The packets still in flight after a header, in the order in which they
/// were sent.
pub open spec fn still_in_flight(sent: Seq<SentPacket>, ack_index: u16, ack_field: u32) -> Seq<
    SentPacket,
>
    decreases sent.len(),
{
    if sent.len() == 0 {
        Seq::empty()
    } else {
        let front = still_in_flight(sent.drop_last(), ack_index, ack_field);
        if ack_outcome(ack_index, ack_field, sent.last().packet_index) is None {
            front.push(sent.last())
        } else {
            front
        }
    }
}

/// The value of the acknowledgement bits for the `count` indices before
/// `last`: bit `i` is set where the index `i + 1` before `last` was
/// received.
pub open spec fn ack_field_of(received: Map<u16, bool>, last: u16, count: nat) -> nat
    decreases count,
{
    if count == 0 {
        0
    } else {
        ack_field_of(received, last, (count - 1) as nat) + if received.contains_key(
            advance(last, -(count as int)),
        ) {
            pow2((count - 1) as nat)
        } else {
            0
        }
    }
}

pub proof fn lemma_ack_field_bound(received: Map<u16, bool>, last: u16, count: nat)
    ensures
        ack_field_of(received, last, count) < pow2(count),
    decreases count,
{
    if count > 0 {
        lemma_ack_field_bound(received, last, (count - 1) as nat);
    }
}

pub proof fn lemma_pow2_32()
    ensures
        pow2(32) == 4294967296,
        pow2(16) == 65536,
        pow2(8) == 256,
{
    assert(pow2(8) == 256) by {
        reveal_with_fuel(pow2, 9);
    }
    assert(pow2(16) == 65536) by {
        assert(pow2(8) == 256) by {
            reveal_with_fuel(pow2, 9);
        }
        reveal_with_fuel(pow2, 9);
    }
    assert(pow2(24) == 16777216) by {
        assert(pow2(16) == 65536) by {
            assert(pow2(8) == 256) by {
                reveal_with_fuel(pow2, 9);
            }
            reveal_with_fuel(pow2, 9);
        }
        reveal_with_fuel(pow2, 9);
    }
    assert(pow2(32) == 4294967296) by {
        reveal_with_fuel(pow2, 9);
    }
}

/// The abstract state of the ack engine.
pub struct AckView {
    /// The index that the next packet sent will get.
    pub next_index: u16,
    /// The packets in flight, oldest first.
    pub sent: Seq<SentPacket>,
    /// The indices received from the peer that are remembered.
    pub received: Map<u16, bool>,
    /// One past the newest index received from the peer.
    pub received_next: u16,
}

/// The header that goes out with a packet of `packet_type` at `host_tick`.
pub open spec fn outgoing_header(s: AckView, packet_type: PacketType, host_tick: u16) -> StandardHeader {
    let last = advance(s.received_next, -1);
    StandardHeader {
        packet_type,
        local_packet_index: s.next_index,
        last_remote_packet_index: last,
        ack_field: ack_field_of(s.received, last, REDUNDANT_PACKET_ACKS_SIZE as nat) as u32,
        host_tick,
    }
}

/// Keeps track of sent and received packets.
pub struct AckManager {
    local_packet_index: u16,
    sent_packets: Vec<SentPacket>,
    received_packets: SequenceBuffer<bool>,
}

impl View for AckManager {
    type V = AckView;

    closed spec fn view(&self) -> AckView {
        AckView {
            next_index: self.local_packet_index,
            sent: self.sent_packets@,
            received: self.received_packets@,
            received_next: self.received_packets.next(),
        }
    }
}

impl AckManager {
    pub closed spec fn wf(&self) -> bool {
        &&& self.received_packets.wf()
        &&& self.received_packets.capacity() == RECEIVED_WINDOW
    }

    pub fn new() -> (m: Self)
        ensures
            m.wf(),
            m@ == (AckView {
                next_index: 0,
                sent: Seq::<SentPacket>::empty(),
                received: Map::<u16, bool>::empty(),
                received_next: 0,
            }),
    {
        AckManager {
            local_packet_index: 0,
            sent_packets: Vec::new(),
            received_packets: SequenceBuffer::with_capacity(RECEIVED_WINDOW),
        }
    }

    /// The index that the next packet sent will get.
    pub fn get_local_packet_index(&self) -> (i: u16)
        ensures
            i == self@.next_index,
    {
        self.local_packet_index
    }

    /// The newest index received from the peer.
    pub fn get_last_remote_packet_index(&self) -> (i: u16)
        ensures
            i == advance(self@.received_next, -1),
    {
        self.received_packets.sequence_num().wrapping_sub(1)
    }

    /// The acknowledgement bits for the 32 indices before the newest one
    /// received.
    pub fn get_ack_bitfield(&self) -> (field: u32)
        requires
            self.wf(),
        ensures
            field == ack_field_of(
                self@.received,
                advance(self@.received_next, -1),
                REDUNDANT_PACKET_ACKS_SIZE as nat,
            ),
    {
        let last = self.get_last_remote_packet_index();
        let mut field: u64 = 0;
        let mut mask: u64 = 1;
        let mut i: u16 = 1;
        proof {
            lemma_pow2_32();
        }
        while i <= REDUNDANT_PACKET_ACKS_SIZE
            invariant
                self.wf(),
                1 <= i <= REDUNDANT_PACKET_ACKS_SIZE + 1,
                last == advance(self@.received_next, -1),
                mask == pow2((i - 1) as nat),
                field == ack_field_of(self@.received, last, (i - 1) as nat),
                field < mask,
                mask <= 4294967296,
                pow2(32) == 4294967296,
            decreases REDUNDANT_PACKET_ACKS_SIZE + 1 - i,
        {
            let index = last.wrapping_sub(i);
            assert(index == advance(last, -(i as int)));
            if self.received_packets.contains(index) {
                field = field + mask;
            }
            proof {
                lemma_ack_field_bound(self@.received, last, i as nat);
                if i < 32 {
                    lemma_pow2_grows(i as nat, 32);
                }
            }
            if i < REDUNDANT_PACKET_ACKS_SIZE {
                mask = mask * 2;
            } else {
                mask = 4294967296;
            }
            i += 1;
        }
        field as u32
    }

    /// Notes the index of a packet that arrived and settles the packets in
    /// flight that its header speaks of. The notices come in the order in
    /// which the packets were sent.
    pub fn process_incoming(&mut self, header: &StandardHeader, now: u64) -> (notices: Vec<AckNotice>)
        requires
            old(self).wf(),
        ensures
            final(self).wf(),
            notices@ == notices_of(
                old(self)@.sent,
                header.last_remote_packet_index,
                header.ack_field,
                now,
            ),
            final(self)@ == (AckView {
                next_index: old(self)@.next_index,
                sent: still_in_flight(
                    old(self)@.sent,
                    header.last_remote_packet_index,
                    header.ack_field,
                ),
                received: map_inserted(
                    old(self)@.received,
                    old(self)@.received_next,
                    RECEIVED_WINDOW as int,
                    header.local_packet_index,
                    true,
                ),
                received_next: if too_old(
                    old(self)@.received_next,
                    RECEIVED_WINDOW as int,
                    header.local_packet_index,
                ) {
                    old(self)@.received_next
                } else {
                    next_advanced(old(self)@.received_next, header.local_packet_index)
                },
            }),
    {
        self.received_packets.insert(header.local_packet_index, true);
        let ack_index = header.last_remote_packet_index;
        let ack_field = header.ack_field;
        let mut notices: Vec<AckNotice> = Vec::new();
        let mut kept: Vec<SentPacket> = Vec::new();
        let mut i: usize = 0;
        let ghost sent = self.sent_packets@;
        while i < self.sent_packets.len()
            invariant
                i <= sent.len(),
                sent == self.sent_packets@,
                notices@ == notices_of(sent.subrange(0, i as int), ack_index, ack_field, now),
                kept@ == still_in_flight(sent.subrange(0, i as int), ack_index, ack_field),
            decreases sent.len() - i,
        {
            let p = self.sent_packets[i];
            proof {
                let part = sent.subrange(0, i + 1);
                assert(part.drop_last() =~= sent.subrange(0, i as int));
                assert(part.last() == p);
            }
            match classify(ack_index, ack_field, p.packet_index) {
                Some(delivered) => {
                    let elapsed = if now >= p.sent_at {
                        now - p.sent_at
                    } else {
                        0
                    };
                    notices.push(
                        AckNotice {
                            packet_index: p.packet_index,
                            packet_type: p.packet_type,
                            delivered,
                            elapsed,
                        },
                    );
                },
                None => {
                    kept.push(p);
                },
            }
            i += 1;
        }
        assert(sent.subrange(0, i as int) =~= sent);
        self.sent_packets = kept;
        notices
    }

    /// Puts the header in front of `payload`, remembers the packet as sent
    /// at `now` and moves on to the next index.
    pub fn process_outgoing(
        &mut self,
        packet_type: PacketType,
        host_tick: u16,
        payload: &Vec<u8>,
        now: u64,
    ) -> (packet: Vec<u8>)
        requires
            old(self).wf(),
        ensures
            final(self).wf(),
            packet@ == encode_header(outgoing_header(old(self)@, packet_type, host_tick))
                + payload@,
            final(self)@ == (AckView {
                next_index: advance(old(self)@.next_index, 1),
                sent: old(self)@.sent.push(
                    SentPacket {
                        packet_index: old(self)@.next_index,
                        packet_type,
                        sent_at: now,
                    },
                ),
                received: old(self)@.received,
                received_next: old(self)@.received_next,
            }),
    {
        let header = StandardHeader::new(
            packet_type,
            self.local_packet_index,
            self.get_last_remote_packet_index(),
            self.get_ack_bitfield(),
            host_tick,
        );
        let mut packet: Vec<u8> = Vec::new();
        header.write(&mut packet);
        write_bytes(&mut packet, payload);
        self.sent_packets.push(
            SentPacket { packet_index: self.local_packet_index, packet_type, sent_at: now },
        );
        self.local_packet_index = self.local_packet_index.wrapping_add(1);
        assert(packet@ =~= encode_header(header) + payload@);
        packet
    }
}

pub proof fn lemma_pow2_grows(a: nat, b: nat)
    requires
        a <= b,
    ensures
        pow2(a) <= pow2(b),
        a < b ==> 2 * pow2(a) <= pow2(b),
    decreases b - a,
{
    if a < b {
        lemma_pow2_grows(a + 1, b);
    }
}

/// What a header that acknowledges `ack_index` with `ack_field` says of the
/// packet sent as `sent`.
pub fn classify(ack_index: u16, ack_field: u32, sent: u16) -> (r: Option<bool>)
    ensures
        r == ack_outcome(ack_index, ack_field, sent),
{
    let behind = ack_index.wrapping_sub(sent);
    assert(behind == forward_gap(sent, ack_index));
    if behind == 0 {
        Some(true)
    } else if behind <= REDUNDANT_PACKET_ACKS_SIZE {
        let mut k: u16 = 0;
        let mut rest: u32 = ack_field;
        while k < behind - 1
            invariant
                k <= behind - 1,
                rest == ack_field as nat / pow2(k as nat),
            decreases behind - 1 - k,
        {
            proof {
                lemma_halving(ack_field as nat, k as nat);
            }
            rest = rest / 2;
            k += 1;
        }
        if rest % 2 == 1 {
            Some(true)
        } else {
            None
        }
    } else if behind < 32768 {
        Some(false)
    } else {
        None
    }
}

/// Dividing by one more power of two halves the quotient.
pub proof fn lemma_halving(x: nat, k: nat)
    ensures
        (x / pow2(k)) / 2 == x / pow2(k + 1),
        pow2(k) > 0,
    decreases k,
{
    lemma_pow2_positive(k);
    vstd::arithmetic::div_mod::lemma_div_denominator(x as int, pow2(k) as int, 2);
    assert(pow2(k + 1) == 2 * pow2(k));
    assert(pow2(k) * 2 == 2 * pow2(k));
}

pub proof fn lemma_pow2_positive(k: nat)
    ensures
        pow2(k) > 0,
    decreases k,
{
    if k > 0 {
        lemma_pow2_positive((k - 1) as nat);
    }
}

} // verus!
