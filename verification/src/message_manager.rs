//! User messages. A guaranteed message is remembered under the index of the
//! packet that carried it until that packet is confirmed, and queued again
//! if the packet is given up; any other message is sent once.

use crate::error::ProtocolError;
use crate::manifest::{take_kind, Manifest};
use crate::variant::{encodable, encode_variant, lemma_variant_round_trip, Variant, VariantView};
use crate::wire::{
    extended, lemma_take_many_done, lemma_take_many_start, lemma_take_many_step,
    lemma_u16_round_trip, take_many, take_u16, take_u8, u16_bytes, write_u16, PacketReader,
};
use vstd::prelude::*;

verus! {

/// A message waiting to be sent.
pub struct OutgoingMessage {
    pub message: Variant,
    pub guaranteed: bool,
}

/// A guaranteed message that went out in the packet `packet_index`.
pub struct SentMessage {
    pub packet_index: u16,
    pub message: Variant,
}

/// The abstract state of the message manager.
pub struct MessageView {
    /// The messages waiting to be sent, the next one first, each with its
    /// guarantee.
    pub outgoing: Seq<(VariantView, bool)>,
    /// The guaranteed messages in flight, oldest first, each with the index
    /// of its packet.
    pub in_flight: Seq<(u16, VariantView)>,
    /// The messages received and not yet handed out, oldest first.
    pub incoming: Seq<VariantView>,
}

pub open spec fn outgoing_view(list: Seq<OutgoingMessage>) -> Seq<(VariantView, bool)> {
    Seq::new(list.len(), |i: int| (list[i].message@, list[i].guaranteed))
}

pub open spec fn in_flight_view(list: Seq<SentMessage>) -> Seq<(u16, VariantView)> {
    Seq::new(list.len(), |i: int| (list[i].packet_index, list[i].message@))
}

pub open spec fn variants_view(list: Seq<Variant>) -> Seq<VariantView> {
    Seq::new(list.len(), |i: int| list[i]@)
}

/// The messages in flight that did not go out in `packet_index`.
pub open spec fn without_packet(in_flight: Seq<(u16, VariantView)>, packet_index: u16) -> Seq<
    (u16, VariantView),
>
    decreases in_flight.len(),
{
    if in_flight.len() == 0 {
        Seq::empty()
    } else {
        let front = without_packet(in_flight.drop_last(), packet_index);
        if in_flight.last().0 == packet_index {
            front
        } else {
            front.push(in_flight.last())
        }
    }
}

/// The messages in flight that went out in `packet_index`, as messages to
/// send again.
pub open spec fn of_packet(in_flight: Seq<(u16, VariantView)>, packet_index: u16) -> Seq<
    (VariantView, bool),
>
    decreases in_flight.len(),
{
    if in_flight.len() == 0 {
        Seq::empty()
    } else {
        let front = of_packet(in_flight.drop_last(), packet_index);
        if in_flight.last().0 == packet_index {
            front.push((in_flight.last().1, true))
        } else {
            front
        }
    }
}

/// The message at `pos`: the id of its kind, then its body.
pub open spec fn take_message(prototypes: Seq<VariantView>, bytes: Seq<u8>, pos: int) -> Option<
    (VariantView, int),
> {
    match take_u16(bytes, pos) {
        Some((naia_id, p1)) => take_kind(prototypes, bytes, p1, naia_id),
        None => None,
    }
}

/// A whole message block at `pos`: the count and that many messages.
pub open spec fn take_message_block(prototypes: Seq<VariantView>, bytes: Seq<u8>, pos: int) -> Option<
    (Seq<VariantView>, int),
> {
    match take_u8(bytes, pos) {
        Some((count, p1)) => take_many(
            |b: Seq<u8>, p: int| take_message(prototypes, b, p),
            bytes,
            p1,
            count as nat,
        ),
        None => None,
    }
}

/// The bytes of one message.
pub open spec fn encode_message(message: VariantView) -> Seq<u8> {
    u16_bytes(message.naia_id) + encode_variant(message.props)
}

/// Appends one message.
pub fn write_message(out: &mut Vec<u8>, message: &Variant)
    requires
        message.wf(),
    ensures
        final(out)@ == old(out)@ + encode_message(message@),
{
    write_u16(out, message.naia_id());
    message.write_full(out);
    assert(out@ =~= old(out)@ + encode_message(message@));
}

/// Reads a whole message block.
pub fn read_message_block(reader: &mut PacketReader, manifest: &Manifest) -> (r: Option<
    Vec<Variant>,
>)
    requires
        old(reader).wf(),
        manifest.wf(),
    ensures
        final(reader).wf(),
        final(reader).data() == old(reader).data(),
        match take_message_block(
            manifest.events().prototypes(),
            old(reader).data(),
            old(reader).pos(),
        ) {
            Some((messages, end)) => r is Some && variants_view(r.unwrap()@) == messages
                && final(reader).pos() == end && forall|i: int|
                0 <= i < r.unwrap()@.len() ==> (#[trigger] r.unwrap()@[i]).wf(),
            None => r is None && final(reader).pos() == old(reader).pos(),
        },
{
    let start = reader.get_cursor();
    let count = match reader.read_u8() {
        Some(v) => v,
        None => {
            return None;
        },
    };
    let ghost prototypes = manifest.events().prototypes();
    let ghost bytes = reader.data();
    let ghost item = |b: Seq<u8>, p: int| take_message(prototypes, b, p);
    let ghost first = reader.pos();
    let ghost whole = take_many(item, bytes, first, count as nat);
    let mut messages: Vec<Variant> = Vec::new();
    let mut i: u8 = 0;
    proof {
        lemma_take_many_start(item, bytes, first, count as nat);
        assert(variants_view(messages@) =~= Seq::empty());
    }
    while i < count
        invariant
            i <= count,
            reader.wf(),
            manifest.wf(),
            reader.data() == bytes,
            bytes == old(reader).data(),
            start == old(reader).pos(),
            start <= bytes.len(),
            prototypes == manifest.events().prototypes(),
            item == |b: Seq<u8>, p: int| take_message(prototypes, b, p),
            whole == take_many(item, bytes, first, count as nat),
            take_message_block(prototypes, bytes, start as int) == whole,
            whole == extended(
                variants_view(messages@),
                take_many(item, bytes, reader.pos(), (count - i) as nat),
            ),
            forall|j: int| 0 <= j < messages@.len() ==> (#[trigger] messages@[j]).wf(),
        decreases count - i,
    {
        proof {
            lemma_take_many_step(
                item,
                bytes,
                variants_view(messages@),
                reader.pos(),
                (count - i) as nat,
            );
        }
        let ghost before = variants_view(messages@);
        assert(item(bytes, reader.pos()) == take_message(prototypes, bytes, reader.pos()));
        let naia_id = match reader.read_u16() {
            Some(v) => v,
            None => {
                reader.rewind(start);
                return None;
            },
        };
        let message = match manifest.read_event(naia_id, reader) {
            Some(v) => v,
            None => {
                reader.rewind(start);
                return None;
            },
        };
        messages.push(message);
        assert(variants_view(messages@) =~= before.push(message@));
        i += 1;
    }
    proof {
        lemma_take_many_done(item, bytes, variants_view(messages@), reader.pos());
    }
    Some(messages)
}

/// Handles the sending and receiving of messages.
pub struct MessageManager {
    queued_outgoing: Vec<OutgoingMessage>,
    sent_guaranteed: Vec<SentMessage>,
    queued_incoming: Vec<Variant>,
}

impl View for MessageManager {
    type V = MessageView;

    closed spec fn view(&self) -> MessageView {
        MessageView {
            outgoing: outgoing_view(self.queued_outgoing@),
            in_flight: in_flight_view(self.sent_guaranteed@),
            incoming: variants_view(self.queued_incoming@),
        }
    }
}

impl MessageManager {
    /// Every message held can be written to the wire.
    pub closed spec fn wf(&self) -> bool {
        &&& forall|i: int|
            0 <= i < self.queued_outgoing@.len() ==> (#[trigger] self.queued_outgoing@[i]).message.wf()
        &&& forall|i: int|
            0 <= i < self.sent_guaranteed@.len() ==> (#[trigger] self.sent_guaranteed@[i]).message.wf()
    }

    pub fn new() -> (m: Self)
        ensures
            m.wf(),
            m@ == (MessageView {
                outgoing: Seq::<(VariantView, bool)>::empty(),
                in_flight: Seq::<(u16, VariantView)>::empty(),
                incoming: Seq::<VariantView>::empty(),
            }),
    {
        let m = MessageManager {
            queued_outgoing: Vec::new(),
            sent_guaranteed: Vec::new(),
            queued_incoming: Vec::new(),
        };
        assert(m@.outgoing =~= Seq::<(VariantView, bool)>::empty());
        assert(m@.in_flight =~= Seq::<(u16, VariantView)>::empty());
        assert(m@.incoming =~= Seq::<VariantView>::empty());
        m
    }

    /// Whether a message waits to be sent.
    pub fn has_outgoing_messages(&self) -> (b: bool)
        ensures
            b == (self@.outgoing.len() > 0),
    {
        self.queued_outgoing.len() != 0
    }

    /// Queues a message for sending.
    pub fn queue_outgoing_message(&mut self, message: Variant, guaranteed: bool)
        requires
            old(self).wf(),
            message.wf(),
        ensures
            final(self).wf(),
            final(self)@ == (MessageView {
                outgoing: old(self)@.outgoing.push((message@, guaranteed)),
                ..old(self)@
            }),
    {
        self.queued_outgoing.push(OutgoingMessage { message, guaranteed });
        assert(self@.outgoing =~= old(self)@.outgoing.push((message@, guaranteed)));
    }

    /// Takes the next message to send in the packet `packet_index`. A
    /// guaranteed message is from then on in flight under that index.
    pub fn pop_outgoing_message(&mut self, packet_index: u16) -> (r: Option<OutgoingMessage>)
        requires
            old(self).wf(),
        ensures
            final(self).wf(),
            match r {
                Some(m) => {
                    &&& old(self)@.outgoing.len() > 0
                    &&& m.message.wf()
                    &&& (m.message@, m.guaranteed) == old(self)@.outgoing[0]
                    &&& final(self)@ == (MessageView {
                        outgoing: old(self)@.outgoing.drop_first(),
                        in_flight: if m.guaranteed {
                            old(self)@.in_flight.push((packet_index, m.message@))
                        } else {
                            old(self)@.in_flight
                        },
                        incoming: old(self)@.incoming,
                    })
                },
                None => old(self)@.outgoing.len() == 0 && final(self)@ == old(self)@,
            },
    {
        if self.queued_outgoing.len() == 0 {
            return None;
        }
        let m = self.queued_outgoing.remove(0);
        assert(self@.outgoing =~= old(self)@.outgoing.drop_first());
        assert(old(self)@.outgoing[0] == (m.message@, m.guaranteed));
        assert(m == old(self).queued_outgoing@[0]);
        if m.guaranteed {
            self.sent_guaranteed.push(
                SentMessage { packet_index, message: m.message.copy() },
            );
            assert(self@.in_flight =~= old(self)@.in_flight.push((packet_index, m.message@)));
        }
        Some(m)
    }

    /// Puts back a message that `pop_outgoing_message` handed out for the
    /// packet `packet_index` and that did not fit: it is the next to send
    /// again, and no longer in flight.
    pub fn unpop_outgoing_message(&mut self, packet_index: u16, message: OutgoingMessage)
        requires
            old(self).wf(),
            message.message.wf(),
        ensures
            final(self).wf(),
            final(self)@ == (MessageView {
                outgoing: seq![(message.message@, message.guaranteed)] + old(self)@.outgoing,
                in_flight: if message.guaranteed && old(self)@.in_flight.len() > 0 && old(self)@.in_flight.last().0 == packet_index {
                    old(self)@.in_flight.drop_last()
                } else {
                    old(self)@.in_flight
                },
                incoming: old(self)@.incoming,
            }),
    {
        if message.guaranteed {
            let n = self.sent_guaranteed.len();
            if n > 0 && self.sent_guaranteed[n - 1].packet_index == packet_index {
                self.sent_guaranteed.pop();
                assert(self@.in_flight =~= old(self)@.in_flight.drop_last());
            }
        }
        self.queued_outgoing.insert(0, message);
        assert(self@.outgoing =~= seq![(message.message@, message.guaranteed)] + old(self)@.outgoing);
    }

    /// The packet `packet_index` was confirmed: its messages are done.
    pub fn notify_packet_delivered(&mut self, packet_index: u16)
        requires
            old(self).wf(),
        ensures
            final(self).wf(),
            final(self)@ == (MessageView {
                in_flight: without_packet(old(self)@.in_flight, packet_index),
                ..old(self)@
            }),
    {
        let mut kept: Vec<SentMessage> = Vec::new();
        let mut rest: Vec<SentMessage> = Vec::new();
        std::mem::swap(&mut self.sent_guaranteed, &mut rest);
        let ghost all = in_flight_view(rest@);
        let ghost total = rest@.len();
        let mut taken: Vec<SentMessage> = Vec::new();
        while rest.len() > 0
            invariant
                forall|i: int| 0 <= i < rest@.len() ==> (#[trigger] rest@[i]).message.wf(),
                forall|i: int| 0 <= i < kept@.len() ==> (#[trigger] kept@[i]).message.wf(),
                rest@.len() <= total,
                in_flight_view(rest@) == all.subrange(total - rest@.len(), total as int),
                all.len() == total,
                in_flight_view(kept@) == without_packet(
                    all.subrange(0, total - rest@.len()),
                    packet_index,
                ),
            decreases rest@.len(),
        {
            let ghost done = total - rest@.len();
            let ghost before_rest = in_flight_view(rest@);
            let ghost before_kept = in_flight_view(kept@);
            let ghost old_rest = rest@;
            let m = rest.remove(0);
            proof {
                assert(before_rest[0] == (m.packet_index, m.message@));
                assert(all[done] == before_rest[0]);
                assert forall|i: int| 0 <= i < rest@.len() implies #[trigger] in_flight_view(
                    rest@,
                )[i] == all[done + 1 + i] by {
                    assert(rest@[i] == old_rest[i + 1]);
                    assert(before_rest[i + 1] == (old_rest[i + 1].packet_index, old_rest[i + 1].message@));
                    assert(before_rest[i + 1] == all[done + i + 1]);
                }
                assert(in_flight_view(rest@) =~= all.subrange(done + 1, total as int));
                let part = all.subrange(0, done + 1);
                assert(part.drop_last() =~= all.subrange(0, done));
                assert(part.last() == all[done]);
            }
            if m.packet_index != packet_index {
                kept.push(m);
                assert(in_flight_view(kept@) =~= before_kept.push((m.packet_index, m.message@)));
            } else {
                taken.push(m);
            }
        }
        assert(all.subrange(0, total as int) =~= all);
        self.sent_guaranteed = kept;
    }

    /// The packet `packet_index` was given up: its guaranteed messages are
    /// queued again, behind what already waits.
    pub fn notify_packet_dropped(&mut self, packet_index: u16)
        requires
            old(self).wf(),
        ensures
            final(self).wf(),
            final(self)@ == (MessageView {
                outgoing: old(self)@.outgoing + of_packet(old(self)@.in_flight, packet_index),
                in_flight: without_packet(old(self)@.in_flight, packet_index),
                incoming: old(self)@.incoming,
            }),
    {
        let mut kept: Vec<SentMessage> = Vec::new();
        let mut rest: Vec<SentMessage> = Vec::new();
        std::mem::swap(&mut self.sent_guaranteed, &mut rest);
        let ghost all = in_flight_view(rest@);
        let ghost total = rest@.len();
        let ghost waiting = old(self)@.outgoing;
        assert(waiting + Seq::<(VariantView, bool)>::empty() =~= waiting);
        while rest.len() > 0
            invariant
                forall|i: int| 0 <= i < rest@.len() ==> (#[trigger] rest@[i]).message.wf(),
                forall|i: int| 0 <= i < kept@.len() ==> (#[trigger] kept@[i]).message.wf(),
                forall|i: int|
                    0 <= i < self.queued_outgoing@.len() ==> (
                    #[trigger] self.queued_outgoing@[i]).message.wf(),
                self.sent_guaranteed@.len() == 0,
                self@.incoming == old(self)@.incoming,
                rest@.len() <= total,
                in_flight_view(rest@) == all.subrange(total - rest@.len(), total as int),
                all.len() == total,
                in_flight_view(kept@) == without_packet(
                    all.subrange(0, total - rest@.len()),
                    packet_index,
                ),
                outgoing_view(self.queued_outgoing@) == waiting + of_packet(
                    all.subrange(0, total - rest@.len()),
                    packet_index,
                ),
            decreases rest@.len(),
        {
            let ghost done = total - rest@.len();
            let ghost before_rest = in_flight_view(rest@);
            let ghost before_kept = in_flight_view(kept@);
            let ghost before_out = outgoing_view(self.queued_outgoing@);
            let ghost old_rest = rest@;
            let m = rest.remove(0);
            proof {
                assert(before_rest[0] == (m.packet_index, m.message@));
                assert(all[done] == before_rest[0]);
                assert forall|i: int| 0 <= i < rest@.len() implies #[trigger] in_flight_view(
                    rest@,
                )[i] == all[done + 1 + i] by {
                    assert(rest@[i] == old_rest[i + 1]);
                    assert(before_rest[i + 1] == (old_rest[i + 1].packet_index, old_rest[i + 1].message@));
                    assert(before_rest[i + 1] == all[done + i + 1]);
                }
                assert(in_flight_view(rest@) =~= all.subrange(done + 1, total as int));
                let part = all.subrange(0, done + 1);
                assert(part.drop_last() =~= all.subrange(0, done));
                assert(part.last() == all[done]);
            }
            if m.packet_index != packet_index {
                kept.push(m);
                assert(in_flight_view(kept@) =~= before_kept.push((m.packet_index, m.message@)));
            } else {
                self.queued_outgoing.push(OutgoingMessage { message: m.message, guaranteed: true });
                proof {
                    assert(outgoing_view(self.queued_outgoing@) =~= before_out.push(
                        (m.message@, true),
                    ));
                    let prev = of_packet(all.subrange(0, done), packet_index);
                    assert((waiting + prev).push((m.message@, true)) =~= waiting + prev.push(
                        (m.message@, true),
                    ));
                }
            }
        }
        assert(all.subrange(0, total as int) =~= all);
        self.sent_guaranteed = kept;
    }

    /// Reads a message block and queues its messages for the application. A
    /// block that is cut short or names an unknown kind is refused as a
    /// whole.
    pub fn process_data(&mut self, reader: &mut PacketReader, manifest: &Manifest) -> (r: Result<
        (),
        ProtocolError,
    >)
        requires
            old(self).wf(),
            old(reader).wf(),
            manifest.wf(),
        ensures
            final(self).wf(),
            final(reader).wf(),
            final(reader).data() == old(reader).data(),
            match take_message_block(
                manifest.events().prototypes(),
                old(reader).data(),
                old(reader).pos(),
            ) {
                Some((messages, end)) => {
                    &&& r is Ok
                    &&& final(reader).pos() == end
                    &&& final(self)@ == (MessageView {
                        incoming: old(self)@.incoming + messages,
                        ..old(self)@
                    })
                },
                None => {
                    &&& r == Err::<(), ProtocolError>(ProtocolError::Malformed)
                    &&& final(reader).pos() == old(reader).pos()
                    &&& final(self)@ == old(self)@
                },
            },
    {
        match read_message_block(reader, manifest) {
            Some(messages) => {
                let mut messages = messages;
                let ghost added = variants_view(messages@);
                let ghost before = self@.incoming;
                self.queued_incoming.append(&mut messages);
                assert(self@.incoming =~= before + added);
                Ok(())
            },
            None => Err(ProtocolError::Malformed),
        }
    }

    /// Hands out the oldest message received.
    pub fn pop_incoming_message(&mut self) -> (r: Option<Variant>)
        requires
            old(self).wf(),
        ensures
            final(self).wf(),
            match r {
                Some(m) => old(self)@.incoming.len() > 0 && m@ == old(self)@.incoming[0]
                    && final(self)@ == (MessageView {
                    incoming: old(self)@.incoming.drop_first(),
                    ..old(self)@
                }),
                None => old(self)@.incoming.len() == 0 && final(self)@ == old(self)@,
            },
    {
        if self.queued_incoming.len() == 0 {
            return None;
        }
        let m = self.queued_incoming.remove(0);
        assert(self@.incoming =~= old(self)@.incoming.drop_first());
        Some(m)
    }
}

/// A message that is taken for a packet and put back leaves the manager as
/// it was: nothing is in flight that was not sent.
pub proof fn lemma_unpop_restores(
    before: MessageView,
    popped: (VariantView, bool),
    packet_index: u16,
)
    requires
        before.outgoing.len() > 0,
        popped == before.outgoing[0],
    ensures
        ({
            let after_pop = MessageView {
                outgoing: before.outgoing.drop_first(),
                in_flight: if popped.1 {
                    before.in_flight.push((packet_index, popped.0))
                } else {
                    before.in_flight
                },
                incoming: before.incoming,
            };
            let after_unpop = MessageView {
                outgoing: seq![popped] + after_pop.outgoing,
                in_flight: if popped.1 && after_pop.in_flight.len() > 0
                    && after_pop.in_flight.last().0 == packet_index {
                    after_pop.in_flight.drop_last()
                } else {
                    after_pop.in_flight
                },
                incoming: after_pop.incoming,
            };
            after_unpop == before
        }),
{
    assert(seq![popped] + before.outgoing.drop_first() =~= before.outgoing);
    if popped.1 {
        assert(before.in_flight.push((packet_index, popped.0)).drop_last() =~= before.in_flight);
    }
}

/// A message that a sender writes is read back as it was written, by a
/// receiver that has its kind registered with as many properties.
pub proof fn lemma_message_round_trip(
    prototypes: Seq<VariantView>,
    head: Seq<u8>,
    message: VariantView,
    tail: Seq<u8>,
)
    requires
        encodable(message.props),
        message.naia_id < prototypes.len(),
        prototypes[message.naia_id as int].props.len() == message.props.len(),
    ensures
        take_message(prototypes, head + encode_message(message) + tail, head.len() as int) == Some(
            (message, (head.len() + encode_message(message).len()) as int),
        ),
{
    let bytes = head + encode_message(message) + tail;
    let pos = head.len() as int;
    let start = head + u16_bytes(message.naia_id);
    assert(bytes =~= start + encode_variant(message.props) + tail);
    assert(bytes.subrange(pos, pos + 2) =~= u16_bytes(message.naia_id));
    lemma_u16_round_trip(message.naia_id, bytes, pos);
    lemma_variant_round_trip(start, tail, message.naia_id, message.props);
    assert(message == (VariantView { naia_id: message.naia_id, props: message.props }));
}

} // verus!
