//! The state that both ends keep of a peer: the ack engine, the message
//! manager, the newest tick heard from the peer, and the two clocks that
//! decide on heartbeats and on giving the peer up. Times are in
//! milliseconds.

use crate::ack_manager::{elapsed_between, outgoing_header, AckManager, AckNotice, AckView, SentPacket,
    notices_of, still_in_flight};
use crate::config::{valid_config, ServerConfig};
use crate::error::ProtocolError;
use crate::manifest::Manifest;
use crate::message_manager::{
    of_packet, take_message_block, without_packet, MessageManager, MessageView, OutgoingMessage,
};
use crate::packet_writer::{message_written, PacketWriter, WriterView};
use crate::sequence::{advance, greater_than, sequence_greater_than};
use crate::sequence_buffer::{map_inserted, next_advanced, too_old};
use crate::standard_header::{encode_header, PacketType, StandardHeader};
use crate::variant::{Variant, VariantView};
use crate::wire::PacketReader;
use vstd::prelude::*;

verus! {

/// The abstract state of a connection.
pub struct ConnectionView {
    pub heartbeat_interval: u64,
    pub timeout: u64,
    pub last_sent_at: u64,
    pub last_heard_at: u64,
    pub last_received_tick: u16,
    pub ack: AckView,
    pub messages: MessageView,
}

/// The messages after one notice: a data packet that was confirmed retires
/// its guaranteed messages, one that was given up queues them again; other
/// packets carry no messages.
pub open spec fn messages_noticed(m: MessageView, notice: AckNotice) -> MessageView {
    if notice.packet_type != PacketType::Data {
        m
    } else if notice.delivered {
        MessageView { in_flight: without_packet(m.in_flight, notice.packet_index), ..m }
    } else {
        MessageView {
            outgoing: m.outgoing + of_packet(m.in_flight, notice.packet_index),
            in_flight: without_packet(m.in_flight, notice.packet_index),
            incoming: m.incoming,
        }
    }
}

/// The messages after a list of notices, taken in order.
pub open spec fn messages_after(m: MessageView, notices: Seq<AckNotice>) -> MessageView
    decreases notices.len(),
{
    if notices.len() == 0 {
        m
    } else {
        messages_noticed(messages_after(m, notices.drop_last()), notices.last())
    }
}

/// The messages after the first one has been taken for the packet
/// `packet_index`.
pub open spec fn message_taken(m: MessageView, packet_index: u16) -> MessageView {
    MessageView {
        outgoing: m.outgoing.drop_first(),
        in_flight: if m.outgoing[0].1 {
            m.in_flight.push((packet_index, m.outgoing[0].0))
        } else {
            m.in_flight
        },
        incoming: m.incoming,
    }
}

/// The waiting messages written into the packet `packet_index`, in order,
/// until one does not fit; that one stays the next to send.
pub open spec fn messages_drained(m: MessageView, w: WriterView, packet_index: u16) -> (
    MessageView,
    WriterView,
)
    decreases m.outgoing.len(),
{
    if m.outgoing.len() == 0 {
        (m, w)
    } else {
        match message_written(w, m.outgoing[0].0) {
            Some(w1) => messages_drained(message_taken(m, packet_index), w1, packet_index),
            None => (m, w),
        }
    }
}

/// Writing messages leaves the command block of the writer as it was.
pub proof fn lemma_messages_drained_commands(m: MessageView, w: WriterView, packet_index: u16)
    ensures
        messages_drained(m, w, packet_index).1.command_count == w.command_count,
        messages_drained(m, w, packet_index).1.command_bytes == w.command_bytes,
    decreases m.outgoing.len(),
{
    if m.outgoing.len() > 0 {
        match message_written(w, m.outgoing[0].0) {
            Some(w1) => {
                lemma_messages_drained_commands(message_taken(m, packet_index), w1, packet_index);
            },
            None => {},
        }
    }
}

/// The newer of two ticks in wrapping order.
pub open spec fn newer_tick(current: u16, incoming: u16) -> u16 {
    if greater_than(incoming, current) {
        incoming
    } else {
        current
    }
}

/// Represents a connection to a remote host, and provides functionality to
/// manage the connection and the communications to it
pub struct Connection {
    heartbeat_interval: u64,
    timeout: u64,
    last_sent_at: u64,
    last_heard_at: u64,
    last_received_tick: u16,
    ack_manager: AckManager,
    message_manager: MessageManager,
}

impl View for Connection {
    type V = ConnectionView;

    closed spec fn view(&self) -> ConnectionView {
        ConnectionView {
            heartbeat_interval: self.heartbeat_interval,
            timeout: self.timeout,
            last_sent_at: self.last_sent_at,
            last_heard_at: self.last_heard_at,
            last_received_tick: self.last_received_tick,
            ack: self.ack_manager@,
            messages: self.message_manager@,
        }
    }
}

impl Connection {
    pub closed spec fn wf(&self) -> bool {
        self.ack_manager.wf() && self.message_manager.wf()
    }

    /// A connection on which nothing was sent or heard; both clocks start
    /// at `now`.
    pub fn new(config: &ServerConfig, now: u64) -> (c: Self)
        ensures
            c.wf(),
            c@.heartbeat_interval == config.heartbeat_interval,
            c@.timeout == config.disconnection_timeout_duration,
            c@.last_sent_at == now,
            c@.last_heard_at == now,
            c@.last_received_tick == 0,
            c@.ack == (AckView {
                next_index: 0,
                sent: Seq::<SentPacket>::empty(),
                received: Map::<u16, bool>::empty(),
                received_next: 0,
            }),
            c@.messages == (MessageView {
                outgoing: Seq::<(VariantView, bool)>::empty(),
                in_flight: Seq::<(u16, VariantView)>::empty(),
                incoming: Seq::<VariantView>::empty(),
            }),
    {
        Connection {
            heartbeat_interval: config.heartbeat_interval,
            timeout: config.disconnection_timeout_duration,
            last_sent_at: now,
            last_heard_at: now,
            last_received_tick: 0,
            ack_manager: AckManager::new(),
            message_manager: MessageManager::new(),
        }
    }

    /// Record that a message has been sent (to prevent needing to send a
    /// heartbeat)
    pub fn mark_sent(&mut self, now: u64)
        ensures
            final(self)@ == (ConnectionView { last_sent_at: now, ..old(self)@ }),
            old(self).wf() ==> final(self).wf(),
    {
        self.last_sent_at = now;
    }

    /// Returns whether a heartbeat message should be sent: the heartbeat
    /// interval has passed since anything was sent.
    pub fn should_send_heartbeat(&self, now: u64) -> (b: bool)
        ensures
            b == (elapsed_between(self@.last_sent_at, now) >= self@.heartbeat_interval),
    {
        let elapsed = if now >= self.last_sent_at {
            now - self.last_sent_at
        } else {
            0
        };
        elapsed >= self.heartbeat_interval
    }

    /// Record that a message has been received from a remote host (to
    /// prevent disconnecting from the remote host)
    pub fn mark_heard(&mut self, now: u64)
        ensures
            final(self)@ == (ConnectionView { last_heard_at: now, ..old(self)@ }),
            old(self).wf() ==> final(self).wf(),
    {
        self.last_heard_at = now;
    }

    /// Returns whether this connection should be dropped as a result of a
    /// timeout: nothing was heard for the disconnection timeout.
    pub fn should_drop(&self, now: u64) -> (b: bool)
        ensures
            b == (elapsed_between(self@.last_heard_at, now) >= self@.timeout),
    {
        let elapsed = if now >= self.last_heard_at {
            now - self.last_heard_at
        } else {
            0
        };
        elapsed >= self.timeout
    }

    /// Process an incoming packet header: the newest tick heard moves on,
    /// the ack engine settles the packets in flight, and the message
    /// manager hears of each data packet settled. The notices are handed
    /// on for the other managers.
    pub fn process_incoming_header(&mut self, header: &StandardHeader, now: u64) -> (notices: Vec<
        AckNotice,
    >)
        requires
            old(self).wf(),
        ensures
            final(self).wf(),
            notices@ == notices_of(
                old(self)@.ack.sent,
                header.last_remote_packet_index,
                header.ack_field,
                now,
            ),
            final(self)@ == (ConnectionView {
                last_received_tick: newer_tick(old(self)@.last_received_tick, header.host_tick),
                ack: AckView {
                    next_index: old(self)@.ack.next_index,
                    sent: still_in_flight(
                        old(self)@.ack.sent,
                        header.last_remote_packet_index,
                        header.ack_field,
                    ),
                    received: map_inserted(
                        old(self)@.ack.received,
                        old(self)@.ack.received_next,
                        crate::ack_manager::RECEIVED_WINDOW as int,
                        header.local_packet_index,
                        true,
                    ),
                    received_next: if too_old(
                        old(self)@.ack.received_next,
                        crate::ack_manager::RECEIVED_WINDOW as int,
                        header.local_packet_index,
                    ) {
                        old(self)@.ack.received_next
                    } else {
                        next_advanced(old(self)@.ack.received_next, header.local_packet_index)
                    },
                },
                messages: messages_after(old(self)@.messages, notices@),
                ..old(self)@
            }),
    {
        if sequence_greater_than(header.host_tick, self.last_received_tick) {
            self.last_received_tick = header.host_tick;
        }
        let notices = self.ack_manager.process_incoming(header, now);
        let ghost mid = self@;
        let mut i: usize = 0;
        while i < notices.len()
            invariant
                i <= notices@.len(),
                self.wf(),
                self@ == (ConnectionView {
                    messages: messages_after(mid.messages, notices@.subrange(0, i as int)),
                    ..mid
                }),
            decreases notices@.len() - i,
        {
            let notice = notices[i];
            proof {
                let part = notices@.subrange(0, i + 1);
                assert(part.drop_last() =~= notices@.subrange(0, i as int));
                assert(part.last() == notice);
            }
            match notice.packet_type {
                PacketType::Data => {
                    if notice.delivered {
                        self.message_manager.notify_packet_delivered(notice.packet_index);
                    } else {
                        self.message_manager.notify_packet_dropped(notice.packet_index);
                    }
                },
                _ => {},
            }
            i += 1;
        }
        assert(notices@.subrange(0, i as int) =~= notices@);
        notices
    }

    /// Given a packet payload, start tracking the packet via its index,
    /// attach the appropriate header, and return the packet's resulting
    /// underlying bytes
    pub fn process_outgoing_header(
        &mut self,
        host_tick: u16,
        packet_type: PacketType,
        payload: &Vec<u8>,
        now: u64,
    ) -> (packet: Vec<u8>)
        requires
            old(self).wf(),
        ensures
            final(self).wf(),
            packet@ == encode_header(outgoing_header(old(self)@.ack, packet_type, host_tick))
                + payload@,
            final(self)@ == (ConnectionView {
                ack: AckView {
                    next_index: advance(old(self)@.ack.next_index, 1),
                    sent: old(self)@.ack.sent.push(
                        SentPacket {
                            packet_index: old(self)@.ack.next_index,
                            packet_type,
                            sent_at: now,
                        },
                    ),
                    received: old(self)@.ack.received,
                    received_next: old(self)@.ack.received_next,
                },
                ..old(self)@
            }),
    {
        self.ack_manager.process_outgoing(packet_type, host_tick, payload, now)
    }

    /// Get the next outgoing packet's index
    pub fn get_next_packet_index(&self) -> (i: u16)
        ensures
            i == self@.ack.next_index,
    {
        self.ack_manager.get_local_packet_index()
    }

    /// Queue up a message to be sent to the remote host
    pub fn queue_message(&mut self, message: Variant, guaranteed_delivery: bool)
        requires
            old(self).wf(),
            message.wf(),
        ensures
            final(self).wf(),
            final(self)@ == (ConnectionView {
                messages: MessageView {
                    outgoing: old(self)@.messages.outgoing.push((message@, guaranteed_delivery)),
                    ..old(self)@.messages
                },
                ..old(self)@
            }),
    {
        self.message_manager.queue_outgoing_message(message, guaranteed_delivery);
    }

    /// Returns whether there are messages queued up to be sent to the
    /// remote host
    pub fn has_outgoing_messages(&self) -> (b: bool)
        ensures
            b == (self@.messages.outgoing.len() > 0),
    {
        self.message_manager.has_outgoing_messages()
    }

    /// Pop the next outgoing message from the queue
    pub fn pop_outgoing_message(&mut self, next_packet_index: u16) -> (r: Option<OutgoingMessage>)
        requires
            old(self).wf(),
        ensures
            final(self).wf(),
            match r {
                Some(m) => {
                    &&& old(self)@.messages.outgoing.len() > 0
                    &&& m.message.wf()
                    &&& (m.message@, m.guaranteed) == old(self)@.messages.outgoing[0]
                    &&& final(self)@ == (ConnectionView {
                        messages: MessageView {
                            outgoing: old(self)@.messages.outgoing.drop_first(),
                            in_flight: if m.guaranteed {
                                old(self)@.messages.in_flight.push((next_packet_index, m.message@))
                            } else {
                                old(self)@.messages.in_flight
                            },
                            incoming: old(self)@.messages.incoming,
                        },
                        ..old(self)@
                    })
                },
                None => old(self)@.messages.outgoing.len() == 0 && final(self)@ == old(self)@,
            },
    {
        self.message_manager.pop_outgoing_message(next_packet_index)
    }

    /// If for some reason the next outgoing message could not be written
    /// into a message and sent, place it back into the front of the queue
    pub fn unpop_outgoing_message(&mut self, next_packet_index: u16, message: OutgoingMessage)
        requires
            old(self).wf(),
            message.message.wf(),
        ensures
            final(self).wf(),
            final(self)@ == (ConnectionView {
                messages: MessageView {
                    outgoing: seq![(message.message@, message.guaranteed)]
                        + old(self)@.messages.outgoing,
                    in_flight: if message.guaranteed && old(self)@.messages.in_flight.len() > 0
                        && old(self)@.messages.in_flight.last().0 == next_packet_index {
                        old(self)@.messages.in_flight.drop_last()
                    } else {
                        old(self)@.messages.in_flight
                    },
                    incoming: old(self)@.messages.incoming,
                },
                ..old(self)@
            }),
    {
        self.message_manager.unpop_outgoing_message(next_packet_index, message);
    }

    /// Writes the waiting messages into the next packet, in order, until
    /// one does not fit; that one stays the next to send.
    pub fn write_messages(&mut self, writer: &mut PacketWriter)
        requires
            old(self).wf(),
            old(writer).wf(),
        ensures
            final(self).wf(),
            final(writer).wf(),
            ({
                let out = messages_drained(
                    old(self)@.messages,
                    old(writer)@,
                    old(self)@.ack.next_index,
                );
                &&& final(writer)@ == out.1
                &&& final(self)@ == (ConnectionView { messages: out.0, ..old(self)@ })
            }),
    {
        let next_packet_index = self.get_next_packet_index();
        let ghost goal = messages_drained(old(self)@.messages, old(writer)@, next_packet_index);
        let mut more = true;
        while more
            invariant
                self.wf(),
                writer.wf(),
                next_packet_index == old(self)@.ack.next_index,
                self@ == (ConnectionView { messages: self@.messages, ..old(self)@ }),
                more ==> goal == messages_drained(self@.messages, writer@, next_packet_index),
                !more ==> goal == (self@.messages, writer@),
            decreases self@.messages.outgoing.len() + if more { 1int } else { 0int },
        {
            let ghost before = self@.messages;
            match self.pop_outgoing_message(next_packet_index) {
                Some(popped) => {
                    if !writer.write_message(&popped.message) {
                        proof {
                            crate::message_manager::lemma_unpop_restores(
                                before,
                                (popped.message@, popped.guaranteed),
                                next_packet_index,
                            );
                        }
                        self.unpop_outgoing_message(next_packet_index, popped);
                        more = false;
                    }
                },
                None => {
                    more = false;
                },
            }
        }
    }

    /// Given an incoming packet which has been identified as a message,
    /// send the data to the message manager for processing
    pub fn process_message_data(&mut self, reader: &mut PacketReader, manifest: &Manifest) -> (r:
        Result<(), ProtocolError>)
        requires
            old(self).wf(),
            old(reader).wf(),
            manifest.wf(),
        ensures
            final(self).wf(),
            final(reader).wf(),
            final(reader).data() == old(reader).data(),
            match take_message_block(
                manifest.events().prototypes(),
                old(reader).data(),
                old(reader).pos(),
            ) {
                Some((messages, end)) => {
                    &&& r is Ok
                    &&& final(reader).pos() == end
                    &&& final(self)@ == (ConnectionView {
                        messages: MessageView {
                            incoming: old(self)@.messages.incoming + messages,
                            ..old(self)@.messages
                        },
                        ..old(self)@
                    })
                },
                None => {
                    &&& r == Err::<(), ProtocolError>(ProtocolError::Malformed)
                    &&& final(reader).pos() == old(reader).pos()
                    &&& final(self)@ == old(self)@
                },
            },
    {
        self.message_manager.process_data(reader, manifest)
    }

    /// Get the most recent message that has been received from a remote
    /// host
    pub fn get_incoming_message(&mut self) -> (r: Option<Variant>)
        requires
            old(self).wf(),
        ensures
            final(self).wf(),
            match r {
                Some(m) => old(self)@.messages.incoming.len() > 0 && m@
                    == old(self)@.messages.incoming[0] && final(self)@ == (ConnectionView {
                    messages: MessageView {
                        incoming: old(self)@.messages.incoming.drop_first(),
                        ..old(self)@.messages
                    },
                    ..old(self)@
                }),
                None => old(self)@.messages.incoming.len() == 0 && final(self)@ == old(self)@,
            },
    {
        self.message_manager.pop_incoming_message()
    }

    /// Get the newest tick heard from the remote host
    pub fn get_last_received_tick(&self) -> (t: u16)
        ensures
            t == self@.last_received_tick,
    {
        self.last_received_tick
    }
}

} // verus!
