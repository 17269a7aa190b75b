//! The client's end of a connection to the server. It composes the shared
//! connection state with the client's managers: replicated state, commands
//! sent and kept for replay, round-trip measurement, and the jitter buffer
//! in which data packets wait for their tick.

use crate::ack_manager::{elapsed_between, notices_of, outgoing_header, AckNotice};
use crate::command_block::CommandEntryView;
use crate::config::ServerConfig;
use crate::connection::{messages_drained, Connection, ConnectionView};
use crate::dual_command_receiver::{
    command_queued, replays_prepared, CommandsView, DualCommandReceiver, TickedCommand,
};
use crate::dual_command_sender::{queued_put, DualCommandSender};
use crate::entity_record::EntityRecord;
use crate::error::ProtocolError;
use crate::keys::{pawn_position, LocalComponentKey, LocalEntityKey, LocalObjectKey, PawnKey};
use crate::manifest::Manifest;
use crate::message_manager::{take_message_block, MessageView};
use crate::packet_writer::{
    command_written, empty_writer, message_written, writer_bytes, PacketWriter, WriterView,
    MANAGER_MESSAGE, MANAGER_REPLICATE,
};
use crate::ping_manager::{PingManager, PingView};
use crate::replicate_action::ReplicateAction;
use crate::replicate_manager::{
    block_processed, pawn_written, pawns_reset, ReplicaView, ReplicateManager,
};
use crate::sequence::not_after;
use crate::standard_header::{encode_header, PacketType, StandardHeader};
use crate::tick_manager::{TickManager, TickView};
use crate::tick_queue::{earliest, lemma_earliest_in_range, ticks_of, TickQueue};
use crate::variant::{Variant, VariantView};
use crate::wire::PacketReader;
use vstd::prelude::*;

verus! {

/// A data packet that waits in the jitter buffer.
pub struct BufferedPacket {
    pub index: u16,
    pub payload: Vec<u8>,
}

/// A waiting data packet as its tick, its index and its payload.
pub type Waiting = (u16, (u16, Seq<u8>));

/// The abstract state of the client's end of the connection.
pub struct ServerConnectionView {
    pub connection: ConnectionView,
    pub replica: ReplicaView,
    pub ping: PingView,
    /// The commands issued and not yet sent, one per pawn.
    pub queued_commands: Seq<(PawnKey, VariantView)>,
    pub commands: CommandsView,
    /// The data packets that wait for their tick, in order of arrival.
    pub jitter: Seq<Waiting>,
}

pub open spec fn jitter_view(q: Seq<(u16, BufferedPacket)>) -> Seq<Waiting> {
    Seq::new(q.len(), |i: int| (q[i].0, (q[i].1.index, q[i].1.payload@)))
}

/// The state after messages have arrived for the application.
pub open spec fn messages_received(s: ServerConnectionView, messages: Seq<VariantView>) -> ServerConnectionView {
    ServerConnectionView {
        connection: ConnectionView {
            messages: MessageView {
                incoming: s.connection.messages.incoming + messages,
                ..s.connection.messages
            },
            ..s.connection
        },
        ..s
    }
}

/// How far the processing of received data got.
pub struct DataOutcome {
    pub state: ServerConnectionView,
    pub error: Option<ProtocolError>,
}

/// The state after the blocks of a data packet from `pos` on have been
/// processed: a message block queues its messages for the application, a
/// replicate block is applied to the replicated state. The first block that
/// fails, or that belongs to no manager of the client, stops the
/// processing.
pub open spec fn data_processed(
    s: ServerConnectionView,
    events: Seq<VariantView>,
    entities: Seq<VariantView>,
    bytes: Seq<u8>,
    pos: int,
    tick: u16,
) -> DataOutcome
    decreases bytes.len() - pos,
{
    if pos < 0 || pos >= bytes.len() {
        DataOutcome { state: s, error: None }
    } else if bytes[pos] == MANAGER_MESSAGE {
        match take_message_block(events, bytes, pos + 1) {
            Some((messages, end)) => {
                let s1 = messages_received(s, messages);
                if pos < end <= bytes.len() {
                    data_processed(s1, events, entities, bytes, end, tick)
                } else {
                    DataOutcome { state: s1, error: Some(ProtocolError::Malformed) }
                }
            },
            None => DataOutcome { state: s, error: Some(ProtocolError::Malformed) },
        }
    } else if bytes[pos] == MANAGER_REPLICATE {
        let out = block_processed(s.replica, s.commands, entities, bytes, pos + 1, tick);
        let s1 = ServerConnectionView { replica: out.replica, commands: out.commands, ..s };
        match out.error {
            Some(e) => DataOutcome { state: s1, error: Some(e) },
            None => if pos < out.pos <= bytes.len() {
                data_processed(s1, events, entities, bytes, out.pos, tick)
            } else {
                DataOutcome { state: s1, error: Some(ProtocolError::Malformed) }
            },
        }
    } else {
        DataOutcome { state: s, error: Some(ProtocolError::Malformed) }
    }
}

/// How far a frame got with the packets that were due.
pub struct FrameOutcome {
    pub state: ServerConnectionView,
    pub error: Option<ProtocolError>,
    /// The packets that were processed, in the order of processing.
    pub processed: Seq<Waiting>,
}

/// The state after the waiting packets that `target` has reached have been
/// processed, the earliest first. A packet that fails stops the frame;
/// later packets stay in the buffer.
#[verifier::opaque]
pub open spec fn frame_processed(
    s: ServerConnectionView,
    events: Seq<VariantView>,
    entities: Seq<VariantView>,
    target: u16,
) -> FrameOutcome
    decreases s.jitter.len(),
{
    if s.jitter.len() == 0 {
        FrameOutcome { state: s, error: None, processed: Seq::empty() }
    } else {
        let e = earliest(ticks_of(s.jitter));
        proof {
            lemma_earliest_in_range(ticks_of(s.jitter));
        }
        if not_after(s.jitter[e].0, target) {
            let packet = s.jitter[e];
            let s1 = ServerConnectionView { jitter: s.jitter.remove(e), ..s };
            let out = data_processed(s1, events, entities, packet.1.1, 0, packet.0);
            match out.error {
                Some(err) => FrameOutcome {
                    state: out.state,
                    error: Some(err),
                    processed: seq![packet],
                },
                None => if out.state.jitter.len() < s.jitter.len() {
                    let rest = frame_processed(out.state, events, entities, target);
                    FrameOutcome {
                        state: rest.state,
                        error: rest.error,
                        processed: seq![packet] + rest.processed,
                    }
                } else {
                    FrameOutcome { state: out.state, error: None, processed: seq![packet] }
                },
            }
        } else {
            FrameOutcome { state: s, error: None, processed: Seq::empty() }
        }
    }
}

/// Processing data leaves the jitter buffer, the ack engine, the queued
/// commands and the round-trip measurement as they were.
pub proof fn lemma_data_processed_frame(
    s: ServerConnectionView,
    events: Seq<VariantView>,
    entities: Seq<VariantView>,
    bytes: Seq<u8>,
    pos: int,
    tick: u16,
)
    ensures
        data_processed(s, events, entities, bytes, pos, tick).state.jitter == s.jitter,
        data_processed(s, events, entities, bytes, pos, tick).state.ping == s.ping,
        data_processed(s, events, entities, bytes, pos, tick).state.queued_commands
            == s.queued_commands,
        data_processed(s, events, entities, bytes, pos, tick).state.connection.ack
            == s.connection.ack,
    decreases bytes.len() - pos,
{
    if pos < 0 || pos >= bytes.len() {
    } else if bytes[pos] == MANAGER_MESSAGE {
        match take_message_block(events, bytes, pos + 1) {
            Some((messages, end)) => {
                if pos < end <= bytes.len() {
                    lemma_data_processed_frame(
                        messages_received(s, messages),
                        events,
                        entities,
                        bytes,
                        end,
                        tick,
                    );
                }
            },
            None => {},
        }
    } else if bytes[pos] == MANAGER_REPLICATE {
        let out = block_processed(s.replica, s.commands, entities, bytes, pos + 1, tick);
        let s1 = ServerConnectionView { replica: out.replica, commands: out.commands, ..s };
        if out.error is None && pos < out.pos <= bytes.len() {
            lemma_data_processed_frame(s1, events, entities, bytes, out.pos, tick);
        }
    }
}

/// The queue of commands with one that did not fit put back.
pub open spec fn put_back(rest: Seq<(PawnKey, VariantView)>, item: (PawnKey, VariantView)) -> Seq<
    (PawnKey, VariantView),
> {
    if pawn_position(rest, item.0) < rest.len() {
        rest
    } else {
        rest.push(item)
    }
}

/// Where the writing of the queued commands ends.
pub struct CommandsDrained {
    pub queue: Seq<(PawnKey, VariantView)>,
    pub commands: CommandsView,
    pub writer: WriterView,
}

/// The queued commands written into a packet sent at `host_tick`, in order:
/// each command that fits is from then on kept for replay; the first one
/// that does not fit goes back into the queue and ends the writing.
pub open spec fn commands_drained(
    queue: Seq<(PawnKey, VariantView)>,
    c: CommandsView,
    w: WriterView,
    host_tick: u16,
) -> CommandsDrained
    decreases queue.len(),
{
    if queue.len() == 0 {
        CommandsDrained { queue, commands: c, writer: w }
    } else {
        match command_written(w, c, host_tick, queue[0].0, queue[0].1) {
            Some(w1) => commands_drained(
                queue.drop_first(),
                command_queued(c, host_tick, queue[0].0, queue[0].1),
                w1,
                host_tick,
            ),
            None => CommandsDrained {
                queue: put_back(queue.drop_first(), queue[0]),
                commands: c,
                writer: w,
            },
        }
    }
}

/// The estimate after the time to confirmation of each confirmed packet of
/// a list of notices has been taken as a sample.
pub open spec fn estimate_noticed(
    e: crate::ping_manager::RttEstimate,
    notices: Seq<AckNotice>,
    size: u16,
) -> crate::ping_manager::RttEstimate
    decreases notices.len(),
{
    if notices.len() == 0 {
        e
    } else {
        let front = estimate_noticed(e, notices.drop_last(), size);
        if notices.last().delivered {
            crate::ping_manager::estimate_after(front, notices.last().elapsed, size)
        } else {
            front
        }
    }
}

/// The connection after a header has been heard that gave `notices`.
pub open spec fn connection_heard(
    before: ConnectionView,
    after: ConnectionView,
    header: StandardHeader,
    notices: Seq<AckNotice>,
) -> bool {
    after == (ConnectionView {
        last_received_tick: crate::connection::newer_tick(
            before.last_received_tick,
            header.host_tick,
        ),
        ack: crate::ack_manager::AckView {
            next_index: before.ack.next_index,
            sent: crate::ack_manager::still_in_flight(
                before.ack.sent,
                header.last_remote_packet_index,
                header.ack_field,
            ),
            received: crate::sequence_buffer::map_inserted(
                before.ack.received,
                before.ack.received_next,
                crate::ack_manager::RECEIVED_WINDOW as int,
                header.local_packet_index,
                true,
            ),
            received_next: if crate::sequence_buffer::too_old(
                before.ack.received_next,
                crate::ack_manager::RECEIVED_WINDOW as int,
                header.local_packet_index,
            ) {
                before.ack.received_next
            } else {
                crate::sequence_buffer::next_advanced(
                    before.ack.received_next,
                    header.local_packet_index,
                )
            },
        },
        messages: crate::connection::messages_after(before.messages, notices),
        ..before
    })
}

/// A connection on which nothing has happened, with its clocks at `now`.
pub open spec fn fresh_connection(config: ServerConfig, now: u64) -> ServerConnectionView {
    ServerConnectionView {
        connection: ConnectionView {
            heartbeat_interval: config.heartbeat_interval,
            timeout: config.disconnection_timeout_duration,
            last_sent_at: now,
            last_heard_at: now,
            last_received_tick: 0,
            ack: crate::ack_manager::AckView {
                next_index: 0,
                sent: Seq::empty(),
                received: Map::empty(),
                received_next: 0,
            },
            messages: MessageView {
                outgoing: Seq::empty(),
                in_flight: Seq::empty(),
                incoming: Seq::empty(),
            },
        },
        replica: ReplicaView {
            objects: Map::empty(),
            owner: Map::empty(),
            entities: Map::empty(),
            pawns: Map::empty(),
            actions: Seq::empty(),
        },
        ping: PingView {
            ping_interval: config.ping_interval,
            sample_size: config.rtt_sample_size,
            last_ping_at: now,
            next_ping_index: 0,
            sent: Map::empty(),
            sent_next: 0,
            estimate: crate::ping_manager::RttEstimate { rtt: 0, jitter: 0 },
        },
        queued_commands: Seq::empty(),
        commands: CommandsView {
            incoming: Seq::empty(),
            replays: Seq::empty(),
            histories: Seq::empty(),
            triggers: Seq::empty(),
        },
        jitter: Seq::empty(),
    }
}

/// The connection after a header from the server has been taken at `now`.
pub open spec fn header_heard(c: ServerConnectionView, header: StandardHeader, now: u64) -> ServerConnectionView {
    let notices = notices_of(
        c.connection.ack.sent,
        header.last_remote_packet_index,
        header.ack_field,
        now,
    );
    ServerConnectionView {
        connection: ConnectionView {
            last_received_tick: crate::connection::newer_tick(
                c.connection.last_received_tick,
                header.host_tick,
            ),
            ack: crate::ack_manager::AckView {
                next_index: c.connection.ack.next_index,
                sent: crate::ack_manager::still_in_flight(
                    c.connection.ack.sent,
                    header.last_remote_packet_index,
                    header.ack_field,
                ),
                received: crate::sequence_buffer::map_inserted(
                    c.connection.ack.received,
                    c.connection.ack.received_next,
                    crate::ack_manager::RECEIVED_WINDOW as int,
                    header.local_packet_index,
                    true,
                ),
                received_next: if crate::sequence_buffer::too_old(
                    c.connection.ack.received_next,
                    crate::ack_manager::RECEIVED_WINDOW as int,
                    header.local_packet_index,
                ) {
                    c.connection.ack.received_next
                } else {
                    crate::sequence_buffer::next_advanced(
                        c.connection.ack.received_next,
                        header.local_packet_index,
                    )
                },
            },
            messages: crate::connection::messages_after(c.connection.messages, notices),
            ..c.connection
        },
        ping: PingView {
            estimate: estimate_noticed(c.ping.estimate, notices, c.ping.sample_size),
            ..c.ping
        },
        ..c
    }
}

/// The tick estimate after a header from the server.
pub open spec fn ticks_after_header(t: TickView, c: ServerConnectionView, header: StandardHeader) -> TickView {
    TickView {
        server_tick: crate::sequence::advance(
            header.host_tick,
            crate::tick_manager::server_tick_lead(
                (c.ping.estimate.rtt / 1000) as u32,
                (c.ping.estimate.jitter / 1000) as u32,
                t.tick_duration,
            ) % 65536,
        ),
        ..t
    }
}

/// The connection after a packet of `packet_type` has been sent at `now`.
pub open spec fn header_sent(c: ServerConnectionView, packet_type: PacketType, now: u64) -> ServerConnectionView {
    ServerConnectionView {
        connection: ConnectionView {
            ack: crate::ack_manager::AckView {
                next_index: crate::sequence::advance(c.connection.ack.next_index, 1),
                sent: c.connection.ack.sent.push(
                    crate::ack_manager::SentPacket {
                        packet_index: c.connection.ack.next_index,
                        packet_type,
                        sent_at: now,
                    },
                ),
                ..c.connection.ack
            },
            ..c.connection
        },
        ..c
    }
}

/// What a call for the next outgoing packet leaves behind, and the packet.
pub struct Outgoing {
    pub state: ServerConnectionView,
    pub packet: Option<Seq<u8>>,
}

/// The next data packet to send at `host_tick`: the queued commands and
/// the waiting messages as far as they fit, behind the header; none where
/// nothing waits or nothing fits. The packet is then in flight, sent at
/// `now`.
pub open spec fn outgoing_packet(s: ServerConnectionView, host_tick: u16, now: u64) -> Outgoing {
    if s.connection.messages.outgoing.len() == 0 && s.queued_commands.len() == 0 {
        Outgoing { state: s, packet: None }
    } else {
        let cd = commands_drained(s.queued_commands, s.commands, empty_writer(), host_tick);
        let md = messages_drained(s.connection.messages, cd.writer, s.connection.ack.next_index);
        let w = md.1;
        let s1 = ServerConnectionView {
            connection: ConnectionView { messages: md.0, ..s.connection },
            queued_commands: cd.queue,
            commands: cd.commands,
            ..s
        };
        if w.command_count != 0 || w.message_count != 0 {
            Outgoing {
                state: ServerConnectionView {
                    connection: ConnectionView {
                        ack: crate::ack_manager::AckView {
                            next_index: crate::sequence::advance(s.connection.ack.next_index, 1),
                            sent: s.connection.ack.sent.push(
                                crate::ack_manager::SentPacket {
                                    packet_index: s.connection.ack.next_index,
                                    packet_type: PacketType::Data,
                                    sent_at: now,
                                },
                            ),
                            ..s.connection.ack
                        },
                        ..s1.connection
                    },
                    ..s1
                },
                packet: Some(
                    encode_header(outgoing_header(s.connection.ack, PacketType::Data, host_tick))
                        + writer_bytes(w),
                ),
            }
        } else {
            Outgoing { state: s1, packet: None }
        }
    }
}

/// A frame processes the waiting packets in the order in which the jitter
/// buffer hands them out.
pub proof fn lemma_frame_follows_buffer(
    s: ServerConnectionView,
    events: Seq<VariantView>,
    entities: Seq<VariantView>,
    target: u16,
)
    ensures
        ({
            let out = frame_processed(s, events, entities, target);
            let due = crate::tick_queue::drained(s.jitter, target);
            &&& out.processed.len() <= due.len()
            &&& out.processed == due.subrange(0, out.processed.len() as int)
            &&& out.error is None ==> out.processed == due
        }),
    decreases s.jitter.len(),
{
    reveal(frame_processed);
    let out = frame_processed(s, events, entities, target);
    let due = crate::tick_queue::drained(s.jitter, target);
    if s.jitter.len() == 0 {
        assert(out.processed =~= due.subrange(0, 0));
    } else {
        let e = earliest(ticks_of(s.jitter));
        lemma_earliest_in_range(ticks_of(s.jitter));
        if not_after(s.jitter[e].0, target) {
            let packet = s.jitter[e];
            let s1 = ServerConnectionView { jitter: s.jitter.remove(e), ..s };
            let done = data_processed(s1, events, entities, packet.1.1, 0, packet.0);
            lemma_data_processed_frame(s1, events, entities, packet.1.1, 0, packet.0);
            let rest_due = crate::tick_queue::drained(s.jitter.remove(e), target);
            assert(due =~= seq![packet] + rest_due);
            match done.error {
                Some(err) => {
                    assert(out.processed =~= due.subrange(0, 1));
                },
                None => {
                    lemma_frame_follows_buffer(done.state, events, entities, target);
                    let rest = frame_processed(done.state, events, entities, target);
                    assert(out.processed =~= seq![packet] + rest.processed);
                    assert(out.processed =~= due.subrange(0, out.processed.len() as int));
                },
            }
        } else {
            assert(out.processed =~= due.subrange(0, 0));
        }
    }
}

/// Whatever the order in which data packets arrived: as long as their
/// ticks lie within half the sequence space of each other, a frame
/// processes them in non-decreasing tick order, and only packets whose
/// tick the target has reached.
pub proof fn lemma_frame_in_tick_order(
    s: ServerConnectionView,
    events: Seq<VariantView>,
    entities: Seq<VariantView>,
    target: u16,
    base: u16,
)
    requires
        crate::tick_queue::windowed(ticks_of(s.jitter), base),
    ensures
        ({
            let done = frame_processed(s, events, entities, target).processed;
            &&& forall|i: int, j: int|
                0 <= i <= j < done.len() ==> not_after(
                    (#[trigger] done[i]).0,
                    (#[trigger] done[j]).0,
                )
            &&& forall|i: int| 0 <= i < done.len() ==> not_after((#[trigger] done[i]).0, target)
        }),
{
    lemma_frame_follows_buffer(s, events, entities, target);
    crate::tick_queue::lemma_drained_in_tick_order(s.jitter, target, base);
    let done = frame_processed(s, events, entities, target).processed;
    let due = crate::tick_queue::drained(s.jitter, target);
    assert forall|i: int, j: int| 0 <= i <= j < done.len() implies not_after(
        (#[trigger] done[i]).0,
        (#[trigger] done[j]).0,
    ) by {
        assert(done[i] == due[i]);
        assert(done[j] == due[j]);
    }
    assert forall|i: int| 0 <= i < done.len() implies not_after((#[trigger] done[i]).0, target) by {
        assert(done[i] == due[i]);
    }
}

/// Represents a connection to the server.
pub struct ServerConnection {
    connection: Connection,
    replicate_manager: ReplicateManager,
    ping_manager: PingManager,
    command_sender: DualCommandSender,
    command_receiver: DualCommandReceiver,
    jitter_buffer: TickQueue<BufferedPacket>,
}

impl View for ServerConnection {
    type V = ServerConnectionView;

    closed spec fn view(&self) -> ServerConnectionView {
        ServerConnectionView {
            connection: self.connection@,
            replica: self.replicate_manager@,
            ping: self.ping_manager@,
            queued_commands: self.command_sender@,
            commands: self.command_receiver@,
            jitter: jitter_view(self.jitter_buffer@),
        }
    }
}

impl ServerConnection {
    pub closed spec fn wf(&self) -> bool {
        &&& self.connection.wf()
        &&& self.replicate_manager.wf()
        &&& self.ping_manager.wf()
        &&& self.command_sender.wf()
        &&& self.command_receiver.wf()
    }

    /// A fresh connection whose clocks start at `now`; none where the
    /// settings are not valid.
    pub fn new(connection_config: &ServerConfig, now: u64) -> (r: Option<Self>)
        ensures
            r is Some <==> crate::config::valid_config(*connection_config),
            r matches Some(c) ==> c@ == fresh_connection(*connection_config, now),
            r matches Some(c) ==> c.wf() && c@.jitter == Seq::<Waiting>::empty()
                && c@.queued_commands == Seq::<(PawnKey, VariantView)>::empty() && c@.replica
                == (ReplicaView {
                objects: Map::empty(),
                owner: Map::empty(),
                entities: Map::empty(),
                pawns: Map::empty(),
                actions: Seq::empty(),
            }) && c@.commands == (CommandsView {
                incoming: Seq::empty(),
                replays: Seq::empty(),
                histories: Seq::empty(),
                triggers: Seq::empty(),
            }) && c@.connection.last_sent_at == now && c@.connection.last_heard_at == now
                && c@.connection.heartbeat_interval == connection_config.heartbeat_interval
                && c@.connection.timeout == connection_config.disconnection_timeout_duration
                && c@.connection.messages.outgoing.len() == 0 && c@.connection.ack.next_index
                == 0 && c@.ping.ping_interval == connection_config.ping_interval
                && c@.ping.sample_size == connection_config.rtt_sample_size,
    {
        if !connection_config.is_valid() {
            return None;
        }
        let c = ServerConnection {
            connection: Connection::new(connection_config, now),
            replicate_manager: ReplicateManager::new(),
            ping_manager: PingManager::new(
                connection_config.ping_interval,
                connection_config.rtt_sample_size,
                now,
            ),
            command_sender: DualCommandSender::new(),
            command_receiver: DualCommandReceiver::new(),
            jitter_buffer: TickQueue::new(),
        };
        assert(c@.jitter =~= Seq::<Waiting>::empty());
        Some(c)
    }

    fn write_commands(&mut self, writer: &mut PacketWriter, host_tick: u16)
        requires
            old(self).wf(),
            old(writer).wf(),
        ensures
            final(self).wf(),
            final(writer).wf(),
            ({
                let out = commands_drained(
                    old(self)@.queued_commands,
                    old(self)@.commands,
                    old(writer)@,
                    host_tick,
                );
                &&& final(writer)@ == out.writer
                &&& final(self)@ == (ServerConnectionView {
                    queued_commands: out.queue,
                    commands: out.commands,
                    ..old(self)@
                })
            }),
    {
        let ghost goal = commands_drained(
            old(self)@.queued_commands,
            old(self)@.commands,
            old(writer)@,
            host_tick,
        );
        let mut more = true;
        while more
            invariant
                self.wf(),
                writer.wf(),
                self@ == (ServerConnectionView {
                    queued_commands: self@.queued_commands,
                    commands: self@.commands,
                    ..old(self)@
                }),
                more ==> goal == commands_drained(
                    self@.queued_commands,
                    self@.commands,
                    writer@,
                    host_tick,
                ),
                !more ==> goal == (CommandsDrained {
                    queue: self@.queued_commands,
                    commands: self@.commands,
                    writer: writer@,
                }),
            decreases self@.queued_commands.len() + if more { 1int } else { 0int },
        {
            match self.command_sender.pop_command() {
                Some((pawn_key, command)) => {
                    if writer.write_command(host_tick, &self.command_receiver, &pawn_key, &command) {
                        self.command_receiver.queue_command(host_tick, &pawn_key, &command);
                    } else {
                        self.command_sender.unpop_command(&pawn_key, command);
                        more = false;
                    }
                },
                None => {
                    more = false;
                },
            }
        }
    }

    fn write_messages(&mut self, writer: &mut PacketWriter)
        requires
            old(self).wf(),
            old(writer).wf(),
        ensures
            final(self).wf(),
            final(writer).wf(),
            ({
                let out = messages_drained(
                    old(self)@.connection.messages,
                    old(writer)@,
                    old(self)@.connection.ack.next_index,
                );
                &&& final(writer)@ == out.1
                &&& final(self)@ == (ServerConnectionView {
                    connection: ConnectionView { messages: out.0, ..old(self)@.connection },
                    ..old(self)@
                })
            }),
    {
        self.connection.write_messages(writer);
    }

    /// The next data packet for the server, if any command or message
    /// waits and fits.
    pub fn get_outgoing_packet(&mut self, host_tick: u16, now: u64) -> (r: Option<Vec<u8>>)
        requires
            old(self).wf(),
        ensures
            final(self).wf(),
            final(self)@ == outgoing_packet(old(self)@, host_tick, now).state,
            match outgoing_packet(old(self)@, host_tick, now).packet {
                Some(bytes) => r is Some && r.unwrap()@ == bytes,
                None => r is None,
            },
    {
        if self.connection.has_outgoing_messages() || self.command_sender.has_command() {
            let mut writer = PacketWriter::new();
            self.write_commands(&mut writer, host_tick);
            self.write_messages(&mut writer);
            if writer.has_bytes() {
                let out_bytes = writer.get_bytes();
                let payload = self.connection.process_outgoing_header(
                    host_tick,
                    PacketType::Data,
                    &out_bytes,
                    now,
                );
                return Some(payload);
            }
        }
        None
    }

    /// Hands out the oldest event of the replicated state that waits for
    /// the application.
    pub fn get_incoming_replicate_action(&mut self) -> (r: Option<ReplicateAction>)
        requires
            old(self).wf(),
        ensures
            final(self).wf(),
            match r {
                Some(action) => old(self)@.replica.actions.len() > 0 && action@
                    == old(self)@.replica.actions[0] && final(self)@ == (ServerConnectionView {
                    replica: ReplicaView {
                        actions: old(self)@.replica.actions.drop_first(),
                        ..old(self)@.replica
                    },
                    ..old(self)@
                }),
                None => old(self)@.replica.actions.len() == 0 && final(self)@ == old(self)@,
            },
    {
        self.replicate_manager.pop_incoming_message()
    }

    /// The keys of the standalone objects, each once.
    pub fn object_keys(&self) -> (keys: Vec<LocalObjectKey>)
        requires
            self.wf(),
        ensures
            keys@.no_duplicates(),
            forall|k: u16|
                keys@.contains(LocalObjectKey { value: k }) <==> (
                self@.replica.objects.contains_key(k as u32) && !self@.replica.owner.contains_key(
                    k as u32,
                )),
    {
        self.replicate_manager.object_keys()
    }

    /// The keys of the components, each once.
    pub fn component_keys(&self) -> (keys: Vec<LocalComponentKey>)
        requires
            self.wf(),
        ensures
            keys@.no_duplicates(),
            forall|k: u16|
                keys@.contains(LocalComponentKey { value: k }) <==> (
                self@.replica.objects.contains_key(k as u32) && self@.replica.owner.contains_key(
                    k as u32,
                )),
    {
        self.replicate_manager.component_keys()
    }

    pub fn get_object(&self, key: &LocalObjectKey) -> (r: Option<&Variant>)
        requires
            self.wf(),
        ensures
            match r {
                Some(v) => self@.replica.objects.contains_key(key.value as u32) && v@
                    == self@.replica.objects[key.value as u32],
                None => !self@.replica.objects.contains_key(key.value as u32),
            },
    {
        self.replicate_manager.get_object(key)
    }

    pub fn has_object(&self, key: &LocalObjectKey) -> (b: bool)
        requires
            self.wf(),
        ensures
            b == self@.replica.objects.contains_key(key.value as u32),
    {
        self.replicate_manager.has_object(key)
    }

    pub fn has_component(&self, key: &LocalComponentKey) -> (b: bool)
        requires
            self.wf(),
        ensures
            b == (self@.replica.objects.contains_key(key.value as u32)
                && self@.replica.owner.contains_key(key.value as u32)),
    {
        self.replicate_manager.has_component(key)
    }

    /// The keys of the objects that are pawns, each once.
    pub fn pawn_keys(&self) -> (keys: Vec<LocalObjectKey>)
        requires
            self.wf(),
        ensures
            keys@.no_duplicates(),
            forall|k: u16|
                keys@.contains(LocalObjectKey { value: k }) <==> self@.replica.pawns.contains_key(
                    k as u32,
                ),
    {
        self.replicate_manager.pawn_keys()
    }

    /// The predicted copy of the pawn under `key`.
    pub fn get_pawn(&self, key: &LocalObjectKey) -> (r: Option<&Variant>)
        requires
            self.wf(),
        ensures
            match r {
                Some(v) => self@.replica.pawns.contains_key(key.value as u32) && v@
                    == self@.replica.pawns[key.value as u32],
                None => !self@.replica.pawns.contains_key(key.value as u32),
            },
    {
        self.replicate_manager.get_pawn(key)
    }

    /// The predicted copy of the pawn under `key`; the connection stays as
    /// it is.
    pub fn get_pawn_mut(&mut self, key: &LocalObjectKey) -> (r: Option<&Variant>)
        requires
            old(self).wf(),
        ensures
            final(self).wf(),
            final(self)@ == old(self)@,
            match r {
                Some(v) => old(self)@.replica.pawns.contains_key(key.value as u32) && v@
                    == old(self)@.replica.pawns[key.value as u32],
                None => !old(self)@.replica.pawns.contains_key(key.value as u32),
            },
    {
        self.replicate_manager.get_pawn(key)
    }

    /// Writes property `index` of the predicted copy of the pawn under
    /// `key`.
    pub fn write_pawn(&mut self, key: &LocalObjectKey, index: usize, bytes: Vec<u8>) -> (done: bool)
        requires
            old(self).wf(),
        ensures
            final(self).wf(),
            done == (old(self)@.replica.pawns.contains_key(key.value as u32) && index < old(self)@.replica.pawns[key.value as u32].props.len()),
            done ==> final(self)@ == (ServerConnectionView {
                replica: pawn_written(old(self)@.replica, key.value, index as int, bytes@),
                ..old(self)@
            }),
            !done ==> final(self)@ == old(self)@,
    {
        self.replicate_manager.write_pawn(key, index, bytes)
    }

    pub fn has_entity(&self, key: &LocalEntityKey) -> (b: bool)
        requires
            self.wf(),
        ensures
            b == self@.replica.entities.contains_key(key.value as u32),
    {
        self.replicate_manager.has_entity(key)
    }

    /// The record of the entity under `key`.
    pub fn get_entity(&self, key: &LocalEntityKey) -> (r: Option<&EntityRecord>)
        requires
            self.wf(),
        ensures
            match r {
                Some(v) => self@.replica.entities.contains_key(key.value as u32) && v@
                    == self@.replica.entities[key.value as u32],
                None => !self@.replica.entities.contains_key(key.value as u32),
            },
    {
        self.replicate_manager.get_entity(key)
    }

    // Pass-through methods to underlying common connection

    pub fn mark_sent(&mut self, now: u64)
        requires
            old(self).wf(),
        ensures
            final(self).wf(),
            final(self)@ == (ServerConnectionView {
                connection: ConnectionView { last_sent_at: now, ..old(self)@.connection },
                ..old(self)@
            }),
    {
        self.connection.mark_sent(now);
    }

    pub fn should_send_heartbeat(&self, now: u64) -> (b: bool)
        ensures
            b == (elapsed_between(self@.connection.last_sent_at, now)
                >= self@.connection.heartbeat_interval),
    {
        self.connection.should_send_heartbeat(now)
    }

    pub fn mark_heard(&mut self, now: u64)
        requires
            old(self).wf(),
        ensures
            final(self).wf(),
            final(self)@ == (ServerConnectionView {
                connection: ConnectionView { last_heard_at: now, ..old(self)@.connection },
                ..old(self)@
            }),
    {
        self.connection.mark_heard(now);
    }

    pub fn should_drop(&self, now: u64) -> (b: bool)
        ensures
            b == (elapsed_between(self@.connection.last_heard_at, now) >= self@.connection.timeout),
    {
        self.connection.should_drop(now)
    }

    /// Takes a header from the server: the server-tick estimate follows
    /// the header's tick with the round-trip time and jitter measured so
    /// far, the connection settles the packets in flight, and the time to
    /// confirmation of each confirmed packet is taken as a round-trip
    /// sample.
    pub fn process_incoming_header(
        &mut self,
        header: &StandardHeader,
        tick_manager: &mut TickManager,
        now: u64,
    ) -> (notices: Vec<AckNotice>)
        requires
            old(self).wf(),
            old(tick_manager).wf(),
        ensures
            final(self).wf(),
            final(tick_manager).wf(),
            final(tick_manager)@ == (TickView {
                server_tick: crate::sequence::advance(
                    header.host_tick,
                    crate::tick_manager::server_tick_lead(
                        (old(self)@.ping.estimate.rtt / 1000) as u32,
                        (old(self)@.ping.estimate.jitter / 1000) as u32,
                        old(tick_manager)@.tick_duration,
                    ) % 65536,
                ),
                ..old(tick_manager)@
            }),
            notices@ == notices_of(
                old(self)@.connection.ack.sent,
                header.last_remote_packet_index,
                header.ack_field,
                now,
            ),
            final(self)@ == (ServerConnectionView {
                connection: final(self)@.connection,
                ping: PingView {
                    estimate: estimate_noticed(
                        old(self)@.ping.estimate,
                        notices@,
                        old(self)@.ping.sample_size,
                    ),
                    ..old(self)@.ping
                },
                ..old(self)@
            }),
            connection_heard(old(self)@.connection, final(self)@.connection, *header, notices@),
            final(self)@ == header_heard(old(self)@, *header, now),
            final(tick_manager)@ == ticks_after_header(old(tick_manager)@, old(self)@, *header),
    {
        tick_manager.record_server_tick(
            header.host_tick(),
            self.ping_manager.get_rtt(),
            self.ping_manager.get_jitter(),
        );
        let notices = self.connection.process_incoming_header(header, now);
        let ghost start = self@.ping;
        let ghost mid = self@;
        let mut i: usize = 0;
        while i < notices.len()
            invariant
                i <= notices@.len(),
                self.wf(),
                start == mid.ping,
                self@ == (ServerConnectionView {
                    ping: PingView {
                        estimate: estimate_noticed(
                            start.estimate,
                            notices@.subrange(0, i as int),
                            start.sample_size,
                        ),
                        ..start
                    },
                    ..mid
                }),
            decreases notices@.len() - i,
        {
            let notice = notices[i];
            proof {
                let part = notices@.subrange(0, i + 1);
                assert(part.drop_last() =~= notices@.subrange(0, i as int));
                assert(part.last() == notice);
            }
            if notice.delivered {
                self.ping_manager.process_new_rtt(notice.elapsed);
            }
            i += 1;
        }
        assert(notices@.subrange(0, i as int) =~= notices@);
        notices
    }

    pub fn process_outgoing_header(
        &mut self,
        host_tick: u16,
        packet_type: PacketType,
        payload: &Vec<u8>,
        now: u64,
    ) -> (packet: Vec<u8>)
        requires
            old(self).wf(),
        ensures
            final(self).wf(),
            packet@ == encode_header(
                outgoing_header(old(self)@.connection.ack, packet_type, host_tick),
            ) + payload@,
            final(self)@ == (ServerConnectionView {
                connection: ConnectionView {
                    ack: crate::ack_manager::AckView {
                        next_index: crate::sequence::advance(
                            old(self)@.connection.ack.next_index,
                            1,
                        ),
                        sent: old(self)@.connection.ack.sent.push(
                            crate::ack_manager::SentPacket {
                                packet_index: old(self)@.connection.ack.next_index,
                                packet_type,
                                sent_at: now,
                            },
                        ),
                        ..old(self)@.connection.ack
                    },
                    ..old(self)@.connection
                },
                ..old(self)@
            }),
            final(self)@ == header_sent(old(self)@, packet_type, now),
    {
        self.connection.process_outgoing_header(host_tick, packet_type, payload, now)
    }

    pub fn get_next_packet_index(&self) -> (i: u16)
        ensures
            i == self@.connection.ack.next_index,
    {
        self.connection.get_next_packet_index()
    }

    pub fn queue_message(&mut self, message: Variant, guaranteed_delivery: bool)
        requires
            old(self).wf(),
            message.wf(),
        ensures
            final(self).wf(),
            final(self)@ == (ServerConnectionView {
                connection: ConnectionView {
                    messages: MessageView {
                        outgoing: old(self)@.connection.messages.outgoing.push(
                            (message@, guaranteed_delivery),
                        ),
                        ..old(self)@.connection.messages
                    },
                    ..old(self)@.connection
                },
                ..old(self)@
            }),
    {
        self.connection.queue_message(message, guaranteed_delivery);
    }

    /// Hands out the oldest message received.
    pub fn get_incoming_event(&mut self) -> (r: Option<Variant>)
        requires
            old(self).wf(),
        ensures
            final(self).wf(),
            match r {
                Some(m) => old(self)@.connection.messages.incoming.len() > 0 && m@
                    == old(self)@.connection.messages.incoming[0] && final(self)@
                    == (ServerConnectionView {
                    connection: ConnectionView {
                        messages: MessageView {
                            incoming: old(self)@.connection.messages.incoming.drop_first(),
                            ..old(self)@.connection.messages
                        },
                        ..old(self)@.connection
                    },
                    ..old(self)@
                }),
                None => old(self)@.connection.messages.incoming.len() == 0 && final(self)@ == old(self)@,
            },
    {
        self.connection.get_incoming_message()
    }

    pub fn get_last_received_tick(&self) -> (t: u16)
        ensures
            t == self@.connection.last_received_tick,
    {
        self.connection.get_last_received_tick()
    }

    // command related

    /// Queues a command for the object pawn under `object_key`.
    pub fn replicate_queue_command(&mut self, object_key: &LocalObjectKey, command: Variant)
        requires
            old(self).wf(),
            command.wf(),
        ensures
            final(self).wf(),
            final(self)@ == (ServerConnectionView {
                queued_commands: queued_put(
                    old(self)@.queued_commands,
                    PawnKey::Object(*object_key),
                    command@,
                ),
                ..old(self)@
            }),
    {
        let pawn_key = PawnKey::Object(*object_key);
        self.command_sender.queue_command(&pawn_key, command);
    }

    /// Queues a command for the entity pawn under `entity_key`.
    pub fn entity_queue_command(&mut self, entity_key: &LocalEntityKey, command: Variant)
        requires
            old(self).wf(),
            command.wf(),
        ensures
            final(self).wf(),
            final(self)@ == (ServerConnectionView {
                queued_commands: queued_put(
                    old(self)@.queued_commands,
                    PawnKey::Entity(*entity_key),
                    command@,
                ),
                ..old(self)@
            }),
    {
        let pawn_key = PawnKey::Entity(*entity_key);
        self.command_sender.queue_command(&pawn_key, command);
    }

    /// Prepares the replays that updates of pawns have asked for.
    pub fn process_replays(&mut self)
        requires
            old(self).wf(),
        ensures
            final(self).wf(),
            final(self)@ == (ServerConnectionView {
                commands: replays_prepared(old(self)@.commands),
                replica: pawns_reset(old(self)@.replica, old(self)@.commands.triggers),
                ..old(self)@
            }),
    {
        self.command_receiver.process_command_replay(&mut self.replicate_manager);
    }

    /// Hands out the oldest command that waits to be replayed.
    pub fn get_incoming_replay(&mut self) -> (r: Option<(PawnKey, Variant)>)
        requires
            old(self).wf(),
        ensures
            final(self).wf(),
            match r {
                Some((pawn_key, command)) => old(self)@.commands.replays.len() > 0 && pawn_key
                    == old(self)@.commands.replays[0].1 && command@
                    == old(self)@.commands.replays[0].2 && final(self)@ == (ServerConnectionView {
                    commands: CommandsView {
                        replays: old(self)@.commands.replays.drop_first(),
                        ..old(self)@.commands
                    },
                    ..old(self)@
                }),
                None => old(self)@.commands.replays.len() == 0 && final(self)@ == old(self)@,
            },
    {
        match self.command_receiver.pop_command_replay() {
            Some(c) => Some((c.pawn_key, c.command)),
            None => None,
        }
    }

    /// Hands out the oldest command that was sent and waits to be applied
    /// locally.
    pub fn get_incoming_command(&mut self) -> (r: Option<(PawnKey, Variant)>)
        requires
            old(self).wf(),
        ensures
            final(self).wf(),
            match r {
                Some((pawn_key, command)) => old(self)@.commands.incoming.len() > 0 && pawn_key
                    == old(self)@.commands.incoming[0].1 && command@
                    == old(self)@.commands.incoming[0].2 && final(self)@ == (ServerConnectionView {
                    commands: CommandsView {
                        incoming: old(self)@.commands.incoming.drop_first(),
                        ..old(self)@.commands
                    },
                    ..old(self)@
                }),
                None => old(self)@.commands.incoming.len() == 0 && final(self)@ == old(self)@,
            },
    {
        match self.command_receiver.pop_command() {
            Some(c) => Some((c.pawn_key, c.command)),
            None => None,
        }
    }

    // ping related

    pub fn should_send_ping(&self, now: u64) -> (b: bool)
        ensures
            b == (elapsed_between(self@.ping.last_ping_at, now) >= self@.ping.ping_interval),
    {
        self.ping_manager.should_send_ping(now)
    }

    /// The payload of the next ping.
    pub fn get_ping_payload(&mut self, now: u64) -> (payload: Vec<u8>)
        requires
            old(self).wf(),
        ensures
            final(self).wf(),
            payload@ == crate::wire::u16_bytes(old(self)@.ping.next_ping_index),
            final(self)@ == (ServerConnectionView { ping: final(self)@.ping, ..old(self)@ }),
            final(self)@.ping == crate::ping_manager::ping_sent(old(self)@.ping, now),
    {
        self.ping_manager.get_ping_payload(now)
    }

    /// Handles a pong that arrived at `now`.
    pub fn process_pong(&mut self, pong_payload: &[u8], now: u64) -> (sample: Option<u64>)
        requires
            old(self).wf(),
        ensures
            final(self).wf(),
            final(self)@ == (ServerConnectionView { ping: final(self)@.ping, ..old(self)@ }),
            crate::ping_manager::pong_heard(
                old(self)@.ping,
                final(self)@.ping,
                pong_payload@,
                now,
                sample,
            ),
            final(self)@ == (ServerConnectionView {
                ping: crate::ping_manager::ping_after_pong(old(self)@.ping, pong_payload@, now),
                ..old(self)@
            }),
    {
        self.ping_manager.process_pong(pong_payload, now)
    }

    /// The average round-trip time in milliseconds.
    pub fn get_rtt(&self) -> (rtt: u32)
        requires
            self.wf(),
        ensures
            rtt == self@.ping.estimate.rtt / 1000,
    {
        self.ping_manager.get_rtt()
    }

    /// The average jitter in milliseconds.
    pub fn get_jitter(&self) -> (jitter: u32)
        requires
            self.wf(),
        ensures
            jitter == self@.ping.estimate.jitter / 1000,
    {
        self.ping_manager.get_jitter()
    }

    /// Processes the payload of a data packet of tick `packet_tick`, block
    /// by block. The first block that breaks the protocol stops the
    /// processing with its error; what was processed before stays.
    pub fn process_incoming_data(
        &mut self,
        packet_tick: u16,
        _packet_index: u16,
        manifest: &Manifest,
        data: &[u8],
    ) -> (r: Result<(), ProtocolError>)
        requires
            old(self).wf(),
            manifest.wf(),
        ensures
            final(self).wf(),
            ({
                let out = data_processed(
                    old(self)@,
                    manifest.events().prototypes(),
                    manifest.entities().prototypes(),
                    data@,
                    0,
                    packet_tick,
                );
                &&& final(self)@ == out.state
                &&& match out.error {
                    Some(e) => r == Err::<(), ProtocolError>(e),
                    None => r is Ok,
                }
            }),
    {
        let mut reader = PacketReader::new(data);
        let ghost events = manifest.events().prototypes();
        let ghost entities = manifest.entities().prototypes();
        let ghost goal = data_processed(old(self)@, events, entities, data@, 0, packet_tick);
        while reader.has_more()
            invariant
                self.wf(),
                manifest.wf(),
                reader.wf(),
                reader.data() == data@,
                events == manifest.events().prototypes(),
                entities == manifest.entities().prototypes(),
                goal == data_processed(old(self)@, events, entities, data@, 0, packet_tick),
                goal == data_processed(self@, events, entities, data@, reader.pos(), packet_tick),
            decreases reader.data().len() - reader.pos(),
        {
            let at = reader.get_cursor();
            let manager_type = match reader.read_u8() {
                Some(v) => v,
                None => {
                    return Err(ProtocolError::Malformed);
                },
            };
            if manager_type == MANAGER_MESSAGE {
                match self.connection.process_message_data(&mut reader, manifest) {
                    Ok(()) => {},
                    Err(e) => {
                        return Err(e);
                    },
                }
            } else if manager_type == MANAGER_REPLICATE {
                match self.replicate_manager.process_data(
                    manifest,
                    &mut self.command_receiver,
                    packet_tick,
                    &mut reader,
                ) {
                    Ok(()) => {},
                    Err(e) => {
                        return Err(e);
                    },
                }
            } else {
                return Err(ProtocolError::Malformed);
            }
            if reader.get_cursor() <= at {
                return Err(ProtocolError::Malformed);
            }
        }
        Ok(())
    }

    /// Puts a data packet of tick `incoming_tick` into the jitter buffer.
    pub fn buffer_data_packet(
        &mut self,
        incoming_tick: u16,
        incoming_packet_index: u16,
        incoming_payload: &Vec<u8>,
    )
        requires
            old(self).wf(),
        ensures
            final(self).wf(),
            final(self)@ == (ServerConnectionView {
                jitter: old(self)@.jitter.push(
                    (incoming_tick, (incoming_packet_index, incoming_payload@)),
                ),
                ..old(self)@
            }),
    {
        let payload = crate::wire::copy_bytes(incoming_payload);
        self.jitter_buffer.add_item(
            incoming_tick,
            BufferedPacket { index: incoming_packet_index, payload },
        );
        assert(self@.jitter =~= old(self)@.jitter.push(
            (incoming_tick, (incoming_packet_index, incoming_payload@)),
        ));
    }

    /// Takes the earliest waiting data packet out of the jitter buffer if
    /// `current_tick` has reached its tick.
    pub fn get_buffered_data_packet(&mut self, current_tick: u16) -> (r: Option<
        (u16, u16, Vec<u8>),
    >)
        requires
            old(self).wf(),
        ensures
            final(self).wf(),
            match r {
                Some((tick, index, payload)) => {
                    let e = earliest(ticks_of(old(self)@.jitter));
                    &&& old(self)@.jitter.len() > 0
                    &&& (tick, (index, payload@)) == old(self)@.jitter[e]
                    &&& not_after(tick, current_tick)
                    &&& final(self)@ == (ServerConnectionView {
                        jitter: old(self)@.jitter.remove(e),
                        ..old(self)@
                    })
                },
                None => {
                    &&& final(self)@ == old(self)@
                    &&& old(self)@.jitter.len() > 0 ==> !not_after(
                        old(self)@.jitter[earliest(ticks_of(old(self)@.jitter))].0,
                        current_tick,
                    )
                },
            },
    {
        proof {
            assert(ticks_of(self.jitter_buffer@) =~= ticks_of(self@.jitter));
            if self.jitter_buffer@.len() > 0 {
                lemma_earliest_in_range(ticks_of(self.jitter_buffer@));
            }
        }
        match self.jitter_buffer.pop_item(current_tick) {
            Some((tick, packet)) => {
                proof {
                    let e = earliest(ticks_of(old(self)@.jitter));
                    assert(self@.jitter =~= old(self)@.jitter.remove(e));
                }
                Some((tick, packet.index, packet.payload))
            },
            None => {
                assert(self@.jitter =~= old(self)@.jitter);
                None
            },
        }
    }

    /// Reads buffered incoming data on the appropriate tick boundary: if a
    /// tick interval was completed, the waiting packets that the server
    /// tick estimate has reached are processed, earliest tick first.
    pub fn frame_begin(&mut self, manifest: &Manifest, tick_manager: &mut TickManager, now: u64) -> (r:
        Result<bool, ProtocolError>)
        requires
            old(self).wf(),
            old(tick_manager).wf(),
            manifest.wf(),
        ensures
            final(self).wf(),
            final(tick_manager).wf(),
            ({
                let ticked = elapsed_between(old(tick_manager)@.tick_began_at, now) >= old(tick_manager)@.tick_duration;
                if ticked {
                    let out = frame_processed(
                        old(self)@,
                        manifest.events().prototypes(),
                        manifest.entities().prototypes(),
                        final(tick_manager)@.server_tick,
                    );
                    &&& final(tick_manager)@ == (TickView {
                        client_tick: crate::sequence::advance(old(tick_manager)@.client_tick, 1),
                        server_tick: crate::sequence::advance(old(tick_manager)@.server_tick, 1),
                        tick_began_at: (old(tick_manager)@.tick_began_at + old(tick_manager)@.tick_duration) as u64,
                        ..old(tick_manager)@
                    })
                    &&& final(self)@ == out.state
                    &&& match out.error {
                        Some(e) => r == Err::<bool, ProtocolError>(e),
                        None => r == Ok::<bool, ProtocolError>(true),
                    }
                } else {
                    &&& final(tick_manager)@ == old(tick_manager)@
                    &&& final(self)@ == old(self)@
                    &&& r == Ok::<bool, ProtocolError>(false)
                }
            }),
    {
        if !tick_manager.mark_frame(now) {
            return Ok(false);
        }
        let target_tick = tick_manager.get_server_tick();
        let ghost events = manifest.events().prototypes();
        let ghost entities = manifest.entities().prototypes();
        let ghost goal = frame_processed(old(self)@, events, entities, target_tick);
        let ghost ticking = tick_manager@;
        loop
            invariant
                self.wf(),
                manifest.wf(),
                tick_manager.wf(),
                tick_manager@ == ticking,
                target_tick == ticking.server_tick,
                elapsed_between(old(tick_manager)@.tick_began_at, now) >= old(tick_manager)@.tick_duration,
                ticking == (TickView {
                    client_tick: crate::sequence::advance(old(tick_manager)@.client_tick, 1),
                    server_tick: crate::sequence::advance(old(tick_manager)@.server_tick, 1),
                    tick_began_at: (old(tick_manager)@.tick_began_at + old(tick_manager)@.tick_duration) as u64,
                    ..old(tick_manager)@
                }),
                events == manifest.events().prototypes(),
                entities == manifest.entities().prototypes(),
                goal == frame_processed(old(self)@, events, entities, target_tick),
                frame_processed(self@, events, entities, target_tick).state == goal.state,
                frame_processed(self@, events, entities, target_tick).error == goal.error,
            decreases self@.jitter.len(),
        {
            match self.frame_step(manifest, target_tick) {
                Ok(true) => {},
                Ok(false) => {
                    return Ok(true);
                },
                Err(e) => {
                    return Err(e);
                },
            }
        }
    }

    /// Processes the earliest waiting packet if `target_tick` has reached
    /// it. The result says whether a packet was processed.
    fn frame_step(&mut self, manifest: &Manifest, target_tick: u16) -> (r: Result<
        bool,
        ProtocolError,
    >)
        requires
            old(self).wf(),
            manifest.wf(),
        ensures
            final(self).wf(),
            ({
                let before = frame_processed(
                    old(self)@,
                    manifest.events().prototypes(),
                    manifest.entities().prototypes(),
                    target_tick,
                );
                let after = frame_processed(
                    final(self)@,
                    manifest.events().prototypes(),
                    manifest.entities().prototypes(),
                    target_tick,
                );
                match r {
                    Ok(more) => if more {
                        &&& final(self)@.jitter.len() < old(self)@.jitter.len()
                        &&& after.state == before.state
                        &&& after.error == before.error
                    } else {
                        &&& final(self)@ == old(self)@
                        &&& before.state == old(self)@
                        &&& before.error is None
                    },
                    Err(e) => before.state == final(self)@ && before.error == Some(e),
                }
            }),
    {
        let ghost events = manifest.events().prototypes();
        let ghost entities = manifest.entities().prototypes();
        let ghost s0 = self@;
        reveal(frame_processed);
        match self.get_buffered_data_packet(target_tick) {
            Some((tick, packet_index, data_packet)) => {
                let ghost s1 = self@;
                proof {
                    lemma_data_processed_frame(s1, events, entities, data_packet@, 0, tick);
                    let e = earliest(ticks_of(s0.jitter));
                    lemma_earliest_in_range(ticks_of(s0.jitter));
                    assert(s0.jitter[e] == (tick, (packet_index, data_packet@)));
                    assert(s1 == (ServerConnectionView { jitter: s0.jitter.remove(e), ..s0 }));
                }
                let r = self.process_incoming_data(
                    tick,
                    packet_index,
                    manifest,
                    data_packet.as_slice(),
                );
                match r {
                    Ok(()) => Ok(true),
                    Err(e) => Err(e),
                }
            },
            None => Ok(false),
        }
    }
}

} // verus!
