//! The server's end of a connection to one client. It composes the shared
//! connection state with what the server replicates to the client and with
//! the commands that the client sends.

use crate::ack_manager::{notices_of, outgoing_header, AckNotice, AckView, SentPacket};
use crate::command_block::take_command_block;
use crate::command_receiver::{
    command_view, popped, stored_entries, CommandQueueView, CommandReceiver,
};
use crate::config::{valid_config, ServerConfig};
use crate::connection::{messages_drained, Connection, ConnectionView};
use crate::error::ProtocolError;
use crate::keys::{LocalComponentKey, LocalEntityKey, LocalObjectKey, PawnKey};
use crate::locality_status::LocalityStatus;
use crate::manifest::Manifest;
use crate::message_manager::{take_message_block, MessageView};
use crate::packet_writer::{
    empty_writer, writer_bytes, writer_size, PacketWriter, MANAGER_COMMAND, MANAGER_MESSAGE,
    MANAGER_REPLICATE, MTU_SIZE,
};
use crate::replicate_record::ReplicateKind;
use crate::replicate_sender::{
    all_given_up, block_written, delivered, despawned, pawn_set, record_position, spawned,
    written_to, ReplicateSender, SenderView, SpawnError,
};
use crate::sequence::advance;
use crate::standard_header::{encode_header, PacketType, StandardHeader};
use crate::variant::{Variant, VariantView, MAX_PROPERTY_LEN};
use crate::wire::{write_bytes, PacketReader};
use vstd::prelude::*;

verus! {

/// The abstract state of the server's end of the connection.
pub struct ClientConnectionView {
    pub connection: ConnectionView,
    pub sender: SenderView,
    pub commands: CommandQueueView,
}

/// The sender after one notice: a data packet that was confirmed settles
/// what it carried, one that was given up has it sent again.
pub open spec fn sender_noticed(s: SenderView, notice: AckNotice) -> SenderView {
    if notice.packet_type != PacketType::Data {
        s
    } else if notice.delivered {
        delivered(s, notice.packet_index)
    } else {
        SenderView { records: all_given_up(s.records, notice.packet_index), ..s }
    }
}

/// The sender after a list of notices, taken in order.
pub open spec fn sender_after(s: SenderView, notices: Seq<AckNotice>) -> SenderView
    decreases notices.len(),
{
    if notices.len() == 0 {
        s
    } else {
        sender_noticed(sender_after(s, notices.drop_last()), notices.last())
    }
}

/// A connection on which nothing has happened, with its clocks at `now`.
pub open spec fn fresh_client_connection(config: ServerConfig, now: u64) -> ClientConnectionView {
    ClientConnectionView {
        connection: ConnectionView {
            heartbeat_interval: config.heartbeat_interval,
            timeout: config.disconnection_timeout_duration,
            last_sent_at: now,
            last_heard_at: now,
            last_received_tick: 0,
            ack: AckView {
                next_index: 0,
                sent: Seq::empty(),
                received: Map::empty(),
                received_next: 0,
            },
            messages: MessageView {
                outgoing: Seq::empty(),
                in_flight: Seq::empty(),
                incoming: Seq::empty(),
            },
        },
        sender: SenderView {
            object_keys: crate::key_generator::KeyPool { issued: 0, released: Seq::empty() },
            entity_keys: crate::key_generator::KeyPool { issued: 0, released: Seq::empty() },
            records: Seq::empty(),
        },
        commands: CommandQueueView { next: 0, ticks: Map::empty() },
    }
}

/// What a call for the next outgoing packet leaves behind, and the packet.
pub struct ServerOutgoing {
    pub state: ClientConnectionView,
    pub packet: Option<Seq<u8>>,
}

/// The next data packet for the client at `host_tick`: the waiting
/// messages as far as they fit, then the actions that are due as far as
/// they fit in what is left, behind the header; none where nothing is
/// written. The packet is then in flight, sent at `now`.
pub open spec fn server_outgoing(s: ClientConnectionView, host_tick: u16, now: u64) -> ServerOutgoing {
    let index = s.connection.ack.next_index;
    let md = messages_drained(s.connection.messages, empty_writer(), index);
    let room = MTU_SIZE - writer_size(md.1) - 2;
    let records = if room >= 0 {
        block_written(s.sender.records, index, room).done
    } else {
        s.sender.records
    };
    let count = if room >= 0 {
        block_written(s.sender.records, index, room).count
    } else {
        0
    };
    let actions = if count > 0 {
        seq![MANAGER_REPLICATE, count as u8] + block_written(s.sender.records, index, room).bytes
    } else {
        Seq::empty()
    };
    let s1 = ClientConnectionView {
        connection: ConnectionView { messages: md.0, ..s.connection },
        sender: SenderView { records, ..s.sender },
        ..s
    };
    if md.1.message_count != 0 || count > 0 {
        ServerOutgoing {
            state: ClientConnectionView {
                connection: ConnectionView {
                    ack: AckView {
                        next_index: advance(index, 1),
                        sent: s.connection.ack.sent.push(
                            SentPacket {
                                packet_index: index,
                                packet_type: PacketType::Data,
                                sent_at: now,
                            },
                        ),
                        ..s.connection.ack
                    },
                    ..s1.connection
                },
                ..s1
            },
            packet: Some(
                encode_header(outgoing_header(s.connection.ack, PacketType::Data, host_tick))
                    + (writer_bytes(md.1) + actions),
            ),
        }
    } else {
        ServerOutgoing { state: s1, packet: None }
    }
}

/// How far the processing of received data got.
pub struct ServerDataOutcome {
    pub state: ClientConnectionView,
    pub error: Option<ProtocolError>,
}

/// The state after messages have arrived for the application.
pub open spec fn server_messages_received(s: ClientConnectionView, messages: Seq<VariantView>) -> ClientConnectionView {
    ClientConnectionView {
        connection: ConnectionView {
            messages: MessageView {
                incoming: s.connection.messages.incoming + messages,
                ..s.connection.messages
            },
            ..s.connection
        },
        ..s
    }
}

/// The state after the blocks of a data packet from `pos` on have been
/// processed: a command block files its commands under the client's tick,
/// a message block queues its messages for the application. The first
/// block that fails, or that belongs to no manager of the server, stops the
/// processing.
pub open spec fn server_data_processed(
    s: ClientConnectionView,
    events: Seq<VariantView>,
    bytes: Seq<u8>,
    pos: int,
    server_tick: u16,
    client_tick: u16,
) -> ServerDataOutcome
    decreases bytes.len() - pos,
{
    if pos < 0 || pos >= bytes.len() {
        ServerDataOutcome { state: s, error: None }
    } else if bytes[pos] == MANAGER_MESSAGE {
        match take_message_block(events, bytes, pos + 1) {
            Some((messages, end)) => {
                let s1 = server_messages_received(s, messages);
                if pos < end <= bytes.len() {
                    server_data_processed(s1, events, bytes, end, server_tick, client_tick)
                } else {
                    ServerDataOutcome { state: s1, error: Some(ProtocolError::Malformed) }
                }
            },
            None => ServerDataOutcome { state: s, error: Some(ProtocolError::Malformed) },
        }
    } else if bytes[pos] == MANAGER_COMMAND {
        match take_command_block(events, bytes, pos + 1) {
            Some((entries, end)) => {
                let s1 = ClientConnectionView {
                    commands: stored_entries(s.commands, server_tick, client_tick, entries),
                    ..s
                };
                if pos < end <= bytes.len() {
                    server_data_processed(s1, events, bytes, end, server_tick, client_tick)
                } else {
                    ServerDataOutcome { state: s1, error: Some(ProtocolError::Malformed) }
                }
            },
            None => ServerDataOutcome { state: s, error: Some(ProtocolError::Malformed) },
        }
    } else {
        ServerDataOutcome { state: s, error: Some(ProtocolError::Malformed) }
    }
}

/// Represents a connection to a client.
pub struct ClientConnection {
    connection: Connection,
    replicate_sender: ReplicateSender,
    command_receiver: CommandReceiver,
}

impl View for ClientConnection {
    type V = ClientConnectionView;

    closed spec fn view(&self) -> ClientConnectionView {
        ClientConnectionView {
            connection: self.connection@,
            sender: self.replicate_sender@,
            commands: self.command_receiver@,
        }
    }
}

impl ClientConnection {
    pub closed spec fn wf(&self) -> bool {
        &&& self.connection.wf()
        &&& self.replicate_sender.wf()
        &&& self.command_receiver.wf()
    }

    /// A fresh connection whose clocks start at `now`; none where the
    /// settings are not valid.
    pub fn new(connection_config: &ServerConfig, now: u64) -> (r: Option<Self>)
        ensures
            r is Some <==> valid_config(*connection_config),
            r matches Some(c) ==> c.wf() && c@ == fresh_client_connection(*connection_config, now),
    {
        if !connection_config.is_valid() {
            return None;
        }
        Some(
            ClientConnection {
                connection: Connection::new(connection_config, now),
                replicate_sender: ReplicateSender::new(),
                command_receiver: CommandReceiver::new(),
            },
        )
    }

    /// The next data packet for the client, if any message or action is
    /// written.
    pub fn get_outgoing_packet(&mut self, host_tick: u16, now: u64) -> (r: Option<Vec<u8>>)
        requires
            old(self).wf(),
        ensures
            final(self).wf(),
            final(self)@ == server_outgoing(old(self)@, host_tick, now).state,
            match server_outgoing(old(self)@, host_tick, now).packet {
                Some(bytes) => r is Some && r.unwrap()@ == bytes,
                None => r is None,
            },
    {
        let index = self.connection.get_next_packet_index();
        let mut writer = PacketWriter::new();
        proof {
            crate::connection::lemma_messages_drained_commands(
                self@.connection.messages,
                empty_writer(),
                index,
            );
        }
        self.connection.write_messages(&mut writer);
        let used = writer.bytes_number();
        let mut any = writer.has_bytes();
        let ghost w = writer@;
        let mut payload = writer.get_bytes();
        assert(payload@ + Seq::<u8>::empty() =~= payload@);
        if used + 2 <= MTU_SIZE {
            let (bytes, count) = self.replicate_sender.write_outgoing(index, MTU_SIZE - used - 2);
            if count > 0 {
                let ghost before = payload@;
                payload.push(MANAGER_REPLICATE);
                payload.push(count);
                write_bytes(&mut payload, &bytes);
                assert(payload@ =~= before + (seq![MANAGER_REPLICATE, count] + bytes@));
                any = true;
            }
        }
        if any {
            Some(self.connection.process_outgoing_header(host_tick, PacketType::Data, &payload, now))
        } else {
            None
        }
    }

    /// Takes a header from the client: the connection settles the packets
    /// in flight, and what went out in each data packet is settled or sent
    /// again.
    pub fn process_incoming_header(&mut self, header: &StandardHeader, now: u64) -> (notices: Vec<
        AckNotice,
    >)
        requires
            old(self).wf(),
        ensures
            final(self).wf(),
            notices@ == notices_of(
                old(self)@.connection.ack.sent,
                header.last_remote_packet_index,
                header.ack_field,
                now,
            ),
            crate::server_connection::connection_heard(
                old(self)@.connection,
                final(self)@.connection,
                *header,
                notices@,
            ),
            final(self)@.sender == sender_after(old(self)@.sender, notices@),
            final(self)@.commands == old(self)@.commands,
    {
        let notices = self.connection.process_incoming_header(header, now);
        let ghost mid = self@;
        let mut i: usize = 0;
        while i < notices.len()
            invariant
                i <= notices@.len(),
                self.wf(),
                self@ == (ClientConnectionView {
                    sender: sender_after(mid.sender, notices@.subrange(0, i as int)),
                    ..mid
                }),
            decreases notices@.len() - i,
        {
            let notice = notices[i];
            proof {
                let part = notices@.subrange(0, i + 1);
                assert(part.drop_last() =~= notices@.subrange(0, i as int));
                assert(part.last() == notice);
            }
            match notice.packet_type {
                PacketType::Data => {
                    if notice.delivered {
                        self.replicate_sender.notify_packet_delivered(notice.packet_index);
                    } else {
                        self.replicate_sender.notify_packet_dropped(notice.packet_index);
                    }
                },
                _ => {},
            }
            i += 1;
        }
        assert(notices@.subrange(0, i as int) =~= notices@);
        notices
    }

    /// Processes the payload of a data packet that the client sent at its
    /// tick `client_tick`, block by block. The first block that breaks the
    /// protocol stops the processing with its error; what was processed
    /// before stays.
    pub fn process_incoming_data(
        &mut self,
        server_tick: u16,
        client_tick: u16,
        manifest: &Manifest,
        data: &[u8],
    ) -> (r: Result<(), ProtocolError>)
        requires
            old(self).wf(),
            manifest.wf(),
        ensures
            final(self).wf(),
            ({
                let out = server_data_processed(
                    old(self)@,
                    manifest.events().prototypes(),
                    data@,
                    0,
                    server_tick,
                    client_tick,
                );
                &&& final(self)@ == out.state
                &&& match out.error {
                    Some(e) => r == Err::<(), ProtocolError>(e),
                    None => r is Ok,
                }
            }),
    {
        let mut reader = PacketReader::new(data);
        let ghost events = manifest.events().prototypes();
        let ghost goal = server_data_processed(
            old(self)@,
            events,
            data@,
            0,
            server_tick,
            client_tick,
        );
        while reader.has_more()
            invariant
                self.wf(),
                manifest.wf(),
                reader.wf(),
                reader.data() == data@,
                events == manifest.events().prototypes(),
                goal == server_data_processed(
                    old(self)@,
                    events,
                    data@,
                    0,
                    server_tick,
                    client_tick,
                ),
                goal == server_data_processed(
                    self@,
                    events,
                    data@,
                    reader.pos(),
                    server_tick,
                    client_tick,
                ),
            decreases reader.data().len() - reader.pos(),
        {
            let at = reader.get_cursor();
            let manager_type = match reader.read_u8() {
                Some(v) => v,
                None => {
                    return Err(ProtocolError::Malformed);
                },
            };
            if manager_type == MANAGER_MESSAGE {
                match self.connection.process_message_data(&mut reader, manifest) {
                    Ok(()) => {},
                    Err(e) => {
                        return Err(e);
                    },
                }
            } else if manager_type == MANAGER_COMMAND {
                match self.command_receiver.process_data(
                    server_tick,
                    client_tick,
                    &mut reader,
                    manifest,
                ) {
                    Ok(()) => {},
                    Err(e) => {
                        return Err(e);
                    },
                }
            } else {
                return Err(ProtocolError::Malformed);
            }
            if reader.get_cursor() <= at {
                return Err(ProtocolError::Malformed);
            }
        }
        Ok(())
    }

    /// Takes the first command that waits under `server_tick`, the tick
    /// that is simulated now, and discards what waits under older ticks.
    pub fn pop_incoming_command(&mut self, server_tick: u16) -> (r: Option<(PawnKey, Variant)>)
        requires
            old(self).wf(),
        ensures
            final(self).wf(),
            final(self)@ == (ClientConnectionView {
                commands: popped(old(self)@.commands, server_tick).0,
                ..old(self)@
            }),
            command_view(r) == popped(old(self)@.commands, server_tick).1,
    {
        self.command_receiver.pop_incoming_command(server_tick)
    }

    /// A standalone object enters the client's scope.
    pub fn spawn_object(&mut self, global: u32, value: Variant) -> (r: Result<
        LocalObjectKey,
        SpawnError,
    >)
        requires
            old(self).wf(),
            value.wf(),
        ensures
            final(self).wf(),
            match spawned(old(self)@.sender, global, ReplicateKind::Object, value@) {
                Ok((s, key)) => r == Ok::<LocalObjectKey, SpawnError>(LocalObjectKey { value: key })
                    && final(self)@ == (ClientConnectionView { sender: s, ..old(self)@ }),
                Err(e) => r == Err::<LocalObjectKey, SpawnError>(e) && final(self)@ == old(self)@,
            },
    {
        self.replicate_sender.spawn_object(global, value)
    }

    /// An entity enters the client's scope.
    pub fn spawn_entity(&mut self, global: u32) -> (r: Result<LocalEntityKey, SpawnError>)
        requires
            old(self).wf(),
        ensures
            final(self).wf(),
            match spawned(
                old(self)@.sender,
                global,
                ReplicateKind::Entity,
                VariantView { naia_id: 0, props: Seq::empty() },
            ) {
                Ok((s, key)) => r == Ok::<LocalEntityKey, SpawnError>(LocalEntityKey { value: key })
                    && final(self)@ == (ClientConnectionView { sender: s, ..old(self)@ }),
                Err(e) => r == Err::<LocalEntityKey, SpawnError>(e) && final(self)@ == old(self)@,
            },
    {
        self.replicate_sender.spawn_entity(global)
    }

    /// A component of the entity `entity` enters the client's scope.
    pub fn insert_component(&mut self, entity: u32, global: u32, value: Variant) -> (r: Result<
        LocalComponentKey,
        SpawnError,
    >)
        requires
            old(self).wf(),
            value.wf(),
        ensures
            final(self).wf(),
            match spawned(old(self)@.sender, global, ReplicateKind::Component { entity }, value@) {
                Ok((s, key)) => r == Ok::<LocalComponentKey, SpawnError>(
                    LocalComponentKey { value: key },
                ) && final(self)@ == (ClientConnectionView { sender: s, ..old(self)@ }),
                Err(e) => r == Err::<LocalComponentKey, SpawnError>(e) && final(self)@ == old(self)@,
            },
    {
        self.replicate_sender.insert_component(entity, global, value)
    }

    /// A replicate leaves the client's scope.
    pub fn despawn(&mut self, global: u32) -> (found: bool)
        requires
            old(self).wf(),
        ensures
            final(self).wf(),
            found == (record_position(old(self)@.sender.records, global) < old(self)@.sender.records.len()),
            final(self)@ == (ClientConnectionView {
                sender: despawned(old(self)@.sender, global),
                ..old(self)@
            }),
    {
        self.replicate_sender.despawn(global)
    }

    /// Writes property `index` of `global`.
    pub fn write_property(&mut self, global: u32, index: usize, bytes: Vec<u8>) -> (done: bool)
        requires
            old(self).wf(),
        ensures
            final(self).wf(),
            done == (record_position(old(self)@.sender.records, global) < old(self)@.sender.records.len() && index < old(self)@.sender.records[record_position(
                old(self)@.sender.records,
                global,
            )].value.props.len() && bytes@.len() <= MAX_PROPERTY_LEN),
            final(self)@ == (ClientConnectionView {
                sender: written_to(old(self)@.sender, global, index as int, bytes@),
                ..old(self)@
            }),
    {
        self.replicate_sender.write_property(global, index, bytes)
    }

    /// Says whether `global` is to be the client's pawn.
    pub fn set_pawn(&mut self, global: u32, wanted: bool) -> (found: bool)
        requires
            old(self).wf(),
        ensures
            final(self).wf(),
            found == (record_position(old(self)@.sender.records, global) < old(self)@.sender.records.len()),
            final(self)@ == (ClientConnectionView {
                sender: pawn_set(old(self)@.sender, global, wanted),
                ..old(self)@
            }),
    {
        self.replicate_sender.set_pawn(global, wanted)
    }

    /// Whether `global` is in the client's scope.
    pub fn has(&self, global: u32) -> (b: bool)
        ensures
            b == (record_position(self@.sender.records, global) < self@.sender.records.len()),
    {
        self.replicate_sender.has(global)
    }

    /// The status of `global` towards the client.
    pub fn get_status(&self, global: u32) -> (r: Option<LocalityStatus>)
        ensures
            match r {
                Some(status) => record_position(self@.sender.records, global)
                    < self@.sender.records.len() && status == self@.sender.records[record_position(
                    self@.sender.records,
                    global,
                )].status,
                None => record_position(self@.sender.records, global) >= self@.sender.records.len(),
            },
    {
        self.replicate_sender.get_status(global)
    }

    /// The number of replicates in the client's scope, those being
    /// deleted included.
    pub fn record_count(&self) -> (n: usize)
        ensures
            n == self@.sender.records.len(),
    {
        self.replicate_sender.record_count()
    }

    pub fn mark_sent(&mut self, now: u64)
        requires
            old(self).wf(),
        ensures
            final(self).wf(),
            final(self)@ == (ClientConnectionView {
                connection: ConnectionView { last_sent_at: now, ..old(self)@.connection },
                ..old(self)@
            }),
    {
        self.connection.mark_sent(now);
    }

    pub fn should_send_heartbeat(&self, now: u64) -> (b: bool)
        ensures
            b == (crate::ack_manager::elapsed_between(self@.connection.last_sent_at, now)
                >= self@.connection.heartbeat_interval),
    {
        self.connection.should_send_heartbeat(now)
    }

    pub fn mark_heard(&mut self, now: u64)
        requires
            old(self).wf(),
        ensures
            final(self).wf(),
            final(self)@ == (ClientConnectionView {
                connection: ConnectionView { last_heard_at: now, ..old(self)@.connection },
                ..old(self)@
            }),
    {
        self.connection.mark_heard(now);
    }

    pub fn should_drop(&self, now: u64) -> (b: bool)
        ensures
            b == (crate::ack_manager::elapsed_between(self@.connection.last_heard_at, now)
                >= self@.connection.timeout),
    {
        self.connection.should_drop(now)
    }

    pub fn process_outgoing_header(
        &mut self,
        host_tick: u16,
        packet_type: PacketType,
        payload: &Vec<u8>,
        now: u64,
    ) -> (packet: Vec<u8>)
        requires
            old(self).wf(),
        ensures
            final(self).wf(),
            packet@ == encode_header(
                outgoing_header(old(self)@.connection.ack, packet_type, host_tick),
            ) + payload@,
            final(self)@ == (ClientConnectionView {
                connection: ConnectionView {
                    ack: AckView {
                        next_index: advance(old(self)@.connection.ack.next_index, 1),
                        sent: old(self)@.connection.ack.sent.push(
                            SentPacket {
                                packet_index: old(self)@.connection.ack.next_index,
                                packet_type,
                                sent_at: now,
                            },
                        ),
                        ..old(self)@.connection.ack
                    },
                    ..old(self)@.connection
                },
                ..old(self)@
            }),
    {
        self.connection.process_outgoing_header(host_tick, packet_type, payload, now)
    }

    pub fn queue_message(&mut self, message: Variant, guaranteed_delivery: bool)
        requires
            old(self).wf(),
            message.wf(),
        ensures
            final(self).wf(),
            final(self)@ == (ClientConnectionView {
                connection: ConnectionView {
                    messages: MessageView {
                        outgoing: old(self)@.connection.messages.outgoing.push(
                            (message@, guaranteed_delivery),
                        ),
                        ..old(self)@.connection.messages
                    },
                    ..old(self)@.connection
                },
                ..old(self)@
            }),
    {
        self.connection.queue_message(message, guaranteed_delivery);
    }

    /// Hands out the oldest message received.
    pub fn get_incoming_message(&mut self) -> (r: Option<Variant>)
        requires
            old(self).wf(),
        ensures
            final(self).wf(),
            match r {
                Some(m) => old(self)@.connection.messages.incoming.len() > 0 && m@
                    == old(self)@.connection.messages.incoming[0] && final(self)@
                    == (ClientConnectionView {
                    connection: ConnectionView {
                        messages: MessageView {
                            incoming: old(self)@.connection.messages.incoming.drop_first(),
                            ..old(self)@.connection.messages
                        },
                        ..old(self)@.connection
                    },
                    ..old(self)@
                }),
                None => old(self)@.connection.messages.incoming.len() == 0 && final(self)@ == old(self)@,
            },
    {
        self.connection.get_incoming_message()
    }

    pub fn get_last_received_tick(&self) -> (t: u16)
        ensures
            t == self@.connection.last_received_tick,
    {
        self.connection.get_last_received_tick()
    }
}

} // verus!
