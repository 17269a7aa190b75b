//! The client as the application drives it: it takes the datagrams that
//! arrive, runs the handshake, keeps the connection to the server, turns
//! what the connection receives into events for the application, and says
//! which datagrams to send. Times are in milliseconds.

use crate::ack_manager::elapsed_between;
use crate::config::{valid_config, ServerConfig};
use crate::dual_command_receiver::CommandsView;
use crate::error::ProtocolError;
use crate::handshake::{
    encode_client_message, handshake_heard, handshake_ticked, read_server_message,
    take_server_message, write_client_message, ClientHandshake, ClientPhase,
};
use crate::keys::{LocalComponentKey, LocalEntityKey, LocalObjectKey, PawnKey};
use crate::manifest::Manifest;
use crate::message_manager::MessageView;
use crate::replicate_action::{ActionView, ReplicateAction};
use crate::replicate_manager::ReplicaView;
use crate::ack_manager::outgoing_header;
use crate::dual_command_receiver::replays_prepared;
use crate::dual_command_sender::queued_put;
use crate::ping_manager::{ping_after_pong, ping_sent, PingView};
use crate::replicate_manager::pawns_reset;
use crate::server_connection::{
    frame_processed, fresh_connection, header_heard, header_sent, outgoing_packet,
    ticks_after_header, ServerConnection, ServerConnectionView,
};
use crate::standard_header::{encode_header, take_header, PacketType, StandardHeader, HEADER_SIZE};
use crate::tick_manager::{TickManager, TickView};
use crate::variant::{Variant, VariantView};
use crate::wire::{write_bytes, PacketReader};
use vstd::prelude::*;

verus! {

/// What the application hears from the client.
pub enum Event {
    Connection,
    Disconnection,
    Message(Variant),
    CreateObject(LocalObjectKey),
    UpdateObject(LocalObjectKey),
    DeleteObject(LocalObjectKey, Variant),
    AssignPawn(PawnKey),
    UnassignPawn(PawnKey),
    NewCommand(PawnKey, Variant),
    ReplayCommand(PawnKey, Variant),
    CreateEntity(LocalEntityKey, Vec<LocalComponentKey>),
    DeleteEntity(LocalEntityKey),
    AddComponent(LocalEntityKey, LocalComponentKey),
    RemoveComponent(LocalEntityKey, LocalComponentKey, Variant),
    Tick,
}

/// The abstract value of an `Event`.
pub enum EventView {
    Connection,
    Disconnection,
    Message(VariantView),
    Replicate(ActionView),
    NewCommand(PawnKey, VariantView),
    ReplayCommand(PawnKey, VariantView),
    Tick,
}

impl View for Event {
    type V = EventView;

    open spec fn view(&self) -> EventView {
        match *self {
            Event::Connection => EventView::Connection,
            Event::Disconnection => EventView::Disconnection,
            Event::Message(m) => EventView::Message(m@),
            Event::CreateObject(k) => EventView::Replicate(ActionView::CreateObject(k)),
            Event::UpdateObject(k) => EventView::Replicate(ActionView::UpdateObject(k)),
            Event::DeleteObject(k, v) => EventView::Replicate(ActionView::DeleteObject(k, v@)),
            Event::AssignPawn(k) => EventView::Replicate(ActionView::AssignPawn(k)),
            Event::UnassignPawn(k) => EventView::Replicate(ActionView::UnassignPawn(k)),
            Event::NewCommand(k, c) => EventView::NewCommand(k, c@),
            Event::ReplayCommand(k, c) => EventView::ReplayCommand(k, c@),
            Event::CreateEntity(k, c) => EventView::Replicate(ActionView::CreateEntity(k, c@)),
            Event::DeleteEntity(k) => EventView::Replicate(ActionView::DeleteEntity(k)),
            Event::AddComponent(e, k) => EventView::Replicate(ActionView::AddComponent(e, k)),
            Event::RemoveComponent(e, k, v) => EventView::Replicate(
                ActionView::RemoveComponent(e, k, v@),
            ),
            Event::Tick => EventView::Tick,
        }
    }
}

pub open spec fn events_view(list: Seq<Event>) -> Seq<EventView> {
    Seq::new(list.len(), |i: int| list[i]@)
}

/// The abstract state of the client.
pub struct ClientView {
    pub handshake: ClientHandshake,
    /// The connection, while the client is connected.
    pub connection: Option<ServerConnectionView>,
    pub ticks: TickView,
    /// The events that wait for the application, oldest first.
    pub events: Seq<EventView>,
    /// The payloads of the pings that wait for their pong.
    pub pongs: Seq<Seq<u8>>,
}

/// The events for what a connection has received and not handed out: the
/// replicate actions, then the messages, then the commands to apply as
/// new, then the commands to replay.
pub open spec fn events_of(c: ServerConnectionView) -> Seq<EventView> {
    Seq::new(c.replica.actions.len(), |i: int| EventView::Replicate(c.replica.actions[i]))
        + Seq::new(
        c.connection.messages.incoming.len(),
        |i: int| EventView::Message(c.connection.messages.incoming[i]),
    ) + Seq::new(
        c.commands.incoming.len(),
        |i: int| EventView::NewCommand(c.commands.incoming[i].1, c.commands.incoming[i].2),
    ) + Seq::new(
        c.commands.replays.len(),
        |i: int| EventView::ReplayCommand(c.commands.replays[i].1, c.commands.replays[i].2),
    )
}

/// The connection with everything handed out that it had received.
pub open spec fn handed_out(c: ServerConnectionView) -> ServerConnectionView {
    ServerConnectionView {
        replica: ReplicaView { actions: Seq::empty(), ..c.replica },
        connection: crate::connection::ConnectionView {
            messages: MessageView { incoming: Seq::empty(), ..c.connection.messages },
            ..c.connection
        },
        commands: CommandsView { incoming: Seq::empty(), replays: Seq::empty(), ..c.commands },
        ..c
    }
}

/// The client after the connection has ended.
pub open spec fn disconnected(c: ClientView) -> ClientView {
    ClientView {
        handshake: ClientHandshake { phase: ClientPhase::Disconnected, ..c.handshake },
        connection: None,
        events: c.events.push(EventView::Disconnection),
        pongs: Seq::empty(),
        ..c
    }
}

/// The event of a replicate action.
pub fn event_of_action(action: ReplicateAction) -> (e: Event)
    ensures
        e@ == EventView::Replicate(action@),
{
    match action {
        ReplicateAction::CreateObject(k) => Event::CreateObject(k),
        ReplicateAction::UpdateObject(k) => Event::UpdateObject(k),
        ReplicateAction::DeleteObject(k, v) => Event::DeleteObject(k, v),
        ReplicateAction::AssignPawn(k) => Event::AssignPawn(k),
        ReplicateAction::UnassignPawn(k) => Event::UnassignPawn(k),
        ReplicateAction::CreateEntity(k, c) => Event::CreateEntity(k, c),
        ReplicateAction::DeleteEntity(k) => Event::DeleteEntity(k),
        ReplicateAction::AddComponent(e, k) => Event::AddComponent(e, k),
        ReplicateAction::RemoveComponent(e, k, v) => Event::RemoveComponent(e, k, v),
    }
}

/// Hands out everything that a connection has received, as events.
pub fn collect_events(connection: &mut ServerConnection, events: &mut Vec<Event>)
    requires
        old(connection).wf(),
    ensures
        final(connection).wf(),
        final(connection)@ == handed_out(old(connection)@),
        events_view(final(events)@) == events_view(old(events)@) + events_of(old(connection)@),
{
    let ghost c0 = connection@;
    let ghost e0 = events_view(events@);
    let ghost actions = Seq::new(
        c0.replica.actions.len(),
        |i: int| EventView::Replicate(c0.replica.actions[i]),
    );
    let ghost messages = Seq::new(
        c0.connection.messages.incoming.len(),
        |i: int| EventView::Message(c0.connection.messages.incoming[i]),
    );
    let ghost news = Seq::new(
        c0.commands.incoming.len(),
        |i: int| EventView::NewCommand(c0.commands.incoming[i].1, c0.commands.incoming[i].2),
    );
    let ghost replays = Seq::new(
        c0.commands.replays.len(),
        |i: int| EventView::ReplayCommand(c0.commands.replays[i].1, c0.commands.replays[i].2),
    );
    let ghost mut k: int = 0;
    assert(e0 + actions.subrange(0, 0) =~= e0);
    assert(c0.replica.actions.subrange(0, c0.replica.actions.len() as int)
        =~= c0.replica.actions);
    loop
        invariant
            connection.wf(),
            0 <= k <= c0.replica.actions.len(),
            connection@ == (ServerConnectionView {
                replica: ReplicaView {
                    actions: c0.replica.actions.subrange(k, c0.replica.actions.len() as int),
                    ..c0.replica
                },
                ..c0
            }),
            actions == Seq::new(
                c0.replica.actions.len(),
                |i: int| EventView::Replicate(c0.replica.actions[i]),
            ),
            events_view(events@) == e0 + actions.subrange(0, k),
        ensures
            k == c0.replica.actions.len(),
        decreases c0.replica.actions.len() - k,
    {
        let ghost before = events_view(events@);
        match connection.get_incoming_replicate_action() {
            Some(action) => {
                events.push(event_of_action(action));
                proof {
                    assert(events_view(events@) =~= before.push(EventView::Replicate(action@)));
                    assert(action@ == c0.replica.actions[k]);
                    assert(e0 + actions.subrange(0, k + 1) =~= (e0 + actions.subrange(0, k)).push(
                        actions[k],
                    ));
                    assert(c0.replica.actions.subrange(
                        k,
                        c0.replica.actions.len() as int,
                    ).drop_first() =~= c0.replica.actions.subrange(
                        k + 1,
                        c0.replica.actions.len() as int,
                    ));
                    k = k + 1;
                }
            },
            None => {
                break ;
            },
        }
    }
    proof {
        assert(k == c0.replica.actions.len());
        assert(actions.subrange(0, k) =~= actions);
        assert(connection@.replica.actions =~= Seq::empty());
    }
    let ghost c1 = connection@;
    let ghost e1 = events_view(events@);
    let ghost mut k: int = 0;
    assert(e1 + messages.subrange(0, 0) =~= e1);
    assert(c0.connection.messages.incoming.subrange(
        0,
        c0.connection.messages.incoming.len() as int,
    ) =~= c0.connection.messages.incoming);
    loop
        invariant
            connection.wf(),
            0 <= k <= c0.connection.messages.incoming.len(),
            c1.connection.messages.incoming == c0.connection.messages.incoming,
            connection@ == (ServerConnectionView {
                connection: crate::connection::ConnectionView {
                    messages: MessageView {
                        incoming: c0.connection.messages.incoming.subrange(
                            k,
                            c0.connection.messages.incoming.len() as int,
                        ),
                        ..c1.connection.messages
                    },
                    ..c1.connection
                },
                ..c1
            }),
            messages == Seq::new(
                c0.connection.messages.incoming.len(),
                |i: int| EventView::Message(c0.connection.messages.incoming[i]),
            ),
            events_view(events@) == e1 + messages.subrange(0, k),
        ensures
            k == c0.connection.messages.incoming.len(),
        decreases c0.connection.messages.incoming.len() - k,
    {
        let ghost before = events_view(events@);
        match connection.get_incoming_event() {
            Some(m) => {
                events.push(Event::Message(m));
                proof {
                    assert(events_view(events@) =~= before.push(EventView::Message(m@)));
                    assert(m@ == c0.connection.messages.incoming[k]);
                    assert(e1 + messages.subrange(0, k + 1) =~= (e1 + messages.subrange(
                        0,
                        k,
                    )).push(messages[k]));
                    assert(c0.connection.messages.incoming.subrange(
                        k,
                        c0.connection.messages.incoming.len() as int,
                    ).drop_first() =~= c0.connection.messages.incoming.subrange(
                        k + 1,
                        c0.connection.messages.incoming.len() as int,
                    ));
                    k = k + 1;
                }
            },
            None => {
                break ;
            },
        }
    }
    proof {
        assert(messages.subrange(0, k) =~= messages);
        assert(connection@.connection.messages.incoming =~= Seq::empty());
    }
    let ghost c2 = connection@;
    let ghost e2 = events_view(events@);
    let ghost mut k: int = 0;
    assert(e2 + news.subrange(0, 0) =~= e2);
    assert(c0.commands.incoming.subrange(0, c0.commands.incoming.len() as int)
        =~= c0.commands.incoming);
    loop
        invariant
            connection.wf(),
            0 <= k <= c0.commands.incoming.len(),
            c2.commands == c0.commands,
            connection@ == (ServerConnectionView {
                commands: CommandsView {
                    incoming: c0.commands.incoming.subrange(k, c0.commands.incoming.len() as int),
                    ..c2.commands
                },
                ..c2
            }),
            news == Seq::new(
                c0.commands.incoming.len(),
                |i: int|
                    EventView::NewCommand(c0.commands.incoming[i].1, c0.commands.incoming[i].2),
            ),
            events_view(events@) == e2 + news.subrange(0, k),
        ensures
            k == c0.commands.incoming.len(),
        decreases c0.commands.incoming.len() - k,
    {
        let ghost before = events_view(events@);
        match connection.get_incoming_command() {
            Some((pawn_key, command)) => {
                events.push(Event::NewCommand(pawn_key, command));
                proof {
                    assert(events_view(events@) =~= before.push(
                        EventView::NewCommand(pawn_key, command@),
                    ));
                    assert(e2 + news.subrange(0, k + 1) =~= (e2 + news.subrange(0, k)).push(
                        news[k],
                    ));
                    assert(c0.commands.incoming.subrange(
                        k,
                        c0.commands.incoming.len() as int,
                    ).drop_first() =~= c0.commands.incoming.subrange(
                        k + 1,
                        c0.commands.incoming.len() as int,
                    ));
                    k = k + 1;
                }
            },
            None => {
                break ;
            },
        }
    }
    proof {
        assert(news.subrange(0, k) =~= news);
        assert(connection@.commands.incoming =~= Seq::empty());
    }
    let ghost c3 = connection@;
    let ghost e3 = events_view(events@);
    let ghost mut k: int = 0;
    assert(e3 + replays.subrange(0, 0) =~= e3);
    assert(c0.commands.replays.subrange(0, c0.commands.replays.len() as int)
        =~= c0.commands.replays);
    loop
        invariant
            connection.wf(),
            0 <= k <= c0.commands.replays.len(),
            c3.commands.replays == c0.commands.replays,
            connection@ == (ServerConnectionView {
                commands: CommandsView {
                    replays: c0.commands.replays.subrange(k, c0.commands.replays.len() as int),
                    ..c3.commands
                },
                ..c3
            }),
            replays == Seq::new(
                c0.commands.replays.len(),
                |i: int|
                    EventView::ReplayCommand(c0.commands.replays[i].1, c0.commands.replays[i].2),
            ),
            events_view(events@) == e3 + replays.subrange(0, k),
        ensures
            k == c0.commands.replays.len(),
        decreases c0.commands.replays.len() - k,
    {
        let ghost before = events_view(events@);
        match connection.get_incoming_replay() {
            Some((pawn_key, command)) => {
                events.push(Event::ReplayCommand(pawn_key, command));
                proof {
                    assert(events_view(events@) =~= before.push(
                        EventView::ReplayCommand(pawn_key, command@),
                    ));
                    assert(e3 + replays.subrange(0, k + 1) =~= (e3 + replays.subrange(0, k)).push(
                        replays[k],
                    ));
                    assert(c0.commands.replays.subrange(
                        k,
                        c0.commands.replays.len() as int,
                    ).drop_first() =~= c0.commands.replays.subrange(
                        k + 1,
                        c0.commands.replays.len() as int,
                    ));
                    k = k + 1;
                }
            },
            None => {
                break ;
            },
        }
    }
    proof {
        assert(replays.subrange(0, k) =~= replays);
        assert(connection@.commands.replays =~= Seq::empty());
        assert(events_view(events@) =~= e0 + events_of(c0));
    }
}

/// The header of a datagram that belongs to no connection yet.
pub open spec fn bare_header(packet_type: PacketType) -> StandardHeader {
    StandardHeader {
        packet_type,
        local_packet_index: 0,
        last_remote_packet_index: 0,
        ack_field: 0,
        host_tick: 0,
    }
}

/// The client after a datagram has arrived at `now`. A datagram without a
/// header is ignored. The server's word in the handshake moves the
/// handshake on; when the server accepts, the connection begins. Every
/// other datagram counts only while the client is connected: the server
/// was heard from and its header is taken; data waits in the jitter buffer
/// for its tick, a ping is noted to be answered, a pong gives a round-trip
/// sample, and a disconnect ends the connection.
pub open spec fn client_received(c: ClientView, config: ServerConfig, bytes: Seq<u8>, now: u64) -> ClientView {
    match take_header(bytes, 0) {
        None => c,
        Some((h, p)) => {
            let payload = bytes.subrange(p, bytes.len() as int);
            if h.packet_type == PacketType::ServerHandshake {
                match take_server_message(payload) {
                    None => c,
                    Some(m) => {
                        let hs = handshake_heard(c.handshake, m);
                        if c.handshake.phase != ClientPhase::Connected && hs.phase
                            == ClientPhase::Connected {
                            ClientView {
                                handshake: hs,
                                connection: Some(fresh_connection(config, now)),
                                events: c.events.push(EventView::Connection),
                                ..c
                            }
                        } else {
                            ClientView { handshake: hs, ..c }
                        }
                    },
                }
            } else {
                match c.connection {
                    None => c,
                    Some(conn) => {
                        let heard = header_heard(
                            ServerConnectionView {
                                connection: crate::connection::ConnectionView {
                                    last_heard_at: now,
                                    ..conn.connection
                                },
                                ..conn
                            },
                            h,
                            now,
                        );
                        let c1 = ClientView {
                            connection: Some(heard),
                            ticks: ticks_after_header(c.ticks, conn, h),
                            ..c
                        };
                        match h.packet_type {
                            PacketType::Data => ClientView {
                                connection: Some(
                                    ServerConnectionView {
                                        jitter: heard.jitter.push(
                                            (h.host_tick, (h.local_packet_index, payload)),
                                        ),
                                        ..heard
                                    },
                                ),
                                ..c1
                            },
                            PacketType::Ping => ClientView { pongs: c.pongs.push(payload), ..c1 },
                            PacketType::Pong => ClientView {
                                connection: Some(
                                    ServerConnectionView {
                                        ping: ping_after_pong(heard.ping, payload, now),
                                        ..heard
                                    },
                                ),
                                ..c1
                            },
                            PacketType::Disconnect => disconnected(c1),
                            _ => c1,
                        }
                    },
                }
            }
        },
    }
}

/// The connection after the replays that were asked for are prepared.
pub open spec fn replays_done(c: ServerConnectionView) -> ServerConnectionView {
    ServerConnectionView {
        commands: replays_prepared(c.commands),
        replica: pawns_reset(c.replica, c.commands.triggers),
        ..c
    }
}

/// The client after a frame at `now`, and whether a tick was completed. A
/// server that was not heard from for the disconnection timeout is given
/// up. When a tick is completed, the data that is due is processed, the
/// replays that it asks for are prepared, and everything received becomes
/// events behind the tick's own event; data that breaks the protocol ends
/// the connection.
pub open spec fn client_framed(
    c: ClientView,
    events: Seq<VariantView>,
    entities: Seq<VariantView>,
    now: u64,
) -> (ClientView, bool) {
    match c.connection {
        None => (c, false),
        Some(conn) => if elapsed_between(conn.connection.last_heard_at, now)
            >= conn.connection.timeout {
            (disconnected(c), false)
        } else if elapsed_between(c.ticks.tick_began_at, now) < c.ticks.tick_duration {
            (c, false)
        } else {
            let ticks = TickView {
                client_tick: crate::sequence::advance(c.ticks.client_tick, 1),
                server_tick: crate::sequence::advance(c.ticks.server_tick, 1),
                tick_began_at: (c.ticks.tick_began_at + c.ticks.tick_duration) as u64,
                ..c.ticks
            };
            let out = frame_processed(conn, events, entities, ticks.server_tick);
            match out.error {
                Some(_) => (disconnected(ClientView { ticks, ..c }), true),
                None => {
                    let done = replays_done(out.state);
                    (
                        ClientView {
                            connection: Some(handed_out(done)),
                            ticks,
                            events: c.events.push(EventView::Tick) + events_of(done),
                            ..c
                        },
                        true,
                    )
                },
            }
        },
    }
}

/// The datagrams written so far, and the connection after them.
pub struct Sending {
    pub connection: ServerConnectionView,
    pub packets: Seq<Seq<u8>>,
}

/// One more datagram of `packet_type` with `payload`.
pub open spec fn packet_sent(
    s: Sending,
    packet_type: PacketType,
    payload: Seq<u8>,
    tick: u16,
    now: u64,
) -> Sending {
    Sending {
        connection: header_sent(s.connection, packet_type, now),
        packets: s.packets.push(
            encode_header(outgoing_header(s.connection.connection.ack, packet_type, tick))
                + payload,
        ),
    }
}

/// A pong for each ping that waits, in order.
pub open spec fn pongs_sent(s: Sending, pongs: Seq<Seq<u8>>, tick: u16, now: u64) -> Sending
    decreases pongs.len(),
{
    if pongs.len() == 0 {
        s
    } else {
        pongs_sent(
            packet_sent(s, PacketType::Pong, pongs[0], tick, now),
            pongs.drop_first(),
            tick,
            now,
        )
    }
}

/// A ping, if the ping interval has passed.
pub open spec fn ping_sent_if_due(s: Sending, tick: u16, now: u64) -> Sending {
    if elapsed_between(s.connection.ping.last_ping_at, now) >= s.connection.ping.ping_interval {
        packet_sent(
            Sending {
                connection: ServerConnectionView {
                    ping: ping_sent(s.connection.ping, now),
                    ..s.connection
                },
                ..s
            },
            PacketType::Ping,
            crate::wire::u16_bytes(s.connection.ping.next_ping_index),
            tick,
            now,
        )
    } else {
        s
    }
}

/// A data packet, if any command or message waits and fits.
pub open spec fn data_sent(s: Sending, tick: u16, now: u64) -> Sending {
    let out = outgoing_packet(s.connection, tick, now);
    Sending {
        connection: out.state,
        packets: match out.packet {
            Some(bytes) => s.packets.push(bytes),
            None => s.packets,
        },
    }
}

/// A heartbeat, if nothing else goes out and the heartbeat interval has
/// passed since anything went out.
pub open spec fn heartbeat_sent(s: Sending, tick: u16, now: u64) -> Sending {
    if s.packets.len() == 0 && elapsed_between(s.connection.connection.last_sent_at, now)
        >= s.connection.connection.heartbeat_interval {
        packet_sent(s, PacketType::Heartbeat, Seq::empty(), tick, now)
    } else {
        s
    }
}

/// What a connected client sends at `now`: the pongs that are due, a ping
/// if one is due, a data packet if anything waits, and else a heartbeat if
/// one is due. If anything goes out, the connection notes the time.
pub open spec fn connected_sent(
    c: ServerConnectionView,
    pongs: Seq<Seq<u8>>,
    tick: u16,
    now: u64,
) -> Sending {
    let s = heartbeat_sent(
        data_sent(
            ping_sent_if_due(
                pongs_sent(Sending { connection: c, packets: Seq::empty() }, pongs, tick, now),
                tick,
                now,
            ),
            tick,
            now,
        ),
        tick,
        now,
    );
    if s.packets.len() > 0 {
        Sending {
            connection: ServerConnectionView {
                connection: crate::connection::ConnectionView {
                    last_sent_at: now,
                    ..s.connection.connection
                },
                ..s.connection
            },
            ..s
        }
    } else {
        s
    }
}

/// The client after it has sent what is due at `now`, and the datagrams.
/// A client that is not connected sends the step of the handshake that is
/// due.
pub open spec fn client_sent(c: ClientView, now: u64) -> (ClientView, Seq<Seq<u8>>) {
    match c.connection {
        None => {
            let (hs, m) = handshake_ticked(c.handshake, now);
            (
                ClientView { handshake: hs, ..c },
                match m {
                    Some(message) => seq![
                        encode_header(bare_header(PacketType::ClientHandshake))
                            + encode_client_message(message),
                    ],
                    None => Seq::empty(),
                },
            )
        },
        Some(conn) => {
            let s = connected_sent(conn, c.pongs, c.ticks.client_tick, now);
            (ClientView { connection: Some(s.connection), pongs: Seq::empty(), ..c }, s.packets)
        },
    }
}

pub open spec fn packets_view(list: Seq<Vec<u8>>) -> Seq<Seq<u8>> {
    Seq::new(list.len(), |i: int| list[i]@)
}

/// The client's end of the engine.
pub struct Client {
    config: ServerConfig,
    handshake: ClientHandshake,
    connection: Option<ServerConnection>,
    tick_manager: TickManager,
    events: Vec<Event>,
    pongs: Vec<Vec<u8>>,
}

impl View for Client {
    type V = ClientView;

    closed spec fn view(&self) -> ClientView {
        ClientView {
            handshake: self.handshake,
            connection: match self.connection {
                Some(c) => Some(c@),
                None => None,
            },
            ticks: self.tick_manager@,
            events: events_view(self.events@),
            pongs: packets_view(self.pongs@),
        }
    }
}

impl Client {
    pub closed spec fn wf(&self) -> bool {
        &&& valid_config(self.config)
        &&& self.tick_manager.wf()
        &&& self.connection matches Some(c) ==> c.wf()
    }

    /// The settings of the client.
    pub closed spec fn config(&self) -> ServerConfig {
        self.config
    }

    /// A client that has not begun its handshake; none where the settings
    /// are not valid.
    pub fn new(config: ServerConfig, now: u64) -> (r: Option<Self>)
        ensures
            r is Some <==> valid_config(config),
            r matches Some(c) ==> c.wf() && c.config() == config && c@ == (ClientView {
                handshake: ClientHandshake {
                    phase: ClientPhase::AwaitingChallenge,
                    interval: config.send_handshake_interval,
                    last_sent_at: now,
                    tries: 0,
                },
                connection: None,
                ticks: TickView {
                    tick_duration: if config.tick_duration > 3600000 {
                        3600000
                    } else {
                        config.tick_duration
                    },
                    client_tick: 0,
                    server_tick: 0,
                    tick_began_at: now,
                },
                events: Seq::empty(),
                pongs: Seq::empty(),
            }),
    {
        if !config.is_valid() {
            return None;
        }
        let c = Client {
            config,
            handshake: ClientHandshake::new(config.send_handshake_interval, now),
            connection: None,
            tick_manager: TickManager::new(config.tick_duration, now),
            events: Vec::new(),
            pongs: Vec::new(),
        };
        assert(c@.events =~= Seq::<EventView>::empty());
        assert(c@.pongs =~= Seq::<Seq<u8>>::empty());
        Some(c)
    }

    /// Whether the client is connected.
    pub fn connected(&self) -> (b: bool)
        ensures
            b == self@.connection is Some,
    {
        self.connection.is_some()
    }

    /// Whether the handshake has failed or the connection has ended.
    pub fn is_disconnected(&self) -> (b: bool)
        ensures
            b == (self@.handshake.phase == ClientPhase::Disconnected),
    {
        self.handshake.is_disconnected()
    }

    fn disconnect(&mut self)
        requires
            old(self).wf(),
        ensures
            final(self).wf(),
            final(self).config() == old(self).config(),
            final(self)@ == disconnected(old(self)@),
    {
        self.handshake.phase = ClientPhase::Disconnected;
        self.connection = None;
        self.events.push(Event::Disconnection);
        self.pongs = Vec::new();
        assert(self@.events =~= old(self)@.events.push(EventView::Disconnection));
        assert(self@.pongs =~= Seq::<Seq<u8>>::empty());
    }

    /// Takes a datagram that arrived at `now`.
    pub fn receive(&mut self, packet: &[u8], now: u64)
        requires
            old(self).wf(),
        ensures
            final(self).wf(),
            final(self).config() == old(self).config(),
            final(self)@ == client_received(old(self)@, old(self).config(), packet@, now),
    {
        let mut reader = PacketReader::new(packet);
        let header = match StandardHeader::read(&mut reader) {
            Some(h) => h,
            None => {
                return ;
            },
        };
        let payload = match reader.read_bytes(packet.len() - HEADER_SIZE) {
            Some(b) => b,
            None => {
                return ;
            },
        };
        assert(payload@ == packet@.subrange(11, packet@.len() as int));
        match header.packet_type {
            PacketType::ServerHandshake => {
                match read_server_message(payload.as_slice()) {
                    Some(m) => {
                        let was_connected = self.handshake.is_connected();
                        self.handshake.receive(m);
                        if !was_connected && self.handshake.is_connected() {
                            self.connection = ServerConnection::new(&self.config, now);
                            self.events.push(Event::Connection);
                            assert(self@.events =~= old(self)@.events.push(EventView::Connection));
                        }
                    },
                    None => {},
                }
            },
            _ => {
                let mut taken: Option<ServerConnection> = None;
                std::mem::swap(&mut self.connection, &mut taken);
                match taken {
                    None => {},
                    Some(conn) => {
                        let mut conn = conn;
                        conn.mark_heard(now);
                        conn.process_incoming_header(&header, &mut self.tick_manager, now);
                        let mut over = false;
                        match header.packet_type {
                            PacketType::Data => {
                                conn.buffer_data_packet(
                                    header.host_tick,
                                    header.local_packet_index,
                                    &payload,
                                );
                            },
                            PacketType::Ping => {
                                self.pongs.push(payload);
                                assert(self@.pongs =~= old(self)@.pongs.push(payload@));
                            },
                            PacketType::Pong => {
                                conn.process_pong(payload.as_slice(), now);
                            },
                            PacketType::Disconnect => {
                                over = true;
                            },
                            _ => {},
                        }
                        self.connection = Some(conn);
                        if over {
                            self.disconnect();
                        }
                    },
                }
            },
        }
    }

    /// Begins a frame at `now`; the result says whether a tick was
    /// completed.
    pub fn frame(&mut self, manifest: &Manifest, now: u64) -> (ticked: bool)
        requires
            old(self).wf(),
            manifest.wf(),
        ensures
            final(self).wf(),
            final(self).config() == old(self).config(),
            (final(self)@, ticked) == client_framed(
                old(self)@,
                manifest.events().prototypes(),
                manifest.entities().prototypes(),
                now,
            ),
    {
        let mut taken: Option<ServerConnection> = None;
        std::mem::swap(&mut self.connection, &mut taken);
        match taken {
            None => false,
            Some(conn) => {
                let mut conn = conn;
                if conn.should_drop(now) {
                    self.connection = Some(conn);
                    self.disconnect();
                    return false;
                }
                match conn.frame_begin(manifest, &mut self.tick_manager, now) {
                    Ok(ticked) => {
                        if ticked {
                            conn.process_replays();
                            let ghost before = self@.events;
                            self.events.push(Event::Tick);
                            assert(events_view(self.events@) =~= before.push(EventView::Tick));
                            collect_events(&mut conn, &mut self.events);
                        }
                        self.connection = Some(conn);
                        ticked
                    },
                    Err(_) => {
                        self.connection = Some(conn);
                        self.disconnect();
                        true
                    },
                }
            },
        }
    }

    /// Says which datagrams to send at `now`.
    pub fn send(&mut self, now: u64) -> (packets: Vec<Vec<u8>>)
        requires
            old(self).wf(),
        ensures
            final(self).wf(),
            final(self).config() == old(self).config(),
            (final(self)@, packets_view(packets@)) == client_sent(old(self)@, now),
    {
        let mut packets: Vec<Vec<u8>> = Vec::new();
        assert(packets_view(packets@) =~= Seq::empty());
        let mut taken: Option<ServerConnection> = None;
        std::mem::swap(&mut self.connection, &mut taken);
        match taken {
            None => {
                match self.handshake.tick(now) {
                    Some(message) => {
                        let mut packet: Vec<u8> = Vec::new();
                        StandardHeader::new(PacketType::ClientHandshake, 0, 0, 0, 0).write(
                            &mut packet,
                        );
                        let body = write_client_message(message);
                        write_bytes(&mut packet, &body);
                        packets.push(packet);
                        assert(packets_view(packets@) =~= seq![
                            encode_header(bare_header(PacketType::ClientHandshake))
                                + encode_client_message(message),
                        ]);
                    },
                    None => {},
                }
            },
            Some(conn) => {
                let mut conn = conn;
                let tick = self.tick_manager.get_client_tick();
                let mut pongs: Vec<Vec<u8>> = Vec::new();
                std::mem::swap(&mut self.pongs, &mut pongs);
                assert(self@.pongs =~= Seq::empty());
                let ghost all = packets_view(pongs@);
                let ghost c0 = conn@;
                let ghost goal = pongs_sent(
                    Sending { connection: c0, packets: Seq::empty() },
                    all,
                    tick,
                    now,
                );
                let mut i: usize = 0;
                assert(all.subrange(0, all.len() as int) =~= all);
                while i < pongs.len()
                    invariant
                        i <= pongs@.len(),
                        conn.wf(),
                        all == packets_view(pongs@),
                        goal == pongs_sent(
                            Sending { connection: conn@, packets: packets_view(packets@) },
                            all.subrange(i as int, all.len() as int),
                            tick,
                            now,
                        ),
                    decreases pongs@.len() - i,
                {
                    let ghost rest = all.subrange(i as int, all.len() as int);
                    assert(rest[0] == all[i as int]);
                    assert(rest.drop_first() =~= all.subrange(i + 1, all.len() as int));
                    let ghost before = packets_view(packets@);
                    let packet = conn.process_outgoing_header(tick, PacketType::Pong, &pongs[i], now);
                    packets.push(packet);
                    assert(packets_view(packets@) =~= before.push(packet@));
                    i += 1;
                }
                assert(all.subrange(all.len() as int, all.len() as int).len() == 0);
                if conn.should_send_ping(now) {
                    let payload = conn.get_ping_payload(now);
                    let ghost before = packets_view(packets@);
                    let packet = conn.process_outgoing_header(tick, PacketType::Ping, &payload, now);
                    packets.push(packet);
                    assert(packets_view(packets@) =~= before.push(packet@));
                }
                match conn.get_outgoing_packet(tick, now) {
                    Some(packet) => {
                        let ghost before = packets_view(packets@);
                        packets.push(packet);
                        assert(packets_view(packets@) =~= before.push(packet@));
                    },
                    None => {},
                }
                if packets.len() == 0 && conn.should_send_heartbeat(now) {
                    let empty: Vec<u8> = Vec::new();
                    let ghost before = packets_view(packets@);
                    let packet = conn.process_outgoing_header(
                        tick,
                        PacketType::Heartbeat,
                        &empty,
                        now,
                    );
                    packets.push(packet);
                    assert(packets_view(packets@) =~= before.push(packet@));
                    assert(empty@ =~= Seq::<u8>::empty());
                }
                if packets.len() > 0 {
                    conn.mark_sent(now);
                }
                self.connection = Some(conn);
            },
        }
        packets
    }

    /// Hands out the oldest event that waits for the application.
    pub fn pop_event(&mut self) -> (r: Option<Event>)
        requires
            old(self).wf(),
        ensures
            final(self).wf(),
            final(self).config() == old(self).config(),
            match r {
                Some(e) => old(self)@.events.len() > 0 && e@ == old(self)@.events[0] && final(self)@ == (ClientView { events: old(self)@.events.drop_first(), ..old(self)@ }),
                None => old(self)@.events.len() == 0 && final(self)@ == old(self)@,
            },
    {
        if self.events.len() == 0 {
            return None;
        }
        let e = self.events.remove(0);
        assert(self@.events =~= old(self)@.events.drop_first());
        Some(e)
    }

    /// Queues a message for the server. The result says whether the client
    /// is connected; if it is not, the message is dropped.
    pub fn send_message(&mut self, message: Variant, guaranteed_delivery: bool) -> (queued: bool)
        requires
            old(self).wf(),
            message.wf(),
        ensures
            final(self).wf(),
            final(self).config() == old(self).config(),
            queued == old(self)@.connection is Some,
            match old(self)@.connection {
                Some(conn) => final(self)@ == (ClientView {
                    connection: Some(
                        ServerConnectionView {
                            connection: crate::connection::ConnectionView {
                                messages: MessageView {
                                    outgoing: conn.connection.messages.outgoing.push(
                                        (message@, guaranteed_delivery),
                                    ),
                                    ..conn.connection.messages
                                },
                                ..conn.connection
                            },
                            ..conn
                        },
                    ),
                    ..old(self)@
                }),
                None => final(self)@ == old(self)@,
            },
    {
        let mut taken: Option<ServerConnection> = None;
        std::mem::swap(&mut self.connection, &mut taken);
        match taken {
            Some(conn) => {
                let mut conn = conn;
                conn.queue_message(message, guaranteed_delivery);
                self.connection = Some(conn);
                true
            },
            None => false,
        }
    }

    /// Queues a command for a pawn. The result says whether the client is
    /// connected; if it is not, the command is dropped.
    pub fn send_command(&mut self, pawn_key: &PawnKey, command: Variant) -> (queued: bool)
        requires
            old(self).wf(),
            command.wf(),
        ensures
            final(self).wf(),
            final(self).config() == old(self).config(),
            queued == old(self)@.connection is Some,
            match old(self)@.connection {
                Some(conn) => final(self)@ == (ClientView {
                    connection: Some(
                        ServerConnectionView {
                            queued_commands: queued_put(conn.queued_commands, *pawn_key, command@),
                            ..conn
                        },
                    ),
                    ..old(self)@
                }),
                None => final(self)@ == old(self)@,
            },
    {
        let mut taken: Option<ServerConnection> = None;
        std::mem::swap(&mut self.connection, &mut taken);
        match taken {
            Some(conn) => {
                let mut conn = conn;
                match pawn_key {
                    PawnKey::Object(k) => {
                        conn.replicate_queue_command(k, command);
                    },
                    PawnKey::Entity(k) => {
                        conn.entity_queue_command(k, command);
                    },
                }
                self.connection = Some(conn);
                true
            },
            None => false,
        }
    }

    /// The connection to the server, while the client is connected.
    pub fn connection(&self) -> (r: Option<&ServerConnection>)
        requires
            self.wf(),
        ensures
            match r {
                Some(c) => self@.connection == Some(c@) && c.wf(),
                None => self@.connection is None,
            },
    {
        self.connection.as_ref()
    }

    /// The client's tick.
    pub fn client_tick(&self) -> (t: u16)
        ensures
            t == self@.ticks.client_tick,
    {
        self.tick_manager.get_client_tick()
    }

    /// The estimate of the server's tick.
    pub fn server_tick(&self) -> (t: u16)
        ensures
            t == self@.ticks.server_tick,
    {
        self.tick_manager.get_server_tick()
    }

    /// The fraction of the current tick that has passed, in thousandths.
    pub fn interpolation(&self, now: u64) -> (f: u16)
        requires
            self.wf(),
        ensures
            f == crate::tick_manager::interpolation_of(self@.ticks, now),
    {
        self.tick_manager.interpolation(now)
    }
}

} // verus!
