use naia_core::client::{Client, Event};
use naia_core::config::ServerConfig;
use naia_core::entity_ref::{EntityMut, EntityRef};
use naia_core::handshake::{
    answer, read_client_message, read_server_message, write_server_message, ClientHandshake,
    ClientMessage, ClientPhase, ServerMessage,
};
use naia_core::keys::PawnKey;
use naia_core::locality_status::LocalityStatus;
use naia_core::manifest::Manifest;
use naia_core::server::{RoomKey, Server, UserKey};
use naia_core::standard_header::{PacketType, StandardHeader};
use naia_core::variant::Variant;
use naia_core::wire::PacketReader;
use naia_core::world::World;

fn test_manifest() -> Manifest {
    let mut manifest = Manifest::new();
    manifest.register_event(1, true, Variant::new(0, vec![vec![]]).unwrap());
    manifest.register_entity(2, Variant::new(0, vec![vec![0]]).unwrap());
    manifest.register_entity(3, Variant::new(0, vec![vec![0], vec![0]]).unwrap());
    manifest
}

fn parse(packet: &[u8]) -> (StandardHeader, Vec<u8>) {
    let mut reader = PacketReader::new(packet);
    let header = StandardHeader::read(&mut reader).unwrap();
    (header, packet[11..].to_vec())
}

fn server_handshake_packet(message: ServerMessage) -> Vec<u8> {
    let mut packet = Vec::new();
    StandardHeader::new(PacketType::ServerHandshake, 0, 0, 0, 0).write(&mut packet);
    packet.extend(write_server_message(message));
    packet
}

/// Runs the handshake between a client and a server that holds the nonce
/// 77 for it.
fn connect(client: &mut Client, accept: bool) {
    for _ in 0..2 {
        let packets = client.send(0);
        assert_eq!(packets.len(), 1);
        let (header, payload) = parse(&packets[0]);
        assert_eq!(header.packet_type(), PacketType::ClientHandshake);
        let said = read_client_message(&payload).unwrap();
        client.receive(&server_handshake_packet(answer(said, 77, accept)), 0);
    }
}

#[test]
fn handshake_messages_round_trip() {
    for m in [
        ServerMessage::Challenge { nonce: 0x01020304 },
        ServerMessage::Accept,
        ServerMessage::Reject,
    ] {
        assert_eq!(read_server_message(&write_server_message(m)), Some(m));
    }
    assert_eq!(write_server_message(ServerMessage::Challenge { nonce: 0x01020304 }), vec![0, 1, 2, 3, 4]);
    assert_eq!(read_server_message(&[0, 1, 2]), None);
    assert_eq!(read_server_message(&[3]), None);
    assert_eq!(read_server_message(&[]), None);
    assert_eq!(read_client_message(&[0]), Some(ClientMessage::Hello));
    assert_eq!(read_client_message(&[1, 0, 0, 0, 9]), Some(ClientMessage::Challenge { nonce: 9 }));
    assert_eq!(read_client_message(&[2]), None);
}

#[test]
fn handshake_accepts_the_right_reply() {
    assert_eq!(answer(ClientMessage::Hello, 5, false), ServerMessage::Challenge { nonce: 5 });
    assert_eq!(answer(ClientMessage::Challenge { nonce: 5 }, 5, true), ServerMessage::Accept);
    assert_eq!(answer(ClientMessage::Challenge { nonce: 5 }, 5, false), ServerMessage::Reject);
    assert_eq!(answer(ClientMessage::Challenge { nonce: 6 }, 5, true), ServerMessage::Reject);
}

#[test]
fn handshake_gives_up_after_its_tries() {
    let mut handshake = ClientHandshake::new(1000, 0);
    assert_eq!(handshake.tick(0), Some(ClientMessage::Hello));
    assert_eq!(handshake.tick(999), None);
    for i in 1..10u64 {
        assert_eq!(handshake.tick(i * 1000), Some(ClientMessage::Hello));
    }
    assert!(!handshake.is_disconnected());
    assert_eq!(handshake.tick(10000), None);
    assert!(handshake.is_disconnected());
    assert_eq!(handshake.tick(20000), None);
}

#[test]
fn handshake_ignores_what_does_not_fit() {
    let mut handshake = ClientHandshake::new(1000, 0);
    handshake.receive(ServerMessage::Accept);
    assert_eq!(handshake.phase, ClientPhase::AwaitingChallenge);
    handshake.receive(ServerMessage::Challenge { nonce: 3 });
    assert_eq!(handshake.phase, ClientPhase::AwaitingVerdict { nonce: 3 });
    handshake.receive(ServerMessage::Challenge { nonce: 4 });
    assert_eq!(handshake.phase, ClientPhase::AwaitingVerdict { nonce: 3 });
    assert_eq!(handshake.tick(0), Some(ClientMessage::Challenge { nonce: 3 }));
    handshake.receive(ServerMessage::Accept);
    assert!(handshake.is_connected());
    handshake.receive(ServerMessage::Reject);
    assert!(handshake.is_connected());
}

#[test]
fn client_connects_and_is_rejected() {
    let mut client = Client::new(ServerConfig::default(), 0).unwrap();
    assert!(!client.connected());
    connect(&mut client, true);
    assert!(client.connected());
    assert!(matches!(client.pop_event(), Some(Event::Connection)));
    assert!(client.pop_event().is_none());

    let mut client = Client::new(ServerConfig::default(), 0).unwrap();
    connect(&mut client, false);
    assert!(!client.connected());
    assert!(client.is_disconnected());
    assert!(client.send(5000).is_empty());
    let mut bad = ServerConfig::default();
    bad.ping_interval = 0;
    assert!(Client::new(bad, 0).is_none());
}

#[test]
fn client_times_out() {
    let mut config = ServerConfig::default();
    config.disconnection_timeout_duration = 5000;
    config.heartbeat_interval = 2000;
    // no ping comes due, so that only heartbeats go out
    config.ping_interval = 100000;
    let manifest = test_manifest();
    let mut client = Client::new(config, 0).unwrap();
    connect(&mut client, true);
    assert!(matches!(client.pop_event(), Some(Event::Connection)));
    // nothing is heard from the server; heartbeats go out until the
    // timeout
    let mut heartbeats = 0;
    let mut disconnections = 0;
    for now in (0..=8000u64).step_by(100) {
        client.frame(&manifest, now);
        while let Some(event) = client.pop_event() {
            if let Event::Disconnection = event {
                disconnections += 1;
                assert_eq!(now, 5000);
            }
        }
        for packet in client.send(now) {
            let (header, _) = parse(&packet);
            if header.packet_type() == PacketType::Heartbeat {
                heartbeats += 1;
            }
        }
    }
    assert_eq!(disconnections, 1);
    assert_eq!(heartbeats, 2);
    assert!(!client.connected());
    assert!(client.is_disconnected());
}

#[test]
fn client_answers_pings_and_hears_disconnects() {
    let mut client = Client::new(ServerConfig::default(), 0).unwrap();
    connect(&mut client, true);
    let mut ping = Vec::new();
    StandardHeader::new(PacketType::Ping, 0, 0, 0, 9).write(&mut ping);
    ping.extend([0u8, 7]);
    client.receive(&ping, 10);
    let packets = client.send(10);
    assert_eq!(packets.len(), 1);
    let (header, payload) = parse(&packets[0]);
    assert_eq!(header.packet_type(), PacketType::Pong);
    assert_eq!(header.last_remote_packet_index(), 0);
    assert_eq!(payload, vec![0, 7]);
    // a ping of its own is due after the ping interval
    let packets = client.send(1000);
    assert_eq!(packets.len(), 1);
    let (header, payload) = parse(&packets[0]);
    assert_eq!(header.packet_type(), PacketType::Ping);
    assert_eq!(payload, vec![0, 0]);
    let mut pong = Vec::new();
    StandardHeader::new(PacketType::Pong, 1, 1, 1, 9).write(&mut pong);
    pong.extend([0u8, 0]);
    client.receive(&pong, 1040);
    // the pong and the acknowledgements of two packets gave three samples
    assert!(client.connection().unwrap().get_rtt() > 0);

    let mut bye = Vec::new();
    StandardHeader::new(PacketType::Disconnect, 2, 1, 1, 9).write(&mut bye);
    client.receive(&bye, 1050);
    assert!(!client.connected());
    assert!(matches!(client.pop_event(), Some(Event::Connection)));
    assert!(matches!(client.pop_event(), Some(Event::Disconnection)));
    assert!(client.pop_event().is_none());
    assert!(!client.send_message(Variant::empty(0), true));
    client.receive(&[1, 2, 3], 1060);
    assert!(client.pop_event().is_none());
}

fn set_up() -> (Server, World, UserKey, RoomKey) {
    let mut server = Server::new(ServerConfig::default()).unwrap();
    let world = World::new();
    let user = server.user_create(0).unwrap();
    let room = server.make_room().unwrap();
    server.room_add_user(&room, &user);
    (server, world, user, room)
}

#[test]
fn scopes_follow_the_rooms() {
    let (mut server, mut world, user, room) = set_up();
    let other = server.user_create(0).unwrap();
    let entity = server.spawn_entity(&mut world).unwrap();
    assert!(server.insert_component(&mut world, &entity, Variant::new(0, vec![vec![4]]).unwrap()));
    server.update_scopes(&world);
    assert_eq!(server.connection(&user).unwrap().record_count(), 0);

    server.room_add_entity(&room, &entity);
    assert!(server.entity_in_scope(&user, &entity));
    assert!(!server.entity_in_scope(&other, &entity));
    server.update_scopes(&world);
    let global = server.entity_global(&entity).unwrap();
    let component = server.component_global(&entity, 0).unwrap();
    {
        let connection = server.connection(&user).unwrap();
        assert_eq!(connection.record_count(), 2);
        assert_eq!(connection.get_status(global), Some(LocalityStatus::Creating));
        assert_eq!(connection.get_status(component), Some(LocalityStatus::Creating));
    }
    assert_eq!(server.connection(&other).unwrap().record_count(), 0);
    // bringing the scopes up to date again changes nothing
    server.update_scopes(&world);
    assert_eq!(server.connection(&user).unwrap().record_count(), 2);

    // a component that comes later enters the scope at once
    assert!(server.insert_component(
        &mut world,
        &entity,
        Variant::new(1, vec![vec![1], vec![2]]).unwrap()
    ));
    assert!(!server.insert_component(&mut world, &entity, Variant::new(1, vec![]).unwrap()));
    assert_eq!(server.connection(&user).unwrap().record_count(), 3);
    assert!(server.remove_component(&mut world, &entity, 1).is_some());
    assert!(server.remove_component(&mut world, &entity, 1).is_none());
    assert_eq!(server.component_global(&entity, 1), None);

    server.room_remove_entity(&room, &entity);
    server.update_scopes(&world);
    let connection = server.connection(&user).unwrap();
    // nothing was sent yet, so the deletion waits for the creation
    assert_eq!(connection.get_status(global), Some(LocalityStatus::Creating));
    assert!(server.user_delete(&other));
    assert!(!server.user_exists(&other));
    assert!(!server.user_delete(&other));
    assert_eq!(server.users_count(), 1);
}

#[test]
fn entity_handles() {
    let (mut server, mut world, user, room) = set_up();
    let entity = server.spawn_entity(&mut world).unwrap();
    {
        let mut handle = EntityMut::new(&mut server, &mut world, &entity);
        assert_eq!(handle.key(), entity);
        handle
            .insert_component(Variant::new(0, vec![vec![1]]).unwrap())
            .insert_components(vec![
                Variant::new(1, vec![vec![2], vec![3]]).unwrap(),
                Variant::new(1, vec![vec![9], vec![9]]).unwrap(),
            ])
            .set_owner(&user)
            .enter_room(&room);
        assert!(handle.has_component(0));
        assert!(handle.has_component(1));
        assert_eq!(handle.component(1).unwrap().get_prop(0), Some(&vec![2]));
        assert!(handle.has_owner());
        assert_eq!(handle.get_owner(), Some(user));
        assert!(handle.remove_component(0).is_some());
        assert!(!handle.has_component(0));
    }
    {
        let handle = EntityRef::new(&server, &world, &entity);
        assert_eq!(handle.key(), entity);
        assert!(handle.has_component(1));
        assert!(!handle.has_component(0));
        assert!(handle.component(0).is_none());
        assert!(handle.has_owner());
        assert_eq!(handle.get_owner(), Some(user));
    }
    assert!(server.room_has_entity(&room, &entity));
    assert!(server.room_has_user(&room, &user));
    server.room_remove_user(&room, &user);
    assert!(!server.room_has_user(&room, &user));
    assert!(!server.entity_in_scope(&user, &entity));
    server.room_add_user(&room, &user);
    assert!(server.entity_in_scope(&user, &entity));
    {
        let mut handle = EntityMut::new(&mut server, &mut world, &entity);
        handle.disown().leave_room(&room);
        assert!(!handle.has_owner());
        handle.set_owner(&UserKey { value: 99 });
        assert!(!handle.has_owner());
        handle.despawn();
    }
    assert!(!world.has_entity(&entity));
    assert_eq!(server.entity_global(&entity), None);
    assert!(!server.room_has_entity(&room, &entity));
    assert!(!server.room_exists(&RoomKey { value: 5 }));
}

#[test]
fn entity_reaches_the_client() {
    let manifest = test_manifest();
    let (mut server, mut world, user, room) = set_up();
    // the client sends a heartbeat every tick, so that the server hears of
    // what arrived
    let mut config = ServerConfig::default();
    config.heartbeat_interval = 50;
    let mut client = Client::new(config, 0).unwrap();
    connect(&mut client, true);
    assert!(matches!(client.pop_event(), Some(Event::Connection)));

    let entity = server.spawn_entity(&mut world).unwrap();
    server.insert_component(&mut world, &entity, Variant::new(0, vec![vec![4]]).unwrap());
    server.insert_component(&mut world, &entity, Variant::new(1, vec![vec![5], vec![6]]).unwrap());
    server.entity_set_owner(&entity, &user);
    server.room_add_entity(&room, &entity);
    server.update_scopes(&world);

    let mut now = 0u64;
    let mut seen = Vec::new();
    for tick in 1..=4u16 {
        now += 50;
        if let Some(packet) = server.user_get_outgoing_packet(&user, tick, now) {
            client.receive(&packet, now);
        }
        assert!(client.frame(&manifest, now));
        while let Some(event) = client.pop_event() {
            seen.push(event);
        }
        for packet in client.send(now) {
            let (header, payload) = parse(&packet);
            server.user_mark_heard(&user, now);
            server.user_process_incoming_header(&user, &header, now);
            if header.packet_type() == PacketType::Data {
                let r = server.user_process_incoming_data(&user, tick, header.host_tick(), &manifest, &payload);
                assert_eq!(r, Some(Ok(())));
            }
        }
    }
    let kinds: Vec<&str> = seen
        .iter()
        .map(|e| match e {
            Event::Tick => "tick",
            Event::CreateEntity(_, _) => "create",
            Event::AssignPawn(_) => "pawn",
            _ => "other",
        })
        .collect();
    assert_eq!(kinds.iter().filter(|k| **k == "create").count(), 1);
    assert_eq!(kinds.iter().filter(|k| **k == "pawn").count(), 1);
    assert_eq!(kinds.iter().filter(|k| **k == "other").count(), 0);
    let create = kinds.iter().position(|k| *k == "create").unwrap();
    let pawn = kinds.iter().position(|k| *k == "pawn").unwrap();
    assert!(create < pawn);
    let connection = client.connection().unwrap();
    assert_eq!(connection.component_keys().len(), 2);
    match &seen[create] {
        Event::CreateEntity(key, components) => {
            assert!(connection.has_entity(key));
            assert_eq!(components.len(), 2);
            assert!(connection.has_component(&components[0]));
            let record = connection.get_entity(key).unwrap();
            assert!(record.is_prediction());
            assert_eq!(record.get_key_from_type(1), Some(components[1]));
        }
        _ => unreachable!(),
    }
    match &seen[pawn] {
        Event::AssignPawn(PawnKey::Entity(_)) => {}
        _ => panic!("the pawn is an entity"),
    }
    assert!(server.users_to_drop(now).is_empty());
    assert_eq!(server.users_to_drop(now + 10000), vec![user]);

    // a command of the client reaches the server under its tick
    let pawn_key = match &seen[pawn] {
        Event::AssignPawn(k) => *k,
        _ => unreachable!(),
    };
    assert!(client.send_command(&pawn_key, Variant::new(0, vec![vec![1]]).unwrap()));
    let tick = client.client_tick();
    for packet in client.send(now) {
        let (header, payload) = parse(&packet);
        server.user_process_incoming_header(&user, &header, now);
        assert_eq!(header.host_tick(), tick);
        server.user_process_incoming_data(&user, 0, header.host_tick(), &manifest, &payload);
    }
    let (pawn, command) = server.user_pop_incoming_command(&user, tick).unwrap();
    assert_eq!(pawn, pawn_key);
    assert_eq!(command.get_prop(0), Some(&vec![1]));
    assert!(server.user_pop_incoming_command(&UserKey { value: 9 }, tick).is_none());
}
