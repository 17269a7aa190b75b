use naia_core::client_connection::ClientConnection;
use naia_core::command_receiver::CommandReceiver;
use naia_core::config::ServerConfig;
use naia_core::dual_command_receiver::DualCommandReceiver;
use naia_core::dual_command_sender::DualCommandSender;
use naia_core::error::ProtocolError;
use naia_core::keys::{LocalEntityKey, LocalObjectKey, PawnKey};
use naia_core::manifest::Manifest;
use naia_core::packet_writer::PacketWriter;
use naia_core::server_connection::ServerConnection;
use naia_core::standard_header::{PacketType, StandardHeader};
use naia_core::tick_manager::TickManager;
use naia_core::variant::Variant;
use naia_core::wire::PacketReader;

fn test_manifest() -> Manifest {
    let mut manifest = Manifest::new();
    // event 0: a command with one property
    manifest.register_event(1, false, Variant::new(0, vec![vec![]]).unwrap());
    // entity kind 0: one property, the position
    manifest.register_entity(2, Variant::new(0, vec![vec![0]]).unwrap());
    manifest
}

fn command(value: u8) -> Variant {
    Variant::new(0, vec![vec![value]]).unwrap()
}

fn object(key: u16) -> PawnKey {
    PawnKey::Object(LocalObjectKey { value: key })
}

#[test]
fn server_files_commands_under_their_tick() {
    let manifest = test_manifest();
    let mut receiver = CommandReceiver::new();
    // one entry: object pawn 5, kind 0, one past command two ticks back
    let block = [1u8, 1, 0, 5, 0, 0, 1, 1, 42, 2, 1, 41];
    let mut reader = PacketReader::new(&block);
    assert_eq!(receiver.process_data(7, 10, &mut reader, &manifest), Ok(()));
    assert!(!reader.has_more());
    let (pawn, past) = receiver.pop_incoming_command(8).unwrap();
    assert_eq!(pawn, object(5));
    assert_eq!(past.get_prop(0), Some(&vec![41]));
    assert!(receiver.pop_incoming_command(9).is_none());
    let (pawn, newest) = receiver.pop_incoming_command(10).unwrap();
    assert_eq!(pawn, object(5));
    assert_eq!(newest.get_prop(0), Some(&vec![42]));
    assert!(receiver.pop_incoming_command(10).is_none());
}

#[test]
fn pawn_flag_says_whether_the_pawn_is_an_object() {
    let manifest = test_manifest();
    let mut receiver = CommandReceiver::new();
    let block = [1u8, 1, 0, 0, 0, 0, 0, 1, 0x33];
    let mut reader = PacketReader::new(&block);
    assert_eq!(receiver.process_data(0, 4, &mut reader, &manifest), Ok(()));
    let (pawn, c) = receiver.pop_incoming_command(4).unwrap();
    assert_eq!(pawn, object(0));
    assert_eq!(c.get_prop(0), Some(&vec![0x33]));

    let block = [1u8, 0, 0, 0, 0, 0, 0, 1, 0x33];
    let mut reader = PacketReader::new(&block);
    assert_eq!(receiver.process_data(0, 5, &mut reader, &manifest), Ok(()));
    let (pawn, _) = receiver.pop_incoming_command(5).unwrap();
    assert_eq!(pawn, PawnKey::Entity(LocalEntityKey { value: 0 }));

    // any other flag is malformed
    let block = [1u8, 2, 0, 0, 0, 0, 0, 1, 0x33];
    let mut reader = PacketReader::new(&block);
    assert_eq!(
        receiver.process_data(0, 6, &mut reader, &manifest),
        Err(ProtocolError::Malformed)
    );
    assert!(receiver.pop_incoming_command(6).is_none());
}

#[test]
fn popping_a_tick_discards_the_older_ticks() {
    let manifest = test_manifest();
    let mut receiver = CommandReceiver::new();
    // tick 6 holds 0x22, tick 5 holds 0x11
    let block = [1u8, 1, 0, 0, 0, 0, 1, 1, 0x22, 1, 1, 0x11];
    let mut reader = PacketReader::new(&block);
    assert_eq!(receiver.process_data(0, 6, &mut reader, &manifest), Ok(()));
    let (_, c) = receiver.pop_incoming_command(6).unwrap();
    assert_eq!(c.get_prop(0), Some(&vec![0x22]));
    assert!(receiver.pop_incoming_command(5).is_none());
}

#[test]
fn past_command_beyond_the_wrap_is_kept() {
    let manifest = test_manifest();
    let mut receiver = CommandReceiver::new();
    // the server is at tick 65534; tick 1 lies after it in wrapping order
    let block = [1u8, 1, 0, 0, 0, 0, 1, 1, 0xAA, 2, 1, 0xBB];
    let mut reader = PacketReader::new(&block);
    assert_eq!(receiver.process_data(65534, 3, &mut reader, &manifest), Ok(()));
    let (pawn, c) = receiver.pop_incoming_command(1).unwrap();
    assert_eq!(pawn, object(0));
    assert_eq!(c.get_prop(0), Some(&vec![0xBB]));
    let (pawn, c) = receiver.pop_incoming_command(3).unwrap();
    assert_eq!(pawn, object(0));
    assert_eq!(c.get_prop(0), Some(&vec![0xAA]));
}

#[test]
fn server_drops_past_commands_that_the_tick_has_passed() {
    let manifest = test_manifest();
    let mut receiver = CommandReceiver::new();
    let block = [1u8, 0, 0, 5, 0, 0, 2, 1, 42, 1, 1, 41, 3, 1, 40];
    let mut reader = PacketReader::new(&block);
    // the server is at tick 8: the command of tick 9 is still ahead, the
    // one of tick 7 is not
    assert_eq!(receiver.process_data(8, 10, &mut reader, &manifest), Ok(()));
    let entity = PawnKey::Entity(LocalEntityKey { value: 5 });
    assert!(receiver.pop_incoming_command(7).is_none());
    assert_eq!(receiver.pop_incoming_command(9).map(|c| c.0), Some(entity));
    assert!(receiver.pop_incoming_command(10).is_some());
}

#[test]
fn first_write_wins_for_past_commands() {
    let manifest = test_manifest();
    let mut receiver = CommandReceiver::new();
    let first = [1u8, 0, 0, 5, 0, 0, 0, 1, 1];
    let mut reader = PacketReader::new(&first);
    receiver.process_data(0, 10, &mut reader, &manifest).unwrap();
    // the next packet repeats tick 10 as a past command with other bytes
    let second = [1u8, 0, 0, 5, 0, 0, 1, 1, 2, 1, 1, 99];
    let mut reader = PacketReader::new(&second);
    receiver.process_data(0, 11, &mut reader, &manifest).unwrap();
    let (_, at_ten) = receiver.pop_incoming_command(10).unwrap();
    assert_eq!(at_ten.get_prop(0), Some(&vec![1]));
    let (_, at_eleven) = receiver.pop_incoming_command(11).unwrap();
    assert_eq!(at_eleven.get_prop(0), Some(&vec![2]));
}

#[test]
fn newest_command_replaces_the_one_that_waits() {
    let manifest = test_manifest();
    let mut receiver = CommandReceiver::new();
    let first = [1u8, 0, 0, 5, 0, 0, 0, 1, 1];
    let mut reader = PacketReader::new(&first);
    receiver.process_data(0, 10, &mut reader, &manifest).unwrap();
    let again = [1u8, 0, 0, 5, 0, 0, 0, 1, 7];
    let mut reader = PacketReader::new(&again);
    receiver.process_data(0, 10, &mut reader, &manifest).unwrap();
    let (_, c) = receiver.pop_incoming_command(10).unwrap();
    assert_eq!(c.get_prop(0), Some(&vec![7]));
    assert!(receiver.pop_incoming_command(10).is_none());
}

#[test]
fn malformed_command_block_is_refused_whole() {
    let manifest = test_manifest();
    let mut receiver = CommandReceiver::new();
    // two entries announced, the second names an unknown kind
    let block = [2u8, 0, 0, 5, 0, 0, 0, 1, 1, 0, 0, 6, 0, 9, 0];
    let mut reader = PacketReader::new(&block);
    assert_eq!(
        receiver.process_data(0, 10, &mut reader, &manifest),
        Err(ProtocolError::Malformed)
    );
    assert_eq!(reader.get_cursor(), 0);
    assert!(receiver.pop_incoming_command(10).is_none());
}

#[test]
fn commands_older_than_the_ring_are_dropped() {
    let manifest = test_manifest();
    let mut receiver = CommandReceiver::new();
    let block = [1u8, 0, 0, 5, 0, 0, 0, 1, 1];
    let mut reader = PacketReader::new(&block);
    receiver.process_data(0, 200, &mut reader, &manifest).unwrap();
    let mut reader = PacketReader::new(&block);
    receiver.process_data(0, 100, &mut reader, &manifest).unwrap();
    assert!(receiver.pop_incoming_command(100).is_none());
    let mut reader = PacketReader::new(&block);
    receiver.process_data(0, 137, &mut reader, &manifest).unwrap();
    assert!(receiver.pop_incoming_command(137).is_some());
    assert!(receiver.pop_incoming_command(200).is_some());
}

#[test]
fn sender_keeps_one_command_per_pawn() {
    let mut sender = DualCommandSender::new();
    assert!(!sender.has_command());
    sender.queue_command(&object(1), command(1));
    sender.queue_command(&object(2), command(2));
    sender.queue_command(&object(1), command(3));
    let (pawn, c) = sender.pop_command().unwrap();
    assert_eq!(pawn, object(1));
    assert_eq!(c.get_prop(0), Some(&vec![3]));
    sender.unpop_command(&pawn, c);
    let (pawn, _) = sender.pop_command().unwrap();
    assert_eq!(pawn, object(2));
    let (pawn, _) = sender.pop_command().unwrap();
    assert_eq!(pawn, object(1));
    assert!(sender.pop_command().is_none());
}

#[test]
fn writer_sends_the_newest_with_its_history() {
    let mut receiver = DualCommandReceiver::new();
    receiver.pawn_init(&object(5));
    receiver.queue_command(8, &object(5), &command(40));
    receiver.queue_command(9, &object(5), &command(41));
    let mut writer = PacketWriter::new();
    assert!(writer.write_command(10, &receiver, &object(5), &command(42)));
    assert!(writer.has_bytes());
    assert_eq!(writer.bytes_number(), 16);
    let bytes = writer.get_bytes();
    assert_eq!(bytes, vec![2, 1, 1, 0, 5, 0, 0, 2, 1, 42, 1, 1, 41, 2, 1, 40]);
    assert!(!writer.has_bytes());
}

#[test]
fn writer_refuses_what_does_not_fit() {
    let receiver = DualCommandReceiver::new();
    let mut writer = PacketWriter::new();
    let big = Variant::new(0, vec![vec![0; 250], vec![0; 250]]).unwrap();
    assert!(!writer.write_command(0, &receiver, &object(1), &big));
    assert!(!writer.write_message(&big));
    assert!(!writer.has_bytes());
    let half = Variant::new(0, vec![vec![0; 240]]).unwrap();
    assert!(writer.write_message(&half));
    // 2 + 2 + 241 bytes are taken; another 243 do not fit, 9 more do
    assert_eq!(writer.bytes_number(), 245);
    assert!(writer.write_message(&half));
    assert_eq!(writer.bytes_number(), 488);
    assert!(!writer.write_message(&half));
    assert!(writer.write_command(0, &receiver, &object(1), &Variant::empty(0)));
    assert_eq!(writer.bytes_number(), 496);
    assert!(!writer.write_command(0, &receiver, &object(2), &Variant::empty(0)));
}

#[test]
fn history_keeps_the_newest_sixty_four() {
    let mut receiver = DualCommandReceiver::new();
    receiver.pawn_init(&object(1));
    for tick in 0..70u16 {
        receiver.queue_command(tick, &object(1), &command(tick as u8));
    }
    assert_eq!(receiver.command_history_count(&object(1)), 64);
    let history = receiver.command_history(&object(1)).unwrap();
    assert_eq!(history[0].tick, 6);
    assert_eq!(history[63].tick, 69);
    assert_eq!(receiver.command_history_count(&object(2)), 0);
    receiver.remove_history_until(60, &object(1));
    assert_eq!(receiver.command_history_count(&object(1)), 9);
    receiver.pawn_cleanup(&object(1));
    assert!(receiver.command_history(&object(1)).is_none());
}

fn exchange_header(from: &mut ServerConnection, to: &mut ClientConnection, now: u64) {
    let bytes = from.process_outgoing_header(0, PacketType::Heartbeat, &Vec::new(), now);
    let mut reader = PacketReader::new(&bytes);
    let header = StandardHeader::read(&mut reader).unwrap();
    to.process_incoming_header(&header, now);
}

fn pass_data(
    from: &mut ClientConnection,
    to: &mut ServerConnection,
    manifest: &Manifest,
    tick: u16,
    now: u64,
) -> bool {
    match from.get_outgoing_packet(tick, now) {
        Some(bytes) => {
            let mut reader = PacketReader::new(&bytes);
            let header = StandardHeader::read(&mut reader).unwrap();
            let mut ticks = TickManager::new(50, now);
            to.process_incoming_header(&header, &mut ticks, now);
            to.process_incoming_data(
                header.host_tick(),
                header.local_packet_index(),
                manifest,
                &bytes[StandardHeader::bytes_number()..],
            )
            .unwrap();
            true
        }
        None => false,
    }
}

#[test]
fn command_replay() {
    let manifest = test_manifest();
    let config = ServerConfig::default();
    let mut server = ClientConnection::new(&config, 0).unwrap();
    let mut client = ServerConnection::new(&config, 0).unwrap();

    // the server creates the pawn and assigns it
    let key = server.spawn_object(1, Variant::new(0, vec![vec![0]]).unwrap()).unwrap();
    server.set_pawn(1, true);
    assert!(pass_data(&mut server, &mut client, &manifest, 98, 0));
    exchange_header(&mut client, &mut server, 1);
    assert!(pass_data(&mut server, &mut client, &manifest, 99, 2));
    exchange_header(&mut client, &mut server, 3);
    assert_eq!(client.pawn_keys(), vec![key]);

    // the client moves right at ticks 101, 102 and 103, predicting each move
    for tick in 101..=103u16 {
        client.replicate_queue_command(&key, command(1));
        assert!(client.get_outgoing_packet(tick, 10).is_some());
        let (pawn, c) = client.get_incoming_command().unwrap();
        assert_eq!(pawn, object(key.value));
        let x = client.get_pawn(&key).unwrap().get_prop(0).unwrap()[0];
        let step = c.get_prop(0).unwrap()[0];
        assert!(client.write_pawn(&key, 0, vec![x + step]));
    }
    assert_eq!(client.get_pawn(&key).unwrap().get_prop(0), Some(&vec![3]));

    // the server's state of tick 100 arrives: x is 0
    assert!(server.write_property(1, 0, vec![0]));
    assert!(pass_data(&mut server, &mut client, &manifest, 100, 20));
    client.process_replays();
    assert_eq!(client.get_pawn(&key).unwrap().get_prop(0), Some(&vec![0]));
    assert!(client.get_incoming_command().is_none());
    let mut replayed = Vec::new();
    while let Some((pawn, c)) = client.get_incoming_replay() {
        assert_eq!(pawn, object(key.value));
        let x = client.get_pawn(&key).unwrap().get_prop(0).unwrap()[0];
        let step = c.get_prop(0).unwrap()[0];
        assert!(client.write_pawn(&key, 0, vec![x + step]));
        replayed.push(step);
    }
    assert_eq!(replayed.len(), 3);
    assert_eq!(client.get_pawn(&key).unwrap().get_prop(0), Some(&vec![3]));
}

#[test]
fn replay_drops_what_the_server_has_seen() {
    let mut receiver = DualCommandReceiver::new();
    let mut replica = naia_core::replicate_manager::ReplicateManager::new();
    receiver.pawn_init(&object(1));
    for tick in 100..=103u16 {
        receiver.queue_command(tick, &object(1), &command((tick - 100) as u8));
    }
    receiver.replay_commands(101, &object(1));
    receiver.replay_commands(100, &object(1));
    receiver.process_command_replay(&mut replica);
    assert!(receiver.pop_command().is_none());
    let first = receiver.pop_command_replay().unwrap();
    assert_eq!(first.tick, 102);
    let second = receiver.pop_command_replay().unwrap();
    assert_eq!(second.tick, 103);
    assert!(receiver.pop_command_replay().is_none());
    assert_eq!(receiver.command_history_count(&object(1)), 2);
}

#[test]
fn commands_reach_the_server() {
    let manifest = test_manifest();
    let config = ServerConfig::default();
    let mut server = ClientConnection::new(&config, 0).unwrap();
    let mut client = ServerConnection::new(&config, 0).unwrap();
    let key = LocalObjectKey { value: 4 };
    client.replicate_queue_command(&key, command(9));
    client.entity_queue_command(&LocalEntityKey { value: 4 }, command(8));
    let packet = client.get_outgoing_packet(50, 0).unwrap();
    assert!(client.get_outgoing_packet(50, 0).is_none());
    let mut reader = PacketReader::new(&packet);
    let header = StandardHeader::read(&mut reader).unwrap();
    assert_eq!(header.packet_type(), PacketType::Data);
    assert_eq!(header.host_tick(), 50);
    server.process_incoming_header(&header, 0);
    assert_eq!(
        server.process_incoming_data(49, header.host_tick(), &manifest, &packet[11..]),
        Ok(())
    );
    let (pawn, c) = server.pop_incoming_command(50).unwrap();
    assert_eq!(pawn, object(4));
    assert_eq!(c.get_prop(0), Some(&vec![9]));
    let (pawn, c) = server.pop_incoming_command(50).unwrap();
    assert_eq!(pawn, PawnKey::Entity(LocalEntityKey { value: 4 }));
    assert_eq!(c.get_prop(0), Some(&vec![8]));
    assert!(server.pop_incoming_command(50).is_none());
    // a replicate block is nothing that a client may send
    assert_eq!(
        server.process_incoming_data(49, 50, &manifest, &[1, 0]),
        Err(ProtocolError::Malformed)
    );
}
