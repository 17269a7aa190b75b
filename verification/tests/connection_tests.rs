use naia_core::ack_manager::{classify, AckManager};
use naia_core::client_connection::ClientConnection;
use naia_core::config::ServerConfig;
use naia_core::connection::Connection;
use naia_core::manifest::Manifest;
use naia_core::message_manager::MessageManager;
use naia_core::ping_manager::PingManager;
use naia_core::server_connection::ServerConnection;
use naia_core::standard_header::{PacketType, StandardHeader};
use naia_core::tick_manager::TickManager;
use naia_core::variant::Variant;
use naia_core::wire::PacketReader;

fn test_manifest() -> Manifest {
    let mut manifest = Manifest::new();
    manifest.register_event(1, true, Variant::new(0, vec![vec![]]).unwrap());
    manifest
}

fn message(value: u8) -> Variant {
    Variant::new(0, vec![vec![value]]).unwrap()
}

#[test]
fn default_config_values() {
    let config = ServerConfig::default();
    assert_eq!(config.disconnection_timeout_duration, 10000);
    assert_eq!(config.heartbeat_interval, 4000);
    assert_eq!(config.send_handshake_interval, 1000);
    assert_eq!(config.ping_interval, 1000);
    assert_eq!(config.rtt_sample_size, 20);
    assert!(config.is_valid());
}

#[test]
fn invalid_config_fails_at_construction() {
    let mut config = ServerConfig::default();
    config.heartbeat_interval = 0;
    assert!(!config.is_valid());
    assert!(ServerConnection::new(&config, 0).is_none());
    assert!(ClientConnection::new(&config, 0).is_none());
    let mut config = ServerConfig::default();
    config.rtt_sample_size = 0;
    assert!(ServerConnection::new(&config, 0).is_none());
}

#[test]
fn disconnect_on_timeout() {
    let mut config = ServerConfig::default();
    config.disconnection_timeout_duration = 5000;
    config.heartbeat_interval = 2000;
    let mut connection = Connection::new(&config, 0);
    assert!(!connection.should_drop(0));
    assert!(!connection.should_drop(4999));
    assert!(connection.should_drop(5000));
    assert!(connection.should_drop(9000));
    connection.mark_heard(3000);
    assert!(!connection.should_drop(7999));
    assert!(connection.should_drop(8000));
}

#[test]
fn heartbeat_when_nothing_was_sent() {
    let mut config = ServerConfig::default();
    config.heartbeat_interval = 2000;
    let mut connection = Connection::new(&config, 100);
    assert!(!connection.should_send_heartbeat(2099));
    assert!(connection.should_send_heartbeat(2100));
    connection.mark_sent(2100);
    assert!(!connection.should_send_heartbeat(4099));
    assert!(connection.should_send_heartbeat(4100));
    // a clock that went back counts as no time passed
    assert!(!connection.should_send_heartbeat(0));
}

#[test]
fn ack_outcomes() {
    // the header acknowledges 100 and, by its bits, 99 and 97
    let field = 0b101;
    assert_eq!(classify(100, field, 100), Some(true));
    assert_eq!(classify(100, field, 99), Some(true));
    assert_eq!(classify(100, field, 98), None);
    assert_eq!(classify(100, field, 97), Some(true));
    assert_eq!(classify(100, field, 68), None);
    assert_eq!(classify(100, field, 67), Some(false));
    assert_eq!(classify(100, field, 101), None);
    assert_eq!(classify(100, 0x8000_0000, 68), Some(true));
    assert_eq!(classify(5, 0b1_0000, 0), Some(true));
    assert_eq!(classify(5, 0b1_0000, 65535), None);
    assert_eq!(classify(5, 0b10_0000, 65535), Some(true));
}

#[test]
fn ack_bitfield_names_what_was_received() {
    let mut acks = AckManager::new();
    assert_eq!(acks.get_last_remote_packet_index(), 65535);
    assert_eq!(acks.get_ack_bitfield(), 0);
    for index in [0u16, 1, 3] {
        let header = StandardHeader::new(PacketType::Data, index, 0, 0, 0);
        acks.process_incoming(&header, 0);
    }
    assert_eq!(acks.get_last_remote_packet_index(), 3);
    assert_eq!(acks.get_ack_bitfield(), 0b110);
    let header = StandardHeader::new(PacketType::Data, 2, 0, 0, 0);
    acks.process_incoming(&header, 0);
    assert_eq!(acks.get_ack_bitfield(), 0b111);
    let header = StandardHeader::new(PacketType::Data, 35, 0, 0, 0);
    acks.process_incoming(&header, 0);
    assert_eq!(acks.get_last_remote_packet_index(), 35);
    assert_eq!(acks.get_ack_bitfield(), 0x8000_0000);
}

#[test]
fn acks_settle_packets_in_flight() {
    let mut acks = AckManager::new();
    for i in 0..3u64 {
        let packet = acks.process_outgoing(PacketType::Data, 7, &vec![9], 100 + i);
        assert_eq!(packet.len(), 12);
        assert_eq!(packet[2], i as u8);
    }
    assert_eq!(acks.get_local_packet_index(), 3);
    // the peer has packets 2 and 0
    let header = StandardHeader::new(PacketType::Heartbeat, 0, 2, 0b10, 0);
    let notices = acks.process_incoming(&header, 150);
    assert_eq!(notices.len(), 2);
    assert_eq!(notices[0].packet_index, 0);
    assert!(notices[0].delivered);
    assert_eq!(notices[0].elapsed, 50);
    assert_eq!(notices[1].packet_index, 2);
    assert_eq!(notices[1].elapsed, 48);
    // packet 1 is given up when it falls out of the window
    let header = StandardHeader::new(PacketType::Heartbeat, 1, 33, 0, 0);
    assert!(acks.process_incoming(&header, 200).is_empty());
    let header = StandardHeader::new(PacketType::Heartbeat, 2, 34, 0, 0);
    let notices = acks.process_incoming(&header, 300);
    assert_eq!(notices.len(), 1);
    assert_eq!(notices[0].packet_index, 1);
    assert!(!notices[0].delivered);
    assert_eq!(notices[0].packet_type, PacketType::Data);
}

#[test]
fn guaranteed_messages_are_sent_again() {
    let mut messages = MessageManager::new();
    messages.queue_outgoing_message(message(1), true);
    messages.queue_outgoing_message(message(2), false);
    let first = messages.pop_outgoing_message(10).unwrap();
    assert!(first.guaranteed);
    let second = messages.pop_outgoing_message(10).unwrap();
    assert!(!second.guaranteed);
    assert!(!messages.has_outgoing_messages());
    messages.notify_packet_dropped(10);
    assert!(messages.has_outgoing_messages());
    let again = messages.pop_outgoing_message(11).unwrap();
    assert_eq!(again.message.get_prop(0), Some(&vec![1]));
    assert!(messages.pop_outgoing_message(11).is_none());
    messages.notify_packet_delivered(11);
    messages.notify_packet_dropped(11);
    assert!(!messages.has_outgoing_messages());
}

#[test]
fn unpop_puts_a_message_back() {
    let mut messages = MessageManager::new();
    messages.queue_outgoing_message(message(1), true);
    messages.queue_outgoing_message(message(2), true);
    let first = messages.pop_outgoing_message(10).unwrap();
    messages.unpop_outgoing_message(10, first);
    // nothing is in flight for packet 10
    messages.notify_packet_dropped(10);
    let first = messages.pop_outgoing_message(11).unwrap();
    assert_eq!(first.message.get_prop(0), Some(&vec![1]));
    let second = messages.pop_outgoing_message(11).unwrap();
    assert_eq!(second.message.get_prop(0), Some(&vec![2]));
    assert!(messages.pop_outgoing_message(11).is_none());
}

#[test]
fn messages_travel_both_ways() {
    let manifest = test_manifest();
    let config = ServerConfig::default();
    let mut server = ClientConnection::new(&config, 0).unwrap();
    let mut client = ServerConnection::new(&config, 0).unwrap();
    server.queue_message(message(5), true);
    server.queue_message(message(6), false);
    let packet = server.get_outgoing_packet(3, 0).unwrap();
    assert_eq!(&packet[11..], &[0, 2, 0, 0, 1, 5, 0, 0, 1, 6]);
    assert!(server.get_outgoing_packet(3, 0).is_none());
    let mut ticks = TickManager::new(50, 0);
    let mut reader = PacketReader::new(&packet);
    let header = StandardHeader::read(&mut reader).unwrap();
    client.process_incoming_header(&header, &mut ticks, 0);
    client.buffer_data_packet(header.host_tick(), header.local_packet_index(), &packet[11..].to_vec());
    assert!(client.get_incoming_event().is_none());
    assert_eq!(client.frame_begin(&manifest, &mut ticks, 49), Ok(false));
    assert_eq!(client.frame_begin(&manifest, &mut ticks, 50), Ok(true));
    assert_eq!(client.get_incoming_event().unwrap().get_prop(0), Some(&vec![5]));
    assert_eq!(client.get_incoming_event().unwrap().get_prop(0), Some(&vec![6]));
    assert!(client.get_incoming_event().is_none());
    assert_eq!(client.get_last_received_tick(), 3);

    client.queue_message(message(7), false);
    let packet = client.get_outgoing_packet(9, 60).unwrap();
    let mut reader = PacketReader::new(&packet);
    let header = StandardHeader::read(&mut reader).unwrap();
    assert_eq!(header.last_remote_packet_index(), 0);
    let notices = server.process_incoming_header(&header, 60);
    assert_eq!(notices.len(), 1);
    assert!(notices[0].delivered);
    server.process_incoming_data(0, 9, &manifest, &packet[11..]).unwrap();
    assert_eq!(server.get_incoming_message().unwrap().get_prop(0), Some(&vec![7]));
}

#[test]
fn jitter_buffer_reorders_data() {
    let manifest = test_manifest();
    let config = ServerConfig::default();
    let mut client = ServerConnection::new(&config, 0).unwrap();
    let payload = |value: u8| vec![0u8, 1, 0, 0, 1, value];
    client.buffer_data_packet(52, 2, &payload(52));
    client.buffer_data_packet(50, 0, &payload(50));
    client.buffer_data_packet(53, 3, &payload(53));
    client.buffer_data_packet(51, 1, &payload(51));
    let mut ticks = TickManager::new(50, 0);
    ticks.record_server_tick(50, 0, 0);
    assert_eq!(ticks.get_server_tick(), 51);
    // the frame moves the server tick on to 52
    assert_eq!(client.frame_begin(&manifest, &mut ticks, 50), Ok(true));
    let mut seen = Vec::new();
    while let Some(m) = client.get_incoming_event() {
        seen.push(m.get_prop(0).unwrap()[0]);
    }
    assert_eq!(seen, vec![50, 51, 52]);
    assert_eq!(client.get_buffered_data_packet(52), None);
    assert_eq!(client.get_buffered_data_packet(53), Some((53, 3, payload(53))));
}

#[test]
fn malformed_data_fails_the_frame() {
    let manifest = test_manifest();
    let config = ServerConfig::default();
    let mut client = ServerConnection::new(&config, 0).unwrap();
    client.buffer_data_packet(1, 0, &vec![0u8, 1, 0, 5]);
    client.buffer_data_packet(2, 1, &vec![0u8, 1, 0, 0, 1, 9]);
    let mut ticks = TickManager::new(50, 0);
    ticks.record_server_tick(5, 0, 0);
    assert_eq!(
        client.frame_begin(&manifest, &mut ticks, 50),
        Err(naia_core::error::ProtocolError::Malformed)
    );
    assert!(client.get_incoming_event().is_none());
    // a command block is nothing that a server may send
    assert_eq!(
        client.process_incoming_data(0, 0, &manifest, &[2, 0]),
        Err(naia_core::error::ProtocolError::Malformed)
    );
}

#[test]
fn tick_manager_ticks_once_per_interval() {
    let mut ticks = TickManager::new(50, 1000);
    assert!(!ticks.mark_frame(1049));
    assert!(ticks.mark_frame(1050));
    assert_eq!(ticks.get_client_tick(), 1);
    assert!(!ticks.mark_frame(1050));
    // three intervals have passed: each is reported once
    assert!(ticks.mark_frame(1200));
    assert!(ticks.mark_frame(1200));
    assert!(ticks.mark_frame(1200));
    assert!(!ticks.mark_frame(1200));
    assert_eq!(ticks.get_client_tick(), 4);
}

#[test]
fn server_tick_estimate() {
    let mut ticks = TickManager::new(50, 0);
    // half of 100 ms and 10 ms of jitter are two ticks of 50 ms, rounded
    // up; with the margin of one tick that gives three
    ticks.record_server_tick(1000, 100, 10);
    assert_eq!(ticks.get_server_tick(), 1003);
    ticks.record_server_tick(65535, 0, 0);
    assert_eq!(ticks.get_server_tick(), 0);
    ticks.record_server_tick(10, 100, 0);
    assert_eq!(ticks.get_server_tick(), 12);
    ticks.record_server_tick(10, 101, 0);
    assert_eq!(ticks.get_server_tick(), 13);
}

#[test]
fn interpolation_is_the_fraction_of_the_tick() {
    let ticks = TickManager::new(50, 1000);
    assert_eq!(ticks.interpolation(1000), 0);
    assert_eq!(ticks.interpolation(1025), 500);
    assert_eq!(ticks.interpolation(1049), 980);
    assert_eq!(ticks.interpolation(1050), 1000);
    assert_eq!(ticks.interpolation(5000), 1000);
    assert_eq!(ticks.interpolation(0), 0);
}

#[test]
fn ping_measures_round_trip() {
    let mut pings = PingManager::new(1000, 20, 0);
    assert!(!pings.should_send_ping(999));
    assert!(pings.should_send_ping(1000));
    let payload = pings.get_ping_payload(1000);
    assert_eq!(payload, vec![0, 0]);
    assert!(!pings.should_send_ping(1999));
    assert_eq!(pings.process_pong(&payload, 1100), Some(100));
    // one sample of 100 ms weighs a twentieth
    assert_eq!(pings.get_rtt(), 5);
    assert_eq!(pings.get_jitter(), 5);
    assert_eq!(pings.process_pong(&[0, 9], 1100), None);
    assert_eq!(pings.process_pong(&[0], 1100), None);
    assert_eq!(pings.get_rtt(), 5);
    let payload = pings.get_ping_payload(2000);
    assert_eq!(payload, vec![0, 1]);
    assert_eq!(pings.process_pong(&payload, 2100), Some(100));
    // (5000 * 19 + 100000) / 20 = 9750 microseconds
    assert_eq!(pings.get_rtt(), 9);
    // (5000 * 19 + 95000) / 20 = 9500 microseconds
    assert_eq!(pings.get_jitter(), 9);
}

#[test]
fn confirmed_packets_give_round_trip_samples() {
    let config = ServerConfig::default();
    let mut client = ServerConnection::new(&config, 0).unwrap();
    let mut ticks = TickManager::new(50, 0);
    client.process_outgoing_header(0, PacketType::Heartbeat, &Vec::new(), 100);
    let header = StandardHeader::new(PacketType::Heartbeat, 0, 0, 0, 40);
    let notices = client.process_incoming_header(&header, &mut ticks, 300);
    assert_eq!(notices.len(), 1);
    assert_eq!(notices[0].elapsed, 200);
    assert_eq!(client.get_rtt(), 10);
    assert_eq!(client.get_jitter(), 10);
    assert_eq!(ticks.get_server_tick(), 41);
    assert_eq!(client.get_next_packet_index(), 1);
}
