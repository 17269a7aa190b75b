use naia_core::manifest::Manifest;
use naia_core::standard_header::{PacketType, StandardHeader};
use naia_core::state_mask::StateMask;
use naia_core::variant::Variant;
use naia_core::wire::{write_u16, write_u32, PacketReader};

#[test]
fn reader_reads_big_endian() {
    let bytes = [0x12u8, 0x34, 0x56, 0x78, 0x9a, 0xbc, 0xde];
    let mut reader = PacketReader::new(&bytes);
    assert_eq!(reader.read_u8(), Some(0x12));
    assert_eq!(reader.read_u16(), Some(0x3456));
    assert_eq!(reader.read_u32(), Some(0x789abcde));
    assert!(!reader.has_more());
    assert_eq!(reader.read_u8(), None);
}

#[test]
fn reader_leaves_cursor_on_failure() {
    let bytes = [1u8, 2, 3];
    let mut reader = PacketReader::new(&bytes);
    assert_eq!(reader.read_u32(), None);
    assert_eq!(reader.get_cursor(), 0);
    assert_eq!(reader.read_bytes(4), None);
    assert_eq!(reader.read_bytes(2), Some(vec![1, 2]));
    assert_eq!(reader.read_u16(), None);
    assert_eq!(reader.get_cursor(), 2);
}

#[test]
fn writer_writes_big_endian() {
    let mut out = Vec::new();
    write_u16(&mut out, 0x0102);
    write_u32(&mut out, 0x03040506);
    assert_eq!(out, vec![1, 2, 3, 4, 5, 6]);
}

#[test]
fn header_round_trip() {
    let header = StandardHeader::new(PacketType::Data, 513, 65535, 0x80000001, 258);
    let mut out = Vec::new();
    header.write(&mut out);
    assert_eq!(out, vec![0, 2, 1, 255, 255, 0x80, 0, 0, 1, 1, 2]);
    assert_eq!(out.len(), StandardHeader::bytes_number());
    let mut reader = PacketReader::new(&out);
    assert_eq!(StandardHeader::read(&mut reader), Some(header));
    assert!(!reader.has_more());
}

#[test]
fn header_with_unknown_type_is_refused() {
    let bytes = [7u8, 0, 0, 0, 0, 0, 0, 0, 0, 0, 0];
    let mut reader = PacketReader::new(&bytes);
    assert_eq!(StandardHeader::read(&mut reader), None);
    assert_eq!(reader.get_cursor(), 0);
}

#[test]
fn header_cut_short_is_refused() {
    let bytes = [0u8, 0, 0, 0, 0, 0, 0, 0, 0, 0];
    let mut reader = PacketReader::new(&bytes);
    assert_eq!(StandardHeader::read(&mut reader), None);
}

#[test]
fn packet_types_have_their_bytes() {
    let all = [
        PacketType::Data,
        PacketType::Heartbeat,
        PacketType::Ping,
        PacketType::Pong,
        PacketType::ClientHandshake,
        PacketType::ServerHandshake,
        PacketType::Disconnect,
    ];
    for (i, t) in all.iter().enumerate() {
        assert_eq!(t.to_u8() as usize, i);
        assert_eq!(PacketType::from_u8(i as u8), Some(*t));
    }
    assert_eq!(PacketType::from_u8(7), None);
}

#[test]
fn mask_packs_lowest_index_first() {
    let mut mask = StateMask::new(10);
    assert!(mask.is_clear());
    mask.set_bit(0);
    mask.set_bit(3);
    mask.set_bit(9);
    mask.set_bit(10);
    assert!(mask.get_bit(3));
    assert!(!mask.get_bit(10));
    let mut out = Vec::new();
    mask.write(&mut out);
    assert_eq!(out, vec![0b0000_1001, 0b0000_0010]);
    let mut reader = PacketReader::new(&out);
    let read = StateMask::read(&mut reader, 10).unwrap();
    for i in 0..10 {
        assert_eq!(read.get_bit(i), mask.get_bit(i));
    }
    assert_eq!(read.len(), 10);
}

#[test]
fn mask_or_and_nand() {
    let mut a = StateMask::new(4);
    a.set_bit(0);
    let mut b = StateMask::new(4);
    b.set_bit(0);
    b.set_bit(2);
    a.or(&b);
    assert!(a.get_bit(0) && a.get_bit(2) && !a.get_bit(1));
    let mut c = StateMask::full(4);
    c.nand(&b);
    assert!(!c.get_bit(0) && c.get_bit(1) && !c.get_bit(2) && c.get_bit(3));
    c.clear();
    assert!(c.is_clear());
}

#[test]
fn variant_full_round_trip() {
    let v = Variant::new(7, vec![vec![1, 2], vec![], vec![9]]).unwrap();
    let mut out = Vec::new();
    v.write_full(&mut out);
    assert_eq!(out, vec![2, 1, 2, 0, 1, 9]);
    let mut reader = PacketReader::new(&out);
    let read = Variant::read_full(&mut reader, 7, 3).unwrap();
    assert!(read.same(&v));
    assert!(!reader.has_more());
}

#[test]
fn variant_partial_update_keeps_unset_fields() {
    let sender = Variant::new(1, vec![vec![11], vec![20], vec![30]]).unwrap();
    let mut mask = StateMask::new(3);
    mask.set_bit(0);
    mask.set_bit(2);
    let mut out = Vec::new();
    sender.write_partial(&mask, &mut out);
    assert_eq!(out, vec![1, 11, 1, 30]);
    let mut receiver = Variant::new(1, vec![vec![10], vec![21], vec![31]]).unwrap();
    let mut reader = PacketReader::new(&out);
    assert!(receiver.read_partial(&mut reader, &mask));
    assert_eq!(receiver.get_prop(0), Some(&vec![11]));
    assert_eq!(receiver.get_prop(1), Some(&vec![21]));
    assert_eq!(receiver.get_prop(2), Some(&vec![30]));
}

#[test]
fn variant_malformed_update_changes_nothing() {
    let mut receiver = Variant::new(1, vec![vec![10], vec![21]]).unwrap();
    let mask = StateMask::full(2);
    let bytes = [1u8, 5, 3, 1];
    let mut reader = PacketReader::new(&bytes);
    assert!(!receiver.read_partial(&mut reader, &mask));
    assert_eq!(receiver.get_prop(0), Some(&vec![10]));
    assert_eq!(receiver.get_prop(1), Some(&vec![21]));
    assert_eq!(reader.get_cursor(), 0);
}

#[test]
fn variant_refuses_long_properties() {
    assert!(Variant::new(0, vec![vec![0u8; 255]]).is_some());
    assert!(Variant::new(0, vec![vec![0u8; 256]]).is_none());
    let mut v = Variant::new(0, vec![vec![1]]).unwrap();
    assert!(!v.set_prop(0, vec![0u8; 256]));
    assert!(!v.set_prop(1, vec![1]));
    assert!(v.set_prop(0, vec![2, 3]));
    assert_eq!(v.get_prop(0), Some(&vec![2, 3]));
}

#[test]
fn manifest_numbers_kinds_in_registration_order() {
    let mut manifest = Manifest::new();
    manifest.register_event(100, false, Variant::new(0, vec![vec![1]]).unwrap());
    manifest.register_event(200, true, Variant::new(0, vec![]).unwrap());
    manifest.register_entity(300, Variant::new(0, vec![vec![0], vec![0]]).unwrap());
    assert_eq!(manifest.get_event_gaia_id(100), 0);
    assert_eq!(manifest.get_event_gaia_id(200), 1);
    assert_eq!(manifest.get_entity_gaia_id(300), 0);
    assert_eq!(manifest.find_event_gaia_id(300), None);
    assert_eq!(manifest.find_entity_gaia_id(100), None);
    let event = manifest.create_event(1).unwrap();
    assert_eq!(event.naia_id(), 1);
    assert_eq!(event.prop_count(), 0);
    let entity = manifest.create_entity(0).unwrap();
    assert_eq!(entity.naia_id(), 0);
    assert_eq!(entity.prop_count(), 2);
    assert!(manifest.create_event(2).is_none());
    assert!(manifest.create_entity(1).is_none());
}

#[test]
fn manifest_keeps_the_id_of_a_type_registered_again() {
    let mut manifest = Manifest::new();
    manifest.register_event(100, false, Variant::new(0, vec![vec![1]]).unwrap());
    manifest.register_event(101, false, Variant::empty(0));
    manifest.register_event(100, true, Variant::new(0, vec![vec![2], vec![3]]).unwrap());
    assert_eq!(manifest.get_event_gaia_id(100), 0);
    assert_eq!(manifest.get_event_gaia_id(101), 1);
    assert_eq!(manifest.find_event_gaia_id(102), None);
    // the first registration stands: one property, the first prototype
    let v = manifest.create_event(0).unwrap();
    assert_eq!(v.prop_count(), 1);
    assert_eq!(v.get_prop(0), Some(&vec![1]));
    assert!(manifest.create_event(2).is_none());
}

#[test]
fn manifest_reads_a_registered_kind() {
    let mut manifest = Manifest::new();
    manifest.register_event(1, false, Variant::new(0, vec![vec![], vec![]]).unwrap());
    let bytes = [1u8, 42, 2, 7, 8, 99];
    let mut reader = PacketReader::new(&bytes);
    let v = manifest.read_event(0, &mut reader).unwrap();
    assert_eq!(v.get_prop(0), Some(&vec![42]));
    assert_eq!(v.get_prop(1), Some(&vec![7, 8]));
    assert_eq!(reader.get_cursor(), 5);
    assert!(manifest.read_event(1, &mut reader).is_none());
    assert_eq!(reader.get_cursor(), 5);
}
