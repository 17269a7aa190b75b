use naia_core::dual_command_receiver::DualCommandReceiver;
use naia_core::error::ProtocolError;
use naia_core::key_generator::KeyGenerator;
use naia_core::keys::{LocalComponentKey, LocalEntityKey, LocalObjectKey, PawnKey};
use naia_core::locality_status::{LocalityEvent, LocalityStatus};
use naia_core::manifest::Manifest;
use naia_core::replicate_action::ReplicateAction;
use naia_core::replicate_manager::ReplicateManager;
use naia_core::replicate_sender::{ReplicateSender, SpawnError};
use naia_core::variant::Variant;
use naia_core::wire::PacketReader;

fn test_manifest() -> Manifest {
    let mut manifest = Manifest::new();
    for i in 0..8u64 {
        manifest.register_entity(1000 + i, Variant::new(0, vec![vec![], vec![]]).unwrap());
    }
    manifest
}

fn deliver(
    client: &mut ReplicateManager,
    commands: &mut DualCommandReceiver,
    manifest: &Manifest,
    tick: u16,
    count: u8,
    bytes: &Vec<u8>,
) -> Result<(), ProtocolError> {
    let mut block = vec![count];
    block.extend(bytes.iter());
    let mut reader = PacketReader::new(&block);
    client.process_data(manifest, commands, tick, &mut reader)
}

fn drain(client: &mut ReplicateManager) -> Vec<ReplicateAction> {
    let mut events = Vec::new();
    while let Some(event) = client.pop_incoming_message() {
        events.push(event);
    }
    events
}

#[test]
fn reliable_create_under_loss() {
    let manifest = test_manifest();
    let mut sender = ReplicateSender::new();
    let key = sender.spawn_object(1, Variant::new(7, vec![vec![1], vec![2]]).unwrap()).unwrap();
    let mut client = ReplicateManager::new();
    let mut commands = DualCommandReceiver::new();
    let mut attempts = 0;
    for packet_index in 0..5u16 {
        let (bytes, count) = sender.write_outgoing(packet_index, 400);
        if count == 0 {
            continue;
        }
        attempts += 1;
        if packet_index % 2 == 0 {
            sender.notify_packet_dropped(packet_index);
        } else {
            deliver(&mut client, &mut commands, &manifest, 0, count, &bytes).unwrap();
            sender.notify_packet_delivered(packet_index);
        }
    }
    assert_eq!(attempts, 2);
    let events = drain(&mut client);
    assert_eq!(events.len(), 1);
    assert!(matches!(&events[0], ReplicateAction::CreateObject(k) if *k == key));
    let object = client.get_object(&key).unwrap();
    assert_eq!(object.naia_id(), 7);
    assert_eq!(object.get_prop(0), Some(&vec![1]));
    assert_eq!(object.get_prop(1), Some(&vec![2]));
    assert_eq!(sender.get_status(1), Some(LocalityStatus::Created));
}

#[test]
fn create_object_wire_form() {
    let mut sender = ReplicateSender::new();
    sender.spawn_object(1, Variant::new(7, vec![vec![1], vec![2]]).unwrap()).unwrap();
    let (bytes, count) = sender.write_outgoing(0, 400);
    assert_eq!(count, 1);
    assert_eq!(bytes, vec![0, 0, 0, 0, 7, 1, 1, 1, 2]);
    // while the creation is in flight nothing more is written for the key
    let (bytes, count) = sender.write_outgoing(1, 400);
    assert_eq!(count, 0);
    assert!(bytes.is_empty());
}

#[test]
fn update_coalescing() {
    let manifest = test_manifest();
    let mut sender = ReplicateSender::new();
    let key = sender.spawn_object(1, Variant::new(0, vec![vec![0], vec![0]]).unwrap()).unwrap();
    let mut client = ReplicateManager::new();
    let mut commands = DualCommandReceiver::new();
    let (bytes, count) = sender.write_outgoing(0, 400);
    deliver(&mut client, &mut commands, &manifest, 0, count, &bytes).unwrap();
    sender.notify_packet_delivered(0);

    assert!(sender.write_property(1, 0, vec![10]));
    let (bytes, count) = sender.write_outgoing(1, 400);
    assert_eq!(count, 1);
    assert_eq!(bytes, vec![1, 0, 0, 0b01, 1, 10]);
    assert!(sender.write_property(1, 1, vec![20]));
    let (bytes, _) = sender.write_outgoing(2, 400);
    assert_eq!(bytes, vec![1, 0, 0, 0b10, 1, 20]);
    assert!(sender.write_property(1, 0, vec![11]));
    let (bytes, _) = sender.write_outgoing(3, 400);
    assert_eq!(bytes, vec![1, 0, 0, 0b01, 1, 11]);

    sender.notify_packet_dropped(1);
    sender.notify_packet_dropped(2);
    sender.notify_packet_dropped(3);

    let (bytes, count) = sender.write_outgoing(4, 400);
    assert_eq!(count, 1);
    assert_eq!(bytes, vec![1, 0, 0, 0b11, 1, 11, 1, 20]);
    deliver(&mut client, &mut commands, &manifest, 3, count, &bytes).unwrap();
    sender.notify_packet_delivered(4);

    let object = client.get_object(&key).unwrap();
    assert_eq!(object.get_prop(0), Some(&vec![11]));
    assert_eq!(object.get_prop(1), Some(&vec![20]));
    let (_, count) = sender.write_outgoing(5, 400);
    assert_eq!(count, 0);
}

#[test]
fn dropped_update_yields_to_a_later_one() {
    let mut sender = ReplicateSender::new();
    sender.spawn_object(1, Variant::new(0, vec![vec![0], vec![0]]).unwrap()).unwrap();
    sender.write_outgoing(0, 400);
    sender.notify_packet_delivered(0);
    sender.write_property(1, 0, vec![1]);
    sender.write_outgoing(1, 400);
    sender.write_property(1, 0, vec![2]);
    sender.write_property(1, 1, vec![3]);
    sender.write_outgoing(2, 400);
    // property 0 went out again in packet 2, so the loss of packet 1 asks
    // for nothing
    sender.notify_packet_dropped(1);
    let (_, count) = sender.write_outgoing(3, 400);
    assert_eq!(count, 0);
    sender.notify_packet_dropped(2);
    let (bytes, count) = sender.write_outgoing(4, 400);
    assert_eq!(count, 1);
    assert_eq!(bytes, vec![1, 0, 0, 0b11, 1, 2, 1, 3]);
}

#[test]
fn entity_delete_ordering() {
    let manifest = test_manifest();
    let mut sender = ReplicateSender::new();
    let entity = sender.spawn_entity(100).unwrap();
    let a = sender.insert_component(100, 101, Variant::new(1, vec![vec![5], vec![6]]).unwrap()).unwrap();
    let b = sender.insert_component(100, 102, Variant::new(2, vec![vec![7], vec![8]]).unwrap()).unwrap();
    let mut client = ReplicateManager::new();
    let mut commands = DualCommandReceiver::new();

    let (bytes, count) = sender.write_outgoing(0, 400);
    assert_eq!(count, 1);
    deliver(&mut client, &mut commands, &manifest, 0, count, &bytes).unwrap();
    sender.notify_packet_delivered(0);
    assert_eq!(sender.get_status(100), Some(LocalityStatus::Created));
    assert_eq!(sender.get_status(101), Some(LocalityStatus::Created));

    assert!(sender.write_property(101, 0, vec![9]));
    let (bytes, count) = sender.write_outgoing(1, 400);
    assert_eq!(count, 1);
    deliver(&mut client, &mut commands, &manifest, 1, count, &bytes).unwrap();
    sender.notify_packet_delivered(1);

    assert!(sender.despawn(100));
    assert_eq!(sender.get_status(100), Some(LocalityStatus::Deleting));
    // the component set is frozen from now on
    assert_eq!(
        sender.insert_component(100, 103, Variant::new(3, vec![vec![], vec![]]).unwrap()),
        Err(SpawnError::NoSuchEntity)
    );
    assert!(sender.write_property(102, 0, vec![1]));
    let (bytes, count) = sender.write_outgoing(2, 400);
    assert_eq!(count, 1);
    assert_eq!(bytes, vec![6, 0, 0]);
    deliver(&mut client, &mut commands, &manifest, 2, count, &bytes).unwrap();
    sender.notify_packet_delivered(2);
    assert!(!sender.has(100));
    assert!(!sender.has(101));
    assert!(!sender.has(102));
    let (_, count) = sender.write_outgoing(3, 400);
    assert_eq!(count, 0);

    let events = drain(&mut client);
    assert_eq!(events.len(), 3);
    match &events[0] {
        ReplicateAction::CreateEntity(e, components) => {
            assert_eq!(*e, entity);
            assert_eq!(components, &vec![a, b]);
        }
        _ => panic!("expected the creation of the entity first"),
    }
    assert!(matches!(&events[1], ReplicateAction::UpdateObject(k) if k.value == a.value));
    assert!(matches!(&events[2], ReplicateAction::DeleteEntity(e) if *e == entity));
    assert!(!client.has_entity(&entity));
    assert!(!client.has_component(&a));
    assert!(!client.has_component(&b));
}

#[test]
fn component_added_after_creation() {
    let manifest = test_manifest();
    let mut sender = ReplicateSender::new();
    let entity = sender.spawn_entity(100).unwrap();
    let mut client = ReplicateManager::new();
    let mut commands = DualCommandReceiver::new();
    let (bytes, count) = sender.write_outgoing(0, 400);
    assert_eq!(bytes, vec![5, 0, 0, 0]);
    deliver(&mut client, &mut commands, &manifest, 0, count, &bytes).unwrap();
    // a component that comes while the creation is in flight waits for the
    // entity to be confirmed
    let a = sender.insert_component(100, 101, Variant::new(1, vec![vec![5], vec![6]]).unwrap()).unwrap();
    let (_, count) = sender.write_outgoing(1, 400);
    assert_eq!(count, 0);
    sender.notify_packet_delivered(0);
    let (bytes, count) = sender.write_outgoing(2, 400);
    assert_eq!(count, 1);
    assert_eq!(bytes, vec![7, 0, 0, 0, 0, 0, 1, 1, 5, 1, 6]);
    deliver(&mut client, &mut commands, &manifest, 2, count, &bytes).unwrap();
    sender.notify_packet_delivered(2);
    assert!(client.has_component(&a));
    assert_eq!(client.get_entity(&entity).unwrap().get_component_keys(), vec![a]);
    assert_eq!(client.get_entity(&entity).unwrap().get_key_from_type(1), Some(a));
    assert_eq!(client.component_keys(), vec![a]);
    assert!(client.object_keys().is_empty());

    assert!(sender.despawn(101));
    let (bytes, count) = sender.write_outgoing(3, 400);
    assert_eq!(bytes, vec![8, 0, 0]);
    deliver(&mut client, &mut commands, &manifest, 3, count, &bytes).unwrap();
    sender.notify_packet_delivered(3);
    assert!(!client.has_component(&a));
    assert!(client.get_entity(&entity).unwrap().get_component_keys().is_empty());
    let events = drain(&mut client);
    assert_eq!(events.len(), 3);
    assert!(matches!(&events[1], ReplicateAction::AddComponent(e, k) if *e == entity && *k == a));
    match &events[2] {
        ReplicateAction::RemoveComponent(e, k, last) => {
            assert_eq!(*e, entity);
            assert_eq!(*k, a);
            assert_eq!(last.get_prop(0), Some(&vec![5]));
        }
        _ => panic!("expected the removal of the component"),
    }
}

#[test]
fn delete_waits_for_the_creation() {
    let mut sender = ReplicateSender::new();
    sender.spawn_object(1, Variant::new(0, vec![vec![0]]).unwrap()).unwrap();
    sender.write_outgoing(0, 400);
    assert!(sender.despawn(1));
    assert_eq!(sender.get_status(1), Some(LocalityStatus::Creating));
    let (_, count) = sender.write_outgoing(1, 400);
    assert_eq!(count, 0);
    sender.notify_packet_delivered(0);
    assert_eq!(sender.get_status(1), Some(LocalityStatus::Deleting));
    let (bytes, count) = sender.write_outgoing(2, 400);
    assert_eq!(count, 1);
    assert_eq!(bytes, vec![2, 0, 0]);
    sender.notify_packet_dropped(2);
    assert_eq!(sender.get_status(1), Some(LocalityStatus::Deleting));
    let (bytes, _) = sender.write_outgoing(3, 400);
    assert_eq!(bytes, vec![2, 0, 0]);
    sender.notify_packet_delivered(3);
    assert_eq!(sender.get_status(1), None);
    assert!(!sender.despawn(1));
}

#[test]
fn locality_status_moves_forward() {
    let s = LocalityStatus::Creating;
    assert_eq!(s.after(LocalityEvent::DeleteMarked), Some(LocalityStatus::Creating));
    assert_eq!(s.after(LocalityEvent::DeleteConfirmed), Some(LocalityStatus::Creating));
    let s = s.after(LocalityEvent::CreateConfirmed).unwrap();
    assert_eq!(s, LocalityStatus::Created);
    assert!(s.is_updatable());
    assert_eq!(s.after(LocalityEvent::CreateConfirmed), Some(LocalityStatus::Created));
    let s = s.after(LocalityEvent::DeleteMarked).unwrap();
    assert_eq!(s, LocalityStatus::Deleting);
    assert!(!s.is_updatable());
    assert_eq!(s.after(LocalityEvent::CreateConfirmed), Some(LocalityStatus::Deleting));
    assert_eq!(s.after(LocalityEvent::DeleteConfirmed), None);
}

#[test]
fn keys_are_not_reissued_while_in_use() {
    let mut keys = KeyGenerator::new();
    assert_eq!(keys.get(), Some(0));
    assert_eq!(keys.get(), Some(1));
    keys.recycle_key(0);
    assert!(!keys.is_in_use(0));
    assert!(keys.is_in_use(1));
    // fresh keys come first
    assert_eq!(keys.get(), Some(2));
    for expected in 3..65535u32 {
        assert_eq!(keys.get(), Some(expected as u16));
    }
    // only the released key is left
    assert_eq!(keys.get(), Some(0));
    assert_eq!(keys.get(), None);
    keys.recycle_key(40000);
    keys.recycle_key(40000);
    assert_eq!(keys.get(), Some(40000));
    assert_eq!(keys.get(), None);
}

#[test]
fn spawn_is_rejected_when_keys_run_out() {
    let mut sender = ReplicateSender::new();
    for global in 0..65535u32 {
        assert!(sender.spawn_entity(global).is_ok());
    }
    assert_eq!(sender.spawn_entity(70000), Err(SpawnError::SpawnRejected));
    assert_eq!(sender.spawn_entity(5), Err(SpawnError::AlreadyInScope));
    assert_eq!(sender.record_count(), 65535);
}

#[test]
fn duplicate_create_is_a_violation() {
    let manifest = test_manifest();
    let mut client = ReplicateManager::new();
    let mut commands = DualCommandReceiver::new();
    let create = vec![0u8, 0, 3, 0, 7, 1, 1, 1, 2];
    assert_eq!(deliver(&mut client, &mut commands, &manifest, 0, 1, &create), Ok(()));
    assert_eq!(
        deliver(&mut client, &mut commands, &manifest, 0, 1, &create),
        Err(ProtocolError::DuplicateKey)
    );
    assert_eq!(drain(&mut client).len(), 1);
}

#[test]
fn unknown_keys_and_kinds_are_violations() {
    let manifest = test_manifest();
    let mut client = ReplicateManager::new();
    let mut commands = DualCommandReceiver::new();
    let update = vec![1u8, 0, 9, 0b01, 1, 1];
    assert_eq!(
        deliver(&mut client, &mut commands, &manifest, 0, 1, &update),
        Err(ProtocolError::UnknownKey)
    );
    let delete = vec![2u8, 0, 9];
    assert_eq!(
        deliver(&mut client, &mut commands, &manifest, 0, 1, &delete),
        Err(ProtocolError::UnknownKey)
    );
    let unknown_kind = vec![0u8, 0, 3, 0, 8, 0, 0];
    assert_eq!(
        deliver(&mut client, &mut commands, &manifest, 0, 1, &unknown_kind),
        Err(ProtocolError::Malformed)
    );
    let unknown_tag = vec![9u8, 0, 3];
    assert_eq!(
        deliver(&mut client, &mut commands, &manifest, 0, 1, &unknown_tag),
        Err(ProtocolError::Malformed)
    );
    let cut_short = vec![0u8, 0, 3, 0, 7, 1];
    assert_eq!(
        deliver(&mut client, &mut commands, &manifest, 0, 1, &cut_short),
        Err(ProtocolError::Malformed)
    );
    let unassign = vec![4u8, 0, 0, 3];
    assert_eq!(
        deliver(&mut client, &mut commands, &manifest, 0, 1, &unassign),
        Err(ProtocolError::UnknownKey)
    );
    assert!(drain(&mut client).is_empty());
}

#[test]
fn a_failing_action_keeps_what_came_before() {
    let manifest = test_manifest();
    let mut client = ReplicateManager::new();
    let mut commands = DualCommandReceiver::new();
    let mut block = vec![0u8, 0, 3, 0, 7, 1, 1, 1, 2];
    block.extend([2u8, 0, 4]);
    assert_eq!(
        deliver(&mut client, &mut commands, &manifest, 0, 2, &block),
        Err(ProtocolError::UnknownKey)
    );
    assert!(client.has_object(&LocalObjectKey { value: 3 }));
    assert_eq!(drain(&mut client).len(), 1);
}

#[test]
fn pawn_assignment_and_deletion() {
    let manifest = test_manifest();
    let mut sender = ReplicateSender::new();
    let key = sender.spawn_object(1, Variant::new(0, vec![vec![0], vec![0]]).unwrap()).unwrap();
    let mut client = ReplicateManager::new();
    let mut commands = DualCommandReceiver::new();
    assert!(sender.set_pawn(1, true));
    let (bytes, count) = sender.write_outgoing(0, 400);
    deliver(&mut client, &mut commands, &manifest, 0, count, &bytes).unwrap();
    sender.notify_packet_delivered(0);
    let (bytes, count) = sender.write_outgoing(1, 400);
    assert_eq!(bytes, vec![3, 1, 0, 0]);
    deliver(&mut client, &mut commands, &manifest, 0, count, &bytes).unwrap();
    sender.notify_packet_delivered(1);
    assert_eq!(client.pawn_keys(), vec![key]);
    assert!(client.get_pawn(&key).unwrap().same(client.get_object(&key).unwrap()));
    assert!(client.write_pawn(&key, 0, vec![5]));
    assert!(!client.write_pawn(&key, 2, vec![5]));
    assert_eq!(client.get_pawn(&key).unwrap().get_prop(0), Some(&vec![5]));
    assert_eq!(client.get_object(&key).unwrap().get_prop(0), Some(&vec![0]));
    client.pawn_reset(&PawnKey::Object(key));
    assert_eq!(client.get_pawn(&key).unwrap().get_prop(0), Some(&vec![0]));

    assert!(sender.set_pawn(1, false));
    let (bytes, count) = sender.write_outgoing(2, 400);
    assert_eq!(bytes, vec![4, 1, 0, 0]);
    deliver(&mut client, &mut commands, &manifest, 0, count, &bytes).unwrap();
    assert!(client.pawn_keys().is_empty());
    let events = drain(&mut client);
    assert_eq!(events.len(), 3);
    assert!(matches!(&events[1], ReplicateAction::AssignPawn(PawnKey::Object(k)) if *k == key));
    assert!(matches!(&events[2], ReplicateAction::UnassignPawn(PawnKey::Object(k)) if *k == key));
}

#[test]
fn actions_stop_at_the_budget() {
    let mut sender = ReplicateSender::new();
    sender.spawn_object(1, Variant::new(0, vec![vec![1; 10]]).unwrap()).unwrap();
    sender.spawn_object(2, Variant::new(0, vec![vec![2; 10]]).unwrap()).unwrap();
    // one creation takes 1 + 2 + 2 + 11 = 16 bytes
    let (bytes, count) = sender.write_outgoing(0, 20);
    assert_eq!(count, 1);
    assert_eq!(bytes.len(), 16);
    let (bytes, count) = sender.write_outgoing(1, 15);
    assert_eq!(count, 0);
    assert!(bytes.is_empty());
    let (bytes, count) = sender.write_outgoing(2, 16);
    assert_eq!(count, 1);
    assert_eq!(bytes[2], 1);
}

#[test]
fn entity_keys_and_object_keys_are_apart() {
    let mut sender = ReplicateSender::new();
    let e = sender.spawn_entity(1).unwrap();
    let o = sender.spawn_object(2, Variant::empty(0)).unwrap();
    let c = sender.insert_component(1, 3, Variant::empty(0)).unwrap();
    assert_eq!(e, LocalEntityKey { value: 0 });
    assert_eq!(o, LocalObjectKey { value: 0 });
    assert_eq!(c, LocalComponentKey { value: 1 });
    assert_eq!(sender.get_local_key(3), Some(1));
    let record = sender.entity_record(1).unwrap();
    assert_eq!(record.local_key, e);
    assert_eq!(record.status, LocalityStatus::Creating);
    assert_eq!(record.components, vec![3]);
    assert!(sender.entity_record(2).is_none());
    assert!(sender.entity_record(9).is_none());
    assert_eq!(sender.get_local_key(4), None);
    assert_eq!(
        sender.insert_component(2, 5, Variant::empty(0)),
        Err(SpawnError::NoSuchEntity)
    );
}

#[test]
fn despawn_of_a_created_replicate_begins_its_deletion_at_once() {
    let mut sender = ReplicateSender::new();
    sender.spawn_object(1, Variant::new(0, vec![vec![0]]).unwrap()).unwrap();
    sender.write_outgoing(0, 400);
    sender.notify_packet_delivered(0);
    assert_eq!(sender.get_status(1), Some(LocalityStatus::Created));
    // a pawn assignment is in flight when the object leaves the scope
    assert!(sender.set_pawn(1, true));
    let (bytes, _) = sender.write_outgoing(1, 400);
    assert_eq!(bytes, vec![3, 1, 0, 0]);
    assert!(sender.despawn(1));
    assert_eq!(sender.get_status(1), Some(LocalityStatus::Deleting));
    // the deletion goes out once the flight is settled
    let (bytes, count) = sender.write_outgoing(2, 400);
    assert_eq!(count, 0);
    assert!(bytes.is_empty());
    sender.notify_packet_delivered(1);
    assert_eq!(sender.get_status(1), Some(LocalityStatus::Deleting));
    let (bytes, count) = sender.write_outgoing(3, 400);
    assert_eq!(count, 1);
    assert_eq!(bytes, vec![2, 0, 0]);
    sender.notify_packet_delivered(3);
    assert_eq!(sender.get_status(1), None);
}
