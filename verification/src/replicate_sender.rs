//! The server's record of what it replicates to one client. A replicate
//! that enters the client's scope gets a local key and is created on the
//! client by a reliable action; its property writes go out as updates that
//! may be lost and are then sent again with what has been written since;
//! when it leaves the scope it is deleted by a reliable action, and its key
//! is free again once the client has confirmed the deletion.

use crate::action_writer::{
    encode_action, encode_components, encode_keyed_value, write_add_component, write_assign_pawn,
    write_create_object, write_delete_entity, write_delete_object, write_keyed_value,
    write_remove_component, write_unassign_pawn, write_update_object, SentAction,
};
use crate::key_generator::{in_use, issued_from, released_to, valid_pool, KeyGenerator, KeyPool};
use crate::keys::{LocalComponentKey, LocalEntityKey, LocalObjectKey, PawnKey};
use crate::locality_status::{status_after, LocalityEvent, LocalityStatus};
use crate::replicate_action::TAG_CREATE_ENTITY;
use crate::replicate_record::{
    fresh_record, property_written, redirtied, settled, update_sent, updates_without,
    valid_record, InFlight, RecordView, ReliableAction, ReplicateKind, ReplicateRecord,
};
use crate::state_mask::all_clear;
use crate::variant::{Variant, VariantView, MAX_PROPERTY_LEN};
use crate::wire::{u16_bytes, write_bytes, write_u16};
use vstd::prelude::*;

verus! {

/// Why a replicate could not enter a client's scope.
#[derive(Clone, Copy, PartialEq, Eq, Debug, Structural)]
pub enum SpawnError {
    /// Every local key is in use.
    SpawnRejected,
    /// The replicate is in the client's scope already.
    AlreadyInScope,
    /// The entity of the component is not in the client's scope, or is
    /// being deleted.
    NoSuchEntity,
}

/// The abstract state of the sender.
pub struct SenderView {
    /// The keys of objects and components.
    pub object_keys: KeyPool,
    /// The keys of entities.
    pub entity_keys: KeyPool,
    /// The replicates in the client's scope, in the order in which they
    /// entered it.
    pub records: Seq<RecordView>,
}

pub open spec fn records_view(list: Seq<ReplicateRecord>) -> Seq<RecordView> {
    Seq::new(list.len(), |i: int| list[i]@)
}

/// The index of the record of `global`, or the list's length.
pub open spec fn record_position(records: Seq<RecordView>, global: u32) -> int
    decreases records.len(),
{
    if records.len() == 0 {
        0
    } else if records[0].global == global {
        0
    } else {
        1 + record_position(records.drop_first(), global)
    }
}

pub proof fn lemma_record_position(records: Seq<RecordView>, global: u32)
    ensures
        0 <= record_position(records, global) <= records.len(),
        record_position(records, global) < records.len() ==> records[record_position(
            records,
            global,
        )].global == global,
        forall|i: int|
            0 <= i < record_position(records, global) ==> (#[trigger] records[i]).global != global,
    decreases records.len(),
{
    if records.len() > 0 && records[0].global != global {
        let rest = records.drop_first();
        lemma_record_position(rest, global);
        let p = record_position(rest, global);
        assert forall|i: int| 0 <= i < 1 + p implies (#[trigger] records[i]).global != global by {
            if i > 0 {
                assert(records[i] == rest[i - 1]);
            }
        }
        if p < rest.len() {
            assert(records[1 + p] == rest[p]);
        }
    }
}

/// Whether components can be added to the entity `entity`: it is in scope
/// and not on its way out.
pub open spec fn entity_open(records: Seq<RecordView>, entity: u32) -> bool {
    let at = record_position(records, entity);
    at < records.len() && records[at].kind == ReplicateKind::Entity && records[at].status
        != LocalityStatus::Deleting && !records[at].delete_requested
}

/// The outcome of a replicate entering the scope: the new state and the
/// local key.
pub type Spawned = Result<(SenderView, u16), SpawnError>;

/// A replicate enters the scope: it gets the next key of its key space and
/// a record in status `Creating`.
pub open spec fn spawned(s: SenderView, global: u32, kind: ReplicateKind, value: VariantView) -> Spawned {
    if record_position(s.records, global) < s.records.len() {
        Err(SpawnError::AlreadyInScope)
    } else if kind matches ReplicateKind::Component { entity } && !entity_open(s.records, entity) {
        Err(SpawnError::NoSuchEntity)
    } else if kind == ReplicateKind::Entity {
        match issued_from(s.entity_keys) {
            Some((pool, key)) => Ok(
                (
                    SenderView {
                        entity_keys: pool,
                        records: s.records.push(fresh_record(global, kind, key, value)),
                        ..s
                    },
                    key,
                ),
            ),
            None => Err(SpawnError::SpawnRejected),
        }
    } else {
        match issued_from(s.object_keys) {
            Some((pool, key)) => Ok(
                (
                    SenderView {
                        object_keys: pool,
                        records: s.records.push(fresh_record(global, kind, key, value)),
                        ..s
                    },
                    key,
                ),
            ),
            None => Err(SpawnError::SpawnRejected),
        }
    }
}

/// A replicate leaves the scope: its deletion is asked for. A created
/// replicate is in deletion at once; one whose creation is unconfirmed
/// stays in creation until the client confirms it.
pub open spec fn despawned(s: SenderView, global: u32) -> SenderView {
    let at = record_position(s.records, global);
    if at < s.records.len() {
        SenderView {
            records: s.records.update(
                at,
                settled(RecordView { delete_requested: true, ..s.records[at] }),
            ),
            ..s
        }
    } else {
        s
    }
}

/// A property of a replicate is written.
pub open spec fn written_to(s: SenderView, global: u32, index: int, bytes: Seq<u8>) -> SenderView {
    let at = record_position(s.records, global);
    if at < s.records.len() {
        SenderView { records: s.records.update(at, property_written(s.records[at], index, bytes)), ..s }
    } else {
        s
    }
}

/// A replicate is to be, or no longer to be, the client's pawn.
pub open spec fn pawn_set(s: SenderView, global: u32, wanted: bool) -> SenderView {
    let at = record_position(s.records, global);
    if at < s.records.len() {
        SenderView {
            records: s.records.update(at, RecordView { pawn_wanted: wanted, ..s.records[at] }),
            ..s
        }
    } else {
        s
    }
}

/// Whether a component is created together with the entity `entity`.
pub open spec fn joins_entity(r: RecordView, entity: u32) -> bool {
    r.kind == (ReplicateKind::Component { entity }) && r.status == LocalityStatus::Creating
        && r.in_flight is None
}

/// The components among `rest` that are created together with `entity`,
/// in order, each as its key and its value.
pub open spec fn components_joining(rest: Seq<RecordView>, entity: u32) -> Seq<(u16, VariantView)>
    decreases rest.len(),
{
    if rest.len() == 0 {
        Seq::empty()
    } else {
        let front = components_joining(rest.drop_last(), entity);
        if joins_entity(rest.last(), entity) {
            front.push((rest.last().local_key, rest.last().value))
        } else {
            front
        }
    }
}

/// The entities that the client has confirmed and that are not being
/// deleted, each with its local key.
pub open spec fn created_entities(records: Seq<RecordView>) -> Seq<(u32, u16)>
    decreases records.len(),
{
    if records.len() == 0 {
        Seq::empty()
    } else {
        let front = created_entities(records.drop_last());
        if records.last().kind == ReplicateKind::Entity && records.last().status
            == LocalityStatus::Created {
            front.push((records.last().global, records.last().local_key))
        } else {
            front
        }
    }
}

/// The local key of `entity` among the created entities.
pub open spec fn parent_key(parents: Seq<(u32, u16)>, entity: u32) -> Option<u16>
    decreases parents.len(),
{
    if parents.len() == 0 {
        None
    } else if parents[0].0 == entity {
        Some(parents[0].1)
    } else {
        parent_key(parents.drop_first(), entity)
    }
}

/// The action that is due for a record now, if any. A record with a
/// reliable action in flight waits. A replicate in creation is created; a
/// created one gets its pawn assignment, or else an update if properties
/// were written; one in deletion is deleted. A component acts on its own
/// only while its entity is created.
pub open spec fn own_action(parents: Seq<(u32, u16)>, r: RecordView, rest: Seq<RecordView>) -> Option<
    SentAction,
> {
    if r.in_flight is Some {
        None
    } else {
        match r.kind {
            ReplicateKind::Object => match r.status {
                LocalityStatus::Creating => Some(
                    SentAction::CreateObject { key: r.local_key, value: r.value },
                ),
                LocalityStatus::Created => if r.pawn_wanted != r.pawn_known {
                    let pawn_key = PawnKey::Object(LocalObjectKey { value: r.local_key });
                    if r.pawn_wanted {
                        Some(SentAction::AssignPawn { pawn_key })
                    } else {
                        Some(SentAction::UnassignPawn { pawn_key })
                    }
                } else if !all_clear(r.dirty) {
                    Some(
                        SentAction::UpdateObject {
                            key: r.local_key,
                            mask: r.dirty,
                            props: r.value.props,
                        },
                    )
                } else {
                    None
                },
                LocalityStatus::Deleting => Some(SentAction::DeleteObject { key: r.local_key }),
            },
            ReplicateKind::Entity => match r.status {
                LocalityStatus::Creating => if components_joining(rest, r.global).len() <= 255 {
                    Some(
                        SentAction::CreateEntity {
                            key: r.local_key,
                            components: components_joining(rest, r.global),
                        },
                    )
                } else {
                    None
                },
                LocalityStatus::Created => if r.pawn_wanted != r.pawn_known {
                    let pawn_key = PawnKey::Entity(LocalEntityKey { value: r.local_key });
                    if r.pawn_wanted {
                        Some(SentAction::AssignPawn { pawn_key })
                    } else {
                        Some(SentAction::UnassignPawn { pawn_key })
                    }
                } else {
                    None
                },
                LocalityStatus::Deleting => Some(SentAction::DeleteEntity { key: r.local_key }),
            },
            ReplicateKind::Component { entity } => match parent_key(parents, entity) {
                None => None,
                Some(entity_key) => match r.status {
                    LocalityStatus::Creating => Some(
                        SentAction::AddComponent {
                            entity: entity_key,
                            key: r.local_key,
                            value: r.value,
                        },
                    ),
                    LocalityStatus::Created => if !all_clear(r.dirty) {
                        Some(
                            SentAction::UpdateObject {
                                key: r.local_key,
                                mask: r.dirty,
                                props: r.value.props,
                            },
                        )
                    } else {
                        None
                    },
                    LocalityStatus::Deleting => Some(
                        SentAction::RemoveComponent { key: r.local_key },
                    ),
                },
            },
        }
    }
}

/// The record after its action has gone out in the packet `packet_index`:
/// a reliable action is in flight, an update is noted with the properties
/// it carries.
pub open spec fn marked(r: RecordView, a: SentAction, packet_index: u16) -> RecordView {
    match a {
        SentAction::UpdateObject { .. } => update_sent(r, packet_index),
        SentAction::CreateObject { .. } | SentAction::CreateEntity { .. } | SentAction::AddComponent { .. } => RecordView {
            in_flight: Some(InFlight { packet_index, action: ReliableAction::Create }),
            ..r
        },
        SentAction::DeleteObject { .. } | SentAction::DeleteEntity { .. } | SentAction::RemoveComponent { .. } => RecordView {
            in_flight: Some(InFlight { packet_index, action: ReliableAction::Delete }),
            ..r
        },
        SentAction::AssignPawn { .. } => RecordView {
            in_flight: Some(InFlight { packet_index, action: ReliableAction::AssignPawn }),
            ..r
        },
        SentAction::UnassignPawn { .. } => RecordView {
            in_flight: Some(InFlight { packet_index, action: ReliableAction::UnassignPawn }),
            ..r
        },
    }
}

/// How far the writing of a block of actions has got.
pub struct Written {
    /// The records gone through so far.
    pub done: Seq<RecordView>,
    /// The bytes of the actions written.
    pub bytes: Seq<u8>,
    /// The number of actions written.
    pub count: int,
    /// The entities whose creation was written.
    pub created: Seq<u32>,
    /// Whether more actions may be written.
    pub open: bool,
}

/// The writing after one more record has been gone through. A component
/// that went out with its entity is in flight with it. Otherwise the
/// record's action is written if one is due and fits in what is left of
/// `budget`; the first action that does not fit closes the block.
pub open spec fn step_written(
    st: Written,
    r: RecordView,
    rest: Seq<RecordView>,
    parents: Seq<(u32, u16)>,
    packet_index: u16,
    budget: int,
) -> Written {
    if r.kind matches ReplicateKind::Component { entity } && st.created.contains(entity)
        && joins_entity(r, entity) {
        Written {
            done: st.done.push(
                RecordView {
                    in_flight: Some(InFlight { packet_index, action: ReliableAction::Create }),
                    ..r
                },
            ),
            ..st
        }
    } else if !st.open {
        Written { done: st.done.push(r), ..st }
    } else {
        match own_action(parents, r, rest) {
            None => Written { done: st.done.push(r), ..st },
            Some(a) => if st.count < 255 && st.bytes.len() + encode_action(a).len() <= budget {
                Written {
                    done: st.done.push(marked(r, a, packet_index)),
                    bytes: st.bytes + encode_action(a),
                    count: st.count + 1,
                    created: if a is CreateEntity {
                        st.created.push(r.global)
                    } else {
                        st.created
                    },
                    open: true,
                }
            } else {
                Written { done: st.done.push(r), open: false, ..st }
            },
        }
    }
}

/// The writing after all of `rest` has been gone through, in order.
pub open spec fn all_written(
    st: Written,
    rest: Seq<RecordView>,
    parents: Seq<(u32, u16)>,
    packet_index: u16,
    budget: int,
) -> Written
    decreases rest.len(),
{
    if rest.len() == 0 {
        st
    } else {
        all_written(
            step_written(st, rest[0], rest.drop_first(), parents, packet_index, budget),
            rest.drop_first(),
            parents,
            packet_index,
            budget,
        )
    }
}

/// The block of actions for the packet `packet_index`, within `budget`
/// bytes, and the records after it was written.
pub open spec fn block_written(records: Seq<RecordView>, packet_index: u16, budget: int) -> Written {
    all_written(
        Written { done: Seq::empty(), bytes: Seq::empty(), count: 0, created: Seq::empty(), open: true },
        records,
        created_entities(records),
        packet_index,
        budget,
    )
}

/// Every record is valid.
pub open spec fn valid_records(records: Seq<RecordView>) -> bool {
    forall|i: int| 0 <= i < records.len() ==> valid_record(#[trigger] records[i])
}

/// The record after the packet `packet_index` was confirmed; none when the
/// replicate is destroyed. A creation confirmed makes the replicate
/// created, a deletion confirmed destroys it, a pawn assignment confirmed
/// is known to the client; the updates of the packet are done.
pub open spec fn confirmed(r: RecordView, packet_index: u16) -> Option<RecordView> {
    let base = RecordView { updates: updates_without(r.updates, packet_index), ..r };
    match r.in_flight {
        Some(f) => if f.packet_index != packet_index {
            Some(base)
        } else {
            match f.action {
                ReliableAction::Create => match status_after(
                    r.status,
                    LocalityEvent::CreateConfirmed,
                ) {
                    Some(status) => Some(settled(RecordView { status, in_flight: None, ..base })),
                    None => None,
                },
                ReliableAction::Delete => match status_after(
                    r.status,
                    LocalityEvent::DeleteConfirmed,
                ) {
                    Some(status) => Some(settled(RecordView { status, in_flight: None, ..base })),
                    None => None,
                },
                ReliableAction::AssignPawn => Some(
                    settled(RecordView { pawn_known: true, in_flight: None, ..base }),
                ),
                ReliableAction::UnassignPawn => Some(
                    settled(RecordView { pawn_known: false, in_flight: None, ..base }),
                ),
            }
        },
        None => Some(base),
    }
}

/// The record after the packet `packet_index` was given up: a reliable
/// action of the packet is to be sent again, and what an update of the
/// packet carried and no later update carries is written anew.
pub open spec fn given_up(r: RecordView, packet_index: u16) -> RecordView {
    settled(
        RecordView {
            in_flight: match r.in_flight {
                Some(f) => if f.packet_index == packet_index {
                    None
                } else {
                    r.in_flight
                },
                None => None,
            },
            dirty: redirtied(r.dirty, r.updates, packet_index),
            updates: updates_without(r.updates, packet_index),
            ..r
        },
    )
}

/// The records after the packet `packet_index` was given up.
pub open spec fn all_given_up(records: Seq<RecordView>, packet_index: u16) -> Seq<RecordView> {
    Seq::new(records.len(), |i: int| given_up(records[i], packet_index))
}

/// How far the settling of a confirmed packet has got.
pub struct Settling {
    pub object_keys: KeyPool,
    pub entity_keys: KeyPool,
    /// The records gone through that stay.
    pub records: Seq<RecordView>,
    /// The entities destroyed so far.
    pub ended: Seq<u32>,
}

/// The settling after one more record has been gone through. A replicate
/// that is destroyed gives its key back; the components of an entity that
/// was destroyed go with it.
pub open spec fn step_delivered(st: Settling, r: RecordView, packet_index: u16) -> Settling {
    if r.kind matches ReplicateKind::Component { entity } && st.ended.contains(entity) {
        Settling { object_keys: released_to(st.object_keys, r.local_key), ..st }
    } else {
        match confirmed(r, packet_index) {
            Some(after) => Settling { records: st.records.push(after), ..st },
            None => if r.kind == ReplicateKind::Entity {
                Settling {
                    entity_keys: released_to(st.entity_keys, r.local_key),
                    ended: st.ended.push(r.global),
                    ..st
                }
            } else {
                Settling { object_keys: released_to(st.object_keys, r.local_key), ..st }
            },
        }
    }
}

/// The settling after all of `rest` has been gone through, in order.
pub open spec fn all_delivered(st: Settling, rest: Seq<RecordView>, packet_index: u16) -> Settling
    decreases rest.len(),
{
    if rest.len() == 0 {
        st
    } else {
        all_delivered(step_delivered(st, rest[0], packet_index), rest.drop_first(), packet_index)
    }
}

/// The state after the packet `packet_index` was confirmed.
pub open spec fn delivered(s: SenderView, packet_index: u16) -> SenderView {
    let out = all_delivered(
        Settling {
            object_keys: s.object_keys,
            entity_keys: s.entity_keys,
            records: Seq::empty(),
            ended: Seq::empty(),
        },
        s.records,
        packet_index,
    );
    SenderView { object_keys: out.object_keys, entity_keys: out.entity_keys, records: out.records }
}

/// Towards one client a replicate only ever moves forward: whatever is
/// written for it, confirmed or given up, its status goes from creation to
/// created to deletion to destroyed, one stage at a time, and never back.
pub proof fn lemma_record_status_moves_forward(r: RecordView, a: SentAction, packet_index: u16)
    ensures
        marked(r, a, packet_index).status == r.status,
        crate::locality_status::rank(Some(given_up(r, packet_index).status))
            >= crate::locality_status::rank(Some(r.status)),
        crate::locality_status::rank(Some(given_up(r, packet_index).status))
            <= crate::locality_status::rank(Some(r.status)) + 1,
        crate::locality_status::rank(Some(settled(r).status)) >= crate::locality_status::rank(
            Some(r.status),
        ),
        settled(r).status != r.status ==> r.status == LocalityStatus::Created && settled(r).status
            == LocalityStatus::Deleting,
        match confirmed(r, packet_index) {
            Some(after) => crate::locality_status::rank(Some(after.status))
                >= crate::locality_status::rank(Some(r.status)),
            None => r.status == LocalityStatus::Deleting,
        },
{
}

/// A replicate that leaves the scope: a created one is in deletion at
/// once, whatever is in flight for it; one in creation stays in creation
/// with its deletion asked for, and is in deletion as soon as the client
/// confirms the creation; one in deletion stays there.
pub proof fn lemma_despawn_begins_deletion(s: SenderView, global: u32, packet_index: u16)
    requires
        record_position(s.records, global) < s.records.len(),
    ensures
        ({
            let at = record_position(s.records, global);
            let before = s.records[at];
            let after = despawned(s, global).records[at];
            &&& after.delete_requested
            &&& before.status == LocalityStatus::Created ==> after.status
                == LocalityStatus::Deleting
            &&& before.status == LocalityStatus::Deleting ==> after.status
                == LocalityStatus::Deleting
            &&& before.status == LocalityStatus::Creating ==> after.status
                == LocalityStatus::Creating
            &&& before.status == LocalityStatus::Creating && before.in_flight == Some(
                InFlight { packet_index, action: ReliableAction::Create },
            ) ==> (confirmed(after, packet_index) matches Some(then) && then.status
                == LocalityStatus::Deleting)
        }),
{
    lemma_record_position(s.records, global);
}

/// An update goes out only for a replicate that the client has confirmed
/// and that is not being deleted.
pub proof fn lemma_updates_only_when_created(
    parents: Seq<(u32, u16)>,
    r: RecordView,
    rest: Seq<RecordView>,
)
    ensures
        own_action(parents, r, rest) matches Some(SentAction::UpdateObject { .. }) ==> r.status
            == LocalityStatus::Created && r.in_flight is None,
        own_action(parents, r, rest) is Some ==> r.in_flight is None,
{
}

/// What was written for a record.
#[derive(Clone, Copy, PartialEq, Eq, Debug, Structural)]
pub enum Mark {
    Reliable(ReliableAction),
    EntityCreated,
    Update,
}

/// The mark that belongs to an action.
pub open spec fn mark_of(a: SentAction) -> Mark {
    match a {
        SentAction::UpdateObject { .. } => Mark::Update,
        SentAction::CreateEntity { .. } => Mark::EntityCreated,
        SentAction::CreateObject { .. } | SentAction::AddComponent { .. } => Mark::Reliable(
            ReliableAction::Create,
        ),
        SentAction::DeleteObject { .. } | SentAction::DeleteEntity { .. } | SentAction::RemoveComponent { .. } => Mark::Reliable(
            ReliableAction::Delete,
        ),
        SentAction::AssignPawn { .. } => Mark::Reliable(ReliableAction::AssignPawn),
        SentAction::UnassignPawn { .. } => Mark::Reliable(ReliableAction::UnassignPawn),
    }
}

fn parents_of(records: &Vec<ReplicateRecord>) -> (parents: Vec<(u32, u16)>)
    ensures
        parents@ == created_entities(records_view(records@)),
{
    let mut parents: Vec<(u32, u16)> = Vec::new();
    let mut i: usize = 0;
    let ghost all = records_view(records@);
    assert(all.subrange(0, 0) =~= Seq::empty());
    while i < records.len()
        invariant
            i <= records@.len(),
            all == records_view(records@),
            parents@ == created_entities(all.subrange(0, i as int)),
        decreases records@.len() - i,
    {
        proof {
            let part = all.subrange(0, i + 1);
            assert(part.drop_last() =~= all.subrange(0, i as int));
            assert(part.last() == all[i as int]);
        }
        let r = &records[i];
        let is_entity = match r.kind {
            ReplicateKind::Entity => true,
            _ => false,
        };
        let created = match r.status {
            LocalityStatus::Created => true,
            _ => false,
        };
        if is_entity && created {
            parents.push((r.global, r.local_key));
        }
        i += 1;
    }
    assert(all.subrange(0, i as int) =~= all);
    parents
}

fn lookup_parent(parents: &Vec<(u32, u16)>, entity: u32) -> (r: Option<u16>)
    ensures
        r == parent_key(parents@, entity),
{
    let mut i: usize = 0;
    assert(parents@.subrange(0, parents@.len() as int) =~= parents@);
    while i < parents.len()
        invariant
            i <= parents@.len(),
            parent_key(parents@, entity) == parent_key(
                parents@.subrange(i as int, parents@.len() as int),
                entity,
            ),
        decreases parents@.len() - i,
    {
        let ghost rest = parents@.subrange(i as int, parents@.len() as int);
        assert(rest[0] == parents@[i as int]);
        assert(rest.drop_first() =~= parents@.subrange(i + 1, parents@.len() as int));
        if parents[i].0 == entity {
            return Some(parents[i].1);
        }
        i += 1;
    }
    assert(parents@.subrange(i as int, parents@.len() as int).len() == 0);
    None
}

fn contains_global(list: &Vec<u32>, global: u32) -> (b: bool)
    ensures
        b == list@.contains(global),
{
    let mut i: usize = 0;
    while i < list.len()
        invariant
            i <= list@.len(),
            forall|j: int| 0 <= j < i ==> list@[j] != global,
        decreases list@.len() - i,
    {
        if list[i] == global {
            return true;
        }
        i += 1;
    }
    false
}

fn record_joins(r: &ReplicateRecord, entity: u32) -> (b: bool)
    ensures
        b == joins_entity(r@, entity),
{
    let same = match r.kind {
        ReplicateKind::Component { entity: e } => e == entity,
        _ => false,
    };
    let creating = match r.status {
        LocalityStatus::Creating => true,
        _ => false,
    };
    same && creating && r.in_flight.is_none()
}

fn write_joining(out: &mut Vec<u8>, rest: &Vec<ReplicateRecord>, entity: u32) -> (count: usize)
    requires
        valid_records(records_view(rest@)),
    ensures
        final(out)@ == old(out)@ + encode_components(
            components_joining(records_view(rest@), entity),
        ),
        count == components_joining(records_view(rest@), entity).len(),
{
    let mut count: usize = 0;
    let mut i: usize = 0;
    let ghost all = records_view(rest@);
    assert(all.subrange(0, 0) =~= Seq::empty());
    assert(out@ + Seq::<u8>::empty() =~= out@);
    while i < rest.len()
        invariant
            i <= rest@.len(),
            all == records_view(rest@),
            valid_records(all),
            count == components_joining(all.subrange(0, i as int), entity).len(),
            count <= i,
            out@ == old(out)@ + encode_components(
                components_joining(all.subrange(0, i as int), entity),
            ),
        decreases rest@.len() - i,
    {
        proof {
            let part = all.subrange(0, i + 1);
            assert(part.drop_last() =~= all.subrange(0, i as int));
            assert(part.last() == all[i as int]);
            assert(valid_record(all[i as int]));
        }
        let r = &rest[i];
        if record_joins(r, entity) {
            let ghost before = out@;
            let ghost so_far = components_joining(all.subrange(0, i as int), entity);
            write_keyed_value(out, r.local_key, &r.value);
            count += 1;
            proof {
                let longer = so_far.push((r@.local_key, r@.value));
                assert(longer.drop_last() =~= so_far);
                assert(out@ =~= old(out)@ + encode_components(longer));
            }
        }
        i += 1;
    }
    assert(all.subrange(0, i as int) =~= all);
    count
}

fn write_own_action(
    out: &mut Vec<u8>,
    parents: &Vec<(u32, u16)>,
    r: &ReplicateRecord,
    rest: &Vec<ReplicateRecord>,
) -> (mark: Option<Mark>)
    requires
        r.wf(),
        valid_records(records_view(rest@)),
    ensures
        match own_action(parents@, r@, records_view(rest@)) {
            Some(a) => mark == Some(mark_of(a)) && final(out)@ == old(out)@ + encode_action(a),
            None => mark is None && final(out)@ == old(out)@,
        },
{
    if r.in_flight.is_some() {
        return None;
    }
    let clean = r.dirty.is_clear();
    match r.kind {
        ReplicateKind::Object => match r.status {
            LocalityStatus::Creating => {
                write_create_object(out, r.local_key, &r.value);
                Some(Mark::Reliable(ReliableAction::Create))
            },
            LocalityStatus::Created => {
                if r.pawn_wanted != r.pawn_known {
                    let pawn_key = PawnKey::Object(LocalObjectKey::from_u16(r.local_key));
                    if r.pawn_wanted {
                        write_assign_pawn(out, &pawn_key);
                        Some(Mark::Reliable(ReliableAction::AssignPawn))
                    } else {
                        write_unassign_pawn(out, &pawn_key);
                        Some(Mark::Reliable(ReliableAction::UnassignPawn))
                    }
                } else if !clean {
                    write_update_object(out, r.local_key, &r.dirty, &r.value);
                    Some(Mark::Update)
                } else {
                    None
                }
            },
            LocalityStatus::Deleting => {
                write_delete_object(out, r.local_key);
                Some(Mark::Reliable(ReliableAction::Delete))
            },
        },
        ReplicateKind::Entity => match r.status {
            LocalityStatus::Creating => {
                let mut body: Vec<u8> = Vec::new();
                let count = write_joining(&mut body, rest, r.global);
                if count <= 255 {
                    let ghost before = out@;
                    out.push(TAG_CREATE_ENTITY);
                    write_u16(out, r.local_key);
                    out.push(count as u8);
                    write_bytes(out, &body);
                    proof {
                        let components = components_joining(records_view(rest@), r@.global);
                        assert(body@ =~= encode_components(components));
                        assert(out@ =~= before + encode_action(
                            SentAction::CreateEntity { key: r@.local_key, components },
                        ));
                    }
                    Some(Mark::EntityCreated)
                } else {
                    None
                }
            },
            LocalityStatus::Created => {
                if r.pawn_wanted != r.pawn_known {
                    let pawn_key = PawnKey::Entity(LocalEntityKey::from_u16(r.local_key));
                    if r.pawn_wanted {
                        write_assign_pawn(out, &pawn_key);
                        Some(Mark::Reliable(ReliableAction::AssignPawn))
                    } else {
                        write_unassign_pawn(out, &pawn_key);
                        Some(Mark::Reliable(ReliableAction::UnassignPawn))
                    }
                } else {
                    None
                }
            },
            LocalityStatus::Deleting => {
                write_delete_entity(out, r.local_key);
                Some(Mark::Reliable(ReliableAction::Delete))
            },
        },
        ReplicateKind::Component { entity } => match lookup_parent(parents, entity) {
            None => None,
            Some(entity_key) => match r.status {
                LocalityStatus::Creating => {
                    write_add_component(out, entity_key, r.local_key, &r.value);
                    Some(Mark::Reliable(ReliableAction::Create))
                },
                LocalityStatus::Created => {
                    if !clean {
                        write_update_object(out, r.local_key, &r.dirty, &r.value);
                        Some(Mark::Update)
                    } else {
                        None
                    }
                },
                LocalityStatus::Deleting => {
                    write_remove_component(out, r.local_key);
                    Some(Mark::Reliable(ReliableAction::Delete))
                },
            },
        },
    }
}

/// The ids of the components of the entity `entity` that are in scope, in
/// order.
pub open spec fn components_in_scope(records: Seq<RecordView>, entity: u32) -> Seq<u32>
    decreases records.len(),
{
    if records.len() == 0 {
        Seq::empty()
    } else {
        let front = components_in_scope(records.drop_last(), entity);
        if records.last().kind == (ReplicateKind::Component { entity }) {
            front.push(records.last().global)
        } else {
            front
        }
    }
}

/// What a server keeps of an entity towards one client: its local key, its
/// status and the ids of its components.
pub struct EntityRecord {
    pub local_key: LocalEntityKey,
    pub status: LocalityStatus,
    pub components: Vec<u32>,
}

impl EntityRecord {
    /// The record of an entity that has just entered the scope.
    pub fn new(local_key: LocalEntityKey, components: Vec<u32>) -> (r: Self)
        ensures
            r.local_key == local_key,
            r.status == LocalityStatus::Creating,
            r.components@ == components@,
    {
        EntityRecord { local_key, status: LocalityStatus::Creating, components }
    }
}

/// Decides per client what is created, updated and deleted, and when.
pub struct ReplicateSender {
    object_key_generator: KeyGenerator,
    entity_key_generator: KeyGenerator,
    records: Vec<ReplicateRecord>,
}

impl View for ReplicateSender {
    type V = SenderView;

    closed spec fn view(&self) -> SenderView {
        SenderView {
            object_keys: self.object_key_generator@,
            entity_keys: self.entity_key_generator@,
            records: records_view(self.records@),
        }
    }
}

impl ReplicateSender {
    /// The key pools and the records are valid, every record's key is in
    /// use, and no two records of one key space share a key.
    pub open spec fn wf(&self) -> bool {
        &&& valid_pool(self@.object_keys)
        &&& valid_pool(self@.entity_keys)
        &&& valid_records(self@.records)
        &&& crate::key_discipline::keys_held(self@.object_keys, self@.entity_keys, self@.records)
    }

    pub fn new() -> (s: Self)
        ensures
            s.wf(),
            s@ == (SenderView {
                object_keys: KeyPool { issued: 0, released: Seq::empty() },
                entity_keys: KeyPool { issued: 0, released: Seq::empty() },
                records: Seq::empty(),
            }),
    {
        let s = ReplicateSender {
            object_key_generator: KeyGenerator::new(),
            entity_key_generator: KeyGenerator::new(),
            records: Vec::new(),
        };
        assert(s@.records =~= Seq::empty());
        s
    }

    /// The index of the record of `global`, or the number of records.
    pub fn find(&self, global: u32) -> (at: usize)
        ensures
            at == record_position(self@.records, global),
            at <= self@.records.len(),
    {
        let mut i: usize = 0;
        let ghost whole = self@.records;
        assert(whole.subrange(0, whole.len() as int) =~= whole);
        while i < self.records.len()
            invariant
                i <= self.records@.len(),
                whole == self@.records,
                record_position(whole, global) == i + record_position(
                    whole.subrange(i as int, whole.len() as int),
                    global,
                ),
            decreases self.records@.len() - i,
        {
            let ghost rest = whole.subrange(i as int, whole.len() as int);
            assert(rest[0] == whole[i as int]);
            assert(rest.drop_first() =~= whole.subrange(i + 1, whole.len() as int));
            if self.records[i].global == global {
                return i;
            }
            i += 1;
        }
        assert(whole.subrange(i as int, whole.len() as int).len() == 0);
        i
    }

    /// The record of the entity `global` with its components; none where
    /// no entity is in scope under that id.
    pub fn entity_record(&self, global: u32) -> (r: Option<EntityRecord>)
        ensures
            match r {
                Some(record) => {
                    let at = record_position(self@.records, global);
                    &&& at < self@.records.len()
                    &&& self@.records[at].kind == ReplicateKind::Entity
                    &&& record.local_key.value == self@.records[at].local_key
                    &&& record.status == self@.records[at].status
                    &&& record.components@ == components_in_scope(self@.records, global)
                },
                None => record_position(self@.records, global) >= self@.records.len()
                    || self@.records[record_position(self@.records, global)].kind
                    != ReplicateKind::Entity,
            },
    {
        let at = self.find(global);
        if at >= self.records.len() {
            return None;
        }
        match self.records[at].kind {
            ReplicateKind::Entity => {},
            _ => {
                return None;
            },
        }
        let mut components: Vec<u32> = Vec::new();
        let mut i: usize = 0;
        let ghost all = self@.records;
        assert(all.subrange(0, 0) =~= Seq::empty());
        while i < self.records.len()
            invariant
                i <= self.records@.len(),
                all == self@.records,
                components@ == components_in_scope(all.subrange(0, i as int), global),
            decreases self.records@.len() - i,
        {
            proof {
                let part = all.subrange(0, i + 1);
                assert(part.drop_last() =~= all.subrange(0, i as int));
                assert(part.last() == all[i as int]);
            }
            let is_component = match self.records[i].kind {
                ReplicateKind::Component { entity } => entity == global,
                _ => false,
            };
            if is_component {
                components.push(self.records[i].global);
            }
            i += 1;
        }
        assert(all.subrange(0, i as int) =~= all);
        let mut record = EntityRecord::new(
            LocalEntityKey::from_u16(self.records[at].local_key),
            components,
        );
        record.status = self.records[at].status;
        Some(record)
    }

    /// The number of replicates in the client's scope, those being
    /// deleted included.
    pub fn record_count(&self) -> (n: usize)
        ensures
            n == self@.records.len(),
    {
        self.records.len()
    }

    /// Whether `global` is in the client's scope.
    pub fn has(&self, global: u32) -> (b: bool)
        ensures
            b == (record_position(self@.records, global) < self@.records.len()),
    {
        self.find(global) < self.records.len()
    }

    /// The local key of `global`.
    pub fn get_local_key(&self, global: u32) -> (r: Option<u16>)
        ensures
            match r {
                Some(key) => record_position(self@.records, global) < self@.records.len() && key
                    == self@.records[record_position(self@.records, global)].local_key,
                None => record_position(self@.records, global) >= self@.records.len(),
            },
    {
        let at = self.find(global);
        if at < self.records.len() {
            Some(self.records[at].local_key)
        } else {
            None
        }
    }

    /// The status of `global`.
    pub fn get_status(&self, global: u32) -> (r: Option<LocalityStatus>)
        ensures
            match r {
                Some(status) => record_position(self@.records, global) < self@.records.len()
                    && status == self@.records[record_position(self@.records, global)].status,
                None => record_position(self@.records, global) >= self@.records.len(),
            },
    {
        let at = self.find(global);
        if at < self.records.len() {
            Some(self.records[at].status)
        } else {
            None
        }
    }

    fn is_entity_open(&self, entity: u32) -> (b: bool)
        ensures
            b == entity_open(self@.records, entity),
    {
        let at = self.find(entity);
        if at >= self.records.len() {
            return false;
        }
        let r = &self.records[at];
        let is_entity = match r.kind {
            ReplicateKind::Entity => true,
            _ => false,
        };
        let deleting = match r.status {
            LocalityStatus::Deleting => true,
            _ => false,
        };
        is_entity && !deleting && !r.delete_requested
    }

    fn spawn(&mut self, global: u32, kind: ReplicateKind, value: Variant) -> (r: Result<
        u16,
        SpawnError,
    >)
        requires
            old(self).wf(),
            value.wf(),
        ensures
            final(self).wf(),
            match spawned(old(self)@, global, kind, value@) {
                Ok((s, key)) => r == Ok::<u16, SpawnError>(key) && final(self)@ == s,
                Err(e) => r == Err::<u16, SpawnError>(e) && final(self)@ == old(self)@,
            },
    {
        if self.find(global) < self.records.len() {
            return Err(SpawnError::AlreadyInScope);
        }
        let is_entity = match kind {
            ReplicateKind::Component { entity } => {
                if !self.is_entity_open(entity) {
                    return Err(SpawnError::NoSuchEntity);
                }
                false
            },
            ReplicateKind::Entity => true,
            ReplicateKind::Object => false,
        };
        let key = if is_entity {
            self.entity_key_generator.get()
        } else {
            self.object_key_generator.get()
        };
        match key {
            Some(key) => {
                let record = ReplicateRecord::new(global, kind, key, value);
                let ghost before = self@.records;
                self.records.push(record);
                proof {
                    assert(self@.records =~= before.push(record@));
                    assert forall|i: int| 0 <= i < self@.records.len() implies valid_record(
                        #[trigger] self@.records[i],
                    ) by {
                        if i < before.len() {
                            assert(self@.records[i] == before[i]);
                        }
                    }
                }
                Ok(key)
            },
            None => Err(SpawnError::SpawnRejected),
        }
    }

    /// A standalone object enters the client's scope.
    pub fn spawn_object(&mut self, global: u32, value: Variant) -> (r: Result<
        LocalObjectKey,
        SpawnError,
    >)
        requires
            old(self).wf(),
            value.wf(),
        ensures
            final(self).wf(),
            match spawned(old(self)@, global, ReplicateKind::Object, value@) {
                Ok((s, key)) => r == Ok::<LocalObjectKey, SpawnError>(LocalObjectKey { value: key })
                    && final(self)@ == s,
                Err(e) => r == Err::<LocalObjectKey, SpawnError>(e) && final(self)@ == old(self)@,
            },
    {
        match self.spawn(global, ReplicateKind::Object, value) {
            Ok(key) => Ok(LocalObjectKey::from_u16(key)),
            Err(e) => Err(e),
        }
    }

    /// An entity enters the client's scope.
    pub fn spawn_entity(&mut self, global: u32) -> (r: Result<LocalEntityKey, SpawnError>)
        requires
            old(self).wf(),
        ensures
            final(self).wf(),
            match spawned(
                old(self)@,
                global,
                ReplicateKind::Entity,
                VariantView { naia_id: 0, props: Seq::empty() },
            ) {
                Ok((s, key)) => r == Ok::<LocalEntityKey, SpawnError>(LocalEntityKey { value: key })
                    && final(self)@ == s,
                Err(e) => r == Err::<LocalEntityKey, SpawnError>(e) && final(self)@ == old(self)@,
            },
    {
        match self.spawn(global, ReplicateKind::Entity, Variant::empty(0)) {
            Ok(key) => Ok(LocalEntityKey::from_u16(key)),
            Err(e) => Err(e),
        }
    }

    /// A component of the entity `entity` enters the client's scope.
    pub fn insert_component(&mut self, entity: u32, global: u32, value: Variant) -> (r: Result<
        LocalComponentKey,
        SpawnError,
    >)
        requires
            old(self).wf(),
            value.wf(),
        ensures
            final(self).wf(),
            match spawned(old(self)@, global, ReplicateKind::Component { entity }, value@) {
                Ok((s, key)) => r == Ok::<LocalComponentKey, SpawnError>(
                    LocalComponentKey { value: key },
                ) && final(self)@ == s,
                Err(e) => r == Err::<LocalComponentKey, SpawnError>(e) && final(self)@ == old(self)@,
            },
    {
        match self.spawn(global, ReplicateKind::Component { entity }, value) {
            Ok(key) => Ok(LocalComponentKey::from_u16(key)),
            Err(e) => Err(e),
        }
    }

    /// A replicate leaves the client's scope. The result says whether it
    /// was in the scope.
    pub fn despawn(&mut self, global: u32) -> (found: bool)
        requires
            old(self).wf(),
        ensures
            final(self).wf(),
            found == (record_position(old(self)@.records, global) < old(self)@.records.len()),
            final(self)@ == despawned(old(self)@, global),
    {
        let at = self.find(global);
        if at >= self.records.len() {
            return false;
        }
        let ghost before = self@.records;
        let mut record = self.records.remove(at);
        record.delete_requested = true;
        record.settle();
        self.records.insert(at, record);
        proof {
            assert(self@.records =~= before.update(at as int, record@));
            assert forall|i: int| 0 <= i < self@.records.len() implies valid_record(
                #[trigger] self@.records[i],
            ) by {
                if i != at {
                    assert(self@.records[i] == before[i]);
                } else {
                    assert(valid_record(before[at as int]));
                }
            }
        }
        true
    }

    /// Writes property `index` of `global`. The result says whether the
    /// property was written.
    pub fn write_property(&mut self, global: u32, index: usize, bytes: Vec<u8>) -> (done: bool)
        requires
            old(self).wf(),
        ensures
            final(self).wf(),
            done == (record_position(old(self)@.records, global) < old(self)@.records.len()
                && index < old(self)@.records[record_position(
                old(self)@.records,
                global,
            )].value.props.len() && bytes@.len() <= MAX_PROPERTY_LEN),
            final(self)@ == written_to(old(self)@, global, index as int, bytes@),
    {
        let at = self.find(global);
        if at >= self.records.len() {
            return false;
        }
        let ghost before = self@.records;
        let mut record = self.records.remove(at);
        assert(valid_record(before[at as int]));
        let done = record.write_property(index, bytes);
        self.records.insert(at, record);
        proof {
            assert(self@.records =~= before.update(at as int, record@));
            assert forall|i: int| 0 <= i < self@.records.len() implies valid_record(
                #[trigger] self@.records[i],
            ) by {
                if i != at {
                    assert(self@.records[i] == before[i]);
                }
            }
        }
        done
    }

    /// Says whether `global` is to be the client's pawn. The result says
    /// whether it is in the scope.
    pub fn set_pawn(&mut self, global: u32, wanted: bool) -> (found: bool)
        requires
            old(self).wf(),
        ensures
            final(self).wf(),
            found == (record_position(old(self)@.records, global) < old(self)@.records.len()),
            final(self)@ == pawn_set(old(self)@, global, wanted),
    {
        let at = self.find(global);
        if at >= self.records.len() {
            return false;
        }
        let ghost before = self@.records;
        let mut record = self.records.remove(at);
        record.pawn_wanted = wanted;
        self.records.insert(at, record);
        proof {
            assert(self@.records =~= before.update(at as int, record@));
            assert forall|i: int| 0 <= i < self@.records.len() implies valid_record(
                #[trigger] self@.records[i],
            ) by {
                if i != at {
                    assert(self@.records[i] == before[i]);
                } else {
                    assert(valid_record(before[at as int]));
                }
            }
        }
        true
    }
    /// Writes the actions that are due into the packet `packet_index`, as
    /// far as they fit into `budget` bytes, and notes for each record what
    /// went out. Returns the bytes of the actions and their number.
    pub fn write_outgoing(&mut self, packet_index: u16, budget: usize) -> (r: (Vec<u8>, u8))
        requires
            old(self).wf(),
        ensures
            final(self).wf(),
            ({
                let out = block_written(old(self)@.records, packet_index, budget as int);
                &&& final(self)@ == (SenderView { records: out.done, ..old(self)@ })
                &&& r.0@ == out.bytes
                &&& r.1 == out.count
            }),
    {
        let parents = parents_of(&self.records);
        let mut rest: Vec<ReplicateRecord> = Vec::new();
        std::mem::swap(&mut self.records, &mut rest);
        let mut done: Vec<ReplicateRecord> = Vec::new();
        let mut bytes: Vec<u8> = Vec::new();
        let mut count: u8 = 0;
        let mut created: Vec<u32> = Vec::new();
        let mut open = true;
        let ghost goal = block_written(old(self)@.records, packet_index, budget as int);
        assert(records_view(done@) =~= Seq::empty());
        while rest.len() > 0
            invariant
                valid_records(records_view(rest@)),
                valid_records(records_view(done@)),
                self.object_key_generator@ == old(self)@.object_keys,
                self.entity_key_generator@ == old(self)@.entity_keys,
                goal == all_written(
                    Written {
                        done: records_view(done@),
                        bytes: bytes@,
                        count: count as int,
                        created: created@,
                        open,
                    },
                    records_view(rest@),
                    parents@,
                    packet_index,
                    budget as int,
                ),
            decreases rest@.len(),
        {
            let ghost old_rest = rest@;
            let ghost before_done = records_view(done@);
            let mut r = rest.remove(0);
            proof {
                assert(records_view(old_rest)[0] == r@);
                assert(records_view(rest@) =~= records_view(old_rest).drop_first());
                assert(valid_record(records_view(old_rest)[0]));
                assert forall|i: int| 0 <= i < rest@.len() implies valid_record(
                    #[trigger] records_view(rest@)[i],
                ) by {
                    assert(records_view(rest@)[i] == records_view(old_rest)[i + 1]);
                }
            }
            let joins = match r.kind {
                ReplicateKind::Component { entity } => contains_global(&created, entity)
                    && record_joins(&r, entity),
                _ => false,
            };
            if joins {
                r.in_flight = Some(InFlight { packet_index, action: ReliableAction::Create });
            } else if open {
                let mut piece: Vec<u8> = Vec::new();
                match write_own_action(&mut piece, &parents, &r, &rest) {
                    None => {},
                    Some(mark) => {
                        if count < 255 && piece.len() <= budget && bytes.len() <= budget
                            - piece.len() {
                            match mark {
                                Mark::Update => {
                                    r.note_update_sent(packet_index);
                                },
                                Mark::Reliable(action) => {
                                    r.in_flight = Some(InFlight { packet_index, action });
                                },
                                Mark::EntityCreated => {
                                    r.in_flight = Some(
                                        InFlight { packet_index, action: ReliableAction::Create },
                                    );
                                    created.push(r.global);
                                },
                            }
                            write_bytes(&mut bytes, &piece);
                            count = count + 1;
                        } else {
                            open = false;
                        }
                    },
                }
            }
            done.push(r);
            proof {
                assert(records_view(done@) =~= before_done.push(r@));
                assert forall|i: int| 0 <= i < done@.len() implies valid_record(
                    #[trigger] records_view(done@)[i],
                ) by {
                    if i < before_done.len() {
                        assert(records_view(done@)[i] == before_done[i]);
                    }
                }
            }
        }
        self.records = done;
        proof {
            crate::key_discipline::lemma_keys_stay(
                old(self)@,
                packet_index,
                budget as int,
                0,
                0,
                Seq::empty(),
                false,
            );
        }
        (bytes, count)
    }

    /// The packet `packet_index` was confirmed by the client.
    pub fn notify_packet_delivered(&mut self, packet_index: u16)
        requires
            old(self).wf(),
        ensures
            final(self).wf(),
            final(self)@ == delivered(old(self)@, packet_index),
    {
        let mut rest: Vec<ReplicateRecord> = Vec::new();
        std::mem::swap(&mut self.records, &mut rest);
        let mut done: Vec<ReplicateRecord> = Vec::new();
        let mut ended: Vec<u32> = Vec::new();
        let ghost goal = all_delivered(
            Settling {
                object_keys: old(self)@.object_keys,
                entity_keys: old(self)@.entity_keys,
                records: Seq::empty(),
                ended: Seq::empty(),
            },
            old(self)@.records,
            packet_index,
        );
        assert(records_view(done@) =~= Seq::empty());
        while rest.len() > 0
            invariant
                valid_records(records_view(rest@)),
                valid_records(records_view(done@)),
                self.object_key_generator.wf(),
                self.entity_key_generator.wf(),
                goal == all_delivered(
                    Settling {
                        object_keys: self.object_key_generator@,
                        entity_keys: self.entity_key_generator@,
                        records: records_view(done@),
                        ended: ended@,
                    },
                    records_view(rest@),
                    packet_index,
                ),
            decreases rest@.len(),
        {
            let ghost old_rest = rest@;
            let ghost before_done = records_view(done@);
            let mut r = rest.remove(0);
            proof {
                assert(records_view(old_rest)[0] == r@);
                assert(records_view(rest@) =~= records_view(old_rest).drop_first());
                assert(valid_record(records_view(old_rest)[0]));
                assert forall|i: int| 0 <= i < rest@.len() implies valid_record(
                    #[trigger] records_view(rest@)[i],
                ) by {
                    assert(records_view(rest@)[i] == records_view(old_rest)[i + 1]);
                }
            }
            let gone_with_entity = match r.kind {
                ReplicateKind::Component { entity } => contains_global(&ended, entity),
                _ => false,
            };
            if gone_with_entity {
                self.object_key_generator.recycle_key(r.local_key);
            } else {
                let ghost before = r@;
                r.forget_updates(packet_index);
                let mine = match r.in_flight {
                    Some(f) => f.packet_index == packet_index,
                    None => false,
                };
                let mut destroyed = false;
                if mine {
                    let action = match r.in_flight {
                        Some(f) => f.action,
                        None => ReliableAction::Create,
                    };
                    match action {
                        ReliableAction::Create => {
                            match r.status.after(LocalityEvent::CreateConfirmed) {
                                Some(status) => {
                                    r.status = status;
                                },
                                None => {
                                    destroyed = true;
                                },
                            }
                        },
                        ReliableAction::Delete => {
                            match r.status.after(LocalityEvent::DeleteConfirmed) {
                                Some(status) => {
                                    r.status = status;
                                },
                                None => {
                                    destroyed = true;
                                },
                            }
                        },
                        ReliableAction::AssignPawn => {
                            r.pawn_known = true;
                        },
                        ReliableAction::UnassignPawn => {
                            r.pawn_known = false;
                        },
                    }
                    if !destroyed {
                        r.in_flight = None;
                        r.settle();
                    }
                }
                if destroyed {
                    let is_entity = match r.kind {
                        ReplicateKind::Entity => true,
                        _ => false,
                    };
                    if is_entity {
                        self.entity_key_generator.recycle_key(r.local_key);
                        ended.push(r.global);
                    } else {
                        self.object_key_generator.recycle_key(r.local_key);
                    }
                } else {
                    assert(confirmed(before, packet_index) == Some(r@));
                    done.push(r);
                    proof {
                        assert(records_view(done@) =~= before_done.push(r@));
                        assert forall|i: int| 0 <= i < done@.len() implies valid_record(
                            #[trigger] records_view(done@)[i],
                        ) by {
                            if i < before_done.len() {
                                assert(records_view(done@)[i] == before_done[i]);
                            }
                        }
                    }
                }
            }
        }
        self.records = done;
        proof {
            crate::key_discipline::lemma_confirmation_keeps_keys(old(self)@, packet_index);
        }
    }

    /// The packet `packet_index` was given up.
    pub fn notify_packet_dropped(&mut self, packet_index: u16)
        requires
            old(self).wf(),
        ensures
            final(self).wf(),
            final(self)@ == (SenderView {
                records: all_given_up(old(self)@.records, packet_index),
                ..old(self)@
            }),
    {
        let mut rest: Vec<ReplicateRecord> = Vec::new();
        std::mem::swap(&mut self.records, &mut rest);
        let mut done: Vec<ReplicateRecord> = Vec::new();
        let ghost all = old(self)@.records;
        let ghost total = all.len();
        assert(records_view(done@) =~= all_given_up(all, packet_index).subrange(0, 0));
        assert(records_view(rest@) =~= all.subrange(0, total as int));
        while rest.len() > 0
            invariant
                valid_records(records_view(rest@)),
                valid_records(records_view(done@)),
                self.object_key_generator@ == old(self)@.object_keys,
                self.entity_key_generator@ == old(self)@.entity_keys,
                all.len() == total,
                rest@.len() <= total,
                records_view(rest@) == all.subrange(total - rest@.len(), total as int),
                records_view(done@) == all_given_up(all, packet_index).subrange(
                    0,
                    total - rest@.len(),
                ),
            decreases rest@.len(),
        {
            let ghost old_rest = rest@;
            let ghost k = total - rest@.len();
            let ghost before_done = records_view(done@);
            let mut r = rest.remove(0);
            proof {
                assert(records_view(old_rest)[0] == r@);
                assert(all[k] == r@);
                assert(valid_record(records_view(old_rest)[0]));
                assert forall|i: int| 0 <= i < rest@.len() implies #[trigger] records_view(rest@)[i]
                    == all[k + 1 + i] by {
                    assert(rest@[i] == old_rest[i + 1]);
                    assert(records_view(old_rest)[i + 1] == all[k + i + 1]);
                }
                assert(records_view(rest@) =~= all.subrange(k + 1, total as int));
                assert forall|i: int| 0 <= i < rest@.len() implies valid_record(
                    #[trigger] records_view(rest@)[i],
                ) by {
                    assert(records_view(rest@)[i] == records_view(old_rest)[i + 1]);
                }
            }
            r.redirty(packet_index);
            r.forget_updates(packet_index);
            let mine = match r.in_flight {
                Some(f) => f.packet_index == packet_index,
                None => false,
            };
            if mine {
                r.in_flight = None;
            }
            r.settle();
            done.push(r);
            proof {
                assert(r@ == given_up(all[k], packet_index));
                assert(records_view(done@) =~= all_given_up(all, packet_index).subrange(0, k + 1));
                assert forall|i: int| 0 <= i < done@.len() implies valid_record(
                    #[trigger] records_view(done@)[i],
                ) by {
                    if i < before_done.len() {
                        assert(records_view(done@)[i] == before_done[i]);
                    }
                }
            }
        }
        assert(all_given_up(all, packet_index).subrange(0, total as int) =~= all_given_up(
            all,
            packet_index,
        ));
        self.records = done;
    }
}

} // verus!
