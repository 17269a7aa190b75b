//! The client's copy of the state that the server replicates to it. The
//! manager reads the actions of a packet one by one, keeps the tables from
//! local key to replicate, and queues for the application one event for each
//! action, in the order in which the actions came.

use crate::dual_command_receiver::{
    pawn_cleaned, pawn_initialized, replay_requested, CommandsView, DualCommandReceiver,
};
use crate::entity_record::{keys_of, without_key, EntityRecord, EntityView};
use crate::error::ProtocolError;
use crate::keys::{LocalComponentKey, LocalEntityKey, LocalObjectKey, PawnKey};
use crate::manifest::Manifest;
use crate::replicate_action::{
    actions_view, components_view, read_action, take_action, variants_of, ActionMessage,
    ActionMessageView, ActionView, ComponentMessage, ReplicateAction,
};
use crate::table::Table;
use crate::variant::{apply_fields, fields_view, Variant, VariantView};
use crate::wire::{take_u8, PacketReader};
use vstd::prelude::*;

verus! {

/// The abstract state of the client's replicate manager.
pub struct ReplicaView {
    /// The objects and components by key.
    pub objects: Map<u32, VariantView>,
    /// For each component, the key of its entity.
    pub owner: Map<u32, u16>,
    /// The entities by key.
    pub entities: Map<u32, EntityView>,
    /// The predicted copies of the objects that are pawns.
    pub pawns: Map<u32, VariantView>,
    /// The events that wait for the application, oldest first.
    pub actions: Seq<ActionView>,
}

/// The outcome of one action on the replicated state.
pub type Stepped = Result<ReplicaView, ProtocolError>;

/// No component's key is in use or occurs twice.
pub open spec fn fresh_components(
    objects: Map<u32, VariantView>,
    components: Seq<(u16, VariantView)>,
) -> bool {
    &&& forall|i: int|
        0 <= i < components.len() ==> !objects.contains_key((#[trigger] components[i]).0 as u32)
    &&& forall|i: int, j: int|
        0 <= i < j < components.len() ==> (#[trigger] components[i]).0 != (
        #[trigger] components[j]).0
}

/// The objects with the components of a new entity among them.
pub open spec fn objects_with(
    objects: Map<u32, VariantView>,
    components: Seq<(u16, VariantView)>,
) -> Map<u32, VariantView>
    decreases components.len(),
{
    if components.len() == 0 {
        objects
    } else {
        objects_with(objects, components.drop_last()).insert(
            components.last().0 as u32,
            components.last().1,
        )
    }
}

/// The owners with `entity` as the owner of each of its new components.
pub open spec fn owners_with(
    owner: Map<u32, u16>,
    components: Seq<(u16, VariantView)>,
    entity: u16,
) -> Map<u32, u16>
    decreases components.len(),
{
    if components.len() == 0 {
        owner
    } else {
        owners_with(owner, components.drop_last(), entity).insert(
            components.last().0 as u32,
            entity,
        )
    }
}

/// The record entries of the components of a new entity.
pub open spec fn records_of(components: Seq<(u16, VariantView)>) -> Seq<(u16, u16)> {
    Seq::new(components.len(), |i: int| (components[i].1.naia_id, components[i].0))
}

/// The objects without the components of a deleted entity.
pub open spec fn objects_without(objects: Map<u32, VariantView>, entries: Seq<(u16, u16)>) -> Map<
    u32,
    VariantView,
>
    decreases entries.len(),
{
    if entries.len() == 0 {
        objects
    } else {
        objects_without(objects, entries.drop_last()).remove(entries.last().1 as u32)
    }
}

/// The owners without the components of a deleted entity.
pub open spec fn owners_without(owner: Map<u32, u16>, entries: Seq<(u16, u16)>) -> Map<u32, u16>
    decreases entries.len(),
{
    if entries.len() == 0 {
        owner
    } else {
        owners_without(owner, entries.drop_last()).remove(entries.last().1 as u32)
    }
}

/// A new object: its key must be free.
pub open spec fn after_create_object(s: ReplicaView, key: u16, value: VariantView) -> Stepped {
    if s.objects.contains_key(key as u32) {
        Err(ProtocolError::DuplicateKey)
    } else {
        Ok(
            ReplicaView {
                objects: s.objects.insert(key as u32, value),
                actions: s.actions.push(ActionView::CreateObject(LocalObjectKey { value: key })),
                ..s
            },
        )
    }
}

/// An update of an object or component: the fields that came replace its
/// properties, the others stay.
pub open spec fn after_update_object(s: ReplicaView, key: u16, fields: Seq<Option<Seq<u8>>>) -> Stepped {
    if !s.objects.contains_key(key as u32) {
        Err(ProtocolError::UnknownKey)
    } else {
        let was = s.objects[key as u32];
        Ok(
            ReplicaView {
                objects: s.objects.insert(
                    key as u32,
                    VariantView { naia_id: was.naia_id, props: apply_fields(was.props, fields) },
                ),
                actions: s.actions.push(ActionView::UpdateObject(LocalObjectKey { value: key })),
                ..s
            },
        )
    }
}

/// The end of an object: it must exist and be no component. Its predicted
/// copy goes with it.
pub open spec fn after_delete_object(s: ReplicaView, key: u16) -> Stepped {
    if !s.objects.contains_key(key as u32) || s.owner.contains_key(key as u32) {
        Err(ProtocolError::UnknownKey)
    } else {
        Ok(
            ReplicaView {
                objects: s.objects.remove(key as u32),
                pawns: s.pawns.remove(key as u32),
                actions: s.actions.push(
                    ActionView::DeleteObject(
                        LocalObjectKey { value: key },
                        s.objects[key as u32],
                    ),
                ),
                ..s
            },
        )
    }
}

/// An object or entity becomes a pawn: it must exist. An object gets a
/// predicted copy, an entity is marked as predicted.
pub open spec fn after_assign_pawn(s: ReplicaView, pawn_key: PawnKey) -> Stepped {
    match pawn_key {
        PawnKey::Object(k) => if !s.objects.contains_key(k.value as u32) || s.owner.contains_key(
            k.value as u32,
        ) {
            Err(ProtocolError::UnknownKey)
        } else {
            Ok(
                ReplicaView {
                    pawns: s.pawns.insert(k.value as u32, s.objects[k.value as u32]),
                    actions: s.actions.push(ActionView::AssignPawn(pawn_key)),
                    ..s
                },
            )
        },
        PawnKey::Entity(k) => if !s.entities.contains_key(k.value as u32) {
            Err(ProtocolError::UnknownKey)
        } else {
            Ok(
                ReplicaView {
                    entities: s.entities.insert(
                        k.value as u32,
                        EntityView { is_prediction: true, ..s.entities[k.value as u32] },
                    ),
                    actions: s.actions.push(ActionView::AssignPawn(pawn_key)),
                    ..s
                },
            )
        },
    }
}

/// A pawn ceases to be one: it must be one.
pub open spec fn after_unassign_pawn(s: ReplicaView, pawn_key: PawnKey) -> Stepped {
    match pawn_key {
        PawnKey::Object(k) => if !s.pawns.contains_key(k.value as u32) {
            Err(ProtocolError::UnknownKey)
        } else {
            Ok(
                ReplicaView {
                    pawns: s.pawns.remove(k.value as u32),
                    actions: s.actions.push(ActionView::UnassignPawn(pawn_key)),
                    ..s
                },
            )
        },
        PawnKey::Entity(k) => if !s.entities.contains_key(k.value as u32) || !s.entities[k.value as u32].is_prediction {
            Err(ProtocolError::UnknownKey)
        } else {
            Ok(
                ReplicaView {
                    entities: s.entities.insert(
                        k.value as u32,
                        EntityView { is_prediction: false, ..s.entities[k.value as u32] },
                    ),
                    actions: s.actions.push(ActionView::UnassignPawn(pawn_key)),
                    ..s
                },
            )
        },
    }
}

/// A new entity with its components: its key and theirs must be free.
pub open spec fn after_create_entity(
    s: ReplicaView,
    key: u16,
    components: Seq<(u16, VariantView)>,
) -> Stepped {
    if s.entities.contains_key(key as u32) || !fresh_components(s.objects, components) {
        Err(ProtocolError::DuplicateKey)
    } else {
        Ok(
            ReplicaView {
                objects: objects_with(s.objects, components),
                owner: owners_with(s.owner, components, key),
                entities: s.entities.insert(
                    key as u32,
                    EntityView { components: records_of(components), is_prediction: false },
                ),
                actions: s.actions.push(
                    ActionView::CreateEntity(
                        LocalEntityKey { value: key },
                        keys_of(records_of(components)),
                    ),
                ),
                ..s
            },
        )
    }
}

/// The end of an entity: it must exist. Its components go with it.
pub open spec fn after_delete_entity(s: ReplicaView, key: u16) -> Stepped {
    if !s.entities.contains_key(key as u32) {
        Err(ProtocolError::UnknownKey)
    } else {
        let entries = s.entities[key as u32].components;
        Ok(
            ReplicaView {
                objects: objects_without(s.objects, entries),
                owner: owners_without(s.owner, entries),
                entities: s.entities.remove(key as u32),
                actions: s.actions.push(ActionView::DeleteEntity(LocalEntityKey { value: key })),
                ..s
            },
        )
    }
}

/// A new component of an entity: the entity must exist and the key be
/// free.
pub open spec fn after_add_component(
    s: ReplicaView,
    entity: u16,
    key: u16,
    value: VariantView,
) -> Stepped {
    if !s.entities.contains_key(entity as u32) {
        Err(ProtocolError::UnknownKey)
    } else if s.objects.contains_key(key as u32) {
        Err(ProtocolError::DuplicateKey)
    } else {
        let was = s.entities[entity as u32];
        Ok(
            ReplicaView {
                objects: s.objects.insert(key as u32, value),
                owner: s.owner.insert(key as u32, entity),
                entities: s.entities.insert(
                    entity as u32,
                    EntityView { components: was.components.push((value.naia_id, key)), ..was },
                ),
                actions: s.actions.push(
                    ActionView::AddComponent(
                        LocalEntityKey { value: entity },
                        LocalComponentKey { value: key },
                    ),
                ),
                ..s
            },
        )
    }
}

/// The end of a component: it must exist and have an owner.
pub open spec fn after_remove_component(s: ReplicaView, key: u16) -> Stepped {
    if !s.owner.contains_key(key as u32) || !s.objects.contains_key(key as u32) {
        Err(ProtocolError::UnknownKey)
    } else {
        let entity = s.owner[key as u32];
        Ok(
            ReplicaView {
                objects: s.objects.remove(key as u32),
                owner: s.owner.remove(key as u32),
                entities: if s.entities.contains_key(entity as u32) {
                    let was = s.entities[entity as u32];
                    s.entities.insert(
                        entity as u32,
                        EntityView { components: without_key(was.components, key), ..was },
                    )
                } else {
                    s.entities
                },
                actions: s.actions.push(
                    ActionView::RemoveComponent(
                        LocalEntityKey { value: entity },
                        LocalComponentKey { value: key },
                        s.objects[key as u32],
                    ),
                ),
                ..s
            },
        )
    }
}

/// The replicated state after one action.
pub open spec fn stepped(s: ReplicaView, message: ActionMessageView) -> Stepped {
    match message {
        ActionMessageView::CreateObject { key, value } => after_create_object(s, key, value),
        ActionMessageView::UpdateObject { key, fields } => after_update_object(s, key, fields),
        ActionMessageView::DeleteObject { key } => after_delete_object(s, key),
        ActionMessageView::AssignPawn { pawn_key } => after_assign_pawn(s, pawn_key),
        ActionMessageView::UnassignPawn { pawn_key } => after_unassign_pawn(s, pawn_key),
        ActionMessageView::CreateEntity { key, components } => after_create_entity(
            s,
            key,
            components,
        ),
        ActionMessageView::DeleteEntity { key } => after_delete_entity(s, key),
        ActionMessageView::AddComponent { entity, key, value } => after_add_component(
            s,
            entity,
            key,
            value,
        ),
        ActionMessageView::RemoveComponent { key } => after_remove_component(s, key),
    }
}

/// The pawn whose server state an update of `key` brings: the object
/// itself if it is a pawn, or the predicted entity that owns the
/// component.
pub open spec fn updated_pawn(s: ReplicaView, key: u16) -> Option<PawnKey> {
    if s.pawns.contains_key(key as u32) {
        Some(PawnKey::Object(LocalObjectKey { value: key }))
    } else if s.owner.contains_key(key as u32) && s.entities.contains_key(
        s.owner[key as u32] as u32,
    ) && s.entities[s.owner[key as u32] as u32].is_prediction {
        Some(PawnKey::Entity(LocalEntityKey { value: s.owner[key as u32] }))
    } else {
        None
    }
}

/// The command receiver's state after an action that succeeded on `s`: an
/// update of a pawn asks for a replay from the packet's tick, a new pawn
/// gets a history, a pawn that ends loses it.
pub open spec fn commands_stepped(
    s: ReplicaView,
    c: CommandsView,
    message: ActionMessageView,
    tick: u16,
) -> CommandsView {
    match message {
        ActionMessageView::UpdateObject { key, fields } => match updated_pawn(s, key) {
            Some(pawn_key) => replay_requested(c, tick, pawn_key),
            None => c,
        },
        ActionMessageView::DeleteObject { key } => if s.pawns.contains_key(key as u32) {
            pawn_cleaned(c, PawnKey::Object(LocalObjectKey { value: key }))
        } else {
            c
        },
        ActionMessageView::AssignPawn { pawn_key } => pawn_initialized(c, pawn_key),
        ActionMessageView::UnassignPawn { pawn_key } => pawn_cleaned(c, pawn_key),
        ActionMessageView::DeleteEntity { key } => if s.entities.contains_key(key as u32)
            && s.entities[key as u32].is_prediction {
            pawn_cleaned(c, PawnKey::Entity(LocalEntityKey { value: key }))
        } else {
            c
        },
        _ => c,
    }
}

/// The state after a pawn has been set back to the server's state: the
/// predicted copy of an object pawn is its object again.
pub open spec fn pawn_was_reset(s: ReplicaView, pawn_key: PawnKey) -> ReplicaView {
    match pawn_key {
        PawnKey::Object(k) => if s.pawns.contains_key(k.value as u32) && s.objects.contains_key(
            k.value as u32,
        ) {
            ReplicaView { pawns: s.pawns.insert(k.value as u32, s.objects[k.value as u32]), ..s }
        } else {
            s
        },
        PawnKey::Entity(_) => s,
    }
}

/// The state after each pawn of a list of replay requests has been set
/// back.
pub open spec fn pawns_reset(s: ReplicaView, triggers: Seq<(PawnKey, u16)>) -> ReplicaView
    decreases triggers.len(),
{
    if triggers.len() == 0 {
        s
    } else {
        pawns_reset(pawn_was_reset(s, triggers[0].0), triggers.drop_first())
    }
}

/// The state after property `index` of the predicted copy under `key` has
/// been written.
pub open spec fn pawn_written(s: ReplicaView, key: u16, index: int, bytes: Seq<u8>) -> ReplicaView {
    ReplicaView {
        pawns: s.pawns.insert(
            key as u32,
            VariantView {
                naia_id: s.pawns[key as u32].naia_id,
                props: s.pawns[key as u32].props.update(index, bytes),
            },
        ),
        ..s
    }
}

/// The event by which the application hears of an action that succeeded.
pub open spec fn event_of(s: ReplicaView, message: ActionMessageView) -> ActionView {
    match message {
        ActionMessageView::CreateObject { key, value } => ActionView::CreateObject(
            LocalObjectKey { value: key },
        ),
        ActionMessageView::UpdateObject { key, fields } => ActionView::UpdateObject(
            LocalObjectKey { value: key },
        ),
        ActionMessageView::DeleteObject { key } => ActionView::DeleteObject(
            LocalObjectKey { value: key },
            s.objects[key as u32],
        ),
        ActionMessageView::AssignPawn { pawn_key } => ActionView::AssignPawn(pawn_key),
        ActionMessageView::UnassignPawn { pawn_key } => ActionView::UnassignPawn(pawn_key),
        ActionMessageView::CreateEntity { key, components } => ActionView::CreateEntity(
            LocalEntityKey { value: key },
            keys_of(records_of(components)),
        ),
        ActionMessageView::DeleteEntity { key } => ActionView::DeleteEntity(
            LocalEntityKey { value: key },
        ),
        ActionMessageView::AddComponent { entity, key, value } => ActionView::AddComponent(
            LocalEntityKey { value: entity },
            LocalComponentKey { value: key },
        ),
        ActionMessageView::RemoveComponent { key } => ActionView::RemoveComponent(
            LocalEntityKey { value: s.owner[key as u32] },
            LocalComponentKey { value: key },
            s.objects[key as u32],
        ),
    }
}

/// Every action that succeeds is surfaced to the application exactly once:
/// it queues one event, behind the events that wait already; an action that
/// fails queues none.
pub proof fn lemma_one_event_per_action(s: ReplicaView, message: ActionMessageView)
    ensures
        match stepped(s, message) {
            Ok(after) => after.actions == s.actions.push(event_of(s, message)),
            Err(_) => true,
        },
{
}

/// A key is created once: while a replicate lives under a key, another
/// creation under that key is refused, and a deletion is accepted only for
/// a key under which a replicate lives. So creations and deletions of a key
/// alternate.
pub proof fn lemma_create_and_delete_alternate(s: ReplicaView, key: u16, value: VariantView)
    ensures
        s.objects.contains_key(key as u32) ==> after_create_object(s, key, value) is Err,
        !s.objects.contains_key(key as u32) ==> after_delete_object(s, key) is Err
            && after_update_object(s, key, Seq::empty()) is Err && after_remove_component(s, key)
            is Err,
        after_create_object(s, key, value) matches Ok(after) ==> after.objects.contains_key(
            key as u32,
        ),
        after_delete_object(s, key) matches Ok(after) ==> !after.objects.contains_key(key as u32),
        after_remove_component(s, key) matches Ok(after) ==> !after.objects.contains_key(
            key as u32,
        ),
        s.entities.contains_key(key as u32) ==> after_create_entity(s, key, Seq::empty()) is Err,
        !s.entities.contains_key(key as u32) ==> after_delete_entity(s, key) is Err,
        after_delete_entity(s, key) matches Ok(after) ==> !after.entities.contains_key(key as u32),
{
}

/// Where the processing of a block of actions ends.
pub struct Processed {
    pub replica: ReplicaView,
    pub commands: CommandsView,
    /// The position after the last action that succeeded.
    pub pos: int,
    /// Why processing stopped early, if it did.
    pub error: Option<ProtocolError>,
}

/// The outcome of `count` actions in a row from `pos`: each is read against
/// the state that the ones before it left, and applied; the first one that
/// cannot be read or applied stops the processing.
pub open spec fn processed(
    s: ReplicaView,
    c: CommandsView,
    prototypes: Seq<VariantView>,
    bytes: Seq<u8>,
    pos: int,
    count: nat,
    tick: u16,
) -> Processed
    decreases count,
{
    if count == 0 {
        Processed { replica: s, commands: c, pos, error: None }
    } else {
        match take_action(prototypes, s.objects, bytes, pos) {
            Ok((message, next)) => match stepped(s, message) {
                Ok(s1) => processed(
                    s1,
                    commands_stepped(s, c, message, tick),
                    prototypes,
                    bytes,
                    next,
                    (count - 1) as nat,
                    tick,
                ),
                Err(e) => Processed { replica: s, commands: c, pos, error: Some(e) },
            },
            Err(e) => Processed { replica: s, commands: c, pos, error: Some(e) },
        }
    }
}

/// The outcome of a whole block of actions at `pos`: the count and that
/// many actions.
pub open spec fn block_processed(
    s: ReplicaView,
    c: CommandsView,
    prototypes: Seq<VariantView>,
    bytes: Seq<u8>,
    pos: int,
    tick: u16,
) -> Processed {
    match take_u8(bytes, pos) {
        Some((count, next)) => processed(s, c, prototypes, bytes, next, count as nat, tick),
        None => Processed {
            replica: s,
            commands: c,
            pos,
            error: Some(ProtocolError::Malformed),
        },
    }
}

/// The entity records of a table by their abstract values.
pub open spec fn records_view(entities: Map<u32, EntityRecord>) -> Map<u32, EntityView> {
    Map::new(|k: u32| entities.contains_key(k), |k: u32| entities[k]@)
}

/// What a step leaves behind: the expected state on success, the old state
/// and the error on failure.
pub open spec fn step_outcome(
    before: ReplicaView,
    after: ReplicaView,
    expected: Stepped,
    got: Result<(), ProtocolError>,
) -> bool {
    match expected {
        Ok(s) => got is Ok && after == s,
        Err(e) => got == Err::<(), ProtocolError>(e) && after == before,
    }
}

/// Keeps the client's copy of the replicated state.
pub struct ReplicateManager {
    objects: Table<Variant>,
    owner: Table<u16>,
    entities: Table<EntityRecord>,
    pawns: Table<Variant>,
    queued_incoming_messages: Vec<ReplicateAction>,
}

impl View for ReplicateManager {
    type V = ReplicaView;

    closed spec fn view(&self) -> ReplicaView {
        ReplicaView {
            objects: variants_of(self.objects@),
            owner: self.owner@,
            entities: records_view(self.entities@),
            pawns: variants_of(self.pawns@),
            actions: actions_view(self.queued_incoming_messages@),
        }
    }
}

impl ReplicateManager {
    pub closed spec fn wf(&self) -> bool {
        &&& self.objects.wf()
        &&& self.owner.wf()
        &&& self.entities.wf()
        &&& self.pawns.wf()
    }

    pub fn new() -> (m: Self)
        ensures
            m.wf(),
            m@ == (ReplicaView {
                objects: Map::empty(),
                owner: Map::empty(),
                entities: Map::empty(),
                pawns: Map::empty(),
                actions: Seq::empty(),
            }),
    {
        let m = ReplicateManager {
            objects: Table::new(),
            owner: Table::new(),
            entities: Table::new(),
            pawns: Table::new(),
            queued_incoming_messages: Vec::new(),
        };
        assert(m@.objects =~= Map::empty());
        assert(m@.entities =~= Map::empty());
        assert(m@.pawns =~= Map::empty());
        assert(m@.actions =~= Seq::empty());
        m
    }

    fn push_action(&mut self, action: ReplicateAction)
        requires
            old(self).wf(),
        ensures
            final(self).wf(),
            final(self)@ == (ReplicaView {
                actions: old(self)@.actions.push(action@),
                ..old(self)@
            }),
    {
        self.queued_incoming_messages.push(action);
        assert(self@.actions =~= old(self)@.actions.push(action@));
    }

    fn create_object(&mut self, key: u16, value: Variant) -> (r: Result<(), ProtocolError>)
        requires
            old(self).wf(),
        ensures
            final(self).wf(),
            step_outcome(
                old(self)@,
                final(self)@,
                after_create_object(old(self)@, key, value@),
                r,
            ),
    {
        if self.objects.contains_key(key as u32) {
            return Err(ProtocolError::DuplicateKey);
        }
        self.objects.insert(key as u32, value);
        assert(self@.objects =~= old(self)@.objects.insert(key as u32, value@));
        self.push_action(ReplicateAction::CreateObject(LocalObjectKey::from_u16(key)));
        Ok(())
    }

    fn update_object(&mut self, key: u16, fields: Vec<Option<Vec<u8>>>) -> (r: Result<
        (),
        ProtocolError,
    >)
        requires
            old(self).wf(),
        ensures
            final(self).wf(),
            step_outcome(
                old(self)@,
                final(self)@,
                after_update_object(old(self)@, key, fields_view(fields@)),
                r,
            ),
    {
        match self.objects.remove(key as u32) {
            None => {
                assert(self@.objects =~= old(self)@.objects);
                Err(ProtocolError::UnknownKey)
            },
            Some(object) => {
                let mut object = object;
                object.apply(fields);
                self.objects.insert(key as u32, object);
                assert(self@.objects =~= old(self)@.objects.insert(key as u32, object@));
                self.push_action(ReplicateAction::UpdateObject(LocalObjectKey::from_u16(key)));
                Ok(())
            },
        }
    }

    fn delete_object(&mut self, key: u16) -> (r: Result<(), ProtocolError>)
        requires
            old(self).wf(),
        ensures
            final(self).wf(),
            step_outcome(old(self)@, final(self)@, after_delete_object(old(self)@, key), r),
    {
        if !self.objects.contains_key(key as u32) || self.owner.contains_key(key as u32) {
            return Err(ProtocolError::UnknownKey);
        }
        match self.objects.remove(key as u32) {
            None => Err(ProtocolError::UnknownKey),
            Some(last) => {
                self.pawns.remove(key as u32);
                assert(self@.objects =~= old(self)@.objects.remove(key as u32));
                assert(self@.pawns =~= old(self)@.pawns.remove(key as u32));
                self.push_action(
                    ReplicateAction::DeleteObject(LocalObjectKey::from_u16(key), last),
                );
                Ok(())
            },
        }
    }

    fn set_prediction(&mut self, key: u16, value: bool)
        requires
            old(self).wf(),
            old(self)@.entities.contains_key(key as u32),
        ensures
            final(self).wf(),
            final(self)@ == (ReplicaView {
                entities: old(self)@.entities.insert(
                    key as u32,
                    EntityView { is_prediction: value, ..old(self)@.entities[key as u32] },
                ),
                ..old(self)@
            }),
    {
        match self.entities.remove(key as u32) {
            Some(record) => {
                let mut record = record;
                record.set_prediction(value);
                self.entities.insert(key as u32, record);
                assert(self@.entities =~= old(self)@.entities.insert(
                    key as u32,
                    EntityView { is_prediction: value, ..old(self)@.entities[key as u32] },
                ));
            },
            None => {},
        }
    }

    fn assign_pawn(&mut self, pawn_key: PawnKey) -> (r: Result<(), ProtocolError>)
        requires
            old(self).wf(),
        ensures
            final(self).wf(),
            step_outcome(old(self)@, final(self)@, after_assign_pawn(old(self)@, pawn_key), r),
    {
        match pawn_key {
            PawnKey::Object(k) => {
                let key = k.to_u16();
                if self.owner.contains_key(key as u32) {
                    return Err(ProtocolError::UnknownKey);
                }
                let copy = match self.objects.get(key as u32) {
                    Some(object) => object.copy(),
                    None => {
                        return Err(ProtocolError::UnknownKey);
                    },
                };
                self.pawns.insert(key as u32, copy);
                assert(self@.pawns =~= old(self)@.pawns.insert(
                    key as u32,
                    old(self)@.objects[key as u32],
                ));
            },
            PawnKey::Entity(k) => {
                let key = k.to_u16();
                if !self.entities.contains_key(key as u32) {
                    return Err(ProtocolError::UnknownKey);
                }
                self.set_prediction(key, true);
            },
        }
        self.push_action(ReplicateAction::AssignPawn(pawn_key));
        Ok(())
    }

    fn unassign_pawn(&mut self, pawn_key: PawnKey) -> (r: Result<(), ProtocolError>)
        requires
            old(self).wf(),
        ensures
            final(self).wf(),
            step_outcome(old(self)@, final(self)@, after_unassign_pawn(old(self)@, pawn_key), r),
    {
        match pawn_key {
            PawnKey::Object(k) => {
                let key = k.to_u16();
                match self.pawns.remove(key as u32) {
                    Some(_) => {
                        assert(self@.pawns =~= old(self)@.pawns.remove(key as u32));
                    },
                    None => {
                        assert(self@.pawns =~= old(self)@.pawns);
                        return Err(ProtocolError::UnknownKey);
                    },
                }
            },
            PawnKey::Entity(k) => {
                let key = k.to_u16();
                let predicted = match self.entities.get(key as u32) {
                    Some(record) => record.is_prediction(),
                    None => false,
                };
                if !predicted {
                    return Err(ProtocolError::UnknownKey);
                }
                self.set_prediction(key, false);
            },
        }
        self.push_action(ReplicateAction::UnassignPawn(pawn_key));
        Ok(())
    }

    fn components_fresh(&self, components: &Vec<ComponentMessage>) -> (b: bool)
        requires
            self.wf(),
        ensures
            b == fresh_components(self@.objects, components_view(components@)),
    {
        let ghost list = components_view(components@);
        let mut i: usize = 0;
        while i < components.len()
            invariant
                i <= components@.len(),
                self.wf(),
                list == components_view(components@),
                forall|a: int| 0 <= a < i ==> !self@.objects.contains_key((#[trigger] list[a]).0 as u32),
                forall|a: int, b: int|
                    0 <= a < b < i ==> (#[trigger] list[a]).0 != (#[trigger] list[b]).0,
            decreases components@.len() - i,
        {
            let key = components[i].key;
            assert(list[i as int].0 == key);
            if self.objects.contains_key(key as u32) {
                return false;
            }
            let mut j: usize = 0;
            while j < i
                invariant
                    j <= i,
                    i < components@.len(),
                    list == components_view(components@),
                    key == list[i as int].0,
                    forall|a: int| 0 <= a < j ==> (#[trigger] list[a]).0 != key,
                decreases i - j,
            {
                assert(list[j as int].0 == components@[j as int].key);
                if components[j].key == key {
                    return false;
                }
                j += 1;
            }
            i += 1;
        }
        true
    }

    fn create_entity(&mut self, key: u16, components: Vec<ComponentMessage>) -> (r: Result<
        (),
        ProtocolError,
    >)
        requires
            old(self).wf(),
        ensures
            final(self).wf(),
            step_outcome(
                old(self)@,
                final(self)@,
                after_create_entity(old(self)@, key, components_view(components@)),
                r,
            ),
    {
        if self.entities.contains_key(key as u32) {
            return Err(ProtocolError::DuplicateKey);
        }
        if !self.components_fresh(&components) {
            return Err(ProtocolError::DuplicateKey);
        }
        let mut components = components;
        let ghost all = components_view(components@);
        let ghost total = all.len();
        let mut record = EntityRecord::new();
        assert(all.subrange(0, 0) =~= Seq::empty());
        assert(records_of(Seq::<(u16, VariantView)>::empty()) =~= Seq::empty());
        while components.len() > 0
            invariant
                self.wf(),
                components@.len() <= total,
                all.len() == total,
                components_view(components@) == all.subrange(
                    total - components@.len(),
                    total as int,
                ),
                self@ == (ReplicaView {
                    objects: objects_with(
                        old(self)@.objects,
                        all.subrange(0, total - components@.len()),
                    ),
                    owner: owners_with(
                        old(self)@.owner,
                        all.subrange(0, total - components@.len()),
                        key,
                    ),
                    ..old(self)@
                }),
                record@ == (EntityView {
                    components: records_of(all.subrange(0, total - components@.len())),
                    is_prediction: false,
                }),
            decreases components@.len(),
        {
            let ghost done = total - components@.len();
            let ghost before_rest = components@;
            let ghost before_objects = self@.objects;
            let ghost before_owner = self@.owner;
            let component = components.remove(0);
            proof {
                assert(components_view(before_rest)[0] == (component.key, component.value@));
                assert(all[done] == (component.key, component.value@));
                assert forall|i: int| 0 <= i < components@.len() implies #[trigger] components_view(
                    components@,
                )[i] == all[done + 1 + i] by {
                    assert(components@[i] == before_rest[i + 1]);
                    assert(components_view(before_rest)[i + 1] == all[done + i + 1]);
                }
                assert(components_view(components@) =~= all.subrange(done + 1, total as int));
                let part = all.subrange(0, done + 1);
                assert(part.drop_last() =~= all.subrange(0, done));
                assert(part.last() == all[done]);
                assert(records_of(part) =~= records_of(all.subrange(0, done)).push(
                    (component.value@.naia_id, component.key),
                ));
            }
            record.insert_component(
                &LocalComponentKey::from_u16(component.key),
                component.value.naia_id(),
            );
            self.owner.insert(component.key as u32, key);
            self.objects.insert(component.key as u32, component.value);
            proof {
                assert(self@.objects =~= before_objects.insert(
                    component.key as u32,
                    component.value@,
                ));
            }
        }
        assert(all.subrange(0, total as int) =~= all);
        let keys = record.get_component_keys();
        self.entities.insert(key as u32, record);
        assert(self@.entities =~= old(self)@.entities.insert(key as u32, record@));
        self.push_action(ReplicateAction::CreateEntity(LocalEntityKey::from_u16(key), keys));
        Ok(())
    }

    fn delete_entity(&mut self, key: u16) -> (r: Result<(), ProtocolError>)
        requires
            old(self).wf(),
        ensures
            final(self).wf(),
            step_outcome(old(self)@, final(self)@, after_delete_entity(old(self)@, key), r),
    {
        let record = match self.entities.remove(key as u32) {
            Some(record) => record,
            None => {
                assert(self@.entities =~= old(self)@.entities);
                return Err(ProtocolError::UnknownKey);
            },
        };
        assert(self@.entities =~= old(self)@.entities.remove(key as u32));
        let ghost entries = record@.components;
        let keys = record.get_component_keys();
        let ghost mid = self@;
        let mut i: usize = 0;
        assert(entries.subrange(0, 0) =~= Seq::empty());
        while i < keys.len()
            invariant
                i <= keys@.len(),
                self.wf(),
                keys@ == keys_of(entries),
                self@ == (ReplicaView {
                    objects: objects_without(mid.objects, entries.subrange(0, i as int)),
                    owner: owners_without(mid.owner, entries.subrange(0, i as int)),
                    ..mid
                }),
            decreases keys@.len() - i,
        {
            let component = keys[i].to_u16();
            let ghost before_objects = self@.objects;
            proof {
                let part = entries.subrange(0, i + 1);
                assert(part.drop_last() =~= entries.subrange(0, i as int));
                assert(part.last() == entries[i as int]);
                assert(keys@[i as int].value == entries[i as int].1);
            }
            self.objects.remove(component as u32);
            self.owner.remove(component as u32);
            assert(self@.objects =~= before_objects.remove(component as u32));
            i += 1;
        }
        assert(entries.subrange(0, i as int) =~= entries);
        self.push_action(ReplicateAction::DeleteEntity(LocalEntityKey::from_u16(key)));
        Ok(())
    }

    fn add_component(&mut self, entity: u16, key: u16, value: Variant) -> (r: Result<
        (),
        ProtocolError,
    >)
        requires
            old(self).wf(),
        ensures
            final(self).wf(),
            step_outcome(
                old(self)@,
                final(self)@,
                after_add_component(old(self)@, entity, key, value@),
                r,
            ),
    {
        if !self.entities.contains_key(entity as u32) {
            return Err(ProtocolError::UnknownKey);
        }
        if self.objects.contains_key(key as u32) {
            return Err(ProtocolError::DuplicateKey);
        }
        match self.entities.remove(entity as u32) {
            Some(record) => {
                let mut record = record;
                record.insert_component(&LocalComponentKey::from_u16(key), value.naia_id());
                self.entities.insert(entity as u32, record);
                assert(self@.entities =~= old(self)@.entities.insert(entity as u32, record@));
            },
            None => {},
        }
        self.owner.insert(key as u32, entity);
        self.objects.insert(key as u32, value);
        assert(self@.objects =~= old(self)@.objects.insert(key as u32, value@));
        self.push_action(
            ReplicateAction::AddComponent(
                LocalEntityKey::from_u16(entity),
                LocalComponentKey::from_u16(key),
            ),
        );
        Ok(())
    }

    fn remove_component(&mut self, key: u16) -> (r: Result<(), ProtocolError>)
        requires
            old(self).wf(),
        ensures
            final(self).wf(),
            step_outcome(old(self)@, final(self)@, after_remove_component(old(self)@, key), r),
    {
        let entity = match self.owner.get(key as u32) {
            Some(e) => *e,
            None => {
                return Err(ProtocolError::UnknownKey);
            },
        };
        if !self.objects.contains_key(key as u32) {
            return Err(ProtocolError::UnknownKey);
        }
        let last = match self.objects.remove(key as u32) {
            Some(v) => v,
            None => {
                return Err(ProtocolError::UnknownKey);
            },
        };
        assert(self@.objects =~= old(self)@.objects.remove(key as u32));
        self.owner.remove(key as u32);
        match self.entities.remove(entity as u32) {
            Some(record) => {
                let mut record = record;
                record.remove_component(&LocalComponentKey::from_u16(key));
                self.entities.insert(entity as u32, record);
                assert(self@.entities =~= old(self)@.entities.insert(entity as u32, record@));
            },
            None => {
                assert(self@.entities =~= old(self)@.entities);
            },
        }
        self.push_action(
            ReplicateAction::RemoveComponent(
                LocalEntityKey::from_u16(entity),
                LocalComponentKey::from_u16(key),
                last,
            ),
        );
        Ok(())
    }

    fn find_updated_pawn(&self, key: u16) -> (r: Option<PawnKey>)
        requires
            self.wf(),
        ensures
            r == updated_pawn(self@, key),
    {
        if self.pawns.contains_key(key as u32) {
            return Some(PawnKey::Object(LocalObjectKey::from_u16(key)));
        }
        match self.owner.get(key as u32) {
            Some(entity) => match self.entities.get(*entity as u32) {
                Some(record) => if record.is_prediction() {
                    Some(PawnKey::Entity(LocalEntityKey::from_u16(*entity)))
                } else {
                    None
                },
                None => None,
            },
            None => None,
        }
    }

    /// Applies one action: the tables change as the action says, the event
    /// for the application is queued, and the command receiver hears of
    /// what concerns a pawn. An action that cannot be applied changes
    /// nothing.
    pub fn apply_action(
        &mut self,
        message: ActionMessage,
        command_receiver: &mut DualCommandReceiver,
        packet_tick: u16,
    ) -> (r: Result<(), ProtocolError>)
        requires
            old(self).wf(),
            old(command_receiver).wf(),
        ensures
            final(self).wf(),
            final(command_receiver).wf(),
            match stepped(old(self)@, message@) {
                Ok(s) => r is Ok && final(self)@ == s && final(command_receiver)@
                    == commands_stepped(
                    old(self)@,
                    old(command_receiver)@,
                    message@,
                    packet_tick,
                ),
                Err(e) => r == Err::<(), ProtocolError>(e) && final(self)@ == old(self)@ && final(command_receiver)@ == old(command_receiver)@,
            },
    {
        match message {
            ActionMessage::CreateObject { key, value } => self.create_object(key, value),
            ActionMessage::UpdateObject { key, fields } => {
                let pawn = self.find_updated_pawn(key);
                let r = self.update_object(key, fields);
                if r.is_ok() {
                    match pawn {
                        Some(pawn_key) => {
                            command_receiver.replay_commands(packet_tick, &pawn_key);
                        },
                        None => {},
                    }
                }
                r
            },
            ActionMessage::DeleteObject { key } => {
                let was_pawn = self.pawns.contains_key(key as u32);
                let r = self.delete_object(key);
                if r.is_ok() && was_pawn {
                    command_receiver.pawn_cleanup(
                        &PawnKey::Object(LocalObjectKey::from_u16(key)),
                    );
                }
                r
            },
            ActionMessage::AssignPawn { pawn_key } => {
                let r = self.assign_pawn(pawn_key);
                if r.is_ok() {
                    command_receiver.pawn_init(&pawn_key);
                }
                r
            },
            ActionMessage::UnassignPawn { pawn_key } => {
                let r = self.unassign_pawn(pawn_key);
                if r.is_ok() {
                    command_receiver.pawn_cleanup(&pawn_key);
                }
                r
            },
            ActionMessage::CreateEntity { key, components } => self.create_entity(
                key,
                components,
            ),
            ActionMessage::DeleteEntity { key } => {
                let predicted = match self.entities.get(key as u32) {
                    Some(record) => record.is_prediction(),
                    None => false,
                };
                let r = self.delete_entity(key);
                if r.is_ok() && predicted {
                    command_receiver.pawn_cleanup(
                        &PawnKey::Entity(LocalEntityKey::from_u16(key)),
                    );
                }
                r
            },
            ActionMessage::AddComponent { entity, key, value } => self.add_component(
                entity,
                key,
                value,
            ),
            ActionMessage::RemoveComponent { key } => self.remove_component(key),
        }
    }

    /// Reads a block of actions and applies them in order. The first action
    /// that is malformed, creates what exists or touches what does not
    /// exist stops the processing with its error; the actions before it
    /// stay applied and the reader stays at the action that failed.
    pub fn process_data(
        &mut self,
        manifest: &Manifest,
        command_receiver: &mut DualCommandReceiver,
        packet_tick: u16,
        reader: &mut PacketReader,
    ) -> (r: Result<(), ProtocolError>)
        requires
            old(self).wf(),
            old(command_receiver).wf(),
            old(reader).wf(),
            manifest.wf(),
        ensures
            final(self).wf(),
            final(command_receiver).wf(),
            final(reader).wf(),
            final(reader).data() == old(reader).data(),
            ({
                let out = block_processed(
                    old(self)@,
                    old(command_receiver)@,
                    manifest.entities().prototypes(),
                    old(reader).data(),
                    old(reader).pos(),
                    packet_tick,
                );
                &&& final(self)@ == out.replica
                &&& final(command_receiver)@ == out.commands
                &&& final(reader).pos() == out.pos
                &&& match out.error {
                    Some(e) => r == Err::<(), ProtocolError>(e),
                    None => r is Ok,
                }
            }),
    {
        let count = match reader.read_u8() {
            Some(v) => v,
            None => {
                return Err(ProtocolError::Malformed);
            },
        };
        let ghost prototypes = manifest.entities().prototypes();
        let ghost bytes = reader.data();
        let ghost goal = block_processed(
            old(self)@,
            old(command_receiver)@,
            prototypes,
            bytes,
            old(reader).pos(),
            packet_tick,
        );
        let mut i: u8 = 0;
        while i < count
            invariant
                i <= count,
                self.wf(),
                command_receiver.wf(),
                reader.wf(),
                manifest.wf(),
                reader.data() == bytes,
                bytes == old(reader).data(),
                prototypes == manifest.entities().prototypes(),
                goal == block_processed(
                    old(self)@,
                    old(command_receiver)@,
                    prototypes,
                    bytes,
                    old(reader).pos(),
                    packet_tick,
                ),
                goal == processed(
                    self@,
                    command_receiver@,
                    prototypes,
                    bytes,
                    reader.pos(),
                    (count - i) as nat,
                    packet_tick,
                ),
            decreases count - i,
        {
            let at = reader.get_cursor();
            let message = match read_action(reader, manifest, &self.objects) {
                Ok(m) => m,
                Err(e) => {
                    return Err(e);
                },
            };
            match self.apply_action(message, command_receiver, packet_tick) {
                Ok(()) => {},
                Err(e) => {
                    reader.rewind(at);
                    return Err(e);
                },
            }
            i += 1;
        }
        Ok(())
    }

    /// Whether an object or component is held under `key`.
    pub fn has_object(&self, key: &LocalObjectKey) -> (b: bool)
        requires
            self.wf(),
        ensures
            b == self@.objects.contains_key(key.value as u32),
    {
        self.objects.contains_key(key.to_u16() as u32)
    }

    /// Whether a component of an entity is held under `key`.
    pub fn has_component(&self, key: &LocalComponentKey) -> (b: bool)
        requires
            self.wf(),
        ensures
            b == (self@.objects.contains_key(key.value as u32) && self@.owner.contains_key(
                key.value as u32,
            )),
    {
        self.objects.contains_key(key.to_u16() as u32) && self.owner.contains_key(
            key.to_u16() as u32,
        )
    }

    /// Whether an entity is held under `key`.
    pub fn has_entity(&self, key: &LocalEntityKey) -> (b: bool)
        requires
            self.wf(),
        ensures
            b == self@.entities.contains_key(key.value as u32),
    {
        self.entities.contains_key(key.to_u16() as u32)
    }

    /// The object or component under `key`.
    pub fn get_object(&self, key: &LocalObjectKey) -> (r: Option<&Variant>)
        requires
            self.wf(),
        ensures
            match r {
                Some(v) => self@.objects.contains_key(key.value as u32) && v@
                    == self@.objects[key.value as u32],
                None => !self@.objects.contains_key(key.value as u32),
            },
    {
        self.objects.get(key.to_u16() as u32)
    }

    /// The record of the entity under `key`.
    pub fn get_entity(&self, key: &LocalEntityKey) -> (r: Option<&EntityRecord>)
        requires
            self.wf(),
        ensures
            match r {
                Some(v) => self@.entities.contains_key(key.value as u32) && v@
                    == self@.entities[key.value as u32],
                None => !self@.entities.contains_key(key.value as u32),
            },
    {
        self.entities.get(key.to_u16() as u32)
    }

    /// The predicted copy of the pawn under `key`.
    pub fn get_pawn(&self, key: &LocalObjectKey) -> (r: Option<&Variant>)
        requires
            self.wf(),
        ensures
            match r {
                Some(v) => self@.pawns.contains_key(key.value as u32) && v@
                    == self@.pawns[key.value as u32],
                None => !self@.pawns.contains_key(key.value as u32),
            },
    {
        self.pawns.get(key.to_u16() as u32)
    }

    /// Writes property `index` of the predicted copy of the pawn under
    /// `key`. Nothing changes where there is no such pawn or property.
    pub fn write_pawn(&mut self, key: &LocalObjectKey, index: usize, bytes: Vec<u8>) -> (done: bool)
        requires
            old(self).wf(),
        ensures
            final(self).wf(),
            done == (old(self)@.pawns.contains_key(key.value as u32) && index < old(self)@.pawns[key.value as u32].props.len()),
            done ==> final(self)@ == pawn_written(old(self)@, key.value, index as int, bytes@),
            !done ==> final(self)@ == old(self)@,
    {
        let k = key.to_u16() as u32;
        let count = match self.pawns.get(k) {
            Some(pawn) => pawn.prop_count(),
            None => {
                return false;
            },
        };
        if index >= count {
            return false;
        }
        match self.pawns.remove(k) {
            Some(pawn) => {
                let mut pawn = pawn;
                let mut fields: Vec<Option<Vec<u8>>> = Vec::new();
                let mut i: usize = 0;
                while i < index
                    invariant
                        i <= index,
                        fields@.len() == i,
                        forall|j: int| 0 <= j < i ==> #[trigger] fields@[j] is None,
                    decreases index - i,
                {
                    fields.push(None);
                    i += 1;
                }
                fields.push(Some(bytes));
                let ghost before = pawn@.props;
                pawn.apply(fields);
                assert(pawn@.props =~= before.update(index as int, bytes@));
                self.pawns.insert(k, pawn);
                assert(self@.pawns =~= old(self)@.pawns.insert(k, pawn@));
                true
            },
            None => false,
        }
    }

    /// Sets the predicted copy of a pawn back to the server's state.
    pub fn pawn_reset(&mut self, pawn_key: &PawnKey)
        requires
            old(self).wf(),
        ensures
            final(self).wf(),
            final(self)@ == pawn_was_reset(old(self)@, *pawn_key),
    {
        match pawn_key {
            PawnKey::Object(key) => {
                let k = key.to_u16() as u32;
                if self.pawns.contains_key(k) {
                    let copy = match self.objects.get(k) {
                        Some(object) => object.copy(),
                        None => {
                            return ;
                        },
                    };
                    self.pawns.insert(k, copy);
                    assert(self@.pawns =~= old(self)@.pawns.insert(k, old(self)@.objects[k]));
                }
            },
            PawnKey::Entity(_) => {},
        }
    }

    /// The keys of the standalone objects, each once.
    pub fn object_keys(&self) -> (keys: Vec<LocalObjectKey>)
        requires
            self.wf(),
        ensures
            keys@.no_duplicates(),
            forall|k: u16|
                keys@.contains(LocalObjectKey { value: k }) <==> (self@.objects.contains_key(
                    k as u32,
                ) && !self@.owner.contains_key(k as u32)),
    {
        let mut keys: Vec<LocalObjectKey> = Vec::new();
        let mut i: usize = 0;
        let ghost all = self.objects.keys();
        while i < self.objects.len()
            invariant
                self.wf(),
                all == self.objects.keys(),
                i <= all.len(),
                keys@.no_duplicates(),
                forall|j: int|
                    0 <= j < keys@.len() ==> exists|a: int|
                        0 <= a < i && #[trigger] all[a] == (#[trigger] keys@[j]).value as u32,
                forall|a: int|
                    0 <= a < i && all[a] < 65536 && !self@.owner.contains_key(#[trigger] all[a])
                        ==> keys@.contains(LocalObjectKey { value: all[a] as u16 }),
                forall|j: int|
                    0 <= j < keys@.len() ==> !self@.owner.contains_key(
                        (#[trigger] keys@[j]).value as u32,
                    ),
            decreases all.len() - i,
        {
            let k = self.objects.key_at(i);
            if k < 65536 && !self.owner.contains_key(k) {
                let key = LocalObjectKey::from_u16(k as u16);
                let ghost before = keys@;
                proof {
                    if before.contains(key) {
                        let j = choose|j: int| 0 <= j < before.len() && before[j] == key;
                        let a = choose|a: int|
                            0 <= a < i && #[trigger] all[a] == (#[trigger] before[j]).value as u32;
                        assert(all[a] == all[i as int]);
                    }
                }
                keys.push(key);
                proof {
                    assert forall|j: int| 0 <= j < keys@.len() implies exists|a: int|
                        0 <= a < i + 1 && #[trigger] all[a] == (#[trigger] keys@[j]).value as u32 by {
                        if j < before.len() {
                            assert(keys@[j] == before[j]);
                            let a = choose|a: int|
                                0 <= a < i && #[trigger] all[a] == (
                                #[trigger] before[j]).value as u32;
                            assert(all[a] == keys@[j].value as u32);
                        } else {
                            assert(all[i as int] == keys@[j].value as u32);
                        }
                    }
                    assert forall|a: int|
                        0 <= a < i + 1 && all[a] < 65536 && !self@.owner.contains_key(
                            #[trigger] all[a],
                        ) implies keys@.contains(LocalObjectKey { value: all[a] as u16 }) by {
                        if a < i {
                            let j = choose|j: int|
                                0 <= j < before.len() && before[j] == (LocalObjectKey {
                                    value: all[a] as u16,
                                });
                            assert(keys@[j] == before[j]);
                        } else {
                            assert(keys@[before.len() as int] == key);
                        }
                    }
                    assert forall|j: int| 0 <= j < keys@.len() implies !self@.owner.contains_key(
                        (#[trigger] keys@[j]).value as u32,
                    ) by {
                        if j < before.len() {
                            assert(keys@[j] == before[j]);
                        }
                    }
                }
            }
            i += 1;
        }
        proof {
            assert forall|k: u16|
                keys@.contains(LocalObjectKey { value: k }) <==> (self@.objects.contains_key(
                    k as u32,
                ) && !self@.owner.contains_key(k as u32)) by {
                let key = LocalObjectKey { value: k };
                if keys@.contains(key) {
                    let j = choose|j: int| 0 <= j < keys@.len() && keys@[j] == key;
                    let a = choose|a: int|
                        0 <= a < i && #[trigger] all[a] == (#[trigger] keys@[j]).value as u32;
                    assert(all.contains(k as u32));
                }
                if self@.objects.contains_key(k as u32) && !self@.owner.contains_key(k as u32) {
                    let a = choose|a: int| 0 <= a < all.len() && all[a] == k as u32;
                    assert(keys@.contains(LocalObjectKey { value: all[a] as u16 }));
                }
            }
        }
        keys
    }

    /// The keys of the components, each once.
    pub fn component_keys(&self) -> (keys: Vec<LocalComponentKey>)
        requires
            self.wf(),
        ensures
            keys@.no_duplicates(),
            forall|k: u16|
                keys@.contains(LocalComponentKey { value: k }) <==> (self@.objects.contains_key(
                    k as u32,
                ) && self@.owner.contains_key(k as u32)),
    {
        let mut keys: Vec<LocalComponentKey> = Vec::new();
        let mut i: usize = 0;
        let ghost all = self.objects.keys();
        while i < self.objects.len()
            invariant
                self.wf(),
                all == self.objects.keys(),
                i <= all.len(),
                keys@.no_duplicates(),
                forall|j: int|
                    0 <= j < keys@.len() ==> exists|a: int|
                        0 <= a < i && #[trigger] all[a] == (#[trigger] keys@[j]).value as u32,
                forall|a: int|
                    0 <= a < i && all[a] < 65536 && self@.owner.contains_key(#[trigger] all[a])
                        ==> keys@.contains(LocalComponentKey { value: all[a] as u16 }),
                forall|j: int|
                    0 <= j < keys@.len() ==> self@.owner.contains_key(
                        (#[trigger] keys@[j]).value as u32,
                    ),
            decreases all.len() - i,
        {
            let k = self.objects.key_at(i);
            if k < 65536 && self.owner.contains_key(k) {
                let key = LocalComponentKey::from_u16(k as u16);
                let ghost before = keys@;
                proof {
                    if before.contains(key) {
                        let j = choose|j: int| 0 <= j < before.len() && before[j] == key;
                        let a = choose|a: int|
                            0 <= a < i && #[trigger] all[a] == (#[trigger] before[j]).value as u32;
                        assert(all[a] == all[i as int]);
                    }
                }
                keys.push(key);
                proof {
                    assert forall|j: int| 0 <= j < keys@.len() implies exists|a: int|
                        0 <= a < i + 1 && #[trigger] all[a] == (#[trigger] keys@[j]).value as u32 by {
                        if j < before.len() {
                            assert(keys@[j] == before[j]);
                            let a = choose|a: int|
                                0 <= a < i && #[trigger] all[a] == (
                                #[trigger] before[j]).value as u32;
                            assert(all[a] == keys@[j].value as u32);
                        } else {
                            assert(all[i as int] == keys@[j].value as u32);
                        }
                    }
                    assert forall|a: int|
                        0 <= a < i + 1 && all[a] < 65536 && self@.owner.contains_key(
                            #[trigger] all[a],
                        ) implies keys@.contains(LocalComponentKey { value: all[a] as u16 }) by {
                        if a < i {
                            let j = choose|j: int|
                                0 <= j < before.len() && before[j] == (LocalComponentKey {
                                    value: all[a] as u16,
                                });
                            assert(keys@[j] == before[j]);
                        } else {
                            assert(keys@[before.len() as int] == key);
                        }
                    }
                    assert forall|j: int| 0 <= j < keys@.len() implies self@.owner.contains_key(
                        (#[trigger] keys@[j]).value as u32,
                    ) by {
                        if j < before.len() {
                            assert(keys@[j] == before[j]);
                        }
                    }
                }
            }
            i += 1;
        }
        proof {
            assert forall|k: u16|
                keys@.contains(LocalComponentKey { value: k }) <==> (self@.objects.contains_key(
                    k as u32,
                ) && self@.owner.contains_key(k as u32)) by {
                let key = LocalComponentKey { value: k };
                if keys@.contains(key) {
                    let j = choose|j: int| 0 <= j < keys@.len() && keys@[j] == key;
                    let a = choose|a: int|
                        0 <= a < i && #[trigger] all[a] == (#[trigger] keys@[j]).value as u32;
                    assert(all.contains(k as u32));
                }
                if self@.objects.contains_key(k as u32) && self@.owner.contains_key(k as u32) {
                    let a = choose|a: int| 0 <= a < all.len() && all[a] == k as u32;
                    assert(keys@.contains(LocalComponentKey { value: all[a] as u16 }));
                }
            }
        }
        keys
    }

    /// The keys of the objects that are pawns, each once.
    pub fn pawn_keys(&self) -> (keys: Vec<LocalObjectKey>)
        requires
            self.wf(),
        ensures
            keys@.no_duplicates(),
            forall|k: u16|
                keys@.contains(LocalObjectKey { value: k }) <==> self@.pawns.contains_key(k as u32),
    {
        let mut keys: Vec<LocalObjectKey> = Vec::new();
        let mut i: usize = 0;
        let ghost all = self.pawns.keys();
        while i < self.pawns.len()
            invariant
                self.wf(),
                all == self.pawns.keys(),
                i <= all.len(),
                keys@.no_duplicates(),
                forall|j: int|
                    0 <= j < keys@.len() ==> exists|a: int|
                        0 <= a < i && #[trigger] all[a] == (#[trigger] keys@[j]).value as u32,
                forall|a: int|
                    0 <= a < i && #[trigger] all[a] < 65536 ==> keys@.contains(
                        LocalObjectKey { value: all[a] as u16 },
                    ),
            decreases all.len() - i,
        {
            let k = self.pawns.key_at(i);
            if k < 65536 {
                let key = LocalObjectKey::from_u16(k as u16);
                let ghost before = keys@;
                proof {
                    if before.contains(key) {
                        let j = choose|j: int| 0 <= j < before.len() && before[j] == key;
                        let a = choose|a: int|
                            0 <= a < i && #[trigger] all[a] == (#[trigger] before[j]).value as u32;
                        assert(all[a] == all[i as int]);
                    }
                }
                keys.push(key);
                proof {
                    assert forall|j: int| 0 <= j < keys@.len() implies exists|a: int|
                        0 <= a < i + 1 && #[trigger] all[a] == (#[trigger] keys@[j]).value as u32 by {
                        if j < before.len() {
                            assert(keys@[j] == before[j]);
                            let a = choose|a: int|
                                0 <= a < i && #[trigger] all[a] == (
                                #[trigger] before[j]).value as u32;
                            assert(all[a] == keys@[j].value as u32);
                        } else {
                            assert(all[i as int] == keys@[j].value as u32);
                        }
                    }
                    assert forall|a: int|
                        0 <= a < i + 1 && #[trigger] all[a] < 65536 implies keys@.contains(
                        LocalObjectKey { value: all[a] as u16 },
                    ) by {
                        if a < i {
                            let j = choose|j: int|
                                0 <= j < before.len() && before[j] == (LocalObjectKey {
                                    value: all[a] as u16,
                                });
                            assert(keys@[j] == before[j]);
                        } else {
                            assert(keys@[before.len() as int] == key);
                        }
                    }
                }
            }
            i += 1;
        }
        proof {
            assert forall|k: u16|
                keys@.contains(LocalObjectKey { value: k }) <==> self@.pawns.contains_key(
                    k as u32,
                ) by {
                let key = LocalObjectKey { value: k };
                if keys@.contains(key) {
                    let j = choose|j: int| 0 <= j < keys@.len() && keys@[j] == key;
                    let a = choose|a: int|
                        0 <= a < i && #[trigger] all[a] == (#[trigger] keys@[j]).value as u32;
                    assert(all.contains(k as u32));
                }
                if self@.pawns.contains_key(k as u32) {
                    let a = choose|a: int| 0 <= a < all.len() && all[a] == k as u32;
                    assert(keys@.contains(LocalObjectKey { value: all[a] as u16 }));
                }
            }
        }
        keys
    }

    /// Hands out the oldest event that waits for the application.
    pub fn pop_incoming_message(&mut self) -> (r: Option<ReplicateAction>)
        requires
            old(self).wf(),
        ensures
            final(self).wf(),
            match r {
                Some(action) => old(self)@.actions.len() > 0 && action@ == old(self)@.actions[0]
                    && final(self)@ == (ReplicaView {
                    actions: old(self)@.actions.drop_first(),
                    ..old(self)@
                }),
                None => old(self)@.actions.len() == 0 && final(self)@ == old(self)@,
            },
    {
        if self.queued_incoming_messages.len() == 0 {
            return None;
        }
        let action = self.queued_incoming_messages.remove(0);
        assert(self@.actions =~= old(self)@.actions.drop_first());
        Some(action)
    }
}

} // verus!
