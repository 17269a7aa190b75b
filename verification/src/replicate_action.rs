//! The actions by which a server tells a client of its replicated state,
//! as they stand on the wire and as the application sees them.

use crate::command_block::{read_pawn_key, take_pawn_key};
use crate::error::ProtocolError;
use crate::keys::{LocalComponentKey, LocalEntityKey, LocalObjectKey, PawnKey};
use crate::manifest::{take_kind, Manifest};
use crate::state_mask::{take_mask, StateMask, MAX_PROPERTIES};
use crate::table::Table;
use crate::variant::{fields_view, read_fields, take_fields, Variant, VariantView};
use crate::wire::{
    extended, lemma_take_many_done, lemma_take_many_start, lemma_take_many_step, take_many,
    take_u16, take_u8, PacketReader,
};
use vstd::prelude::*;

verus! {

/// What the application is told of the replicated state.
pub enum ReplicateAction {
    CreateObject(LocalObjectKey),
    UpdateObject(LocalObjectKey),
    DeleteObject(LocalObjectKey, Variant),
    AssignPawn(PawnKey),
    UnassignPawn(PawnKey),
    CreateEntity(LocalEntityKey, Vec<LocalComponentKey>),
    DeleteEntity(LocalEntityKey),
    AddComponent(LocalEntityKey, LocalComponentKey),
    RemoveComponent(LocalEntityKey, LocalComponentKey, Variant),
}

/// The abstract value of a `ReplicateAction`.
pub enum ActionView {
    CreateObject(LocalObjectKey),
    UpdateObject(LocalObjectKey),
    DeleteObject(LocalObjectKey, VariantView),
    AssignPawn(PawnKey),
    UnassignPawn(PawnKey),
    CreateEntity(LocalEntityKey, Seq<LocalComponentKey>),
    DeleteEntity(LocalEntityKey),
    AddComponent(LocalEntityKey, LocalComponentKey),
    RemoveComponent(LocalEntityKey, LocalComponentKey, VariantView),
}

impl View for ReplicateAction {
    type V = ActionView;

    open spec fn view(&self) -> ActionView {
        match *self {
            ReplicateAction::CreateObject(k) => ActionView::CreateObject(k),
            ReplicateAction::UpdateObject(k) => ActionView::UpdateObject(k),
            ReplicateAction::DeleteObject(k, v) => ActionView::DeleteObject(k, v@),
            ReplicateAction::AssignPawn(k) => ActionView::AssignPawn(k),
            ReplicateAction::UnassignPawn(k) => ActionView::UnassignPawn(k),
            ReplicateAction::CreateEntity(k, c) => ActionView::CreateEntity(k, c@),
            ReplicateAction::DeleteEntity(k) => ActionView::DeleteEntity(k),
            ReplicateAction::AddComponent(e, k) => ActionView::AddComponent(e, k),
            ReplicateAction::RemoveComponent(e, k, v) => ActionView::RemoveComponent(e, k, v@),
        }
    }
}

/// The abstract value of a list of actions.
pub open spec fn actions_view(list: Seq<ReplicateAction>) -> Seq<ActionView> {
    Seq::new(list.len(), |i: int| list[i]@)
}

/// The tag bytes of the action types.
pub const TAG_CREATE_OBJECT: u8 = 0;

pub const TAG_UPDATE_OBJECT: u8 = 1;

pub const TAG_DELETE_OBJECT: u8 = 2;

pub const TAG_ASSIGN_PAWN: u8 = 3;

pub const TAG_UNASSIGN_PAWN: u8 = 4;

pub const TAG_CREATE_ENTITY: u8 = 5;

pub const TAG_DELETE_ENTITY: u8 = 6;

pub const TAG_ADD_COMPONENT: u8 = 7;

pub const TAG_REMOVE_COMPONENT: u8 = 8;

/// A component as it comes with its entity: its key and its value.
pub struct ComponentMessage {
    pub key: u16,
    pub value: Variant,
}

/// One action as it stands in a packet.
pub enum ActionMessage {
    CreateObject { key: u16, value: Variant },
    UpdateObject { key: u16, fields: Vec<Option<Vec<u8>>> },
    DeleteObject { key: u16 },
    AssignPawn { pawn_key: PawnKey },
    UnassignPawn { pawn_key: PawnKey },
    CreateEntity { key: u16, components: Vec<ComponentMessage> },
    DeleteEntity { key: u16 },
    AddComponent { entity: u16, key: u16, value: Variant },
    RemoveComponent { key: u16 },
}

/// The abstract value of an `ActionMessage`.
pub enum ActionMessageView {
    CreateObject { key: u16, value: VariantView },
    UpdateObject { key: u16, fields: Seq<Option<Seq<u8>>> },
    DeleteObject { key: u16 },
    AssignPawn { pawn_key: PawnKey },
    UnassignPawn { pawn_key: PawnKey },
    CreateEntity { key: u16, components: Seq<(u16, VariantView)> },
    DeleteEntity { key: u16 },
    AddComponent { entity: u16, key: u16, value: VariantView },
    RemoveComponent { key: u16 },
}

/// The abstract value of a list of components.
pub open spec fn components_view(list: Seq<ComponentMessage>) -> Seq<(u16, VariantView)> {
    Seq::new(list.len(), |i: int| (list[i].key, list[i].value@))
}

impl View for ActionMessage {
    type V = ActionMessageView;

    open spec fn view(&self) -> ActionMessageView {
        match *self {
            ActionMessage::CreateObject { key, value } => ActionMessageView::CreateObject {
                key,
                value: value@,
            },
            ActionMessage::UpdateObject { key, fields } => ActionMessageView::UpdateObject {
                key,
                fields: fields_view(fields@),
            },
            ActionMessage::DeleteObject { key } => ActionMessageView::DeleteObject { key },
            ActionMessage::AssignPawn { pawn_key } => ActionMessageView::AssignPawn { pawn_key },
            ActionMessage::UnassignPawn { pawn_key } => ActionMessageView::UnassignPawn {
                pawn_key,
            },
            ActionMessage::CreateEntity { key, components } => ActionMessageView::CreateEntity {
                key,
                components: components_view(components@),
            },
            ActionMessage::DeleteEntity { key } => ActionMessageView::DeleteEntity { key },
            ActionMessage::AddComponent { entity, key, value } => ActionMessageView::AddComponent {
                entity,
                key,
                value: value@,
            },
            ActionMessage::RemoveComponent { key } => ActionMessageView::RemoveComponent { key },
        }
    }
}

/// The outcome of parsing one action.
pub type Parsed = Result<(ActionMessageView, int), ProtocolError>;

/// A key with a value of a registered kind at `pos`: the key, the id of the
/// kind, the body.
pub open spec fn take_keyed_value(prototypes: Seq<VariantView>, bytes: Seq<u8>, pos: int) -> Option<
    ((u16, VariantView), int),
> {
    match take_u16(bytes, pos) {
        Some((key, p1)) => match take_u16(bytes, p1) {
            Some((naia_id, p2)) => match take_kind(prototypes, bytes, p2, naia_id) {
                Some((value, p3)) => Some(((key, value), p3)),
                None => None,
            },
            None => None,
        },
        None => None,
    }
}

/// The payload of a creation of an object.
pub open spec fn take_create_object(prototypes: Seq<VariantView>, bytes: Seq<u8>, pos: int) -> Parsed {
    match take_keyed_value(prototypes, bytes, pos) {
        Some(((key, value), end)) => Ok((ActionMessageView::CreateObject { key, value }, end)),
        None => Err(ProtocolError::Malformed),
    }
}

/// The payload of an update: the key, the mask over the properties of the
/// object that the receiver holds under the key, and the fields that the
/// mask announces.
pub open spec fn take_update_object(objects: Map<u32, VariantView>, bytes: Seq<u8>, pos: int) -> Parsed {
    match take_u16(bytes, pos) {
        Some((key, p1)) => if !objects.contains_key(key as u32) {
            Err(ProtocolError::UnknownKey)
        } else if objects[key as u32].props.len() > MAX_PROPERTIES {
            Err(ProtocolError::Malformed)
        } else {
            match take_mask(bytes, p1, objects[key as u32].props.len() as int) {
                Some((mask, p2)) => match take_fields(bytes, p2, mask, 0) {
                    Some((fields, end)) => Ok(
                        (ActionMessageView::UpdateObject { key, fields }, end),
                    ),
                    None => Err(ProtocolError::Malformed),
                },
                None => Err(ProtocolError::Malformed),
            }
        },
        None => Err(ProtocolError::Malformed),
    }
}

/// The payload of the creation of an entity: its key, the number of its
/// components, and each component.
pub open spec fn take_create_entity(prototypes: Seq<VariantView>, bytes: Seq<u8>, pos: int) -> Parsed {
    match take_u16(bytes, pos) {
        Some((key, p1)) => match take_u8(bytes, p1) {
            Some((count, p2)) => match take_many(
                |b: Seq<u8>, p: int| take_keyed_value(prototypes, b, p),
                bytes,
                p2,
                count as nat,
            ) {
                Some((components, end)) => Ok(
                    (ActionMessageView::CreateEntity { key, components }, end),
                ),
                None => Err(ProtocolError::Malformed),
            },
            None => Err(ProtocolError::Malformed),
        },
        None => Err(ProtocolError::Malformed),
    }
}

/// The payload of the addition of a component: the key of the entity, then
/// the component.
pub open spec fn take_add_component(prototypes: Seq<VariantView>, bytes: Seq<u8>, pos: int) -> Parsed {
    match take_u16(bytes, pos) {
        Some((entity, p1)) => match take_keyed_value(prototypes, bytes, p1) {
            Some(((key, value), end)) => Ok(
                (ActionMessageView::AddComponent { entity, key, value }, end),
            ),
            None => Err(ProtocolError::Malformed),
        },
        None => Err(ProtocolError::Malformed),
    }
}

/// The action at `pos`: its tag and the payload of its type. The parse
/// depends on the objects that the receiver holds, for the shape of an
/// update.
pub open spec fn take_action(
    prototypes: Seq<VariantView>,
    objects: Map<u32, VariantView>,
    bytes: Seq<u8>,
    pos: int,
) -> Parsed {
    match take_u8(bytes, pos) {
        Some((tag, p1)) => if tag == TAG_CREATE_OBJECT {
            take_create_object(prototypes, bytes, p1)
        } else if tag == TAG_UPDATE_OBJECT {
            take_update_object(objects, bytes, p1)
        } else if tag == TAG_DELETE_OBJECT {
            match take_u16(bytes, p1) {
                Some((key, end)) => Ok((ActionMessageView::DeleteObject { key }, end)),
                None => Err(ProtocolError::Malformed),
            }
        } else if tag == TAG_ASSIGN_PAWN {
            match take_pawn_key(bytes, p1) {
                Some((pawn_key, end)) => Ok((ActionMessageView::AssignPawn { pawn_key }, end)),
                None => Err(ProtocolError::Malformed),
            }
        } else if tag == TAG_UNASSIGN_PAWN {
            match take_pawn_key(bytes, p1) {
                Some((pawn_key, end)) => Ok((ActionMessageView::UnassignPawn { pawn_key }, end)),
                None => Err(ProtocolError::Malformed),
            }
        } else if tag == TAG_CREATE_ENTITY {
            take_create_entity(prototypes, bytes, p1)
        } else if tag == TAG_DELETE_ENTITY {
            match take_u16(bytes, p1) {
                Some((key, end)) => Ok((ActionMessageView::DeleteEntity { key }, end)),
                None => Err(ProtocolError::Malformed),
            }
        } else if tag == TAG_ADD_COMPONENT {
            take_add_component(prototypes, bytes, p1)
        } else if tag == TAG_REMOVE_COMPONENT {
            match take_u16(bytes, p1) {
                Some((key, end)) => Ok((ActionMessageView::RemoveComponent { key }, end)),
                None => Err(ProtocolError::Malformed),
            }
        } else {
            Err(ProtocolError::Malformed)
        },
        None => Err(ProtocolError::Malformed),
    }
}

/// The objects of a table by their abstract values.
pub open spec fn variants_of(objects: Map<u32, Variant>) -> Map<u32, VariantView> {
    Map::new(|k: u32| objects.contains_key(k), |k: u32| objects[k]@)
}

/// What a read of one action leaves behind.
pub open spec fn action_outcome(
    before: PacketReader,
    after: PacketReader,
    expected: Parsed,
    got: Result<ActionMessage, ProtocolError>,
) -> bool {
    &&& after.wf()
    &&& after.data() == before.data()
    &&& match expected {
        Ok((message, end)) => got is Ok && got.unwrap()@ == message && after.pos() == end,
        Err(e) => got == Err::<ActionMessage, ProtocolError>(e) && after.pos() == before.pos(),
    }
}

fn read_keyed_value(reader: &mut PacketReader, manifest: &Manifest) -> (r: Option<(u16, Variant)>)
    requires
        old(reader).wf(),
        manifest.wf(),
    ensures
        final(reader).wf(),
        final(reader).data() == old(reader).data(),
        match take_keyed_value(
            manifest.entities().prototypes(),
            old(reader).data(),
            old(reader).pos(),
        ) {
            Some(((key, value), end)) => r is Some && r.unwrap().0 == key && r.unwrap().1@
                == value && final(reader).pos() == end,
            None => r is None && final(reader).pos() == old(reader).pos(),
        },
{
    let start = reader.get_cursor();
    let key = match reader.read_u16() {
        Some(v) => v,
        None => {
            return None;
        },
    };
    let naia_id = match reader.read_u16() {
        Some(v) => v,
        None => {
            reader.rewind(start);
            return None;
        },
    };
    match manifest.read_entity(naia_id, reader) {
        Some(value) => Some((key, value)),
        None => {
            reader.rewind(start);
            None
        },
    }
}

fn read_update_object(reader: &mut PacketReader, objects: &Table<Variant>) -> (r: Result<
    ActionMessage,
    ProtocolError,
>)
    requires
        old(reader).wf(),
        objects.wf(),
    ensures
        action_outcome(
            *old(reader),
            *final(reader),
            take_update_object(variants_of(objects@), old(reader).data(), old(reader).pos()),
            r,
        ),
{
    let start = reader.get_cursor();
    let key = match reader.read_u16() {
        Some(v) => v,
        None => {
            return Err(ProtocolError::Malformed);
        },
    };
    let count = match objects.get(key as u32) {
        Some(object) => object.prop_count(),
        None => {
            reader.rewind(start);
            return Err(ProtocolError::UnknownKey);
        },
    };
    if count > MAX_PROPERTIES {
        reader.rewind(start);
        return Err(ProtocolError::Malformed);
    }
    let mask = match StateMask::read(reader, count as u8) {
        Some(m) => m,
        None => {
            reader.rewind(start);
            return Err(ProtocolError::Malformed);
        },
    };
    match read_fields(reader, &mask) {
        Some(fields) => Ok(ActionMessage::UpdateObject { key, fields }),
        None => {
            reader.rewind(start);
            Err(ProtocolError::Malformed)
        },
    }
}

fn read_create_entity(reader: &mut PacketReader, manifest: &Manifest) -> (r: Result<
    ActionMessage,
    ProtocolError,
>)
    requires
        old(reader).wf(),
        manifest.wf(),
    ensures
        action_outcome(
            *old(reader),
            *final(reader),
            take_create_entity(
                manifest.entities().prototypes(),
                old(reader).data(),
                old(reader).pos(),
            ),
            r,
        ),
{
    let start = reader.get_cursor();
    let key = match reader.read_u16() {
        Some(v) => v,
        None => {
            return Err(ProtocolError::Malformed);
        },
    };
    let count = match reader.read_u8() {
        Some(v) => v,
        None => {
            reader.rewind(start);
            return Err(ProtocolError::Malformed);
        },
    };
    let ghost prototypes = manifest.entities().prototypes();
    let ghost bytes = reader.data();
    let ghost item = |b: Seq<u8>, p: int| take_keyed_value(prototypes, b, p);
    let ghost first = reader.pos();
    let ghost whole = take_many(item, bytes, first, count as nat);
    let mut components: Vec<ComponentMessage> = Vec::new();
    let mut i: u8 = 0;
    proof {
        lemma_take_many_start(item, bytes, first, count as nat);
        assert(components_view(components@) =~= Seq::empty());
    }
    while i < count
        invariant
            i <= count,
            reader.wf(),
            manifest.wf(),
            reader.data() == bytes,
            bytes == old(reader).data(),
            start == old(reader).pos(),
            start <= bytes.len(),
            prototypes == manifest.entities().prototypes(),
            item == |b: Seq<u8>, p: int| take_keyed_value(prototypes, b, p),
            whole == take_many(item, bytes, first, count as nat),
            take_create_entity(prototypes, bytes, start as int) == match whole {
                Some((components, end)) => Ok::<(ActionMessageView, int), ProtocolError>(
                    (ActionMessageView::CreateEntity { key, components }, end),
                ),
                None => Err::<(ActionMessageView, int), ProtocolError>(ProtocolError::Malformed),
            },
            whole == extended(
                components_view(components@),
                take_many(item, bytes, reader.pos(), (count - i) as nat),
            ),
        decreases count - i,
    {
        proof {
            lemma_take_many_step(
                item,
                bytes,
                components_view(components@),
                reader.pos(),
                (count - i) as nat,
            );
        }
        let ghost before = components_view(components@);
        assert(item(bytes, reader.pos()) == take_keyed_value(prototypes, bytes, reader.pos()));
        let (component_key, value) = match read_keyed_value(reader, manifest) {
            Some(v) => v,
            None => {
                reader.rewind(start);
                return Err(ProtocolError::Malformed);
            },
        };
        components.push(ComponentMessage { key: component_key, value });
        assert(components_view(components@) =~= before.push((component_key, value@)));
        i += 1;
    }
    proof {
        lemma_take_many_done(item, bytes, components_view(components@), reader.pos());
    }
    Ok(ActionMessage::CreateEntity { key, components })
}

/// Reads one action. An update is read against the objects that the
/// receiver holds.
pub fn read_action(reader: &mut PacketReader, manifest: &Manifest, objects: &Table<Variant>) -> (r:
    Result<ActionMessage, ProtocolError>)
    requires
        old(reader).wf(),
        manifest.wf(),
        objects.wf(),
    ensures
        action_outcome(
            *old(reader),
            *final(reader),
            take_action(
                manifest.entities().prototypes(),
                variants_of(objects@),
                old(reader).data(),
                old(reader).pos(),
            ),
            r,
        ),
{
    let start = reader.get_cursor();
    let tag = match reader.read_u8() {
        Some(v) => v,
        None => {
            return Err(ProtocolError::Malformed);
        },
    };
    let r = if tag == TAG_CREATE_OBJECT {
        match read_keyed_value(reader, manifest) {
            Some((key, value)) => Ok(ActionMessage::CreateObject { key, value }),
            None => Err(ProtocolError::Malformed),
        }
    } else if tag == TAG_UPDATE_OBJECT {
        read_update_object(reader, objects)
    } else if tag == TAG_DELETE_OBJECT {
        match reader.read_u16() {
            Some(key) => Ok(ActionMessage::DeleteObject { key }),
            None => Err(ProtocolError::Malformed),
        }
    } else if tag == TAG_ASSIGN_PAWN {
        match read_pawn_key(reader) {
            Some(pawn_key) => Ok(ActionMessage::AssignPawn { pawn_key }),
            None => Err(ProtocolError::Malformed),
        }
    } else if tag == TAG_UNASSIGN_PAWN {
        match read_pawn_key(reader) {
            Some(pawn_key) => Ok(ActionMessage::UnassignPawn { pawn_key }),
            None => Err(ProtocolError::Malformed),
        }
    } else if tag == TAG_CREATE_ENTITY {
        read_create_entity(reader, manifest)
    } else if tag == TAG_DELETE_ENTITY {
        match reader.read_u16() {
            Some(key) => Ok(ActionMessage::DeleteEntity { key }),
            None => Err(ProtocolError::Malformed),
        }
    } else if tag == TAG_ADD_COMPONENT {
        match reader.read_u16() {
            Some(entity) => match read_keyed_value(reader, manifest) {
                Some((key, value)) => Ok(ActionMessage::AddComponent { entity, key, value }),
                None => Err(ProtocolError::Malformed),
            },
            None => Err(ProtocolError::Malformed),
        }
    } else if tag == TAG_REMOVE_COMPONENT {
        match reader.read_u16() {
            Some(key) => Ok(ActionMessage::RemoveComponent { key }),
            None => Err(ProtocolError::Malformed),
        }
    } else {
        Err(ProtocolError::Malformed)
    };
    if r.is_err() {
        reader.rewind(start);
    }
    r
}

} // verus!
