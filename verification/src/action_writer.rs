//! The wire form of the actions that a server sends of its replicated
//! state.

use crate::command_block::{encode_pawn_key, write_pawn_key};
use crate::error::ProtocolError;
use crate::keys::PawnKey;
use crate::replicate_action::{
    take_action, ActionMessageView, TAG_ADD_COMPONENT, TAG_ASSIGN_PAWN, TAG_CREATE_ENTITY,
    TAG_CREATE_OBJECT, TAG_DELETE_ENTITY, TAG_DELETE_OBJECT, TAG_REMOVE_COMPONENT,
    TAG_UNASSIGN_PAWN, TAG_UPDATE_OBJECT,
};
use crate::state_mask::{lemma_mask_round_trip, packed, packed_len, StateMask};
use crate::variant::{
    encodable, encode_fields, encode_variant, lemma_fields_round_trip, lemma_variant_round_trip,
    masked_fields, Variant, VariantView,
};
use crate::wire::{lemma_u16_round_trip, u16_bytes, write_u16};
use vstd::prelude::*;

verus! {

/// One action as the server sends it.
pub enum SentAction {
    CreateObject { key: u16, value: VariantView },
    UpdateObject { key: u16, mask: Seq<bool>, props: Seq<Seq<u8>> },
    DeleteObject { key: u16 },
    AssignPawn { pawn_key: PawnKey },
    UnassignPawn { pawn_key: PawnKey },
    CreateEntity { key: u16, components: Seq<(u16, VariantView)> },
    DeleteEntity { key: u16 },
    AddComponent { entity: u16, key: u16, value: VariantView },
    RemoveComponent { key: u16 },
}

/// The bytes of a key with a value: the key, the id of the kind, the body.
pub open spec fn encode_keyed_value(key: u16, value: VariantView) -> Seq<u8> {
    u16_bytes(key) + u16_bytes(value.naia_id) + encode_variant(value.props)
}

/// The bytes of the components of a new entity, in order.
pub open spec fn encode_components(components: Seq<(u16, VariantView)>) -> Seq<u8>
    decreases components.len(),
{
    if components.len() == 0 {
        Seq::empty()
    } else {
        encode_components(components.drop_last()) + encode_keyed_value(
            components.last().0,
            components.last().1,
        )
    }
}

/// The bytes of an action: its tag and its payload.
pub open spec fn encode_action(a: SentAction) -> Seq<u8> {
    match a {
        SentAction::CreateObject { key, value } => seq![TAG_CREATE_OBJECT] + encode_keyed_value(
            key,
            value,
        ),
        SentAction::UpdateObject { key, mask, props } => seq![TAG_UPDATE_OBJECT] + u16_bytes(key)
            + packed(mask) + encode_fields(props, mask, 0),
        SentAction::DeleteObject { key } => seq![TAG_DELETE_OBJECT] + u16_bytes(key),
        SentAction::AssignPawn { pawn_key } => seq![TAG_ASSIGN_PAWN] + encode_pawn_key(pawn_key),
        SentAction::UnassignPawn { pawn_key } => seq![TAG_UNASSIGN_PAWN] + encode_pawn_key(
            pawn_key,
        ),
        SentAction::CreateEntity { key, components } => seq![TAG_CREATE_ENTITY] + u16_bytes(key)
            + seq![components.len() as u8] + encode_components(components),
        SentAction::DeleteEntity { key } => seq![TAG_DELETE_ENTITY] + u16_bytes(key),
        SentAction::AddComponent { entity, key, value } => seq![TAG_ADD_COMPONENT] + u16_bytes(
            entity,
        ) + encode_keyed_value(key, value),
        SentAction::RemoveComponent { key } => seq![TAG_REMOVE_COMPONENT] + u16_bytes(key),
    }
}

/// Appends a key with a value.
pub fn write_keyed_value(out: &mut Vec<u8>, key: u16, value: &Variant)
    requires
        value.wf(),
    ensures
        final(out)@ == old(out)@ + encode_keyed_value(key, value@),
{
    write_u16(out, key);
    write_u16(out, value.naia_id());
    value.write_full(out);
    assert(out@ =~= old(out)@ + encode_keyed_value(key, value@));
}

/// Appends the creation of an object.
pub fn write_create_object(out: &mut Vec<u8>, key: u16, value: &Variant)
    requires
        value.wf(),
    ensures
        final(out)@ == old(out)@ + encode_action(
            SentAction::CreateObject { key, value: value@ },
        ),
{
    out.push(TAG_CREATE_OBJECT);
    write_keyed_value(out, key, value);
    assert(out@ =~= old(out)@ + encode_action(SentAction::CreateObject { key, value: value@ }));
}

/// Appends an update with the properties of `value` that `mask` names.
pub fn write_update_object(out: &mut Vec<u8>, key: u16, mask: &StateMask, value: &Variant)
    requires
        value.wf(),
        mask.wf(),
    ensures
        final(out)@ == old(out)@ + encode_action(
            SentAction::UpdateObject { key, mask: mask@, props: value@.props },
        ),
{
    out.push(TAG_UPDATE_OBJECT);
    write_u16(out, key);
    mask.write(out);
    value.write_partial(mask, out);
    assert(out@ =~= old(out)@ + encode_action(
        SentAction::UpdateObject { key, mask: mask@, props: value@.props },
    ));
}

/// Appends the deletion of an object.
pub fn write_delete_object(out: &mut Vec<u8>, key: u16)
    ensures
        final(out)@ == old(out)@ + encode_action(SentAction::DeleteObject { key }),
{
    out.push(TAG_DELETE_OBJECT);
    write_u16(out, key);
    assert(out@ =~= old(out)@ + encode_action(SentAction::DeleteObject { key }));
}

/// Appends the deletion of an entity.
pub fn write_delete_entity(out: &mut Vec<u8>, key: u16)
    ensures
        final(out)@ == old(out)@ + encode_action(SentAction::DeleteEntity { key }),
{
    out.push(TAG_DELETE_ENTITY);
    write_u16(out, key);
    assert(out@ =~= old(out)@ + encode_action(SentAction::DeleteEntity { key }));
}

/// Appends the removal of a component.
pub fn write_remove_component(out: &mut Vec<u8>, key: u16)
    ensures
        final(out)@ == old(out)@ + encode_action(SentAction::RemoveComponent { key }),
{
    out.push(TAG_REMOVE_COMPONENT);
    write_u16(out, key);
    assert(out@ =~= old(out)@ + encode_action(SentAction::RemoveComponent { key }));
}

/// Appends the assignment of a pawn.
pub fn write_assign_pawn(out: &mut Vec<u8>, pawn_key: &PawnKey)
    ensures
        final(out)@ == old(out)@ + encode_action(SentAction::AssignPawn { pawn_key: *pawn_key }),
{
    out.push(TAG_ASSIGN_PAWN);
    write_pawn_key(out, pawn_key);
    assert(out@ =~= old(out)@ + encode_action(SentAction::AssignPawn { pawn_key: *pawn_key }));
}

/// Appends the end of the assignment of a pawn.
pub fn write_unassign_pawn(out: &mut Vec<u8>, pawn_key: &PawnKey)
    ensures
        final(out)@ == old(out)@ + encode_action(
            SentAction::UnassignPawn { pawn_key: *pawn_key },
        ),
{
    out.push(TAG_UNASSIGN_PAWN);
    write_pawn_key(out, pawn_key);
    assert(out@ =~= old(out)@ + encode_action(SentAction::UnassignPawn { pawn_key: *pawn_key }));
}

/// Appends the addition of a component to the entity under `entity`.
pub fn write_add_component(out: &mut Vec<u8>, entity: u16, key: u16, value: &Variant)
    requires
        value.wf(),
    ensures
        final(out)@ == old(out)@ + encode_action(
            SentAction::AddComponent { entity, key, value: value@ },
        ),
{
    out.push(TAG_ADD_COMPONENT);
    write_u16(out, entity);
    write_keyed_value(out, key, value);
    assert(out@ =~= old(out)@ + encode_action(
        SentAction::AddComponent { entity, key, value: value@ },
    ));
}

/// An update that a sender writes is read by a receiver that holds the
/// object with as many properties: it reads the key and, for each property
/// that the mask names, the sender's bytes.
pub proof fn lemma_update_round_trip(
    prototypes: Seq<VariantView>,
    objects: Map<u32, VariantView>,
    key: u16,
    mask: Seq<bool>,
    props: Seq<Seq<u8>>,
    tail: Seq<u8>,
)
    requires
        encodable(props),
        mask.len() == props.len(),
        objects.contains_key(key as u32),
        objects[key as u32].props.len() == props.len(),
    ensures
        take_action(
            prototypes,
            objects,
            encode_action(SentAction::UpdateObject { key, mask, props }) + tail,
            0,
        ) == Ok::<(ActionMessageView, int), ProtocolError>(
            (
                ActionMessageView::UpdateObject { key, fields: masked_fields(props, mask) },
                encode_action(SentAction::UpdateObject { key, mask, props }).len() as int,
            ),
        ),
{
    let body = encode_fields(props, mask, 0);
    let head = seq![TAG_UPDATE_OBJECT] + u16_bytes(key) + packed(mask);
    let action = encode_action(SentAction::UpdateObject { key, mask, props });
    let bytes = action + tail;
    assert(action =~= head + body);
    assert(bytes =~= head + body + tail);
    assert(bytes[0] == TAG_UPDATE_OBJECT);
    assert(bytes.subrange(1, 3) =~= u16_bytes(key));
    lemma_u16_round_trip(key, bytes, 1);
    let n = props.len() as int;
    assert(packed(mask).len() == packed_len(n));
    assert(bytes.subrange(3, 3 + packed_len(n)) =~= packed(mask));
    lemma_mask_round_trip(mask, bytes, 3);
    assert(head.len() == 3 + packed_len(n));
    lemma_fields_round_trip(head, tail, props, mask, 0);
    assert(masked_fields(props, mask).subrange(0, mask.len() as int) =~= masked_fields(
        props,
        mask,
    ));
}

/// The creation of an object that a sender writes is read by a receiver
/// whose manifest holds the kind with as many properties: it reads the key
/// and the sender's value.
pub proof fn lemma_create_object_round_trip(
    prototypes: Seq<VariantView>,
    objects: Map<u32, VariantView>,
    key: u16,
    value: VariantView,
    tail: Seq<u8>,
)
    requires
        encodable(value.props),
        value.naia_id < prototypes.len(),
        prototypes[value.naia_id as int].props.len() == value.props.len(),
    ensures
        take_action(
            prototypes,
            objects,
            encode_action(SentAction::CreateObject { key, value }) + tail,
            0,
        ) == Ok::<(ActionMessageView, int), ProtocolError>(
            (
                ActionMessageView::CreateObject { key, value },
                encode_action(SentAction::CreateObject { key, value }).len() as int,
            ),
        ),
{
    let head = seq![TAG_CREATE_OBJECT] + u16_bytes(key) + u16_bytes(value.naia_id);
    let action = encode_action(SentAction::CreateObject { key, value });
    let bytes = action + tail;
    assert(action =~= head + encode_variant(value.props));
    assert(bytes =~= head + encode_variant(value.props) + tail);
    assert(bytes[0] == TAG_CREATE_OBJECT);
    assert(bytes.subrange(1, 3) =~= u16_bytes(key));
    assert(bytes.subrange(3, 5) =~= u16_bytes(value.naia_id));
    lemma_u16_round_trip(key, bytes, 1);
    lemma_u16_round_trip(value.naia_id, bytes, 3);
    lemma_variant_round_trip(head, tail, value.naia_id, value.props);
}

} // verus!
