//! A world that stores entities and their components for a server that has
//! no other store for them. The entities live in a dense slot map, which
//! hands out the entity keys; an entity's components are filed by the id of
//! their kind.

use crate::replicate_action::variants_of;
use crate::table::Table;
use crate::variant::{Variant, VariantView};
use vstd::prelude::*;

verus! {

/// The dense slot map that holds the entities of a world, each with the
/// table of its components.
#[verifier::external_body]
pub struct EntitySlots {
    inner: slotmap::DenseSlotMap<slotmap::DefaultKey, Table<Variant>>,
}

/// What a slot map of component tables holds: the table of each key, the
/// key taken as the 64-bit number that stands for it.
pub uninterp spec fn world_entities(m: EntitySlots) -> Map<u64, Table<Variant>>;

/// The number of entities that a world holds at most.
pub const MAX_ENTITIES: usize = 0xffff_fffe;

/// The number that stands for the key that a number is read as: a key's
/// version is odd, so its lowest bit is set on reading.
pub open spec fn canonical(key: u64) -> u64 {
    if (key / 0x1_0000_0000) % 2 == 1 {
        key
    } else {
        (key + 0x1_0000_0000) as u64
    }
}

/// The size of a finite set; none for an infinite one.
pub open spec fn finite_size(s: Set<u64>) -> Option<nat> {
    if s.finite() {
        Some(s.len())
    } else {
        None
    }
}

/// `DenseSlotMap::new`: a slot map that holds nothing.
#[verifier::external_body]
fn slots_new() -> (m: EntitySlots)
    ensures
        world_entities(m).dom() == Set::<u64>::empty(),
{
    EntitySlots { inner: slotmap::DenseSlotMap::new() }
}

/// `DenseSlotMap::len`: the number of keys that the slot map holds.
#[verifier::external_body]
fn slots_len(m: &EntitySlots) -> (n: usize)
    ensures
        Some(n as nat) == finite_size(world_entities(*m).dom()),
{
    m.inner.len()
}

/// `DenseSlotMap::contains_key`, on the key that `key` is read as by
/// `KeyData::from_ffi`.
#[verifier::external_body]
fn slots_contains(m: &EntitySlots, key: u64) -> (b:
    bool)
    ensures
        b == world_entities(*m).contains_key(canonical(key)),
{
    m.inner.contains_key(slotmap::DefaultKey::from(slotmap::KeyData::from_ffi(key)))
}

/// `DenseSlotMap::insert`: the value is filed under a key that the slot
/// map did not hold, and nothing else changes. The key comes back as the
/// number that `KeyData::as_ffi` gives for it. The call is documented to
/// panic on a slot map that holds 2^32 - 2 keys, so it is made on fewer.
#[verifier::external_body]
fn slots_insert(
    m: &mut EntitySlots,
    value: Table<Variant>,
) -> (key: u64)
    requires
        world_entities(*old(m)).dom().len() < MAX_ENTITIES,
    ensures
        canonical(key) == key && !world_entities(*old(m)).contains_key(key) && world_entities(
            *final(m),
        ) == world_entities(*old(m)).insert(key, value),
{
    slotmap::Key::data(&m.inner.insert(value)).as_ffi()
}

/// `DenseSlotMap::remove`: the value of the key comes back, if the slot map
/// held the key, and the key is gone.
#[verifier::external_body]
fn slots_remove(
    m: &mut EntitySlots,
    key: u64,
) -> (r: Option<Table<Variant>>)
    ensures
        r == (if world_entities(*old(m)).contains_key(canonical(key)) {
            Some(world_entities(*old(m))[canonical(key)])
        } else {
            None
        }) && world_entities(*final(m)) == world_entities(*old(m)).remove(canonical(key)),
{
    m.inner.remove(slotmap::DefaultKey::from(slotmap::KeyData::from_ffi(key)))
}

/// `DenseSlotMap::get`: the value of the key, if the slot map holds the
/// key.
#[verifier::external_body]
fn slots_get(m: &EntitySlots, key: u64) -> (r:
    Option<&Table<Variant>>)
    ensures
        match r {
            Some(v) => world_entities(*m).contains_key(canonical(key)) && *v == world_entities(
                *m,
            )[canonical(key)],
            None => !world_entities(*m).contains_key(canonical(key)),
        },
{
    m.inner.get(slotmap::DefaultKey::from(slotmap::KeyData::from_ffi(key)))
}

/// `DenseSlotMap::get_mut`: the value of the key to write to, if the slot
/// map holds the key; what is written is what the slot map holds for the
/// key afterwards.
#[verifier::external_body]
fn slots_get_mut(
    m: &mut EntitySlots,
    key: u64,
) -> (r: Option<&mut Table<Variant>>)
    ensures
        match r {
            Some(v) => world_entities(*old(m)).contains_key(canonical(key)) && *v
                == world_entities(*old(m))[canonical(key)] && world_entities(*final(m))
                == world_entities(*old(m)).insert(canonical(key), *final(v)),
            None => !world_entities(*old(m)).contains_key(canonical(key)) && world_entities(
                *final(m),
            ) == world_entities(*old(m)),
        },
{
    m.inner.get_mut(slotmap::DefaultKey::from(slotmap::KeyData::from_ffi(key)))
}

/// `DenseSlotMap::keys`: every key that the slot map holds, once, in the
/// order of the slot map's storage.
#[verifier::external_body]
fn slots_keys(m: &EntitySlots) -> (keys: Vec<u64>)
    ensures
        keys@.no_duplicates() && forall|k: u64|
            keys@.contains(k) <==> world_entities(*m).contains_key(k),
{
    m.inner.keys().map(|k| slotmap::Key::data(&k).as_ffi()).collect()
}

/// Whether a value is among the values of a map of components.
pub open spec fn held_in(components: Map<u32, VariantView>, v: VariantView) -> bool {
    exists|k: u32| #[trigger] components.contains_key(k) && components[k] == v
}

/// Whether a value is among the values of a list of components.
pub open spec fn listed_in(output: Seq<Variant>, v: VariantView) -> bool {
    exists|i: int| 0 <= i < output.len() && (#[trigger] output[i])@ == v
}

/// The key of an entity in a world.
#[derive(Clone, Copy, PartialEq, Eq, Debug, Hash, Structural)]
pub struct EntityKey {
    pub value: u64,
}

impl EntityKey {
    /// The key as the world reads it.
    pub fn canonical(&self) -> (k: EntityKey)
        ensures
            k.value == canonical(self.value),
    {
        if (self.value / 0x1_0000_0000) % 2 == 1 {
            *self
        } else {
            EntityKey { value: self.value + 0x1_0000_0000 }
        }
    }
}

/// A default World which stores Entities and their Components. It's
/// recommended to use this only when you do not have another ECS library's
/// own World available.
pub struct World {
    entities: EntitySlots,
}

/// The components of each entity by the id of their kind.
pub open spec fn components_of(entities: Map<u64, Table<Variant>>) -> Map<u64, Map<u32, VariantView>> {
    Map::new(|k: u64| entities.contains_key(k), |k: u64| variants_of(entities[k]@))
}

impl View for World {
    type V = Map<u64, Map<u32, VariantView>>;

    closed spec fn view(&self) -> Map<u64, Map<u32, VariantView>> {
        components_of(world_entities(self.entities))
    }
}

impl World {
    /// The component table of every entity is well formed.
    pub closed spec fn wf(&self) -> bool {
        forall|k: u64| #[trigger]
            world_entities(self.entities).contains_key(k) ==> world_entities(
                self.entities,
            )[k].wf()
    }

    /// Whether the world can take one more entity.
    pub open spec fn has_room(&self) -> bool {
        self@.dom().finite() && self@.dom().len() < MAX_ENTITIES
    }

    /// Create a new default World
    pub fn new() -> (w: Self)
        ensures
            w.wf(),
            w@ == Map::<u64, Map<u32, VariantView>>::empty(),
    {
        let w = World { entities: slots_new() };
        assert(w@ =~= Map::<u64, Map<u32, VariantView>>::empty());
        w
    }

    /// Whether the world holds the entity.
    pub fn has_entity(&self, entity_key: &EntityKey) -> (b: bool)
        ensures
            b == self@.contains_key(canonical(entity_key.value)),
    {
        slots_contains(&self.entities, entity_key.value)
    }

    /// The keys of all entities, each once.
    pub fn entities(&self) -> (keys: Vec<EntityKey>)
        ensures
            keys@.no_duplicates(),
            forall|k: u64| keys@.contains(EntityKey { value: k }) <==> self@.contains_key(k),
    {
        let raw = slots_keys(&self.entities);
        let mut output: Vec<EntityKey> = Vec::new();
        let mut i: usize = 0;
        while i < raw.len()
            invariant
                i <= raw@.len(),
                output@.len() == i,
                forall|j: int| 0 <= j < i ==> (#[trigger] output@[j]).value == raw@[j],
            decreases raw@.len() - i,
        {
            output.push(EntityKey { value: raw[i] });
            i += 1;
        }
        proof {
            assert forall|a: int, b: int|
                0 <= a < output@.len() && 0 <= b < output@.len() && a != b implies output@[a]
                != output@[b] by {
                assert(raw@[a] != raw@[b]);
            }
            assert forall|k: u64|
                output@.contains(EntityKey { value: k }) <==> self@.contains_key(k) by {
                if output@.contains(EntityKey { value: k }) {
                    let j = choose|j: int|
                        0 <= j < output@.len() && output@[j] == (EntityKey { value: k });
                    assert(raw@[j] == k);
                    assert(raw@.contains(k));
                }
                if self@.contains_key(k) {
                    assert(raw@.contains(k));
                    let j = choose|j: int| 0 <= j < raw@.len() && raw@[j] == k;
                    assert(output@[j] == (EntityKey { value: k }));
                }
            }
        }
        output
    }

    /// Adds an entity without components and hands out its key; none where
    /// the world is full.
    pub fn spawn_entity(&mut self) -> (r: Option<EntityKey>)
        requires
            old(self).wf(),
        ensures
            final(self).wf(),
            r is Some <==> old(self).has_room(),
            match r {
                Some(key) => !old(self)@.contains_key(key.value) && canonical(key.value)
                    == key.value && final(self)@ == old(self)@.insert(key.value, Map::empty()),
                None => final(self)@ == old(self)@,
            },
    {
        let count = slots_len(&self.entities);
        assert(self@.dom() =~= world_entities(self.entities).dom());
        if count >= MAX_ENTITIES {
            return None;
        }
        let components: Table<Variant> = Table::new();
        let key = slots_insert(&mut self.entities, components);
        proof {
            assert(variants_of(components@) =~= Map::<u32, VariantView>::empty());
            assert(self@ =~= old(self)@.insert(key, Map::empty()));
        }
        Some(EntityKey { value: key })
    }

    /// Removes an entity with its components.
    pub fn despawn_entity(&mut self, entity_key: &EntityKey)
        requires
            old(self).wf(),
        ensures
            final(self).wf(),
            final(self)@ == old(self)@.remove(canonical(entity_key.value)),
    {
        slots_remove(&mut self.entities, entity_key.value);
        assert(self@ =~= old(self)@.remove(canonical(entity_key.value)));
    }

    /// Whether the entity has a component of the kind `kind`.
    pub fn has_component(&self, entity_key: &EntityKey, kind: u16) -> (b: bool)
        requires
            self.wf(),
        ensures
            b == (self@.contains_key(canonical(entity_key.value)) && self@[canonical(
                entity_key.value,
            )].contains_key(kind as u32)),
    {
        self.has_component_of_type(entity_key, kind)
    }

    /// The entity's component of the kind `kind`, as it stands in the world.
    pub fn get_component(&self, entity_key: &EntityKey, kind: u16) -> (r: Option<&Variant>)
        requires
            self.wf(),
        ensures
            match r {
                Some(v) => self@.contains_key(canonical(entity_key.value)) && self@[canonical(
                    entity_key.value,
                )].contains_key(kind as u32) && v@ == self@[canonical(entity_key.value)][kind as u32],
                None => !(self@.contains_key(canonical(entity_key.value)) && self@[canonical(
                    entity_key.value,
                )].contains_key(kind as u32)),
            },
    {
        match slots_get(&self.entities, entity_key.value) {
            Some(component_map) => component_map.get(kind as u32),
            None => None,
        }
    }

    /// Whether the entity has a component of kind `component_type`.
    pub fn has_component_of_type(&self, entity_key: &EntityKey, component_type: u16) -> (b: bool)
        requires
            self.wf(),
        ensures
            b == (self@.contains_key(canonical(entity_key.value)) && self@[canonical(
                entity_key.value,
            )].contains_key(component_type as u32)),
    {
        match slots_get(&self.entities, entity_key.value) {
            Some(component_map) => component_map.contains_key(component_type as u32),
            None => false,
        }
    }

    /// A copy of the entity's component of kind `component_type`.
    pub fn get_component_from_type(&self, entity_key: &EntityKey, component_type: u16) -> (r:
        Option<Variant>)
        requires
            self.wf(),
        ensures
            match r {
                Some(v) => self@.contains_key(canonical(entity_key.value)) && self@[canonical(
                    entity_key.value,
                )].contains_key(component_type as u32) && v@ == self@[canonical(
                    entity_key.value,
                )][component_type as u32],
                None => !(self@.contains_key(canonical(entity_key.value)) && self@[canonical(
                    entity_key.value,
                )].contains_key(component_type as u32)),
            },
    {
        match slots_get(&self.entities, entity_key.value) {
            Some(component_map) => match component_map.get(component_type as u32) {
                Some(protocol) => Some(protocol.copy()),
                None => None,
            },
            None => None,
        }
    }

    /// Gives the entity a component, filed by the id of its kind. An entity
    /// has one component of a kind: the caller makes sure that the entity
    /// has none of this kind yet. Nothing changes where there is no such
    /// entity; the result says whether there is.
    pub fn insert_component(&mut self, entity_key: &EntityKey, component: Variant) -> (added: bool)
        requires
            old(self).wf(),
            !(old(self)@.contains_key(canonical(entity_key.value)) && old(self)@[canonical(
                entity_key.value,
            )].contains_key(component@.naia_id as u32)),
        ensures
            final(self).wf(),
            added == old(self)@.contains_key(canonical(entity_key.value)),
            added ==> final(self)@ == old(self)@.insert(
                canonical(entity_key.value),
                old(self)@[canonical(entity_key.value)].insert(
                    component@.naia_id as u32,
                    component@,
                ),
            ),
            !added ==> final(self)@ == old(self)@,
    {
        let kind = component.naia_id() as u32;
        let ghost key = canonical(entity_key.value);
        let ghost before = world_entities(self.entities);
        assert(old(self)@.contains_key(key) ==> old(self)@[key] == variants_of(before[key]@));
        let added = match slots_get_mut(&mut self.entities, entity_key.value) {
            Some(component_map) => {
                component_map.insert(kind, component);
                true
            },
            None => false,
        };
        proof {
            let after = world_entities(self.entities);
            if added {
                assert(variants_of(after[key]@) =~= variants_of(before[key]@).insert(
                    kind,
                    component@,
                ));
                assert(self@ =~= old(self)@.insert(
                    key,
                    old(self)@[key].insert(kind, component@),
                ));
            } else {
                assert(self@ =~= old(self)@);
            }
        }
        added
    }

    /// Takes the component of kind `component_type` from the entity.
    pub fn remove_component(&mut self, entity_key: &EntityKey, component_type: u16) -> (r: Option<
        Variant,
    >)
        requires
            old(self).wf(),
        ensures
            final(self).wf(),
            match r {
                Some(v) => old(self)@.contains_key(canonical(entity_key.value)) && old(self)@[canonical(entity_key.value)].contains_key(component_type as u32) && v@ == old(self)@[canonical(entity_key.value)][component_type as u32] && final(self)@ == old(self)@.insert(
                    canonical(entity_key.value),
                    old(self)@[canonical(entity_key.value)].remove(component_type as u32),
                ),
                None => !(old(self)@.contains_key(canonical(entity_key.value)) && old(self)@[canonical(entity_key.value)].contains_key(component_type as u32))
                    && final(self)@ == old(self)@,
            },
    {
        let ghost key = canonical(entity_key.value);
        let ghost before = world_entities(self.entities);
        let r = match slots_get_mut(&mut self.entities, entity_key.value) {
            Some(component_map) => component_map.remove(component_type as u32),
            None => None,
        };
        proof {
            let after = world_entities(self.entities);
            if r is Some {
                assert(variants_of(after[key]@) =~= variants_of(before[key]@).remove(
                    component_type as u32,
                ));
                assert(self@ =~= old(self)@.insert(
                    key,
                    old(self)@[key].remove(component_type as u32),
                ));
            } else {
                assert(self@ =~= old(self)@);
            }
        }
        r
    }

    /// Copies of the entity's components, each once; none for an entity
    /// that the world does not hold.
    pub fn get_components(&self, entity_key: &EntityKey) -> (output: Vec<Variant>)
        requires
            self.wf(),
        ensures
            !self@.contains_key(canonical(entity_key.value)) ==> output@.len() == 0,
            self@.contains_key(canonical(entity_key.value)) ==> {
                let components = self@[canonical(entity_key.value)];
                &&& components.dom().finite()
                &&& output@.len() == components.dom().len()
                &&& forall|i: int|
                    0 <= i < output@.len() ==> held_in(components, (#[trigger] output@[i])@)
                &&& forall|k: u32| #[trigger]
                    components.contains_key(k) ==> listed_in(output@, components[k])
            },
    {
        let mut output: Vec<Variant> = Vec::new();
        match slots_get(&self.entities, entity_key.value) {
            Some(component_map) => {
                proof {
                    component_map.lemma_dom_len();
                    assert(variants_of(component_map@).dom() =~= component_map@.dom());
                }
                let mut i: usize = 0;
                while i < component_map.len()
                    invariant
                        i <= component_map.keys().len(),
                        component_map.wf(),
                        output@.len() == i,
                        forall|j: int|
                            0 <= j < i ==> (#[trigger] output@[j])@ == component_map.values()[j]@,
                    decreases component_map.keys().len() - i,
                {
                    output.push(component_map.value_at(i).copy());
                    i += 1;
                }
                proof {
                    let components = self@[canonical(entity_key.value)];
                    assert forall|i: int| 0 <= i < output@.len() implies held_in(
                        components,
                        (#[trigger] output@[i])@,
                    ) by {
                        component_map.lemma_entry_at(i);
                        let k = component_map.keys()[i];
                        assert(components.contains_key(k) && components[k] == output@[i]@);
                    }
                    assert forall|k: u32| #[trigger] components.contains_key(k) implies listed_in(
                        output@,
                        components[k],
                    ) by {
                        crate::table::lemma_position_of(component_map.keys(), k);
                        let i = crate::table::position_of(component_map.keys(), k);
                        component_map.lemma_entry_at(i);
                        assert(output@[i]@ == components[k]);
                    }
                }
            },
            None => {},
        }
        output
    }
}

} // verus!
