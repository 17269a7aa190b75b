//! What a client keeps of one replicated entity: the keys of its
//! components, each with the kind of the component, and whether the entity
//! is predicted locally.

use crate::keys::LocalComponentKey;
use vstd::prelude::*;

verus! {

/// A component of an entity: its kind and its key.
#[derive(Clone, Copy, PartialEq, Eq, Debug, Structural)]
pub struct ComponentEntry {
    pub kind: u16,
    pub key: LocalComponentKey,
}

/// The abstract value of an entity record.
pub struct EntityView {
    /// The components in the order in which they were added, each as its
    /// kind and its key.
    pub components: Seq<(u16, u16)>,
    pub is_prediction: bool,
}

pub open spec fn entries_view(list: Seq<ComponentEntry>) -> Seq<(u16, u16)> {
    Seq::new(list.len(), |i: int| (list[i].kind, list[i].key.value))
}

/// The index of the first component of kind `kind`, or the list's length.
pub open spec fn kind_position(components: Seq<(u16, u16)>, kind: u16) -> int
    decreases components.len(),
{
    if components.len() == 0 {
        0
    } else if components[0].0 == kind {
        0
    } else {
        1 + kind_position(components.drop_first(), kind)
    }
}

/// The components without those under `key`.
pub open spec fn without_key(components: Seq<(u16, u16)>, key: u16) -> Seq<(u16, u16)>
    decreases components.len(),
{
    if components.len() == 0 {
        Seq::empty()
    } else {
        let front = without_key(components.drop_last(), key);
        if components.last().1 == key {
            front
        } else {
            front.push(components.last())
        }
    }
}

/// The keys of a list of components.
pub open spec fn keys_of(components: Seq<(u16, u16)>) -> Seq<LocalComponentKey> {
    Seq::new(components.len(), |i: int| LocalComponentKey { value: components[i].1 })
}

pub struct EntityRecord {
    component_record: Vec<ComponentEntry>,
    pub is_prediction: bool,
}

impl View for EntityRecord {
    type V = EntityView;

    closed spec fn view(&self) -> EntityView {
        EntityView {
            components: entries_view(self.component_record@),
            is_prediction: self.is_prediction,
        }
    }
}

impl EntityRecord {
    pub fn new() -> (r: Self)
        ensures
            r@ == (EntityView { components: Seq::empty(), is_prediction: false }),
    {
        let r = EntityRecord { component_record: Vec::new(), is_prediction: false };
        assert(r@.components =~= Seq::empty());
        r
    }

    /// Whether the entity is predicted locally.
    pub fn is_prediction(&self) -> (b: bool)
        ensures
            b == self@.is_prediction,
    {
        self.is_prediction
    }

    /// Marks or unmarks the entity as predicted locally.
    pub fn set_prediction(&mut self, value: bool)
        ensures
            final(self)@ == (EntityView { is_prediction: value, ..old(self)@ }),
    {
        self.is_prediction = value;
    }

    /// The key of the first component of kind `kind`.
    pub fn get_key_from_type(&self, kind: u16) -> (r: Option<LocalComponentKey>)
        ensures
            match r {
                Some(key) => kind_position(self@.components, kind) < self@.components.len()
                    && key.value == self@.components[kind_position(self@.components, kind)].1,
                None => kind_position(self@.components, kind) >= self@.components.len(),
            },
    {
        let mut i: usize = 0;
        let ghost whole = self@.components;
        assert(whole.subrange(0, whole.len() as int) =~= whole);
        while i < self.component_record.len()
            invariant
                i <= self.component_record@.len(),
                whole == self@.components,
                kind_position(whole, kind) == i + kind_position(
                    whole.subrange(i as int, whole.len() as int),
                    kind,
                ),
            decreases self.component_record@.len() - i,
        {
            let ghost rest = whole.subrange(i as int, whole.len() as int);
            assert(rest[0] == whole[i as int]);
            assert(rest.drop_first() =~= whole.subrange(i + 1, whole.len() as int));
            if self.component_record[i].kind == kind {
                return Some(self.component_record[i].key);
            }
            i += 1;
        }
        assert(whole.subrange(i as int, whole.len() as int).len() == 0);
        None
    }

    /// Adds a component of kind `kind` under `key`.
    pub fn insert_component(&mut self, key: &LocalComponentKey, kind: u16)
        ensures
            final(self)@ == (EntityView {
                components: old(self)@.components.push((kind, key.value)),
                ..old(self)@
            }),
    {
        self.component_record.push(ComponentEntry { kind, key: *key });
        assert(self@.components =~= old(self)@.components.push((kind, key.value)));
    }

    /// Removes the component under `key`.
    pub fn remove_component(&mut self, key: &LocalComponentKey)
        ensures
            final(self)@ == (EntityView {
                components: without_key(old(self)@.components, key.value),
                ..old(self)@
            }),
    {
        let mut kept: Vec<ComponentEntry> = Vec::new();
        let mut i: usize = 0;
        let ghost all = self@.components;
        assert(entries_view(kept@) =~= Seq::empty());
        while i < self.component_record.len()
            invariant
                i <= self.component_record@.len(),
                all == self@.components,
                self@ == old(self)@,
                entries_view(kept@) == without_key(all.subrange(0, i as int), key.value),
            decreases self.component_record@.len() - i,
        {
            let entry = self.component_record[i];
            let ghost before = entries_view(kept@);
            proof {
                let part = all.subrange(0, i + 1);
                assert(part.drop_last() =~= all.subrange(0, i as int));
                assert(part.last() == all[i as int]);
            }
            if entry.key.value != key.value {
                kept.push(entry);
                assert(entries_view(kept@) =~= before.push(all[i as int]));
            }
            i += 1;
        }
        assert(all.subrange(0, i as int) =~= all);
        self.component_record = kept;
    }

    /// The keys of the components, in the order in which they were added.
    pub fn get_component_keys(&self) -> (keys: Vec<LocalComponentKey>)
        ensures
            keys@ == keys_of(self@.components),
    {
        let mut keys: Vec<LocalComponentKey> = Vec::new();
        let mut i: usize = 0;
        while i < self.component_record.len()
            invariant
                i <= self.component_record@.len(),
                keys@ == keys_of(self@.components).subrange(0, i as int),
            decreases self.component_record@.len() - i,
        {
            keys.push(self.component_record[i].key);
            i += 1;
            assert(keys@ =~= keys_of(self@.components).subrange(0, i as int));
        }
        assert(keys_of(self@.components).subrange(0, i as int) =~= keys_of(self@.components));
        keys
    }

    /// A copy of the record.
    pub fn copy(&self) -> (r: EntityRecord)
        ensures
            r@ == self@,
    {
        let mut list: Vec<ComponentEntry> = Vec::new();
        let mut i: usize = 0;
        while i < self.component_record.len()
            invariant
                i <= self.component_record@.len(),
                list@ == self.component_record@.subrange(0, i as int),
            decreases self.component_record@.len() - i,
        {
            list.push(self.component_record[i]);
            i += 1;
            assert(list@ =~= self.component_record@.subrange(0, i as int));
        }
        assert(self.component_record@.subrange(0, i as int) =~= self.component_record@);
        EntityRecord { component_record: list, is_prediction: self.is_prediction }
    }
}

} // verus!
