//! The 16-bit keys under which one side of a connection knows the other
//! side's objects, entities and components.

use vstd::prelude::*;

verus! {

/// The key of a standalone replicated object.
#[derive(Clone, Copy, PartialEq, Eq, Debug, Hash, Structural)]
pub struct LocalObjectKey {
    pub value: u16,
}

/// The key of a replicated entity.
#[derive(Clone, Copy, PartialEq, Eq, Debug, Hash, Structural)]
pub struct LocalEntityKey {
    pub value: u16,
}

/// The key of a component of a replicated entity. Components share the key
/// space of objects.
#[derive(Clone, Copy, PartialEq, Eq, Debug, Hash, Structural)]
pub struct LocalComponentKey {
    pub value: u16,
}

/// What a client controls: an object or an entity.
#[derive(Clone, Copy, PartialEq, Eq, Debug, Hash, Structural)]
pub enum PawnKey {
    Object(LocalObjectKey),
    Entity(LocalEntityKey),
}

impl LocalObjectKey {
    pub fn from_u16(value: u16) -> (k: Self)
        ensures
            k.value == value,
    {
        LocalObjectKey { value }
    }

    pub fn to_u16(&self) -> (v: u16)
        ensures
            v == self.value,
    {
        self.value
    }
}

impl LocalEntityKey {
    pub fn from_u16(value: u16) -> (k: Self)
        ensures
            k.value == value,
    {
        LocalEntityKey { value }
    }

    pub fn to_u16(&self) -> (v: u16)
        ensures
            v == self.value,
    {
        self.value
    }
}

impl LocalComponentKey {
    pub fn from_u16(value: u16) -> (k: Self)
        ensures
            k.value == value,
    {
        LocalComponentKey { value }
    }

    pub fn to_u16(&self) -> (v: u16)
        ensures
            v == self.value,
    {
        self.value
    }
}

/// The number under which a table files a pawn: objects first, entities
/// after them.
pub open spec fn pawn_index(key: PawnKey) -> u32 {
    match key {
        PawnKey::Object(k) => k.value as u32,
        PawnKey::Entity(k) => (65536 + k.value) as u32,
    }
}

/// The pawn that a table files under `index`.
pub open spec fn pawn_of_index(index: u32) -> PawnKey {
    if index < 65536 {
        PawnKey::Object(LocalObjectKey { value: index as u16 })
    } else {
        PawnKey::Entity(LocalEntityKey { value: (index - 65536) as u16 })
    }
}

/// Distinct pawns are filed under distinct numbers.
pub proof fn lemma_pawn_index_injective(a: PawnKey, b: PawnKey)
    ensures
        pawn_of_index(pawn_index(a)) == a,
        pawn_index(a) < 131072,
        pawn_index(a) == pawn_index(b) <==> a == b,
{
}

/// The index of the first pair for `pawn_key` in a list of pairs, or the
/// list's length.
pub open spec fn pawn_position<V>(list: Seq<(PawnKey, V)>, pawn_key: PawnKey) -> int
    decreases list.len(),
{
    if list.len() == 0 {
        0
    } else if list[0].0 == pawn_key {
        0
    } else {
        1 + pawn_position(list.drop_first(), pawn_key)
    }
}

pub proof fn lemma_pawn_position<V>(list: Seq<(PawnKey, V)>, pawn_key: PawnKey)
    ensures
        0 <= pawn_position(list, pawn_key) <= list.len(),
        pawn_position(list, pawn_key) < list.len() ==> list[pawn_position(list, pawn_key)].0
            == pawn_key,
        forall|i: int| 0 <= i < pawn_position(list, pawn_key) ==> (#[trigger] list[i]).0 != pawn_key,
    decreases list.len(),
{
    if list.len() > 0 && list[0].0 != pawn_key {
        let rest = list.drop_first();
        lemma_pawn_position(rest, pawn_key);
        let p = pawn_position(rest, pawn_key);
        assert forall|i: int| 0 <= i < 1 + p implies (#[trigger] list[i]).0 != pawn_key by {
            if i > 0 {
                assert(list[i] == rest[i - 1]);
            }
        }
        if p < rest.len() {
            assert(list[1 + p] == rest[p]);
        }
    }
}

impl PawnKey {
    /// The 16-bit key, without its kind.
    pub fn to_u16(&self) -> (v: u16)
        ensures
            v == match *self {
                PawnKey::Object(k) => k.value,
                PawnKey::Entity(k) => k.value,
            },
    {
        match self {
            PawnKey::Object(k) => k.value,
            PawnKey::Entity(k) => k.value,
        }
    }

    /// The number under which a table files this pawn.
    pub fn index(&self) -> (i: u32)
        ensures
            i == pawn_index(*self),
    {
        match self {
            PawnKey::Object(k) => k.value as u32,
            PawnKey::Entity(k) => 65536 + k.value as u32,
        }
    }

    /// The pawn that a table files under `index`.
    pub fn from_index(index: u32) -> (k: PawnKey)
        requires
            index < 131072,
        ensures
            k == pawn_of_index(index),
    {
        if index < 65536 {
            PawnKey::Object(LocalObjectKey { value: index as u16 })
        } else {
            PawnKey::Entity(LocalEntityKey { value: (index - 65536) as u16 })
        }
    }
}

} // verus!
