//! The registry of protocol variants. Registration gives each kind the next
//! 16-bit id, which it keeps: a type that is registered again stays under
//! the id it has. The manifest maps a type to its id and an id to a fresh
//! instance of the kind. Events (messages and commands) and entities
//! (replicated state) are registered apart and numbered apart.

use crate::variant::{encodable, take_variant, Variant, VariantView};
use crate::wire::PacketReader;
use vstd::prelude::*;

verus! {

/// One registered kind.
pub struct Kind {
    pub type_id: u64,
    pub guaranteed: bool,
    pub prototype: Variant,
}

/// The kinds of one registry, by id.
pub struct Registry {
    kinds: Vec<Kind>,
}

impl Registry {
    /// The type of each kind, by id.
    pub closed spec fn type_ids(&self) -> Seq<u64> {
        Seq::new(self.kinds@.len(), |i: int| self.kinds@[i].type_id)
    }

    /// The prototype of each kind, by id.
    pub closed spec fn prototypes(&self) -> Seq<VariantView> {
        Seq::new(self.kinds@.len(), |i: int| self.kinds@[i].prototype@)
    }

    /// Whether each kind asks for guaranteed delivery, by id.
    pub closed spec fn guarantees(&self) -> Seq<bool> {
        Seq::new(self.kinds@.len(), |i: int| self.kinds@[i].guaranteed)
    }

    /// The number of kinds.
    pub open spec fn count(&self) -> nat {
        self.type_ids().len()
    }

    /// Ids fit in 16 bits, no type is registered twice, and each kind has
    /// its type, its prototype and its guarantee under its id; a prototype
    /// carries its own id and can be written to the wire.
    pub open spec fn wf(&self) -> bool {
        &&& self.count() <= 65535
        &&& self.prototypes().len() == self.count()
        &&& self.guarantees().len() == self.count()
        &&& self.type_ids().no_duplicates()
        &&& forall|i: int|
            0 <= i < self.prototypes().len() ==> (#[trigger] self.prototypes()[i]).naia_id == i
                && encodable(self.prototypes()[i].props)
    }

    /// A registry without kinds.
    pub fn new() -> (r: Registry)
        ensures
            r.wf(),
            r.type_ids() == Seq::<u64>::empty(),
            r.prototypes() == Seq::<VariantView>::empty(),
            r.guarantees() == Seq::<bool>::empty(),
    {
        let r = Registry { kinds: Vec::new() };
        assert(r.type_ids() =~= Seq::<u64>::empty());
        assert(r.prototypes() =~= Seq::<VariantView>::empty());
        assert(r.guarantees() =~= Seq::<bool>::empty());
        r
    }

    pub fn len(&self) -> (n: usize)
        ensures
            n == self.count(),
    {
        self.kinds.len()
    }

    /// Registers a kind and gives its id: the next id for a type that is
    /// not registered yet. A type that is registered already keeps its id,
    /// and the registry stays as it is.
    pub fn register(&mut self, type_id: u64, guaranteed: bool, prototype: Variant) -> (id: u16)
        requires
            old(self).wf(),
            old(self).count() < 65535 || old(self).type_ids().contains(type_id),
            prototype.wf(),
        ensures
            final(self).wf(),
            id < final(self).count(),
            final(self).type_ids()[id as int] == type_id,
            final(self).type_ids().contains(type_id),
            forall|t: u64|
                old(self).type_ids().contains(t) ==> #[trigger] final(self).type_ids().contains(t),
            old(self).type_ids().contains(type_id) ==> *final(self) == *old(self),
            !old(self).type_ids().contains(type_id) ==> {
                &&& id == old(self).count()
                &&& final(self).type_ids() == old(self).type_ids().push(type_id)
                &&& final(self).guarantees() == old(self).guarantees().push(guaranteed)
                &&& final(self).prototypes() == old(self).prototypes().push(
                    VariantView { naia_id: id, props: prototype@.props },
                )
            },
    {
        match self.find(type_id) {
            Some(id) => id,
            None => {
                let id = self.kinds.len() as u16;
                let tagged = prototype.with_id(id);
                self.kinds.push(Kind { type_id, guaranteed, prototype: tagged });
                proof {
                    assert(self.type_ids() =~= old(self).type_ids().push(type_id));
                    assert(self.type_ids()[id as int] == type_id);
                    assert forall|t: u64| old(self).type_ids().contains(t) implies #[trigger] self.type_ids().contains(
                        t,
                    ) by {
                        let at = choose|at: int|
                            0 <= at < old(self).type_ids().len() && old(self).type_ids()[at] == t;
                        assert(self.type_ids()[at] == t);
                    }
                    assert(self.guarantees() =~= old(self).guarantees().push(guaranteed));
                    assert(self.prototypes() =~= old(self).prototypes().push(
                        VariantView { naia_id: id, props: prototype@.props },
                    ));
                    assert forall|a: int, b: int|
                        0 <= a < self.type_ids().len() && 0 <= b < self.type_ids().len() && a
                            != b implies self.type_ids()[a] != self.type_ids()[b] by {
                        if a < old(self).count() && b < old(self).count() {
                            assert(old(self).type_ids()[a] != old(self).type_ids()[b]);
                        } else if a < old(self).count() {
                            assert(old(self).type_ids().contains(old(self).type_ids()[a]));
                        } else if b < old(self).count() {
                            assert(old(self).type_ids().contains(old(self).type_ids()[b]));
                        }
                    }
                }
                id
            },
        }
    }

    /// The id under which `type_id` is registered.
    pub fn find(&self, type_id: u64) -> (r: Option<u16>)
        requires
            self.wf(),
        ensures
            match r {
                Some(id) => id < self.count() && self.type_ids()[id as int] == type_id,
                None => !self.type_ids().contains(type_id),
            },
    {
        let mut i: usize = 0;
        while i < self.kinds.len()
            invariant
                i <= self.kinds@.len(),
                self.kinds@.len() <= 65535,
                self.type_ids().len() == self.kinds@.len(),
                forall|j: int| 0 <= j < i ==> self.type_ids()[j] != type_id,
            decreases self.kinds@.len() - i,
        {
            if self.kinds[i].type_id == type_id {
                return Some(i as u16);
            }
            i += 1;
        }
        None
    }

    /// A fresh instance of kind `id`.
    pub fn create(&self, id: u16) -> (r: Option<Variant>)
        requires
            self.wf(),
        ensures
            match r {
                Some(v) => id < self.count() && v@ == self.prototypes()[id as int] && v.wf(),
                None => id >= self.count(),
            },
    {
        if (id as usize) < self.kinds.len() {
            Some(self.kinds[id as usize].prototype.copy())
        } else {
            None
        }
    }

    /// Whether kind `id` asks for guaranteed delivery; false for an unknown
    /// kind.
    pub fn is_guaranteed(&self, id: u16) -> (b: bool)
        ensures
            b == (id < self.count() && self.guarantees()[id as int]),
    {
        (id as usize) < self.kinds.len() && self.kinds[id as usize].guaranteed
    }

    /// The number of properties of kind `id`.
    pub fn prop_count(&self, id: u16) -> (r: Option<u8>)
        requires
            self.wf(),
        ensures
            match r {
                Some(n) => id < self.count() && n == self.prototypes()[id as int].props.len(),
                None => id >= self.count(),
            },
    {
        if (id as usize) < self.kinds.len() {
            Some(self.kinds[id as usize].prototype.prop_count() as u8)
        } else {
            None
        }
    }

    /// Reads an instance of kind `id` in full.
    pub fn read(&self, id: u16, reader: &mut PacketReader) -> (r: Option<Variant>)
        requires
            self.wf(),
            old(reader).wf(),
        ensures
            final(reader).wf(),
            final(reader).data() == old(reader).data(),
            match take_kind(self.prototypes(), old(reader).data(), old(reader).pos(), id) {
                Some((v, end)) => r is Some && r.unwrap()@ == v && r.unwrap().wf() && final(reader).pos() == end,
                None => r is None && final(reader).pos() == old(reader).pos(),
            },
    {
        match self.prop_count(id) {
            Some(count) => Variant::read_full(reader, id, count),
            None => None,
        }
    }
}

/// The instance of kind `id` that the bytes at `pos` hold, with the
/// position after it; none where the kind is unknown or the bytes are
/// malformed.
pub open spec fn take_kind(prototypes: Seq<VariantView>, bytes: Seq<u8>, pos: int, id: u16) -> Option<
    (VariantView, int),
> {
    if id < prototypes.len() {
        take_variant(bytes, pos, id, prototypes[id as int].props.len())
    } else {
        None
    }
}

/// The registry of the protocol.
pub struct Manifest {
    events: Registry,
    entities: Registry,
}

impl Manifest {
    /// The registered events.
    pub closed spec fn events(&self) -> Registry {
        self.events
    }

    /// The registered entities.
    pub closed spec fn entities(&self) -> Registry {
        self.entities
    }

    pub open spec fn wf(&self) -> bool {
        self.events().wf() && self.entities().wf()
    }

    /// A manifest with nothing registered.
    pub fn new() -> (m: Manifest)
        ensures
            m.wf(),
            m.events().type_ids() == Seq::<u64>::empty(),
            m.events().prototypes() == Seq::<VariantView>::empty(),
            m.events().guarantees() == Seq::<bool>::empty(),
            m.entities().type_ids() == Seq::<u64>::empty(),
            m.entities().prototypes() == Seq::<VariantView>::empty(),
            m.entities().guarantees() == Seq::<bool>::empty(),
    {
        Manifest { events: Registry::new(), entities: Registry::new() }
    }

    /// Registers an event kind for `type_id` under the next event id. A
    /// type that is registered already keeps its id and its prototype.
    pub fn register_event(&mut self, type_id: u64, guaranteed: bool, prototype: Variant)
        requires
            old(self).wf(),
            old(self).events().count() < 65535 || old(self).events().type_ids().contains(type_id),
            prototype.wf(),
        ensures
            final(self).wf(),
            final(self).entities() == old(self).entities(),
            final(self).events().type_ids().contains(type_id),
            forall|t: u64|
                old(self).events().type_ids().contains(t) ==> #[trigger] final(self).events().type_ids().contains(t),
            old(self).events().type_ids().contains(type_id) ==> final(self).events() == old(self).events(),
            !old(self).events().type_ids().contains(type_id) ==> {
                &&& final(self).events().type_ids() == old(self).events().type_ids().push(type_id)
                &&& final(self).events().guarantees() == old(self).events().guarantees().push(
                    guaranteed,
                )
                &&& final(self).events().prototypes() == old(self).events().prototypes().push(
                    VariantView {
                        naia_id: old(self).events().count() as u16,
                        props: prototype@.props,
                    },
                )
            },
    {
        self.events.register(type_id, guaranteed, prototype);
    }

    /// The event id of `type_id`.
    pub fn get_event_gaia_id(&self, type_id: u64) -> (id: u16)
        requires
            self.wf(),
            self.events().type_ids().contains(type_id),
        ensures
            id < self.events().count(),
            self.events().type_ids()[id as int] == type_id,
    {
        match self.events.find(type_id) {
            Some(id) => id,
            None => 0,
        }
    }

    /// The event id of `type_id`, if the type is registered.
    pub fn find_event_gaia_id(&self, type_id: u64) -> (r: Option<u16>)
        requires
            self.wf(),
        ensures
            match r {
                Some(id) => id < self.events().count() && self.events().type_ids()[id as int]
                    == type_id,
                None => !self.events().type_ids().contains(type_id),
            },
    {
        self.events.find(type_id)
    }

    /// A fresh event of kind `gaia_id`, if there is such a kind.
    pub fn create_event(&self, gaia_id: u16) -> (r: Option<Variant>)
        requires
            self.wf(),
        ensures
            match r {
                Some(v) => gaia_id < self.events().count() && v@ == self.events().prototypes()[gaia_id as int]
                    && v.wf(),
                None => gaia_id >= self.events().count(),
            },
    {
        self.events.create(gaia_id)
    }

    /// Reads an event of kind `gaia_id` from a packet.
    pub fn read_event(&self, gaia_id: u16, reader: &mut PacketReader) -> (r: Option<Variant>)
        requires
            self.wf(),
            old(reader).wf(),
        ensures
            final(reader).wf(),
            final(reader).data() == old(reader).data(),
            match take_kind(
                self.events().prototypes(),
                old(reader).data(),
                old(reader).pos(),
                gaia_id,
            ) {
                Some((v, end)) => r is Some && r.unwrap()@ == v && r.unwrap().wf() && final(reader).pos() == end,
                None => r is None && final(reader).pos() == old(reader).pos(),
            },
    {
        self.events.read(gaia_id, reader)
    }

    /// Registers an entity kind for `type_id` under the next entity id. A
    /// type that is registered already keeps its id and its prototype.
    pub fn register_entity(&mut self, type_id: u64, prototype: Variant)
        requires
            old(self).wf(),
            old(self).entities().count() < 65535 || old(self).entities().type_ids().contains(
                type_id,
            ),
            prototype.wf(),
        ensures
            final(self).wf(),
            final(self).events() == old(self).events(),
            final(self).entities().type_ids().contains(type_id),
            forall|t: u64|
                old(self).entities().type_ids().contains(t) ==> #[trigger] final(self).entities().type_ids().contains(t),
            old(self).entities().type_ids().contains(type_id) ==> final(self).entities() == old(self).entities(),
            !old(self).entities().type_ids().contains(type_id) ==> {
                &&& final(self).entities().type_ids() == old(self).entities().type_ids().push(
                    type_id,
                )
                &&& final(self).entities().guarantees() == old(self).entities().guarantees().push(
                    true,
                )
                &&& final(self).entities().prototypes() == old(self).entities().prototypes().push(
                    VariantView {
                        naia_id: old(self).entities().count() as u16,
                        props: prototype@.props,
                    },
                )
            },
    {
        self.entities.register(type_id, true, prototype);
    }

    /// The entity id of `type_id`.
    pub fn get_entity_gaia_id(&self, type_id: u64) -> (id: u16)
        requires
            self.wf(),
            self.entities().type_ids().contains(type_id),
        ensures
            id < self.entities().count(),
            self.entities().type_ids()[id as int] == type_id,
    {
        match self.entities.find(type_id) {
            Some(id) => id,
            None => 0,
        }
    }

    /// The entity id of `type_id`, if the type is registered.
    pub fn find_entity_gaia_id(&self, type_id: u64) -> (r: Option<u16>)
        requires
            self.wf(),
        ensures
            match r {
                Some(id) => id < self.entities().count() && self.entities().type_ids()[id as int]
                    == type_id,
                None => !self.entities().type_ids().contains(type_id),
            },
    {
        self.entities.find(type_id)
    }

    /// A fresh entity of kind `gaia_id`, if there is such a kind.
    pub fn create_entity(&self, gaia_id: u16) -> (r: Option<Variant>)
        requires
            self.wf(),
        ensures
            match r {
                Some(v) => gaia_id < self.entities().count() && v@
                    == self.entities().prototypes()[gaia_id as int] && v.wf(),
                None => gaia_id >= self.entities().count(),
            },
    {
        self.entities.create(gaia_id)
    }

    /// Reads an entity of kind `gaia_id` from a packet.
    pub fn read_entity(&self, gaia_id: u16, reader: &mut PacketReader) -> (r: Option<Variant>)
        requires
            self.wf(),
            old(reader).wf(),
        ensures
            final(reader).wf(),
            final(reader).data() == old(reader).data(),
            match take_kind(
                self.entities().prototypes(),
                old(reader).data(),
                old(reader).pos(),
                gaia_id,
            ) {
                Some((v, end)) => r is Some && r.unwrap()@ == v && r.unwrap().wf() && final(reader).pos() == end,
                None => r is None && final(reader).pos() == old(reader).pos(),
            },
    {
        self.entities.read(gaia_id, reader)
    }
}

/// A type has one id: two ids under which a well-formed registry holds
/// the same type are the same id.
pub proof fn lemma_one_id_per_type(r: Registry, a: int, b: int)
    requires
        r.wf(),
        0 <= a < r.count(),
        0 <= b < r.count(),
        r.type_ids()[a] == r.type_ids()[b],
    ensures
        a == b,
{
}

} // verus!
