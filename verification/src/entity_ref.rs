//! Handles on one entity of the world, through which its components, its
//! owner and its rooms are read and changed.

use crate::key_list::{with, without};
use crate::server::{
    owner_of, owners_without, room_position, server_after_despawn, server_after_insert,
    server_after_remove, user_position, world_after_insert, Ownership, RoomKey, RoomView, Server,
    ServerView, UserKey, WorldMap,
};
use crate::variant::{Variant, VariantView};
use crate::world::{canonical, EntityKey, World};
use vstd::prelude::*;

verus! {

/// A reference to an Entity being tracked by the Server
pub struct EntityRef<'s, 'w> {
    server: &'s Server,
    world: &'w World,
    key: EntityKey,
}

impl<'s, 'w> EntityRef<'s, 'w> {
    /// The server that the handle reads.
    pub closed spec fn server(&self) -> Server {
        *self.server
    }

    /// The world that the handle reads.
    pub closed spec fn world(&self) -> World {
        *self.world
    }

    /// The key of the entity.
    pub closed spec fn spec_key(&self) -> EntityKey {
        self.key
    }

    /// Return a new EntityRef
    pub fn new(server: &'s Server, world: &'w World, key: &EntityKey) -> (r: Self)
        ensures
            r.server() == *server,
            r.world() == *world,
            r.spec_key() == *key,
    {
        EntityRef { server, world, key: *key }
    }

    /// Gets the Key associated with the Entity
    pub fn key(&self) -> (k: EntityKey)
        ensures
            k == self.spec_key(),
    {
        self.key
    }

    /// Returns whether or not the Entity has an associated Component
    pub fn has_component(&self, kind: u16) -> (b: bool)
        requires
            self.world().wf(),
        ensures
            b == (self.world()@.contains_key(canonical(self.spec_key().value))
                && self.world()@[canonical(self.spec_key().value)].contains_key(kind as u32)),
    {
        self.world.has_component_of_type(&self.key, kind)
    }

    /// Gets a copy of a Component associated with the Entity
    pub fn component(&self, kind: u16) -> (r: Option<Variant>)
        requires
            self.world().wf(),
        ensures
            match r {
                Some(v) => self.world()@.contains_key(canonical(self.spec_key().value))
                    && self.world()@[canonical(self.spec_key().value)].contains_key(kind as u32)
                    && v@ == self.world()@[canonical(self.spec_key().value)][kind as u32],
                None => !(self.world()@.contains_key(canonical(self.spec_key().value))
                    && self.world()@[canonical(self.spec_key().value)].contains_key(
                    kind as u32,
                )),
            },
    {
        self.world.get_component_from_type(&self.key, kind)
    }

    /// Returns whether or not the Entity is owned/controlled by a User
    pub fn has_owner(&self) -> (b: bool)
        ensures
            b == owner_of(self.server()@.owners, self.spec_key().value) is Some,
    {
        self.server.entity_has_owner(&self.key)
    }

    /// Returns the UserKey associated with the Entity's owner/controller
    pub fn get_owner(&self) -> (r: Option<UserKey>)
        ensures
            match r {
                Some(user) => owner_of(self.server()@.owners, self.spec_key().value) == Some(
                    user.value,
                ),
                None => owner_of(self.server()@.owners, self.spec_key().value) is None,
            },
    {
        self.server.entity_get_owner(&self.key)
    }
}

/// A handle on an Entity through which it is changed.
pub struct EntityMut<'s, 'w> {
    pub server: &'s mut Server,
    pub world: &'w mut World,
    pub key: EntityKey,
}

impl<'s, 'w> EntityMut<'s, 'w> {
    /// The server as the handle has left it so far.
    pub closed spec fn server(&self) -> Server {
        *self.server
    }

    /// The world as the handle has left it so far.
    pub closed spec fn world(&self) -> World {
        *self.world
    }

    /// The key of the entity.
    pub closed spec fn spec_key(&self) -> EntityKey {
        self.key
    }

    /// The server and the world are well formed.
    pub open spec fn wf(&self) -> bool {
        self.server().wf() && self.world().wf()
    }

    /// A handle on the entity `key`. What is done through the handle is
    /// done to the server and to the world that it borrows.
    pub fn new(server: &'s mut Server, world: &'w mut World, key: &EntityKey) -> (r: Self)
        ensures
            r.server() == *old(server),
            r.world() == *old(world),
            r.spec_key() == *key,
            *final(r.server) == *final(server),
            *final(r.world) == *final(world),
    {
        EntityMut { server, world, key: *key }
    }

    /// Gets the Key associated with the Entity
    pub fn key(&self) -> (k: EntityKey)
        ensures
            k == self.spec_key(),
    {
        self.key
    }

    /// Removes the entity from the world and from everything that the
    /// server keeps of it.
    pub fn despawn(&mut self)
        requires
            old(self).wf(),
        ensures
            final(self).wf(),
            final(self).spec_key() == old(self).spec_key(),
            final(self).world()@ == old(self).world()@.remove(
                canonical(old(self).spec_key().value),
            ),
            final(self).server()@ == server_after_despawn(
                old(self).server()@,
                old(self).spec_key().value,
            ),
            *final(final(self).server) == *final(old(self).server),
            *final(final(self).world) == *final(old(self).world),
    {
        self.server.despawn_entity(self.world, &self.key);
    }

    // Components

    pub fn has_component(&self, kind: u16) -> (b: bool)
        requires
            self.wf(),
        ensures
            b == (self.world()@.contains_key(canonical(self.spec_key().value))
                && self.world()@[canonical(self.spec_key().value)].contains_key(kind as u32)),
    {
        self.world.has_component_of_type(&self.key, kind)
    }

    pub fn component(&self, kind: u16) -> (r: Option<Variant>)
        requires
            self.wf(),
        ensures
            match r {
                Some(v) => self.world()@.contains_key(canonical(self.spec_key().value))
                    && self.world()@[canonical(self.spec_key().value)].contains_key(kind as u32)
                    && v@ == self.world()@[canonical(self.spec_key().value)][kind as u32],
                None => !(self.world()@.contains_key(canonical(self.spec_key().value))
                    && self.world()@[canonical(self.spec_key().value)].contains_key(
                    kind as u32,
                )),
            },
    {
        self.world.get_component_from_type(&self.key, kind)
    }

    /// Gives the entity a component. Nothing changes where the entity is
    /// gone, has a component of that kind already, or the ids have run out.
    pub fn insert_component(&mut self, component: Variant) -> (r: &mut Self)
        requires
            old(self).wf(),
        ensures
            r.wf(),
            r.spec_key() == old(self).spec_key(),
            r.world()@ == world_after_insert(
                old(self).server()@,
                old(self).world()@,
                old(self).spec_key().value,
                component@,
            ),
            r.server()@ == server_after_insert(
                old(self).server()@,
                old(self).world()@,
                old(self).spec_key().value,
                component@,
            ),
            *final(self) == *final(r),
            *final(r.server) == *final(old(self).server),
            *final(r.world) == *final(old(self).world),
    {
        self.server.insert_component(self.world, &self.key, component);
        self
    }

    /// Gives the entity each of the components, in order.
    pub fn insert_components(&mut self, components: Vec<Variant>) -> (r: &mut Self)
        requires
            old(self).wf(),
        ensures
            r.wf(),
            r.spec_key() == old(self).spec_key(),
            r.world()@ == all_inserted(
                old(self).server()@,
                old(self).world()@,
                old(self).spec_key().value,
                crate::message_manager::variants_view(components@),
            ).1,
            r.server()@ == all_inserted(
                old(self).server()@,
                old(self).world()@,
                old(self).spec_key().value,
                crate::message_manager::variants_view(components@),
            ).0,
            *final(self) == *final(r),
            *final(r.server) == *final(old(self).server),
            *final(r.world) == *final(old(self).world),
    {
        let mut rest = components;
        let ghost all = crate::message_manager::variants_view(rest@);
        let ghost goal = all_inserted(
            self.server()@,
            self.world()@,
            self.spec_key().value,
            all,
        );
        while rest.len() > 0
            invariant
                self.wf(),
                self.spec_key() == old(self).spec_key(),
                *final(self.server) == *final(old(self).server),
                *final(self.world) == *final(old(self).world),
                goal == all_inserted(
                    old(self).server()@,
                    old(self).world()@,
                    old(self).spec_key().value,
                    all,
                ),
                goal == all_inserted(
                    self.server()@,
                    self.world()@,
                    self.spec_key().value,
                    crate::message_manager::variants_view(rest@),
                ),
            decreases rest@.len(),
        {
            let ghost before = crate::message_manager::variants_view(rest@);
            let component = rest.remove(0);
            assert(before[0] == component@);
            assert(crate::message_manager::variants_view(rest@) =~= before.drop_first());
            self.server.insert_component(self.world, &self.key, component);
        }
        self
    }

    /// Takes the component of kind `kind` from the entity.
    pub fn remove_component(&mut self, kind: u16) -> (r: Option<Variant>)
        requires
            old(self).wf(),
        ensures
            final(self).wf(),
            final(self).spec_key() == old(self).spec_key(),
            *final(final(self).server) == *final(old(self).server),
            *final(final(self).world) == *final(old(self).world),
            match r {
                Some(v) => old(self).world()@.contains_key(canonical(old(self).spec_key().value))
                    && old(self).world()@[canonical(old(self).spec_key().value)].contains_key(
                    kind as u32,
                ) && v@ == old(self).world()@[canonical(
                    old(self).spec_key().value,
                )][kind as u32] && final(self).world()@ == old(self).world()@.insert(
                    canonical(old(self).spec_key().value),
                    old(self).world()@[canonical(old(self).spec_key().value)].remove(kind as u32),
                ),
                None => !(old(self).world()@.contains_key(
                    canonical(old(self).spec_key().value),
                ) && old(self).world()@[canonical(old(self).spec_key().value)].contains_key(
                    kind as u32,
                )) && final(self).world()@ == old(self).world()@,
            },
            final(self).server()@ == server_after_remove(
                old(self).server()@,
                old(self).spec_key().value,
                kind,
            ),
    {
        self.server.remove_component(self.world, &self.key, kind)
    }

    // Users & Assignment

    pub fn has_owner(&self) -> (b: bool)
        ensures
            b == owner_of(self.server()@.owners, self.spec_key().value) is Some,
    {
        self.server.entity_has_owner(&self.key)
    }

    pub fn get_owner(&self) -> (r: Option<UserKey>)
        ensures
            match r {
                Some(user) => owner_of(self.server()@.owners, self.spec_key().value) == Some(
                    user.value,
                ),
                None => owner_of(self.server()@.owners, self.spec_key().value) is None,
            },
    {
        self.server.entity_get_owner(&self.key)
    }

    /// Makes a user the owner of the entity. Nothing changes where there
    /// is no such user.
    pub fn set_owner(&mut self, user_key: &UserKey) -> (r: &mut Self)
        requires
            old(self).wf(),
        ensures
            r.wf(),
            r.spec_key() == old(self).spec_key(),
            r.world() == old(self).world(),
            r.server()@ == (ServerView {
                owners: if user_position(old(self).server()@.users, *user_key) < old(self).server()@.users.len() {
                    owners_without(old(self).server()@.owners, old(self).spec_key().value).push(
                        Ownership { entity: old(self).spec_key().value, user: user_key.value },
                    )
                } else {
                    old(self).server()@.owners
                },
                ..old(self).server()@
            }),
            *final(self) == *final(r),
            *final(r.server) == *final(old(self).server),
            *final(r.world) == *final(old(self).world),
    {
        self.server.entity_set_owner(&self.key, user_key);
        self
    }

    /// Takes the owner from the entity.
    pub fn disown(&mut self) -> (r: &mut Self)
        requires
            old(self).wf(),
        ensures
            r.wf(),
            r.spec_key() == old(self).spec_key(),
            r.world() == old(self).world(),
            r.server()@ == (ServerView {
                owners: owners_without(old(self).server()@.owners, old(self).spec_key().value),
                ..old(self).server()@
            }),
            *final(self) == *final(r),
            *final(r.server) == *final(old(self).server),
            *final(r.world) == *final(old(self).world),
    {
        self.server.entity_disown(&self.key);
        self
    }

    // Rooms

    /// Adds the entity to a room. Nothing changes where there is no such
    /// room.
    pub fn enter_room(&mut self, room_key: &RoomKey) -> (r: &mut Self)
        requires
            old(self).wf(),
        ensures
            r.wf(),
            r.spec_key() == old(self).spec_key(),
            r.world() == old(self).world(),
            r.server()@ == (ServerView {
                rooms: if room_position(old(self).server()@.rooms, *room_key) < old(self).server()@.rooms.len() {
                    let was = old(self).server()@.rooms[room_position(
                        old(self).server()@.rooms,
                        *room_key,
                    )];
                    old(self).server()@.rooms.update(
                        room_position(old(self).server()@.rooms, *room_key),
                        RoomView {
                            entities: with(was.entities, old(self).spec_key().value),
                            ..was
                        },
                    )
                } else {
                    old(self).server()@.rooms
                },
                ..old(self).server()@
            }),
            *final(self) == *final(r),
            *final(r.server) == *final(old(self).server),
            *final(r.world) == *final(old(self).world),
    {
        self.server.room_add_entity(room_key, &self.key);
        self
    }

    /// Removes the entity from a room.
    pub fn leave_room(&mut self, room_key: &RoomKey) -> (r: &mut Self)
        requires
            old(self).wf(),
        ensures
            r.wf(),
            r.spec_key() == old(self).spec_key(),
            r.world() == old(self).world(),
            r.server()@ == (ServerView {
                rooms: if room_position(old(self).server()@.rooms, *room_key) < old(self).server()@.rooms.len() {
                    let was = old(self).server()@.rooms[room_position(
                        old(self).server()@.rooms,
                        *room_key,
                    )];
                    old(self).server()@.rooms.update(
                        room_position(old(self).server()@.rooms, *room_key),
                        RoomView {
                            entities: without(was.entities, old(self).spec_key().value),
                            ..was
                        },
                    )
                } else {
                    old(self).server()@.rooms
                },
                ..old(self).server()@
            }),
            *final(self) == *final(r),
            *final(r.server) == *final(old(self).server),
            *final(r.world) == *final(old(self).world),
    {
        self.server.room_remove_entity(room_key, &self.key);
        self
    }
}

/// The server and the world after each of the components has been given to
/// an entity, in order.
pub open spec fn all_inserted(s: ServerView, w: WorldMap, entity: u64, components: Seq<VariantView>) -> (
    ServerView,
    WorldMap,
)
    decreases components.len(),
{
    if components.len() == 0 {
        (s, w)
    } else {
        all_inserted(
            server_after_insert(s, w, entity, components[0]),
            world_after_insert(s, w, entity, components[0]),
            entity,
            components.drop_first(),
        )
    }
}

} // verus!
