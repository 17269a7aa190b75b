//! The server's bookkeeping: users with their connections, rooms, the
//! owners of entities, and what of the world each user's connection
//! replicates. An entity is in a user's scope when some room holds both.

use crate::client_connection::{ClientConnection, ClientConnectionView};
use crate::config::{valid_config, ServerConfig};
use crate::key_list::{list_contains, list_insert, list_remove, with, without};
use crate::replicate_record::ReplicateKind;
use crate::replicate_sender::{despawned, pawn_set, record_position, spawned, SenderView};
use crate::variant::{encodable, Variant, VariantView};
use crate::world::{canonical, EntityKey, World};
use vstd::prelude::*;

verus! {

/// The key of a user.
#[derive(Clone, Copy, PartialEq, Eq, Debug, Hash, Structural)]
pub struct UserKey {
    pub value: u64,
}

/// The key of a room.
#[derive(Clone, Copy, PartialEq, Eq, Debug, Hash, Structural)]
pub struct RoomKey {
    pub value: u64,
}

/// A user with the connection to it.
pub struct User {
    pub key: UserKey,
    pub connection: ClientConnection,
}

/// A room with its users and entities.
pub struct Room {
    pub key: RoomKey,
    pub users: Vec<u64>,
    pub entities: Vec<u64>,
}

/// An entity with its owner.
#[derive(Clone, Copy, PartialEq, Eq, Debug, Structural)]
pub struct Ownership {
    pub entity: u64,
    pub user: u64,
}

/// An entity of the world with the id under which connections replicate
/// it.
#[derive(Clone, Copy, PartialEq, Eq, Debug, Structural)]
pub struct RegisteredEntity {
    pub entity: u64,
    pub global: u32,
}

/// A component of an entity with the id under which connections replicate
/// it.
#[derive(Clone, Copy, PartialEq, Eq, Debug, Structural)]
pub struct RegisteredComponent {
    pub entity: u64,
    pub kind: u16,
    pub global: u32,
}

/// The abstract value of a user.
pub struct UserView {
    pub key: UserKey,
    pub connection: ClientConnectionView,
}

/// The abstract value of a room.
pub struct RoomView {
    pub key: RoomKey,
    pub users: Seq<u64>,
    pub entities: Seq<u64>,
}

/// The abstract state of the server.
pub struct ServerView {
    pub config: ServerConfig,
    pub users: Seq<UserView>,
    pub rooms: Seq<RoomView>,
    pub owners: Seq<Ownership>,
    pub entities: Seq<RegisteredEntity>,
    pub components: Seq<RegisteredComponent>,
    pub next_user: u64,
    pub next_room: u64,
    pub next_global: u32,
}

pub open spec fn users_view(list: Seq<User>) -> Seq<UserView> {
    Seq::new(list.len(), |i: int| UserView { key: list[i].key, connection: list[i].connection@ })
}

pub open spec fn rooms_view(list: Seq<Room>) -> Seq<RoomView> {
    Seq::new(
        list.len(),
        |i: int| RoomView { key: list[i].key, users: list[i].users@, entities: list[i].entities@ },
    )
}

/// The index of the user `key`, or the number of users.
pub open spec fn user_position(users: Seq<UserView>, key: UserKey) -> int
    decreases users.len(),
{
    if users.len() == 0 {
        0
    } else if users[0].key == key {
        0
    } else {
        1 + user_position(users.drop_first(), key)
    }
}

/// The index of the room `key`, or the number of rooms.
pub open spec fn room_position(rooms: Seq<RoomView>, key: RoomKey) -> int
    decreases rooms.len(),
{
    if rooms.len() == 0 {
        0
    } else if rooms[0].key == key {
        0
    } else {
        1 + room_position(rooms.drop_first(), key)
    }
}

/// The owner of `entity`, if it has one.
pub open spec fn owner_of(owners: Seq<Ownership>, entity: u64) -> Option<u64>
    decreases owners.len(),
{
    if owners.len() == 0 {
        None
    } else if owners[0].entity == entity {
        Some(owners[0].user)
    } else {
        owner_of(owners.drop_first(), entity)
    }
}

/// The ownerships without those of `entity`.
pub open spec fn owners_without(owners: Seq<Ownership>, entity: u64) -> Seq<Ownership>
    decreases owners.len(),
{
    if owners.len() == 0 {
        Seq::empty()
    } else {
        let front = owners_without(owners.drop_last(), entity);
        if owners.last().entity == entity {
            front
        } else {
            front.push(owners.last())
        }
    }
}

/// The id under which `entity` is replicated, if it is registered.
pub open spec fn global_of(entities: Seq<RegisteredEntity>, entity: u64) -> Option<u32>
    decreases entities.len(),
{
    if entities.len() == 0 {
        None
    } else if entities[0].entity == entity {
        Some(entities[0].global)
    } else {
        global_of(entities.drop_first(), entity)
    }
}

/// Whether an entity is in a user's scope: some room holds both.
pub open spec fn in_scope(rooms: Seq<RoomView>, user: u64, entity: u64) -> bool
    decreases rooms.len(),
{
    if rooms.len() == 0 {
        false
    } else {
        (rooms[0].users.contains(user) && rooms[0].entities.contains(entity)) || in_scope(
            rooms.drop_first(),
            user,
            entity,
        )
    }
}

/// The connection after a component of the world has entered it, if the
/// component is there, can be written and finds a key.
pub open spec fn component_entered(
    c: ClientConnectionView,
    world: Map<u64, Map<u32, VariantView>>,
    x: RegisteredComponent,
    entity_global: u32,
) -> ClientConnectionView {
    if world.contains_key(canonical(x.entity)) && world[canonical(x.entity)].contains_key(
        x.kind as u32,
    ) && encodable(world[canonical(x.entity)][x.kind as u32].props) {
        match spawned(
            c.sender,
            x.global,
            ReplicateKind::Component { entity: entity_global },
            world[canonical(x.entity)][x.kind as u32],
        ) {
            Ok((s, _)) => ClientConnectionView { sender: s, ..c },
            Err(_) => c,
        }
    } else {
        c
    }
}

/// The connection after the registered components of `entity` have
/// entered it, in order.
pub open spec fn components_entered(
    c: ClientConnectionView,
    world: Map<u64, Map<u32, VariantView>>,
    components: Seq<RegisteredComponent>,
    entity: u64,
    entity_global: u32,
) -> ClientConnectionView
    decreases components.len(),
{
    if components.len() == 0 {
        c
    } else {
        let c1 = if components[0].entity == entity {
            component_entered(c, world, components[0], entity_global)
        } else {
            c
        };
        components_entered(c1, world, components.drop_first(), entity, entity_global)
    }
}

/// The connection of `user` after its scope has been brought up to date
/// for one entity: an entity that is in scope and not yet replicated enters
/// with its components, one that is replicated and no longer in scope
/// leaves; the owner of an entity in scope has it as its pawn.
pub open spec fn entity_synced(
    c: ClientConnectionView,
    rooms: Seq<RoomView>,
    owners: Seq<Ownership>,
    components: Seq<RegisteredComponent>,
    world: Map<u64, Map<u32, VariantView>>,
    user: u64,
    x: RegisteredEntity,
) -> ClientConnectionView {
    let present = record_position(c.sender.records, x.global) < c.sender.records.len();
    if in_scope(rooms, user, x.entity) && world.contains_key(canonical(x.entity)) {
        let c1 = if present {
            c
        } else {
            match spawned(
                c.sender,
                x.global,
                ReplicateKind::Entity,
                VariantView { naia_id: 0, props: Seq::empty() },
            ) {
                Ok((sender, _)) => components_entered(
                    ClientConnectionView { sender, ..c },
                    world,
                    components,
                    x.entity,
                    x.global,
                ),
                Err(_) => c,
            }
        };
        ClientConnectionView {
            sender: pawn_set(c1.sender, x.global, owner_of(owners, x.entity) == Some(user)),
            ..c1
        }
    } else if present {
        ClientConnectionView { sender: despawned(c.sender, x.global), ..c }
    } else {
        c
    }
}

/// The connection of `user` after its scope has been brought up to date
/// for the registered entities, in order.
pub open spec fn scope_synced(
    c: ClientConnectionView,
    rooms: Seq<RoomView>,
    owners: Seq<Ownership>,
    components: Seq<RegisteredComponent>,
    world: Map<u64, Map<u32, VariantView>>,
    user: u64,
    entities: Seq<RegisteredEntity>,
) -> ClientConnectionView
    decreases entities.len(),
{
    if entities.len() == 0 {
        c
    } else {
        scope_synced(
            entity_synced(c, rooms, owners, components, world, user, entities[0]),
            rooms,
            owners,
            components,
            world,
            user,
            entities.drop_first(),
        )
    }
}

/// The users after the scope of each has been brought up to date.
pub open spec fn scopes_synced(s: ServerView, world: Map<u64, Map<u32, VariantView>>) -> Seq<
    UserView,
> {
    Seq::new(
        s.users.len(),
        |i: int|
            UserView {
                key: s.users[i].key,
                connection: scope_synced(
                    s.users[i].connection,
                    s.rooms,
                    s.owners,
                    s.components,
                    world,
                    s.users[i].key.value,
                    s.entities,
                ),
            },
    )
}

/// The world as a map from entity to components.
pub type WorldMap = Map<u64, Map<u32, VariantView>>;

/// Whether a component can be added to an entity: the ids have not run
/// out, the world holds the entity, and the entity has no component of
/// that kind.
pub open spec fn can_insert_component(s: ServerView, w: WorldMap, entity: u64, component: VariantView) -> bool {
    s.next_global < u32::MAX && w.contains_key(canonical(entity)) && !w[canonical(
        entity,
    )].contains_key(component.naia_id as u32)
}

/// The world after a component has been added to an entity.
pub open spec fn world_after_insert(s: ServerView, w: WorldMap, entity: u64, component: VariantView) -> WorldMap {
    if can_insert_component(s, w, entity, component) {
        w.insert(
            canonical(entity),
            w[canonical(entity)].insert(component.naia_id as u32, component),
        )
    } else {
        w
    }
}

/// The server after a component has been added to an entity: the
/// component is registered and enters the scope of every user that
/// replicates the entity.
pub open spec fn server_after_insert(s: ServerView, w: WorldMap, entity: u64, component: VariantView) -> ServerView {
    if can_insert_component(s, w, entity, component) {
        let x = RegisteredComponent { entity, kind: component.naia_id, global: s.next_global };
        ServerView {
            users: users_entered(
                s.users,
                world_after_insert(s, w, entity, component),
                x,
                global_of(s.entities, entity),
            ),
            components: s.components.push(x),
            next_global: (s.next_global + 1) as u32,
            ..s
        }
    } else {
        s
    }
}

/// The server after an entity has been removed: it leaves the scope of
/// every user, its owner and its registration.
pub open spec fn server_after_despawn(s: ServerView, entity: u64) -> ServerView {
    ServerView {
        users: users_despawned(s.users, global_of(s.entities, entity)),
        owners: owners_without(s.owners, entity),
        entities: entities_without(s.entities, entity),
        components: components_without(s.components, entity, None),
        ..s
    }
}

/// The server after a component has been taken from an entity: it leaves
/// the scope of every user and its registration.
pub open spec fn server_after_remove(s: ServerView, entity: u64, kind: u16) -> ServerView {
    ServerView {
        users: users_despawned(s.users, component_global_of(s.components, entity, kind)),
        components: components_without(s.components, entity, Some(kind)),
        ..s
    }
}

/// The rooms without the user `user` in any of them.
pub open spec fn rooms_without_user(rooms: Seq<RoomView>, user: u64) -> Seq<RoomView> {
    Seq::new(
        rooms.len(),
        |i: int| RoomView { users: without(rooms[i].users, user), ..rooms[i] },
    )
}

/// The server with the connection of the user at index `at` replaced.
pub open spec fn connection_changed(s: ServerView, at: int, c: ClientConnectionView) -> ServerView {
    ServerView { users: s.users.update(at, UserView { key: s.users[at].key, connection: c }), ..s }
}

/// The keys of the users that were not heard from for the disconnection
/// timeout, in order.
pub open spec fn timed_out(users: Seq<UserView>, now: u64) -> Seq<UserKey>
    decreases users.len(),
{
    if users.len() == 0 {
        Seq::empty()
    } else {
        let front = timed_out(users.drop_last(), now);
        let c = users.last().connection.connection;
        if crate::ack_manager::elapsed_between(c.last_heard_at, now) >= c.timeout {
            front.push(users.last().key)
        } else {
            front
        }
    }
}

/// The registered entities without `entity`.
pub open spec fn entities_without(entities: Seq<RegisteredEntity>, entity: u64) -> Seq<
    RegisteredEntity,
>
    decreases entities.len(),
{
    if entities.len() == 0 {
        Seq::empty()
    } else {
        let front = entities_without(entities.drop_last(), entity);
        if entities.last().entity == entity {
            front
        } else {
            front.push(entities.last())
        }
    }
}

/// The registered components without those that `gone` names.
pub open spec fn components_without(
    components: Seq<RegisteredComponent>,
    entity: u64,
    kind: Option<u16>,
) -> Seq<RegisteredComponent>
    decreases components.len(),
{
    if components.len() == 0 {
        Seq::empty()
    } else {
        let front = components_without(components.drop_last(), entity, kind);
        let x = components.last();
        if x.entity == entity && (kind is None || kind == Some(x.kind)) {
            front
        } else {
            front.push(x)
        }
    }
}

/// The id under which the component of kind `kind` of `entity` is
/// replicated, if it is registered.
pub open spec fn component_global_of(
    components: Seq<RegisteredComponent>,
    entity: u64,
    kind: u16,
) -> Option<u32>
    decreases components.len(),
{
    if components.len() == 0 {
        None
    } else if components[0].entity == entity && components[0].kind == kind {
        Some(components[0].global)
    } else {
        component_global_of(components.drop_first(), entity, kind)
    }
}

/// The users with `global` leaving the scope of each.
pub open spec fn users_despawned(users: Seq<UserView>, global: Option<u32>) -> Seq<UserView> {
    match global {
        Some(g) => Seq::new(
            users.len(),
            |i: int|
                UserView {
                    key: users[i].key,
                    connection: ClientConnectionView {
                        sender: despawned(users[i].connection.sender, g),
                        ..users[i].connection
                    },
                },
        ),
        None => users,
    }
}

/// The users with a new component entering the scope of each one that
/// replicates its entity.
pub open spec fn users_entered(
    users: Seq<UserView>,
    world: Map<u64, Map<u32, VariantView>>,
    x: RegisteredComponent,
    entity_global: Option<u32>,
) -> Seq<UserView> {
    match entity_global {
        Some(g) => Seq::new(
            users.len(),
            |i: int|
                UserView {
                    key: users[i].key,
                    connection: if record_position(users[i].connection.sender.records, g)
                        < users[i].connection.sender.records.len() {
                        component_entered(users[i].connection, world, x, g)
                    } else {
                        users[i].connection
                    },
                },
        ),
        None => users,
    }
}

fn rooms_in_scope(rooms: &Vec<Room>, user: u64, entity: u64) -> (b: bool)
    ensures
        b == in_scope(rooms_view(rooms@), user, entity),
{
    let mut i: usize = 0;
    let ghost whole = rooms_view(rooms@);
    assert(whole.subrange(0, whole.len() as int) =~= whole);
    while i < rooms.len()
        invariant
            i <= rooms@.len(),
            whole == rooms_view(rooms@),
            in_scope(whole, user, entity) == in_scope(
                whole.subrange(i as int, whole.len() as int),
                user,
                entity,
            ),
        decreases rooms@.len() - i,
    {
        let ghost rest = whole.subrange(i as int, whole.len() as int);
        assert(rest[0] == whole[i as int]);
        assert(rest.drop_first() =~= whole.subrange(i + 1, whole.len() as int));
        if list_contains(&rooms[i].users, user) && list_contains(&rooms[i].entities, entity) {
            return true;
        }
        i += 1;
    }
    assert(whole.subrange(i as int, whole.len() as int).len() == 0);
    false
}

fn owner_lookup(owners: &Vec<Ownership>, entity: u64) -> (r: Option<u64>)
    ensures
        r == owner_of(owners@, entity),
{
    let mut i: usize = 0;
    let ghost whole = owners@;
    assert(whole.subrange(0, whole.len() as int) =~= whole);
    while i < owners.len()
        invariant
            i <= owners@.len(),
            whole == owners@,
            owner_of(whole, entity) == owner_of(
                whole.subrange(i as int, whole.len() as int),
                entity,
            ),
        decreases owners@.len() - i,
    {
        let ghost rest = whole.subrange(i as int, whole.len() as int);
        assert(rest[0] == whole[i as int]);
        assert(rest.drop_first() =~= whole.subrange(i + 1, whole.len() as int));
        if owners[i].entity == entity {
            return Some(owners[i].user);
        }
        i += 1;
    }
    assert(whole.subrange(i as int, whole.len() as int).len() == 0);
    None
}

fn enter_component(
    c: &mut ClientConnection,
    world: &World,
    x: RegisteredComponent,
    entity_global: u32,
)
    requires
        old(c).wf(),
        world.wf(),
    ensures
        final(c).wf(),
        final(c)@ == component_entered(old(c)@, world@, x, entity_global),
{
    match world.get_component_from_type(&EntityKey { value: x.entity }, x.kind) {
        Some(value) => {
            if value.is_encodable() {
                let _ = c.insert_component(entity_global, x.global, value);
            }
        },
        None => {},
    }
}

fn enter_components(
    c: &mut ClientConnection,
    world: &World,
    components: &Vec<RegisteredComponent>,
    entity: u64,
    entity_global: u32,
)
    requires
        old(c).wf(),
        world.wf(),
    ensures
        final(c).wf(),
        final(c)@ == components_entered(old(c)@, world@, components@, entity, entity_global),
{
    let ghost all = components@;
    let mut j: usize = 0;
    assert(all.subrange(0, all.len() as int) =~= all);
    while j < components.len()
        invariant
            j <= all.len(),
            c.wf(),
            world.wf(),
            all == components@,
            components_entered(
                c@,
                world@,
                all.subrange(j as int, all.len() as int),
                entity,
                entity_global,
            ) == components_entered(old(c)@, world@, all, entity, entity_global),
        decreases all.len() - j,
    {
        let ghost rest = all.subrange(j as int, all.len() as int);
        assert(rest[0] == all[j as int]);
        assert(rest.drop_first() =~= all.subrange(j + 1, all.len() as int));
        let x = components[j];
        if x.entity == entity {
            enter_component(c, world, x, entity_global);
        }
        j += 1;
    }
    assert(all.subrange(all.len() as int, all.len() as int).len() == 0);
}

fn sync_entity(
    c: &mut ClientConnection,
    rooms: &Vec<Room>,
    owners: &Vec<Ownership>,
    components: &Vec<RegisteredComponent>,
    world: &World,
    user: u64,
    x: RegisteredEntity,
)
    requires
        old(c).wf(),
        world.wf(),
    ensures
        final(c).wf(),
        final(c)@ == entity_synced(
            old(c)@,
            rooms_view(rooms@),
            owners@,
            components@,
            world@,
            user,
            x,
        ),
{
    let entity = EntityKey { value: x.entity };
    let scoped = rooms_in_scope(rooms, user, x.entity) && world.has_entity(&entity);
    let present = c.has(x.global);
    if scoped {
        if !present {
            match c.spawn_entity(x.global) {
                Ok(_) => {
                    enter_components(c, world, components, x.entity, x.global);
                },
                Err(_) => {},
            }
        }
        let is_owner = match owner_lookup(owners, x.entity) {
            Some(owner) => owner == user,
            None => false,
        };
        c.set_pawn(x.global, is_owner);
    } else if present {
        c.despawn(x.global);
    }
}

fn sync_scope(
    c: &mut ClientConnection,
    rooms: &Vec<Room>,
    owners: &Vec<Ownership>,
    components: &Vec<RegisteredComponent>,
    world: &World,
    user: u64,
    entities: &Vec<RegisteredEntity>,
)
    requires
        old(c).wf(),
        world.wf(),
    ensures
        final(c).wf(),
        final(c)@ == scope_synced(
            old(c)@,
            rooms_view(rooms@),
            owners@,
            components@,
            world@,
            user,
            entities@,
        ),
{
    let ghost all = entities@;
    let mut j: usize = 0;
    assert(all.subrange(0, all.len() as int) =~= all);
    while j < entities.len()
        invariant
            j <= all.len(),
            c.wf(),
            world.wf(),
            all == entities@,
            scope_synced(
                c@,
                rooms_view(rooms@),
                owners@,
                components@,
                world@,
                user,
                all.subrange(j as int, all.len() as int),
            ) == scope_synced(
                old(c)@,
                rooms_view(rooms@),
                owners@,
                components@,
                world@,
                user,
                all,
            ),
        decreases all.len() - j,
    {
        let ghost rest = all.subrange(j as int, all.len() as int);
        assert(rest[0] == all[j as int]);
        assert(rest.drop_first() =~= all.subrange(j + 1, all.len() as int));
        sync_entity(c, rooms, owners, components, world, user, entities[j]);
        j += 1;
    }
    assert(all.subrange(all.len() as int, all.len() as int).len() == 0);
}

/// Keeps the users, the rooms and what each user's connection replicates.
pub struct Server {
    config: ServerConfig,
    users: Vec<User>,
    rooms: Vec<Room>,
    owners: Vec<Ownership>,
    entities: Vec<RegisteredEntity>,
    components: Vec<RegisteredComponent>,
    next_user: u64,
    next_room: u64,
    next_global: u32,
}

impl View for Server {
    type V = ServerView;

    closed spec fn view(&self) -> ServerView {
        ServerView {
            config: self.config,
            users: users_view(self.users@),
            rooms: rooms_view(self.rooms@),
            owners: self.owners@,
            entities: self.entities@,
            components: self.components@,
            next_user: self.next_user,
            next_room: self.next_room,
            next_global: self.next_global,
        }
    }
}

impl Server {
    /// The settings are valid and every connection is well formed.
    pub closed spec fn wf(&self) -> bool {
        &&& valid_config(self.config)
        &&& forall|i: int| 0 <= i < self.users@.len() ==> (#[trigger] self.users@[i]).connection.wf()
    }

    /// A server without users, rooms or entities; none where the settings
    /// are not valid.
    pub fn new(config: ServerConfig) -> (r: Option<Self>)
        ensures
            r is Some <==> valid_config(config),
            r matches Some(s) ==> s.wf() && s@ == (ServerView {
                config,
                users: Seq::empty(),
                rooms: Seq::empty(),
                owners: Seq::empty(),
                entities: Seq::empty(),
                components: Seq::empty(),
                next_user: 0,
                next_room: 0,
                next_global: 0,
            }),
    {
        if !config.is_valid() {
            return None;
        }
        let s = Server {
            config,
            users: Vec::new(),
            rooms: Vec::new(),
            owners: Vec::new(),
            entities: Vec::new(),
            components: Vec::new(),
            next_user: 0,
            next_room: 0,
            next_global: 0,
        };
        assert(s@.users =~= Seq::empty());
        assert(s@.rooms =~= Seq::empty());
        Some(s)
    }

    /// The index of the user `key`, or the number of users.
    pub fn find_user(&self, key: &UserKey) -> (at: usize)
        ensures
            at == user_position(self@.users, *key),
            at <= self@.users.len(),
            at < self@.users.len() ==> self@.users[at as int].key == *key,
    {
        let mut i: usize = 0;
        let ghost whole = self@.users;
        assert(whole.subrange(0, whole.len() as int) =~= whole);
        while i < self.users.len()
            invariant
                i <= self.users@.len(),
                whole == self@.users,
                user_position(whole, *key) == i + user_position(
                    whole.subrange(i as int, whole.len() as int),
                    *key,
                ),
            decreases self.users@.len() - i,
        {
            let ghost rest = whole.subrange(i as int, whole.len() as int);
            assert(rest[0] == whole[i as int]);
            assert(rest.drop_first() =~= whole.subrange(i + 1, whole.len() as int));
            if self.users[i].key.value == key.value {
                return i;
            }
            i += 1;
        }
        assert(whole.subrange(i as int, whole.len() as int).len() == 0);
        i
    }

    /// The index of the room `key`, or the number of rooms.
    pub fn find_room(&self, key: &RoomKey) -> (at: usize)
        ensures
            at == room_position(self@.rooms, *key),
            at <= self@.rooms.len(),
            at < self@.rooms.len() ==> self@.rooms[at as int].key == *key,
    {
        let mut i: usize = 0;
        let ghost whole = self@.rooms;
        assert(whole.subrange(0, whole.len() as int) =~= whole);
        while i < self.rooms.len()
            invariant
                i <= self.rooms@.len(),
                whole == self@.rooms,
                room_position(whole, *key) == i + room_position(
                    whole.subrange(i as int, whole.len() as int),
                    *key,
                ),
            decreases self.rooms@.len() - i,
        {
            let ghost rest = whole.subrange(i as int, whole.len() as int);
            assert(rest[0] == whole[i as int]);
            assert(rest.drop_first() =~= whole.subrange(i + 1, whole.len() as int));
            if self.rooms[i].key.value == key.value {
                return i;
            }
            i += 1;
        }
        assert(whole.subrange(i as int, whole.len() as int).len() == 0);
        i
    }

    /// Whether there is a user `key`.
    pub fn user_exists(&self, key: &UserKey) -> (b: bool)
        ensures
            b == (user_position(self@.users, *key) < self@.users.len()),
    {
        self.find_user(key) < self.users.len()
    }

    /// The number of users.
    pub fn users_count(&self) -> (n: usize)
        ensures
            n == self@.users.len(),
    {
        self.users.len()
    }

    /// Adds a user with a fresh connection whose clocks start at `now`;
    /// none where the keys have run out.
    pub fn user_create(&mut self, now: u64) -> (r: Option<UserKey>)
        requires
            old(self).wf(),
        ensures
            final(self).wf(),
            match r {
                Some(key) => old(self)@.next_user < u64::MAX && key.value == old(self)@.next_user
                    && final(self)@ == (ServerView {
                    users: old(self)@.users.push(
                        UserView {
                            key,
                            connection: crate::client_connection::fresh_client_connection(
                                old(self)@.config,
                                now,
                            ),
                        },
                    ),
                    next_user: (old(self)@.next_user + 1) as u64,
                    ..old(self)@
                }),
                None => old(self)@.next_user == u64::MAX && final(self)@ == old(self)@,
            },
    {
        if self.next_user == u64::MAX {
            return None;
        }
        let connection = match ClientConnection::new(&self.config, now) {
            Some(c) => c,
            None => {
                return None;
            },
        };
        let key = UserKey { value: self.next_user };
        let ghost before = self@.users;
        self.users.push(User { key, connection });
        self.next_user = self.next_user + 1;
        proof {
            assert(self@.users =~= before.push(
                UserView {
                    key,
                    connection: crate::client_connection::fresh_client_connection(
                        old(self)@.config,
                        now,
                    ),
                },
            ));
            assert forall|i: int| 0 <= i < self.users@.len() implies (
            #[trigger] self.users@[i]).connection.wf() by {
                if i < old(self).users@.len() {
                    assert(self.users@[i] == old(self).users@[i]);
                }
            }
        }
        Some(key)
    }

    /// Removes the user `key` with its connection, and from the rooms. The
    /// result says whether there was such a user.
    pub fn user_delete(&mut self, key: &UserKey) -> (found: bool)
        requires
            old(self).wf(),
        ensures
            final(self).wf(),
            found == (user_position(old(self)@.users, *key) < old(self)@.users.len()),
            found ==> final(self)@ == (ServerView {
                users: old(self)@.users.remove(user_position(old(self)@.users, *key)),
                rooms: rooms_without_user(old(self)@.rooms, key.value),
                ..old(self)@
            }),
            !found ==> final(self)@ == old(self)@,
    {
        let at = self.find_user(key);
        if at >= self.users.len() {
            return false;
        }
        let ghost before = self@.users;
        self.users.remove(at);
        proof {
            assert(self@.users =~= before.remove(at as int));
            assert forall|i: int| 0 <= i < self.users@.len() implies (
            #[trigger] self.users@[i]).connection.wf() by {
                if i < at {
                    assert(self.users@[i] == old(self).users@[i]);
                } else {
                    assert(self.users@[i] == old(self).users@[i + 1]);
                }
            }
        }
        let mut i: usize = 0;
        while i < self.rooms.len()
            invariant
                i <= self.rooms@.len(),
                self.wf(),
                self.rooms@.len() == old(self).rooms@.len(),
                self@ == (ServerView {
                    users: before.remove(at as int),
                    rooms: self@.rooms,
                    ..old(self)@
                }),
                forall|j: int|
                    0 <= j < i ==> (#[trigger] self@.rooms[j]) == (RoomView {
                        users: without(old(self)@.rooms[j].users, key.value),
                        ..old(self)@.rooms[j]
                    }),
                forall|j: int|
                    i <= j < self.rooms@.len() ==> (#[trigger] self@.rooms[j]) == old(self)@.rooms[j],
            decreases self.rooms@.len() - i,
        {
            let ghost rooms_before = self@.rooms;
            assert(rooms_before[i as int] == old(self)@.rooms[i as int]);
            list_remove(&mut self.rooms[i].users, key.value);
            proof {
                assert forall|j: int| 0 <= j < self.rooms@.len() && j != i implies (
                #[trigger] self@.rooms[j]) == rooms_before[j] by {}
            }
            i += 1;
        }
        assert(self@.rooms =~= rooms_without_user(old(self)@.rooms, key.value));
        true
    }

    /// Adds an empty room; none where the keys have run out.
    pub fn make_room(&mut self) -> (r: Option<RoomKey>)
        requires
            old(self).wf(),
        ensures
            final(self).wf(),
            match r {
                Some(key) => old(self)@.next_room < u64::MAX && key.value == old(self)@.next_room
                    && final(self)@ == (ServerView {
                    rooms: old(self)@.rooms.push(
                        RoomView { key, users: Seq::empty(), entities: Seq::empty() },
                    ),
                    next_room: (old(self)@.next_room + 1) as u64,
                    ..old(self)@
                }),
                None => old(self)@.next_room == u64::MAX && final(self)@ == old(self)@,
            },
    {
        if self.next_room == u64::MAX {
            return None;
        }
        let key = RoomKey { value: self.next_room };
        self.rooms.push(Room { key, users: Vec::new(), entities: Vec::new() });
        self.next_room = self.next_room + 1;
        assert(self@.rooms =~= old(self)@.rooms.push(
            RoomView { key, users: Seq::empty(), entities: Seq::empty() },
        ));
        Some(key)
    }

    /// Whether there is a room `key`.
    pub fn room_exists(&self, key: &RoomKey) -> (b: bool)
        ensures
            b == (room_position(self@.rooms, *key) < self@.rooms.len()),
    {
        self.find_room(key) < self.rooms.len()
    }

    /// Adds a user to a room. Nothing changes where there is no such room.
    pub fn room_add_user(&mut self, room_key: &RoomKey, user_key: &UserKey)
        requires
            old(self).wf(),
        ensures
            final(self).wf(),
            final(self)@ == (ServerView {
                rooms: if room_position(old(self)@.rooms, *room_key) < old(self)@.rooms.len() {
                    let was = old(self)@.rooms[room_position(old(self)@.rooms, *room_key)];
                    old(self)@.rooms.update(
                        room_position(old(self)@.rooms, *room_key),
                        RoomView { users: with(was.users, user_key.value), ..was },
                    )
                } else {
                    old(self)@.rooms
                },
                ..old(self)@
            }),
    {
        let at = self.find_room(room_key);
        if at < self.rooms.len() {
            let ghost was = self@.rooms[at as int];
            list_insert(&mut self.rooms[at].users, user_key.value);
            assert(self@.rooms =~= old(self)@.rooms.update(
                at as int,
                RoomView { users: with(was.users, user_key.value), ..was },
            ));
        } else {
            assert(self@.rooms =~= old(self)@.rooms);
        }
    }

    /// Removes a user from a room.
    pub fn room_remove_user(&mut self, room_key: &RoomKey, user_key: &UserKey)
        requires
            old(self).wf(),
        ensures
            final(self).wf(),
            final(self)@ == (ServerView {
                rooms: if room_position(old(self)@.rooms, *room_key) < old(self)@.rooms.len() {
                    let was = old(self)@.rooms[room_position(old(self)@.rooms, *room_key)];
                    old(self)@.rooms.update(
                        room_position(old(self)@.rooms, *room_key),
                        RoomView { users: without(was.users, user_key.value), ..was },
                    )
                } else {
                    old(self)@.rooms
                },
                ..old(self)@
            }),
    {
        let at = self.find_room(room_key);
        if at < self.rooms.len() {
            let ghost was = self@.rooms[at as int];
            list_remove(&mut self.rooms[at].users, user_key.value);
            assert(self@.rooms =~= old(self)@.rooms.update(
                at as int,
                RoomView { users: without(was.users, user_key.value), ..was },
            ));
        } else {
            assert(self@.rooms =~= old(self)@.rooms);
        }
    }

    /// Adds an entity to a room. Nothing changes where there is no such
    /// room.
    pub fn room_add_entity(&mut self, room_key: &RoomKey, entity_key: &EntityKey)
        requires
            old(self).wf(),
        ensures
            final(self).wf(),
            final(self)@ == (ServerView {
                rooms: if room_position(old(self)@.rooms, *room_key) < old(self)@.rooms.len() {
                    let was = old(self)@.rooms[room_position(old(self)@.rooms, *room_key)];
                    old(self)@.rooms.update(
                        room_position(old(self)@.rooms, *room_key),
                        RoomView { entities: with(was.entities, entity_key.value), ..was },
                    )
                } else {
                    old(self)@.rooms
                },
                ..old(self)@
            }),
    {
        let at = self.find_room(room_key);
        if at < self.rooms.len() {
            let ghost was = self@.rooms[at as int];
            list_insert(&mut self.rooms[at].entities, entity_key.value);
            assert(self@.rooms =~= old(self)@.rooms.update(
                at as int,
                RoomView { entities: with(was.entities, entity_key.value), ..was },
            ));
        } else {
            assert(self@.rooms =~= old(self)@.rooms);
        }
    }

    /// Removes an entity from a room.
    pub fn room_remove_entity(&mut self, room_key: &RoomKey, entity_key: &EntityKey)
        requires
            old(self).wf(),
        ensures
            final(self).wf(),
            final(self)@ == (ServerView {
                rooms: if room_position(old(self)@.rooms, *room_key) < old(self)@.rooms.len() {
                    let was = old(self)@.rooms[room_position(old(self)@.rooms, *room_key)];
                    old(self)@.rooms.update(
                        room_position(old(self)@.rooms, *room_key),
                        RoomView { entities: without(was.entities, entity_key.value), ..was },
                    )
                } else {
                    old(self)@.rooms
                },
                ..old(self)@
            }),
    {
        let at = self.find_room(room_key);
        if at < self.rooms.len() {
            let ghost was = self@.rooms[at as int];
            list_remove(&mut self.rooms[at].entities, entity_key.value);
            assert(self@.rooms =~= old(self)@.rooms.update(
                at as int,
                RoomView { entities: without(was.entities, entity_key.value), ..was },
            ));
        } else {
            assert(self@.rooms =~= old(self)@.rooms);
        }
    }

    /// Whether a room holds a user.
    pub fn room_has_user(&self, room_key: &RoomKey, user_key: &UserKey) -> (b: bool)
        ensures
            b == (room_position(self@.rooms, *room_key) < self@.rooms.len()
                && self@.rooms[room_position(self@.rooms, *room_key)].users.contains(
                user_key.value,
            )),
    {
        let at = self.find_room(room_key);
        at < self.rooms.len() && list_contains(&self.rooms[at].users, user_key.value)
    }

    /// Whether a room holds an entity.
    pub fn room_has_entity(&self, room_key: &RoomKey, entity_key: &EntityKey) -> (b: bool)
        ensures
            b == (room_position(self@.rooms, *room_key) < self@.rooms.len()
                && self@.rooms[room_position(self@.rooms, *room_key)].entities.contains(
                entity_key.value,
            )),
    {
        let at = self.find_room(room_key);
        at < self.rooms.len() && list_contains(&self.rooms[at].entities, entity_key.value)
    }

    /// Whether an entity is in a user's scope.
    pub fn entity_in_scope(&self, user_key: &UserKey, entity_key: &EntityKey) -> (b: bool)
        ensures
            b == in_scope(self@.rooms, user_key.value, entity_key.value),
    {
        rooms_in_scope(&self.rooms, user_key.value, entity_key.value)
    }

    /// The owner of an entity.
    pub fn entity_get_owner(&self, entity_key: &EntityKey) -> (r: Option<UserKey>)
        ensures
            match r {
                Some(user) => owner_of(self@.owners, entity_key.value) == Some(user.value),
                None => owner_of(self@.owners, entity_key.value) is None,
            },
    {
        match owner_lookup(&self.owners, entity_key.value) {
            Some(user) => Some(UserKey { value: user }),
            None => None,
        }
    }

    /// Whether an entity has an owner.
    pub fn entity_has_owner(&self, entity_key: &EntityKey) -> (b: bool)
        ensures
            b == owner_of(self@.owners, entity_key.value) is Some,
    {
        self.entity_get_owner(entity_key).is_some()
    }

    /// Takes the owner from an entity.
    pub fn entity_disown(&mut self, entity_key: &EntityKey)
        requires
            old(self).wf(),
        ensures
            final(self).wf(),
            final(self)@ == (ServerView {
                owners: owners_without(old(self)@.owners, entity_key.value),
                ..old(self)@
            }),
    {
        let mut kept: Vec<Ownership> = Vec::new();
        let mut i: usize = 0;
        let ghost all = self@.owners;
        assert(all.subrange(0, 0) =~= Seq::empty());
        while i < self.owners.len()
            invariant
                i <= self.owners@.len(),
                self@ == old(self)@,
                self.wf(),
                all == self@.owners,
                kept@ == owners_without(all.subrange(0, i as int), entity_key.value),
            decreases self.owners@.len() - i,
        {
            proof {
                let part = all.subrange(0, i + 1);
                assert(part.drop_last() =~= all.subrange(0, i as int));
                assert(part.last() == all[i as int]);
            }
            if self.owners[i].entity != entity_key.value {
                kept.push(self.owners[i]);
            }
            i += 1;
        }
        assert(all.subrange(0, i as int) =~= all);
        self.owners = kept;
    }

    /// Makes a user the owner of an entity, in place of the owner it had.
    /// Nothing changes where there is no such user.
    pub fn entity_set_owner(&mut self, entity_key: &EntityKey, user_key: &UserKey)
        requires
            old(self).wf(),
        ensures
            final(self).wf(),
            final(self)@ == (ServerView {
                owners: if user_position(old(self)@.users, *user_key) < old(self)@.users.len() {
                    owners_without(old(self)@.owners, entity_key.value).push(
                        Ownership { entity: entity_key.value, user: user_key.value },
                    )
                } else {
                    old(self)@.owners
                },
                ..old(self)@
            }),
    {
        if self.user_exists(user_key) {
            self.entity_disown(entity_key);
            self.owners.push(Ownership { entity: entity_key.value, user: user_key.value });
        }
    }

    /// The id under which an entity is replicated.
    pub fn entity_global(&self, entity_key: &EntityKey) -> (r: Option<u32>)
        ensures
            r == global_of(self@.entities, entity_key.value),
    {
        let mut i: usize = 0;
        let ghost whole = self@.entities;
        assert(whole.subrange(0, whole.len() as int) =~= whole);
        while i < self.entities.len()
            invariant
                i <= self.entities@.len(),
                whole == self@.entities,
                global_of(whole, entity_key.value) == global_of(
                    whole.subrange(i as int, whole.len() as int),
                    entity_key.value,
                ),
            decreases self.entities@.len() - i,
        {
            let ghost rest = whole.subrange(i as int, whole.len() as int);
            assert(rest[0] == whole[i as int]);
            assert(rest.drop_first() =~= whole.subrange(i + 1, whole.len() as int));
            if self.entities[i].entity == entity_key.value {
                return Some(self.entities[i].global);
            }
            i += 1;
        }
        assert(whole.subrange(i as int, whole.len() as int).len() == 0);
        None
    }
    /// The id under which a component is replicated.
    pub fn component_global(&self, entity_key: &EntityKey, kind: u16) -> (r: Option<u32>)
        ensures
            r == component_global_of(self@.components, entity_key.value, kind),
    {
        let mut i: usize = 0;
        let ghost whole = self@.components;
        assert(whole.subrange(0, whole.len() as int) =~= whole);
        while i < self.components.len()
            invariant
                i <= self.components@.len(),
                whole == self@.components,
                component_global_of(whole, entity_key.value, kind) == component_global_of(
                    whole.subrange(i as int, whole.len() as int),
                    entity_key.value,
                    kind,
                ),
            decreases self.components@.len() - i,
        {
            let ghost rest = whole.subrange(i as int, whole.len() as int);
            assert(rest[0] == whole[i as int]);
            assert(rest.drop_first() =~= whole.subrange(i + 1, whole.len() as int));
            if self.components[i].entity == entity_key.value && self.components[i].kind == kind {
                return Some(self.components[i].global);
            }
            i += 1;
        }
        assert(whole.subrange(i as int, whole.len() as int).len() == 0);
        None
    }

    fn unregister(&mut self, entity: u64, kind: Option<u16>)
        requires
            old(self).wf(),
        ensures
            final(self).wf(),
            final(self)@ == (ServerView {
                entities: if kind is None {
                    entities_without(old(self)@.entities, entity)
                } else {
                    old(self)@.entities
                },
                components: components_without(old(self)@.components, entity, kind),
                ..old(self)@
            }),
    {
        if kind.is_none() {
            let mut kept: Vec<RegisteredEntity> = Vec::new();
            let mut i: usize = 0;
            let ghost all = self@.entities;
            assert(all.subrange(0, 0) =~= Seq::empty());
            while i < self.entities.len()
                invariant
                    i <= self.entities@.len(),
                    self@ == old(self)@,
                    self.wf(),
                    all == self@.entities,
                    kept@ == entities_without(all.subrange(0, i as int), entity),
                decreases self.entities@.len() - i,
            {
                proof {
                    let part = all.subrange(0, i + 1);
                    assert(part.drop_last() =~= all.subrange(0, i as int));
                    assert(part.last() == all[i as int]);
                }
                if self.entities[i].entity != entity {
                    kept.push(self.entities[i]);
                }
                i += 1;
            }
            assert(all.subrange(0, i as int) =~= all);
            self.entities = kept;
        }
        let ghost mid = self@;
        let mut kept: Vec<RegisteredComponent> = Vec::new();
        let mut i: usize = 0;
        let ghost all = self@.components;
        assert(all.subrange(0, 0) =~= Seq::empty());
        while i < self.components.len()
            invariant
                i <= self.components@.len(),
                self@ == mid,
                self.wf(),
                all == self@.components,
                kept@ == components_without(all.subrange(0, i as int), entity, kind),
            decreases self.components@.len() - i,
        {
            proof {
                let part = all.subrange(0, i + 1);
                assert(part.drop_last() =~= all.subrange(0, i as int));
                assert(part.last() == all[i as int]);
            }
            let x = self.components[i];
            let gone = x.entity == entity && match kind {
                None => true,
                Some(k) => k == x.kind,
            };
            if !gone {
                kept.push(x);
            }
            i += 1;
        }
        assert(all.subrange(0, i as int) =~= all);
        self.components = kept;
    }

    fn despawn_everywhere(&mut self, global: u32)
        requires
            old(self).wf(),
        ensures
            final(self).wf(),
            final(self)@ == (ServerView {
                users: users_despawned(old(self)@.users, Some(global)),
                ..old(self)@
            }),
    {
        let mut i: usize = 0;
        let ghost goal = users_despawned(old(self)@.users, Some(global));
        while i < self.users.len()
            invariant
                i <= self.users@.len(),
                self.wf(),
                self.users@.len() == old(self).users@.len(),
                self@ == (ServerView { users: self@.users, ..old(self)@ }),
                goal == users_despawned(old(self)@.users, Some(global)),
                forall|j: int| 0 <= j < i ==> #[trigger] self@.users[j] == goal[j],
                forall|j: int|
                    i <= j < self.users@.len() ==> #[trigger] self@.users[j] == old(self)@.users[j],
            decreases self.users@.len() - i,
        {
            let ghost before = self@.users;
            let ghost before_raw = self.users@;
            assert(before[i as int] == old(self)@.users[i as int]);
            self.users[i].connection.despawn(global);
            proof {
                assert forall|j: int| 0 <= j < self.users@.len() && j != i implies self.users@[j]
                    == before_raw[j] by {}
                assert forall|j: int| 0 <= j < self.users@.len() implies (
                #[trigger] self.users@[j]).connection.wf() by {
                    if j != i {
                        assert(self.users@[j] == before_raw[j]);
                    }
                }
                assert forall|j: int| 0 <= j < i + 1 implies #[trigger] self@.users[j] == goal[j] by {
                    if j < i {
                        assert(self@.users[j] == before[j]);
                    }
                }
                assert forall|j: int| i + 1 <= j < self.users@.len() implies #[trigger] self@.users[j]
                    == old(self)@.users[j] by {
                    assert(self@.users[j] == before[j]);
                }
            }
            i += 1;
        }
        assert(self@.users =~= goal);
    }

    /// Adds an entity to the world and registers it for replication; none
    /// where the world or the ids are full.
    pub fn spawn_entity(&mut self, world: &mut World) -> (r: Option<EntityKey>)
        requires
            old(self).wf(),
            old(world).wf(),
        ensures
            final(self).wf(),
            final(world).wf(),
            r is Some <==> old(self)@.next_global < u32::MAX && old(world).has_room(),
            match r {
                Some(key) => {
                    &&& !old(world)@.contains_key(key.value)
                    &&& canonical(key.value) == key.value
                    &&& final(world)@ == old(world)@.insert(key.value, Map::empty())
                    &&& final(self)@ == (ServerView {
                        entities: old(self)@.entities.push(
                            RegisteredEntity { entity: key.value, global: old(self)@.next_global },
                        ),
                        next_global: (old(self)@.next_global + 1) as u32,
                        ..old(self)@
                    })
                },
                None => final(self)@ == old(self)@ && final(world)@ == old(world)@,
            },
    {
        if self.next_global == u32::MAX {
            return None;
        }
        match world.spawn_entity() {
            Some(key) => {
                self.entities.push(RegisteredEntity { entity: key.value, global: self.next_global });
                self.next_global = self.next_global + 1;
                Some(key)
            },
            None => None,
        }
    }

    /// Removes an entity from the world, from the rooms, from its owner
    /// and from the scope of every user.
    pub fn despawn_entity(&mut self, world: &mut World, entity_key: &EntityKey)
        requires
            old(self).wf(),
            old(world).wf(),
        ensures
            final(self).wf(),
            final(world).wf(),
            final(world)@ == old(world)@.remove(canonical(entity_key.value)),
            final(self)@ == server_after_despawn(old(self)@, entity_key.value),
    {
        world.despawn_entity(entity_key);
        match self.entity_global(entity_key) {
            Some(global) => {
                self.despawn_everywhere(global);
            },
            None => {},
        }
        self.entity_disown(entity_key);
        self.unregister(entity_key.value, None);
    }

    /// Gives an entity of the world a component and brings it into the
    /// scope of every user that replicates the entity. Nothing changes
    /// where the world has no such entity, the entity has a component of
    /// that kind already, or the ids have run out; the result says whether
    /// the component was added.
    pub fn insert_component(
        &mut self,
        world: &mut World,
        entity_key: &EntityKey,
        component: Variant,
    ) -> (added: bool)
        requires
            old(self).wf(),
            old(world).wf(),
        ensures
            final(self).wf(),
            final(world).wf(),
            added == can_insert_component(old(self)@, old(world)@, entity_key.value, component@),
            final(world)@ == world_after_insert(
                old(self)@,
                old(world)@,
                entity_key.value,
                component@,
            ),
            final(self)@ == server_after_insert(
                old(self)@,
                old(world)@,
                entity_key.value,
                component@,
            ),
    {
        if self.next_global == u32::MAX {
            return false;
        }
        let kind = component.naia_id();
        if world.has_component_of_type(entity_key, kind) {
            return false;
        }
        if !world.insert_component(entity_key, component) {
            return false;
        }
        let x = RegisteredComponent { entity: entity_key.value, kind, global: self.next_global };
        self.components.push(x);
        self.next_global = self.next_global + 1;
        match self.entity_global(entity_key) {
            Some(entity_global) => {
                let ghost mid = self@;
                let ghost goal = users_entered(mid.users, world@, x, Some(entity_global));
                let mut i: usize = 0;
                while i < self.users.len()
                    invariant
                        i <= self.users@.len(),
                        self.wf(),
                        world.wf(),
                        self.users@.len() == mid.users.len(),
                        self@ == (ServerView { users: self@.users, ..mid }),
                        goal == users_entered(mid.users, world@, x, Some(entity_global)),
                        forall|j: int| 0 <= j < i ==> #[trigger] self@.users[j] == goal[j],
                        forall|j: int|
                            i <= j < self.users@.len() ==> #[trigger] self@.users[j] == mid.users[j],
                    decreases self.users@.len() - i,
                {
                    let ghost before = self@.users;
                    let ghost before_raw = self.users@;
                    assert(before[i as int] == mid.users[i as int]);
                    if self.users[i].connection.has(entity_global) {
                        enter_component(&mut self.users[i].connection, world, x, entity_global);
                    }
                    proof {
                        assert forall|j: int| 0 <= j < self.users@.len() && j != i implies self.users@[j]
                            == before_raw[j] by {}
                        assert forall|j: int| 0 <= j < self.users@.len() implies (
                        #[trigger] self.users@[j]).connection.wf() by {
                            if j != i {
                                assert(self.users@[j] == before_raw[j]);
                            }
                        }
                        assert forall|j: int| 0 <= j < i + 1 implies #[trigger] self@.users[j]
                            == goal[j] by {
                            if j < i {
                                assert(self@.users[j] == before[j]);
                            }
                        }
                        assert forall|j: int|
                            i + 1 <= j < self.users@.len() implies #[trigger] self@.users[j]
                            == mid.users[j] by {
                            assert(self@.users[j] == before[j]);
                        }
                    }
                    i += 1;
                }
                assert(self@.users =~= goal);
            },
            None => {},
        }
        true
    }

    /// Takes a component from an entity of the world and out of the scope
    /// of every user.
    pub fn remove_component(&mut self, world: &mut World, entity_key: &EntityKey, kind: u16) -> (r:
        Option<Variant>)
        requires
            old(self).wf(),
            old(world).wf(),
        ensures
            final(self).wf(),
            final(world).wf(),
            match r {
                Some(v) => old(world)@.contains_key(canonical(entity_key.value)) && old(world)@[canonical(entity_key.value)].contains_key(kind as u32) && v@ == old(world)@[canonical(entity_key.value)][kind as u32] && final(world)@ == old(world)@.insert(
                    canonical(entity_key.value),
                    old(world)@[canonical(entity_key.value)].remove(kind as u32),
                ),
                None => !(old(world)@.contains_key(canonical(entity_key.value)) && old(world)@[canonical(entity_key.value)].contains_key(kind as u32)) && final(world)@
                    == old(world)@,
            },
            final(self)@ == server_after_remove(old(self)@, entity_key.value, kind),
    {
        let r = world.remove_component(entity_key, kind);
        match self.component_global(entity_key, kind) {
            Some(global) => {
                self.despawn_everywhere(global);
            },
            None => {},
        }
        self.unregister(entity_key.value, Some(kind));
        r
    }

    /// Brings the scope of every user up to date with the rooms: an entity
    /// that shares a room with the user enters the user's scope with its
    /// components, one that no longer does leaves it, and the owner of an
    /// entity has it as its pawn.
    pub fn update_scopes(&mut self, world: &World)
        requires
            old(self).wf(),
            world.wf(),
        ensures
            final(self).wf(),
            final(self)@ == (ServerView {
                users: scopes_synced(old(self)@, world@),
                ..old(self)@
            }),
    {
        let ghost goal = scopes_synced(old(self)@, world@);
        let mut i: usize = 0;
        while i < self.users.len()
            invariant
                i <= self.users@.len(),
                self.wf(),
                world.wf(),
                self.users@.len() == old(self).users@.len(),
                self@ == (ServerView { users: self@.users, ..old(self)@ }),
                goal == scopes_synced(old(self)@, world@),
                forall|j: int| 0 <= j < i ==> #[trigger] self@.users[j] == goal[j],
                forall|j: int|
                    i <= j < self.users@.len() ==> #[trigger] self@.users[j] == old(self)@.users[j],
            decreases self.users@.len() - i,
        {
            let ghost before = self@.users;
            let ghost before_raw = self.users@;
            assert(before[i as int] == old(self)@.users[i as int]);
            let user = self.users[i].key.value;
            sync_scope(
                &mut self.users[i].connection,
                &self.rooms,
                &self.owners,
                &self.components,
                world,
                user,
                &self.entities,
            );
            proof {
                assert forall|j: int| 0 <= j < self.users@.len() && j != i implies self.users@[j]
                    == before_raw[j] by {}
                assert forall|j: int| 0 <= j < self.users@.len() implies (
                #[trigger] self.users@[j]).connection.wf() by {
                    if j != i {
                        assert(self.users@[j] == before_raw[j]);
                    }
                }
                assert forall|j: int| 0 <= j < i + 1 implies #[trigger] self@.users[j] == goal[j] by {
                    if j < i {
                        assert(self@.users[j] == before[j]);
                    }
                }
                assert forall|j: int|
                    i + 1 <= j < self.users@.len() implies #[trigger] self@.users[j] == old(self)@.users[j] by {
                    assert(self@.users[j] == before[j]);
                }
            }
            i += 1;
        }
        assert(self@.users =~= goal);
    }

    /// The connection to a user.
    pub fn connection(&self, user_key: &UserKey) -> (r: Option<&ClientConnection>)
        requires
            self.wf(),
        ensures
            match r {
                Some(c) => user_position(self@.users, *user_key) < self@.users.len() && c@
                    == self@.users[user_position(self@.users, *user_key)].connection && c.wf(),
                None => user_position(self@.users, *user_key) >= self@.users.len(),
            },
    {
        let at = self.find_user(user_key);
        if at < self.users.len() {
            Some(&self.users[at].connection)
        } else {
            None
        }
    }

    /// The next data packet for a user, if there is such a user and
    /// anything is written.
    pub fn user_get_outgoing_packet(&mut self, user_key: &UserKey, host_tick: u16, now: u64) -> (r:
        Option<Vec<u8>>)
        requires
            old(self).wf(),
        ensures
            final(self).wf(),
            ({
                let at = user_position(old(self)@.users, *user_key);
                if at < old(self)@.users.len() {
                    let out = crate::client_connection::server_outgoing(
                        old(self)@.users[at].connection,
                        host_tick,
                        now,
                    );
                    &&& final(self)@ == connection_changed(old(self)@, at, out.state)
                    &&& match out.packet {
                        Some(bytes) => r is Some && r.unwrap()@ == bytes,
                        None => r is None,
                    }
                } else {
                    r is None && final(self)@ == old(self)@
                }
            }),
    {
        let at = self.find_user(user_key);
        if at >= self.users.len() {
            return None;
        }
        let ghost before_raw = self.users@;
        let r = self.users[at].connection.get_outgoing_packet(host_tick, now);
        proof {
            assert forall|j: int| 0 <= j < self.users@.len() implies (
            #[trigger] self.users@[j]).connection.wf() by {
                if j != at {
                    assert(self.users@[j] == before_raw[j]);
                }
            }
            assert(self@.users =~= old(self)@.users.update(
                at as int,
                UserView { key: old(self)@.users[at as int].key, connection: self@.users[at as int].connection },
            ));
        }
        r
    }

    /// Takes a header from a user. Without such a user there are no
    /// notices.
    pub fn user_process_incoming_header(
        &mut self,
        user_key: &UserKey,
        header: &crate::standard_header::StandardHeader,
        now: u64,
    ) -> (notices: Vec<crate::ack_manager::AckNotice>)
        requires
            old(self).wf(),
        ensures
            final(self).wf(),
            ({
                let at = user_position(old(self)@.users, *user_key);
                if at < old(self)@.users.len() {
                    let c = old(self)@.users[at].connection;
                    &&& notices@ == crate::ack_manager::notices_of(
                        c.connection.ack.sent,
                        header.last_remote_packet_index,
                        header.ack_field,
                        now,
                    )
                    &&& final(self)@.users.len() == old(self)@.users.len()
                    &&& final(self)@ == connection_changed(
                        old(self)@,
                        at,
                        final(self)@.users[at].connection,
                    )
                    &&& crate::server_connection::connection_heard(
                        c.connection,
                        final(self)@.users[at].connection.connection,
                        *header,
                        notices@,
                    )
                    &&& final(self)@.users[at].connection.sender
                        == crate::client_connection::sender_after(c.sender, notices@)
                    &&& final(self)@.users[at].connection.commands == c.commands
                } else {
                    notices@.len() == 0 && final(self)@ == old(self)@
                }
            }),
    {
        let at = self.find_user(user_key);
        if at >= self.users.len() {
            return Vec::new();
        }
        let ghost before_raw = self.users@;
        let notices = self.users[at].connection.process_incoming_header(header, now);
        proof {
            assert forall|j: int| 0 <= j < self.users@.len() implies (
            #[trigger] self.users@[j]).connection.wf() by {
                if j != at {
                    assert(self.users@[j] == before_raw[j]);
                }
            }
            assert(self@.users =~= old(self)@.users.update(
                at as int,
                UserView { key: old(self)@.users[at as int].key, connection: self@.users[at as int].connection },
            ));
        }
        notices
    }

    /// Processes the payload of a data packet from a user; none where
    /// there is no such user.
    pub fn user_process_incoming_data(
        &mut self,
        user_key: &UserKey,
        server_tick: u16,
        client_tick: u16,
        manifest: &crate::manifest::Manifest,
        data: &[u8],
    ) -> (r: Option<Result<(), crate::error::ProtocolError>>)
        requires
            old(self).wf(),
            manifest.wf(),
        ensures
            final(self).wf(),
            ({
                let at = user_position(old(self)@.users, *user_key);
                if at < old(self)@.users.len() {
                    let out = crate::client_connection::server_data_processed(
                        old(self)@.users[at].connection,
                        manifest.events().prototypes(),
                        data@,
                        0,
                        server_tick,
                        client_tick,
                    );
                    &&& final(self)@ == connection_changed(old(self)@, at, out.state)
                    &&& match out.error {
                        Some(e) => r == Some(Err::<(), crate::error::ProtocolError>(e)),
                        None => r is Some && r.unwrap() is Ok,
                    }
                } else {
                    r is None && final(self)@ == old(self)@
                }
            }),
    {
        let at = self.find_user(user_key);
        if at >= self.users.len() {
            return None;
        }
        let ghost before_raw = self.users@;
        let r = self.users[at].connection.process_incoming_data(
            server_tick,
            client_tick,
            manifest,
            data,
        );
        proof {
            assert forall|j: int| 0 <= j < self.users@.len() implies (
            #[trigger] self.users@[j]).connection.wf() by {
                if j != at {
                    assert(self.users@[j] == before_raw[j]);
                }
            }
            assert(self@.users =~= old(self)@.users.update(
                at as int,
                UserView { key: old(self)@.users[at as int].key, connection: self@.users[at as int].connection },
            ));
        }
        Some(r)
    }

    /// Takes the first command of a user that waits under `server_tick`,
    /// the tick that is simulated now, and discards what waits for the user
    /// under older ticks.
    pub fn user_pop_incoming_command(&mut self, user_key: &UserKey, server_tick: u16) -> (r:
        Option<(crate::keys::PawnKey, Variant)>)
        requires
            old(self).wf(),
        ensures
            final(self).wf(),
            ({
                let at = user_position(old(self)@.users, *user_key);
                if at < old(self)@.users.len() {
                    let c = old(self)@.users[at].connection;
                    let out = crate::command_receiver::popped(c.commands, server_tick);
                    &&& crate::command_receiver::command_view(r) == out.1
                    &&& final(self)@ == connection_changed(
                        old(self)@,
                        at,
                        ClientConnectionView { commands: out.0, ..c },
                    )
                } else {
                    r is None && final(self)@ == old(self)@
                }
            }),
    {
        let at = self.find_user(user_key);
        if at >= self.users.len() {
            return None;
        }
        let ghost before_raw = self.users@;
        let r = self.users[at].connection.pop_incoming_command(server_tick);
        proof {
            assert forall|j: int| 0 <= j < self.users@.len() implies (
            #[trigger] self.users@[j]).connection.wf() by {
                if j != at {
                    assert(self.users@[j] == before_raw[j]);
                }
            }
            assert(self@.users =~= old(self)@.users.update(
                at as int,
                UserView { key: old(self)@.users[at as int].key, connection: self@.users[at as int].connection },
            ));
        }
        r
    }

    /// Notes that a user was heard from at `now`. The result says whether
    /// there is such a user.
    pub fn user_mark_heard(&mut self, user_key: &UserKey, now: u64) -> (found: bool)
        requires
            old(self).wf(),
        ensures
            final(self).wf(),
            ({
                let at = user_position(old(self)@.users, *user_key);
                if at < old(self)@.users.len() {
                    let c = old(self)@.users[at].connection;
                    found && final(self)@ == connection_changed(
                        old(self)@,
                        at,
                        ClientConnectionView {
                            connection: crate::connection::ConnectionView {
                                last_heard_at: now,
                                ..c.connection
                            },
                            ..c
                        },
                    )
                } else {
                    !found && final(self)@ == old(self)@
                }
            }),
    {
        let at = self.find_user(user_key);
        if at >= self.users.len() {
            return false;
        }
        let ghost before_raw = self.users@;
        self.users[at].connection.mark_heard(now);
        proof {
            assert forall|j: int| 0 <= j < self.users@.len() implies (
            #[trigger] self.users@[j]).connection.wf() by {
                if j != at {
                    assert(self.users@[j] == before_raw[j]);
                }
            }
            assert(self@.users =~= old(self)@.users.update(
                at as int,
                UserView { key: old(self)@.users[at as int].key, connection: self@.users[at as int].connection },
            ));
        }
        true
    }

    /// The users that were not heard from for the disconnection timeout,
    /// in order.
    pub fn users_to_drop(&self, now: u64) -> (keys: Vec<UserKey>)
        ensures
            keys@ == timed_out(self@.users, now),
    {
        let mut keys: Vec<UserKey> = Vec::new();
        let mut i: usize = 0;
        let ghost all = self@.users;
        assert(all.subrange(0, 0) =~= Seq::empty());
        while i < self.users.len()
            invariant
                i <= self.users@.len(),
                all == self@.users,
                keys@ == timed_out(all.subrange(0, i as int), now),
            decreases self.users@.len() - i,
        {
            proof {
                let part = all.subrange(0, i + 1);
                assert(part.drop_last() =~= all.subrange(0, i as int));
                assert(part.last() == all[i as int]);
            }
            if self.users[i].connection.should_drop(now) {
                keys.push(self.users[i].key);
            }
            i += 1;
        }
        assert(all.subrange(0, i as int) =~= all);
        keys
    }
}

} // verus!
