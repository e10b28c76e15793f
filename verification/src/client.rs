//! The clients of one program: what each of them carries while it is
//! connected, and what a user may ask of it.

use crate::account::Account;
use crate::disconnect::{DisconnectEvent, IsConnectionAlive};
use crate::pathfinder::moves::Entity;
use crate::position::Vec3;
use crate::session::{GameProfile, Phase};
use std::collections::HashMap;
use vstd::prelude::*;

verus! {

/// The connection of a client, as the systems see it.
#[derive(Clone, Copy, Debug, PartialEq, Eq, Structural, Hash)]
pub struct RawConnection {
    /// The phase whose packets are read and written.
    pub phase: Phase,
    /// Whether the task that reads the packets is still running.
    pub alive: bool,
}

impl RawConnection {
    /// A connection that was just made and speaks the packets of `phase`.
    pub fn new(phase: Phase) -> (connection: RawConnection)
        ensures
            connection == (RawConnection { phase, alive: true }),
    {
        RawConnection { phase, alive: true }
    }

    pub fn is_alive(&self) -> (alive: bool)
        ensures
            alive == self.alive,
    {
        self.alive
    }
}

/// What a client carries while it is configured and while it plays.
#[derive(Clone, Debug, PartialEq, Eq)]
pub struct LocalPlayerBundle {
    /// The connection, until a disconnect drops it.
    pub raw_connection: Option<RawConnection>,
    pub game_profile: GameProfile,
    pub account: Account,
}

/// Marks a client that is being configured.
#[derive(Clone, Copy, Debug, PartialEq, Eq, Structural, Hash)]
pub struct InConfigurationState;

/// How hungry a player is. Saturation is counted in thousandths.
#[derive(Clone, Copy, Debug, PartialEq, Eq, Structural, Hash)]
pub struct Hunger {
    pub food: u32,
    pub saturation: u32,
}

/// Which chat messages the client wants to see.
#[derive(Clone, Copy, Debug, PartialEq, Eq, Structural, Hash)]
pub enum ChatVisibility {
    Full,
    System,
    Hidden,
}

/// The options of the game that the server is told of.
#[derive(Clone, Debug, PartialEq, Eq)]
pub struct ClientInformation {
    /// The language, as in `en_us`.
    pub language: String,
    pub view_distance: u8,
    pub chat_visibility: ChatVisibility,
    pub chat_colors: bool,
    /// The parts of the skin that are shown, one bit each.
    pub model_customization: u8,
    pub right_handed: bool,
    pub text_filtering_enabled: bool,
    pub allows_listing: bool,
}

impl Default for ClientInformation {
    /// The options of a client that was told nothing else.
    fn default() -> (information: ClientInformation)
        ensures
            information.language@ == "en_us"@,
            information.view_distance == 8,
            information.chat_visibility == ChatVisibility::Full,
            information.chat_colors,
            information.model_customization == 0,
            information.right_handed,
            !information.text_filtering_enabled,
            !information.allows_listing,
    {
        ClientInformation {
            language: "en_us".to_owned(),
            view_distance: 8,
            chat_visibility: ChatVisibility::Full,
            chat_colors: true,
            model_customization: 0,
            right_handed: true,
            text_filtering_enabled: false,
            allows_listing: false,
        }
    }
}

/// A line of the list of players.
#[derive(Clone, Debug, PartialEq, Eq)]
pub struct PlayerInfo {
    pub uuid: u128,
    pub name: String,
    pub display_name: Option<String>,
    /// The time that a packet takes to the player and back, in
    /// milliseconds.
    pub latency: i32,
    pub game_mode: u8,
}

/// What only a client that plays carries.
#[derive(Clone, Debug, PartialEq, Eq)]
pub struct JoinedClientBundle {
    pub client_information: ClientInformation,
    pub tab_list: Vec<PlayerInfo>,
    pub hunger: Hunger,
    pub permission_level: u8,
    pub current_sequence_number: u32,
}

/// Whether the bundle is that of a client that just entered the game with
/// these options: it knows no player, is not hungry, may do what every
/// player may, and has counted no action yet.
pub open spec fn is_fresh_joined(
    joined: JoinedClientBundle,
    client_information: ClientInformation,
) -> bool {
    &&& joined.client_information == client_information
    &&& joined.tab_list@.len() == 0
    &&& joined.hunger == (Hunger { food: 20, saturation: 5_000 })
    &&& joined.permission_level == 0
    &&& joined.current_sequence_number == 0
}

/// Everything that the store holds of one client.
#[derive(Clone, Debug, PartialEq, Eq)]
pub struct LocalPlayer {
    pub entity: Entity,
    pub bundle: LocalPlayerBundle,
    pub in_configuration: Option<InConfigurationState>,
    pub joined: Option<JoinedClientBundle>,
    pub is_connection_alive: Option<IsConnectionAlive>,
    /// Whether the state of the connection was written in this pass.
    pub connection_alive_changed: bool,
    pub position: Option<Vec3>,
    /// How far the client moves in a tick.
    pub velocity: Option<Vec3>,
    /// How far the client has fallen since it last stood, in millionths of
    /// a block.
    pub fall_distance: Option<u64>,
    /// The height of the eyes above the feet, in millionths of a block.
    pub eye_height: Option<i64>,
    /// Health in thousandths of a point.
    pub health: Option<u32>,
    /// The name of the world that the client is in, from the login on.
    pub instance_name: Option<String>,
}

/// The store of the clients, with the index of entities by identity and the
/// disconnect events that wait to be handled.
#[derive(Clone, Debug)]
pub struct Ecs {
    pub players: Vec<LocalPlayer>,
    pub entity_uuid_index: HashMap<u128, Entity>,
    pub disconnect_events: Vec<DisconnectEvent>,
    /// The number of the next entity that is made.
    pub next_entity: u64,
}

/// The record of a client that was just bound to `entity`.
pub open spec fn fresh_player(
    entity: Entity,
    game_profile: GameProfile,
    account: Account,
) -> LocalPlayer {
    LocalPlayer {
        entity,
        bundle: LocalPlayerBundle {
            raw_connection: Some(RawConnection { phase: Phase::Configuration, alive: true }),
            game_profile,
            account,
        },
        in_configuration: Some(InConfigurationState),
        joined: None,
        is_connection_alive: None,
        connection_alive_changed: false,
        position: None,
        velocity: None,
        fall_distance: None,
        eye_height: None,
        health: None,
        instance_name: None,
    }
}

impl Ecs {
    /// No two clients share an entity, and every entity that is known was
    /// made before the next one.
    pub open spec fn wf(self) -> bool {
        &&& forall|i: int, j: int|
            0 <= i < j < self.players@.len() ==> (#[trigger] self.players@[i]).entity != (
            #[trigger] self.players@[j]).entity
        &&& forall|i: int|
            0 <= i < self.players@.len() ==> (#[trigger] self.players@[i]).entity.0
                < self.next_entity
        &&& forall|uuid: u128| #[trigger]
            self.entity_uuid_index@.contains_key(uuid) ==> self.entity_uuid_index@[uuid].0
                < self.next_entity
    }

    /// The index of entities by identity.
    pub open spec fn index_view(self) -> Map<u128, Entity> {
        self.entity_uuid_index@
    }

    /// Whether a client has the entity.
    pub open spec fn has(self, entity: Entity) -> bool {
        exists|i: int| 0 <= i < self.players@.len() && (#[trigger] self.players@[i]).entity == entity
    }

    /// The place of the client with the entity.
    pub open spec fn place(self, entity: Entity) -> int {
        choose|i: int| 0 <= i < self.players@.len() && (#[trigger] self.players@[i]).entity == entity
    }

    /// The record of the client with the entity.
    pub open spec fn record(self, entity: Entity) -> LocalPlayer {
        self.players@[self.place(entity)]
    }

    pub fn new() -> (ecs: Ecs)
        ensures
            ecs.wf(),
            ecs.players@.len() == 0,
            ecs.disconnect_events@.len() == 0,
            ecs.index_view() == Map::<u128, Entity>::empty(),
            ecs.next_entity == 0,
    {
        Ecs {
            players: Vec::new(),
            entity_uuid_index: HashMap::new(),
            disconnect_events: Vec::new(),
            next_entity: 0,
        }
    }

    /// The place of the client with the entity, if there is one.
    pub fn find(&self, entity: Entity) -> (found: Option<usize>)
        requires
            self.wf(),
        ensures
            found.is_some() == self.has(entity),
            found.is_some() ==> found.unwrap() == self.place(entity),
    {
        let mut i: usize = 0;
        while i < self.players.len()
            invariant
                self.wf(),
                i <= self.players@.len(),
                forall|k: int| 0 <= k < i ==> (#[trigger] self.players@[k]).entity != entity,
            decreases self.players@.len() - i,
        {
            if self.players[i].entity == entity {
                proof {
                    assert(self.players@[i as int].entity == entity);
                    let at = self.place(entity);
                    if at < i {
                        assert(self.players@[at].entity != self.players@[i as int].entity);
                    } else if i < at {
                        assert(self.players@[i as int].entity != self.players@[at].entity);
                    }
                }
                return Some(i);
            }
            i += 1;
        }
        None
    }

    /// The players after a client with `game_profile` and `account` was
    /// bound to `entity`: the client that has the entity starts over, with
    /// everything that it still carries; without one, a new client joins
    /// the others.
    pub open spec fn bound(
        self,
        entity: Entity,
        game_profile: GameProfile,
        account: Account,
    ) -> Seq<LocalPlayer> {
        let fresh = fresh_player(entity, game_profile, account);
        if self.has(entity) {
            let i = self.place(entity);
            self.players@.update(
                i,
                LocalPlayer {
                    bundle: fresh.bundle,
                    in_configuration: fresh.in_configuration,
                    ..self.players@[i]
                },
            )
        } else {
            self.players@.push(fresh)
        }
    }

    /// The entity that a client with the identity `uuid` gets: the one that
    /// the index knows for the identity, or the next new one.
    pub open spec fn entity_for(self, uuid: u128) -> Entity {
        if self.index_view().contains_key(uuid) {
            self.index_view()[uuid]
        } else {
            Entity(self.next_entity)
        }
    }

    /// Binds a client that finished its login to an entity. A player that
    /// was here before keeps its entity: only where the index does not know
    /// the identity is a new entity made, and noted in the index.
    pub fn bind_local_player(&mut self, game_profile: GameProfile, account: Account) -> (entity:
        Entity)
        requires
            old(self).wf(),
            old(self).next_entity < u64::MAX,
        ensures
            final(self).wf(),
            entity == old(self).entity_for(game_profile.uuid),
            final(self).index_view() == old(self).index_view().insert(game_profile.uuid, entity),
            final(self).players@ == old(self).bound(entity, game_profile, account),
            final(self).disconnect_events@ == old(self).disconnect_events@,
            final(self).next_entity == if old(self).index_view().contains_key(game_profile.uuid) {
                old(self).next_entity
            } else {
                (old(self).next_entity + 1) as u64
            },
            final(self).has(entity),
    {
        let uuid: u128 = game_profile.uuid;
        let known: Option<Entity> = match self.entity_uuid_index.get(&uuid) {
            Some(entity) => Some(*entity),
            None => None,
        };
        let entity: Entity = match known {
            Some(entity) => entity,
            None => {
                let entity = Entity(self.next_entity);
                self.next_entity = self.next_entity + 1;
                self.entity_uuid_index.insert(uuid, entity);
                entity
            },
        };
        proof {
            assert(self.index_view() =~= old(self).index_view().insert(uuid, entity));
        }
        let bundle = LocalPlayerBundle {
            raw_connection: Some(RawConnection::new(Phase::Configuration)),
            game_profile,
            account,
        };
        let ghost before = self.players@;
        match self.find(entity) {
            Some(i) => {
                self.players[i].bundle = bundle;
                self.players[i].in_configuration = Some(InConfigurationState);
                proof {
                    assert(self.players@ =~= old(self).bound(entity, game_profile, account));
                    assert(self.players@[i as int].entity == entity);
                }
            },
            None => {
                self.players.push(
                    LocalPlayer {
                        entity,
                        bundle,
                        in_configuration: Some(InConfigurationState),
                        joined: None,
                        is_connection_alive: None,
                        connection_alive_changed: false,
                        position: None,
                        velocity: None,
                        fall_distance: None,
                        eye_height: None,
                        health: None,
                        instance_name: None,
                    },
                );
                proof {
                    assert(!old(self).has(entity));
                    assert(self.players@ =~= old(self).bound(entity, game_profile, account));
                    assert(self.players@[before.len() as int].entity == entity);
                }
            },
        }
        entity
    }

    /// The connection of a client after it entered the game.
    pub open spec fn playing(connection: Option<RawConnection>) -> Option<RawConnection> {
        match connection {
            Some(c) => Some(RawConnection { phase: Phase::Play, alive: c.alive }),
            None => None,
        }
    }

    /// Lets a client enter the game: its connection speaks the packets of
    /// play, it is no longer being configured, and it carries what only a
    /// client that plays carries, made anew with the options given.
    pub fn enter_game(&mut self, entity: Entity, client_information: ClientInformation)
        requires
            old(self).wf(),
            old(self).has(entity),
        ensures
            final(self).wf(),
            final(self).players@.len() == old(self).players@.len(),
            forall|i: int|
                0 <= i < old(self).players@.len() && i != old(self).place(entity) ==> (
                #[trigger] final(self).players@[i]) == old(self).players@[i],
            final(self).has(entity),
            final(self).place(entity) == old(self).place(entity),
            final(self).record(entity) == (LocalPlayer {
                bundle: LocalPlayerBundle {
                    raw_connection: Ecs::playing(old(self).record(entity).bundle.raw_connection),
                    ..old(self).record(entity).bundle
                },
                in_configuration: None,
                joined: final(self).record(entity).joined,
                ..old(self).record(entity)
            }),
            final(self).record(entity).joined.is_some(),
            is_fresh_joined(final(self).record(entity).joined.unwrap(), client_information),
            final(self).disconnect_events@ == old(self).disconnect_events@,
            final(self).index_view() == old(self).index_view(),
            final(self).next_entity == old(self).next_entity,
    {
        match self.find(entity) {
            Some(i) => {
                let connection: Option<RawConnection> = match self.players[i].bundle.raw_connection {
                    Some(c) => Some(RawConnection { phase: Phase::Play, alive: c.alive }),
                    None => None,
                };
                self.players[i].bundle.raw_connection = connection;
                self.players[i].in_configuration = None;
                self.players[i].joined = Some(
                    JoinedClientBundle {
                        client_information,
                        tab_list: Vec::new(),
                        hunger: Hunger { food: 20, saturation: 5_000 },
                        permission_level: 0,
                        current_sequence_number: 0,
                    },
                );
                proof {
                    let at = old(self).place(entity);
                    assert(self.players@[i as int].entity == entity);
                    assert(self.has(entity));
                    let now = self.place(entity);
                    if now < at {
                        assert(self.players@[now].entity != self.players@[at].entity);
                    } else if at < now {
                        assert(self.players@[at].entity != self.players@[now].entity);
                    }
                }
            },
            None => vstd::pervasive::unreached(),
        }
    }

    /// Notes whether the tasks of a client's connection still run. A client
    /// without a connection, and an entity that is no client, change
    /// nothing.
    pub fn connection_seen(&mut self, entity: Entity, alive: bool)
        requires
            old(self).wf(),
        ensures
            final(self).wf(),
            final(self).players@.len() == old(self).players@.len(),
            forall|i: int|
                0 <= i < old(self).players@.len() ==> (#[trigger] final(self).players@[i]) == if old(self).players@[i].entity == entity && old(self).players@[i].bundle.raw_connection.is_some() {
                    LocalPlayer {
                        bundle: LocalPlayerBundle {
                            raw_connection: Some(
                                RawConnection {
                                    phase: old(self).players@[i].bundle.raw_connection.unwrap().phase,
                                    alive,
                                },
                            ),
                            ..old(self).players@[i].bundle
                        },
                        ..old(self).players@[i]
                    }
                } else {
                    old(self).players@[i]
                },
            final(self).disconnect_events@ == old(self).disconnect_events@,
            final(self).index_view() == old(self).index_view(),
            final(self).next_entity == old(self).next_entity,
    {
        match self.find(entity) {
            Some(i) => {
                let connection: Option<RawConnection> = match self.players[i].bundle.raw_connection {
                    Some(c) => Some(RawConnection { phase: c.phase, alive }),
                    None => None,
                };
                self.players[i].bundle.raw_connection = connection;
                proof {
                    assert(self.players@[i as int].entity == entity);
                    assert forall|k: int| 0 <= k < self.players@.len() && k != i implies old(self).players@[k].entity != entity by {
                        if k < i {
                            assert(old(self).players@[k].entity != old(self).players@[i as int].entity);
                        } else {
                            assert(old(self).players@[i as int].entity != old(self).players@[k].entity);
                        }
                    }
                }
            },
            None => {},
        }
    }

    /// Forgets which components were written in the pass that ended.
    pub fn clear_trackers(&mut self)
        requires
            old(self).wf(),
        ensures
            final(self).wf(),
            final(self).players@.len() == old(self).players@.len(),
            forall|i: int|
                0 <= i < old(self).players@.len() ==> (#[trigger] final(self).players@[i]) == (
                LocalPlayer { connection_alive_changed: false, ..old(self).players@[i] }),
            final(self).disconnect_events@ == old(self).disconnect_events@,
            final(self).index_view() == old(self).index_view(),
            final(self).next_entity == old(self).next_entity,
    {
        let mut i: usize = 0;
        while i < self.players.len()
            invariant
                i <= self.players@.len(),
                self.players@.len() == old(self).players@.len(),
                self.disconnect_events@ == old(self).disconnect_events@,
                self.entity_uuid_index == old(self).entity_uuid_index,
                self.next_entity == old(self).next_entity,
                forall|k: int|
                    0 <= k < i ==> (#[trigger] self.players@[k]) == (LocalPlayer {
                        connection_alive_changed: false,
                        ..old(self).players@[k]
                    }),
                forall|k: int|
                    i <= k < self.players@.len() ==> (#[trigger] self.players@[k]) == old(self).players@[k],
            decreases self.players@.len() - i,
        {
            self.players[i].connection_alive_changed = false;
            i += 1;
        }
    }
}

/// What a user holds of a client.
#[derive(Clone, Debug)]
pub struct Client {
    /// Who the server says the player is. The server cannot change it.
    pub profile: GameProfile,
    /// The entity of the client in the store.
    pub entity: Entity,
}

impl Client {
    pub fn new(profile: GameProfile, entity: Entity) -> (client: Client)
        ensures
            client.profile == profile,
            client.entity == entity,
    {
        Client { profile, entity }
    }

    /// Asks for the client to be disconnected: the next pass takes it off
    /// the server.
    pub fn disconnect(&self, ecs: &mut Ecs)
        ensures
            final(ecs).disconnect_events@ == old(ecs).disconnect_events@.push(
                DisconnectEvent { entity: self.entity },
            ),
            final(ecs).players == old(ecs).players,
            final(ecs).entity_uuid_index == old(ecs).entity_uuid_index,
            final(ecs).next_entity == old(ecs).next_entity,
    {
        ecs.disconnect_events.push(DisconnectEvent { entity: self.entity });
    }

    /// The record of this client.
    pub fn player<'a>(&self, ecs: &'a Ecs) -> (player: &'a LocalPlayer)
        requires
            ecs.wf(),
            ecs.has(self.entity),
        ensures
            *player == ecs.record(self.entity),
    {
        match ecs.find(self.entity) {
            Some(i) => &ecs.players[i],
            None => vstd::pervasive::unreached(),
        }
    }

    /// Whether the client got the packet that logs it in: that packet names
    /// the world.
    pub fn logged_in(&self, ecs: &Ecs) -> (logged_in: bool)
        requires
            ecs.wf(),
            ecs.has(self.entity),
        ensures
            logged_in == ecs.record(self.entity).instance_name.is_some(),
    {
        self.player(ecs).instance_name.is_some()
    }

    /// Where the client is.
    pub fn position(&self, ecs: &Ecs) -> (position: Vec3)
        requires
            ecs.wf(),
            ecs.has(self.entity),
            ecs.record(self.entity).position.is_some(),
        ensures
            position == ecs.record(self.entity).position.unwrap(),
    {
        match self.player(ecs).position {
            Some(position) => position,
            None => vstd::pervasive::unreached(),
        }
    }

    /// Where the position, raised by `eye_height`, lies: at the same place,
    /// that much higher, and no higher than a coordinate can be.
    pub open spec fn raised(position: Vec3, eye_height: i64) -> Vec3 {
        let y = position.y + eye_height;
        Vec3 {
            x: position.x,
            y: if y > i64::MAX {
                i64::MAX
            } else if y < i64::MIN {
                i64::MIN
            } else {
                y as i64
            },
            z: position.z,
        }
    }

    /// Where the eyes of the client are.
    pub fn eye_position(&self, ecs: &Ecs) -> (position: Vec3)
        requires
            ecs.wf(),
            ecs.has(self.entity),
            ecs.record(self.entity).position.is_some(),
            ecs.record(self.entity).eye_height.is_some(),
        ensures
            position == Client::raised(
                ecs.record(self.entity).position.unwrap(),
                ecs.record(self.entity).eye_height.unwrap(),
            ),
    {
        let feet = self.position(ecs);
        let eye_height: i64 = match self.player(ecs).eye_height {
            Some(height) => height,
            None => vstd::pervasive::unreached(),
        };
        let y: i128 = feet.y as i128 + eye_height as i128;
        Vec3 {
            x: feet.x,
            y: if y > i64::MAX as i128 {
                i64::MAX
            } else if y < i64::MIN as i128 {
                i64::MIN
            } else {
                y as i64
            },
            z: feet.z,
        }
    }

    /// The health of the client, in thousandths of a point.
    pub fn health(&self, ecs: &Ecs) -> (health: u32)
        requires
            ecs.wf(),
            ecs.has(self.entity),
            ecs.record(self.entity).health.is_some(),
        ensures
            health == ecs.record(self.entity).health.unwrap(),
    {
        match self.player(ecs).health {
            Some(health) => health,
            None => vstd::pervasive::unreached(),
        }
    }

    /// How hungry the client is.
    pub fn hunger(&self, ecs: &Ecs) -> (hunger: Hunger)
        requires
            ecs.wf(),
            ecs.has(self.entity),
            ecs.record(self.entity).joined.is_some(),
        ensures
            hunger == ecs.record(self.entity).joined.unwrap().hunger,
    {
        match &self.player(ecs).joined {
            Some(joined) => joined.hunger,
            None => vstd::pervasive::unreached(),
        }
    }

    /// The name of the client.
    pub fn username(&self, ecs: &Ecs) -> (name: String)
        requires
            ecs.wf(),
            ecs.has(self.entity),
        ensures
            name == ecs.record(self.entity).bundle.game_profile.name,
    {
        self.player(ecs).bundle.game_profile.name.clone()
    }

    /// The identity of the client.
    pub fn uuid(&self, ecs: &Ecs) -> (uuid: u128)
        requires
            ecs.wf(),
            ecs.has(self.entity),
        ensures
            uuid == ecs.record(self.entity).bundle.game_profile.uuid,
    {
        self.player(ecs).bundle.game_profile.uuid
    }

    /// The players that the client knows of.
    pub fn tab_list<'a>(&self, ecs: &'a Ecs) -> (players: &'a Vec<PlayerInfo>)
        requires
            ecs.wf(),
            ecs.has(self.entity),
            ecs.record(self.entity).joined.is_some(),
        ensures
            *players == ecs.record(self.entity).joined.unwrap().tab_list,
    {
        match &self.player(ecs).joined {
            Some(joined) => &joined.tab_list,
            None => vstd::pervasive::unreached(),
        }
    }

    /// The record after the options of the game were set.
    pub open spec fn informed(player: LocalPlayer, client_information: ClientInformation) -> LocalPlayer {
        LocalPlayer {
            joined: Some(JoinedClientBundle { client_information, ..player.joined.unwrap() }),
            ..player
        }
    }

    /// Sets the options of the game. The answer says whether the server
    /// has to be told now: a client that is not logged in yet tells the
    /// server with its login.
    pub fn set_client_information(
        &self,
        ecs: &mut Ecs,
        client_information: ClientInformation,
    ) -> (tell_server: bool)
        requires
            old(ecs).wf(),
            old(ecs).has(self.entity),
            old(ecs).record(self.entity).joined.is_some(),
        ensures
            final(ecs).wf(),
            tell_server == old(ecs).record(self.entity).instance_name.is_some(),
            final(ecs).players@ == old(ecs).players@.update(
                old(ecs).place(self.entity),
                Client::informed(old(ecs).record(self.entity), client_information),
            ),
            final(ecs).disconnect_events@ == old(ecs).disconnect_events@,
            final(ecs).index_view() == old(ecs).index_view(),
            final(ecs).next_entity == old(ecs).next_entity,
    {
        match ecs.find(self.entity) {
            Some(i) => {
                let logged_in: bool = ecs.players[i].instance_name.is_some();
                match &mut ecs.players[i].joined {
                    Some(joined) => {
                        joined.client_information = client_information;
                    },
                    None => vstd::pervasive::unreached(),
                }
                proof {
                    assert(ecs.players@ =~= old(ecs).players@.update(
                        old(ecs).place(self.entity),
                        Client::informed(old(ecs).record(self.entity), client_information),
                    ));
                }
                logged_in
            },
            None => vstd::pervasive::unreached(),
        }
    }
}

/// A client whose identity is new to the store gets a record of its own and
/// nothing else changes: the record that is added holds a connection that
/// speaks the packets of configuration, the profile, the account and the
/// mark of configuration, and nothing of what only a client that plays
/// carries. Its entity is one that no client had.
pub proof fn lemma_new_identity_adds_one_record(
    ecs: Ecs,
    game_profile: GameProfile,
    account: Account,
)
    requires
        ecs.wf(),
        !ecs.index_view().contains_key(game_profile.uuid),
    ensures
        !ecs.has(ecs.entity_for(game_profile.uuid)),
        ecs.bound(ecs.entity_for(game_profile.uuid), game_profile, account) == ecs.players@.push(
            fresh_player(ecs.entity_for(game_profile.uuid), game_profile, account),
        ),
        fresh_player(ecs.entity_for(game_profile.uuid), game_profile, account).joined.is_none(),
{
    let entity = ecs.entity_for(game_profile.uuid);
    if ecs.has(entity) {
        let i = ecs.place(entity);
        assert(ecs.players@[i].entity.0 < ecs.next_entity);
    }
}

} // verus!
