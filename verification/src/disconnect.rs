//! Taking a client off the server: a dead connection becomes an event, and
//! the event takes away what only a joined client has.

use crate::client::{Ecs, LocalPlayer, LocalPlayerBundle};
use crate::pathfinder::moves::Entity;
use crate::schedule::{EventKind, Registration, Schedule, SystemId};
use vstd::prelude::*;

verus! {

/// Adds the disconnect event and the three systems that handle
/// disconnects, one after the other, at the end of each pass.
pub struct DisconnectPlugin;

impl DisconnectPlugin {
    /// What the plugin registers, in order.
    pub open spec fn registrations() -> Seq<Registration> {
        seq![
            Registration::Event(EventKind::Disconnect),
            Registration::System {
                schedule: Schedule::PostUpdate,
                system: SystemId::UpdateReadPacketsTaskRunningComponent,
                after: None,
            },
            Registration::System {
                schedule: Schedule::PostUpdate,
                system: SystemId::DisconnectOnConnectionDead,
                after: Some(SystemId::UpdateReadPacketsTaskRunningComponent),
            },
            Registration::System {
                schedule: Schedule::PostUpdate,
                system: SystemId::RemoveComponentsFromDisconnectedPlayers,
                after: Some(SystemId::DisconnectOnConnectionDead),
            },
        ]
    }

    pub fn build(&self) -> (plan: Vec<Registration>)
        ensures
            plan@ == DisconnectPlugin::registrations(),
    {
        let mut plan: Vec<Registration> = Vec::new();
        plan.push(Registration::Event(EventKind::Disconnect));
        plan.push(
            Registration::System {
                schedule: Schedule::PostUpdate,
                system: SystemId::UpdateReadPacketsTaskRunningComponent,
                after: None,
            },
        );
        plan.push(
            Registration::System {
                schedule: Schedule::PostUpdate,
                system: SystemId::DisconnectOnConnectionDead,
                after: Some(SystemId::UpdateReadPacketsTaskRunningComponent),
            },
        );
        plan.push(
            Registration::System {
                schedule: Schedule::PostUpdate,
                system: SystemId::RemoveComponentsFromDisconnectedPlayers,
                after: Some(SystemId::DisconnectOnConnectionDead),
            },
        );
        plan
    }
}

/// A client is getting disconnected.
#[derive(Clone, Copy, Debug, PartialEq, Eq, Structural, Hash)]
pub struct DisconnectEvent {
    pub entity: Entity,
}

/// Whether the task that reads a client's packets is still running.
#[derive(Clone, Copy, Debug, PartialEq, Eq, Structural, Hash)]
pub struct IsConnectionAlive(pub bool);

impl IsConnectionAlive {
    pub fn get(&self) -> (alive: bool)
        ensures
            alive == self.0,
    {
        self.0
    }
}

/// A player after the state of its connection was written as a component,
/// marked as changed. A player without a connection stays as it is.
pub open spec fn with_state(player: LocalPlayer) -> LocalPlayer {
    match player.bundle.raw_connection {
        Some(connection) => LocalPlayer {
            is_connection_alive: Some(IsConnectionAlive(connection.alive)),
            connection_alive_changed: true,
            ..player
        },
        None => player,
    }
}

/// The players after each that has a connection got the state of the
/// connection as a component.
pub open spec fn with_connection_state(players: Seq<LocalPlayer>) -> Seq<LocalPlayer> {
    Seq::new(players.len(), |i: int| with_state(players[i]))
}

/// Gives each player that has a connection the state of the connection as a
/// component.
pub fn update_read_packets_task_running_component(ecs: &mut Ecs)
    requires
        old(ecs).wf(),
    ensures
        final(ecs).wf(),
        final(ecs).players@ == with_connection_state(old(ecs).players@),
        final(ecs).disconnect_events@ == old(ecs).disconnect_events@,
        final(ecs).index_view() == old(ecs).index_view(),
        final(ecs).next_entity == old(ecs).next_entity,
{
    let mut i: usize = 0;
    while i < ecs.players.len()
        invariant
            i <= ecs.players@.len(),
            ecs.players@.len() == old(ecs).players@.len(),
            ecs.disconnect_events@ == old(ecs).disconnect_events@,
            ecs.index_view() == old(ecs).index_view(),
            ecs.next_entity == old(ecs).next_entity,
            ecs.entity_uuid_index == old(ecs).entity_uuid_index,
            forall|k: int|
                0 <= k < i ==> (#[trigger] ecs.players@[k]) == with_connection_state(
                    old(ecs).players@,
                )[k],
            forall|k: int|
                i <= k < ecs.players@.len() ==> (#[trigger] ecs.players@[k]) == old(
                    ecs,
                ).players@[k],
        decreases ecs.players@.len() - i,
    {
        match ecs.players[i].bundle.raw_connection {
            Some(connection) => {
                ecs.players[i].is_connection_alive = Some(IsConnectionAlive(connection.alive));
                ecs.players[i].connection_alive_changed = true;
            },
            None => {},
        }
        i += 1;
    }
    assert(ecs.players@ =~= with_connection_state(old(ecs).players@));
}

/// Whether the player's connection was seen dead in this pass.
pub open spec fn seen_dead(player: LocalPlayer) -> bool {
    player.connection_alive_changed && player.is_connection_alive == Some(IsConnectionAlive(false))
}

/// The disconnect events for those of the first `n` players whose
/// connection was seen dead, in the players' order.
pub open spec fn dead_connection_events(players: Seq<LocalPlayer>, n: nat) -> Seq<DisconnectEvent>
    decreases n,
{
    if n == 0 {
        Seq::empty()
    } else {
        let before = dead_connection_events(players, (n - 1) as nat);
        if seen_dead(players[n - 1]) {
            before.push(DisconnectEvent { entity: players[n - 1].entity })
        } else {
            before
        }
    }
}

/// Sends a disconnect event for every player whose connection changed to
/// dead.
pub fn disconnect_on_connection_dead(ecs: &mut Ecs)
    requires
        old(ecs).wf(),
    ensures
        final(ecs).wf(),
        final(ecs).players@ == old(ecs).players@,
        final(ecs).index_view() == old(ecs).index_view(),
        final(ecs).next_entity == old(ecs).next_entity,
        final(ecs).disconnect_events@ == old(ecs).disconnect_events@ + dead_connection_events(
            old(ecs).players@,
            old(ecs).players@.len(),
        ),
{
    let mut i: usize = 0;
    while i < ecs.players.len()
        invariant
            i <= ecs.players@.len(),
            ecs.players@ == old(ecs).players@,
            ecs.entity_uuid_index == old(ecs).entity_uuid_index,
            ecs.next_entity == old(ecs).next_entity,
            ecs.disconnect_events@ == old(ecs).disconnect_events@ + dead_connection_events(
                ecs.players@,
                i as nat,
            ),
        decreases ecs.players@.len() - i,
    {
        let dead: bool = ecs.players[i].connection_alive_changed && match ecs.players[i].is_connection_alive {
            Some(state) => !state.get(),
            None => false,
        };
        if dead {
            let entity = ecs.players[i].entity;
            ecs.disconnect_events.push(DisconnectEvent { entity });
        }
        i += 1;
    }
}

/// Whether an event in `events` names `entity`.
pub open spec fn is_disconnected(events: Seq<DisconnectEvent>, entity: Entity) -> bool {
    events.contains(DisconnectEvent { entity })
}

/// A player after its disconnect: what only a joined client has is gone,
/// and the connection is dropped, with what was known of its state.
pub open spec fn disconnected(player: LocalPlayer) -> LocalPlayer {
    LocalPlayer {
        joined: None,
        is_connection_alive: None,
        bundle: LocalPlayerBundle { raw_connection: None, ..player.bundle },
        ..player
    }
}

/// The players after the disconnect of those that an event names.
pub open spec fn without_joined(
    players: Seq<LocalPlayer>,
    events: Seq<DisconnectEvent>,
) -> Seq<LocalPlayer> {
    Seq::new(
        players.len(),
        |i: int|
            if is_disconnected(events, players[i].entity) {
                disconnected(players[i])
            } else {
                players[i]
            },
    )
}

/// Whether the disconnect of the player drops a connection: an event names
/// the player, and the player has a connection.
pub open spec fn loses_connection(player: LocalPlayer, events: Seq<DisconnectEvent>) -> bool {
    is_disconnected(events, player.entity) && player.bundle.raw_connection.is_some()
}

/// The entities of those of the first `n` players whose connection the
/// disconnect drops, in the players' order.
pub open spec fn dropped_connections(
    players: Seq<LocalPlayer>,
    events: Seq<DisconnectEvent>,
    n: nat,
) -> Seq<Entity>
    decreases n,
{
    if n == 0 {
        Seq::empty()
    } else {
        let before = dropped_connections(players, events, (n - 1) as nat);
        if loses_connection(players[n - 1], events) {
            before.push(players[n - 1].entity)
        } else {
            before
        }
    }
}

fn is_named(events: &Vec<DisconnectEvent>, entity: Entity) -> (named: bool)
    ensures
        named == is_disconnected(events@, entity),
{
    let mut k: usize = 0;
    while k < events.len()
        invariant
            k <= events@.len(),
            forall|j: int| 0 <= j < k ==> events@[j] != (DisconnectEvent { entity }),
        decreases events@.len() - k,
    {
        if events[k].entity == entity {
            assert(events@[k as int] == (DisconnectEvent { entity }));
            return true;
        }
        k += 1;
    }
    false
}

/// Disconnects every player that a disconnect event names: what only a
/// joined client has is taken from it and its connection is dropped. The
/// events are taken off the queue. The answer names the entities whose
/// connection was dropped, for the sockets to be closed.
pub fn remove_components_from_disconnected_players(ecs: &mut Ecs) -> (dropped: Vec<Entity>)
    requires
        old(ecs).wf(),
    ensures
        final(ecs).wf(),
        final(ecs).players@ == without_joined(old(ecs).players@, old(ecs).disconnect_events@),
        dropped@ == dropped_connections(
            old(ecs).players@,
            old(ecs).disconnect_events@,
            old(ecs).players@.len(),
        ),
        final(ecs).disconnect_events@.len() == 0,
        final(ecs).index_view() == old(ecs).index_view(),
        final(ecs).next_entity == old(ecs).next_entity,
{
    let mut dropped: Vec<Entity> = Vec::new();
    let mut i: usize = 0;
    while i < ecs.players.len()
        invariant
            i <= ecs.players@.len(),
            ecs.players@.len() == old(ecs).players@.len(),
            ecs.disconnect_events@ == old(ecs).disconnect_events@,
            ecs.entity_uuid_index == old(ecs).entity_uuid_index,
            ecs.next_entity == old(ecs).next_entity,
            dropped@ == dropped_connections(
                old(ecs).players@,
                old(ecs).disconnect_events@,
                i as nat,
            ),
            forall|k: int|
                0 <= k < i ==> (#[trigger] ecs.players@[k]) == without_joined(
                    old(ecs).players@,
                    old(ecs).disconnect_events@,
                )[k],
            forall|k: int|
                i <= k < ecs.players@.len() ==> (#[trigger] ecs.players@[k]) == old(
                    ecs,
                ).players@[k],
        decreases ecs.players@.len() - i,
    {
        let entity = ecs.players[i].entity;
        if is_named(&ecs.disconnect_events, entity) {
            if ecs.players[i].bundle.raw_connection.is_some() {
                dropped.push(entity);
            }
            ecs.players[i].joined = None;
            ecs.players[i].is_connection_alive = None;
            ecs.players[i].bundle.raw_connection = None;
        }
        i += 1;
    }
    ecs.disconnect_events.clear();
    assert(ecs.players@ =~= without_joined(old(ecs).players@, old(ecs).disconnect_events@));
    dropped
}

/// The events of a pass: those that waited, and those of the connections
/// that the pass saw dead.
pub open spec fn events_of_pass(
    players: Seq<LocalPlayer>,
    events: Seq<DisconnectEvent>,
) -> Seq<DisconnectEvent> {
    events + dead_connection_events(with_connection_state(players), players.len())
}

/// One pass of the three systems, in their order. The answer names the
/// entities whose connection was dropped.
pub fn run_disconnect_systems(ecs: &mut Ecs) -> (dropped: Vec<Entity>)
    requires
        old(ecs).wf(),
    ensures
        final(ecs).wf(),
        final(ecs).players@ == without_joined(
            with_connection_state(old(ecs).players@),
            events_of_pass(old(ecs).players@, old(ecs).disconnect_events@),
        ),
        dropped@ == dropped_connections(
            with_connection_state(old(ecs).players@),
            events_of_pass(old(ecs).players@, old(ecs).disconnect_events@),
            old(ecs).players@.len(),
        ),
        final(ecs).disconnect_events@.len() == 0,
        final(ecs).index_view() == old(ecs).index_view(),
        final(ecs).next_entity == old(ecs).next_entity,
{
    update_read_packets_task_running_component(ecs);
    disconnect_on_connection_dead(ecs);
    remove_components_from_disconnected_players(ecs)
}

/// A dead connection among the first `n` players has its event.
proof fn lemma_dead_connection_has_event(players: Seq<LocalPlayer>, n: nat, i: int)
    requires
        0 <= i < n <= players.len(),
        seen_dead(players[i]),
    ensures
        dead_connection_events(players, n).contains(DisconnectEvent { entity: players[i].entity }),
    decreases n,
{
    let before = dead_connection_events(players, (n - 1) as nat);
    let event = DisconnectEvent { entity: players[i].entity };
    if i == n - 1 {
        assert(before.push(event).last() == event);
    } else {
        lemma_dead_connection_has_event(players, (n - 1) as nat, i);
        let at = choose|at: int| 0 <= at < before.len() && before[at] == event;
        if seen_dead(players[n - 1]) {
            assert(before.push(DisconnectEvent { entity: players[n - 1].entity })[at] == event);
        }
    }
}

/// A connection that the disconnect drops among the first `n` players is
/// named in the answer.
proof fn lemma_dropped_is_named(
    players: Seq<LocalPlayer>,
    events: Seq<DisconnectEvent>,
    n: nat,
    i: int,
)
    requires
        0 <= i < n <= players.len(),
        loses_connection(players[i], events),
    ensures
        dropped_connections(players, events, n).contains(players[i].entity),
    decreases n,
{
    let before = dropped_connections(players, events, (n - 1) as nat);
    let entity = players[i].entity;
    if i == n - 1 {
        assert(before.push(entity).last() == entity);
    } else {
        lemma_dropped_is_named(players, events, (n - 1) as nat, i);
        let at = choose|at: int| 0 <= at < before.len() && before[at] == entity;
        if loses_connection(players[n - 1], events) {
            assert(before.push(players[n - 1].entity)[at] == entity);
        }
    }
}

/// Disconnects converge within one pass: a player that a disconnect event
/// names when the pass begins, or whose connection is dead, has none of the
/// components of a joined client when the pass ends, and its connection is
/// dropped. A connection that was there when the pass began is named in the
/// answer of the pass, so that its socket is closed.
pub proof fn lemma_disconnect_converges(
    players: Seq<LocalPlayer>,
    events: Seq<DisconnectEvent>,
    i: int,
)
    requires
        0 <= i < players.len(),
        is_disconnected(events, players[i].entity) || (players[i].bundle.raw_connection.is_some()
            && !players[i].bundle.raw_connection.unwrap().alive),
    ensures
        ({
            let after = without_joined(
                with_connection_state(players),
                events_of_pass(players, events),
            )[i];
            &&& after.joined.is_none()
            &&& after.bundle.raw_connection.is_none()
            &&& after.is_connection_alive.is_none()
        }),
        players[i].bundle.raw_connection.is_some() ==> dropped_connections(
            with_connection_state(players),
            events_of_pass(players, events),
            players.len(),
        ).contains(players[i].entity),
{
    let marked = with_connection_state(players);
    let dead = dead_connection_events(marked, players.len());
    let event = DisconnectEvent { entity: players[i].entity };
    if is_disconnected(events, players[i].entity) {
        let at = choose|at: int| 0 <= at < events.len() && events[at] == event;
        assert((events + dead)[at] == event);
    } else {
        lemma_dead_connection_has_event(marked, players.len(), i);
        let at = choose|at: int| 0 <= at < dead.len() && dead[at] == event;
        assert((events + dead)[events.len() + at] == event);
    }
    if players[i].bundle.raw_connection.is_some() {
        lemma_dropped_is_named(marked, events_of_pass(players, events), players.len(), i);
    }
}

/// A client without a connection is left alone: once its connection is
/// dropped and the trackers are cleared, a pass neither writes a state for
/// it nor sees it dead.
pub proof fn lemma_disconnected_is_left_alone(player: LocalPlayer)
    requires
        player.bundle.raw_connection.is_none(),
        !player.connection_alive_changed || player.is_connection_alive.is_none(),
    ensures
        with_state(player) == player,
        !seen_dead(with_state(player)),
{
}

} // verus!
