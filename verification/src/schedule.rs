//! When things run: the fixed ticks of the game, the passes in between, and
//! what each plugin adds to them.

use vstd::prelude::*;

verus! {

/// Milliseconds between two ticks of the game: twenty ticks a second.
pub const TICK_MILLIS: u64 = 50;

/// The most ticks that are run at once to catch up. Time beyond that is
/// dropped.
pub const MAX_BURST: u64 = 10;

/// The three times at which systems run.
#[derive(Clone, Copy, Debug, PartialEq, Eq, Structural, Hash)]
pub enum Schedule {
    /// On demand: when a packet arrived, after a tick, or on the user's
    /// word.
    Update,
    /// Once each tick.
    FixedUpdate,
    /// At the end of each pass.
    PostUpdate,
}

/// The systems that this file and its neighbours register.
#[derive(Clone, Copy, Debug, PartialEq, Eq, Structural, Hash)]
pub enum SystemId {
    DeathEvent,
    RetroactivelyAddGameProfileComponent,
    HandleSendPacketEvent,
    SendTickBroadcast,
    UpdateReadPacketsTaskRunningComponent,
    DisconnectOnConnectionDead,
    RemoveComponentsFromDisconnectedPlayers,
    /// The systems that keep the indexes of entities, as a set.
    EntityIndexSet,
}

#[derive(Clone, Copy, Debug, PartialEq, Eq, Structural, Hash)]
pub enum EventKind {
    SendPacket,
    Disconnect,
}

#[derive(Clone, Copy, Debug, PartialEq, Eq, Structural, Hash)]
pub enum ResourceKind {
    InstanceContainer,
    TabList,
    TickBroadcast,
}

/// How loudly to speak of systems whose order is left open.
#[derive(Clone, Copy, Debug, PartialEq, Eq, Structural, Hash)]
pub enum LogLevel {
    Ignore,
    Warn,
    Error,
}

/// One thing that a plugin adds to the app.
#[derive(Clone, Copy, Debug, PartialEq, Eq, Structural, Hash)]
pub enum Registration {
    /// The time between two ticks.
    FixedTime { millis: u64 },
    /// A system in a schedule, to run after another where one is named.
    System { schedule: Schedule, system: SystemId, after: Option<SystemId> },
    Event(EventKind),
    Resource(ResourceKind),
    /// What to do about systems of a schedule whose order is left open.
    AmbiguityDetection { schedule: Schedule, level: LogLevel },
}

/// The plugins of the client.
#[derive(Clone, Copy, Debug, PartialEq, Eq, Structural, Hash)]
pub enum PluginId {
    AmbiguityLogger,
    Time,
    PacketHandler,
    Azalea,
    Entity,
    Physics,
    Event,
    TaskPool,
    Inventory,
    Chat,
    Disconnect,
    PlayerMove,
    Interact,
    Respawn,
    Mine,
    Attack,
    ChunkBatching,
    TickBroadcast,
    Log,
}

/// Sets the tick of the game and adds the systems, the event and the
/// resources that every client needs.
pub struct AzaleaPlugin;

impl AzaleaPlugin {
    /// What the plugin registers, in order.
    pub open spec fn registrations() -> Seq<Registration> {
        seq![
            Registration::FixedTime { millis: 50 },
            Registration::System {
                schedule: Schedule::Update,
                system: SystemId::DeathEvent,
                after: None,
            },
            Registration::System {
                schedule: Schedule::Update,
                system: SystemId::RetroactivelyAddGameProfileComponent,
                after: Some(SystemId::EntityIndexSet),
            },
            Registration::System {
                schedule: Schedule::Update,
                system: SystemId::HandleSendPacketEvent,
                after: None,
            },
            Registration::Event(EventKind::SendPacket),
            Registration::Resource(ResourceKind::InstanceContainer),
            Registration::Resource(ResourceKind::TabList),
        ]
    }

    pub fn build(&self) -> (plan: Vec<Registration>)
        ensures
            plan@ == AzaleaPlugin::registrations(),
    {
        let mut plan: Vec<Registration> = Vec::new();
        // the game ticks every 50 ms
        plan.push(Registration::FixedTime { millis: TICK_MILLIS });
        plan.push(
            Registration::System {
                schedule: Schedule::Update,
                system: SystemId::DeathEvent,
                after: None,
            },
        );
        plan.push(
            Registration::System {
                schedule: Schedule::Update,
                system: SystemId::RetroactivelyAddGameProfileComponent,
                after: Some(SystemId::EntityIndexSet),
            },
        );
        plan.push(
            Registration::System {
                schedule: Schedule::Update,
                system: SystemId::HandleSendPacketEvent,
                after: None,
            },
        );
        plan.push(Registration::Event(EventKind::SendPacket));
        plan.push(Registration::Resource(ResourceKind::InstanceContainer));
        plan.push(Registration::Resource(ResourceKind::TabList));
        plan
    }
}

/// Adds the broadcast that is sent every tick.
pub struct TickBroadcastPlugin;

impl TickBroadcastPlugin {
    /// What the plugin registers, in order.
    pub open spec fn registrations() -> Seq<Registration> {
        seq![
            Registration::Resource(ResourceKind::TickBroadcast),
            Registration::System {
                schedule: Schedule::FixedUpdate,
                system: SystemId::SendTickBroadcast,
                after: None,
            },
        ]
    }

    pub fn build(&self) -> (plan: Vec<Registration>)
        ensures
            plan@ == TickBroadcastPlugin::registrations(),
    {
        let mut plan: Vec<Registration> = Vec::new();
        plan.push(Registration::Resource(ResourceKind::TickBroadcast));
        plan.push(
            Registration::System {
                schedule: Schedule::FixedUpdate,
                system: SystemId::SendTickBroadcast,
                after: None,
            },
        );
        plan
    }
}

/// Makes both schedules warn of systems whose order is left open.
pub struct AmbiguityLoggerPlugin;

impl AmbiguityLoggerPlugin {
    /// What the plugin registers, in order.
    pub open spec fn registrations() -> Seq<Registration> {
        seq![
            Registration::AmbiguityDetection { schedule: Schedule::Update, level: LogLevel::Warn },
            Registration::AmbiguityDetection {
                schedule: Schedule::FixedUpdate,
                level: LogLevel::Warn,
            },
        ]
    }

    pub fn build(&self) -> (plan: Vec<Registration>)
        ensures
            plan@ == AmbiguityLoggerPlugin::registrations(),
    {
        let mut plan: Vec<Registration> = Vec::new();
        plan.push(
            Registration::AmbiguityDetection { schedule: Schedule::Update, level: LogLevel::Warn },
        );
        plan.push(
            Registration::AmbiguityDetection {
                schedule: Schedule::FixedUpdate,
                level: LogLevel::Warn,
            },
        );
        plan
    }
}

/// The plugins that a client cannot do without.
pub struct DefaultPlugins;

impl DefaultPlugins {
    /// The plugins of the group, in the order in which they are added. The
    /// log plugin comes last, and only where logging is wanted.
    pub open spec fn plugins(log: bool) -> Seq<PluginId> {
        let always = seq![
            PluginId::AmbiguityLogger,
            PluginId::Time,
            PluginId::PacketHandler,
            PluginId::Azalea,
            PluginId::Entity,
            PluginId::Physics,
            PluginId::Event,
            PluginId::TaskPool,
            PluginId::Inventory,
            PluginId::Chat,
            PluginId::Disconnect,
            PluginId::PlayerMove,
            PluginId::Interact,
            PluginId::Respawn,
            PluginId::Mine,
            PluginId::Attack,
            PluginId::ChunkBatching,
            PluginId::TickBroadcast,
        ];
        if log {
            always.push(PluginId::Log)
        } else {
            always
        }
    }

    pub fn build(self, log: bool) -> (group: Vec<PluginId>)
        ensures
            group@ == DefaultPlugins::plugins(log),
    {
        let mut group: Vec<PluginId> = Vec::new();
        group.push(PluginId::AmbiguityLogger);
        group.push(PluginId::Time);
        group.push(PluginId::PacketHandler);
        group.push(PluginId::Azalea);
        group.push(PluginId::Entity);
        group.push(PluginId::Physics);
        group.push(PluginId::Event);
        group.push(PluginId::TaskPool);
        group.push(PluginId::Inventory);
        group.push(PluginId::Chat);
        group.push(PluginId::Disconnect);
        group.push(PluginId::PlayerMove);
        group.push(PluginId::Interact);
        group.push(PluginId::Respawn);
        group.push(PluginId::Mine);
        group.push(PluginId::Attack);
        group.push(PluginId::ChunkBatching);
        group.push(PluginId::TickBroadcast);
        if log {
            group.push(PluginId::Log);
        }
        group
    }
}

/// The clock of the fixed ticks: the time that has passed and has not been
/// spent on a tick yet.
#[derive(Clone, Copy, Debug, PartialEq, Eq, Structural, Hash)]
pub struct FixedTime {
    /// Milliseconds left over, always less than a tick.
    pub accumulated: u64,
}

/// The ticks that are due when `elapsed` milliseconds pass on top of
/// `accumulated`: one for every 50 ms, and [`MAX_BURST`] at most.
pub open spec fn ticks_due(accumulated: nat, elapsed: nat) -> nat {
    let whole = (accumulated + elapsed) / 50;
    if whole > 10 {
        10
    } else {
        whole
    }
}

/// The time that is left over afterwards. What a burst cannot catch up
/// with is dropped.
pub open spec fn left_over(accumulated: nat, elapsed: nat) -> nat {
    if (accumulated + elapsed) / 50 > 10 {
        0
    } else {
        (accumulated + elapsed) % 50
    }
}

impl FixedTime {
    pub open spec fn wf(self) -> bool {
        self.accumulated < 50
    }

    /// Decides [`FixedTime::wf`].
    pub fn is_wf(&self) -> (sound: bool)
        ensures
            sound == self.wf(),
    {
        self.accumulated < TICK_MILLIS
    }

    pub fn new() -> (time: FixedTime)
        ensures
            time.wf(),
            time.accumulated == 0,
    {
        FixedTime { accumulated: 0 }
    }

    /// Lets `elapsed` milliseconds pass and says how many ticks to run now.
    pub fn advance(&mut self, elapsed: u64) -> (ticks: u64)
        requires
            old(self).wf(),
        ensures
            final(self).wf(),
            ticks == ticks_due(old(self).accumulated as nat, elapsed as nat),
            final(self).accumulated == left_over(old(self).accumulated as nat, elapsed as nat),
    {
        // `accumulated` is below a tick, so that the whole ticks and the rest
        // of `elapsed` can be had without an overflow
        let whole: u64 = elapsed / TICK_MILLIS;
        let rest: u64 = elapsed % TICK_MILLIS + self.accumulated;
        let ticks: u64 = whole + rest / TICK_MILLIS;
        if ticks > MAX_BURST {
            self.accumulated = 0;
            MAX_BURST
        } else {
            self.accumulated = rest % TICK_MILLIS;
            ticks
        }
    }
}

/// How often the schedule runs for `pending` requests: once, however many
/// there are, and not at all for none.
pub open spec fn runs_for(pending: nat) -> nat {
    if pending == 0 {
        0
    } else {
        1
    }
}

/// Requests to run the schedule are taken together: however many wait, the
/// schedule runs once.
pub fn coalesce(pending: usize) -> (runs: usize)
    ensures
        runs == runs_for(pending as nat),
{
    if pending == 0 {
        0
    } else {
        1
    }
}

/// The sum of the spans in `spans`.
pub open spec fn total(spans: Seq<nat>) -> nat
    decreases spans.len(),
{
    if spans.len() == 0 {
        0
    } else {
        total(spans.drop_last()) + spans.last()
    }
}

/// The ticks run while the spans in `spans` pass one after the other,
/// starting with nothing accumulated.
pub open spec fn ticks_run(spans: Seq<nat>) -> nat
    decreases spans.len(),
{
    if spans.len() == 0 {
        0
    } else {
        ticks_run(spans.drop_last()) + ticks_due(clock_after(spans.drop_last()), spans.last())
    }
}

/// What is accumulated after the spans in `spans` passed.
pub open spec fn clock_after(spans: Seq<nat>) -> nat
    decreases spans.len(),
{
    if spans.len() == 0 {
        0
    } else {
        left_over(clock_after(spans.drop_last()), spans.last())
    }
}

/// The ticks keep the time: while the clock is asked at least every 450 ms,
/// so that no burst has to drop time, the ticks run after any number of
/// spans are one for every 50 ms that passed, rounded down; twenty for
/// every second.
pub proof fn lemma_tick_cadence(spans: Seq<nat>)
    requires
        forall|i: int| 0 <= i < spans.len() ==> spans[i] <= 450,
    ensures
        ticks_run(spans) == total(spans) / 50,
        clock_after(spans) == total(spans) % 50,
    decreases spans.len(),
{
    if spans.len() > 0 {
        let before = spans.drop_last();
        assert forall|i: int| 0 <= i < before.len() implies before[i] <= 450 by {
            assert(before[i] == spans[i]);
        }
        lemma_tick_cadence(before);
        let t = total(before);
        let d = spans.last();
        assert(spans[spans.len() - 1] <= 450);
        assert((t % 50 + d) / 50 + t / 50 == (t + d) / 50 && (t % 50 + d) % 50 == (t + d) % 50);
    }
}

} // verus!
