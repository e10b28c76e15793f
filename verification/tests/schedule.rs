use azalea::disconnect::DisconnectPlugin;
use azalea::schedule::{
    coalesce, AmbiguityLoggerPlugin, AzaleaPlugin, DefaultPlugins, EventKind, FixedTime, LogLevel,
    PluginId, Registration, ResourceKind, Schedule, SystemId, TickBroadcastPlugin, MAX_BURST,
    TICK_MILLIS,
};

#[test]
fn tick_every_fifty_milliseconds() {
    let mut time = FixedTime::new();
    assert_eq!(time.advance(49), 0);
    assert_eq!(time.accumulated, 49);
    assert_eq!(time.advance(1), 1);
    assert_eq!(time.accumulated, 0);
    assert_eq!(time.advance(0), 0);
    assert_eq!(time.advance(120), 2);
    assert_eq!(time.accumulated, 20);
    assert_eq!(time.advance(30), 1);
    assert_eq!(TICK_MILLIS, 50);
}

#[test]
fn tick_cadence_is_twenty_a_second() {
    for step in [1u64, 7, 16, 33, 50, 51, 100, 333, 450] {
        let mut time = FixedTime::new();
        let mut ticks = 0;
        let mut elapsed = 0;
        while elapsed + step <= 10_000 {
            ticks += time.advance(step);
            elapsed += step;
        }
        assert_eq!(ticks, elapsed / 50, "{}", step);
        assert_eq!(time.accumulated, elapsed % 50);
        let seconds = elapsed as f64 / 1000.0;
        assert!((ticks as f64 - (20.0 * seconds).floor()).abs() <= 1.0);
    }
}

#[test]
fn burst_catches_up_ten_ticks_and_drops_the_rest() {
    let mut time = FixedTime::new();
    assert_eq!(time.advance(500), 10);
    assert_eq!(time.accumulated, 0);
    assert_eq!(time.advance(549), 10);
    assert_eq!(time.accumulated, 49);
    assert_eq!(time.advance(501), 10);
    assert_eq!(time.accumulated, 0);
    assert_eq!(time.advance(60_000), 10);
    assert_eq!(time.accumulated, 0);
    assert_eq!(time.advance(u64::MAX), MAX_BURST);
    assert_eq!(time.accumulated, 0);
    let mut late = FixedTime { accumulated: 49 };
    assert_eq!(late.advance(u64::MAX), 10);
}

#[test]
fn requests_to_run_are_taken_together() {
    assert_eq!(coalesce(0), 0);
    assert_eq!(coalesce(1), 1);
    assert_eq!(coalesce(250), 1);
}

#[test]
fn default_plugins_in_order() {
    let group = DefaultPlugins.build(false);
    assert_eq!(group.len(), 18);
    assert_eq!(group[0], PluginId::AmbiguityLogger);
    assert_eq!(group[1], PluginId::Time);
    assert_eq!(group[3], PluginId::Azalea);
    assert_eq!(group[10], PluginId::Disconnect);
    assert_eq!(group[17], PluginId::TickBroadcast);
    let with_log = DefaultPlugins.build(true);
    assert_eq!(with_log.len(), 19);
    assert_eq!(&with_log[..18], &group[..]);
    assert_eq!(with_log[18], PluginId::Log);
}

#[test]
fn azalea_plugin_sets_the_tick() {
    let plan = AzaleaPlugin.build();
    assert_eq!(plan[0], Registration::FixedTime { millis: 50 });
    assert_eq!(
        plan[2],
        Registration::System {
            schedule: Schedule::Update,
            system: SystemId::RetroactivelyAddGameProfileComponent,
            after: Some(SystemId::EntityIndexSet),
        }
    );
    assert_eq!(plan[4], Registration::Event(EventKind::SendPacket));
    assert_eq!(plan[6], Registration::Resource(ResourceKind::TabList));
    assert_eq!(plan.len(), 7);
}

#[test]
fn tick_broadcast_runs_every_tick() {
    assert_eq!(
        TickBroadcastPlugin.build(),
        vec![
            Registration::Resource(ResourceKind::TickBroadcast),
            Registration::System {
                schedule: Schedule::FixedUpdate,
                system: SystemId::SendTickBroadcast,
                after: None
            },
        ]
    );
}

#[test]
fn ambiguity_logger_warns_in_both_schedules() {
    assert_eq!(
        AmbiguityLoggerPlugin.build(),
        vec![
            Registration::AmbiguityDetection { schedule: Schedule::Update, level: LogLevel::Warn },
            Registration::AmbiguityDetection { schedule: Schedule::FixedUpdate, level: LogLevel::Warn },
        ]
    );
}

#[test]
fn disconnect_systems_run_one_after_the_other() {
    let plan = DisconnectPlugin.build();
    assert_eq!(plan.len(), 4);
    assert_eq!(plan[0], Registration::Event(EventKind::Disconnect));
    assert_eq!(
        plan[3],
        Registration::System {
            schedule: Schedule::PostUpdate,
            system: SystemId::RemoveComponentsFromDisconnectedPlayers,
            after: Some(SystemId::DisconnectOnConnectionDead),
        }
    );
}

#[test]
fn clock_soundness_can_be_tested() {
    assert!(FixedTime::new().is_wf());
    assert!(FixedTime { accumulated: 49 }.is_wf());
    assert!(!FixedTime { accumulated: 50 }.is_wf());
}
