use azalea::pathfinder::astar::Outcome;
use azalea::pathfinder::costs::SPRINT_ONE_BLOCK_COST;
use azalea::account::Account;
use azalea::client::Ecs;
use azalea::pathfinder::executor::{
    current_block, tick_input, Pathfinder, PathfinderEvent, TickInput, SAFE_FALL_DISTANCE,
    STUCK_TICKS,
};
use azalea::session::GameProfile;
use azalea::pathfinder::goals::Goal;
use azalea::pathfinder::moves::{
    Entity, LookAtEvent, MoveEvents, MoveKind, SprintDirection, StartSprintEvent,
};
use azalea::position::{BlockPos, Vec3};
use azalea::world::{BlockKind, Instance};

fn corridor() -> Instance {
    let mut world = Instance::new(0, 8);
    world.insert_chunk(0, 0);
    for x in 0..6 {
        world.set_block_state(&BlockPos::new(x, 64, 0), BlockKind::Solid);
    }
    world
}

fn at(x: i64, y: i64, z: i64) -> TickInput {
    TickInput {
        entity: Entity(1),
        position: Vec3::new(x, y, z),
        physics_delta: Vec3::new(0, 0, 0),
        fall_damage_imminent: false,
    }
}

fn on_block(x: i32) -> TickInput {
    at(x as i64 * 1_000_000 + 500_000, 64_000_000, 500_000)
}

#[test]
fn pathfinder_without_a_goal_rests() {
    let world = corridor();
    let mut pathfinder = Pathfinder::new();
    let mut events = MoveEvents::new();
    assert_eq!(pathfinder.tick(&world, on_block(0), &mut events, 100), None);
    assert!(pathfinder.goal.is_none() && pathfinder.path.is_none());
    assert!(events.look_at.is_empty() && events.sprint.is_empty());
}

#[test]
fn pathfinder_walks_to_the_goal() {
    let world = corridor();
    let mut pathfinder = Pathfinder::new();
    let mut events = MoveEvents::new();
    pathfinder.goto(Goal::new(BlockPos::new(2, 64, 0), 0));
    assert!(pathfinder.replan);
    // the first tick plans
    assert_eq!(pathfinder.tick(&world, on_block(0), &mut events, 100), None);
    let path = pathfinder.path.as_ref().unwrap();
    assert_eq!(path.outcome, Outcome::Found);
    assert_eq!(path.edges.len(), 2);
    assert_eq!(path.cost(), Some(2 * SPRINT_ONE_BLOCK_COST));
    assert_eq!(path.edges[0].movement.kind, MoveKind::Forward);
    assert_eq!((pathfinder.index, pathfinder.start), (0, BlockPos::new(0, 64, 0)));
    assert!(!pathfinder.replan && events.look_at.is_empty());
    // the second tick walks
    assert_eq!(pathfinder.tick(&world, on_block(0), &mut events, 100), None);
    assert_eq!(
        events.look_at,
        vec![LookAtEvent { entity: Entity(1), position: Vec3::new(1_500_000, 64_500_000, 500_000) }]
    );
    assert_eq!(
        events.sprint,
        vec![StartSprintEvent { entity: Entity(1), direction: SprintDirection::Forward }]
    );
    assert_eq!(pathfinder.ticks_at_node, 1);
    // the player arrives in the next block: the step is done
    assert_eq!(pathfinder.tick(&world, on_block(1), &mut events, 100), None);
    assert_eq!((pathfinder.index, pathfinder.start, pathfinder.ticks_at_node), (1, BlockPos::new(1, 64, 0), 0));
    assert_eq!(events.look_at.len(), 1);
    assert_eq!(pathfinder.tick(&world, on_block(1), &mut events, 100), None);
    assert_eq!(events.look_at.len(), 2);
    assert_eq!(events.look_at[1].position, Vec3::new(2_500_000, 64_500_000, 500_000));
    assert_eq!(pathfinder.tick(&world, on_block(2), &mut events, 100), None);
    assert_eq!(pathfinder.index, 2);
    // the path is walked: the goal is reached
    assert_eq!(
        pathfinder.tick(&world, on_block(2), &mut events, 100),
        Some(PathfinderEvent::GoalReached)
    );
    assert!(pathfinder.goal.is_none() && pathfinder.path.is_none());
    assert_eq!(pathfinder.tick(&world, on_block(2), &mut events, 100), None);
    assert_eq!(events.look_at.len(), 2);
}

#[test]
fn pathfinder_tells_of_a_goal_out_of_reach() {
    let world = corridor();
    let mut pathfinder = Pathfinder::new();
    let mut events = MoveEvents::new();
    pathfinder.goto(Goal::new(BlockPos::new(12, 64, 0), 0));
    assert_eq!(
        pathfinder.tick(&world, on_block(0), &mut events, 100),
        Some(PathfinderEvent::PathNotFound)
    );
    // the path as far as it goes is kept, and walked
    let path = pathfinder.path.as_ref().unwrap();
    assert_eq!(path.outcome, Outcome::Unreachable);
    assert_eq!(path.edges.last().unwrap().movement.target, BlockPos::new(5, 64, 0));
    for x in 0..5 {
        assert_eq!(pathfinder.tick(&world, on_block(x), &mut events, 100), None);
        assert_eq!(pathfinder.tick(&world, on_block(x + 1), &mut events, 100), None);
    }
    assert_eq!(pathfinder.index, 5);
    // at its end the path is planned anew
    assert_eq!(pathfinder.tick(&world, on_block(5), &mut events, 100), None);
    assert!(pathfinder.replan);
    assert_eq!(
        pathfinder.tick(&world, on_block(5), &mut events, 100),
        Some(PathfinderEvent::PathNotFound)
    );
    assert_eq!(pathfinder.path.as_ref().unwrap().edges.len(), 0);
}

#[test]
fn pathfinder_plans_anew_when_stuck() {
    let world = corridor();
    let mut pathfinder = Pathfinder::new();
    let mut events = MoveEvents::new();
    pathfinder.goto(Goal::new(BlockPos::new(4, 64, 0), 0));
    pathfinder.tick(&world, on_block(0), &mut events, 100);
    for tick in 1..=STUCK_TICKS {
        assert_eq!(pathfinder.tick(&world, on_block(0), &mut events, 100), None);
        assert_eq!(pathfinder.ticks_at_node, tick);
        assert!(!pathfinder.replan);
    }
    // more than two seconds on one step
    assert_eq!(pathfinder.tick(&world, on_block(0), &mut events, 100), None);
    assert!(pathfinder.replan);
    assert_eq!(events.look_at.len(), STUCK_TICKS as usize + 1);
    assert_eq!(pathfinder.tick(&world, on_block(0), &mut events, 100), None);
    assert!(!pathfinder.replan);
    assert_eq!((pathfinder.index, pathfinder.ticks_at_node), (0, 0));
    assert_eq!(events.look_at.len(), STUCK_TICKS as usize + 1);
}

#[test]
fn pathfinder_plans_anew_when_the_world_breaks_the_path() {
    let mut world = corridor();
    let mut pathfinder = Pathfinder::new();
    let mut events = MoveEvents::new();
    pathfinder.goto(Goal::new(BlockPos::new(4, 64, 0), 0));
    pathfinder.tick(&world, on_block(0), &mut events, 100);
    pathfinder.tick(&world, on_block(1), &mut events, 100);
    assert_eq!(pathfinder.index, 1);
    // a change behind the player does not matter
    world.set_block_state(&BlockPos::new(1, 64, 0), BlockKind::Air);
    pathfinder.world_changed(&world);
    assert!(!pathfinder.replan);
    // a change ahead does: a wall of two blocks, too high to climb
    world.set_block_state(&BlockPos::new(3, 65, 0), BlockKind::Solid);
    world.set_block_state(&BlockPos::new(3, 66, 0), BlockKind::Solid);
    pathfinder.world_changed(&world);
    assert!(pathfinder.replan);
    assert_eq!(
        pathfinder.tick(&world, on_block(1), &mut events, 100),
        Some(PathfinderEvent::PathNotFound)
    );
    assert_eq!(pathfinder.path.as_ref().unwrap().edges.last().unwrap().movement.target, BlockPos::new(2, 64, 0));
}

#[test]
fn pathfinder_plans_anew_for_a_new_goal() {
    let world = corridor();
    let mut pathfinder = Pathfinder::new();
    let mut events = MoveEvents::new();
    pathfinder.goto(Goal::new(BlockPos::new(4, 64, 0), 0));
    pathfinder.tick(&world, on_block(0), &mut events, 100);
    pathfinder.tick(&world, on_block(1), &mut events, 100);
    pathfinder.goto(Goal::new(BlockPos::new(0, 64, 0), 0));
    assert!(pathfinder.replan);
    assert_eq!(pathfinder.tick(&world, on_block(1), &mut events, 100), None);
    let path = pathfinder.path.as_ref().unwrap();
    assert_eq!(path.edges.len(), 1);
    assert_eq!(path.edges[0].movement.target, BlockPos::new(0, 64, 0));
    assert_eq!(pathfinder.start, BlockPos::new(1, 64, 0));
}

#[test]
fn pathfinder_aborts_before_a_harmful_fall() {
    let world = corridor();
    let mut pathfinder = Pathfinder::new();
    let mut events = MoveEvents::new();
    pathfinder.goto(Goal::new(BlockPos::new(4, 64, 0), 0));
    pathfinder.tick(&world, on_block(0), &mut events, 100);
    let mut falling = on_block(0);
    falling.fall_damage_imminent = true;
    assert_eq!(
        pathfinder.tick(&world, falling, &mut events, 100),
        Some(PathfinderEvent::PathAborted)
    );
    assert!(pathfinder.goal.is_none() && pathfinder.path.is_none() && !pathfinder.replan);
    assert!(events.look_at.is_empty());
    // far outside the world there is no block to plan from
    pathfinder.goto(Goal::new(BlockPos::new(4, 64, 0), 0));
    assert_eq!(
        pathfinder.tick(&world, at(i64::MAX, 0, 0), &mut events, 100),
        Some(PathfinderEvent::PathAborted)
    );
    assert!(pathfinder.goal.is_none());
}

#[test]
fn pathfinder_stops_on_request() {
    let world = corridor();
    let mut pathfinder = Pathfinder::new();
    let mut events = MoveEvents::new();
    pathfinder.goto(Goal::new(BlockPos::new(4, 64, 0), 0));
    pathfinder.tick(&world, on_block(0), &mut events, 100);
    pathfinder.stop_pathfinding();
    assert!(pathfinder.goal.is_none() && pathfinder.path.is_none());
    assert_eq!(pathfinder.tick(&world, on_block(0), &mut events, 100), None);
    assert!(events.look_at.is_empty());
}

#[test]
fn pathfinder_gives_up_searching_when_told_to() {
    let world = corridor();
    let mut pathfinder = Pathfinder::new();
    let mut events = MoveEvents::new();
    pathfinder.goto(Goal::new(BlockPos::new(5, 64, 0), 0));
    assert_eq!(
        pathfinder.tick(&world, on_block(0), &mut events, 2),
        Some(PathfinderEvent::PathNotFound)
    );
    assert_eq!(pathfinder.path.as_ref().unwrap().outcome, Outcome::Exhausted);
}

#[test]
fn current_block_of_a_position() {
    assert_eq!(current_block(Vec3::new(1_500_000, -1, 0)), Some(BlockPos::new(1, -1, 0)));
    assert_eq!(
        current_block(Vec3::new(i32::MAX as i64 * 1_000_000 + 999_999, 0, i32::MIN as i64 * 1_000_000)),
        Some(BlockPos::new(i32::MAX, 0, i32::MIN))
    );
    assert_eq!(current_block(Vec3::new((i32::MAX as i64 + 1) * 1_000_000, 0, 0)), None);
    assert_eq!(current_block(Vec3::new(0, i32::MIN as i64 * 1_000_000 - 1, 0)), None);
}

#[test]
fn pathfinder_soundness_can_be_tested() {
    let world = corridor();
    let mut pathfinder = Pathfinder::new();
    assert!(pathfinder.is_wf());
    pathfinder.goto(Goal::new(BlockPos::new(2, 64, 0), 0));
    pathfinder.tick(&world, on_block(0), &mut MoveEvents::new(), 100);
    assert!(pathfinder.is_wf());
    pathfinder.index = 2;
    assert!(pathfinder.is_wf());
    pathfinder.index = 3;
    assert!(!pathfinder.is_wf());
}

#[test]
fn tick_input_of_a_client() {
    let mut ecs = Ecs::new();
    let profile = GameProfile { uuid: 1, name: "a".to_string(), properties: vec![] };
    let entity = ecs.bind_local_player(profile, Account::offline("a"));
    assert_eq!(tick_input(&ecs.players[0]), None);
    // the feet are at 65: the block that carries the player is at 64
    ecs.players[0].position = Some(Vec3::new(1_500_000, 65_000_000, -500_000));
    assert_eq!(
        tick_input(&ecs.players[0]),
        Some(TickInput {
            entity,
            position: Vec3::new(1_500_000, 64_000_000, -500_000),
            physics_delta: Vec3::new(0, 0, 0),
            fall_damage_imminent: false,
        })
    );
    assert_eq!(
        current_block(tick_input(&ecs.players[0]).unwrap().position),
        Some(BlockPos::new(1, 64, -1))
    );
    ecs.players[0].velocity = Some(Vec3::new(0, -80_000, 150_000));
    ecs.players[0].fall_distance = Some(SAFE_FALL_DISTANCE);
    let input = tick_input(&ecs.players[0]).unwrap();
    assert_eq!(input.physics_delta, Vec3::new(0, -80_000, 150_000));
    assert!(!input.fall_damage_imminent);
    ecs.players[0].fall_distance = Some(SAFE_FALL_DISTANCE + 1);
    assert!(tick_input(&ecs.players[0]).unwrap().fall_damage_imminent);
    ecs.players[0].position = Some(Vec3::new(0, i64::MIN + 5, 0));
    assert_eq!(tick_input(&ecs.players[0]).unwrap().position, Vec3::new(0, i64::MIN, 0));
    assert_eq!(SAFE_FALL_DISTANCE, 3_000_000);
}

#[test]
fn a_client_that_falls_too_far_gives_its_path_up() {
    let world = corridor();
    let mut ecs = Ecs::new();
    let profile = GameProfile { uuid: 1, name: "a".to_string(), properties: vec![] };
    ecs.bind_local_player(profile, Account::offline("a"));
    ecs.players[0].position = Some(Vec3::new(500_000, 65_000_000, 500_000));
    let mut pathfinder = Pathfinder::new();
    let mut events = MoveEvents::new();
    pathfinder.goto(Goal::new(BlockPos::new(4, 64, 0), 0));
    let input = tick_input(&ecs.players[0]).unwrap();
    assert_eq!(pathfinder.tick(&world, input, &mut events, 100), None);
    assert_eq!(pathfinder.path.as_ref().unwrap().edges.len(), 4);
    ecs.players[0].fall_distance = Some(3_400_000);
    let input = tick_input(&ecs.players[0]).unwrap();
    assert_eq!(
        pathfinder.tick(&world, input, &mut events, 100),
        Some(PathfinderEvent::PathAborted)
    );
}
