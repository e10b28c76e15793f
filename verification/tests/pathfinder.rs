use azalea::pathfinder::astar::{a_star, Outcome};
use azalea::pathfinder::basic::{
    ascend_is_reached, ascend_move, basic_move, descend_is_reached, descend_move, diagonal_move,
    execute_ascend_move, execute_descend_move, execute_diagonal_move, execute_forward_move,
    execute_move, forward_move, is_move_reached, MAX_STEP_COST,
};
use azalea::pathfinder::costs::{
    FALL_ONE_BLOCK_COST, JUMP_ONE_BLOCK_COST, SPRINT_DIAGONAL_COST, SPRINT_ONE_BLOCK_COST,
    WALK_ONE_BLOCK_COST,
};
use azalea::pathfinder::goals::{integer_sqrt, Goal};
use azalea::pathfinder::moves::{
    default_is_reached, Edge, Entity, ExecuteCtx, IsReachedCtx, JumpEvent, LookAtEvent,
    MoveEvents, MoveKind, Movement, SprintDirection, StartSprintEvent, StartWalkEvent,
    WalkDirection,
};
use azalea::position::{BlockPos, Vec3};
use azalea::world::{BlockKind, Instance};
use std::cmp::Reverse;
use std::collections::{BinaryHeap, HashMap};

fn empty_world() -> Instance {
    let mut world = Instance::new(0, 8);
    assert!(world.insert_chunk(0, 0));
    world
}

/// A floor of 10 by 10 blocks at height 64.
fn flat_grid() -> Instance {
    let mut world = empty_world();
    for x in 0..10 {
        for z in 0..10 {
            world.set_block_state(&BlockPos::new(x, 64, z), BlockKind::Solid);
        }
    }
    world
}

/// Stairs along x: three blocks up, then three blocks down.
fn stairs() -> Instance {
    let mut world = empty_world();
    let tops = [64, 65, 66, 67, 66, 65, 64];
    for (x, top) in tops.iter().enumerate() {
        for y in 60..=*top {
            world.set_block_state(&BlockPos::new(x as i32, y, 0), BlockKind::Solid);
        }
    }
    world
}

fn edge(x: i32, y: i32, z: i32, kind: MoveKind, cost: u64) -> Edge {
    Edge { movement: Movement { target: BlockPos::new(x, y, z), kind }, cost }
}

fn ctx(start: BlockPos, target: BlockPos, position: Vec3, physics_delta: Vec3) -> ExecuteCtx {
    ExecuteCtx { entity: Entity(7), target, start, position, physics_delta }
}

#[test]
fn costs_are_in_millionths_of_a_tick() {
    assert_eq!(SPRINT_ONE_BLOCK_COST, (20.0f64 / 5.612 * 1e6).round() as u64);
    assert_eq!(WALK_ONE_BLOCK_COST, (20.0f64 / 4.317 * 1e6).round() as u64);
    assert_eq!(SPRINT_DIAGONAL_COST, ((20.0f64 / 5.612 * 2f64.sqrt() + 0.001) * 1e6).round() as u64);
    assert_eq!(FALL_ONE_BLOCK_COST, 500_000);
    assert!(SPRINT_ONE_BLOCK_COST < WALK_ONE_BLOCK_COST);
    assert_eq!(MAX_STEP_COST, SPRINT_ONE_BLOCK_COST + JUMP_ONE_BLOCK_COST);
}

#[test]
fn forward_moves_on_a_flat_floor() {
    let world = flat_grid();
    assert_eq!(
        forward_move(&world, BlockPos::new(5, 64, 5)),
        vec![
            edge(5, 64, 4, MoveKind::Forward, SPRINT_ONE_BLOCK_COST),
            edge(5, 64, 6, MoveKind::Forward, SPRINT_ONE_BLOCK_COST),
            edge(4, 64, 5, MoveKind::Forward, SPRINT_ONE_BLOCK_COST),
            edge(6, 64, 5, MoveKind::Forward, SPRINT_ONE_BLOCK_COST),
        ]
    );
    // at the corner only two neighbours carry a player
    assert_eq!(
        forward_move(&world, BlockPos::new(0, 64, 0)),
        vec![
            edge(0, 64, 1, MoveKind::Forward, SPRINT_ONE_BLOCK_COST),
            edge(1, 64, 0, MoveKind::Forward, SPRINT_ONE_BLOCK_COST),
        ]
    );
    assert_eq!(forward_move(&world, BlockPos::new(5, 70, 5)), vec![]);
}

#[test]
fn diagonal_moves_on_a_flat_floor() {
    let world = flat_grid();
    assert_eq!(
        diagonal_move(&world, BlockPos::new(5, 64, 5)),
        vec![
            edge(6, 64, 4, MoveKind::Diagonal, SPRINT_DIAGONAL_COST),
            edge(4, 64, 6, MoveKind::Diagonal, SPRINT_DIAGONAL_COST),
            edge(4, 64, 4, MoveKind::Diagonal, SPRINT_DIAGONAL_COST),
            edge(6, 64, 6, MoveKind::Diagonal, SPRINT_DIAGONAL_COST),
        ]
    );
}

#[test]
fn diagonal_needs_one_free_side() {
    let mut world = flat_grid();
    let from = BlockPos::new(5, 64, 5);
    // a wall to the east only: the way round the south stays
    world.set_block_state(&BlockPos::new(6, 65, 5), BlockKind::Solid);
    assert!(diagonal_move(&world, from).contains(&edge(6, 64, 6, MoveKind::Diagonal, SPRINT_DIAGONAL_COST)));
    // walls to the east and to the south
    world.set_block_state(&BlockPos::new(5, 66, 6), BlockKind::Solid);
    assert!(!diagonal_move(&world, from).contains(&edge(6, 64, 6, MoveKind::Diagonal, SPRINT_DIAGONAL_COST)));
    assert!(diagonal_move(&world, from).contains(&edge(4, 64, 4, MoveKind::Diagonal, SPRINT_DIAGONAL_COST)));
}

#[test]
fn ascend_and_descend_on_stairs() {
    let world = stairs();
    let up = SPRINT_ONE_BLOCK_COST + JUMP_ONE_BLOCK_COST;
    assert_eq!(ascend_move(&world, BlockPos::new(0, 64, 0)), vec![edge(1, 65, 0, MoveKind::Ascend, up)]);
    assert_eq!(ascend_move(&world, BlockPos::new(2, 66, 0)), vec![edge(3, 67, 0, MoveKind::Ascend, up)]);
    assert_eq!(ascend_move(&world, BlockPos::new(3, 67, 0)), vec![]);
    assert_eq!(forward_move(&world, BlockPos::new(1, 65, 0)), vec![]);
    let down = SPRINT_ONE_BLOCK_COST + FALL_ONE_BLOCK_COST;
    assert_eq!(
        descend_move(&world, BlockPos::new(3, 67, 0)),
        vec![edge(2, 66, 0, MoveKind::Descend, down), edge(4, 66, 0, MoveKind::Descend, down)]
    );
    assert_eq!(
        descend_move(&world, BlockPos::new(5, 65, 0)),
        vec![edge(6, 64, 0, MoveKind::Descend, down)]
    );
    assert_eq!(
        basic_move(&world, BlockPos::new(1, 65, 0)),
        vec![edge(2, 66, 0, MoveKind::Ascend, up), edge(0, 64, 0, MoveKind::Descend, down)]
    );
}

#[test]
fn ascend_needs_room_to_jump() {
    let mut world = stairs();
    world.set_block_state(&BlockPos::new(0, 66, 0), BlockKind::Solid);
    assert_eq!(ascend_move(&world, BlockPos::new(0, 64, 0)), vec![]);
}

#[test]
fn descend_falls_three_blocks_at_most() {
    let mut world = empty_world();
    world.set_block_state(&BlockPos::new(5, 70, 5), BlockKind::Solid);
    world.set_block_state(&BlockPos::new(6, 68, 5), BlockKind::Solid);
    world.set_block_state(&BlockPos::new(4, 67, 5), BlockKind::Solid);
    world.set_block_state(&BlockPos::new(5, 66, 4), BlockKind::Solid);
    world.set_block_state(&BlockPos::new(5, 69, 6), BlockKind::Lava);
    let from = BlockPos::new(5, 70, 5);
    assert_eq!(
        descend_move(&world, from),
        vec![
            edge(4, 67, 5, MoveKind::Descend, SPRINT_ONE_BLOCK_COST + 3 * FALL_ONE_BLOCK_COST),
            edge(6, 68, 5, MoveKind::Descend, SPRINT_ONE_BLOCK_COST + 2 * FALL_ONE_BLOCK_COST),
        ]
    );
    // something in the way of the head where the player leaves the edge
    world.set_block_state(&BlockPos::new(6, 72, 5), BlockKind::Solid);
    assert_eq!(
        descend_move(&world, from),
        vec![edge(4, 67, 5, MoveKind::Descend, SPRINT_ONE_BLOCK_COST + 3 * FALL_ONE_BLOCK_COST)]
    );
}

#[test]
fn moves_at_the_edge_of_the_numbers() {
    let world = empty_world();
    assert_eq!(basic_move(&world, BlockPos::new(i32::MAX, i32::MAX, i32::MAX)), vec![]);
    assert_eq!(basic_move(&world, BlockPos::new(i32::MIN, i32::MIN, i32::MIN)), vec![]);
}

#[test]
fn pathfind_across_a_flat_grid() {
    let world = flat_grid();
    let goal = Goal::new(BlockPos::new(9, 64, 9), 0);
    let path = a_star(&world, BlockPos::new(0, 64, 0), &goal, 10_000);
    assert_eq!(path.outcome, Outcome::Found);
    assert!(!path.is_partial());
    assert_eq!(path.edges.len(), 9);
    let diagonal = path.edges.iter().filter(|e| e.movement.kind == MoveKind::Diagonal).count();
    let forward = path.edges.iter().filter(|e| e.movement.kind == MoveKind::Forward).count();
    assert_eq!((diagonal, forward), (9, 0));
    for (i, e) in path.edges.iter().enumerate() {
        assert_eq!(e.movement.target, BlockPos::new(i as i32 + 1, 64, i as i32 + 1));
    }
    assert_eq!(path.cost(), Some(9 * SPRINT_DIAGONAL_COST));
    let ticks = path.cost().unwrap() as f64 / 1e6;
    let expected = 9.0 * (20.0 / 5.612 * 2f64.sqrt() + 0.001);
    assert!((ticks - expected).abs() < 1e-5);
}

#[test]
fn pathfind_twice_gives_the_same_path() {
    let world = flat_grid();
    let goal = Goal::new(BlockPos::new(7, 64, 2), 0);
    let first = a_star(&world, BlockPos::new(1, 64, 8), &goal, 10_000);
    let second = a_star(&world, BlockPos::new(1, 64, 8), &goal, 10_000);
    assert_eq!(first.outcome, Outcome::Found);
    assert_eq!(first.outcome, second.outcome);
    assert_eq!(first.edges, second.edges);
    // six steps along both axes, of which all can be diagonal
    assert_eq!(first.cost(), Some(6 * SPRINT_DIAGONAL_COST));
}

#[test]
fn pathfind_mixes_diagonal_and_straight_steps() {
    let world = flat_grid();
    let goal = Goal::new(BlockPos::new(9, 64, 3), 0);
    let path = a_star(&world, BlockPos::new(0, 64, 0), &goal, 10_000);
    assert_eq!(path.outcome, Outcome::Found);
    assert_eq!(path.cost(), Some(3 * SPRINT_DIAGONAL_COST + 6 * SPRINT_ONE_BLOCK_COST));
    assert_eq!(path.edges.last().unwrap().movement.target, BlockPos::new(9, 64, 3));
}

#[test]
fn pathfind_within_a_radius() {
    let world = flat_grid();
    let goal = Goal::new(BlockPos::new(9, 64, 0), 2);
    let path = a_star(&world, BlockPos::new(0, 64, 0), &goal, 10_000);
    assert_eq!(path.outcome, Outcome::Found);
    assert_eq!(path.edges.len(), 7);
    assert_eq!(path.cost(), Some(7 * SPRINT_ONE_BLOCK_COST));
    assert_eq!(path.edges.last().unwrap().movement.target, BlockPos::new(7, 64, 0));
    // the start itself may meet the goal
    let here = a_star(&world, BlockPos::new(8, 64, 1), &goal, 10_000);
    assert_eq!(here.outcome, Outcome::Found);
    assert_eq!(here.edges, vec![]);
    assert_eq!(here.cost(), Some(0));
}

#[test]
fn pathfind_up_and_down_stairs() {
    let world = stairs();
    let goal = Goal::new(BlockPos::new(6, 64, 0), 0);
    let path = a_star(&world, BlockPos::new(0, 64, 0), &goal, 10_000);
    assert_eq!(path.outcome, Outcome::Found);
    let up = SPRINT_ONE_BLOCK_COST + JUMP_ONE_BLOCK_COST;
    let down = SPRINT_ONE_BLOCK_COST + FALL_ONE_BLOCK_COST;
    assert_eq!(
        path.edges,
        vec![
            edge(1, 65, 0, MoveKind::Ascend, up),
            edge(2, 66, 0, MoveKind::Ascend, up),
            edge(3, 67, 0, MoveKind::Ascend, up),
            edge(4, 66, 0, MoveKind::Descend, down),
            edge(5, 65, 0, MoveKind::Descend, down),
            edge(6, 64, 0, MoveKind::Descend, down),
        ]
    );
    assert_eq!(path.cost(), Some(3 * up + 3 * down));
}

#[test]
fn pathfind_to_what_cannot_be_reached() {
    let mut world = flat_grid();
    // an island that no step leads to
    world.set_block_state(&BlockPos::new(14, 64, 14), BlockKind::Solid);
    let goal = Goal::new(BlockPos::new(14, 64, 14), 0);
    let path = a_star(&world, BlockPos::new(0, 64, 0), &goal, 10_000);
    assert_eq!(path.outcome, Outcome::Unreachable);
    assert!(path.is_partial());
    // the path that is kept ends where the floor is nearest to the goal
    assert_eq!(path.edges.last().unwrap().movement.target, BlockPos::new(9, 64, 9));
    assert_eq!(path.cost(), Some(9 * SPRINT_DIAGONAL_COST));
}

#[test]
fn pathfind_from_where_nothing_leads_away() {
    let world = empty_world();
    let goal = Goal::new(BlockPos::new(3, 64, 3), 0);
    let path = a_star(&world, BlockPos::new(0, 64, 0), &goal, 10);
    assert_eq!(path.outcome, Outcome::Unreachable);
    assert_eq!(path.edges, vec![]);
}

#[test]
fn pathfind_gives_up_when_told_to() {
    let world = flat_grid();
    let goal = Goal::new(BlockPos::new(9, 64, 9), 0);
    let none = a_star(&world, BlockPos::new(0, 64, 0), &goal, 0);
    assert_eq!(none.outcome, Outcome::Exhausted);
    assert_eq!(none.edges, vec![]);
    let some = a_star(&world, BlockPos::new(0, 64, 0), &goal, 3);
    assert_eq!(some.outcome, Outcome::Exhausted);
    assert!(some.is_partial());
    assert!(!some.edges.is_empty() && some.edges.len() <= 3);
    let enough = a_star(&world, BlockPos::new(0, 64, 0), &goal, 100);
    assert_eq!(enough.outcome, Outcome::Found);
}

#[test]
fn pathfind_round_a_wall() {
    let mut world = flat_grid();
    for z in 0..9 {
        world.set_block_state(&BlockPos::new(5, 65, z), BlockKind::Solid);
        world.set_block_state(&BlockPos::new(5, 66, z), BlockKind::Solid);
    }
    let goal = Goal::new(BlockPos::new(9, 64, 0), 0);
    let path = a_star(&world, BlockPos::new(0, 64, 0), &goal, 10_000);
    assert_eq!(path.outcome, Outcome::Found);
    assert!(path.edges.iter().any(|e| e.movement.target == BlockPos::new(5, 64, 9)));
    assert!(path.edges.iter().all(|e| e.movement.target.x != 5 || e.movement.target.z == 9));
    // five steps along x and nine along z to the gap, four and nine back:
    // nine of the steps can be diagonal, nine are left straight
    let steps = path.edges.len() as u64;
    let diagonal = path.edges.iter().filter(|e| e.movement.kind == MoveKind::Diagonal).count() as u64;
    assert_eq!(
        path.cost(),
        Some(diagonal * SPRINT_DIAGONAL_COST + (steps - diagonal) * SPRINT_ONE_BLOCK_COST)
    );
    assert_eq!(path.cost(), Some(9 * SPRINT_DIAGONAL_COST + 9 * SPRINT_ONE_BLOCK_COST));
}

#[test]
fn heuristic_is_the_flat_distance_less_the_radius() {
    let goal = Goal::new(BlockPos::new(3, 64, 4), 0);
    assert_eq!(goal.heuristic(&BlockPos::new(0, 0, 0)), 5_000_000);
    assert_eq!(goal.heuristic(&BlockPos::new(3, 100, 4)), 0);
    assert_eq!(goal.heuristic(&BlockPos::new(4, 64, 5)), 1_414_213);
    let wide = Goal::new(BlockPos::new(3, 64, 4), 2);
    assert_eq!(wide.heuristic(&BlockPos::new(0, 0, 0)), 3_000_000);
    assert_eq!(wide.heuristic(&BlockPos::new(4, 64, 5)), 0);
    assert!(wide.success(&BlockPos::new(3, 66, 4)));
    assert!(wide.success(&BlockPos::new(4, 65, 5)));
    assert!(!wide.success(&BlockPos::new(5, 65, 5)));
    assert!(!goal.success(&BlockPos::new(3, 65, 4)));
    assert!(goal.success(&BlockPos::new(3, 64, 4)));
    let far = Goal::new(BlockPos::new(i32::MAX, 0, i32::MAX), u32::MAX);
    assert!(far.success(&BlockPos::new(i32::MIN, 0, i32::MAX)));
    assert!(!far.success(&BlockPos::new(i32::MIN, 0, i32::MIN)));
    assert_eq!(Goal::new(BlockPos::new(i32::MAX, 0, 0), 0).heuristic(&BlockPos::new(i32::MIN, 0, 0)), 4_294_967_295_000_000);
}

#[test]
fn integer_sqrt_rounds_down() {
    assert_eq!(integer_sqrt(0), 0);
    assert_eq!(integer_sqrt(1), 1);
    assert_eq!(integer_sqrt(3), 1);
    assert_eq!(integer_sqrt(4), 2);
    assert_eq!(integer_sqrt(99), 9);
    assert_eq!(integer_sqrt(2_000_000_000_000), 1_414_213);
    assert_eq!(integer_sqrt((1u128 << 106) - 1), (1u64 << 53) - 1);
}

#[test]
fn forward_and_diagonal_look_and_sprint() {
    let start = BlockPos::new(0, 64, 0);
    let target = BlockPos::new(1, 64, 1);
    let c = ctx(start, target, Vec3::new(500_000, 64_000_000, 500_000), Vec3::new(0, 0, 0));
    for kind in [MoveKind::Forward, MoveKind::Diagonal] {
        let mut events = MoveEvents::new();
        execute_move(kind, c, &mut events);
        assert_eq!(
            events.look_at,
            vec![LookAtEvent { entity: Entity(7), position: Vec3::new(1_500_000, 64_500_000, 1_500_000) }]
        );
        assert_eq!(
            events.sprint,
            vec![StartSprintEvent { entity: Entity(7), direction: SprintDirection::Forward }]
        );
        assert_eq!(events.walk, vec![]);
        assert_eq!(events.jump, vec![]);
    }
    let mut events = MoveEvents::new();
    execute_forward_move(c, &mut events);
    execute_diagonal_move(c, &mut events);
    assert_eq!(events.look_at.len(), 2);
    assert_eq!(events.sprint.len(), 2);
}

#[test]
fn ascend_jumps_only_when_lined_up() {
    let start = BlockPos::new(0, 64, 0);
    let target = BlockPos::new(1, 65, 0);
    // in the middle of the start block, lined up with the step
    let lined_up = Vec3::new(500_000, 65_000_000, 500_000);
    let still = Vec3::new(0, 0, 0);
    let jumps = |position: Vec3, delta: Vec3| {
        let mut events = MoveEvents::new();
        execute_ascend_move(ctx(start, target, position, delta), &mut events);
        assert_eq!(
            events.look_at,
            vec![LookAtEvent { entity: Entity(7), position: Vec3::new(1_500_000, 65_500_000, 500_000) }]
        );
        assert_eq!(
            events.walk,
            vec![StartWalkEvent { entity: Entity(7), direction: WalkDirection::Forward }]
        );
        assert_eq!(events.sprint, vec![]);
        assert!(events.jump.len() <= 1);
        events.jump == vec![JumpEvent { entity: Entity(7) }]
    };
    assert!(jumps(lined_up, still));
    // drifting sideways by a tenth of a block a tick is the most
    assert!(jumps(lined_up, Vec3::new(0, 0, 100_000)));
    assert!(!jumps(lined_up, Vec3::new(0, 0, 100_001)));
    assert!(!jumps(lined_up, Vec3::new(0, 0, 300_000)));
    assert!(!jumps(lined_up, Vec3::new(0, 0, -100_001)));
    assert!(jumps(lined_up, Vec3::new(900_000, 0, 0)));
    // 1.2 blocks before the middle of the target is the most
    assert!(jumps(Vec3::new(300_000, 65_000_000, 500_000), still));
    assert!(!jumps(Vec3::new(299_999, 65_000_000, 500_000), still));
    // a fifth of a block beside the line is the most
    assert!(jumps(Vec3::new(500_000, 65_000_000, 700_000), still));
    assert!(!jumps(Vec3::new(500_000, 65_000_000, 700_001), still));
    assert!(jumps(Vec3::new(500_000, 65_000_000, 300_000), still));
    assert!(!jumps(Vec3::new(500_000, 65_000_000, 299_999), still));
}

#[test]
fn ascend_along_the_other_axis() {
    let start = BlockPos::new(0, 64, 0);
    let target = BlockPos::new(0, 65, -1);
    let mut events = MoveEvents::new();
    let position = Vec3::new(500_000, 65_000_000, 500_000);
    execute_ascend_move(ctx(start, target, position, Vec3::new(100_001, 0, 0)), &mut events);
    assert_eq!(events.jump, vec![]);
    execute_ascend_move(ctx(start, target, position, Vec3::new(-50_000, 0, -900_000)), &mut events);
    assert_eq!(events.jump, vec![JumpEvent { entity: Entity(7) }]);
}

#[test]
fn no_jump_on_the_stairs_while_drifting() {
    let world = stairs();
    let goal = Goal::new(BlockPos::new(6, 64, 0), 0);
    let path = a_star(&world, BlockPos::new(0, 64, 0), &goal, 10_000);
    let mut start = BlockPos::new(0, 64, 0);
    for e in path.edges.iter() {
        let mut events = MoveEvents::new();
        let position = start.center();
        let c = ctx(start, e.movement.target, position, Vec3::new(0, 0, 100_001));
        execute_move(e.movement.kind, c, &mut events);
        assert_eq!(events.jump, vec![]);
        assert_eq!(events.look_at.len(), 1);
        start = e.movement.target;
    }
}

#[test]
fn descend_aims_past_the_target_near_the_start() {
    let start = BlockPos::new(0, 67, 0);
    let target = BlockPos::new(1, 65, 0);
    let sprint = vec![StartSprintEvent { entity: Entity(7), direction: SprintDirection::Forward }];
    let ahead = Vec3::new(2_500_000, 65_500_000, 500_000);
    let center = Vec3::new(1_500_000, 65_500_000, 500_000);
    let run = |start: BlockPos, position: Vec3| {
        let mut events = MoveEvents::new();
        execute_descend_move(ctx(start, target, position, Vec3::new(0, 0, 0)), &mut events);
        assert_eq!(events.walk, vec![]);
        assert_eq!(events.jump, vec![]);
        (events.look_at, events.sprint)
    };
    // still close to the start: overshoot
    assert_eq!(
        run(start, Vec3::new(500_000, 67_000_000, 500_000)),
        (vec![LookAtEvent { entity: Entity(7), position: ahead }], sprint.clone())
    );
    assert_eq!(
        run(start, Vec3::new(1_749_999, 67_000_000, 500_000)),
        (vec![LookAtEvent { entity: Entity(7), position: ahead }], sprint.clone())
    );
    // a block and a quarter from the start, falling two blocks: aim at the target
    assert_eq!(
        run(start, Vec3::new(1_750_000, 66_000_000, 500_000)),
        (vec![LookAtEvent { entity: Entity(7), position: center }], sprint.clone())
    );
    // falling one block only: overshoot however far from the start
    assert_eq!(
        run(BlockPos::new(0, 66, 0), Vec3::new(1_900_000, 66_000_000, 500_000)),
        (vec![LookAtEvent { entity: Entity(7), position: ahead }], sprint.clone())
    );
    // in the target block and within a quarter block of its middle: nothing
    assert_eq!(run(start, Vec3::new(1_500_000, 65_000_000, 500_000)), (vec![], vec![]));
    assert_eq!(run(start, Vec3::new(1_750_000, 65_000_000, 500_000)), (vec![], vec![]));
    // in the target block, but further from its middle
    assert_eq!(
        run(start, Vec3::new(1_750_001, 65_000_000, 500_000)),
        (vec![LookAtEvent { entity: Entity(7), position: center }], sprint.clone())
    );
    // far away along both axes: what counts is the distance, not one axis
    assert_eq!(
        run(start, Vec3::new(i64::MAX, 65_000_000, i64::MIN)),
        (vec![LookAtEvent { entity: Entity(7), position: center }], sprint)
    );
}

#[test]
fn reached_by_default_in_the_target_block() {
    let target = BlockPos::new(1, 64, -1);
    let start = BlockPos::new(0, 64, 0);
    let at = |x: i64, y: i64, z: i64| IsReachedCtx { target, start, position: Vec3::new(x, y, z) };
    assert!(default_is_reached(at(1_000_000, 64_000_000, -1)));
    assert!(default_is_reached(at(1_999_999, 64_999_999, -1_000_000)));
    assert!(!default_is_reached(at(999_999, 64_000_000, -1)));
    assert!(!default_is_reached(at(1_000_000, 65_000_000, -1)));
    assert!(!default_is_reached(at(1_000_000, 64_000_000, 0)));
    assert!(is_move_reached(MoveKind::Forward, at(1_500_000, 64_500_000, -500_000)));
    assert!(is_move_reached(MoveKind::Diagonal, at(1_500_000, 64_500_000, -500_000)));
    assert!(!is_move_reached(MoveKind::Diagonal, at(1_500_000, 63_500_000, -500_000)));
}

#[test]
fn ascend_reached_in_the_target_block_or_below_it() {
    let target = BlockPos::new(1, 65, 0);
    let start = BlockPos::new(0, 64, 0);
    let at = |x: i64, y: i64, z: i64| IsReachedCtx { target, start, position: Vec3::new(x, y, z) };
    assert!(ascend_is_reached(at(1_500_000, 65_000_000, 500_000)));
    assert!(ascend_is_reached(at(1_500_000, 64_000_000, 500_000)));
    assert!(!ascend_is_reached(at(1_500_000, 63_999_999, 500_000)));
    assert!(!ascend_is_reached(at(1_500_000, 66_000_000, 500_000)));
    assert!(!ascend_is_reached(at(500_000, 65_000_000, 500_000)));
    assert!(is_move_reached(MoveKind::Ascend, at(1_500_000, 64_000_000, 500_000)));
}

#[test]
fn descend_reached_low_in_the_target_block_or_past_it() {
    let target = BlockPos::new(1, 65, 0);
    let start = BlockPos::new(0, 66, 0);
    let at = |x: i64, y: i64, z: i64| IsReachedCtx { target, start, position: Vec3::new(x, y, z) };
    assert!(descend_is_reached(at(1_500_000, 65_000_000, 500_000)));
    assert!(descend_is_reached(at(1_500_000, 65_499_999, 500_000)));
    assert!(!descend_is_reached(at(1_500_000, 65_500_000, 500_000)));
    // one step past the target counts too
    assert!(descend_is_reached(at(2_500_000, 65_100_000, 500_000)));
    assert!(!descend_is_reached(at(3_500_000, 65_100_000, 500_000)));
    assert!(!descend_is_reached(at(500_000, 65_100_000, 500_000)));
    assert!(!descend_is_reached(at(1_500_000, 64_900_000, 500_000)));
    assert!(!descend_is_reached(at(1_500_000, 66_000_000, 500_000)));
    assert!(is_move_reached(MoveKind::Descend, at(1_500_000, 65_000_000, 500_000)));
}

/// The least cost of a way from `start` to a block that meets the goal, by
/// trying every way.
fn cheapest_by_exhaustion(world: &Instance, start: BlockPos, goal: &Goal) -> (Option<u64>, u64) {
    let mut best: HashMap<BlockPos, u64> = HashMap::new();
    let mut queue = BinaryHeap::new();
    best.insert(start, 0);
    queue.push(Reverse((0u64, start.x, start.y, start.z)));
    while let Some(Reverse((cost, x, y, z))) = queue.pop() {
        let pos = BlockPos::new(x, y, z);
        if best[&pos] < cost {
            continue;
        }
        for e in basic_move(world, pos) {
            let reach = cost + e.cost;
            let target = e.movement.target;
            if best.get(&target).map_or(true, |known| reach < *known) {
                best.insert(target, reach);
                queue.push(Reverse((reach, target.x, target.y, target.z)));
            }
        }
    }
    let cheapest = best.iter().filter(|(pos, _)| goal.success(pos)).map(|(_, cost)| *cost).min();
    let nearest = best.keys().map(|pos| goal.heuristic(pos)).min().unwrap();
    (cheapest, nearest)
}

#[test]
fn pathfind_is_as_cheap_as_the_cheapest_way() {
    let mut seed: u64 = 0x2545_f491_4f6c_dd1d;
    let mut random = move |below: u64| {
        seed = seed.wrapping_mul(6364136223846793005).wrapping_add(1442695040888963407);
        (seed >> 33) % below
    };
    let mut found = 0;
    let mut unreachable = 0;
    for _ in 0..60 {
        let mut world = empty_world();
        for x in 0..8 {
            for z in 0..8 {
                let top = 64 + random(4) as i32;
                let kind = if random(10) == 0 { BlockKind::Lava } else { BlockKind::Solid };
                for y in 60..top {
                    world.set_block_state(&BlockPos::new(x, y, z), BlockKind::Solid);
                }
                world.set_block_state(&BlockPos::new(x, top, z), kind);
            }
        }
        let start = BlockPos::new(0, 64 + random(4) as i32, 0);
        let goal = Goal::new(
            BlockPos::new(random(8) as i32, 64 + random(4) as i32, random(8) as i32),
            random(3) as u32,
        );
        let path = a_star(&world, start, &goal, 100_000);
        let (cheapest, nearest) = cheapest_by_exhaustion(&world, start, &goal);
        // the path can be walked
        let mut at = start;
        for e in path.edges.iter() {
            assert!(basic_move(&world, at).contains(e));
            at = e.movement.target;
        }
        match cheapest {
            Some(cost) => {
                assert_eq!(path.outcome, Outcome::Found);
                assert_eq!(path.cost(), Some(cost));
                assert!(goal.success(&at));
                found += 1;
            }
            None => {
                assert_eq!(path.outcome, Outcome::Unreachable);
                assert_eq!(goal.heuristic(&at), nearest);
                unreachable += 1;
            }
        }
    }
    assert!(found >= 10 && unreachable >= 10, "{} {}", found, unreachable);
}

#[test]
fn search_does_not_give_up_in_a_small_world() {
    let world = flat_grid();
    // one chunk, 128 blocks high
    assert_eq!(world.block_count(), 256 * 128);
    assert_eq!(Instance::new(-64, 24).block_count(), 0);
    let limit = world.block_count() as u32 + 2;
    let near = a_star(&world, BlockPos::new(0, 64, 0), &Goal::new(BlockPos::new(9, 64, 9), 0), limit);
    assert_eq!(near.outcome, Outcome::Found);
    let far = a_star(&world, BlockPos::new(0, 64, 0), &Goal::new(BlockPos::new(15, 64, 15), 0), limit);
    assert_eq!(far.outcome, Outcome::Unreachable);
    let mut two = flat_grid();
    two.insert_chunk(1, 0);
    assert_eq!(two.block_count(), 2 * 256 * 128);
}
