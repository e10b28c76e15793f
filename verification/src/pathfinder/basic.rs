//! The basic steps: straight on, up a block, down a fall, and diagonally.

use crate::pathfinder::costs::{
    FALL_ONE_BLOCK_COST, JUMP_ONE_BLOCK_COST, SPRINT_DIAGONAL_COST, SPRINT_ONE_BLOCK_COST,
};
use crate::pathfinder::moves::{
    default_is_reached, Edge, ExecuteCtx, IsReachedCtx, JumpEvent, LookAtEvent, MoveEvents,
    MoveKind, Movement, SprintDirection, StartSprintEvent, StartWalkEvent, WalkDirection,
};
use crate::position::{block_coordinate, center_of, BlockPos, CardinalDirection, Point, Vec3};
use crate::world::{lemma_known_is_representable, Instance};
use vstd::prelude::*;

verus! {

/// The block position at a representable point.
pub open spec fn block_pos_at(p: Point) -> BlockPos {
    BlockPos { x: p.x as i32, y: p.y as i32, z: p.z as i32 }
}

/// The edge to `target` by a step of `kind` that costs `cost`.
pub open spec fn edge_to(target: Point, kind: MoveKind, cost: int) -> Edge {
    Edge { movement: Movement { target: block_pos_at(target), kind }, cost: cost as u64 }
}

/// The step straight on from `p` towards `dir`, where the block there can
/// be stood on.
pub open spec fn forward_edge(world: Instance, p: Point, dir: CardinalDirection) -> Option<Edge> {
    let target = p.shift(dir.dx(), 0, dir.dz());
    if world.standable_at(target) {
        Some(edge_to(target, MoveKind::Forward, SPRINT_ONE_BLOCK_COST as int))
    } else {
        None
    }
}

/// The step up from `p` towards `dir`: the block two above `p` must be
/// passable and the block one higher in that direction must be standable.
pub open spec fn ascend_edge(world: Instance, p: Point, dir: CardinalDirection) -> Option<Edge> {
    let target = p.shift(dir.dx(), 1, dir.dz());
    if world.passable_at(p.up(2)) && world.standable_at(target) {
        Some(edge_to(target, MoveKind::Ascend, SPRINT_ONE_BLOCK_COST + JUMP_ONE_BLOCK_COST))
    } else {
        None
    }
}

/// The step down from `p` towards `dir`: the fall in the next column is one
/// to three blocks deep, the column is clear where the player leaves the
/// edge, and the block that ends the fall is standable.
pub open spec fn descend_edge(world: Instance, p: Point, dir: CardinalDirection) -> Option<Edge> {
    let edge = p.shift(dir.dx(), 0, dir.dz());
    let fall = world.drop_at(edge);
    let target = edge.down(fall as int);
    if 1 <= fall <= 3 && world.clear_above(edge) && world.standable_at(target) {
        Some(
            edge_to(target, MoveKind::Descend, SPRINT_ONE_BLOCK_COST + FALL_ONE_BLOCK_COST * fall),
        )
    } else {
        None
    }
}

/// The diagonal step from `p` between `dir` and the direction to its right:
/// the player must fit above at least one of the two blocks passed, and the
/// block at the corner must be standable.
pub open spec fn diagonal_edge(world: Instance, p: Point, dir: CardinalDirection) -> Option<Edge> {
    let right = dir.turned_right();
    let target = p.shift(dir.dx() + right.dx(), 0, dir.dz() + right.dz());
    if (world.clear_above(p.shift(dir.dx(), 0, dir.dz())) || world.clear_above(
        p.shift(right.dx(), 0, right.dz()),
    )) && world.standable_at(target) {
        Some(edge_to(target, MoveKind::Diagonal, SPRINT_DIAGONAL_COST as int))
    } else {
        None
    }
}

/// The edges that `family` gives for the first `n` directions, in their
/// order.
pub open spec fn edges_of(
    family: spec_fn(CardinalDirection) -> Option<Edge>,
    n: nat,
) -> Seq<Edge>
    decreases n,
{
    if n == 0 {
        Seq::empty()
    } else {
        let before = edges_of(family, (n - 1) as nat);
        match family(CardinalDirection::all()[n - 1]) {
            Some(edge) => before.push(edge),
            None => before,
        }
    }
}

pub open spec fn forward_edges(world: Instance, p: Point) -> Seq<Edge> {
    edges_of(|dir: CardinalDirection| forward_edge(world, p, dir), 4)
}

pub open spec fn ascend_edges(world: Instance, p: Point) -> Seq<Edge> {
    edges_of(|dir: CardinalDirection| ascend_edge(world, p, dir), 4)
}

pub open spec fn descend_edges(world: Instance, p: Point) -> Seq<Edge> {
    edges_of(|dir: CardinalDirection| descend_edge(world, p, dir), 4)
}

pub open spec fn diagonal_edges(world: Instance, p: Point) -> Seq<Edge> {
    edges_of(|dir: CardinalDirection| diagonal_edge(world, p, dir), 4)
}

/// Every basic step that leads away from `p`: forward, up, down, diagonal.
pub open spec fn basic_edges(world: Instance, p: Point) -> Seq<Edge> {
    forward_edges(world, p) + ascend_edges(world, p) + descend_edges(world, p) + diagonal_edges(
        world,
        p,
    )
}

/// The most that a basic step costs: the step up.
pub const MAX_STEP_COST: u64 = 6_727_189;

/// What every basic step has in common: it leads to a block that can be
/// stood on and costs at least a sprinted block and at most
/// [`MAX_STEP_COST`]. A diagonal step leads one block along both axes, at
/// the same height, for the price of the diagonal; every other step leads
/// one block along one axis.
pub open spec fn is_step(world: Instance, p: Point, edge: Edge) -> bool {
    let target = edge.movement.target@;
    let dx = target.x - p.x;
    let dz = target.z - p.z;
    &&& -1 <= dx <= 1
    &&& -1 <= dz <= 1
    &&& world.standable_at(target)
    &&& SPRINT_ONE_BLOCK_COST <= edge.cost <= MAX_STEP_COST
    &&& if edge.movement.kind == MoveKind::Diagonal {
        dx != 0 && dz != 0 && target.y == p.y && edge.cost == SPRINT_DIAGONAL_COST
    } else {
        (dx == 0) != (dz == 0)
    }
}

/// An edge among those of a family belongs to one of the directions.
proof fn lemma_edges_of_member(
    family: spec_fn(CardinalDirection) -> Option<Edge>,
    n: nat,
    edge: Edge,
) -> (dir: CardinalDirection)
    requires
        n <= 4,
        edges_of(family, n).contains(edge),
    ensures
        family(dir) == Some(edge),
    decreases n,
{
    let before = edges_of(family, (n - 1) as nat);
    let last = CardinalDirection::all()[n - 1];
    if n == 0 {
        assert(false);
        last
    } else {
        match family(last) {
            Some(found) => {
                let i = choose|i: int| 0 <= i < before.push(found).len() && before.push(found)[i]
                    == edge;
                if i < before.len() {
                    assert(before[i] == edge);
                    lemma_edges_of_member(family, (n - 1) as nat, edge)
                } else {
                    last
                }
            },
            None => lemma_edges_of_member(family, (n - 1) as nat, edge),
        }
    }
}

/// Every edge that leads away from `p` is a step.
pub proof fn lemma_basic_edges_are_steps(world: Instance, p: Point, edge: Edge)
    requires
        world.wf(),
        basic_edges(world, p).contains(edge),
    ensures
        is_step(world, p, edge),
{
    let forward = forward_edges(world, p);
    let ascend = ascend_edges(world, p);
    let descend = descend_edges(world, p);
    let diagonal = diagonal_edges(world, p);
    let all = basic_edges(world, p);
    let i = choose|i: int| 0 <= i < all.len() && all[i] == edge;
    assert(all[i] == edge);
    let family = if i < forward.len() {
        assert(forward[i] == edge);
        |dir: CardinalDirection| forward_edge(world, p, dir)
    } else if i < forward.len() + ascend.len() {
        assert(ascend[i - forward.len()] == edge);
        |dir: CardinalDirection| ascend_edge(world, p, dir)
    } else if i < forward.len() + ascend.len() + descend.len() {
        assert(descend[i - forward.len() - ascend.len()] == edge);
        |dir: CardinalDirection| descend_edge(world, p, dir)
    } else {
        assert(diagonal[i - forward.len() - ascend.len() - descend.len()] == edge);
        |dir: CardinalDirection| diagonal_edge(world, p, dir)
    };
    let dir = lemma_edges_of_member(family, 4, edge);
    let right = dir.turned_right();
    let target = if i < forward.len() {
        p.shift(dir.dx(), 0, dir.dz())
    } else if i < forward.len() + ascend.len() {
        p.shift(dir.dx(), 1, dir.dz())
    } else if i < forward.len() + ascend.len() + descend.len() {
        p.shift(dir.dx(), 0, dir.dz()).down(world.drop_at(p.shift(dir.dx(), 0, dir.dz())) as int)
    } else {
        p.shift(dir.dx() + right.dx(), 0, dir.dz() + right.dz())
    };
    assert(world.standable_at(target));
    lemma_known_is_representable(world, target);
    assert(edge.movement.target@ == target);
}

/// Whether the block `dx`, `dy`, `dz` away from `pos` can be stood on, and
/// the block itself.
fn standable_neighbour(world: &Instance, pos: BlockPos, dx: i32, dy: i32, dz: i32) -> (found:
    Option<BlockPos>)
    requires
        world.wf(),
    ensures
        found.is_some() == world.standable_at(pos@.shift(dx as int, dy as int, dz as int)),
        found.is_some() ==> found.unwrap() == block_pos_at(
            pos@.shift(dx as int, dy as int, dz as int),
        ) && found.unwrap()@ == pos@.shift(dx as int, dy as int, dz as int),
{
    let ghost p = pos@.shift(dx as int, dy as int, dz as int);
    proof {
        if world.kind_at(p).is_some() {
            lemma_known_is_representable(*world, p);
        }
    }
    match pos.offset(dx, dy, dz) {
        Some(target) => {
            if world.is_standable(&target) {
                Some(target)
            } else {
                None
            }
        },
        None => None,
    }
}

/// Whether a player fits above the block `dx`, `dz` away from `pos`.
fn clear_above_neighbour(world: &Instance, pos: BlockPos, dx: i32, dz: i32) -> (clear: bool)
    requires
        world.wf(),
    ensures
        clear == world.clear_above(pos@.shift(dx as int, 0, dz as int)),
{
    let ghost p = pos@.shift(dx as int, 0, dz as int);
    proof {
        if world.kind_at(p.up(1)).is_some() {
            lemma_known_is_representable(*world, p.up(1));
        }
    }
    match pos.offset(dx, 0, dz) {
        Some(next) => world.is_passable(&next),
        None => false,
    }
}

pub fn basic_move(world: &Instance, node: BlockPos) -> (edges: Vec<Edge>)
    requires
        world.wf(),
    ensures
        edges@ == basic_edges(*world, node@),
{
    let mut edges: Vec<Edge> = Vec::new();
    let mut forward = forward_move(world, node);
    let mut ascend = ascend_move(world, node);
    let mut descend = descend_move(world, node);
    let mut diagonal = diagonal_move(world, node);
    edges.append(&mut forward);
    edges.append(&mut ascend);
    edges.append(&mut descend);
    edges.append(&mut diagonal);
    edges
}

pub fn forward_move(world: &Instance, pos: BlockPos) -> (edges: Vec<Edge>)
    requires
        world.wf(),
    ensures
        edges@ == forward_edges(*world, pos@),
{
    let mut edges: Vec<Edge> = Vec::new();
    let ghost family = |dir: CardinalDirection| forward_edge(*world, pos@, dir);
    let mut i: usize = 0;
    while i < 4
        invariant
            world.wf(),
            i <= 4,
            family == (|dir: CardinalDirection| forward_edge(*world, pos@, dir)),
            edges@ == edges_of(family, i as nat),
        decreases 4 - i,
    {
        let dir = CardinalDirection::nth(i);
        i += 1;
        match standable_neighbour(world, pos, dir.x(), 0, dir.z()) {
            Some(target) => {
                edges.push(
                    Edge {
                        movement: Movement { target, kind: MoveKind::Forward },
                        cost: SPRINT_ONE_BLOCK_COST,
                    },
                );
            },
            None => {},
        }
    }
    edges
}

pub fn ascend_move(world: &Instance, pos: BlockPos) -> (edges: Vec<Edge>)
    requires
        world.wf(),
    ensures
        edges@ == ascend_edges(*world, pos@),
{
    let mut edges: Vec<Edge> = Vec::new();
    let ghost family = |dir: CardinalDirection| ascend_edge(*world, pos@, dir);
    let headroom: bool = {
        proof {
            if world.kind_at(pos@.up(2)).is_some() {
                lemma_known_is_representable(*world, pos@.up(2));
            }
        }
        match pos.offset(0, 2, 0) {
            Some(above) => world.is_block_passable(&above),
            None => false,
        }
    };
    let mut i: usize = 0;
    while i < 4
        invariant
            world.wf(),
            i <= 4,
            headroom == world.passable_at(pos@.up(2)),
            family == (|dir: CardinalDirection| ascend_edge(*world, pos@, dir)),
            edges@ == edges_of(family, i as nat),
        decreases 4 - i,
    {
        let dir = CardinalDirection::nth(i);
        i += 1;
        if !headroom {
            continue ;
        }
        match standable_neighbour(world, pos, dir.x(), 1, dir.z()) {
            Some(target) => {
                edges.push(
                    Edge {
                        movement: Movement { target, kind: MoveKind::Ascend },
                        cost: SPRINT_ONE_BLOCK_COST + JUMP_ONE_BLOCK_COST,
                    },
                );
            },
            None => {},
        }
    }
    edges
}

pub fn descend_move(world: &Instance, pos: BlockPos) -> (edges: Vec<Edge>)
    requires
        world.wf(),
    ensures
        edges@ == descend_edges(*world, pos@),
{
    let mut edges: Vec<Edge> = Vec::new();
    let ghost family = |dir: CardinalDirection| descend_edge(*world, pos@, dir);
    let mut i: usize = 0;
    while i < 4
        invariant
            world.wf(),
            i <= 4,
            family == (|dir: CardinalDirection| descend_edge(*world, pos@, dir)),
            edges@ == edges_of(family, i as nat),
        decreases 4 - i,
    {
        let dir = CardinalDirection::nth(i);
        i += 1;
        let ghost edge = pos@.shift(dir.dx(), 0, dir.dz());
        proof {
            if world.kind_at(edge).is_some() {
                lemma_known_is_representable(*world, edge);
            }
        }
        let new_horizontal_position = match pos.offset(dir.x(), 0, dir.z()) {
            Some(next) => next,
            None => {
                continue ;
            },
        };
        let fall_distance: u32 = world.fall_distance(&new_horizontal_position);
        if fall_distance == 0 || fall_distance > 3 {
            continue ;
        }
        // the player leaves the edge upright: the two blocks above the
        // first block of the fall have to be free
        if !world.is_passable(&new_horizontal_position) {
            continue ;
        }
        // the block that ends the fall has to carry the player
        match standable_neighbour(world, new_horizontal_position, 0, -(fall_distance as i32), 0) {
            Some(new_position) => {
                edges.push(
                    Edge {
                        movement: Movement { target: new_position, kind: MoveKind::Descend },
                        cost: SPRINT_ONE_BLOCK_COST + FALL_ONE_BLOCK_COST * (fall_distance as u64),
                    },
                );
            },
            None => {},
        }
    }
    edges
}

pub fn diagonal_move(world: &Instance, pos: BlockPos) -> (edges: Vec<Edge>)
    requires
        world.wf(),
    ensures
        edges@ == diagonal_edges(*world, pos@),
{
    let mut edges: Vec<Edge> = Vec::new();
    let ghost family = |dir: CardinalDirection| diagonal_edge(*world, pos@, dir);
    let mut i: usize = 0;
    while i < 4
        invariant
            world.wf(),
            i <= 4,
            family == (|dir: CardinalDirection| diagonal_edge(*world, pos@, dir)),
            edges@ == edges_of(family, i as nat),
        decreases 4 - i,
    {
        let dir = CardinalDirection::nth(i);
        i += 1;
        let right = dir.right();
        if !clear_above_neighbour(world, pos, dir.x(), dir.z()) && !clear_above_neighbour(
            world,
            pos,
            right.x(),
            right.z(),
        ) {
            continue ;
        }
        match standable_neighbour(world, pos, dir.x() + right.x(), 0, dir.z() + right.z()) {
            Some(target) => {
                edges.push(
                    Edge {
                        movement: Movement { target, kind: MoveKind::Diagonal },
                        cost: SPRINT_DIAGONAL_COST,
                    },
                );
            },
            None => {},
        }
    }
    edges
}

/// The events of a tick in which the player looks at `aim` and sprints
/// forward, after those in `before`.
pub open spec fn look_and_sprint(before: MoveEvents, ctx: ExecuteCtx, aim: Vec3, after: MoveEvents) -> bool {
    &&& after.look_at@ == before.look_at@.push(LookAtEvent { entity: ctx.entity, position: aim })
    &&& after.sprint@ == before.sprint@.push(
        StartSprintEvent { entity: ctx.entity, direction: SprintDirection::Forward },
    )
    &&& after.walk@ == before.walk@
    &&& after.jump@ == before.jump@
}

/// Straight on: look at the middle of the target block and sprint.
pub fn execute_forward_move(ctx: ExecuteCtx, events: &mut MoveEvents)
    ensures
        look_and_sprint(*old(events), ctx, center_of(ctx.target@), *final(events)),
{
    let center = ctx.target.center();
    events.look_at.push(LookAtEvent { entity: ctx.entity, position: center });
    events.sprint.push(StartSprintEvent { entity: ctx.entity, direction: SprintDirection::Forward });
}

pub open spec fn magnitude(v: int) -> int {
    if v < 0 {
        -v
    } else {
        v
    }
}

/// How far the middle of the target block lies ahead of the player, along
/// the axis of the step.
pub open spec fn flat_distance_to_next(ctx: ExecuteCtx) -> int {
    let x_axis = magnitude(ctx.start.x - ctx.target.x);
    let z_axis = magnitude(ctx.start.z - ctx.target.z);
    let center = center_of(ctx.target@);
    x_axis * (center.x - ctx.position.x) + z_axis * (center.z - ctx.position.z)
}

/// How far the player is off the line of the step, across its axis.
pub open spec fn side_distance(ctx: ExecuteCtx) -> int {
    let x_axis = magnitude(ctx.start.x - ctx.target.x);
    let z_axis = magnitude(ctx.start.z - ctx.target.z);
    let center = center_of(ctx.target@);
    z_axis * magnitude(center.x - ctx.position.x) + x_axis * magnitude(center.z - ctx.position.z)
}

/// How fast the player drifts across the axis of the step.
pub open spec fn lateral_motion(ctx: ExecuteCtx) -> int {
    let x_axis = magnitude(ctx.start.x - ctx.target.x);
    let z_axis = magnitude(ctx.start.z - ctx.target.z);
    x_axis * ctx.physics_delta.z + z_axis * ctx.physics_delta.x
}

/// The player jumps only when lined up with the step: drifting sideways by
/// at most a tenth of a block a tick, at most 1.2 blocks before the middle
/// of the target and at most a fifth of a block beside the line.
pub open spec fn ascend_jumps(ctx: ExecuteCtx) -> bool {
    &&& magnitude(lateral_motion(ctx)) <= 100_000
    &&& flat_distance_to_next(ctx) <= 1_200_000
    &&& side_distance(ctx) <= 200_000
}

fn magnitude_of(v: i128) -> (m: i128)
    requires
        v > i128::MIN,
    ensures
        m == magnitude(v as int),
{
    if v < 0 {
        -v
    } else {
        v
    }
}

/// The product of an axis factor and a distance, both far from the ends of
/// `i128`.
fn scaled(axis: i128, distance: i128) -> (product: i128)
    requires
        0 <= axis <= 0x1_0000_0000,
        -0x1_0000_0000_0000_0000 <= distance <= 0x1_0000_0000_0000_0000,
    ensures
        product == axis * distance,
        -0x1_0000_0000_0000_0000_0000_0000 <= product <= 0x1_0000_0000_0000_0000_0000_0000,
{
    assert(-0x1_0000_0000_0000_0000_0000_0000 <= axis * distance
        <= 0x1_0000_0000_0000_0000_0000_0000) by (nonlinear_arith)
        requires
            0 <= axis <= 0x1_0000_0000,
            -0x1_0000_0000_0000_0000 <= distance <= 0x1_0000_0000_0000_0000,
    ;
    axis * distance
}

/// Up a block: look at the middle of the target block, walk, and jump once
/// lined up with the step.
pub fn execute_ascend_move(ctx: ExecuteCtx, events: &mut MoveEvents)
    ensures
        final(events).look_at@ == old(events).look_at@.push(
            LookAtEvent { entity: ctx.entity, position: center_of(ctx.target@) },
        ),
        final(events).walk@ == old(events).walk@.push(
            StartWalkEvent { entity: ctx.entity, direction: WalkDirection::Forward },
        ),
        final(events).sprint@ == old(events).sprint@,
        final(events).jump@ == if ascend_jumps(ctx) {
            old(events).jump@.push(JumpEvent { entity: ctx.entity })
        } else {
            old(events).jump@
        },
{
    let target_center = ctx.target.center();
    events.look_at.push(LookAtEvent { entity: ctx.entity, position: target_center });
    events.walk.push(StartWalkEvent { entity: ctx.entity, direction: WalkDirection::Forward });

    // a jump with speed to the side would carry the player off the block
    let x_axis: i128 = magnitude_of(ctx.start.x as i128 - ctx.target.x as i128);
    let z_axis: i128 = magnitude_of(ctx.start.z as i128 - ctx.target.z as i128);
    let ahead_x: i128 = target_center.x as i128 - ctx.position.x as i128;
    let ahead_z: i128 = target_center.z as i128 - ctx.position.z as i128;

    let flat_distance_to_next: i128 = scaled(x_axis, ahead_x) + scaled(z_axis, ahead_z);
    let side_distance: i128 = scaled(z_axis, magnitude_of(ahead_x)) + scaled(
        x_axis,
        magnitude_of(ahead_z),
    );
    let lateral_motion: i128 = scaled(x_axis, ctx.physics_delta.z as i128) + scaled(
        z_axis,
        ctx.physics_delta.x as i128,
    );
    if magnitude_of(lateral_motion) > 100_000 {
        return ;
    }
    if flat_distance_to_next > 1_200_000 || side_distance > 200_000 {
        return ;
    }
    events.jump.push(JumpEvent { entity: ctx.entity });
}

/// A step up is done when the player is inside the target block or the
/// block below it.
#[must_use]
pub fn ascend_is_reached(ctx: IsReachedCtx) -> (reached: bool)
    ensures
        reached == (ctx.position.block() == ctx.target@ || ctx.position.block()
            == ctx.target@.down(1)),
{
    block_coordinate(ctx.position.x) == ctx.target.x as i64 && block_coordinate(ctx.position.z)
        == ctx.target.z as i64 && (block_coordinate(ctx.position.y) == ctx.target.y as i64
        || block_coordinate(ctx.position.y) == ctx.target.y as i64 - 1)
}

/// The square of the distance between `a` and `b`, seen from above.
pub open spec fn horizontal_distance_sqr(a: Vec3, b: Vec3) -> int {
    (a.x - b.x) * (a.x - b.x) + (a.z - b.z) * (a.z - b.z)
}

/// The point one step past `target` on the line from `start`, at the height
/// of `target`.
pub open spec fn dest_ahead(start: Point, target: Point) -> Point {
    Point {
        x: start.x + (target.x - start.x) * 2,
        y: target.y,
        z: start.z + (target.z - start.z) * 2,
    }
}

/// The square of the distance between `a` and `b`, seen from above, where
/// neither axis is off by more than `limit`; `None` stands for a distance
/// above `limit`.
fn horizontal_distance_sqr_within(a: Vec3, b: Vec3, limit: i128) -> (sqr: Option<i128>)
    requires
        0 <= limit <= 2_000_000,
    ensures
        match sqr {
            Some(d) => d == horizontal_distance_sqr(a, b),
            None => horizontal_distance_sqr(a, b) > limit * limit,
        },
{
    let dx: i128 = magnitude_of(a.x as i128 - b.x as i128);
    let dz: i128 = magnitude_of(a.z as i128 - b.z as i128);
    if dx > limit || dz > limit {
        proof {
            let x = a.x - b.x;
            let z = a.z - b.z;
            assert(x * x >= 0 && z * z >= 0) by (nonlinear_arith);
            if dx > limit {
                assert(x * x > limit * limit) by (nonlinear_arith)
                    requires
                        magnitude(x) > limit,
                        limit >= 0,
                ;
            } else {
                assert(z * z > limit * limit) by (nonlinear_arith)
                    requires
                        magnitude(z) > limit,
                        limit >= 0,
                ;
            }
        }
        return None;
    }
    proof {
        let x = a.x - b.x;
        let z = a.z - b.z;
        assert(dx * dx == x * x && 0 <= dx * dx <= 4_000_000_000_000) by (nonlinear_arith)
            requires
                dx == magnitude(x),
                dx <= 2_000_000,
        ;
        assert(dz * dz == z * z && 0 <= dz * dz <= 4_000_000_000_000) by (nonlinear_arith)
            requires
                dz == magnitude(z),
                dz <= 2_000_000,
        ;
    }
    Some(dx * dx + dz * dz)
}

/// Where the player looks during a fall, if anywhere. Until the player is in
/// the target block and within a quarter block of its middle: past the
/// target, while less than a block and a quarter from the middle of the
/// start or where the fall is one block deep; else at the middle of the
/// target.
pub open spec fn descend_aim(ctx: ExecuteCtx) -> Option<Vec3> {
    let center = center_of(ctx.target@);
    if ctx.position.block() != ctx.target@ || horizontal_distance_sqr(center, ctx.position)
        > 250_000 * 250_000 {
        if horizontal_distance_sqr(center_of(ctx.start@), ctx.position) < 1_250_000 * 1_250_000
            || ctx.start.y - ctx.target.y == 1 {
            Some(center_of(dest_ahead(ctx.start@, ctx.target@)))
        } else {
            Some(center)
        }
    } else {
        None
    }
}

/// Down a fall: sprint towards the aim of [`descend_aim`]; nothing is sent
/// once the player has arrived.
pub fn execute_descend_move(ctx: ExecuteCtx, events: &mut MoveEvents)
    ensures
        match descend_aim(ctx) {
            Some(aim) => look_and_sprint(*old(events), ctx, aim, *final(events)),
            None => *final(events) == *old(events),
        },
{
    let center = ctx.target.center();
    let far_from_target: bool = match horizontal_distance_sqr_within(center, ctx.position, 250_000) {
        Some(d) => d > 250_000 * 250_000,
        None => true,
    };
    let near_start: bool = match horizontal_distance_sqr_within(
        ctx.start.center(),
        ctx.position,
        1_250_000,
    ) {
        Some(d) => d < 1_250_000 * 1_250_000,
        None => false,
    };
    let dest_ahead = Vec3 {
        x: (ctx.start.x as i64 + (ctx.target.x as i64 - ctx.start.x as i64) * 2) * 1_000_000
            + 500_000,
        y: ctx.target.y as i64 * 1_000_000 + 500_000,
        z: (ctx.start.z as i64 + (ctx.target.z as i64 - ctx.start.z as i64) * 2) * 1_000_000
            + 500_000,
    };

    if !ctx.position.is_in_block(&ctx.target) || far_from_target {
        // a fall of one block is short enough to overshoot
        if near_start || ctx.start.y as i64 - ctx.target.y as i64 == 1 {
            // looking past the target keeps the player from spinning in the air
            events.look_at.push(LookAtEvent { entity: ctx.entity, position: dest_ahead });
            events.sprint.push(
                StartSprintEvent { entity: ctx.entity, direction: SprintDirection::Forward },
            );
        } else {
            events.look_at.push(LookAtEvent { entity: ctx.entity, position: center });
            events.sprint.push(
                StartSprintEvent { entity: ctx.entity, direction: SprintDirection::Forward },
            );
        }
    }
}

/// A fall is done when the player is inside the target block, or inside the
/// block one step past it, and less than half a block above the floor of
/// the target.
#[must_use]
pub fn descend_is_reached(ctx: IsReachedCtx) -> (reached: bool)
    ensures
        reached == ((ctx.position.block() == ctx.target@ || ctx.position.block() == dest_ahead(
            ctx.start@,
            ctx.target@,
        )) && ctx.position.y - ctx.target.y * 1_000_000 < 500_000),
{
    let ahead_x: i64 = ctx.start.x as i64 + (ctx.target.x as i64 - ctx.start.x as i64) * 2;
    let ahead_z: i64 = ctx.start.z as i64 + (ctx.target.z as i64 - ctx.start.z as i64) * 2;
    let bx: i64 = block_coordinate(ctx.position.x);
    let by: i64 = block_coordinate(ctx.position.y);
    let bz: i64 = block_coordinate(ctx.position.z);
    let in_target: bool = bx == ctx.target.x as i64 && by == ctx.target.y as i64 && bz
        == ctx.target.z as i64;
    let in_dest_ahead: bool = bx == ahead_x && by == ctx.target.y as i64 && bz == ahead_z;
    (in_target || in_dest_ahead) && (ctx.position.y as i128 - ctx.target.y as i128 * 1_000_000)
        < 500_000
}

/// Diagonally: look at the middle of the target block and sprint.
pub fn execute_diagonal_move(ctx: ExecuteCtx, events: &mut MoveEvents)
    ensures
        look_and_sprint(*old(events), ctx, center_of(ctx.target@), *final(events)),
{
    let center = ctx.target.center();
    events.look_at.push(LookAtEvent { entity: ctx.entity, position: center });
    events.sprint.push(StartSprintEvent { entity: ctx.entity, direction: SprintDirection::Forward });
}

/// The events of a tick in which a step of `kind` was taken further, after
/// those in `before`.
pub open spec fn move_executed(
    kind: MoveKind,
    ctx: ExecuteCtx,
    before: MoveEvents,
    after: MoveEvents,
) -> bool {
    match kind {
        MoveKind::Forward | MoveKind::Diagonal => look_and_sprint(
            before,
            ctx,
            center_of(ctx.target@),
            after,
        ),
        MoveKind::Ascend => {
            &&& after.look_at@ == before.look_at@.push(
                LookAtEvent { entity: ctx.entity, position: center_of(ctx.target@) },
            )
            &&& after.walk@ == before.walk@.push(
                StartWalkEvent { entity: ctx.entity, direction: WalkDirection::Forward },
            )
            &&& after.sprint@ == before.sprint@
            &&& after.jump@ == if ascend_jumps(ctx) {
                before.jump@.push(JumpEvent { entity: ctx.entity })
            } else {
                before.jump@
            }
        },
        MoveKind::Descend => match descend_aim(ctx) {
            Some(aim) => look_and_sprint(before, ctx, aim, after),
            None => after == before,
        },
    }
}

/// Sends the events of this tick for a step of `kind`.
pub fn execute_move(kind: MoveKind, ctx: ExecuteCtx, events: &mut MoveEvents)
    ensures
        move_executed(kind, ctx, *old(events), *final(events)),
{
    match kind {
        MoveKind::Forward => execute_forward_move(ctx, events),
        MoveKind::Ascend => execute_ascend_move(ctx, events),
        MoveKind::Descend => execute_descend_move(ctx, events),
        MoveKind::Diagonal => execute_diagonal_move(ctx, events),
    }
}

/// Whether a step of `kind` is done.
pub open spec fn move_reached(kind: MoveKind, ctx: IsReachedCtx) -> bool {
    match kind {
        MoveKind::Forward | MoveKind::Diagonal => ctx.position.block() == ctx.target@,
        MoveKind::Ascend => ctx.position.block() == ctx.target@ || ctx.position.block()
            == ctx.target@.down(1),
        MoveKind::Descend => (ctx.position.block() == ctx.target@ || ctx.position.block()
            == dest_ahead(ctx.start@, ctx.target@)) && ctx.position.y - ctx.target.y * 1_000_000
            < 500_000,
    }
}

/// Decides whether a step of `kind` is done.
pub fn is_move_reached(kind: MoveKind, ctx: IsReachedCtx) -> (reached: bool)
    ensures
        reached == move_reached(kind, ctx),
{
    match kind {
        MoveKind::Forward => default_is_reached(ctx),
        MoveKind::Ascend => ascend_is_reached(ctx),
        MoveKind::Descend => descend_is_reached(ctx),
        MoveKind::Diagonal => default_is_reached(ctx),
    }
}

} // verus!
