//! The search for the cheapest way to a goal.

use crate::pathfinder::basic::{
    basic_edges, basic_move, block_pos_at, diagonal_edge, diagonal_edges, edges_of, is_step,
    lemma_basic_edges_are_steps, MAX_STEP_COST,
};
use crate::pathfinder::costs::{SPRINT_DIAGONAL_COST, SPRINT_ONE_BLOCK_COST};
use crate::pathfinder::moves::{MoveKind, Movement};
use crate::position::CardinalDirection;
use crate::pathfinder::goals::{lemma_goal_has_no_distance, lemma_heuristic_of_neighbours, Goal};
use crate::pathfinder::moves::Edge;
use crate::position::{BlockPos, Point};
use crate::world::Instance;
use vstd::prelude::*;

verus! {

/// Where the edges `edges` lead, taken one after the other from `start`.
pub open spec fn route_end(start: Point, edges: Seq<Edge>) -> Point {
    if edges.len() == 0 {
        start
    } else {
        edges.last().movement.target@
    }
}

/// Whether `edges` can be walked one after the other from `start`: each is
/// a basic step away from where the one before it led.
pub open spec fn is_route(world: Instance, start: Point, edges: Seq<Edge>) -> bool
    decreases edges.len(),
{
    edges.len() == 0 || (is_route(world, start, edges.drop_last()) && basic_edges(
        world,
        route_end(start, edges.drop_last()),
    ).contains(edges.last()))
}

/// What the edges cost together.
pub open spec fn route_cost(edges: Seq<Edge>) -> nat
    decreases edges.len(),
{
    if edges.len() == 0 {
        0
    } else {
        route_cost(edges.drop_last()) + edges.last().cost as nat
    }
}

/// How a search ended.
#[derive(Clone, Copy, Debug, PartialEq, Eq, Structural, Hash)]
pub enum Outcome {
    /// The path leads to a block that meets the goal, and no path to such a
    /// block is cheaper.
    Found,
    /// No block that meets the goal can be reached. The path leads as near
    /// to the goal as any path can.
    Unreachable,
    /// The search looked at as many blocks as it was allowed to, and none of
    /// them met the goal. The path leads to the nearest block that it saw.
    Exhausted,
}

/// The answer of a search.
#[derive(Clone, Debug, PartialEq, Eq)]
pub struct Path {
    pub edges: Vec<Edge>,
    pub outcome: Outcome,
}

impl Path {
    /// Whether the path stops short of the goal.
    pub fn is_partial(&self) -> (partial: bool)
        ensures
            partial == (self.outcome != Outcome::Found),
    {
        !matches!(self.outcome, Outcome::Found)
    }

    /// What walking the path costs, in millionths of a tick. `None` stands
    /// for a cost beyond what 64 bits hold.
    pub fn cost(&self) -> (total: Option<u64>)
        ensures
            match total {
                Some(cost) => cost == route_cost(self.edges@),
                None => route_cost(self.edges@) > u64::MAX,
            },
    {
        let mut total: u64 = 0;
        let mut i: usize = 0;
        while i < self.edges.len()
            invariant
                i <= self.edges@.len(),
                total == route_cost(self.edges@.take(i as int)),
            decreases self.edges@.len() - i,
        {
            proof {
                assert(self.edges@.take(i + 1).drop_last() == self.edges@.take(i as int));
                lemma_route_cost_grows(self.edges@, i + 1);
            }
            let cost: u64 = self.edges[i].cost;
            if cost > u64::MAX - total {
                return None;
            }
            total = total + cost;
            i += 1;
        }
        assert(self.edges@.take(i as int) == self.edges@);
        Some(total)
    }
}

/// A longer part of a route costs no less than a shorter one.
proof fn lemma_route_cost_grows(edges: Seq<Edge>, n: int)
    requires
        0 <= n <= edges.len(),
    ensures
        route_cost(edges.take(n)) <= route_cost(edges),
    decreases edges.len() - n,
{
    if n < edges.len() {
        assert(edges.take(n + 1).drop_last() == edges.take(n));
        lemma_route_cost_grows(edges, n + 1);
    } else {
        assert(edges.take(n) == edges);
    }
}

/// What the search saw when it gave up: `count` routes from `start` to
/// blocks that differ from each other, none of which meets the goal and
/// none of which is nearer to the goal than `nearest`.
pub open spec fn explored(
    world: Instance,
    start: Point,
    goal: Goal,
    visited: Seq<Seq<Edge>>,
    count: nat,
    nearest: Point,
) -> bool {
    &&& visited.len() == count
    &&& forall|k: int|
        0 <= k < visited.len() ==> is_route(world, start, #[trigger] visited[k])
            && !goal.reached_at(route_end(start, visited[k])) && goal.heuristic_at(nearest)
            <= goal.heuristic_at(route_end(start, visited[k]))
    &&& forall|k: int, l: int|
        0 <= k < l < visited.len() ==> route_end(start, #[trigger] visited[k]) != route_end(
            start,
            #[trigger] visited[l],
        )
}

/// What a search owes. The path can be walked. If it is found, it ends at a
/// block that meets the goal and no route to such a block costs less. If
/// the goal is unreachable, no route from the start leads to it, and none
/// ends nearer to it than the path. If the search is exhausted, it looked at
/// as many blocks as it was allowed to expand.
pub open spec fn is_answer(
    world: Instance,
    start: Point,
    goal: Goal,
    max_expansions: nat,
    edges: Seq<Edge>,
    outcome: Outcome,
) -> bool {
    &&& is_route(world, start, edges)
    &&& match outcome {
        Outcome::Found => {
            &&& goal.reached_at(route_end(start, edges))
            &&& forall|other: Seq<Edge>| #[trigger]
                is_route(world, start, other) && goal.reached_at(route_end(start, other))
                    ==> route_cost(edges) <= route_cost(other)
        },
        Outcome::Unreachable => forall|other: Seq<Edge>| #[trigger]
            is_route(world, start, other) ==> !goal.reached_at(route_end(start, other))
                && goal.heuristic_at(route_end(start, edges)) <= goal.heuristic_at(
                route_end(start, other),
            ),
        Outcome::Exhausted => exists|visited: Seq<Seq<Edge>>| #[trigger]
            explored(world, start, goal, visited, max_expansions, route_end(start, edges)),
    }
}

/// Whether the routes lead from `start` to blocks that differ from each
/// other and do not meet the goal.
pub open spec fn leads_apart(
    world: Instance,
    start: Point,
    goal: Goal,
    visited: Seq<Seq<Edge>>,
) -> bool {
    &&& forall|k: int|
        0 <= k < visited.len() ==> is_route(world, start, #[trigger] visited[k])
            && !goal.reached_at(route_end(start, visited[k]))
    &&& forall|k: int, l: int|
        0 <= k < l < visited.len() ==> route_end(start, #[trigger] visited[k]) != route_end(
            start,
            #[trigger] visited[l],
        )
}

/// Whether a search that may expand `limit` blocks can look at every block
/// in reach: fewer than `limit` blocks that do not meet the goal can be
/// reached from `start`.
pub open spec fn limit_suffices(world: Instance, start: Point, goal: Goal, limit: nat) -> bool {
    forall|visited: Seq<Seq<Edge>>| #[trigger]
        leads_apart(world, start, goal, visited) ==> visited.len() < limit
}

/// A finite world limits the search: routes from `start` to blocks that
/// differ from each other are at most as many as the world has blocks, and
/// one more for the start.
pub proof fn lemma_world_limits_search(
    world: Instance,
    start: Point,
    goal: Goal,
    visited: Seq<Seq<Edge>>,
)
    requires
        world.wf(),
        leads_apart(world, start, goal, visited),
    ensures
        visited.len() <= world.blocks() + 1,
{
    let ends = Seq::new(visited.len(), |k: int| route_end(start, visited[k]));
    assert(ends.no_duplicates()) by {
        assert forall|k: int, l: int| 0 <= k < ends.len() && 0 <= l < ends.len() && k != l implies ends[k]
            != ends[l] by {
            if k < l {
                assert(route_end(start, visited[k]) != route_end(start, visited[l]));
            } else {
                assert(route_end(start, visited[l]) != route_end(start, visited[k]));
            }
        }
    }
    ends.unique_seq_to_set();
    vstd::seq_lib::seq_to_set_is_finite(ends);
    let all = ends.to_set();
    let known = all.filter(|p: Point| world.kind_at(p).is_some());
    let rest = all.filter(|p: Point| world.kind_at(p).is_none());
    vstd::set_lib::lemma_len_subset(known, all);
    vstd::set_lib::lemma_len_subset(rest, all);
    crate::world::lemma_known_points_are_few(world, known);
    // only the start can be a block that the world does not know: every
    // step leads to a block that can be stood on
    assert(rest.subset_of(set![start])) by {
        assert forall|p: Point| rest.contains(p) implies p == start by {
            let k = choose|k: int| 0 <= k < ends.len() && ends[k] == p;
            let route = visited[k];
            assert(is_route(world, start, route));
            if route.len() > 0 {
                lemma_basic_edges_are_steps(
                    world,
                    route_end(start, route.drop_last()),
                    route.last(),
                );
            }
        }
    }
    assert(set![start].len() == 1 && set![start].finite()) by {
        assert(set![start] =~= Set::<Point>::empty().insert(start));
    }
    vstd::set_lib::lemma_len_subset(rest, set![start]);
    assert(all =~= known.union(rest));
    vstd::set_lib::lemma_len_union(known, rest);
}

/// A limit above the number of blocks of the world, and one more, lets the
/// search look at every block in reach.
pub proof fn lemma_limit_suffices(world: Instance, start: Point, goal: Goal, limit: nat)
    requires
        world.wf(),
        world.blocks() + 1 < limit,
    ensures
        limit_suffices(world, start, goal, limit),
{
    assert forall|visited: Seq<Seq<Edge>>| #[trigger]
        leads_apart(world, start, goal, visited) implies visited.len() < limit by {
        lemma_world_limits_search(world, start, goal, visited);
    }
}

/// The cheapest path is owed where it exists: if a block that meets the
/// goal can be reached, and the search may expand more blocks than can be
/// reached at all, then the search finds a path; the path leads to a block
/// that meets the goal, and costs no more than any way there.
pub proof fn lemma_found_is_owed(
    world: Instance,
    start: Point,
    goal: Goal,
    limit: nat,
    edges: Seq<Edge>,
    outcome: Outcome,
    way: Seq<Edge>,
)
    requires
        is_answer(world, start, goal, limit, edges, outcome),
        is_route(world, start, way),
        goal.reached_at(route_end(start, way)),
        limit_suffices(world, start, goal, limit),
    ensures
        outcome == Outcome::Found,
        is_route(world, start, edges),
        goal.reached_at(route_end(start, edges)),
        route_cost(edges) <= route_cost(way),
{
    if outcome == Outcome::Exhausted {
        let visited = choose|visited: Seq<Seq<Edge>>| #[trigger]
            explored(world, start, goal, visited, limit, route_end(start, edges));
        assert(leads_apart(world, start, goal, visited));
    }
}

/// The search is optimal: in a world with fewer blocks than the search may
/// expand, less one, a goal that can be reached is reached by the path that
/// the search gives, and no way to a block that meets the goal costs less
/// than the path.
pub proof fn lemma_search_is_optimal(
    world: Instance,
    start: Point,
    goal: Goal,
    limit: nat,
    edges: Seq<Edge>,
    outcome: Outcome,
    way: Seq<Edge>,
)
    requires
        world.wf(),
        world.blocks() + 1 < limit,
        is_answer(world, start, goal, limit, edges, outcome),
        is_route(world, start, way),
        goal.reached_at(route_end(start, way)),
    ensures
        outcome == Outcome::Found,
        is_route(world, start, edges),
        goal.reached_at(route_end(start, edges)),
        route_cost(edges) <= route_cost(way),
{
    lemma_limit_suffices(world, start, goal, limit);
    lemma_found_is_owed(world, start, goal, limit, edges, outcome, way);
}

/// How far `to` lies from `from` towards the south-east: the blocks along x
/// and the blocks along z, added.
pub open spec fn progress(from: Point, to: Point) -> int {
    (to.x - from.x) + (to.z - from.z)
}

/// The diagonal step to `target`.
pub open spec fn diagonal_step_to(target: Point) -> Edge {
    Edge {
        movement: Movement { target: block_pos_at(target), kind: MoveKind::Diagonal },
        cost: SPRINT_DIAGONAL_COST,
    }
}

/// The run of `n` diagonal steps from `start` towards the south-east, each
/// one block further along x and along z.
pub open spec fn diagonal_run(start: Point, n: nat) -> Seq<Edge> {
    Seq::new(n, |k: int| diagonal_step_to(start.shift(k + 1, 0, k + 1)))
}

/// No route is cheaper than the diagonal: a route costs at least half the
/// price of a diagonal step for every block that its end lies further along
/// x or along z than its start.
pub proof fn lemma_route_costs_its_progress(world: Instance, start: Point, route: Seq<Edge>)
    requires
        world.wf(),
        is_route(world, start, route),
    ensures
        2 * route_cost(route) >= SPRINT_DIAGONAL_COST * progress(
            start,
            route_end(start, route),
        ),
    decreases route.len(),
{
    if route.len() > 0 {
        let before = route.drop_last();
        lemma_route_costs_its_progress(world, start, before);
        lemma_basic_edges_are_steps(world, route_end(start, before), route.last());
    }
}

/// A route that costs no more than the diagonal is the diagonal: if a route
/// costs at most half the price of a diagonal step for every block of its
/// progress, it is a run of diagonal steps towards the south-east.
pub proof fn lemma_cheapest_route_is_diagonal(world: Instance, start: Point, route: Seq<Edge>)
    requires
        world.wf(),
        start.representable(),
        is_route(world, start, route),
        2 * route_cost(route) <= SPRINT_DIAGONAL_COST * progress(start, route_end(start, route)),
    ensures
        route == diagonal_run(start, route.len()),
        route_end(start, route) == start.shift(route.len() as int, 0, route.len() as int),
    decreases route.len(),
{
    if route.len() > 0 {
        let before = route.drop_last();
        let last = route.last();
        let from = route_end(start, before);
        lemma_route_costs_its_progress(world, start, before);
        lemma_basic_edges_are_steps(world, from, last);
        // neither the steps before the last nor the last can have cost more
        // than their share
        assert(2 * route_cost(before) == SPRINT_DIAGONAL_COST * progress(start, from));
        lemma_cheapest_route_is_diagonal(world, start, before);
        let to = last.movement.target@;
        assert(last.movement.kind == MoveKind::Diagonal);
        assert(to == from.shift(1, 0, 1));
        crate::world::lemma_known_is_representable(world, to);
        assert(last == diagonal_step_to(to));
        let run = diagonal_run(start, route.len());
        assert forall|k: int| 0 <= k < route.len() implies route[k] == run[k] by {
            if k < before.len() {
                assert(route[k] == before[k]);
                assert(before[k] == diagonal_run(start, before.len())[k]);
            } else {
                assert(route[k] == last);
                assert(to == start.shift(k + 1, 0, k + 1));
            }
        }
        assert(route =~= run);
    } else {
        assert(route =~= diagonal_run(start, 0));
    }
}

/// What a run of diagonal steps costs, and where it ends.
pub proof fn lemma_diagonal_run(start: Point, n: nat)
    requires
        start.shift(n as int, 0, n as int).representable(),
        start.representable(),
    ensures
        route_cost(diagonal_run(start, n)) == n * SPRINT_DIAGONAL_COST,
        route_end(start, diagonal_run(start, n)) == start.shift(n as int, 0, n as int),
    decreases n,
{
    if n > 0 {
        lemma_diagonal_run(start, (n - 1) as nat);
        assert(diagonal_run(start, n).drop_last() =~= diagonal_run(start, (n - 1) as nat));
        assert(n * SPRINT_DIAGONAL_COST == (n - 1) * SPRINT_DIAGONAL_COST + SPRINT_DIAGONAL_COST)
            by (nonlinear_arith);
    }
}

/// Whether the blocks from `start` to `side` blocks further along x and
/// along z, at the height of `start`, can all be stood on.
pub open spec fn is_open_floor(world: Instance, start: Point, side: nat) -> bool {
    forall|i: int, j: int|
        0 <= i <= side && 0 <= j <= side ==> world.standable_at(#[trigger] start.shift(i, 0, j))
}

/// Across an open floor the diagonal can be walked.
pub proof fn lemma_open_floor_has_its_diagonal(world: Instance, start: Point, side: nat, n: nat)
    requires
        world.wf(),
        is_open_floor(world, start, side),
        n <= side,
    ensures
        is_route(world, start, diagonal_run(start, n)),
    decreases n,
{
    if n > 0 {
        let before = diagonal_run(start, (n - 1) as nat);
        lemma_open_floor_has_its_diagonal(world, start, side, (n - 1) as nat);
        assert(diagonal_run(start, n).drop_last() =~= before);
        let from = start.shift(n - 1, 0, n - 1);
        let to = start.shift(n as int, 0, n as int);
        assert(world.standable_at(start.shift(0, 0, 0)));
        crate::world::lemma_known_is_representable(world, start.shift(0, 0, 0));
        assert(world.standable_at(start.shift(n - 1, 0, n - 1)));
        crate::world::lemma_known_is_representable(world, from);
        if n > 1 {
            lemma_diagonal_run(start, (n - 1) as nat);
        }
        assert(route_end(start, before) == from);
        // the step between east and south: the way round the east is free
        let family = |dir: CardinalDirection| diagonal_edge(world, from, dir);
        assert(world.standable_at(start.shift(n as int, 0, n - 1)));
        assert(world.standable_at(start.shift(n as int, 0, n as int)));
        assert(from.shift(1, 0, 0) == start.shift(n as int, 0, n - 1));
        assert(from.shift(1, 0, 1) == to);
        assert(family(CardinalDirection::East) == Some(diagonal_step_to(to)));
        assert(CardinalDirection::all()[3] == CardinalDirection::East);
        let edges = edges_of(family, 4);
        assert(edges.last() == diagonal_step_to(to)) by {
            reveal_with_fuel(edges_of, 2);
        }
        assert(edges.contains(diagonal_step_to(to)));
        assert(diagonal_edges(world, from) == edges);
        let all = basic_edges(world, from);
        assert(all.last() == diagonal_step_to(to));
        assert(all.contains(diagonal_step_to(to)));
    }
}

/// Across an open floor the search takes the diagonal: where the blocks
/// from the start to `n` blocks further along x and along z can all be
/// stood on, and the search may expand more blocks than the world has, the
/// path to the far corner is found, and it is the run of `n` diagonal
/// steps, for `n` times the price of a diagonal step.
pub proof fn lemma_search_takes_the_diagonal(
    world: Instance,
    start: BlockPos,
    n: nat,
    limit: nat,
    edges: Seq<Edge>,
    outcome: Outcome,
)
    requires
        world.wf(),
        world.blocks() + 1 < limit,
        is_open_floor(world, start@, n),
        is_answer(
            world,
            start@,
            Goal { target: block_pos_at(start@.shift(n as int, 0, n as int)), radius: 0 },
            limit,
            edges,
            outcome,
        ),
    ensures
        outcome == Outcome::Found,
        edges == diagonal_run(start@, n),
        route_cost(edges) == n * SPRINT_DIAGONAL_COST,
{
    let corner = start@.shift(n as int, 0, n as int);
    let goal = Goal { target: block_pos_at(corner), radius: 0 };
    let way = diagonal_run(start@, n);
    assert(world.standable_at(start@.shift(n as int, 0, n as int)));
    crate::world::lemma_known_is_representable(world, corner);
    assert(goal.target@ == corner);
    lemma_open_floor_has_its_diagonal(world, start@, n, n);
    lemma_diagonal_run(start@, n);
    assert(goal.reached_at(corner)) by {
        assert(crate::pathfinder::goals::distance_sqr(corner, corner) == 0) by (nonlinear_arith);
        assert(goal.radius * goal.radius == 0) by (nonlinear_arith)
            requires
                goal.radius == 0,
        ;
    }
    lemma_search_is_optimal(world, start@, goal, limit, edges, outcome, way);
    // the path ends at the corner: nothing else meets the goal
    let end = route_end(start@, edges);
    assert(end == corner) by {
        let dx = end.x - corner.x;
        let dy = end.y - corner.y;
        let dz = end.z - corner.z;
        assert(goal.radius * goal.radius == 0) by (nonlinear_arith)
            requires
                goal.radius == 0,
        ;
        assert(dx * dx + dy * dy + dz * dz <= 0 ==> dx == 0 && dy == 0 && dz == 0)
            by (nonlinear_arith);
        assert(dx * dx + dy * dy + dz * dz >= 0) by (nonlinear_arith);
    }
    assert(SPRINT_DIAGONAL_COST * progress(start@, end) == 2 * (n * SPRINT_DIAGONAL_COST))
        by (nonlinear_arith)
        requires
            progress(start@, end) == 2 * n,
    ;
    lemma_cheapest_route_is_diagonal(world, start@, edges);
    assert(edges.len() == n);
}

/// The estimate never asks too much: along every route, the estimate of the
/// start is at most what the route costs and the estimate of its end. A
/// route to a block that meets the goal costs at least the estimate of its
/// start.
pub proof fn lemma_heuristic_is_admissible(
    world: Instance,
    goal: Goal,
    start: Point,
    route: Seq<Edge>,
)
    requires
        world.wf(),
        is_route(world, start, route),
    ensures
        goal.heuristic_at(start) <= route_cost(route) + goal.heuristic_at(route_end(start, route)),
        goal.reached_at(route_end(start, route)) ==> goal.heuristic_at(start) <= route_cost(route),
    decreases route.len(),
{
    if route.len() > 0 {
        let before = route.drop_last();
        lemma_heuristic_is_admissible(world, goal, start, before);
        lemma_basic_edges_are_steps(world, route_end(start, before), route.last());
        lemma_heuristic_of_neighbours(goal, route_end(start, before), route_end(start, route));
    }
    if goal.reached_at(route_end(start, route)) {
        lemma_goal_has_no_distance(goal, route_end(start, route));
    }
}

/// Searching twice is searching once: two searches from the same start for
/// the same goal through the same world, with the same limit, end with the
/// same path and the same outcome.
pub proof fn lemma_search_is_repeatable(
    world: Instance,
    start: BlockPos,
    goal: Goal,
    max_expansions: nat,
    first: Seq<Edge>,
    first_outcome: Outcome,
    second: Seq<Edge>,
    second_outcome: Outcome,
)
    requires
        (first, first_outcome) == search_result(world, start, goal, max_expansions),
        (second, second_outcome) == search_result(world, start, goal, max_expansions),
    ensures
        first == second,
        first_outcome == second_outcome,
{
}

/// Two searches for the same goal through the same world agree where both
/// came to an end: paths that were both found cost the same, whatever the
/// searches were allowed to expand, and a goal that one search found is not
/// unreachable to the other.
pub proof fn lemma_answers_agree(
    world: Instance,
    start: Point,
    goal: Goal,
    first_limit: nat,
    first: Seq<Edge>,
    first_outcome: Outcome,
    second_limit: nat,
    second: Seq<Edge>,
    second_outcome: Outcome,
)
    requires
        is_answer(world, start, goal, first_limit, first, first_outcome),
        is_answer(world, start, goal, second_limit, second, second_outcome),
        first_outcome == Outcome::Found,
    ensures
        second_outcome != Outcome::Unreachable,
        second_outcome == Outcome::Found ==> route_cost(first) == route_cost(second),
{
    assert(is_route(world, start, first));
    assert(is_route(world, start, second));
}

/// What the search knows of one block.
#[derive(Clone, Copy)]
struct Node {
    pos: BlockPos,
    /// The cost of the cheapest route to the block that was seen so far.
    g: u64,
    /// The least that the rest of the way costs.
    h: u64,
    /// The node that the route comes from, and the edge that it comes by.
    parent: usize,
    via: Edge,
    /// Whether the edges that lead away from the block have been looked at.
    closed: bool,
}

/// What the search holds between two steps: the nodes, the route to each,
/// and the place of the node nearest to the goal.
struct Search {
    arena: Seq<Node>,
    routes: Seq<Seq<Edge>>,
    nearest: int,
}

/// Whether `node` promises more than `lead`: a lesser sum of cost and
/// estimate, or the same sum and the lesser estimate.
spec fn promises_more(node: Node, lead: Node) -> bool {
    node.g + node.h < lead.g + lead.h || (node.g + node.h == lead.g + lead.h && node.h < lead.h)
}

/// The open node among the first `n` that promises most, the first of
/// equals.
spec fn selected(arena: Seq<Node>, n: nat) -> Option<int>
    decreases n,
{
    if n == 0 {
        None
    } else {
        let before = selected(arena, (n - 1) as nat);
        if arena[n - 1].closed {
            before
        } else {
            match before {
                Some(u) => if promises_more(arena[n - 1], arena[u]) {
                    Some(n - 1)
                } else {
                    Some(u)
                },
                None => Some(n - 1),
            }
        }
    }
}

/// The place of the first node among the first `n` that stands for `pos`.
spec fn found_at(arena: Seq<Node>, pos: BlockPos, n: nat) -> Option<int>
    decreases n,
{
    if n == 0 {
        None
    } else {
        match found_at(arena, pos, (n - 1) as nat) {
            Some(i) => Some(i),
            None => if arena[n - 1].pos == pos {
                Some(n - 1)
            } else {
                None
            },
        }
    }
}

/// The search after the edge `e` that leads away from the node at place `u`
/// was looked at.
spec fn relaxed(s: Search, goal: Goal, u: int, e: Edge) -> Search {
    let reach = (s.arena[u].g + e.cost) as u64;
    let way = s.routes[u].push(e);
    match found_at(s.arena, e.movement.target, s.arena.len()) {
        Some(j) => if !s.arena[j].closed && reach < s.arena[j].g {
            Search {
                arena: s.arena.update(
                    j,
                    Node {
                        pos: s.arena[j].pos,
                        g: reach,
                        h: s.arena[j].h,
                        parent: u as usize,
                        via: e,
                        closed: false,
                    },
                ),
                routes: s.routes.update(j, way),
                nearest: s.nearest,
            }
        } else {
            s
        },
        None => {
            let h = goal.heuristic_at(e.movement.target@) as u64;
            Search {
                arena: s.arena.push(
                    Node {
                        pos: e.movement.target,
                        g: reach,
                        h,
                        parent: u as usize,
                        via: e,
                        closed: false,
                    },
                ),
                routes: s.routes.push(way),
                nearest: if h < s.arena[s.nearest].h {
                    s.arena.len() as int
                } else {
                    s.nearest
                },
            }
        },
    }
}

/// The search after the first `k` of the edges that lead away from the node
/// at place `u` were looked at.
spec fn expanded(s: Search, goal: Goal, u: int, edges: Seq<Edge>, k: nat) -> Search
    decreases k,
{
    if k == 0 {
        s
    } else {
        relaxed(expanded(s, goal, u, edges, (k - 1) as nat), goal, u, edges[k - 1])
    }
}

/// The node at place `u`, closed.
spec fn closed_node(node: Node) -> Node {
    Node {
        pos: node.pos,
        g: node.g,
        h: node.h,
        parent: node.parent,
        via: node.via,
        closed: true,
    }
}

/// What the search comes to from `s` when it may expand `fuel` more nodes.
spec fn searched(world: Instance, goal: Goal, s: Search, fuel: nat) -> (Seq<Edge>, Outcome)
    decreases fuel,
{
    if fuel == 0 {
        (s.routes[s.nearest], Outcome::Exhausted)
    } else {
        match selected(s.arena, s.arena.len()) {
            None => (s.routes[s.nearest], Outcome::Unreachable),
            Some(u) => if goal.reached_at(s.arena[u].pos@) {
                (s.routes[u], Outcome::Found)
            } else {
                let closed = Search { arena: s.arena.update(u, closed_node(s.arena[u])), ..s };
                let edges = basic_edges(world, s.arena[u].pos@);
                searched(
                    world,
                    goal,
                    expanded(closed, goal, u, edges, edges.len()),
                    (fuel - 1) as nat,
                )
            },
        }
    }
}

/// The edge that stands for no step, at the start of every route.
spec fn origin(start: BlockPos) -> Edge {
    Edge {
        movement: crate::pathfinder::moves::Movement {
            target: start,
            kind: crate::pathfinder::moves::MoveKind::Forward,
        },
        cost: 0,
    }
}

/// The path and the outcome of the search from `start` for `goal` through
/// `world`, when at most `max_expansions` blocks may be expanded. The search
/// has no choice: world, start, goal and limit decide what it finds. It
/// expands the block with the least sum of cost and estimate first, among
/// equals the one with the lesser estimate, and among those the one that it
/// saw first; each block is looked at once.
pub closed spec fn search_result(
    world: Instance,
    start: BlockPos,
    goal: Goal,
    max_expansions: nat,
) -> (Seq<Edge>, Outcome) {
    searched(
        world,
        goal,
        Search {
            arena: seq![
                Node {
                    pos: start,
                    g: 0,
                    h: goal.heuristic_at(start@) as u64,
                    parent: 0,
                    via: origin(start),
                    closed: false,
                },
            ],
            routes: seq![Seq::<Edge>::empty()],
            nearest: 0,
        },
        max_expansions,
    )
}

/// No route from `start` to `p` costs less than `g`.
spec fn is_least(world: Instance, start: Point, p: Point, g: int) -> bool {
    forall|r: Seq<Edge>| #[trigger]
        is_route(world, start, r) && route_end(start, r) == p ==> g <= route_cost(r)
}

/// Some node stands for `target`, with a route of at most `bound`.
spec fn has_node_within(arena: Seq<Node>, target: BlockPos, bound: int) -> bool {
    exists|j: int| 0 <= j < arena.len() && (#[trigger] arena[j]).pos == target && arena[j].g <= bound
}

/// What holds of the node at place `i`.
spec fn node_ok(
    world: Instance,
    start: BlockPos,
    goal: Goal,
    arena: Seq<Node>,
    routes: Seq<Seq<Edge>>,
    i: int,
) -> bool {
    let node = arena[i];
    &&& is_route(world, start@, routes[i])
    &&& route_end(start@, routes[i]) == node.pos@
    &&& route_cost(routes[i]) == node.g
    &&& node.g <= MAX_STEP_COST * routes[i].len()
    &&& node.h == goal.heuristic_at(node.pos@)
    &&& i > 0 ==> 0 <= node.parent < arena.len() && arena[node.parent as int].closed && routes[i]
        == routes[node.parent as int].push(node.via)
    &&& node.closed ==> !goal.reached_at(node.pos@) && is_least(
        world,
        start@,
        node.pos@,
        node.g as int,
    )
}

/// Every edge that leads away from the node at place `i` leads to a node
/// whose route is no dearer than the way over `i`.
spec fn closure_ok(world: Instance, arena: Seq<Node>, i: int) -> bool {
    forall|e: Edge| #[trigger]
        basic_edges(world, arena[i].pos@).contains(e) ==> has_node_within(
            arena,
            e.movement.target,
            arena[i].g + e.cost,
        )
}

spec fn base_inv(
    world: Instance,
    start: BlockPos,
    goal: Goal,
    arena: Seq<Node>,
    routes: Seq<Seq<Edge>>,
) -> bool {
    &&& world.wf()
    &&& arena.len() == routes.len()
    &&& arena.len() >= 1
    &&& arena[0].pos == start
    &&& routes[0].len() == 0
    &&& forall|i: int| 0 <= i < arena.len() ==> #[trigger] node_ok(world, start, goal, arena, routes, i)
    &&& forall|i: int, j: int|
        0 <= i < j < arena.len() ==> (#[trigger] arena[i]).pos != (#[trigger] arena[j]).pos
}

/// What holds between two expansions.
spec fn full_inv(
    world: Instance,
    start: BlockPos,
    goal: Goal,
    arena: Seq<Node>,
    routes: Seq<Seq<Edge>>,
) -> bool {
    &&& base_inv(world, start, goal, arena, routes)
    &&& forall|i: int|
        0 <= i < arena.len() && arena[i].closed ==> #[trigger] closure_ok(world, arena, i)
}

/// What holds while the node at place `u` is expanded and the edges `done`
/// have been looked at.
spec fn expanding_inv(
    world: Instance,
    start: BlockPos,
    goal: Goal,
    arena: Seq<Node>,
    routes: Seq<Seq<Edge>>,
    u: int,
    done: Seq<Edge>,
) -> bool {
    &&& base_inv(world, start, goal, arena, routes)
    &&& 0 <= u < arena.len()
    &&& arena[u].closed
    &&& forall|i: int|
        0 <= i < arena.len() && arena[i].closed && i != u ==> #[trigger] closure_ok(world, arena, i)
    &&& forall|k: int|
        0 <= k < done.len() ==> has_node_within(
            arena,
            (#[trigger] done[k]).movement.target,
            arena[u].g + done[k].cost,
        )
}

/// A route with one more edge is a route, and costs the edge more.
proof fn lemma_route_push(world: Instance, start: Point, r: Seq<Edge>, e: Edge)
    requires
        is_route(world, start, r),
        basic_edges(world, route_end(start, r)).contains(e),
    ensures
        is_route(world, start, r.push(e)),
        route_end(start, r.push(e)) == e.movement.target@,
        route_cost(r.push(e)) == route_cost(r) + e.cost,
{
    assert(r.push(e).drop_last() == r);
}

/// Every route from the start ends at a closed node, or an open node is
/// promising enough to lie on it: what its route costs and what it is
/// estimated to lack is no more than the route costs and its end lacks.
proof fn lemma_frontier(
    world: Instance,
    start: BlockPos,
    goal: Goal,
    arena: Seq<Node>,
    routes: Seq<Seq<Edge>>,
    r: Seq<Edge>,
) -> (at: int)
    requires
        full_inv(world, start, goal, arena, routes),
        is_route(world, start@, r),
    ensures
        0 <= at < arena.len(),
        arena[at].closed ==> arena[at].pos@ == route_end(start@, r),
        !arena[at].closed ==> arena[at].g + arena[at].h <= route_cost(r) + goal.heuristic_at(
            route_end(start@, r),
        ),
    decreases r.len(),
{
    assert(node_ok(world, start, goal, arena, routes, 0));
    if r.len() == 0 {
        0
    } else {
        let before = r.drop_last();
        let e = r.last();
        let from = route_end(start@, before);
        let to = route_end(start@, r);
        let at = lemma_frontier(world, start, goal, arena, routes, before);
        assert(node_ok(world, start, goal, arena, routes, at));
        lemma_basic_edges_are_steps(world, from, e);
        lemma_heuristic_of_neighbours(goal, from, to);
        if arena[at].closed {
            assert(closure_ok(world, arena, at));
            assert(basic_edges(world, arena[at].pos@).contains(e));
            assert(has_node_within(arena, e.movement.target, arena[at].g + e.cost));
            let j = choose|j: int|
                0 <= j < arena.len() && (#[trigger] arena[j]).pos == e.movement.target
                    && arena[j].g <= arena[at].g + e.cost;
            assert(node_ok(world, start, goal, arena, routes, j));
            assert(is_route(world, start@, before) && route_end(start@, before) == arena[at].pos@);
            j
        } else {
            at
        }
    }
}

/// The open node that promises most: the one with the least sum of cost and
/// estimate, the one with the lesser estimate among equals, and the one
/// seen first among those.
fn select(arena: &Vec<Node>) -> (best: Option<usize>)
    requires
        forall|i: int|
            0 <= i < arena@.len() ==> (#[trigger] arena@[i]).g <= 0x80_0000_0000_0000
                && arena@[i].h <= 0x20_0000_0000_0000,
    ensures
        match best {
            Some(u) => u < arena@.len() && !arena@[u as int].closed && forall|i: int|
                0 <= i < arena@.len() && !(#[trigger] arena@[i]).closed ==> arena@[u as int].g
                    + arena@[u as int].h <= arena@[i].g + arena@[i].h,
            None => forall|i: int| 0 <= i < arena@.len() ==> (#[trigger] arena@[i]).closed,
        },
        match best {
            Some(u) => selected(arena@, arena@.len()) == Some(u as int),
            None => selected(arena@, arena@.len()).is_none(),
        },
{
    let mut best: Option<usize> = None;
    let mut i: usize = 0;
    while i < arena.len()
        invariant
            i <= arena@.len(),
            forall|k: int|
                0 <= k < arena@.len() ==> (#[trigger] arena@[k]).g <= 0x80_0000_0000_0000
                    && arena@[k].h <= 0x20_0000_0000_0000,
            match best {
                Some(u) => u < i && !arena@[u as int].closed && forall|k: int|
                    0 <= k < i && !(#[trigger] arena@[k]).closed ==> arena@[u as int].g
                        + arena@[u as int].h <= arena@[k].g + arena@[k].h,
                None => forall|k: int| 0 <= k < i ==> (#[trigger] arena@[k]).closed,
            },
            match best {
                Some(u) => selected(arena@, i as nat) == Some(u as int),
                None => selected(arena@, i as nat).is_none(),
            },
        decreases arena@.len() - i,
    {
        let node: Node = arena[i];
        if !node.closed {
            match best {
                Some(u) => {
                    let lead: Node = arena[u];
                    let f: u64 = node.g + node.h;
                    let least: u64 = lead.g + lead.h;
                    if f < least || (f == least && node.h < lead.h) {
                        best = Some(i);
                    }
                },
                None => {
                    best = Some(i);
                },
            }
        }
        i += 1;
    }
    best
}

/// The place of the node that stands for `pos`.
fn find(arena: &Vec<Node>, pos: BlockPos) -> (found: Option<usize>)
    ensures
        match found {
            Some(j) => j < arena@.len() && arena@[j as int].pos == pos && found_at(
                arena@,
                pos,
                arena@.len(),
            ) == Some(j as int),
            None => (forall|i: int| 0 <= i < arena@.len() ==> (#[trigger] arena@[i]).pos != pos)
                && found_at(arena@, pos, arena@.len()).is_none(),
        },
{
    let mut i: usize = 0;
    while i < arena.len()
        invariant
            i <= arena@.len(),
            forall|k: int| 0 <= k < i ==> (#[trigger] arena@[k]).pos != pos,
            found_at(arena@, pos, i as nat).is_none(),
        decreases arena@.len() - i,
    {
        if arena[i].pos == pos {
            proof {
                lemma_found_stays(arena@, pos, (i + 1) as nat, arena@.len());
            }
            return Some(i);
        }
        i += 1;
    }
    None
}

/// What was found among the first `n` nodes is found among more.
proof fn lemma_found_stays(arena: Seq<Node>, pos: BlockPos, n: nat, m: nat)
    requires
        n <= m,
        found_at(arena, pos, n).is_some(),
    ensures
        found_at(arena, pos, m) == found_at(arena, pos, n),
    decreases m - n,
{
    if n < m {
        lemma_found_stays(arena, pos, n, (m - 1) as nat);
    }
}

/// The edges of the route to the node at place `at`.
fn trace(
    arena: &Vec<Node>,
    at: usize,
    Ghost(world): Ghost<Instance>,
    Ghost(start): Ghost<BlockPos>,
    Ghost(goal): Ghost<Goal>,
    Ghost(routes): Ghost<Seq<Seq<Edge>>>,
) -> (edges: Vec<Edge>)
    requires
        base_inv(world, start, goal, arena@, routes),
        at < arena@.len(),
    ensures
        edges@ == routes[at as int],
{
    let mut back: Vec<Edge> = Vec::new();
    let mut i: usize = at;
    while i != 0
        invariant
            base_inv(world, start, goal, arena@, routes),
            i < arena@.len(),
            routes[at as int] == routes[i as int] + back@.reverse(),
        decreases routes[i as int].len(),
    {
        let node: Node = arena[i];
        proof {
            assert(node_ok(world, start, goal, arena@, routes, i as int));
            let r = routes[node.parent as int];
            assert(r.push(node.via) + back@.reverse() == r + back@.push(node.via).reverse()) by {
                assert(back@.push(node.via).reverse() == seq![node.via] + back@.reverse());
                assert(r.push(node.via) == r + seq![node.via]);
            }
        }
        back.push(node.via);
        i = node.parent;
    }
    proof {
        assert(routes[0] + back@.reverse() == back@.reverse());
    }
    let mut edges: Vec<Edge> = Vec::new();
    let mut k: usize = back.len();
    while k > 0
        invariant
            k <= back@.len(),
            edges@ == back@.reverse().take(back@.len() - k),
        decreases k,
    {
        k -= 1;
        edges.push(back[k]);
        proof {
            let rev = back@.reverse();
            let n = back@.len() - k;
            assert(rev.take(n) == rev.take(n - 1).push(rev[n - 1]));
        }
    }
    proof {
        assert(back@.reverse().take(back@.len() as int) == back@.reverse());
    }
    edges
}

/// Looks at the edge `e` that leads away from the node at place `u`: the
/// block that it leads to gets a node, or a cheaper route where the way
/// over `u` is one.
fn relax(
    arena: &mut Vec<Node>,
    u: usize,
    e: Edge,
    nearest: &mut usize,
    goal: &Goal,
    Ghost(world): Ghost<Instance>,
    Ghost(start): Ghost<BlockPos>,
    Ghost(routes): Ghost<Seq<Seq<Edge>>>,
    Ghost(done): Ghost<Seq<Edge>>,
) -> (after: Ghost<Seq<Seq<Edge>>>)
    requires
        expanding_inv(world, start, *goal, old(arena)@, routes, u as int, done),
        basic_edges(world, old(arena)@[u as int].pos@).contains(e),
        *old(nearest) < old(arena)@.len(),
        forall|i: int|
            0 <= i < old(arena)@.len() ==> old(arena)@[*old(nearest) as int].h <= (
            #[trigger] old(arena)@[i]).h,
        old(arena)@[u as int].g <= 0x80_0000_0000_0000,
    ensures
        expanding_inv(world, start, *goal, final(arena)@, after@, u as int, done.push(e)),
        (Search { arena: final(arena)@, routes: after@, nearest: *final(nearest) as int })
            == relaxed(
            Search { arena: old(arena)@, routes: routes, nearest: *old(nearest) as int },
            *goal,
            u as int,
            e,
        ),
        *final(nearest) < final(arena)@.len(),
        forall|i: int|
            0 <= i < final(arena)@.len() ==> final(arena)@[*final(nearest) as int].h <= (
            #[trigger] final(arena)@[i]).h,
        final(arena)@.len() >= old(arena)@.len(),
        forall|i: int|
            0 <= i < old(arena)@.len() ==> (#[trigger] final(arena)@[i]).pos == old(arena)@[i].pos
                && final(arena)@[i].closed == old(arena)@[i].closed && final(arena)@[i].g <= old(
                arena,
            )@[i].g && (old(arena)@[i].closed ==> final(arena)@[i] == old(arena)@[i] && after@[i]
                == routes[i]),
        forall|i: int|
            old(arena)@.len() <= i < final(arena)@.len() ==> !(#[trigger] final(arena)@[i]).closed,
        forall|i: int|
            0 <= i < final(arena)@.len() ==> (#[trigger] after@[i]).len() <= routes[u as int].len()
                + 1 || (i < old(arena)@.len() && after@[i] == routes[i]),
{
    let from: Node = arena[u];
    let ghost before = arena@;
    let ghost way = routes[u as int].push(e);
    proof {
        lemma_basic_edges_are_steps(world, from.pos@, e);
    }
    let reach: u64 = from.g + e.cost;
    proof {
        assert(node_ok(world, start, *goal, before, routes, u as int));
        lemma_route_push(world, start@, routes[u as int], e);
        assert(MAX_STEP_COST * (routes[u as int].len() + 1) == MAX_STEP_COST * routes[u as int].len()
            + MAX_STEP_COST) by (nonlinear_arith);
    }
    match find(arena, e.movement.target) {
        Some(j) => {
            let seen: Node = arena[j];
            proof {
                assert(node_ok(world, start, *goal, before, routes, j as int));
            }
            if !seen.closed && reach < seen.g {
                arena[j] = Node {
                    pos: seen.pos,
                    g: reach,
                    h: seen.h,
                    parent: u,
                    via: e,
                    closed: false,
                };
                let ghost after = routes.update(j as int, way);
                proof {
                    lemma_update_keeps(world, start, *goal, before, routes, arena@, after, j as int);
                    assert(arena@[j as int].pos == e.movement.target);
                    lemma_expanding_keeps(
                        world,
                        start,
                        *goal,
                        before,
                        routes,
                        arena@,
                        after,
                        u as int,
                        done,
                        e,
                        j as int,
                    );
                }
                Ghost(after)
            } else {
                proof {
                    if seen.closed {
                        assert(is_least(world, start@, seen.pos@, seen.g as int));
                        assert(is_route(world, start@, way) && route_end(start@, way) == seen.pos@);
                    }
                    lemma_expanding_keeps(
                        world,
                        start,
                        *goal,
                        before,
                        routes,
                        arena@,
                        routes,
                        u as int,
                        done,
                        e,
                        j as int,
                    );
                }
                Ghost(routes)
            }
        },
        None => {
            let h: u64 = goal.heuristic(&e.movement.target);
            let at: usize = arena.len();
            arena.push(
                Node { pos: e.movement.target, g: reach, h, parent: u, via: e, closed: false },
            );
            let ghost after = routes.push(way);
            if h < arena[*nearest].h {
                *nearest = at;
            }
            proof {
                lemma_push_keeps(world, start, *goal, before, routes, arena@, after);
                lemma_expanding_keeps(
                    world,
                    start,
                    *goal,
                    before,
                    routes,
                    arena@,
                    after,
                    u as int,
                    done,
                    e,
                    at as int,
                );
            }
            Ghost(after)
        },
    }
}

/// Having a node within a bound survives whatever keeps each node's block
/// and lowers no route's cost.
proof fn lemma_within_survives(
    before: Seq<Node>,
    after: Seq<Node>,
    target: BlockPos,
    bound: int,
)
    requires
        before.len() <= after.len(),
        forall|i: int|
            0 <= i < before.len() ==> (#[trigger] after[i]).pos == before[i].pos && after[i].g
                <= before[i].g,
        has_node_within(before, target, bound),
    ensures
        has_node_within(after, target, bound),
{
    let j = choose|j: int|
        0 <= j < before.len() && (#[trigger] before[j]).pos == target && before[j].g <= bound;
    assert(after[j].pos == target && after[j].g <= bound);
}

/// A cheaper route to the open node at place `j` keeps what holds of all
/// nodes.
proof fn lemma_update_keeps(
    world: Instance,
    start: BlockPos,
    goal: Goal,
    before: Seq<Node>,
    routes: Seq<Seq<Edge>>,
    after: Seq<Node>,
    ways: Seq<Seq<Edge>>,
    j: int,
)
    requires
        base_inv(world, start, goal, before, routes),
        0 <= j < before.len(),
        !before[j].closed,
        after == before.update(j, after[j]),
        ways == routes.update(j, ways[j]),
        after[j].pos == before[j].pos,
        after[j].h == before[j].h,
        !after[j].closed,
        after[j].g < before[j].g,
        0 <= after[j].parent < before.len(),
        before[after[j].parent as int].closed,
        ways[j] == routes[after[j].parent as int].push(after[j].via),
        is_route(world, start@, ways[j]),
        route_end(start@, ways[j]) == after[j].pos@,
        route_cost(ways[j]) == after[j].g,
        after[j].g <= MAX_STEP_COST * ways[j].len(),
    ensures
        base_inv(world, start, goal, after, ways),
{
    assert(node_ok(world, start, goal, before, routes, 0));
    assert(j != 0) by {
        if j == 0 {
            assert(route_cost(routes[0]) == 0);
        }
    }
    assert forall|i: int| 0 <= i < after.len() implies #[trigger] node_ok(
        world,
        start,
        goal,
        after,
        ways,
        i,
    ) by {
        assert(node_ok(world, start, goal, before, routes, i));
        if i != j && i > 0 {
            assert(before[i].parent != j);
        }
    }
    assert forall|a: int, b: int| 0 <= a < b < after.len() implies (#[trigger] after[a]).pos != (
    #[trigger] after[b]).pos by {
        assert(before[a].pos != before[b].pos);
    }
}

/// A node for a block that had none keeps what holds of all nodes.
proof fn lemma_push_keeps(
    world: Instance,
    start: BlockPos,
    goal: Goal,
    before: Seq<Node>,
    routes: Seq<Seq<Edge>>,
    after: Seq<Node>,
    ways: Seq<Seq<Edge>>,
)
    requires
        base_inv(world, start, goal, before, routes),
        after == before.push(after.last()),
        ways == routes.push(ways.last()),
        after.len() == before.len() + 1,
        ways.len() == routes.len() + 1,
        forall|i: int| 0 <= i < before.len() ==> (#[trigger] before[i]).pos != after.last().pos,
        !after.last().closed,
        after.last().h == goal.heuristic_at(after.last().pos@),
        0 <= after.last().parent < before.len(),
        before[after.last().parent as int].closed,
        ways.last() == routes[after.last().parent as int].push(after.last().via),
        is_route(world, start@, ways.last()),
        route_end(start@, ways.last()) == after.last().pos@,
        route_cost(ways.last()) == after.last().g,
        after.last().g <= MAX_STEP_COST * ways.last().len(),
    ensures
        base_inv(world, start, goal, after, ways),
{
    assert forall|i: int| 0 <= i < after.len() implies #[trigger] node_ok(
        world,
        start,
        goal,
        after,
        ways,
        i,
    ) by {
        if i < before.len() {
            assert(node_ok(world, start, goal, before, routes, i));
        }
    }
    assert forall|a: int, b: int| 0 <= a < b < after.len() implies (#[trigger] after[a]).pos != (
    #[trigger] after[b]).pos by {
        if b < before.len() {
            assert(before[a].pos != before[b].pos);
        } else {
            assert(before[a].pos != after.last().pos);
        }
    }
}

/// After the edge `e` was looked at, what holds during an expansion holds
/// with `e` among the edges that are done.
proof fn lemma_expanding_keeps(
    world: Instance,
    start: BlockPos,
    goal: Goal,
    before: Seq<Node>,
    routes: Seq<Seq<Edge>>,
    after: Seq<Node>,
    ways: Seq<Seq<Edge>>,
    u: int,
    done: Seq<Edge>,
    e: Edge,
    j: int,
)
    requires
        expanding_inv(world, start, goal, before, routes, u, done),
        base_inv(world, start, goal, after, ways),
        before.len() <= after.len(),
        forall|i: int|
            0 <= i < before.len() ==> (#[trigger] after[i]).pos == before[i].pos && after[i].g
                <= before[i].g && after[i].closed == before[i].closed && (before[i].closed
                ==> after[i] == before[i]),
        forall|i: int| before.len() <= i < after.len() ==> !(#[trigger] after[i]).closed,
        0 <= j < after.len(),
        after[j].pos == e.movement.target,
        after[j].g <= before[u].g + e.cost,
    ensures
        expanding_inv(world, start, goal, after, ways, u, done.push(e)),
{
    assert forall|i: int| 0 <= i < after.len() && after[i].closed && i != u implies #[trigger] closure_ok(
        world,
        after,
        i,
    ) by {
        assert(closure_ok(world, before, i));
        assert forall|x: Edge| #[trigger]
            basic_edges(world, after[i].pos@).contains(x) implies has_node_within(
            after,
            x.movement.target,
            after[i].g + x.cost,
        ) by {
            assert(basic_edges(world, before[i].pos@).contains(x));
            lemma_within_survives(before, after, x.movement.target, before[i].g + x.cost);
        }
    }
    assert forall|k: int| 0 <= k < done.push(e).len() implies has_node_within(
        after,
        (#[trigger] done.push(e)[k]).movement.target,
        after[u].g + done.push(e)[k].cost,
    ) by {
        if k < done.len() {
            assert(done.push(e)[k] == done[k]);
            lemma_within_survives(before, after, done[k].movement.target, before[u].g + done[k].cost);
        } else {
            assert(after[j].pos == e.movement.target);
        }
    }
}

/// Finds the cheapest way from `start` to a block that meets `goal`, by
/// basic steps through `world`. The search expands at most
/// `max_expansions` blocks; where that is more than the world has blocks,
/// and one more, the search does not give up.
pub fn a_star(world: &Instance, start: BlockPos, goal: &Goal, max_expansions: u32) -> (path: Path)
    requires
        world.wf(),
    ensures
        is_answer(*world, start@, *goal, max_expansions as nat, path.edges@, path.outcome),
        (path.edges@, path.outcome) == search_result(*world, start, *goal, max_expansions as nat),
        world.blocks() + 1 < max_expansions ==> path.outcome != Outcome::Exhausted,
{
    let origin = Edge {
        movement: crate::pathfinder::moves::Movement {
            target: start,
            kind: crate::pathfinder::moves::MoveKind::Forward,
        },
        cost: 0,
    };
    let mut arena: Vec<Node> = Vec::new();
    arena.push(
        Node { pos: start, g: 0, h: goal.heuristic(&start), parent: 0, via: origin, closed: false },
    );
    let ghost mut routes: Seq<Seq<Edge>> = seq![Seq::<Edge>::empty()];
    let ghost mut visited: Seq<int> = Seq::empty();
    let mut nearest: usize = 0;
    let mut count: u32 = 0;
    proof {
        assert(node_ok(*world, start, *goal, arena@, routes, 0)) by {
            assert(MAX_STEP_COST * routes[0].len() == 0) by (nonlinear_arith)
                requires
                    routes[0].len() == 0,
            ;
        }
    }
    while count < max_expansions
        invariant
            world.wf(),
            full_inv(*world, start, *goal, arena@, routes),
            searched(
                *world,
                *goal,
                Search { arena: arena@, routes, nearest: nearest as int },
                (max_expansions - count) as nat,
            ) == search_result(*world, start, *goal, max_expansions as nat),
            nearest < arena@.len(),
            forall|i: int|
                0 <= i < arena@.len() ==> arena@[nearest as int].h <= (#[trigger] arena@[i]).h,
            forall|i: int| 0 <= i < arena@.len() ==> (#[trigger] routes[i]).len() <= count,
            count <= max_expansions,
            visited.len() == count,
            forall|k: int|
                0 <= k < visited.len() ==> 0 <= (#[trigger] visited[k]) < arena@.len()
                    && arena@[visited[k]].closed,
            forall|k: int, l: int|
                0 <= k < l < visited.len() ==> (#[trigger] visited[k]) != (#[trigger] visited[l]),
        decreases max_expansions - count,
    {
        proof {
            assert forall|i: int| 0 <= i < arena@.len() implies (#[trigger] arena@[i]).g
                <= 0x80_0000_0000_0000 && arena@[i].h <= 0x20_0000_0000_0000 by {
                assert(node_ok(*world, start, *goal, arena@, routes, i));
                lemma_cost_bound(routes[i].len(), count as nat);
                lemma_flat_distance_bound(*goal, arena@[i].pos);
            }
        }
        let u: usize = match select(&arena) {
            Some(u) => u,
            None => {
                // nothing is left to look at: the goal cannot be reached
                let edges = trace(
                    &arena,
                    nearest,
                    Ghost(*world),
                    Ghost(start),
                    Ghost(*goal),
                    Ghost(routes),
                );
                proof {
                    assert(node_ok(*world, start, *goal, arena@, routes, nearest as int));
                    assert forall|other: Seq<Edge>| #[trigger]
                        is_route(*world, start@, other) implies !goal.reached_at(
                        route_end(start@, other),
                    ) && goal.heuristic_at(route_end(start@, edges@)) <= goal.heuristic_at(
                        route_end(start@, other),
                    ) by {
                        let at = lemma_frontier(*world, start, *goal, arena@, routes, other);
                        assert(arena@[at].closed);
                        assert(node_ok(*world, start, *goal, arena@, routes, at));
                    }
                }
                return Path { edges, outcome: Outcome::Unreachable };
            },
        };
        let node: Node = arena[u];
        proof {
            assert(node_ok(*world, start, *goal, arena@, routes, u as int));
        }
        if goal.success(&node.pos) {
            let edges = trace(&arena, u, Ghost(*world), Ghost(start), Ghost(*goal), Ghost(routes));
            proof {
                assert forall|other: Seq<Edge>| #[trigger]
                    is_route(*world, start@, other) && goal.reached_at(
                        route_end(start@, other),
                    ) implies route_cost(edges@) <= route_cost(other) by {
                    let at = lemma_frontier(*world, start, *goal, arena@, routes, other);
                    assert(node_ok(*world, start, *goal, arena@, routes, at));
                    lemma_goal_has_no_distance(*goal, route_end(start@, other));
                }
            }
            return Path { edges, outcome: Outcome::Found };
        }
        proof {
            // no route to this block is cheaper than the one at hand
            assert forall|r: Seq<Edge>| #[trigger]
                is_route(*world, start@, r) && route_end(start@, r) == node.pos@ implies node.g
                <= route_cost(r) by {
                let at = lemma_frontier(*world, start, *goal, arena@, routes, r);
                assert(node_ok(*world, start, *goal, arena@, routes, at));
                if arena@[at].closed {
                    assert(arena@[at].pos == node.pos);
                    assert(at == u);
                }
            }
            assert(is_least(*world, start@, node.pos@, node.g as int));
        }
        let ghost before = arena@;
        arena[u] = Node {
            pos: node.pos,
            g: node.g,
            h: node.h,
            parent: node.parent,
            via: node.via,
            closed: true,
        };
        proof {
            lemma_close_keeps(*world, start, *goal, before, routes, arena@, u as int);
            visited = visited.push(u as int);
            assert(arena@ == before.update(u as int, closed_node(before[u as int])));
        }
        let ghost closed = Search { arena: arena@, routes, nearest: nearest as int };
        let ghost target = search_result(*world, start, *goal, max_expansions as nat);
        count = count + 1;
        let edges = basic_move(world, node.pos);
        let mut k: usize = 0;
        while k < edges.len()
            invariant
                world.wf(),
                k <= edges@.len(),
                (Search { arena: arena@, routes, nearest: nearest as int }) == expanded(
                    closed,
                    *goal,
                    u as int,
                    edges@,
                    k as nat,
                ),
                searched(
                    *world,
                    *goal,
                    expanded(closed, *goal, u as int, edges@, edges@.len()),
                    (max_expansions - count) as nat,
                ) == target,
                target == search_result(*world, start, *goal, max_expansions as nat),
                edges@ == basic_edges(*world, node.pos@),
                u < arena@.len(),
                arena@[u as int].pos == node.pos,
                arena@[u as int].g == node.g,
                node.g <= 0x80_0000_0000_0000,
                expanding_inv(*world, start, *goal, arena@, routes, u as int, edges@.take(k as int)),
                nearest < arena@.len(),
                forall|i: int|
                    0 <= i < arena@.len() ==> arena@[nearest as int].h <= (#[trigger] arena@[i]).h,
                forall|i: int| 0 <= i < arena@.len() ==> (#[trigger] routes[i]).len() <= count,
                routes[u as int].len() < count,
                visited.len() == count,
                forall|k: int|
                    0 <= k < visited.len() ==> 0 <= (#[trigger] visited[k]) < arena@.len()
                        && arena@[visited[k]].closed,
                forall|k: int, l: int|
                    0 <= k < l < visited.len() ==> (#[trigger] visited[k]) != (
                    #[trigger] visited[l]),
            decreases edges@.len() - k,
        {
            let e: Edge = edges[k];
            let ghost old_arena = arena@;
            let ghost old_routes = routes;
            let after = relax(
                &mut arena,
                u,
                e,
                &mut nearest,
                goal,
                Ghost(*world),
                Ghost(start),
                Ghost(routes),
                Ghost(edges@.take(k as int)),
            );
            proof {
                routes = after@;
                assert(edges@.take(k as int).push(e) == edges@.take(k + 1));
                assert(arena@[u as int] == old_arena[u as int]);
                assert(routes[u as int] == old_routes[u as int]);
                assert forall|i: int| 0 <= i < arena@.len() implies (#[trigger] routes[i]).len()
                    <= count by {
                    if i < old_arena.len() && routes[i] == old_routes[i] {
                        assert(old_routes[i].len() <= count);
                    }
                }
                assert forall|j: int| 0 <= j < visited.len() implies 0 <= (#[trigger] visited[j])
                    < arena@.len() && arena@[visited[j]].closed by {
                    assert(old_arena[visited[j]].closed);
                }
            }
            k += 1;
        }
        proof {
            assert(edges@.take(k as int) == edges@);
            assert(closure_ok(*world, arena@, u as int)) by {
                assert forall|x: Edge| #[trigger]
                    basic_edges(*world, arena@[u as int].pos@).contains(x) implies has_node_within(
                    arena@,
                    x.movement.target,
                    arena@[u as int].g + x.cost,
                ) by {
                    let i = choose|i: int| 0 <= i < edges@.len() && edges@[i] == x;
                    assert(edges@[i] == x);
                }
            }
        }
    }
    // the search may not look further
    let edges = trace(&arena, nearest, Ghost(*world), Ghost(start), Ghost(*goal), Ghost(routes));
    proof {
        let seen = Seq::new(visited.len(), |k: int| routes[visited[k]]);
        assert(node_ok(*world, start, *goal, arena@, routes, nearest as int));
        assert forall|k: int| 0 <= k < seen.len() implies is_route(
            *world,
            start@,
            #[trigger] seen[k],
        ) && !goal.reached_at(route_end(start@, seen[k])) && goal.heuristic_at(
            route_end(start@, edges@),
        ) <= goal.heuristic_at(route_end(start@, seen[k])) by {
            assert(node_ok(*world, start, *goal, arena@, routes, visited[k]));
            assert(arena@[visited[k]].closed);
        }
        assert forall|k: int, l: int| 0 <= k < l < seen.len() implies route_end(
            start@,
            #[trigger] seen[k],
        ) != route_end(start@, #[trigger] seen[l]) by {
            assert(node_ok(*world, start, *goal, arena@, routes, visited[k]));
            assert(node_ok(*world, start, *goal, arena@, routes, visited[l]));
            assert(visited[k] != visited[l]);
            if visited[k] < visited[l] {
                assert(arena@[visited[k]].pos != arena@[visited[l]].pos);
            } else {
                assert(arena@[visited[l]].pos != arena@[visited[k]].pos);
            }
        }
        assert(explored(
            *world,
            start@,
            *goal,
            seen,
            max_expansions as nat,
            route_end(start@, edges@),
        ));
        assert(leads_apart(*world, start@, *goal, seen));
        lemma_world_limits_search(*world, start@, *goal, seen);
    }
    Path { edges, outcome: Outcome::Exhausted }
}

/// A route of at most `count` steps costs what 55 bits hold.
proof fn lemma_cost_bound(len: nat, count: nat)
    requires
        len <= count <= u32::MAX,
    ensures
        MAX_STEP_COST * len <= 0x80_0000_0000_0000,
{
    assert(MAX_STEP_COST * len <= 6_727_189 * 0xffff_ffff) by (nonlinear_arith)
        requires
            len <= 0xffff_ffff,
            MAX_STEP_COST == 6_727_189,
    ;
}

/// An estimate is what 53 bits hold.
proof fn lemma_flat_distance_bound(goal: Goal, pos: BlockPos)
    ensures
        goal.heuristic_at(pos@) <= 0x20_0000_0000_0000,
{
    let n = crate::pathfinder::goals::flat_distance_sqr(pos@, goal.target@) * 1_000_000_000_000;
    let s = crate::pathfinder::goals::sqrt_floor(n);
    crate::pathfinder::goals::lemma_sqrt_floor(n);
    let dx = pos.x - goal.target.x;
    let dz = pos.z - goal.target.z;
    assert(dx * dx <= 0x1_0000_0000_0000_0000 && dz * dz <= 0x1_0000_0000_0000_0000) by (nonlinear_arith)
        requires
            -0x1_0000_0000 <= dx <= 0x1_0000_0000,
            -0x1_0000_0000 <= dz <= 0x1_0000_0000,
    ;
    assert(dx * dx >= 0 && dz * dz >= 0) by (nonlinear_arith);
    assert(crate::pathfinder::goals::flat_distance_sqr(pos@, goal.target@) == dx * dx + dz * dz);
    assert(n <= 0x2_0000_0000_0000_0000 * 1_000_000_000_000);
    if s > 0x20_0000_0000_0000 {
        assert(s * s > 0x400_0000_0000_0000_0000_0000_0000) by (nonlinear_arith)
            requires
                s > 0x20_0000_0000_0000,
        ;
    }
}

/// Closing the node at place `u`, to which no route is cheaper and which
/// does not meet the goal, starts its expansion.
proof fn lemma_close_keeps(
    world: Instance,
    start: BlockPos,
    goal: Goal,
    before: Seq<Node>,
    routes: Seq<Seq<Edge>>,
    after: Seq<Node>,
    u: int,
)
    requires
        full_inv(world, start, goal, before, routes),
        0 <= u < before.len(),
        !before[u].closed,
        after == before.update(u, after[u]),
        after[u].pos == before[u].pos,
        after[u].g == before[u].g,
        after[u].h == before[u].h,
        after[u].parent == before[u].parent,
        after[u].via == before[u].via,
        after[u].closed,
        !goal.reached_at(before[u].pos@),
        is_least(world, start@, before[u].pos@, before[u].g as int),
    ensures
        expanding_inv(world, start, goal, after, routes, u, Seq::<Edge>::empty()),
{
    assert forall|i: int| 0 <= i < after.len() implies #[trigger] node_ok(
        world,
        start,
        goal,
        after,
        routes,
        i,
    ) by {
        assert(node_ok(world, start, goal, before, routes, i));
    }
    assert forall|a: int, b: int| 0 <= a < b < after.len() implies (#[trigger] after[a]).pos != (
    #[trigger] after[b]).pos by {
        assert(before[a].pos != before[b].pos);
    }
    assert forall|i: int| 0 <= i < after.len() && after[i].closed && i != u implies #[trigger] closure_ok(
        world,
        after,
        i,
    ) by {
        assert(closure_ok(world, before, i));
        assert forall|x: Edge| #[trigger]
            basic_edges(world, after[i].pos@).contains(x) implies has_node_within(
            after,
            x.movement.target,
            after[i].g + x.cost,
        ) by {
            lemma_within_survives(before, after, x.movement.target, before[i].g + x.cost);
        }
    }
}

} // verus!
