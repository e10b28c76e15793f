//! Walking a path: each tick the step under way is taken further, and the
//! path is planned anew when the goal changes, when the player is stuck, or
//! when the world took a block of the path away.

use crate::pathfinder::astar::{a_star, is_answer, search_result, Outcome, Path};
use crate::pathfinder::basic::{execute_move, is_move_reached, move_executed, move_reached};
use crate::client::LocalPlayer;
use crate::pathfinder::goals::Goal;
use crate::pathfinder::moves::{Entity, ExecuteCtx, IsReachedCtx, MoveEvents, MoveKind};
use crate::position::{block_coordinate, BlockPos, Vec3};
use crate::world::Instance;
use vstd::prelude::*;

verus! {

/// The ticks that a step may take before the player counts as stuck: two
/// seconds.
pub const STUCK_TICKS: u32 = 40;

/// What the pathfinder tells the user.
#[derive(Clone, Copy, Debug, PartialEq, Eq, Structural, Hash)]
pub enum PathfinderEvent {
    /// No path leads to the goal. The pathfinder walks as near as it can.
    PathNotFound,
    /// The path was given up.
    PathAborted,
    /// The player is where it was told to go.
    GoalReached,
}

/// What the pathfinder knows between two ticks.
#[derive(Clone, Debug, PartialEq, Eq)]
pub struct Pathfinder {
    /// Where to go, if anywhere.
    pub goal: Option<Goal>,
    /// The path that is being walked.
    pub path: Option<Path>,
    /// The place in the path of the step under way.
    pub index: usize,
    /// The block that the step under way starts from.
    pub start: BlockPos,
    /// The ticks since the step under way began.
    pub ticks_at_node: u32,
    /// Whether the path is to be planned anew at the next tick.
    pub replan: bool,
}

/// What a tick is told of the player.
#[derive(Clone, Copy, Debug, PartialEq, Eq, Structural, Hash)]
pub struct TickInput {
    pub entity: Entity,
    /// Where the player is, one block below the feet: in the block that
    /// carries the player.
    pub position: Vec3,
    /// How far the player moves in a tick.
    pub physics_delta: Vec3,
    /// Whether the player is about to be hurt by a fall: it has fallen
    /// further than [`SAFE_FALL_DISTANCE`].
    pub fall_damage_imminent: bool,
}

/// The furthest that a player falls unhurt, in millionths of a block: three
/// blocks, as far as a step down may lead.
pub const SAFE_FALL_DISTANCE: u64 = 3_000_000;

/// What a tick is told of a client with these components: its position one
/// block down, what is known of its motion, and that a harmful fall is
/// under way once it has fallen further than [`SAFE_FALL_DISTANCE`]. A
/// client without a position gives none.
pub open spec fn tick_input_of(player: LocalPlayer) -> Option<TickInput> {
    match player.position {
        None => None,
        Some(position) => Some(
            TickInput {
                entity: player.entity,
                position: Vec3 {
                    x: position.x,
                    y: if position.y - 1_000_000 < i64::MIN {
                        i64::MIN
                    } else {
                        (position.y - 1_000_000) as i64
                    },
                    z: position.z,
                },
                physics_delta: match player.velocity {
                    Some(velocity) => velocity,
                    None => Vec3 { x: 0, y: 0, z: 0 },
                },
                fall_damage_imminent: match player.fall_distance {
                    Some(fallen) => fallen > SAFE_FALL_DISTANCE,
                    None => false,
                },
            },
        ),
    }
}

/// What a tick is told of a client.
pub fn tick_input(player: &LocalPlayer) -> (input: Option<TickInput>)
    ensures
        input == tick_input_of(*player),
{
    match player.position {
        None => None,
        Some(position) => Some(
            TickInput {
                entity: player.entity,
                position: Vec3 {
                    x: position.x,
                    y: if position.y < i64::MIN + 1_000_000 {
                        i64::MIN
                    } else {
                        position.y - 1_000_000
                    },
                    z: position.z,
                },
                physics_delta: match player.velocity {
                    Some(velocity) => velocity,
                    None => Vec3 { x: 0, y: 0, z: 0 },
                },
                fall_damage_imminent: match player.fall_distance {
                    Some(fallen) => fallen > SAFE_FALL_DISTANCE,
                    None => false,
                },
            },
        ),
    }
}

/// The block that holds `position`, where its coordinates fit a block
/// position.
pub fn current_block(position: Vec3) -> (block: Option<BlockPos>)
    ensures
        block.is_some() == position.block().representable(),
        block.is_some() ==> block.unwrap()@ == position.block(),
{
    let x: i64 = block_coordinate(position.x);
    let y: i64 = block_coordinate(position.y);
    let z: i64 = block_coordinate(position.z);
    if x < i32::MIN as i64 || x > i32::MAX as i64 || y < i32::MIN as i64 || y > i32::MAX as i64
        || z < i32::MIN as i64 || z > i32::MAX as i64 {
        None
    } else {
        Some(BlockPos { x: x as i32, y: y as i32, z: z as i32 })
    }
}

impl Pathfinder {
    /// The step under way lies within the path.
    pub open spec fn wf(self) -> bool {
        self.path.is_some() ==> self.index <= self.path.unwrap().edges@.len()
    }

    /// Decides [`Pathfinder::wf`].
    pub fn is_wf(&self) -> (sound: bool)
        ensures
            sound == self.wf(),
    {
        match &self.path {
            Some(path) => self.index <= path.edges.len(),
            None => true,
        }
    }

    /// A pathfinder with nowhere to go.
    pub open spec fn idle() -> Pathfinder {
        Pathfinder {
            goal: None,
            path: None,
            index: 0,
            start: BlockPos { x: 0, y: 0, z: 0 },
            ticks_at_node: 0,
            replan: false,
        }
    }

    pub fn new() -> (pathfinder: Pathfinder)
        ensures
            pathfinder == Pathfinder::idle(),
            pathfinder.wf(),
    {
        Pathfinder {
            goal: None,
            path: None,
            index: 0,
            start: BlockPos { x: 0, y: 0, z: 0 },
            ticks_at_node: 0,
            replan: false,
        }
    }

    /// Sets a new goal. The path to it is planned at the next tick.
    pub fn goto(&mut self, goal: Goal)
        ensures
            *final(self) == (Pathfinder { goal: Some(goal), replan: true, ..*old(self) }),
    {
        self.goal = Some(goal);
        self.replan = true;
    }

    /// Forgets goal and path.
    pub fn stop_pathfinding(&mut self)
        ensures
            *final(self) == Pathfinder::idle(),
    {
        self.goal = None;
        self.path = None;
        self.index = 0;
        self.start = BlockPos { x: 0, y: 0, z: 0 };
        self.ticks_at_node = 0;
        self.replan = false;
    }

    /// Whether a block of the path, from the step under way on, can no
    /// longer be stood on.
    pub open spec fn path_is_broken(self, world: Instance) -> bool {
        self.path.is_some() && exists|k: int|
            self.index <= k < self.path.unwrap().edges@.len() && !world.standable_at(
                (#[trigger] self.path.unwrap().edges@[k]).movement.target@,
            )
    }

    /// Looks at the path after the world changed: where a block of the rest
    /// of the path can no longer be stood on, the path is planned anew at
    /// the next tick.
    pub fn world_changed(&mut self, world: &Instance)
        requires
            world.wf(),
            old(self).wf(),
        ensures
            final(self).wf(),
            final(self).replan == (old(self).replan || old(self).path_is_broken(*world)),
            final(self).goal == old(self).goal,
            final(self).path == old(self).path,
            final(self).index == old(self).index,
            final(self).start == old(self).start,
            final(self).ticks_at_node == old(self).ticks_at_node,
    {
        let broken: bool = match &self.path {
            Some(path) => {
                let mut k: usize = self.index;
                let mut broken: bool = false;
                while k < path.edges.len()
                    invariant
                        world.wf(),
                        self.index <= k <= path.edges@.len(),
                        broken == exists|j: int|
                            self.index <= j < k && !world.standable_at(
                                (#[trigger] path.edges@[j]).movement.target@,
                            ),
                    decreases path.edges@.len() - k,
                {
                    let ghost before = broken;
                    if !world.is_standable(&path.edges[k].movement.target) {
                        broken = true;
                    }
                    proof {
                        if before {
                            let j = choose|j: int|
                                self.index <= j < k && !world.standable_at(
                                    (#[trigger] path.edges@[j]).movement.target@,
                                );
                            assert(!world.standable_at(path.edges@[j].movement.target@));
                        }
                    }
                    k += 1;
                }
                broken
            },
            None => false,
        };
        if broken {
            self.replan = true;
        }
    }

    /// What the step under way is told of the player.
    pub open spec fn execute_ctx(self, input: TickInput) -> ExecuteCtx {
        ExecuteCtx {
            entity: input.entity,
            target: self.path.unwrap().edges@[self.index as int].movement.target,
            start: self.start,
            position: input.position,
            physics_delta: input.physics_delta,
        }
    }

    /// What deciding whether the step under way is done is told.
    pub open spec fn reached_ctx(self, input: TickInput) -> IsReachedCtx {
        IsReachedCtx {
            target: self.path.unwrap().edges@[self.index as int].movement.target,
            start: self.start,
            position: input.position,
        }
    }

    /// The kind of the step under way.
    pub open spec fn step_kind(self) -> MoveKind {
        self.path.unwrap().edges@[self.index as int].movement.kind
    }

    /// Whether this tick has nothing to do: there is no goal.
    pub open spec fn rests(self) -> bool {
        self.goal.is_none()
    }

    /// Whether this tick gives the path up: the player is about to be hurt
    /// by a fall, or is where no block position reaches.
    pub open spec fn aborts(self, input: TickInput) -> bool {
        !self.rests() && (input.fall_damage_imminent || !input.position.block().representable())
    }

    /// Whether this tick plans the path.
    pub open spec fn plans(self, input: TickInput) -> bool {
        !self.rests() && !self.aborts(input) && (self.replan || self.path.is_none())
    }

    /// Whether this tick finds the path walked to its end.
    pub open spec fn arrives(self, input: TickInput) -> bool {
        !self.rests() && !self.aborts(input) && !self.plans(input) && self.index
            == self.path.unwrap().edges@.len()
    }

    /// Whether this tick finds the step under way done.
    pub open spec fn steps_on(self, input: TickInput) -> bool {
        !self.rests() && !self.aborts(input) && !self.plans(input) && !self.arrives(input)
            && move_reached(self.step_kind(), self.reached_ctx(input))
    }

    /// One tick. In this order: without a goal nothing happens. A player
    /// about to be hurt by a fall gives the path up. A path that is
    /// wanted is planned from where the player is, and a goal that cannot
    /// be reached is told to the user. A path walked to its end has
    /// reached the goal, or is planned anew where it stopped short. A step
    /// that is done makes way for the next. Else the step under way sends
    /// this tick's input, and counts as stuck after [`STUCK_TICKS`] ticks.
    pub fn tick(
        &mut self,
        world: &Instance,
        input: TickInput,
        events: &mut MoveEvents,
        max_expansions: u32,
    ) -> (told: Option<PathfinderEvent>)
        requires
            world.wf(),
            old(self).wf(),
        ensures
            final(self).wf(),
            old(self).rests() ==> *final(self) == *old(self) && *final(events) == *old(events)
                && told.is_none(),
            old(self).aborts(input) ==> *final(self) == Pathfinder::idle() && *final(events)
                == *old(events) && told == Some(PathfinderEvent::PathAborted),
            old(self).plans(input) ==> {
                &&& final(self).goal == old(self).goal
                &&& final(self).path.is_some()
                &&& is_answer(
                    *world,
                    input.position.block(),
                    old(self).goal.unwrap(),
                    max_expansions as nat,
                    final(self).path.unwrap().edges@,
                    final(self).path.unwrap().outcome,
                )
                &&& (final(self).path.unwrap().edges@, final(self).path.unwrap().outcome)
                    == search_result(
                    *world,
                    final(self).start,
                    old(self).goal.unwrap(),
                    max_expansions as nat,
                )
                &&& final(self).index == 0
                &&& final(self).start@ == input.position.block()
                &&& final(self).ticks_at_node == 0
                &&& !final(self).replan
                &&& *final(events) == *old(events)
                &&& told == if final(self).path.unwrap().outcome == Outcome::Found {
                    None
                } else {
                    Some(PathfinderEvent::PathNotFound)
                }
            },
            old(self).arrives(input) ==> *final(events) == *old(events) && if old(
                self,
            ).path.unwrap().outcome == Outcome::Found {
                *final(self) == Pathfinder::idle() && told == Some(PathfinderEvent::GoalReached)
            } else {
                *final(self) == (Pathfinder { replan: true, ..*old(self) }) && told.is_none()
            },
            old(self).steps_on(input) ==> *final(self) == (Pathfinder {
                index: (old(self).index + 1) as usize,
                start: old(self).path.unwrap().edges@[old(self).index as int].movement.target,
                ticks_at_node: 0,
                ..*old(self)
            }) && *final(events) == *old(events) && told.is_none(),
            !old(self).rests() && !old(self).aborts(input) && !old(self).plans(input) && !old(
                self,
            ).arrives(input) && !old(self).steps_on(input) ==> {
                &&& told.is_none()
                &&& final(self).goal == old(self).goal
                &&& final(self).path == old(self).path
                &&& final(self).index == old(self).index
                &&& final(self).start == old(self).start
                &&& final(self).ticks_at_node == if old(self).ticks_at_node == u32::MAX {
                    u32::MAX
                } else {
                    (old(self).ticks_at_node + 1) as u32
                }
                &&& final(self).replan == (final(self).ticks_at_node > STUCK_TICKS)
                &&& move_executed(
                    old(self).step_kind(),
                    old(self).execute_ctx(input),
                    *old(events),
                    *final(events),
                )
            },
    {
        let goal: Goal = match self.goal {
            Some(goal) => goal,
            None => {
                return None;
            },
        };
        let here: BlockPos = match current_block(input.position) {
            Some(here) => here,
            None => {
                self.stop_pathfinding();
                return Some(PathfinderEvent::PathAborted);
            },
        };
        if input.fall_damage_imminent {
            self.stop_pathfinding();
            return Some(PathfinderEvent::PathAborted);
        }
        if self.replan || self.path.is_none() {
            let path = a_star(world, here, &goal, max_expansions);
            let found: bool = !path.is_partial();
            self.path = Some(path);
            self.index = 0;
            self.start = here;
            self.ticks_at_node = 0;
            self.replan = false;
            return if found {
                None
            } else {
                Some(PathfinderEvent::PathNotFound)
            };
        }
        let (len, found): (usize, bool) = match &self.path {
            Some(path) => (path.edges.len(), !path.is_partial()),
            None => vstd::pervasive::unreached(),
        };
        if self.index == len {
            if found {
                self.stop_pathfinding();
                return Some(PathfinderEvent::GoalReached);
            }
            // the path stopped short of the goal: look again from here
            self.replan = true;
            return None;
        }
        let movement = match &self.path {
            Some(path) => path.edges[self.index].movement,
            None => vstd::pervasive::unreached(),
        };
        let reached_ctx = IsReachedCtx {
            target: movement.target,
            start: self.start,
            position: input.position,
        };
        if is_move_reached(movement.kind, reached_ctx) {
            self.index = self.index + 1;
            self.start = movement.target;
            self.ticks_at_node = 0;
            return None;
        }
        let ctx = ExecuteCtx {
            entity: input.entity,
            target: movement.target,
            start: self.start,
            position: input.position,
            physics_delta: input.physics_delta,
        };
        execute_move(movement.kind, ctx, events);
        if self.ticks_at_node < u32::MAX {
            self.ticks_at_node = self.ticks_at_node + 1;
        }
        self.replan = self.ticks_at_node > STUCK_TICKS;
        None
    }
}

} // verus!
