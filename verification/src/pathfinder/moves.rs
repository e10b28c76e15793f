//! What a step of a path is, and what walking it needs to know.

use crate::position::{BlockPos, Vec3};
use vstd::prelude::*;

verus! {

/// The families of steps that the pathfinder knows.
#[derive(Clone, Copy, Debug, PartialEq, Eq, Structural, Hash)]
pub enum MoveKind {
    /// One block straight on, at the same height.
    Forward,
    /// One block straight on and one block up, by a jump.
    Ascend,
    /// One block straight on and up to three blocks down, by a fall.
    Descend,
    /// One block along each axis, at the same height.
    Diagonal,
}

/// A step to a block, and the way to take it.
#[derive(Clone, Copy, Debug, PartialEq, Eq, Structural, Hash)]
pub struct Movement {
    pub target: BlockPos,
    pub kind: MoveKind,
}

/// A step together with what it costs, in millionths of a tick.
#[derive(Clone, Copy, Debug, PartialEq, Eq, Structural, Hash)]
pub struct Edge {
    pub movement: Movement,
    pub cost: u64,
}

/// The identity of an actor in the entity store.
#[derive(Clone, Copy, Debug, PartialEq, Eq, Structural, Hash)]
pub struct Entity(pub u64);

#[derive(Clone, Copy, Debug, PartialEq, Eq, Structural, Hash)]
pub enum SprintDirection {
    Forward,
    ForwardRight,
    ForwardLeft,
}

#[derive(Clone, Copy, Debug, PartialEq, Eq, Structural, Hash)]
pub enum WalkDirection {
    /// Standing still.
    Idle,
    Forward,
    Backward,
    Left,
    Right,
    ForwardRight,
    ForwardLeft,
    BackwardRight,
    BackwardLeft,
}

/// Turn the head of `entity` towards `position`.
#[derive(Clone, Copy, Debug, PartialEq, Eq, Structural, Hash)]
pub struct LookAtEvent {
    pub entity: Entity,
    pub position: Vec3,
}

#[derive(Clone, Copy, Debug, PartialEq, Eq, Structural, Hash)]
pub struct StartSprintEvent {
    pub entity: Entity,
    pub direction: SprintDirection,
}

#[derive(Clone, Copy, Debug, PartialEq, Eq, Structural, Hash)]
pub struct StartWalkEvent {
    pub entity: Entity,
    pub direction: WalkDirection,
}

#[derive(Clone, Copy, Debug, PartialEq, Eq, Structural, Hash)]
pub struct JumpEvent {
    pub entity: Entity,
}

/// The input events of one tick, each kind in the order in which it was
/// sent.
#[derive(Clone, Debug, PartialEq, Eq)]
pub struct MoveEvents {
    pub look_at: Vec<LookAtEvent>,
    pub sprint: Vec<StartSprintEvent>,
    pub walk: Vec<StartWalkEvent>,
    pub jump: Vec<JumpEvent>,
}

impl MoveEvents {
    pub fn new() -> (events: MoveEvents)
        ensures
            events.look_at@.len() == 0,
            events.sprint@.len() == 0,
            events.walk@.len() == 0,
            events.jump@.len() == 0,
    {
        MoveEvents { look_at: Vec::new(), sprint: Vec::new(), walk: Vec::new(), jump: Vec::new() }
    }
}

/// What the step under way needs to know of the player in this tick.
///
/// The pathfinder names a place by the block that the player stands on. The
/// position that it is told is therefore the position of the player's feet
/// taken one block down: it lies in the block that carries the player.
#[derive(Clone, Copy, Debug, PartialEq, Eq, Structural, Hash)]
pub struct ExecuteCtx {
    pub entity: Entity,
    /// The block that the step leads to.
    pub target: BlockPos,
    /// The block that the step started from.
    pub start: BlockPos,
    /// Where the player is, one block below the feet.
    pub position: Vec3,
    /// How far the player moves in a tick.
    pub physics_delta: Vec3,
}

/// What deciding whether a step is done needs to know.
#[derive(Clone, Copy, Debug, PartialEq, Eq, Structural, Hash)]
pub struct IsReachedCtx {
    pub target: BlockPos,
    pub start: BlockPos,
    /// Where the player is, one block below the feet.
    pub position: Vec3,
}

/// A step is done by default when the player is inside the target block.
pub fn default_is_reached(ctx: IsReachedCtx) -> (reached: bool)
    ensures
        reached == (ctx.position.block() == ctx.target@),
{
    ctx.position.is_in_block(&ctx.target)
}

} // verus!
