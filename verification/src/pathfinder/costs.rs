//! What each kind of step costs, in millionths of a tick.

use vstd::prelude::*;

verus! {

/// Walking one block: 20 ticks a second at 4.317 blocks a second.
pub const WALK_ONE_BLOCK_COST: u64 = 4_632_847;

/// Sprinting one block: 20 ticks a second at 5.612 blocks a second.
pub const SPRINT_ONE_BLOCK_COST: u64 = 3_563_792;

/// Each block of a fall, on top of the step that leads off the edge.
pub const FALL_ONE_BLOCK_COST: u64 = 500_000;

/// A jump onto a block one higher: the ticks that a fall of a block and a
/// quarter takes over those of a fall of a quarter block.
pub const JUMP_ONE_BLOCK_COST: u64 = 3_163_397;

/// Sprinting along the diagonal of a block, the square root of two blocks,
/// and a thousandth of a tick more, so that a diagonal is never taken where
/// two straight steps cost the same.
pub const SPRINT_DIAGONAL_COST: u64 = 5_040_963;

/// Sprinting is cheaper than walking, and the diagonal lies strictly between
/// one and two sprinted blocks.
pub proof fn lemma_cost_order()
    ensures
        0 < SPRINT_ONE_BLOCK_COST < WALK_ONE_BLOCK_COST,
        SPRINT_ONE_BLOCK_COST < SPRINT_DIAGONAL_COST < 2 * SPRINT_ONE_BLOCK_COST,
{
}

} // verus!
