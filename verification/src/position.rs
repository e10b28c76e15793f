//! Block positions, fixed-point vectors and the four horizontal directions.

use vstd::prelude::*;

verus! {

/// Fixed-point units in one block: a [`Vec3`] coordinate of `1_000_000` is one
/// block away from the origin.
pub const UNITS_PER_BLOCK: i64 = 1_000_000;

/// A point of the unbounded integer lattice. Contracts speak of points, so
/// that a neighbour of a block always exists in them, also where no `i32`
/// could hold it.
pub struct Point {
    pub x: int,
    pub y: int,
    pub z: int,
}

impl Point {
    /// The point `dx`, `dy`, `dz` away from this one.
    pub open spec fn shift(self, dx: int, dy: int, dz: int) -> Point {
        Point { x: self.x + dx, y: self.y + dy, z: self.z + dz }
    }

    /// The point `n` blocks above.
    pub open spec fn up(self, n: int) -> Point {
        self.shift(0, n, 0)
    }

    /// The point `n` blocks below.
    pub open spec fn down(self, n: int) -> Point {
        self.shift(0, -n, 0)
    }

    /// Whether each coordinate fits the `i32` of a [`BlockPos`].
    pub open spec fn representable(self) -> bool {
        &&& i32::MIN <= self.x <= i32::MAX
        &&& i32::MIN <= self.y <= i32::MAX
        &&& i32::MIN <= self.z <= i32::MAX
    }
}

/// The position of one block.
#[derive(Clone, Copy, Debug, PartialEq, Eq, Structural, Hash)]
pub struct BlockPos {
    pub x: i32,
    pub y: i32,
    pub z: i32,
}

impl View for BlockPos {
    type V = Point;

    open spec fn view(&self) -> Point {
        Point { x: self.x as int, y: self.y as int, z: self.z as int }
    }
}

impl BlockPos {
    pub fn new(x: i32, y: i32, z: i32) -> (pos: BlockPos)
        ensures
            pos == (BlockPos { x, y, z }),
    {
        BlockPos { x, y, z }
    }

    /// The block `dx`, `dy`, `dz` away, or `None` where a coordinate would
    /// leave the range of `i32`.
    pub fn offset(&self, dx: i32, dy: i32, dz: i32) -> (moved: Option<BlockPos>)
        ensures
            moved.is_some() == self@.shift(dx as int, dy as int, dz as int).representable(),
            moved.is_some() ==> moved.unwrap()@ == self@.shift(dx as int, dy as int, dz as int),
    {
        let x: i64 = self.x as i64 + dx as i64;
        let y: i64 = self.y as i64 + dy as i64;
        let z: i64 = self.z as i64 + dz as i64;
        if x < i32::MIN as i64 || x > i32::MAX as i64 || y < i32::MIN as i64 || y > i32::MAX as i64
            || z < i32::MIN as i64 || z > i32::MAX as i64 {
            None
        } else {
            Some(BlockPos { x: x as i32, y: y as i32, z: z as i32 })
        }
    }

    /// The middle of the block, in fixed-point units.
    pub fn center(&self) -> (c: Vec3)
        ensures
            c == center_of(self@),
    {
        Vec3 {
            x: self.x as i64 * UNITS_PER_BLOCK + UNITS_PER_BLOCK / 2,
            y: self.y as i64 * UNITS_PER_BLOCK + UNITS_PER_BLOCK / 2,
            z: self.z as i64 * UNITS_PER_BLOCK + UNITS_PER_BLOCK / 2,
        }
    }
}

/// The middle of the block at `p`. The result is meaningful where `p` lies
/// within a few blocks of a representable point.
pub open spec fn center_of(p: Point) -> Vec3 {
    Vec3 {
        x: (p.x * 1_000_000 + 500_000) as i64,
        y: (p.y * 1_000_000 + 500_000) as i64,
        z: (p.z * 1_000_000 + 500_000) as i64,
    }
}

/// A position or a motion in space, each coordinate counted in millionths of
/// a block.
#[derive(Clone, Copy, Debug, PartialEq, Eq, Structural, Hash)]
pub struct Vec3 {
    pub x: i64,
    pub y: i64,
    pub z: i64,
}

/// The greatest whole number of blocks that is not above `units`.
pub open spec fn block_of(units: int) -> int {
    units / 1_000_000
}

/// Computes [`block_of`] for one coordinate.
pub fn block_coordinate(units: i64) -> (b: i64)
    ensures
        b == block_of(units as int),
{
    if units >= 0 {
        units / UNITS_PER_BLOCK
    } else {
        let below: i64 = (units + 1) / UNITS_PER_BLOCK;
        below - 1
    }
}

impl Vec3 {
    pub fn new(x: i64, y: i64, z: i64) -> (v: Vec3)
        ensures
            v == (Vec3 { x, y, z }),
    {
        Vec3 { x, y, z }
    }

    /// The lattice point of the block that holds this position.
    pub open spec fn block(self) -> Point {
        Point { x: block_of(self.x as int), y: block_of(self.y as int), z: block_of(self.z as int) }
    }

    /// Whether this position lies inside the block at `pos`.
    pub fn is_in_block(&self, pos: &BlockPos) -> (inside: bool)
        ensures
            inside == (self.block() == pos@),
    {
        block_coordinate(self.x) == pos.x as i64 && block_coordinate(self.y) == pos.y as i64
            && block_coordinate(self.z) == pos.z as i64
    }
}

/// One of the four horizontal directions.
#[derive(Clone, Copy, Debug, PartialEq, Eq, Structural, Hash)]
pub enum CardinalDirection {
    North,
    South,
    West,
    East,
}

impl CardinalDirection {
    /// The step along the x axis: east is positive.
    pub open spec fn dx(self) -> int {
        match self {
            CardinalDirection::West => -1,
            CardinalDirection::East => 1,
            _ => 0,
        }
    }

    /// The step along the z axis: south is positive.
    pub open spec fn dz(self) -> int {
        match self {
            CardinalDirection::North => -1,
            CardinalDirection::South => 1,
            _ => 0,
        }
    }

    /// The direction a quarter turn clockwise from this one, seen from above.
    pub open spec fn turned_right(self) -> CardinalDirection {
        match self {
            CardinalDirection::North => CardinalDirection::East,
            CardinalDirection::East => CardinalDirection::South,
            CardinalDirection::South => CardinalDirection::West,
            CardinalDirection::West => CardinalDirection::North,
        }
    }

    /// The four directions in the order in which moves are generated.
    pub open spec fn all() -> Seq<CardinalDirection> {
        seq![
            CardinalDirection::North,
            CardinalDirection::South,
            CardinalDirection::West,
            CardinalDirection::East,
        ]
    }

    pub fn x(&self) -> (step: i32)
        ensures
            step == self.dx(),
    {
        match self {
            CardinalDirection::West => -1,
            CardinalDirection::East => 1,
            _ => 0,
        }
    }

    pub fn z(&self) -> (step: i32)
        ensures
            step == self.dz(),
    {
        match self {
            CardinalDirection::North => -1,
            CardinalDirection::South => 1,
            _ => 0,
        }
    }

    pub fn right(&self) -> (turned: CardinalDirection)
        ensures
            turned == self.turned_right(),
    {
        match self {
            CardinalDirection::North => CardinalDirection::East,
            CardinalDirection::East => CardinalDirection::South,
            CardinalDirection::South => CardinalDirection::West,
            CardinalDirection::West => CardinalDirection::North,
        }
    }

    /// The direction at place `i` of [`CardinalDirection::all`].
    pub fn nth(i: usize) -> (dir: CardinalDirection)
        requires
            i < 4,
        ensures
            dir == CardinalDirection::all()[i as int],
    {
        if i == 0 {
            CardinalDirection::North
        } else if i == 1 {
            CardinalDirection::South
        } else if i == 2 {
            CardinalDirection::West
        } else {
            CardinalDirection::East
        }
    }
}

} // verus!
