//! Where a path is meant to lead, and how far a block is from there.

use crate::position::{BlockPos, Point};
use vstd::prelude::*;

verus! {

/// The greatest number whose square is not above `n`.
pub open spec fn sqrt_floor(n: nat) -> nat
    decreases n,
{
    if n == 0 {
        0
    } else {
        let below = sqrt_floor((n - 1) as nat);
        if (below + 1) * (below + 1) <= n {
            below + 1
        } else {
            below
        }
    }
}

/// [`sqrt_floor`] is the root rounded down.
pub proof fn lemma_sqrt_floor(n: nat)
    ensures
        sqrt_floor(n) * sqrt_floor(n) <= n < (sqrt_floor(n) + 1) * (sqrt_floor(n) + 1),
    decreases n,
{
    let s = sqrt_floor(n);
    if n > 0 {
        lemma_sqrt_floor((n - 1) as nat);
        let below = sqrt_floor((n - 1) as nat);
        if (below + 1) * (below + 1) <= n {
            assert(s == below + 1);
            assert((below + 2) * (below + 2) > (below + 1) * (below + 1)) by (nonlinear_arith);
            assert((s + 1) * (s + 1) == (below + 2) * (below + 2));
        } else {
            assert(s == below);
        }
    } else {
        assert(s == 0);
        assert(s * s == 0 && (s + 1) * (s + 1) == 1) by (nonlinear_arith)
            requires
                s == 0,
        ;
    }
}

/// Only one number is the root rounded down.
pub proof fn lemma_sqrt_floor_unique(n: nat, s: nat)
    requires
        s * s <= n < (s + 1) * (s + 1),
    ensures
        s == sqrt_floor(n),
{
    lemma_sqrt_floor(n);
    let t = sqrt_floor(n);
    if s < t {
        assert((s + 1) * (s + 1) <= t * t) by (nonlinear_arith)
            requires
                s + 1 <= t,
        ;
    } else if t < s {
        assert((t + 1) * (t + 1) <= s * s) by (nonlinear_arith)
            requires
                t + 1 <= s,
        ;
    }
}

/// The root of `n`, rounded down.
pub fn integer_sqrt(n: u128) -> (root: u64)
    requires
        n < 0x400_0000_0000_0000_0000_0000_0000,
    ensures
        root == sqrt_floor(n as nat),
{
    let mut low: u128 = 0;
    let mut high: u128 = 0x20_0000_0000_0000;
    assert(high * high == 0x400_0000_0000_0000_0000_0000_0000) by (nonlinear_arith)
        requires
            high == 0x20_0000_0000_0000,
    ;
    while high - low > 1
        invariant
            low < high <= 0x20_0000_0000_0000,
            low * low <= n < high * high,
        decreases high - low,
    {
        let mid: u128 = low + (high - low) / 2;
        assert(mid * mid < 0x400_0000_0000_0000_0000_0000_0000) by (nonlinear_arith)
            requires
                mid < 0x20_0000_0000_0000,
        ;
        if mid * mid <= n {
            low = mid;
        } else {
            high = mid;
        }
    }
    proof {
        lemma_sqrt_floor_unique(n as nat, low as nat);
    }
    low as u64
}

/// The square of the distance between `a` and `b`, seen from above.
pub open spec fn flat_distance_sqr(a: Point, b: Point) -> nat {
    ((a.x - b.x) * (a.x - b.x) + (a.z - b.z) * (a.z - b.z)) as nat
}

/// The square of the distance between `a` and `b`.
pub open spec fn distance_sqr(a: Point, b: Point) -> nat {
    ((a.x - b.x) * (a.x - b.x) + (a.y - b.y) * (a.y - b.y) + (a.z - b.z) * (a.z - b.z)) as nat
}

/// The distance between `a` and `b`, seen from above, in millionths of a
/// block and rounded down.
pub open spec fn flat_distance(a: Point, b: Point) -> nat {
    sqrt_floor(flat_distance_sqr(a, b) * 1_000_000_000_000)
}

/// A goal: to come within `radius` blocks of `target`.
#[derive(Clone, Copy, Debug, PartialEq, Eq, Structural, Hash)]
pub struct Goal {
    pub target: BlockPos,
    pub radius: u32,
}

impl Goal {
    /// Whether the block at `p` meets the goal.
    pub open spec fn reached_at(self, p: Point) -> bool {
        distance_sqr(p, self.target@) <= self.radius * self.radius
    }

    /// How far the block at `p` is from the nearest point that meets the
    /// goal, at least: the distance to the target, seen from above, less the
    /// radius. No path to the goal is shorter, and a block of path costs
    /// more than this counts for a block.
    pub open spec fn heuristic_at(self, p: Point) -> nat {
        let d = flat_distance(p, self.target@);
        if d > self.radius * 1_000_000 {
            (d - self.radius * 1_000_000) as nat
        } else {
            0
        }
    }

    pub fn new(target: BlockPos, radius: u32) -> (goal: Goal)
        ensures
            goal == (Goal { target, radius }),
    {
        Goal { target, radius }
    }

    /// Whether the block at `pos` meets the goal.
    pub fn success(&self, pos: &BlockPos) -> (met: bool)
        ensures
            met == self.reached_at(pos@),
    {
        let dx: u128 = span(pos.x, self.target.x);
        let dy: u128 = span(pos.y, self.target.y);
        let dz: u128 = span(pos.z, self.target.z);
        let r: u128 = self.radius as u128;
        assert(r * r <= 0x1_0000_0000_0000_0000) by (nonlinear_arith)
            requires
                r <= 0xffff_ffff,
        ;
        dx + dy + dz <= r * r
    }

    /// The least that a path from `pos` to the goal costs.
    pub fn heuristic(&self, pos: &BlockPos) -> (h: u64)
        ensures
            h == self.heuristic_at(pos@),
            h < 0x20_0000_0000_0000,
    {
        let dx: u128 = span(pos.x, self.target.x);
        let dz: u128 = span(pos.z, self.target.z);
        let d: u64 = integer_sqrt((dx + dz) * 1_000_000_000_000);
        let r: u64 = self.radius as u64 * 1_000_000;
        proof {
            lemma_sqrt_floor(((dx + dz) * 1_000_000_000_000) as nat);
            let s = d as nat;
            if s >= 0x20_0000_0000_0000 {
                assert(s * s >= 0x400_0000_0000_0000_0000_0000_0000) by (nonlinear_arith)
                    requires
                        s >= 0x20_0000_0000_0000,
                ;
            }
        }
        if d > r {
            d - r
        } else {
            0
        }
    }
}

/// The square of the difference between two coordinates.
fn span(a: i32, b: i32) -> (sqr: u128)
    ensures
        sqr == (a - b) * (a - b),
        sqr <= 0x1_0000_0000_0000_0000,
{
    let d: i64 = a as i64 - b as i64;
    let m: u128 = if d < 0 {
        (-d) as u128
    } else {
        d as u128
    };
    assert(m * m == (a - b) * (a - b) && m * m <= 0x1_0000_0000_0000_0000) by (nonlinear_arith)
        requires
            m == if a - b < 0 {
                -(a - b)
            } else {
                a - b
            },
            m <= 0x1_0000_0000,
    ;
    m * m
}

/// A block that meets the goal is no way from it.
pub proof fn lemma_goal_has_no_distance(goal: Goal, p: Point)
    requires
        goal.reached_at(p),
    ensures
        goal.heuristic_at(p) == 0,
{
    let flat = flat_distance_sqr(p, goal.target@);
    let d = flat_distance(p, goal.target@);
    let r = goal.radius as nat;
    let dx = p.x - goal.target.x;
    let dy = p.y - goal.target.y;
    let dz = p.z - goal.target.z;
    assert(dx * dx >= 0 && dy * dy >= 0 && dz * dz >= 0) by (nonlinear_arith);
    assert(flat == dx * dx + dz * dz);
    assert(distance_sqr(p, goal.target@) == dx * dx + dy * dy + dz * dz);
    assert(flat <= r * r);
    lemma_sqrt_floor(flat * 1_000_000_000_000);
    if d > r * 1_000_000 {
        assert(d * d > flat * 1_000_000_000_000) by (nonlinear_arith)
            requires
                d >= r * 1_000_000 + 1,
                flat <= r * r,
        ;
    }
}

/// A step of one block along each axis at most brings a block no nearer to
/// the goal than two blocks count for: the estimate of `p` is at most that
/// of `q` and two million.
pub proof fn lemma_heuristic_of_neighbours(goal: Goal, p: Point, q: Point)
    requires
        -1 <= p.x - q.x <= 1,
        -1 <= p.z - q.z <= 1,
    ensures
        goal.heuristic_at(p) <= goal.heuristic_at(q) + 2_000_000,
{
    let t = goal.target@;
    let big_a = flat_distance_sqr(p, t);
    let big_b = flat_distance_sqr(q, t);
    let a = flat_distance(p, t);
    let b = flat_distance(q, t);
    let s: nat = 1_000_000;
    lemma_sqrt_floor(big_a * 1_000_000_000_000);
    lemma_sqrt_floor(big_b * 1_000_000_000_000);
    let x = q.x - t.x;
    let z = q.z - t.z;
    let e = p.x - q.x;
    let f = p.z - q.z;
    let mx: int = if x < 0 {
        -x
    } else {
        x
    };
    let mz: int = if z < 0 {
        -z
    } else {
        z
    };
    let m = mx + mz;
    assert(big_b == x * x + z * z) by (nonlinear_arith)
        requires
            big_b == ((q.x - t.x) * (q.x - t.x) + (q.z - t.z) * (q.z - t.z)) as nat,
            x == q.x - t.x,
            z == q.z - t.z,
    ;
    assert(big_a == (x + e) * (x + e) + (z + f) * (z + f)) by (nonlinear_arith)
        requires
            big_a == ((p.x - t.x) * (p.x - t.x) + (p.z - t.z) * (p.z - t.z)) as nat,
            x + e == p.x - t.x,
            z + f == p.z - t.z,
    ;
    assert(big_a <= big_b + 2 * m + 2) by (nonlinear_arith)
        requires
            big_a == (x + e) * (x + e) + (z + f) * (z + f),
            big_b == x * x + z * z,
            -1 <= e <= 1,
            -1 <= f <= 1,
            mx >= x,
            mx >= -x,
            mz >= z,
            mz >= -z,
            m == mx + mz,
    ;
    assert(mx * mx == x * x) by (nonlinear_arith)
        requires
            mx == x || mx == -x,
    ;
    assert(mz * mz == z * z) by (nonlinear_arith)
        requires
            mz == z || mz == -z,
    ;
    assert(m * m <= 2 * big_b) by (nonlinear_arith)
        requires
            big_b == x * x + z * z,
            mx * mx == x * x,
            mz * mz == z * z,
            m == mx + mz,
    ;
    if a > b + 2 * s {
        let b1: int = (b + 1) as int;
        // the root of the nearer block, squared, is above the square that it
        // rounds down from
        assert(a * a >= (b1 + 2 * s) * (b1 + 2 * s)) by (nonlinear_arith)
            requires
                a >= b1 + 2 * s,
                b1 >= 1,
                s == 1_000_000,
        ;
        assert((b1 + 2 * s) * (b1 + 2 * s) == b1 * b1 + 4 * s * b1 + 4 * s * s) by (nonlinear_arith);
        assert(big_a * 1_000_000_000_000 <= big_b * 1_000_000_000_000 + (2 * m + 2)
            * 1_000_000_000_000) by (nonlinear_arith)
            requires
                big_a <= big_b + 2 * m + 2,
        ;
        assert(s * s == 1_000_000_000_000) by (nonlinear_arith)
            requires
                s == 1_000_000,
        ;
        // so that b1 * b1 + 4 s b1 + 4 s s <= B s s + (2m + 2) s s < b1 * b1 + (2m + 2) s s
        assert(4 * s * b1 + 4 * s * s < (2 * m + 2) * 1_000_000_000_000);
        assert(2 * b1 < (m - 1) * s) by (nonlinear_arith)
            requires
                4 * s * b1 + 4 * s * s < (2 * m + 2) * 1_000_000_000_000,
                s == 1_000_000,
        ;
        assert(m >= 2);
        assert(4 * (b1 * b1) < ((m - 1) * s) * ((m - 1) * s)) by (nonlinear_arith)
            requires
                0 < 2 * b1 < (m - 1) * s,
        ;
        assert(((m - 1) * s) * ((m - 1) * s) <= (m * m) * 1_000_000_000_000) by (nonlinear_arith)
            requires
                m >= 2,
                s == 1_000_000,
        ;
        assert((m * m) * 1_000_000_000_000 <= 2 * (big_b * 1_000_000_000_000)) by (nonlinear_arith)
            requires
                m * m <= 2 * big_b,
        ;
        assert(false);
    }
}

} // verus!
