//! Positions on the plane, snapped to a grid.

use std::cmp::Ordering;
use vstd::prelude::*;

verus! {

/// A position on the plane, held as whole steps of a square grid.
///
/// One step is the tolerance below which two positions count as the same
/// place (one ten-billionth of a unit).  Snapping a position to the grid once,
/// where it enters the library, makes equality, ordering and hashing agree:
/// two values are equal exactly when they name the same grid node, and equal
/// values hash alike because the hash is derived from the same two fields.
#[derive(Clone, Copy, Debug, PartialEq, Eq, Hash, Structural)]
pub struct Point {
    pub x: i64,
    pub y: i64,
}

/// Number of grid steps below which a distance along one axis is negligible.
pub const TOLERANCE: u64 = 1;

/// Distance between two grid coordinates along one axis.
pub open spec fn gap(a: i64, b: i64) -> int {
    if a >= b {
        a - b
    } else {
        b - a
    }
}

/// The integer that stands for a point wherever a single number is needed as
/// a key: the two coordinates, each shifted to be non-negative, side by side.
pub open spec fn key_of(p: Point) -> u128 {
    ((p.x + 0x8000_0000_0000_0000) * 0x1_0000_0000_0000_0000 + (p.y + 0x8000_0000_0000_0000)) as u128
}

/// The coarse order on points: two points within the tolerance on both axes
/// are equal; otherwise the pair is `Less` when it lies closer along `x` than
/// along `y`, and `Greater` when not.
pub open spec fn coarse_order(p: Point, q: Point) -> Ordering {
    if gap(p.x, q.x) < TOLERANCE && gap(p.y, q.y) < TOLERANCE {
        Ordering::Equal
    } else if gap(p.x, q.x) < gap(p.y, q.y) {
        Ordering::Less
    } else {
        Ordering::Greater
    }
}

/// Distance between two grid coordinates along one axis.
pub fn axis_gap(a: i64, b: i64) -> (d: u64)
    ensures
        d == gap(a, b),
{
    if a >= b {
        (a as i128 - b as i128) as u64
    } else {
        (b as i128 - a as i128) as u64
    }
}

impl Point {
    /// The point at grid node (`x`, `y`).
    pub fn from_xy(x: i64, y: i64) -> (p: Point)
        ensures
            p.x == x,
            p.y == y,
    {
        Point { x, y }
    }

    /// The coordinate along the first axis, in grid steps.
    pub fn x(&self) -> (x: i64)
        ensures
            x == self.x,
    {
        self.x
    }

    /// The coordinate along the second axis, in grid steps.
    pub fn y(&self) -> (y: i64)
        ensures
            y == self.y,
    {
        self.y
    }

    /// Compares two points in the coarse order.
    pub fn cmp(&self, other: &Point) -> (o: Ordering)
        ensures
            o == coarse_order(*self, *other),
    {
        let dx: u64 = axis_gap(self.x, other.x);
        let dy: u64 = axis_gap(self.y, other.y);
        if dx < TOLERANCE && dy < TOLERANCE {
            Ordering::Equal
        } else if dx < dy {
            Ordering::Less
        } else {
            Ordering::Greater
        }
    }

    /// The key under which the point is filed in a lookup table.
    pub fn key(&self) -> (k: u128)
        ensures
            k == key_of(*self),
    {
        let hi: u128 = (self.x as i128 + 0x8000_0000_0000_0000) as u128;
        let lo: u128 = (self.y as i128 + 0x8000_0000_0000_0000) as u128;
        hi * 0x1_0000_0000_0000_0000 + lo
    }
}

/// Two points compare as equal in the coarse order exactly when they are the
/// same grid node, so the order never calls two distinct keys equal.
pub proof fn lemma_equal_order_is_equality(p: Point, q: Point)
    ensures
        coarse_order(p, q) == Ordering::Equal <==> p == q,
{
}

/// The coarse order looks only at the distances between the two points, so
/// it gives the same answer whichever of the two is asked.
pub proof fn lemma_order_ignores_direction(p: Point, q: Point)
    ensures
        coarse_order(p, q) == coarse_order(q, p),
{
}

/// Distinct points have distinct keys.
pub proof fn lemma_key_is_injective(p: Point, q: Point)
    ensures
        key_of(p) == key_of(q) <==> p == q,
{
}

} // verus!
