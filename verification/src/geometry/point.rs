//! Lattice points.

use vstd::prelude::*;
use crate::geometry::numeric::{floor_sqrt, integer_sqrt};

verus! {

/// Largest absolute value of a coordinate. Within this range every squared distance
/// fits in 64 bits.
pub const MAX_COORD: i64 = 1_073_741_824;

/// A point of the plane, by its `x` and `y` coordinates.
#[derive(Clone, Copy, Debug, PartialEq, Eq, Hash, Structural)]
pub struct Point(pub i64, pub i64);

impl Point {
    /// Both coordinates are within `MAX_COORD` of the origin.
    pub open spec fn in_range(self) -> bool {
        &&& -MAX_COORD <= self.0 <= MAX_COORD
        &&& -MAX_COORD <= self.1 <= MAX_COORD
    }

    /// The square of the Euclidean distance between two points.
    pub open spec fn spec_sq_distance(self, other: Point) -> int {
        (self.0 - other.0) * (self.0 - other.0) + (self.1 - other.1) * (self.1 - other.1)
    }

    /// The Euclidean distance between two points, rounded down.
    pub open spec fn spec_distance(self, other: Point) -> int {
        floor_sqrt(self.spec_sq_distance(other))
    }

    /// Tells whether both coordinates are within `MAX_COORD` of the origin.
    pub fn is_in_range(&self) -> (r: bool)
        ensures
            r == self.in_range(),
    {
        -MAX_COORD <= self.0 && self.0 <= MAX_COORD && -MAX_COORD <= self.1 && self.1
            <= MAX_COORD
    }

    /// The square of the Euclidean distance to `other`.
    pub fn sq_distance(&self, other: &Point) -> (r: u64)
        requires
            self.in_range(),
            other.in_range(),
        ensures
            r as int == self.spec_sq_distance(*other),
            r <= 0x8000_0000_0000_0000,
    {
        let dx: i64 = self.0 - other.0;
        let dy: i64 = self.1 - other.1;
        proof {
            lemma_square_bound(dx as int, 0x8000_0000);
            lemma_square_bound(dy as int, 0x8000_0000);
        }
        let sx: i64 = dx * dx;
        let sy: i64 = dy * dy;
        sx as u64 + sy as u64
    }

    /// The Euclidean distance to `other`, rounded down.
    pub fn distance(&self, other: &Point) -> (r: u64)
        requires
            self.in_range(),
            other.in_range(),
        ensures
            r as int == self.spec_distance(*other),
    {
        integer_sqrt(self.sq_distance(other))
    }
}

/// The square of a number of bounded absolute value is bounded by the square of the bound.
pub proof fn lemma_square_bound(d: int, m: int)
    by (nonlinear_arith)
    requires
        -m <= d <= m,
    ensures
        0 <= d * d <= m * m,
{
}

/// The squared distance between two points in range is at most `2^63`.
pub proof fn lemma_sq_distance_bound(p: Point, q: Point)
    requires
        p.in_range(),
        q.in_range(),
    ensures
        0 <= p.spec_sq_distance(q) <= 0x8000_0000_0000_0000,
{
    lemma_square_bound(p.0 - q.0, 0x8000_0000);
    lemma_square_bound(p.1 - q.1, 0x8000_0000);
}

} // verus!
