//! Line segments between lattice points, with exact predicates.

use vstd::prelude::*;
use crate::geometry::numeric::{
    floor_sqrt,
    integer_sqrt,
    lemma_lagrange_identity,
    lemma_product_bound,
    lemma_square_nonnegative,
    lemma_quotient_bound,
};
use crate::geometry::point::{lemma_sq_distance_bound, Point};

verus! {

/// The cross product of the vectors from `a` to `b` and from `a` to `c`: positive
/// where `c` lies to the left of the line through `a` and `b`, zero on that line.
pub open spec fn cross(a: Point, b: Point, c: Point) -> int {
    (b.0 - a.0) * (c.1 - a.1) - (b.1 - a.1) * (c.0 - a.0)
}

/// The dot product of the vectors from `a` to `b` and from `a` to `c`.
pub open spec fn dot(a: Point, b: Point, c: Point) -> int {
    (b.0 - a.0) * (c.0 - a.0) + (b.1 - a.1) * (c.1 - a.1)
}

/// `p` lies in the axis-aligned box spanned by `a` and `b`.
pub open spec fn in_box(a: Point, b: Point, p: Point) -> bool {
    &&& (a.0 <= p.0 <= b.0 || b.0 <= p.0 <= a.0)
    &&& (a.1 <= p.1 <= b.1 || b.1 <= p.1 <= a.1)
}

/// Computes `cross(a, b, c)`.
pub fn cross_product(a: &Point, b: &Point, c: &Point) -> (r: i128)
    requires
        a.in_range(),
        b.in_range(),
        c.in_range(),
    ensures
        r as int == cross(*a, *b, *c),
        -0x8000_0000_0000_0000 <= r <= 0x8000_0000_0000_0000,
{
    let abx: i128 = (b.0 - a.0) as i128;
    let aby: i128 = (b.1 - a.1) as i128;
    let acx: i128 = (c.0 - a.0) as i128;
    let acy: i128 = (c.1 - a.1) as i128;
    proof {
        lemma_product_bound(abx as int, acy as int, 0x8000_0000, 0x8000_0000);
        lemma_product_bound(aby as int, acx as int, 0x8000_0000, 0x8000_0000);
    }
    abx * acy - aby * acx
}

/// Computes `dot(a, b, c)`.
pub fn dot_product(a: &Point, b: &Point, c: &Point) -> (r: i128)
    requires
        a.in_range(),
        b.in_range(),
        c.in_range(),
    ensures
        r as int == dot(*a, *b, *c),
        -0x8000_0000_0000_0000 <= r <= 0x8000_0000_0000_0000,
{
    let abx: i128 = (b.0 - a.0) as i128;
    let aby: i128 = (b.1 - a.1) as i128;
    let acx: i128 = (c.0 - a.0) as i128;
    let acy: i128 = (c.1 - a.1) as i128;
    proof {
        lemma_product_bound(abx as int, acx as int, 0x8000_0000, 0x8000_0000);
        lemma_product_bound(aby as int, acy as int, 0x8000_0000, 0x8000_0000);
    }
    abx * acx + aby * acy
}

/// A line segment, by its two end points.
#[derive(Clone, Copy, Debug, PartialEq, Eq, Hash, Structural)]
pub struct Edge {
    pub start: Point,
    pub end: Point,
}

impl Edge {
    /// Both end points are in range.
    pub open spec fn wf(self) -> bool {
        &&& self.start.in_range()
        &&& self.end.in_range()
    }

    /// `p` lies on the segment, end points included.
    pub open spec fn spec_contains(self, p: Point) -> bool {
        &&& cross(self.start, self.end, p) == 0
        &&& in_box(self.start, self.end, p)
    }

    /// The square of the distance from `p` to the nearest point of the segment,
    /// rounded down. Where the foot of the perpendicular from `p` falls within the
    /// segment, that is the squared cross product over the squared length; else it is
    /// the squared distance to the nearer end point.
    pub open spec fn spec_sq_distance_to(self, p: Point) -> int {
        let len = self.start.spec_sq_distance(self.end);
        let along = dot(self.start, self.end, p);
        if len == 0 || along <= 0 {
            self.start.spec_sq_distance(p)
        } else if along >= len {
            self.end.spec_sq_distance(p)
        } else {
            (cross(self.start, self.end, p) * cross(self.start, self.end, p)) / len
        }
    }

    /// The distance from `p` to the segment, rounded down.
    pub open spec fn spec_distance_to(self, p: Point) -> int {
        floor_sqrt(self.spec_sq_distance_to(p))
    }

    /// The segment comes within `reach` of `p`. The test is exact: no quotient or
    /// root is taken.
    pub open spec fn spec_within_reach(self, p: Point, reach: int) -> bool {
        let len = self.start.spec_sq_distance(self.end);
        let along = dot(self.start, self.end, p);
        if len == 0 || along <= 0 {
            self.start.spec_sq_distance(p) <= reach * reach
        } else if along >= len {
            self.end.spec_sq_distance(p) <= reach * reach
        } else {
            cross(self.start, self.end, p) * cross(self.start, self.end, p) <= reach * reach
                * len
        }
    }

    /// The two segments have a point in common. Either each segment has its end
    /// points strictly on different sides of the other's line, or an end point of one
    /// lies on the other.
    pub open spec fn spec_intersects(self, other: Edge) -> bool {
        let d1 = cross(other.start, other.end, self.start);
        let d2 = cross(other.start, other.end, self.end);
        let d3 = cross(self.start, self.end, other.start);
        let d4 = cross(self.start, self.end, other.end);
        ||| (((d1 > 0 && d2 < 0) || (d1 < 0 && d2 > 0)) && ((d3 > 0 && d4 < 0) || (d3 < 0 && d4
            > 0)))
        ||| other.spec_contains(self.start)
        ||| other.spec_contains(self.end)
        ||| self.spec_contains(other.start)
        ||| self.spec_contains(other.end)
    }

    pub fn new(start: Point, end: Point) -> (r: Edge)
        ensures
            r.start == start,
            r.end == end,
    {
        Edge { start, end }
    }

    /// Tells whether `p` lies on the segment.
    pub fn contains(&self, p: &Point) -> (r: bool)
        requires
            self.wf(),
            p.in_range(),
        ensures
            r == self.spec_contains(*p),
    {
        let c: i128 = cross_product(&self.start, &self.end, p);
        let in_x: bool = (self.start.0 <= p.0 && p.0 <= self.end.0) || (self.end.0 <= p.0 && p.0
            <= self.start.0);
        let in_y: bool = (self.start.1 <= p.1 && p.1 <= self.end.1) || (self.end.1 <= p.1 && p.1
            <= self.start.1);
        c == 0 && in_x && in_y
    }

    /// The square of the distance from `p` to the segment, rounded down.
    pub fn sq_distance_to(&self, p: &Point) -> (r: u64)
        requires
            self.wf(),
            p.in_range(),
        ensures
            r as int == self.spec_sq_distance_to(*p),
            r <= 0x8000_0000_0000_0000,
    {
        let len: u64 = self.start.sq_distance(&self.end);
        let along: i128 = dot_product(&self.start, &self.end, p);
        if len == 0 || along <= 0 {
            self.start.sq_distance(p)
        } else if along >= len as i128 {
            self.end.sq_distance(p)
        } else {
            let c: i128 = cross_product(&self.start, &self.end, p);
            proof {
                lemma_product_bound(c as int, c as int, 0x8000_0000_0000_0000, 0x8000_0000_0000_0000);
                lemma_square_nonnegative(c as int);
                lemma_perpendicular_bound(*self, *p);
            }
            let c_sq: i128 = c * c;
            (c_sq / (len as i128)) as u64
        }
    }

    /// The distance from `p` to the segment, rounded down.
    pub fn distance_to(&self, p: &Point) -> (r: u64)
        requires
            self.wf(),
            p.in_range(),
        ensures
            r as int == self.spec_distance_to(*p),
    {
        integer_sqrt(self.sq_distance_to(p))
    }

    /// Tells whether the segment comes within `reach` of `p`.
    pub fn is_within_reach(&self, p: &Point, reach: u64) -> (r: bool)
        requires
            self.wf(),
            p.in_range(),
            reach <= 0x8000_0000,
        ensures
            r == self.spec_within_reach(*p, reach as int),
    {
        let len: u64 = self.start.sq_distance(&self.end);
        let along: i128 = dot_product(&self.start, &self.end, p);
        proof {
            lemma_product_bound(reach as int, reach as int, 0x8000_0000, 0x8000_0000);
        }
        let reach_sq: u64 = reach * reach;
        if len == 0 || along <= 0 {
            self.start.sq_distance(p) <= reach_sq
        } else if along >= len as i128 {
            self.end.sq_distance(p) <= reach_sq
        } else {
            let c: i128 = cross_product(&self.start, &self.end, p);
            proof {
                lemma_product_bound(c as int, c as int, 0x8000_0000_0000_0000, 0x8000_0000_0000_0000);
                lemma_product_bound(
                    reach_sq as int,
                    len as int,
                    0x4000_0000_0000_0000,
                    0x8000_0000_0000_0000,
                );
            }
            c * c <= (reach_sq as i128) * (len as i128)
        }
    }

    /// Tells whether the two segments have a point in common.
    pub fn intersects(&self, other: &Edge) -> (r: bool)
        requires
            self.wf(),
            other.wf(),
        ensures
            r == self.spec_intersects(*other),
    {
        let d1: i128 = cross_product(&other.start, &other.end, &self.start);
        let d2: i128 = cross_product(&other.start, &other.end, &self.end);
        let d3: i128 = cross_product(&self.start, &self.end, &other.start);
        let d4: i128 = cross_product(&self.start, &self.end, &other.end);
        if ((d1 > 0 && d2 < 0) || (d1 < 0 && d2 > 0)) && ((d3 > 0 && d4 < 0) || (d3 < 0 && d4
            > 0)) {
            return true;
        }
        other.contains(&self.start) || other.contains(&self.end) || self.contains(&other.start)
            || self.contains(&other.end)
    }
}

/// The squared length of the perpendicular from `p` to the line of `e`, rounded down,
/// does not exceed the squared distance from `p` to the start of `e`.
pub proof fn lemma_perpendicular_bound(e: Edge, p: Point)
    requires
        e.wf(),
        p.in_range(),
        e.start.spec_sq_distance(e.end) > 0,
    ensures
        0 <= (cross(e.start, e.end, p) * cross(e.start, e.end, p)) / e.start.spec_sq_distance(e.end)
            <= e.start.spec_sq_distance(p),
        e.start.spec_sq_distance(p) <= 0x8000_0000_0000_0000,
{
    let ax = e.end.0 - e.start.0;
    let ay = e.end.1 - e.start.1;
    let bx = p.0 - e.start.0;
    let by = p.1 - e.start.1;
    let c = cross(e.start, e.end, p);
    let d = dot(e.start, e.end, p);
    let len = e.start.spec_sq_distance(e.end);
    let to_p = e.start.spec_sq_distance(p);
    lemma_lagrange_identity(ax, ay, bx, by);
    lemma_sq_distance_bound(e.start, p);
    assert(len == ax * ax + ay * ay) by (nonlinear_arith)
        requires
            len == (e.start.0 - e.end.0) * (e.start.0 - e.end.0) + (e.start.1 - e.end.1) * (
            e.start.1 - e.end.1),
            ax == e.end.0 - e.start.0,
            ay == e.end.1 - e.start.1,
    ;
    assert(to_p == bx * bx + by * by) by (nonlinear_arith)
        requires
            to_p == (e.start.0 - p.0) * (e.start.0 - p.0) + (e.start.1 - p.1) * (e.start.1 - p.1),
            bx == p.0 - e.start.0,
            by == p.1 - e.start.1,
    ;
    assert(c == ax * by - ay * bx);
    assert(d == ax * bx + ay * by);
    lemma_square_nonnegative(d);
    lemma_square_nonnegative(c);
    assert(c * c <= len * to_p);
    lemma_quotient_bound(c * c, len, to_p);
}

/// The cross product of vectors between points in range is at most `2^63` in absolute
/// value.
pub proof fn lemma_cross_bound(a: Point, b: Point, c: Point)
    requires
        a.in_range(),
        b.in_range(),
        c.in_range(),
    ensures
        -0x8000_0000_0000_0000 <= cross(a, b, c) <= 0x8000_0000_0000_0000,
{
    lemma_product_bound(b.0 - a.0, c.1 - a.1, 0x8000_0000, 0x8000_0000);
    lemma_product_bound(b.1 - a.1, c.0 - a.0, 0x8000_0000, 0x8000_0000);
}

} // verus!
