//! Circles with a lattice point as center.

use vstd::prelude::*;
use crate::geometry::geo_enums::GeoPosition;
use crate::geometry::numeric::{
    floor_sqrt,
    integer_sqrt,
    lemma_floor_sqrt,
    lemma_floor_sqrt_monotone,
    lemma_floor_sqrt_of_square,
    lemma_lagrange_identity,
    lemma_product_monotone,
    lemma_square_monotone,
    lemma_square_nonnegative,
    lemma_square_of_product,
    lemma_square_of_sum,
    lemma_square_strictly_monotone,
};
use crate::geometry::point::{lemma_sq_distance_bound, Point};
use crate::geometry::transformation::{lemma_transformation_is_rigid, Transformation};

verus! {

/// Largest radius of a circle.
pub const MAX_RADIUS: u64 = 2_147_483_648;

/// A circle, by its center and its radius.
#[derive(Clone, Copy, Debug, PartialEq, Eq, Hash, Structural)]
pub struct Circle {
    pub center: Point,
    pub radius: u64,
}

impl Circle {
    /// The center is in range and the radius is at most `MAX_RADIUS`.
    pub open spec fn wf(self) -> bool {
        &&& self.center.in_range()
        &&& self.radius <= MAX_RADIUS
    }

    /// The side of the circle on which `p` lies. The test is exact: it compares
    /// squared lengths.
    pub open spec fn spec_position_of(self, p: Point) -> GeoPosition {
        if self.center.spec_sq_distance(p) <= self.radius * self.radius {
            GeoPosition::Interior
        } else {
            GeoPosition::Exterior
        }
    }

    /// The distance from `p` to the circle's border: the difference between the radius
    /// and the rounded-down distance from `p` to the center.
    pub open spec fn spec_border_distance(self, p: Point) -> int {
        let d = self.center.spec_distance(p);
        if d <= self.radius {
            self.radius - d
        } else {
            d - self.radius
        }
    }

    /// The signed distance from `p` to the border: negative inside, rounded down.
    pub open spec fn spec_signed_distance(self, p: Point) -> int {
        self.center.spec_distance(p) - self.radius
    }

    /// The circle of the same radius around the image of the center.
    pub open spec fn spec_transformed(self, t: Transformation) -> Circle {
        Circle { center: t.image_of(self.center), radius: self.radius }
    }

    /// The image of the circle, if its center stays within coordinate range.
    pub fn transform_clone(&self, t: &Transformation) -> (r: Option<Circle>)
        requires
            self.wf(),
            t.wf(),
        ensures
            r.is_some() == t.keeps_in_range(self.center),
            r matches Some(c) ==> c == self.spec_transformed(*t) && c.wf(),
    {
        match t.transform_point(&self.center) {
            Some(center) => Some(Circle { center, radius: self.radius }),
            None => None,
        }
    }

    /// Tells whether the circle is well formed.
    pub fn is_valid(&self) -> (r: bool)
        ensures
            r == self.wf(),
    {
        self.center.is_in_range() && self.radius <= MAX_RADIUS
    }

    /// This circle lies within `outer`: the distance between the centers and this
    /// radius together do not exceed the radius of `outer`. The test is exact.
    pub open spec fn within(self, outer: Circle) -> bool {
        &&& self.radius <= outer.radius
        &&& self.center.spec_sq_distance(outer.center) <= (outer.radius - self.radius) * (
        outer.radius - self.radius)
    }

    /// Tells whether this circle lies within `outer`.
    pub fn is_within(&self, outer: &Circle) -> (r: bool)
        requires
            self.wf(),
            outer.wf(),
        ensures
            r == self.within(*outer),
    {
        if self.radius > outer.radius {
            return false;
        }
        let slack: u64 = outer.radius - self.radius;
        assert(slack * slack <= 2_147_483_648 * 2_147_483_648) by (nonlinear_arith)
            requires
                slack <= 2_147_483_648,
        ;
        self.center.sq_distance(&outer.center) <= slack * slack
    }

    /// The side of the circle on which `p` lies, and the distance from `p` to the border.
    pub fn distance_from_border(&self, p: &Point) -> (r: (GeoPosition, u64))
        requires
            self.wf(),
            p.in_range(),
        ensures
            r.0 == self.spec_position_of(*p),
            r.1 as int == self.spec_border_distance(*p),
    {
        let sq: u64 = self.center.sq_distance(p);
        let d: u64 = integer_sqrt(sq);
        assert(self.radius * self.radius <= 2_147_483_648 * 2_147_483_648) by (nonlinear_arith)
            requires
                self.radius <= 2_147_483_648,
        ;
        let r_sq: u64 = self.radius * self.radius;
        proof {
            lemma_position_agrees_with_distance(*self, *p);
        }
        if sq <= r_sq {
            (GeoPosition::Interior, self.radius - d)
        } else {
            (GeoPosition::Exterior, d - self.radius)
        }
    }
}

/// A point inside the circle is no farther from the center than the radius, and a
/// point outside is no nearer, also after rounding down.
pub proof fn lemma_position_agrees_with_distance(c: Circle, p: Point)
    requires
        c.wf(),
        p.in_range(),
    ensures
        c.spec_position_of(p) == GeoPosition::Interior ==> c.center.spec_distance(p) <= c.radius,
        c.spec_position_of(p) == GeoPosition::Exterior ==> c.center.spec_distance(p) >= c.radius,
        0 <= c.spec_border_distance(p) <= 0xffff_ffff,
{
    let sq = c.center.spec_sq_distance(p);
    let r = c.radius as int;
    lemma_sq_distance_bound(c.center, p);
    lemma_floor_sqrt(sq);
    lemma_floor_sqrt_of_square(r);
    lemma_square_monotone(0, r);
    if sq <= r * r {
        lemma_floor_sqrt_monotone(sq, r * r);
    } else {
        lemma_floor_sqrt_monotone(r * r, sq);
    }
    let d = floor_sqrt(sq);
    if d > 0xffff_ffff {
        lemma_square_monotone(0x1_0000_0000, d);
    }
}

/// The squared length of the sum of two vectors, where the squared length of the
/// first is at most `x * x + slack` and that of the second at most `d * d`, is at most
/// `(x + d) * (x + d) + slack`: the triangle inequality, in squares.
proof fn lemma_triangle(ux: int, uy: int, vx: int, vy: int, x: int, d: int)
    requires
        0 <= x,
        0 <= d,
        ux * ux + uy * uy <= x * x,
        vx * vx + vy * vy <= d * d,
    ensures
        (ux + vx) * (ux + vx) + (uy + vy) * (uy + vy) <= (x + d) * (x + d),
{
    let a = ux * ux + uy * uy;
    let b = vx * vx + vy * vy;
    let along = ux * vx + uy * vy;
    let across = ux * vy - uy * vx;
    lemma_lagrange_identity(ux, uy, vx, vy);
    lemma_square_nonnegative(across);
    lemma_square_nonnegative(ux);
    lemma_square_nonnegative(uy);
    lemma_square_nonnegative(vx);
    lemma_square_nonnegative(vy);
    assert(along * along <= a * b);
    lemma_product_monotone(a, b, x * x, d * d);
    lemma_square_of_product(x, d);
    assert(along * along <= (x * d) * (x * d));
    lemma_product_monotone(0, 0, x, d);
    if along > x * d {
        lemma_square_strictly_monotone(x * d, along);
    }
    lemma_square_of_sum(ux, vx);
    lemma_square_of_sum(uy, vy);
    lemma_square_of_sum(x, d);
}

/// A circle that lies within another is nowhere closer than the other: at every point
/// the signed distance to the outer border is at most that to the inner border, and a
/// point inside the inner circle is inside the outer one.
pub proof fn lemma_within_is_farther(inner: Circle, outer: Circle, p: Point)
    requires
        inner.wf(),
        outer.wf(),
        p.in_range(),
        inner.within(outer),
    ensures
        outer.spec_signed_distance(p) <= inner.spec_signed_distance(p),
        inner.spec_position_of(p) == GeoPosition::Interior ==> outer.spec_position_of(p)
            == GeoPosition::Interior,
{
    let ux = p.0 - inner.center.0;
    let uy = p.1 - inner.center.1;
    let vx = inner.center.0 - outer.center.0;
    let vy = inner.center.1 - outer.center.1;
    let d = outer.radius - inner.radius;
    let to_inner = inner.center.spec_sq_distance(p);
    let to_outer = outer.center.spec_sq_distance(p);
    let between = inner.center.spec_sq_distance(outer.center);
    lemma_sq_distance_bound(inner.center, p);
    lemma_sq_distance_bound(outer.center, p);
    assert(to_inner == ux * ux + uy * uy) by (nonlinear_arith)
        requires
            to_inner == (inner.center.0 - p.0) * (inner.center.0 - p.0) + (inner.center.1 - p.1)
                * (inner.center.1 - p.1),
            ux == p.0 - inner.center.0,
            uy == p.1 - inner.center.1,
    ;
    assert(to_outer == (ux + vx) * (ux + vx) + (uy + vy) * (uy + vy)) by (nonlinear_arith)
        requires
            to_outer == (outer.center.0 - p.0) * (outer.center.0 - p.0) + (outer.center.1 - p.1)
                * (outer.center.1 - p.1),
            ux + vx == p.0 - outer.center.0,
            uy + vy == p.1 - outer.center.1,
    ;
    assert(between == vx * vx + vy * vy);
    lemma_floor_sqrt(to_inner);
    lemma_floor_sqrt(to_outer);
    let a = floor_sqrt(to_inner);
    let b = floor_sqrt(to_outer);
    // the point is within a + 1 of the inner center, so within a + 1 + d of the outer
    lemma_triangle(ux, uy, vx, vy, a + 1, d);
    if b > a + d {
        lemma_square_monotone(a + 1 + d, b);
        // to_outer <= (a + 1 + d)^2 <= b^2 <= to_outer: the first step is strict
        lemma_square_of_sum(a + 1, d);
        lemma_square_of_sum(ux, vx);
        lemma_square_of_sum(uy, vy);
        lemma_triangle_strict(ux, uy, vx, vy, a + 1, d);
    }
    if to_inner <= inner.radius * inner.radius {
        lemma_triangle(ux, uy, vx, vy, inner.radius as int, d);
    }
}

/// The triangle inequality in squares, strict where the first vector is strictly
/// shorter than `x`.
proof fn lemma_triangle_strict(ux: int, uy: int, vx: int, vy: int, x: int, d: int)
    requires
        0 < x,
        0 <= d,
        ux * ux + uy * uy < x * x,
        vx * vx + vy * vy <= d * d,
    ensures
        (ux + vx) * (ux + vx) + (uy + vy) * (uy + vy) < (x + d) * (x + d),
{
    let a = ux * ux + uy * uy;
    let b = vx * vx + vy * vy;
    let along = ux * vx + uy * vy;
    let across = ux * vy - uy * vx;
    lemma_lagrange_identity(ux, uy, vx, vy);
    lemma_square_nonnegative(across);
    lemma_square_nonnegative(ux);
    lemma_square_nonnegative(uy);
    lemma_square_nonnegative(vx);
    lemma_square_nonnegative(vy);
    assert(along * along <= a * b);
    lemma_product_monotone(a, b, x * x, d * d);
    lemma_square_of_product(x, d);
    lemma_product_monotone(0, 0, x, d);
    if along > x * d {
        lemma_square_strictly_monotone(x * d, along);
    }
    lemma_square_of_sum(ux, vx);
    lemma_square_of_sum(uy, vy);
    lemma_square_of_sum(x, d);
}

/// A circle that lies within another still does after both are transformed.
pub proof fn lemma_transformation_keeps_within(t: Transformation, inner: Circle, outer: Circle)
    requires
        t.wf(),
        t.keeps_in_range(inner.center),
        t.keeps_in_range(outer.center),
        inner.within(outer),
    ensures
        inner.spec_transformed(t).within(outer.spec_transformed(t)),
{
    lemma_transformation_is_rigid(t, inner.center, outer.center);
}

} // verus!
