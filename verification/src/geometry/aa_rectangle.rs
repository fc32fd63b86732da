//! Axis-aligned rectangles.

use vstd::prelude::*;
use crate::geometry::numeric::{ceil_sqrt, integer_sqrt_ceil, lemma_ceil_sqrt_least};
use crate::geometry::point::{lemma_square_bound, Point, MAX_COORD};

verus! {

/// An axis-aligned rectangle, by its lowest and highest coordinates. Its border
/// belongs to it.
#[derive(Clone, Copy, Debug, PartialEq, Eq, Hash, Structural)]
pub struct AARectangle {
    pub x_min: i64,
    pub y_min: i64,
    pub x_max: i64,
    pub y_max: i64,
}

impl AARectangle {
    /// The corners are in range and the lowest coordinates do not exceed the highest.
    pub open spec fn wf(self) -> bool {
        &&& -MAX_COORD <= self.x_min <= self.x_max <= MAX_COORD
        &&& -MAX_COORD <= self.y_min <= self.y_max <= MAX_COORD
    }

    pub open spec fn spec_width(self) -> int {
        self.x_max - self.x_min
    }

    pub open spec fn spec_height(self) -> int {
        self.y_max - self.y_min
    }

    /// The lattice point at the middle of the rectangle, each coordinate rounded down.
    pub open spec fn spec_centroid(self) -> Point {
        Point(
            (self.x_min + (self.x_max - self.x_min) / 2) as i64,
            (self.y_min + (self.y_max - self.y_min) / 2) as i64,
        )
    }

    /// Half the length of the diagonal, rounded up: the least `r` with
    /// `(2 r)^2 >= width^2 + height^2`.
    pub open spec fn spec_half_diagonal(self) -> int {
        (ceil_sqrt(self.spec_width() * self.spec_width() + self.spec_height() * self.spec_height())
            + 1) / 2
    }

    pub open spec fn spec_contains(self, p: Point) -> bool {
        &&& self.x_min <= p.0 <= self.x_max
        &&& self.y_min <= p.1 <= self.y_max
    }

    /// Tells whether the rectangle is well formed.
    pub fn is_valid(&self) -> (r: bool)
        ensures
            r == self.wf(),
    {
        -MAX_COORD <= self.x_min && self.x_min <= self.x_max && self.x_max <= MAX_COORD
            && -MAX_COORD <= self.y_min && self.y_min <= self.y_max && self.y_max <= MAX_COORD
    }

    /// The rectangle with the given lowest and highest coordinates, if they form one.
    pub fn new(x_min: i64, y_min: i64, x_max: i64, y_max: i64) -> (r: Option<AARectangle>)
        ensures
            r.is_some() == (AARectangle { x_min, y_min, x_max, y_max }).wf(),
            r.is_some() ==> r.unwrap() == (AARectangle { x_min, y_min, x_max, y_max }),
    {
        let rect = AARectangle { x_min, y_min, x_max, y_max };
        if rect.is_valid() {
            Some(rect)
        } else {
            None
        }
    }

    pub fn width(&self) -> (r: u64)
        requires
            self.wf(),
        ensures
            r as int == self.spec_width(),
            r <= 2 * MAX_COORD,
    {
        (self.x_max - self.x_min) as u64
    }

    pub fn height(&self) -> (r: u64)
        requires
            self.wf(),
        ensures
            r as int == self.spec_height(),
            r <= 2 * MAX_COORD,
    {
        (self.y_max - self.y_min) as u64
    }

    /// The lattice point at the middle of the rectangle.
    pub fn centroid(&self) -> (r: Point)
        requires
            self.wf(),
        ensures
            r == self.spec_centroid(),
            r.in_range(),
            self.spec_contains(r),
    {
        Point(
            self.x_min + (self.x_max - self.x_min) / 2,
            self.y_min + (self.y_max - self.y_min) / 2,
        )
    }

    /// Half the length of the diagonal, rounded up.
    pub fn half_diagonal(&self) -> (r: u64)
        requires
            self.wf(),
        ensures
            r as int == self.spec_half_diagonal(),
            r <= 0x8000_0000,
    {
        let w: u64 = self.width();
        let h: u64 = self.height();
        proof {
            lemma_square_bound(w as int, 0x8000_0000);
            lemma_square_bound(h as int, 0x8000_0000);
            lemma_ceil_sqrt_least((w * w + h * h) as int, 0xffff_ffff);
        }
        let diagonal: u64 = integer_sqrt_ceil(w * w + h * h);
        (diagonal + 1) / 2
    }

    /// Tells whether `p` lies in the rectangle or on its border.
    pub fn contains(&self, p: &Point) -> (r: bool)
        ensures
            r == self.spec_contains(*p),
    {
        self.x_min <= p.0 && p.0 <= self.x_max && self.y_min <= p.1 && p.1 <= self.y_max
    }
}

} // verus!
