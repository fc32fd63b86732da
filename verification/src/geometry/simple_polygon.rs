//! Polygons with lattice points as vertices.

use vstd::prelude::*;
use crate::error::CDEError;
use crate::geometry::aa_rectangle::AARectangle;
use crate::geometry::circle::Circle;
use crate::geometry::edge::{cross, cross_product, lemma_cross_bound, Edge};
use crate::geometry::geo_enums::GeoPosition;
use crate::geometry::numeric::{floor_sqrt, integer_sqrt};
use crate::geometry::point::Point;
use crate::geometry::sp_surrogate::{SPSurrogate, SurrogateView};
use crate::geometry::transformation::{
    lemma_cross_is_kept,
    lemma_edge_predicates_are_kept,
    Transformation,
};

verus! {

/// Largest number of vertices of a polygon.
pub const MAX_POINTS: usize = 0x1000_0000;

/// Stands in for the squared distance to an edge where there is no edge: no squared
/// distance between points in range exceeds it.
pub open spec fn sq_distance_limit() -> int {
    0x8000_0000_0000_0000
}

/// The `i`-th edge of the closed ring through `points`: from vertex `i` to the next
/// one, the last edge returning to the first vertex.
pub open spec fn polygon_edge(points: Seq<Point>, i: int) -> Edge {
    Edge { start: points[i], end: points[if i + 1 == points.len() { 0 } else { i + 1 }] }
}

/// `p` lies on an edge of the ring.
pub open spec fn on_border(points: Seq<Point>, p: Point) -> bool {
    exists|i: int| 0 <= i < points.len() && (#[trigger] polygon_edge(points, i)).spec_contains(p)
}

/// The horizontal ray from `p` towards growing `x` crosses `e`. An edge counts for
/// the end point with the higher `y` only, so that a ray through a vertex counts the
/// two edges that meet there once.
pub open spec fn crosses_ray(e: Edge, p: Point) -> bool {
    &&& (e.start.1 > p.1) != (e.end.1 > p.1)
    &&& if e.end.1 > e.start.1 {
        cross(e.start, e.end, p) > 0
    } else {
        cross(e.start, e.end, p) < 0
    }
}

/// The number of edges among the first `k` that the ray from `p` crosses.
pub open spec fn ray_crossings(points: Seq<Point>, p: Point, k: int) -> int
    decreases k,
{
    if k <= 0 {
        0
    } else {
        ray_crossings(points, p, k - 1) + if crosses_ray(polygon_edge(points, k - 1), p) {
            1int
        } else {
            0int
        }
    }
}

/// `p` lies in the polygon or on its border: on an edge, or such that a ray from `p`
/// crosses the ring an odd number of times.
pub open spec fn polygon_contains(points: Seq<Point>, p: Point) -> bool {
    on_border(points, p) || ray_crossings(points, p, points.len() as int) % 2 == 1
}

/// The side of the polygon's border on which `p` lies.
pub open spec fn polygon_position(points: Seq<Point>, p: Point) -> GeoPosition {
    if polygon_contains(points, p) {
        GeoPosition::Interior
    } else {
        GeoPosition::Exterior
    }
}

/// The least squared distance, rounded down, from `p` to one of the first `k` edges.
pub open spec fn min_sq_distance(points: Seq<Point>, p: Point, k: int) -> int
    decreases k,
{
    if k <= 0 {
        sq_distance_limit()
    } else {
        let rest = min_sq_distance(points, p, k - 1);
        let here = polygon_edge(points, k - 1).spec_sq_distance_to(p);
        if here < rest {
            here
        } else {
            rest
        }
    }
}

/// The distance from `p` to the border of the polygon, rounded down.
pub open spec fn polygon_border_distance(points: Seq<Point>, p: Point) -> int {
    floor_sqrt(min_sq_distance(points, p, points.len() as int))
}

/// Twice the signed area of the fan of triangles that the first vertex spans with
/// each of the first `k` edges: positive where the edges run counter-clockwise.
pub open spec fn fan_area(points: Seq<Point>, k: int) -> int
    decreases k,
{
    if k <= 0 {
        0
    } else {
        let e = polygon_edge(points, k - 1);
        fan_area(points, k - 1) + cross(points[0], e.start, e.end)
    }
}

/// Twice the signed area of the polygon: positive for a counter-clockwise ring.
pub open spec fn polygon_area2(points: Seq<Point>) -> int {
    fan_area(points, points.len() as int)
}

/// The edges `i` and `j` of the ring, `i` before `j`, meet as the edges of a simple
/// polygon do: two edges in a row have their common vertex in common and neither holds
/// the far end of the other; any other two edges have no point in common.
pub open spec fn edges_apart(points: Seq<Point>, i: int, j: int) -> bool {
    let a = polygon_edge(points, i);
    let b = polygon_edge(points, j);
    if j == i + 1 {
        !a.spec_contains(b.end) && !b.spec_contains(a.start)
    } else if i == 0 && j == points.len() - 1 {
        !b.spec_contains(a.end) && !a.spec_contains(b.start)
    } else {
        !a.spec_intersects(b)
    }
}

/// The ring does not touch or cross itself.
pub open spec fn ring_is_simple(points: Seq<Point>) -> bool {
    forall|i: int, j: int| 0 <= i < j < points.len() ==> #[trigger] edges_apart(points, i, j)
}

/// `bbox` is the smallest axis-aligned rectangle that holds every vertex.
pub open spec fn is_bounding_box(points: Seq<Point>, bbox: AARectangle) -> bool {
    &&& forall|i: int| 0 <= i < points.len() ==> bbox.spec_contains(#[trigger] points[i])
    &&& exists|i: int| 0 <= i < points.len() && (#[trigger] points[i]).0 == bbox.x_min
    &&& exists|i: int| 0 <= i < points.len() && (#[trigger] points[i]).0 == bbox.x_max
    &&& exists|i: int| 0 <= i < points.len() && (#[trigger] points[i]).1 == bbox.y_min
    &&& exists|i: int| 0 <= i < points.len() && (#[trigger] points[i]).1 == bbox.y_max
}

/// All vertices are in range.
pub open spec fn ring_in_range(points: Seq<Point>) -> bool {
    forall|i: int| 0 <= i < points.len() ==> (#[trigger] points[i]).in_range()
}

/// The vertices can be the ring of a polygon: at least three of them, not too many,
/// all in range, enclosing an area that is not zero, in a ring that does not touch or
/// cross itself.
pub open spec fn valid_ring(points: Seq<Point>) -> bool {
    &&& 3 <= points.len() <= MAX_POINTS
    &&& ring_in_range(points)
    &&& polygon_area2(points) != 0
    &&& ring_is_simple(points)
}

/// An edge of the ring `a` and an edge of the ring `b` have a point in common.
pub open spec fn edges_cross(a: Seq<Point>, b: Seq<Point>) -> bool {
    exists|i: int, j: int|
        #![trigger polygon_edge(a, i), polygon_edge(b, j)]
        0 <= i < a.len() && 0 <= j < b.len() && polygon_edge(a, i).spec_intersects(
            polygon_edge(b, j),
        )
}

/// The two polygons have a point in common: their borders meet, or one holds the
/// first vertex of the other and with it, the borders being apart, all of it.
pub open spec fn polygons_overlap(a: Seq<Point>, b: Seq<Point>) -> bool {
    edges_cross(a, b) || polygon_contains(a, b[0]) || polygon_contains(b, a[0])
}

/// The polygon `inner` lies inside `outer` and apart from its border.
pub open spec fn polygon_within(inner: Seq<Point>, outer: Seq<Point>) -> bool {
    !edges_cross(inner, outer) && polygon_contains(outer, inner[0])
}

/// An edge of the ring comes within the radius of `c` of its center. The test is
/// exact.
pub open spec fn border_within_reach(points: Seq<Point>, c: Circle) -> bool {
    exists|i: int|
        0 <= i < points.len() && (#[trigger] polygon_edge(points, i)).spec_within_reach(
            c.center,
            c.radius as int,
        )
}

/// The circle and the polygon have a point in common.
pub open spec fn circle_overlaps(c: Circle, points: Seq<Point>) -> bool {
    border_within_reach(points, c) || polygon_contains(points, c.center)
}

/// The circle lies inside the polygon and apart from its border.
pub open spec fn circle_within(c: Circle, points: Seq<Point>) -> bool {
    !border_within_reach(points, c) && polygon_contains(points, c.center)
}

/// What a polygon holds, as mathematical values.
pub struct PolygonView {
    pub points: Seq<Point>,
    pub bbox: AARectangle,
    pub surrogate: SurrogateView,
}

impl PolygonView {
    /// Every vertex and the centers of all circles of the surrogate stay within
    /// coordinate range under `t`.
    pub open spec fn stays_in_range(self, t: Transformation) -> bool {
        &&& forall|i: int| 0 <= i < self.points.len() ==> t.keeps_in_range(#[trigger] self.points[i])
        &&& self.surrogate.stays_in_range(t)
    }

    pub open spec fn wf(self) -> bool {
        &&& valid_ring(self.points)
        &&& self.bbox.wf()
        &&& is_bounding_box(self.points, self.bbox)
        &&& self.surrogate.wf()
    }
}

/// A polygon, by the ring of its vertices, with its bounding box and its surrogate.
#[derive(Debug)]
pub struct SimplePolygon {
    points: Vec<Point>,
    bbox: AARectangle,
    surrogate: SPSurrogate,
}

impl View for SimplePolygon {
    type V = PolygonView;

    closed spec fn view(&self) -> PolygonView {
        PolygonView { points: self.points@, bbox: self.bbox, surrogate: self.surrogate@ }
    }
}

impl Clone for SimplePolygon {
    /// A copy that holds the same vertices, bounding box and surrogate.
    fn clone(&self) -> (r: SimplePolygon)
        ensures
            r@ == self@,
    {
        SimplePolygon {
            points: self.points.clone(),
            bbox: self.bbox,
            surrogate: self.surrogate.clone(),
        }
    }
}

/// The partial sums of the area stay within bounds.
proof fn lemma_fan_bound(points: Seq<Point>, k: int)
    requires
        0 <= k <= points.len(),
        ring_in_range(points),
    ensures
        -k * 0x8000_0000_0000_0000 <= fan_area(points, k) <= k * 0x8000_0000_0000_0000,
    decreases k,
{
    if k > 0 {
        lemma_fan_bound(points, k - 1);
        let e = polygon_edge(points, k - 1);
        assert(points[0].in_range() && e.start.in_range() && e.end.in_range());
        lemma_cross_bound(points[0], e.start, e.end);
    }
}

/// The `i`-th edge of the ring through `points`.
fn ring_edge(points: &Vec<Point>, i: usize) -> (r: Edge)
    requires
        i < points@.len(),
        ring_in_range(points@),
    ensures
        r == polygon_edge(points@, i as int),
        r.wf(),
{
    let n: usize = points.len();
    let j: usize = if i + 1 == n {
        0
    } else {
        i + 1
    };
    Edge { start: points[i], end: points[j] }
}

/// Tells whether all vertices are in range.
fn ring_within_range(points: &Vec<Point>) -> (r: bool)
    ensures
        r == ring_in_range(points@),
{
    let mut i: usize = 0;
    while i < points.len()
        invariant
            0 <= i <= points@.len(),
            forall|j: int| 0 <= j < i ==> (#[trigger] points@[j]).in_range(),
        decreases points@.len() - i,
    {
        if !points[i].is_in_range() {
            assert(!points@[i as int].in_range());
            return false;
        }
        i += 1;
    }
    true
}

/// Twice the signed area of the ring.
fn ring_area2(points: &Vec<Point>) -> (r: i128)
    requires
        1 <= points@.len() <= MAX_POINTS,
        ring_in_range(points@),
    ensures
        r as int == polygon_area2(points@),
{
    let n: usize = points.len();
    let mut area2: i128 = 0;
    let mut k: usize = 0;
    while k < n
        invariant
            0 <= k <= n,
            1 <= n <= MAX_POINTS,
            n == points@.len(),
            ring_in_range(points@),
            area2 as int == fan_area(points@, k as int),
        decreases n - k,
    {
        let e: Edge = ring_edge(points, k);
        proof {
            lemma_fan_bound(points@, k as int);
            lemma_fan_bound(points@, k as int + 1);
        }
        area2 = area2 + cross_product(&points[0], &e.start, &e.end);
        k += 1;
    }
    area2
}

/// The smallest axis-aligned rectangle that holds every vertex.
fn ring_bbox(points: &Vec<Point>) -> (r: AARectangle)
    requires
        1 <= points@.len(),
        ring_in_range(points@),
    ensures
        r.wf(),
        is_bounding_box(points@, r),
{
    let n: usize = points.len();
    let mut bbox = AARectangle {
        x_min: points[0].0,
        y_min: points[0].1,
        x_max: points[0].0,
        y_max: points[0].1,
    };
    let ghost mut at_x_min: int = 0;
    let ghost mut at_x_max: int = 0;
    let ghost mut at_y_min: int = 0;
    let ghost mut at_y_max: int = 0;
    let mut k: usize = 0;
    while k < n
        invariant
            0 <= k <= n,
            1 <= n,
            n == points@.len(),
            ring_in_range(points@),
            bbox.wf(),
            forall|j: int| 0 <= j < k ==> bbox.spec_contains(#[trigger] points@[j]),
            0 <= at_x_min < n && points@[at_x_min].0 == bbox.x_min,
            0 <= at_x_max < n && points@[at_x_max].0 == bbox.x_max,
            0 <= at_y_min < n && points@[at_y_min].1 == bbox.y_min,
            0 <= at_y_max < n && points@[at_y_max].1 == bbox.y_max,
        decreases n - k,
    {
        let a: Point = points[k];
        if a.0 < bbox.x_min {
            bbox.x_min = a.0;
            proof {
                at_x_min = k as int;
            }
        }
        if a.0 > bbox.x_max {
            bbox.x_max = a.0;
            proof {
                at_x_max = k as int;
            }
        }
        if a.1 < bbox.y_min {
            bbox.y_min = a.1;
            proof {
                at_y_min = k as int;
            }
        }
        if a.1 > bbox.y_max {
            bbox.y_max = a.1;
            proof {
                at_y_max = k as int;
            }
        }
        k += 1;
    }
    bbox
}

/// Tells whether the ring does not touch or cross itself.
fn ring_simple(points: &Vec<Point>) -> (r: bool)
    requires
        3 <= points@.len(),
        ring_in_range(points@),
    ensures
        r == ring_is_simple(points@),
{
    let n: usize = points.len();
    let mut i: usize = 0;
    while i < n
        invariant
            0 <= i <= n,
            3 <= n,
            n == points@.len(),
            ring_in_range(points@),
            forall|a: int, b: int| 0 <= a < i && a < b < n ==> #[trigger] edges_apart(points@, a, b),
        decreases n - i,
    {
        let e: Edge = ring_edge(points, i);
        let mut j: usize = i + 1;
        while j < n
            invariant
                0 <= i < j <= n,
                3 <= n,
                n == points@.len(),
                ring_in_range(points@),
                e == polygon_edge(points@, i as int),
                e.wf(),
                forall|a: int, b: int|
                    0 <= a < i && a < b < n ==> #[trigger] edges_apart(points@, a, b),
                forall|b: int| i < b < j ==> #[trigger] edges_apart(points@, i as int, b),
            decreases n - j,
        {
            let f: Edge = ring_edge(points, j);
            let apart: bool = if j == i + 1 {
                !e.contains(&f.end) && !f.contains(&e.start)
            } else if i == 0 && j == n - 1 {
                !f.contains(&e.end) && !e.contains(&f.start)
            } else {
                !e.intersects(&f)
            };
            if !apart {
                assert(!edges_apart(points@, i as int, j as int));
                return false;
            }
            j += 1;
        }
        i += 1;
    }
    true
}

impl SimplePolygon {
    pub open spec fn wf(&self) -> bool {
        self@.wf()
    }

    /// The polygon with the given ring of vertices and the given surrogate. It is
    /// refused where the vertices are no valid ring.
    pub fn new(points: Vec<Point>, surrogate: SPSurrogate) -> (r: Result<SimplePolygon, CDEError>)
        requires
            surrogate.wf(),
        ensures
            r.is_ok() == valid_ring(points@),
            r.is_ok() ==> r.unwrap().wf() && r.unwrap()@.points == points@ && r.unwrap()@.surrogate
                == surrogate@,
            r.is_err() ==> r.unwrap_err() == CDEError::InvalidInput,
    {
        let n: usize = points.len();
        if n < 3 || n > MAX_POINTS {
            return Err(CDEError::InvalidInput);
        }
        if !ring_within_range(&points) {
            return Err(CDEError::InvalidInput);
        }
        if ring_area2(&points) == 0 {
            return Err(CDEError::InvalidInput);
        }
        if !ring_simple(&points) {
            return Err(CDEError::InvalidInput);
        }
        let bbox: AARectangle = ring_bbox(&points);
        Ok(SimplePolygon { points, bbox, surrogate })
    }

    /// The polygon with every vertex and its surrogate transformed. It is refused
    /// where a vertex or a center leaves the coordinate range.
    pub fn transform_clone(&self, t: &Transformation) -> (r: Result<SimplePolygon, CDEError>)
        requires
            self.wf(),
            t.wf(),
        ensures
            r.is_ok() == self@.stays_in_range(*t),
            r.is_ok() ==> r.unwrap().wf() && r.unwrap()@.points == t.images_of(self@.points)
                && r.unwrap()@.surrogate == self@.surrogate.transformed(*t),
            r.is_err() ==> r.unwrap_err() == CDEError::InvalidInput,
    {
        let mut points: Vec<Point> = Vec::new();
        let mut i: usize = 0;
        while i < self.points.len()
            invariant
                0 <= i <= self.points@.len(),
                self.wf(),
                t.wf(),
                points@.len() == i,
                forall|j: int| 0 <= j < i ==> t.keeps_in_range(#[trigger] self.points@[j]),
                forall|j: int|
                    0 <= j < i ==> (#[trigger] points@[j]) == t.image_of(self.points@[j])
                        && points@[j].in_range(),
            decreases self.points@.len() - i,
        {
            let ghost before = points@;
            match t.transform_point(&self.points[i]) {
                Some(p) => {
                    points.push(p);
                    assert forall|j: int| 0 <= j < i + 1 implies (#[trigger] points@[j]) == t.image_of(
                        self.points@[j],
                    ) && points@[j].in_range() by {
                        if j < i {
                            assert(points@[j] == before[j]);
                        }
                    }
                },
                None => {
                    assert(!t.keeps_in_range(self@.points[i as int]));
                    return Err(CDEError::InvalidInput);
                },
            }
            i += 1;
        }
        assert(points@ =~= t.images_of(self@.points));
        let surrogate: SPSurrogate = match self.surrogate.transform_clone(t) {
            Ok(surrogate) => surrogate,
            Err(e) => {
                return Err(e);
            },
        };
        proof {
            lemma_transformation_keeps_ring(*t, self@.points);
        }
        let bbox: AARectangle = ring_bbox(&points);
        Ok(SimplePolygon { points, bbox, surrogate })
    }

    /// The ring of vertices.
    pub fn points(&self) -> (r: &Vec<Point>)
        ensures
            r@ == self@.points,
    {
        &self.points
    }

    pub fn number_of_points(&self) -> (r: usize)
        ensures
            r == self@.points.len(),
    {
        self.points.len()
    }

    /// The smallest axis-aligned rectangle that holds the polygon.
    pub fn bbox(&self) -> (r: AARectangle)
        ensures
            r == self@.bbox,
    {
        self.bbox
    }

    pub fn surrogate(&self) -> (r: &SPSurrogate)
        ensures
            r@ == self@.surrogate,
    {
        &self.surrogate
    }

    /// The `i`-th edge of the ring.
    pub fn edge(&self, i: usize) -> (r: Edge)
        requires
            self.wf(),
            i < self@.points.len(),
        ensures
            r == polygon_edge(self@.points, i as int),
            r.wf(),
    {
        let j: usize = if i + 1 == self.points.len() {
            0
        } else {
            i + 1
        };
        Edge { start: self.points[i], end: self.points[j] }
    }

    /// Twice the signed area: positive for a counter-clockwise ring.
    pub fn area2(&self) -> (r: i128)
        requires
            self.wf(),
        ensures
            r as int == polygon_area2(self@.points),
            r != 0,
    {
        ring_area2(&self.points)
    }

    /// Tells whether `p` lies in the polygon or on its border.
    pub fn contains_point(&self, p: &Point) -> (r: bool)
        requires
            self.wf(),
            p.in_range(),
        ensures
            r == polygon_contains(self@.points, *p),
    {
        let (position, _) = self.distance_from_border(p);
        position == GeoPosition::Interior
    }

    /// Tells whether an edge of this polygon and an edge of `other` have a point in
    /// common.
    pub fn crosses_border_of(&self, other: &SimplePolygon) -> (r: bool)
        requires
            self.wf(),
            other.wf(),
        ensures
            r == edges_cross(self@.points, other@.points),
    {
        let n: usize = self.points.len();
        let m: usize = other.points.len();
        let mut i: usize = 0;
        while i < n
            invariant
                0 <= i <= n,
                self.wf(),
                other.wf(),
                n == self@.points.len(),
                m == other@.points.len(),
                forall|a: int, b: int|
                    #![trigger polygon_edge(self@.points, a), polygon_edge(other@.points, b)]
                    0 <= a < i && 0 <= b < m ==> !polygon_edge(self@.points, a).spec_intersects(
                        polygon_edge(other@.points, b),
                    ),
            decreases n - i,
        {
            let e: Edge = self.edge(i);
            let mut j: usize = 0;
            while j < m
                invariant
                    0 <= j <= m,
                    0 <= i < n,
                    self.wf(),
                    other.wf(),
                    n == self@.points.len(),
                    m == other@.points.len(),
                    e == polygon_edge(self@.points, i as int),
                    e.wf(),
                    forall|a: int, b: int|
                        #![trigger polygon_edge(self@.points, a), polygon_edge(other@.points, b)]
                        0 <= a < i && 0 <= b < m ==> !polygon_edge(self@.points, a).spec_intersects(
                            polygon_edge(other@.points, b),
                        ),
                    forall|b: int|
                        0 <= b < j ==> !e.spec_intersects(#[trigger] polygon_edge(other@.points, b)),
                decreases m - j,
            {
                let f: Edge = other.edge(j);
                if e.intersects(&f) {
                    return true;
                }
                j += 1;
            }
            i += 1;
        }
        false
    }

    /// Tells whether this polygon and `other` have a point in common.
    pub fn collides_with(&self, other: &SimplePolygon) -> (r: bool)
        requires
            self.wf(),
            other.wf(),
        ensures
            r == polygons_overlap(self@.points, other@.points),
    {
        self.crosses_border_of(other) || self.contains_point(&other.points[0])
            || other.contains_point(&self.points[0])
    }

    /// Tells whether this polygon lies inside `outer` and apart from its border.
    pub fn lies_within(&self, outer: &SimplePolygon) -> (r: bool)
        requires
            self.wf(),
            outer.wf(),
        ensures
            r == polygon_within(self@.points, outer@.points),
    {
        !self.crosses_border_of(outer) && outer.contains_point(&self.points[0])
    }

    /// Tells whether an edge of the polygon comes within the radius of `c` of its
    /// center.
    pub fn border_reaches(&self, c: &Circle) -> (r: bool)
        requires
            self.wf(),
            c.wf(),
        ensures
            r == border_within_reach(self@.points, *c),
    {
        let n: usize = self.points.len();
        let mut i: usize = 0;
        while i < n
            invariant
                0 <= i <= n,
                self.wf(),
                c.wf(),
                n == self@.points.len(),
                forall|a: int|
                    0 <= a < i ==> !(#[trigger] polygon_edge(self@.points, a)).spec_within_reach(
                        c.center,
                        c.radius as int,
                    ),
            decreases n - i,
        {
            let e: Edge = self.edge(i);
            if e.is_within_reach(&c.center, c.radius) {
                return true;
            }
            i += 1;
        }
        false
    }

    /// Tells whether the circle `c` and the polygon have a point in common.
    pub fn collides_with_circle(&self, c: &Circle) -> (r: bool)
        requires
            self.wf(),
            c.wf(),
        ensures
            r == circle_overlaps(*c, self@.points),
    {
        self.border_reaches(c) || self.contains_point(&c.center)
    }

    /// Tells whether the circle `c` lies inside the polygon and apart from its border.
    pub fn holds_circle(&self, c: &Circle) -> (r: bool)
        requires
            self.wf(),
            c.wf(),
        ensures
            r == circle_within(*c, self@.points),
    {
        !self.border_reaches(c) && self.contains_point(&c.center)
    }

    /// The side of the border on which `p` lies, and the distance from `p` to the
    /// border, rounded down.
    pub fn distance_from_border(&self, p: &Point) -> (r: (GeoPosition, u64))
        requires
            self.wf(),
            p.in_range(),
        ensures
            r.0 == polygon_position(self@.points, *p),
            r.1 as int == polygon_border_distance(self@.points, *p),
    {
        let n: usize = self.points.len();
        let mut touches: bool = false;
        let mut odd: bool = false;
        let mut least: u64 = 0x8000_0000_0000_0000;
        let mut k: usize = 0;
        while k < n
            invariant
                0 <= k <= n,
                self.wf(),
                p.in_range(),
                n == self.points@.len(),
                touches == (exists|j: int|
                    0 <= j < k && (#[trigger] polygon_edge(self.points@, j)).spec_contains(*p)),
                odd == (ray_crossings(self.points@, *p, k as int) % 2 == 1),
                least as int == min_sq_distance(self.points@, *p, k as int),
            decreases n - k,
        {
            let e: Edge = self.edge(k);
            if e.contains(p) {
                touches = true;
            }
            let straddles: bool = (e.start.1 > p.1) != (e.end.1 > p.1);
            if straddles {
                let c: i128 = cross_product(&e.start, &e.end, p);
                let crosses: bool = if e.end.1 > e.start.1 {
                    c > 0
                } else {
                    c < 0
                };
                if crosses {
                    odd = !odd;
                }
            }
            let here: u64 = e.sq_distance_to(p);
            if here < least {
                least = here;
            }
            k += 1;
        }
        let position = if touches || odd {
            GeoPosition::Interior
        } else {
            GeoPosition::Exterior
        };
        (position, integer_sqrt(least))
    }
}

/// The image of an edge of a ring is the edge of the images.
proof fn lemma_image_edge(t: Transformation, points: Seq<Point>, i: int)
    requires
        0 <= i < points.len(),
    ensures
        polygon_edge(t.images_of(points), i) == (Edge {
            start: t.image_of(polygon_edge(points, i).start),
            end: t.image_of(polygon_edge(points, i).end),
        }),
{
}

/// A transformation keeps the area of the fan of triangles.
proof fn lemma_transformation_keeps_area(t: Transformation, points: Seq<Point>, k: int)
    requires
        t.wf(),
        0 <= k <= points.len(),
        forall|i: int| 0 <= i < points.len() ==> t.keeps_in_range(#[trigger] points[i]),
    ensures
        fan_area(t.images_of(points), k) == fan_area(points, k),
    decreases k,
{
    if k > 0 {
        lemma_transformation_keeps_area(t, points, k - 1);
        let e = polygon_edge(points, k - 1);
        lemma_image_edge(t, points, k - 1);
        assert(t.keeps_in_range(points[0]) && t.keeps_in_range(e.start) && t.keeps_in_range(e.end));
        lemma_cross_is_kept(t, points[0], e.start, e.end);
    }
}

/// A transformation that keeps the vertices of a valid ring within coordinate range
/// makes a valid ring of them.
pub proof fn lemma_transformation_keeps_ring(t: Transformation, points: Seq<Point>)
    requires
        t.wf(),
        valid_ring(points),
        forall|i: int| 0 <= i < points.len() ==> t.keeps_in_range(#[trigger] points[i]),
    ensures
        valid_ring(t.images_of(points)),
        polygon_area2(t.images_of(points)) == polygon_area2(points),
{
    let images = t.images_of(points);
    lemma_transformation_keeps_area(t, points, points.len() as int);
    assert forall|i: int| 0 <= i < images.len() implies (#[trigger] images[i]).in_range() by {
        assert(t.keeps_in_range(points[i]));
    }
    assert forall|i: int, j: int| 0 <= i < j < images.len() implies #[trigger] edges_apart(
        images,
        i,
        j,
    ) by {
        let a = polygon_edge(points, i);
        let b = polygon_edge(points, j);
        assert(edges_apart(points, i, j));
        lemma_image_edge(t, points, i);
        lemma_image_edge(t, points, j);
        assert(t.keeps_in_range(a.start) && t.keeps_in_range(a.end));
        assert(t.keeps_in_range(b.start) && t.keeps_in_range(b.end));
        lemma_edge_predicates_are_kept(t, a, b);
    }
}

/// A ring of vertices has one bounding box only.
pub proof fn lemma_bounding_box_is_unique(points: Seq<Point>, a: AARectangle, b: AARectangle)
    requires
        is_bounding_box(points, a),
        is_bounding_box(points, b),
    ensures
        a == b,
{
    let i = choose|i: int| 0 <= i < points.len() && (#[trigger] points[i]).0 == a.x_min;
    assert(b.spec_contains(points[i]));
    let i = choose|i: int| 0 <= i < points.len() && (#[trigger] points[i]).0 == a.x_max;
    assert(b.spec_contains(points[i]));
    let i = choose|i: int| 0 <= i < points.len() && (#[trigger] points[i]).1 == a.y_min;
    assert(b.spec_contains(points[i]));
    let i = choose|i: int| 0 <= i < points.len() && (#[trigger] points[i]).1 == a.y_max;
    assert(b.spec_contains(points[i]));
    let i = choose|i: int| 0 <= i < points.len() && (#[trigger] points[i]).0 == b.x_min;
    assert(a.spec_contains(points[i]));
    let i = choose|i: int| 0 <= i < points.len() && (#[trigger] points[i]).0 == b.x_max;
    assert(a.spec_contains(points[i]));
    let i = choose|i: int| 0 <= i < points.len() && (#[trigger] points[i]).1 == b.y_min;
    assert(a.spec_contains(points[i]));
    let i = choose|i: int| 0 <= i < points.len() && (#[trigger] points[i]).1 == b.y_max;
    assert(a.spec_contains(points[i]));
}

/// The bounding box of a ring of vertices.
pub open spec fn bounding_box_of(points: Seq<Point>) -> AARectangle {
    choose|bbox: AARectangle| is_bounding_box(points, bbox)
}

/// The bounding box that a well-formed polygon holds is that of its vertices.
pub proof fn lemma_bbox_is_bounding_box_of(polygon: PolygonView)
    requires
        polygon.wf(),
    ensures
        polygon.bbox == bounding_box_of(polygon.points),
{
    lemma_bounding_box_is_unique(polygon.points, polygon.bbox, bounding_box_of(polygon.points));
}

} // verus!
