//! The bins that layouts are made in.

use vstd::prelude::*;
use crate::collision_detection::cd_engine::{CDEConfig, CDEView, CDEngine};
use crate::collision_detection::hazard::{hazard_views, Hazard, HazardView};
use crate::collision_detection::hazard_entity::HazardEntity;
use crate::collision_detection::hazard_proximity_grid::grid_fits;
use crate::error::CDEError;
use crate::geometry::aa_rectangle::AARectangle;
use crate::geometry::circle::Circle;
use crate::geometry::numeric::lemma_product_monotone;
use crate::geometry::point::{Point, MAX_COORD};
use crate::geometry::edge::{cross, Edge};
use crate::geometry::simple_polygon::{
    edges_apart,
    fan_area,
    polygon_area2,
    polygon_edge,
    valid_ring,
    PolygonView,
    SimplePolygon,
};
use crate::geometry::sp_surrogate::{SPSurrogate, SurrogateView};

verus! {

/// What a bin holds, as mathematical values.
pub struct BinView {
    pub id: usize,
    pub outer: PolygonView,
    /// The engine of the empty bin.
    pub base_cde: CDEView,
}

impl BinView {
    /// The engine is that of the empty bin: well formed, with the outer border as a
    /// static hazard and no dynamic hazard.
    pub open spec fn wf(self) -> bool {
        &&& self.outer.wf()
        &&& self.base_cde.wf()
        &&& self.base_cde.dynamic_hazards.len() == 0
        &&& self.base_cde.static_hazards.len() >= 1
        &&& self.base_cde.static_hazards[0] == (HazardView {
            entity: HazardEntity::BinOuter,
            shape: self.outer,
            active: true,
        })
    }
}

/// The corners of the strip of the given width and height, from the origin and
/// counter-clockwise.
pub open spec fn strip_corners(width: u64, height: u64) -> Seq<Point> {
    seq![
        Point(0, 0),
        Point(width as i64, 0),
        Point(width as i64, height as i64),
        Point(0, height as i64),
    ]
}

/// The bounding box of the strip of the given width and height.
pub open spec fn strip_bbox(width: u64, height: u64) -> AARectangle {
    AARectangle { x_min: 0, y_min: 0, x_max: width as i64, y_max: height as i64 }
}

/// The largest circle that fits into the strip and is centered in it.
pub open spec fn strip_pole(width: u64, height: u64) -> Circle {
    Circle {
        center: Point((width / 2) as i64, (height / 2) as i64),
        radius: if width < height {
            width / 2
        } else {
            height / 2
        },
    }
}

/// A strip of the given width and height can be made a bin of: both are at least one
/// and within coordinate range, and the grid that the configuration asks for can be
/// laid over it.
pub open spec fn strip_fits(width: u64, height: u64, config: CDEConfig) -> bool {
    &&& 1 <= width <= MAX_COORD
    &&& 1 <= height <= MAX_COORD
    &&& grid_fits(strip_bbox(width, height), config.hpg_n_cells_target)
}

/// A bin: the region that items are packed in, with the engine of its empty state.
#[derive(Debug)]
pub struct Bin {
    id: usize,
    outer: SimplePolygon,
    base_cde: CDEngine,
}

impl View for Bin {
    type V = BinView;

    closed spec fn view(&self) -> BinView {
        BinView { id: self.id, outer: self.outer@, base_cde: self.base_cde@ }
    }
}

impl Clone for Bin {
    /// A copy that holds the same values.
    fn clone(&self) -> (r: Bin)
        ensures
            r@ == self@,
    {
        Bin { id: self.id, outer: self.outer.clone(), base_cde: self.base_cde.clone() }
    }
}

impl Bin {
    pub open spec fn wf(&self) -> bool {
        self@.wf()
    }

    /// The bin that is a strip of the given width and height, with its lower left
    /// corner at the origin. Its surrogate is the largest circle centered in it.
    pub fn from_strip(id: usize, width: u64, height: u64, cde_config: CDEConfig) -> (r: Result<
        Bin,
        CDEError,
    >)
        ensures
            r.is_ok() == strip_fits(width, height, cde_config),
            r.is_err() ==> r.unwrap_err() == CDEError::InvalidInput,
            r.is_ok() ==> {
                let bin = r.unwrap()@;
                &&& bin.wf()
                &&& bin.id == id
                &&& bin.outer.points == strip_corners(width, height)
                &&& bin.outer.surrogate == (SurrogateView {
                    poles: seq![strip_pole(width, height)],
                    poles_bounding_circle: strip_pole(width, height),
                })
                &&& bin.base_cde.bbox == strip_bbox(width, height)
                &&& bin.base_cde.config == cde_config
                &&& bin.base_cde.static_hazards.len() == 1
            },
    {
        if width < 1 || width > MAX_COORD as u64 || height < 1 || height > MAX_COORD as u64 {
            return Err(CDEError::InvalidInput);
        }
        let pole = Circle {
            center: Point((width / 2) as i64, (height / 2) as i64),
            radius: if width < height {
                width / 2
            } else {
                height / 2
            },
        };
        let mut poles: Vec<Circle> = Vec::new();
        poles.push(pole);
        assert(poles@ =~= seq![pole]);
        let surrogate: SPSurrogate = match SPSurrogate::new(poles, pole) {
            Ok(surrogate) => surrogate,
            Err(e) => {
                assert(false);
                return Err(e);
            },
        };
        let mut corners: Vec<Point> = Vec::new();
        corners.push(Point(0, 0));
        corners.push(Point(width as i64, 0));
        corners.push(Point(width as i64, height as i64));
        corners.push(Point(0, height as i64));
        proof {
            assert(corners@ =~= strip_corners(width, height));
            lemma_strip_is_a_ring(width, height);
        }
        let outer: SimplePolygon = match SimplePolygon::new(corners, surrogate) {
            Ok(outer) => outer,
            Err(e) => {
                assert(false);
                return Err(e);
            },
        };
        let hazard: Hazard = match Hazard::new(HazardEntity::BinOuter, outer.clone()) {
            Ok(hazard) => hazard,
            Err(e) => {
                assert(false);
                return Err(e);
            },
        };
        let mut static_hazards: Vec<Hazard> = Vec::new();
        static_hazards.push(hazard);
        let bbox = AARectangle { x_min: 0, y_min: 0, x_max: width as i64, y_max: height as i64 };
        proof {
            assert(hazard_views(static_hazards@) =~= seq![hazard@]);
        }
        match CDEngine::new(bbox, static_hazards, cde_config) {
            Ok(base_cde) => Ok(Bin { id, outer, base_cde }),
            Err(e) => Err(e),
        }
    }

    pub fn id(&self) -> (r: usize)
        ensures
            r == self@.id,
    {
        self.id
    }

    /// The outer border of the bin.
    pub fn outer(&self) -> (r: &SimplePolygon)
        ensures
            r@ == self@.outer,
    {
        &self.outer
    }

    /// The engine of the empty bin.
    pub fn base_cde(&self) -> (r: &CDEngine)
        ensures
            r@ == self@.base_cde,
    {
        &self.base_cde
    }

    /// The bounding box of the bin.
    pub fn bbox(&self) -> (r: AARectangle)
        ensures
            r == self@.base_cde.bbox,
    {
        self.base_cde.bbox()
    }
}

/// The corners of a strip are the ring of a polygon of twice the area
/// `2 * width * height`.
pub proof fn lemma_strip_is_a_ring(width: u64, height: u64)
    requires
        1 <= width <= MAX_COORD,
        1 <= height <= MAX_COORD,
    ensures
        valid_ring(strip_corners(width, height)),
        polygon_area2(strip_corners(width, height)) == 2 * (width * height),
{
    let ring = strip_corners(width, height);
    let w = width as int;
    let h = height as int;
    let a = ring[0];
    let b = ring[1];
    let c = ring[2];
    let d = ring[3];
    let area = w * h;
    lemma_product_monotone(1, 1, w, h);
    assert(polygon_edge(ring, 0) == Edge { start: a, end: b });
    assert(polygon_edge(ring, 1) == Edge { start: b, end: c });
    assert(polygon_edge(ring, 2) == Edge { start: c, end: d });
    assert(polygon_edge(ring, 3) == Edge { start: d, end: a });
    lemma_strip_turns(w, h);
    lemma_corner_turn(a, b, c, w, 0, w, h, area);
    lemma_corner_turn(a, b, d, w, 0, 0, h, area);
    lemma_corner_turn(b, c, d, 0, h, -w, h, area);
    lemma_corner_turn(b, c, a, 0, h, -w, 0, area);
    lemma_corner_turn(c, d, a, -w, 0, -w, -h, area);
    lemma_corner_turn(c, d, b, -w, 0, 0, -h, area);
    lemma_corner_turn(d, a, b, 0, -h, w, -h, area);
    lemma_corner_turn(d, a, c, 0, -h, w, 0, area);
    lemma_corner_turn(a, c, d, w, h, 0, h, area);
    assert(cross(a, a, b) == 0) by (nonlinear_arith)
        requires
            cross(a, a, b) == 0 * (b.1 - a.1) - 0 * (b.0 - a.0),
    ;
    assert(cross(a, d, a) == 0) by (nonlinear_arith)
        requires
            cross(a, d, a) == (d.0 - a.0) * 0 - (d.1 - a.1) * 0,
    ;
    reveal_with_fuel(fan_area, 5);
    assert(fan_area(ring, 4) == 2 * area);
    assert forall|i: int, j: int| 0 <= i < j < ring.len() implies #[trigger] edges_apart(ring, i, j) by {
    }
}

/// The cross products of the sides and diagonals of a strip, taken counter-clockwise,
/// are its area.
proof fn lemma_strip_turns(w: int, h: int)
    by (nonlinear_arith)
    ensures
        w * h - 0 * w == w * h,
        w * h - 0 * 0 == w * h,
        0 * h - h * (-w) == w * h,
        0 * 0 - h * (-w) == w * h,
        (-w) * (-h) - 0 * (-w) == w * h,
        (-w) * (-h) - 0 * 0 == w * h,
        0 * (-h) - (-h) * w == w * h,
        0 * 0 - (-h) * w == w * h,
        w * h - h * 0 == w * h,
{
}

/// The cross product of two vectors that start at `p`, by their components, where it
/// is the area of the strip.
proof fn lemma_corner_turn(p: Point, q: Point, r: Point, ux: int, uy: int, vx: int, vy: int, area: int)
    requires
        q.0 - p.0 == ux,
        q.1 - p.1 == uy,
        r.0 - p.0 == vx,
        r.1 - p.1 == vy,
        ux * vy - uy * vx == area,
    ensures
        cross(p, q, r) == area,
{
}

} // verus!
