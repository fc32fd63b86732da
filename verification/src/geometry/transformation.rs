//! Rigid transformations of the lattice: rotations by quarter turns about the origin,
//! followed by translations.

use vstd::prelude::*;
use crate::geometry::d_transformation::DTransformation;
use crate::geometry::edge::{cross, in_box, Edge};
use crate::geometry::point::{Point, MAX_COORD};

verus! {

/// Largest absolute value of a component of a translation: the farthest that a point
/// in range can be from another along an axis.
pub const MAX_TRANSLATION: i64 = 2_147_483_648;

/// `rotation` quarter turns, as a number of quarter turns from 0 to 3.
pub open spec fn spec_normalize(rotation: int) -> int {
    rotation % 4
}

/// Brings a number of quarter turns, of either sign, to a number from 0 to 3.
pub fn normalize(rotation: i64) -> (r: u8)
    ensures
        r as int == spec_normalize(rotation as int),
        r < 4,
{
    if rotation >= 0 {
        (rotation % 4) as u8
    } else {
        let beyond: i64 = -(rotation + 1);
        (3 - beyond % 4) as u8
    }
}

/// A rigid transformation in applied form: a rotation by a number of quarter turns,
/// counter-clockwise about the origin, followed by a translation. It stands for the
/// matrix with the rows `(cos, -sin, tx)` and `(sin, cos, ty)`.
#[derive(Clone, Copy, Debug, PartialEq, Eq, Hash, Structural)]
pub struct Transformation {
    pub quarter_turns: u8,
    pub tx: i64,
    pub ty: i64,
}

impl Transformation {
    /// The number of quarter turns is below four and the translation is within
    /// `MAX_TRANSLATION`.
    pub open spec fn wf(self) -> bool {
        &&& self.quarter_turns < 4
        &&& -MAX_TRANSLATION <= self.tx <= MAX_TRANSLATION
        &&& -MAX_TRANSLATION <= self.ty <= MAX_TRANSLATION
    }

    /// The cosine of the rotation.
    pub open spec fn spec_cos(self) -> int {
        if self.quarter_turns == 0 {
            1
        } else if self.quarter_turns == 2 {
            -1
        } else {
            0
        }
    }

    /// The sine of the rotation.
    pub open spec fn spec_sin(self) -> int {
        if self.quarter_turns == 1 {
            1
        } else if self.quarter_turns == 3 {
            -1
        } else {
            0
        }
    }

    /// The image of the point `(x, y)`.
    pub open spec fn spec_apply(self, x: int, y: int) -> (int, int) {
        if self.quarter_turns == 0 {
            (x + self.tx, y + self.ty)
        } else if self.quarter_turns == 1 {
            (-y + self.tx, x + self.ty)
        } else if self.quarter_turns == 2 {
            (-x + self.tx, -y + self.ty)
        } else {
            (y + self.tx, -x + self.ty)
        }
    }

    /// The image of `p` lies within coordinate range.
    pub open spec fn keeps_in_range(self, p: Point) -> bool {
        let image = self.spec_apply(p.0 as int, p.1 as int);
        &&& -MAX_COORD <= image.0 <= MAX_COORD
        &&& -MAX_COORD <= image.1 <= MAX_COORD
    }

    /// The image of `p`, where it lies within coordinate range.
    pub open spec fn image_of(self, p: Point) -> Point {
        let image = self.spec_apply(p.0 as int, p.1 as int);
        Point(image.0 as i64, image.1 as i64)
    }

    /// The images of the points of a sequence.
    pub open spec fn images_of(self, points: Seq<Point>) -> Seq<Point> {
        Seq::new(points.len(), |i: int| self.image_of(points[i]))
    }

    /// The transformation that first applies `self` and then `other`.
    pub open spec fn spec_then(self, other: Transformation) -> Transformation {
        let moved = other.spec_apply(self.tx as int, self.ty as int);
        Transformation {
            quarter_turns: ((self.quarter_turns + other.quarter_turns) % 4) as u8,
            tx: moved.0 as i64,
            ty: moved.1 as i64,
        }
    }

    /// The transformation that undoes `self`.
    pub open spec fn spec_inverse(self) -> Transformation {
        let back = Transformation {
            quarter_turns: ((4 - self.quarter_turns) % 4) as u8,
            tx: 0,
            ty: 0,
        };
        let moved = back.spec_apply(-self.tx, -self.ty);
        Transformation { quarter_turns: back.quarter_turns, tx: moved.0 as i64, ty: moved.1 as i64 }
    }

    /// Tells whether the transformation is well formed.
    pub fn is_valid(&self) -> (r: bool)
        ensures
            r == self.wf(),
    {
        self.quarter_turns < 4 && -MAX_TRANSLATION <= self.tx && self.tx <= MAX_TRANSLATION
            && -MAX_TRANSLATION <= self.ty && self.ty <= MAX_TRANSLATION
    }

    /// The transformation that moves nothing.
    pub fn empty() -> (r: Transformation)
        ensures
            r == (Transformation { quarter_turns: 0, tx: 0, ty: 0 }),
            r.wf(),
    {
        Transformation { quarter_turns: 0, tx: 0, ty: 0 }
    }

    /// The rotation by `rotation` quarter turns, counter-clockwise for a positive
    /// number.
    pub fn from_rotation(rotation: i64) -> (r: Transformation)
        ensures
            r == (Transformation {
                quarter_turns: spec_normalize(rotation as int) as u8,
                tx: 0,
                ty: 0,
            }),
            r.wf(),
    {
        Transformation { quarter_turns: normalize(rotation), tx: 0, ty: 0 }
    }

    /// The translation by `translation`, if it is within `MAX_TRANSLATION`.
    pub fn from_translation(translation: (i64, i64)) -> (r: Option<Transformation>)
        ensures
            r == Transformation::empty_spec().spec_translate(translation.0, translation.1),
    {
        Transformation::empty().translate(translation)
    }

    /// The transformation that moves nothing.
    pub open spec fn empty_spec() -> Transformation {
        Transformation { quarter_turns: 0, tx: 0, ty: 0 }
    }

    /// This transformation followed by the translation by `(dx, dy)`, if its
    /// translation stays within `MAX_TRANSLATION`.
    pub open spec fn spec_translate(self, dx: i64, dy: i64) -> Option<Transformation> {
        let moved = Transformation { tx: (self.tx + dx) as i64, ty: (self.ty + dy) as i64, ..self };
        if -MAX_TRANSLATION <= self.tx + dx <= MAX_TRANSLATION && -MAX_TRANSLATION <= self.ty + dy
            <= MAX_TRANSLATION {
            Some(moved)
        } else {
            None
        }
    }

    /// The transformation that the decomposed form `dt` stands for.
    pub fn from_dt(dt: &DTransformation) -> (r: Transformation)
        requires
            dt.wf(),
        ensures
            r == dt.spec_compose(),
            r.wf(),
    {
        Transformation {
            quarter_turns: normalize(dt.rotation),
            tx: dt.translation_x,
            ty: dt.translation_y,
        }
    }

    /// This transformation followed by a rotation by `rotation` quarter turns.
    pub fn rotate(self, rotation: i64) -> (r: Transformation)
        requires
            self.wf(),
        ensures
            r == self.spec_then(
                Transformation { quarter_turns: spec_normalize(rotation as int) as u8, tx: 0, ty: 0 },
            ),
            r.wf(),
    {
        let turn: u8 = normalize(rotation);
        let (tx, ty) = if turn == 0 {
            (self.tx, self.ty)
        } else if turn == 1 {
            (-self.ty, self.tx)
        } else if turn == 2 {
            (-self.tx, -self.ty)
        } else {
            (self.ty, -self.tx)
        };
        Transformation { quarter_turns: (self.quarter_turns + turn) % 4, tx, ty }
    }

    /// This transformation followed by the translation by `translation`, if its
    /// translation stays within `MAX_TRANSLATION`.
    pub fn translate(self, translation: (i64, i64)) -> (r: Option<Transformation>)
        requires
            self.wf(),
        ensures
            r == self.spec_translate(translation.0, translation.1),
            r matches Some(t) ==> t.wf(),
    {
        let tx: i128 = self.tx as i128 + translation.0 as i128;
        let ty: i128 = self.ty as i128 + translation.1 as i128;
        if -(MAX_TRANSLATION as i128) <= tx && tx <= MAX_TRANSLATION as i128 && -(
        MAX_TRANSLATION as i128) <= ty && ty <= MAX_TRANSLATION as i128 {
            Some(Transformation { quarter_turns: self.quarter_turns, tx: tx as i64, ty: ty as i64 })
        } else {
            None
        }
    }

    /// This transformation followed by `other`, if its translation stays within
    /// `MAX_TRANSLATION`.
    pub fn transform(self, other: &Transformation) -> (r: Option<Transformation>)
        requires
            self.wf(),
            other.wf(),
        ensures
            r.is_some() == self.spec_then(*other).wf(),
            r matches Some(t) ==> t == self.spec_then(*other),
    {
        let turned: Transformation = self.rotate(other.quarter_turns as i64);
        let ghost pure = Transformation { quarter_turns: other.quarter_turns, tx: 0, ty: 0 };
        assert(spec_normalize(other.quarter_turns as int) == other.quarter_turns);
        assert(turned == self.spec_then(pure));
        match turned.translate((other.tx, other.ty)) {
            Some(t) => {
                assert(t == self.spec_then(*other));
                Some(t)
            },
            None => None,
        }
    }

    /// The transformation that undoes this one.
    pub fn inverse(self) -> (r: Transformation)
        requires
            self.wf(),
        ensures
            r == self.spec_inverse(),
            r.wf(),
    {
        let back: u8 = (4 - self.quarter_turns) % 4;
        let (tx, ty) = if back == 0 {
            (-self.tx, -self.ty)
        } else if back == 1 {
            (self.ty, -self.tx)
        } else if back == 2 {
            (self.tx, self.ty)
        } else {
            (-self.ty, self.tx)
        };
        Transformation { quarter_turns: back, tx, ty }
    }

    /// The decomposed form: the number of quarter turns, from 0 to 3, and the
    /// translation.
    pub fn decompose(&self) -> (r: DTransformation)
        ensures
            r == self.spec_decompose(),
    {
        DTransformation {
            rotation: self.quarter_turns as i64,
            translation_x: self.tx,
            translation_y: self.ty,
        }
    }

    /// The decomposed form.
    pub open spec fn spec_decompose(self) -> DTransformation {
        DTransformation {
            rotation: self.quarter_turns as i64,
            translation_x: self.tx,
            translation_y: self.ty,
        }
    }

    /// The two rows of the matrix: `(cos, -sin, tx)` and `(sin, cos, ty)`.
    pub fn matrix(&self) -> (r: [[i64; 3]; 2])
        requires
            self.wf(),
        ensures
            r@[0]@ == seq![self.spec_cos() as i64, (-self.spec_sin()) as i64, self.tx],
            r@[1]@ == seq![self.spec_sin() as i64, self.spec_cos() as i64, self.ty],
    {
        let (cos, sin): (i64, i64) = if self.quarter_turns == 0 {
            (1, 0)
        } else if self.quarter_turns == 1 {
            (0, 1)
        } else if self.quarter_turns == 2 {
            (-1, 0)
        } else {
            (0, -1)
        };
        let minus_sin: i64 = -sin;
        let first: [i64; 3] = [cos, minus_sin, self.tx];
        let second: [i64; 3] = [sin, cos, self.ty];
        let rows: [[i64; 3]; 2] = [first, second];
        assert(first@ =~= seq![cos, minus_sin, self.tx]);
        assert(second@ =~= seq![sin, cos, self.ty]);
        rows
    }

    /// The image of `p`, if it lies within coordinate range.
    pub fn transform_point(&self, p: &Point) -> (r: Option<Point>)
        requires
            self.wf(),
        ensures
            r.is_some() == self.keeps_in_range(*p),
            r matches Some(image) ==> image == self.image_of(*p) && image.in_range(),
    {
        let x: i128 = p.0 as i128;
        let y: i128 = p.1 as i128;
        let tx: i128 = self.tx as i128;
        let ty: i128 = self.ty as i128;
        let (ix, iy): (i128, i128) = if self.quarter_turns == 0 {
            (x + tx, y + ty)
        } else if self.quarter_turns == 1 {
            (-y + tx, x + ty)
        } else if self.quarter_turns == 2 {
            (-x + tx, -y + ty)
        } else {
            (y + tx, -x + ty)
        };
        let limit: i128 = MAX_COORD as i128;
        if -limit <= ix && ix <= limit && -limit <= iy && iy <= limit {
            Some(Point(ix as i64, iy as i64))
        } else {
            None
        }
    }
}

impl DTransformation {
    /// The transformation that this decomposed form stands for: the rotation, brought
    /// to a number of quarter turns from 0 to 3, followed by the translation.
    pub open spec fn spec_compose(self) -> Transformation {
        Transformation {
            quarter_turns: spec_normalize(self.rotation as int) as u8,
            tx: self.translation_x,
            ty: self.translation_y,
        }
    }

    /// The translation is within `MAX_TRANSLATION`.
    pub open spec fn wf(self) -> bool {
        &&& -MAX_TRANSLATION <= self.translation_x <= MAX_TRANSLATION
        &&& -MAX_TRANSLATION <= self.translation_y <= MAX_TRANSLATION
    }

    /// Tells whether the translation is within `MAX_TRANSLATION`.
    pub fn is_valid(&self) -> (r: bool)
        ensures
            r == self.wf(),
    {
        -MAX_TRANSLATION <= self.translation_x && self.translation_x <= MAX_TRANSLATION
            && -MAX_TRANSLATION <= self.translation_y && self.translation_y <= MAX_TRANSLATION
    }

    /// The transformation in applied form.
    pub fn compose(&self) -> (r: Transformation)
        requires
            self.wf(),
        ensures
            r == self.spec_compose(),
            r.wf(),
    {
        Transformation::from_dt(self)
    }
}

impl From<Transformation> for DTransformation {
    /// The decomposed form of a transformation.
    fn from(t: Transformation) -> (r: DTransformation) {
        t.decompose()
    }
}

impl vstd::std_specs::convert::FromSpecImpl<Transformation> for DTransformation {
    open spec fn obeys_from_spec() -> bool {
        true
    }

    open spec fn from_spec(t: Transformation) -> DTransformation {
        t.spec_decompose()
    }
}

/// The image of a point is the product of the matrix with the point.
pub proof fn lemma_apply_is_matrix_product(t: Transformation, x: int, y: int)
    requires
        t.wf(),
    ensures
        t.spec_apply(x, y) == (
            t.spec_cos() * x - t.spec_sin() * y + t.tx,
            t.spec_sin() * x + t.spec_cos() * y + t.ty,
        ),
{
}

/// Transformations compose: the image under `a` followed by `b` is the image under
/// `b` of the image under `a`.
pub proof fn lemma_then_applies_in_turn(a: Transformation, b: Transformation, x: int, y: int)
    requires
        a.wf(),
        b.wf(),
        a.spec_then(b).wf(),
    ensures
        a.spec_then(b).spec_apply(x, y) == b.spec_apply(a.spec_apply(x, y).0, a.spec_apply(x, y).1),
{
}

/// The inverse undoes a transformation, and is undone by it.
pub proof fn lemma_inverse_undoes(t: Transformation, x: int, y: int)
    requires
        t.wf(),
    ensures
        t.spec_inverse().wf(),
        t.spec_inverse().spec_apply(t.spec_apply(x, y).0, t.spec_apply(x, y).1) == (x, y),
        t.spec_apply(t.spec_inverse().spec_apply(x, y).0, t.spec_inverse().spec_apply(x, y).1) == (
            x,
            y,
        ),
{
}

/// A transformation is the one that its decomposed form stands for, and a decomposed
/// form with a rotation from 0 to 3 is that of the transformation it stands for.
pub proof fn lemma_decomposition_is_unique(t: Transformation, d: DTransformation)
    requires
        t.wf(),
        d.wf(),
    ensures
        t.spec_decompose().wf(),
        t.spec_decompose().spec_compose() == t,
        0 <= d.rotation < 4 ==> d.spec_compose().spec_decompose() == d,
        d.spec_compose().spec_decompose().spec_compose() == d.spec_compose(),
{
}

/// A transformation keeps the distances between points.
pub proof fn lemma_transformation_is_rigid(t: Transformation, p: Point, q: Point)
    requires
        t.wf(),
        t.keeps_in_range(p),
        t.keeps_in_range(q),
    ensures
        t.image_of(p).spec_sq_distance(t.image_of(q)) == p.spec_sq_distance(q),
{
    let dx = p.0 - q.0;
    let dy = p.1 - q.1;
    assert((-dx) * (-dx) == dx * dx) by (nonlinear_arith);
    assert((-dy) * (-dy) == dy * dy) by (nonlinear_arith);
    let a = t.image_of(p);
    let b = t.image_of(q);
    if t.quarter_turns == 0 {
        assert(a.0 - b.0 == dx && a.1 - b.1 == dy);
    } else if t.quarter_turns == 1 {
        assert(a.0 - b.0 == -dy && a.1 - b.1 == dx);
    } else if t.quarter_turns == 2 {
        assert(a.0 - b.0 == -dx && a.1 - b.1 == -dy);
    } else {
        assert(a.0 - b.0 == dy && a.1 - b.1 == -dx);
    }
}

/// A transformation keeps cross products, and with them the sense of a turn.
pub proof fn lemma_cross_is_kept(t: Transformation, a: Point, b: Point, c: Point)
    requires
        t.wf(),
        t.keeps_in_range(a),
        t.keeps_in_range(b),
        t.keeps_in_range(c),
    ensures
        cross(t.image_of(a), t.image_of(b), t.image_of(c)) == cross(a, b, c),
{
    let dx1 = b.0 - a.0;
    let dy1 = b.1 - a.1;
    let dx2 = c.0 - a.0;
    let dy2 = c.1 - a.1;
    let ia = t.image_of(a);
    let ib = t.image_of(b);
    let ic = t.image_of(c);
    let ex1 = ib.0 - ia.0;
    let ey1 = ib.1 - ia.1;
    let ex2 = ic.0 - ia.0;
    let ey2 = ic.1 - ia.1;
    assert(cross(a, b, c) == dx1 * dy2 - dy1 * dx2);
    assert(cross(ia, ib, ic) == ex1 * ey2 - ey1 * ex2);
    if t.quarter_turns == 0 {
        assert(ex1 == dx1 && ey1 == dy1 && ex2 == dx2 && ey2 == dy2);
    } else if t.quarter_turns == 1 {
        assert(ex1 == -dy1 && ey1 == dx1 && ex2 == -dy2 && ey2 == dx2);
        assert(ex1 * ey2 - ey1 * ex2 == dx1 * dy2 - dy1 * dx2) by (nonlinear_arith)
            requires
                ex1 == -dy1,
                ey1 == dx1,
                ex2 == -dy2,
                ey2 == dx2,
        ;
    } else if t.quarter_turns == 2 {
        assert(ex1 == -dx1 && ey1 == -dy1 && ex2 == -dx2 && ey2 == -dy2);
        assert(ex1 * ey2 - ey1 * ex2 == dx1 * dy2 - dy1 * dx2) by (nonlinear_arith)
            requires
                ex1 == -dx1,
                ey1 == -dy1,
                ex2 == -dx2,
                ey2 == -dy2,
        ;
    } else {
        assert(ex1 == dy1 && ey1 == -dx1 && ex2 == dy2 && ey2 == -dx2);
        assert(ex1 * ey2 - ey1 * ex2 == dx1 * dy2 - dy1 * dx2) by (nonlinear_arith)
            requires
                ex1 == dy1,
                ey1 == -dx1,
                ex2 == dy2,
                ey2 == -dx2,
        ;
    }
}

/// A transformation keeps a point in the box of two points in the box of their images.
pub proof fn lemma_in_box_is_kept(t: Transformation, a: Point, b: Point, p: Point)
    requires
        t.wf(),
        t.keeps_in_range(a),
        t.keeps_in_range(b),
        t.keeps_in_range(p),
    ensures
        in_box(t.image_of(a), t.image_of(b), t.image_of(p)) == in_box(a, b, p),
{
}

/// The image of an edge.
pub open spec fn image_of_edge(t: Transformation, e: Edge) -> Edge {
    Edge { start: t.image_of(e.start), end: t.image_of(e.end) }
}

/// A transformation keeps a point on an edge on the image of the edge.
pub proof fn lemma_contains_is_kept(t: Transformation, e: Edge, p: Point)
    requires
        t.wf(),
        t.keeps_in_range(e.start),
        t.keeps_in_range(e.end),
        t.keeps_in_range(p),
    ensures
        image_of_edge(t, e).spec_contains(t.image_of(p)) == e.spec_contains(p),
{
    lemma_cross_is_kept(t, e.start, e.end, p);
    lemma_in_box_is_kept(t, e.start, e.end, p);
}

/// A transformation keeps what two edges have in common: whether they meet, and
/// whether one holds an end of the other.
pub proof fn lemma_edge_predicates_are_kept(t: Transformation, a: Edge, b: Edge)
    requires
        t.wf(),
        t.keeps_in_range(a.start),
        t.keeps_in_range(a.end),
        t.keeps_in_range(b.start),
        t.keeps_in_range(b.end),
    ensures
        image_of_edge(t, a).spec_intersects(image_of_edge(t, b)) == a.spec_intersects(b),
        image_of_edge(t, a).spec_contains(t.image_of(b.start)) == a.spec_contains(b.start),
        image_of_edge(t, a).spec_contains(t.image_of(b.end)) == a.spec_contains(b.end),
        image_of_edge(t, b).spec_contains(t.image_of(a.start)) == b.spec_contains(a.start),
        image_of_edge(t, b).spec_contains(t.image_of(a.end)) == b.spec_contains(a.end),
{
    lemma_contains_is_kept(t, a, b.start);
    lemma_contains_is_kept(t, a, b.end);
    lemma_contains_is_kept(t, b, a.start);
    lemma_contains_is_kept(t, b, a.end);
    lemma_cross_is_kept(t, b.start, b.end, a.start);
    lemma_cross_is_kept(t, b.start, b.end, a.end);
    lemma_cross_is_kept(t, a.start, a.end, b.start);
    lemma_cross_is_kept(t, a.start, a.end, b.end);
}

} // verus!
