//! The cells of the hazard proximity grid.

use vstd::prelude::*;
use crate::collision_detection::hazard::{all_wf, hazard_views, Hazard, HazardView};
use crate::collision_detection::hazard_entity::HazardEntity;
use crate::collision_detection::proximity::{lemma_farthest, lemma_rank_injective, Proximity};
use crate::geometry::aa_rectangle::AARectangle;
use crate::geometry::circle::{
    lemma_position_agrees_with_distance,
    lemma_within_is_farther,
    Circle,
};
use crate::geometry::geo_enums::GeoPosition;
use crate::geometry::numeric::{lemma_product_bound, lemma_product_monotone};
use crate::geometry::point::Point;
use crate::geometry::simple_polygon::{polygon_border_distance, polygon_position};
use crate::geometry::sp_surrogate::SurrogateView;
use crate::N_QUALITIES;

verus! {

/// What the registration of a hazard did to a cell.
#[derive(Clone, Copy, Debug, PartialEq, Eq, Hash, Structural)]
pub enum HPCellUpdate {
    /// The hazard is now the closest one of the cell.
    Affected,
    /// The cell did not change.
    Unaffected,
    /// The cell did not change, and the hazard is so far off that no point of the
    /// cell is closer to it than the cell's center is to its closest hazard.
    Boundary,
}

/// The proximity of `p` to the circle `c`: the side by an exact test, the distance to
/// the border rounded down.
pub open spec fn circle_proximity(c: Circle, p: Point) -> Proximity {
    Proximity {
        position: c.spec_position_of(p),
        distance_from_border: c.spec_border_distance(p) as u64,
    }
}

/// The closest of the proximities of `p` to the first `k` of `poles`.
pub open spec fn poles_proximity_upto(poles: Seq<Circle>, p: Point, k: int) -> Proximity
    decreases k,
{
    if k <= 0 {
        Proximity::farthest()
    } else {
        poles_proximity_upto(poles, p, k - 1).spec_min(circle_proximity(poles[k - 1], p))
    }
}

/// The closest of the proximities of `p` to the circles of `poles`.
pub open spec fn poles_proximity(poles: Seq<Circle>, p: Point) -> Proximity {
    poles_proximity_upto(poles, p, poles.len() as int)
}

/// The proximity of `p` to a hazard that comes and goes, measured on the poles of its
/// surrogate.
pub open spec fn hazard_proximity(h: HazardView, p: Point) -> Proximity {
    poles_proximity(h.shape.surrogate.poles, p)
}

/// The proximity of `p` to the circle around the poles of a surrogate. It is never
/// farther than the proximity to the poles themselves.
pub open spec fn bounding_proximity(s: SurrogateView, p: Point) -> Proximity {
    circle_proximity(s.poles_bounding_circle, p)
}

/// The proximity of `p` to a hazard of the bin, measured on its polygon: inside the
/// hazard where `p` lies on the side of the polygon that the entity forbids.
pub open spec fn static_proximity(h: HazardView, p: Point) -> Proximity {
    Proximity {
        position: if polygon_position(h.shape.points, p) == h.entity.spec_presence() {
            GeoPosition::Interior
        } else {
            GeoPosition::Exterior
        },
        distance_from_border: polygon_border_distance(h.shape.points, p) as u64,
    }
}

/// The closest to `p` of the universal hazards among the first `k`, with its entity:
/// the first one in the sequence where several are equally close, and the bin's outer
/// border at the farthest proximity where there is none.
pub open spec fn closest_static(hazards: Seq<HazardView>, p: Point, k: int) -> (
    Proximity,
    HazardEntity,
)
    decreases k,
{
    if k <= 0 {
        (Proximity::farthest(), HazardEntity::BinOuter)
    } else {
        let rest = closest_static(hazards, p, k - 1);
        let h = hazards[k - 1];
        if h.entity.spec_universal() && static_proximity(h, p).closer_than(rest.0) {
            (static_proximity(h, p), h.entity)
        } else {
            rest
        }
    }
}

/// The closest of the proximities of `p` to the quality zones of class `quality`
/// among the first `k` hazards.
pub open spec fn closest_quality_zone(
    hazards: Seq<HazardView>,
    quality: int,
    p: Point,
    k: int,
) -> Proximity
    decreases k,
{
    if k <= 0 {
        Proximity::farthest()
    } else {
        let rest = closest_quality_zone(hazards, quality, p, k - 1);
        let h = hazards[k - 1];
        if h.entity matches HazardEntity::QualityZoneInferior { quality: q, .. } && q == quality {
            rest.spec_min(static_proximity(h, p))
        } else {
            rest
        }
    }
}

/// The closest of `base` and the proximities of `p` to the active hazards among the
/// first `k`.
pub open spec fn closest_proximity(
    base: Proximity,
    hazards: Seq<HazardView>,
    p: Point,
    k: int,
) -> Proximity
    decreases k,
{
    if k <= 0 {
        base
    } else {
        let rest = closest_proximity(base, hazards, p, k - 1);
        if hazards[k - 1].active {
            rest.spec_min(hazard_proximity(hazards[k - 1], p))
        } else {
            rest
        }
    }
}

/// The closest of `base` and the proximities of `p` to the active hazards.
pub open spec fn closest_of_all(base: Proximity, hazards: Seq<HazardView>, p: Point) -> Proximity {
    closest_proximity(base, hazards, p, hazards.len() as int)
}

/// `x` is as close as the proximity of `p` to `h`, or `h` is switched off.
pub open spec fn covers(x: Proximity, h: HazardView, p: Point) -> bool {
    h.active ==> x.as_close_as(hazard_proximity(h, p))
}

/// `x` is the proximity of `p` to `h`, and `h` is switched on.
pub open spec fn attained_at(x: Proximity, h: HazardView, p: Point) -> bool {
    h.active && x == hazard_proximity(h, p)
}

/// `x` is the least of `base` and the proximities of `p` to the active hazards among
/// the first `k`: as close as each of them, and one of them.
pub open spec fn is_closest(
    x: Proximity,
    base: Proximity,
    hazards: Seq<HazardView>,
    p: Point,
    k: int,
) -> bool {
    &&& x.as_close_as(base)
    &&& forall|i: int| 0 <= i < k ==> covers(x, #[trigger] hazards[i], p)
    &&& (x == base || exists|i: int| 0 <= i < k && attained_at(x, #[trigger] hazards[i], p))
}

/// The least index below `k` of a proximity on the inside, or `k` where there is none.
pub open spec fn first_interior(qz: Seq<Proximity>, k: int) -> int
    decreases k,
{
    if k <= 0 {
        0
    } else {
        let before = first_interior(qz, k - 1);
        if before < k - 1 {
            before
        } else if qz[k - 1].position == GeoPosition::Interior {
            k - 1
        } else {
            k
        }
    }
}

/// The value of a cell whose closest universal hazard is at `uni` and whose quality
/// zones are at `qz`: the square of the distance, scaled by `q / N_QUALITIES` where
/// the cell's center lies in a quality zone and `q` is the lowest class of such a
/// zone. The quotient is rounded down.
pub open spec fn cell_value(uni: Proximity, qz: Seq<Proximity>) -> int {
    let d = uni.distance_from_border as int;
    let q = first_interior(qz, qz.len() as int);
    if q < qz.len() {
        (d * d * q) / (N_QUALITIES as int)
    } else {
        d * d
    }
}

/// `x`, or the nearest bound of the 128-bit signed integers where `x` is beyond them.
pub open spec fn saturate(x: int) -> int {
    if x > i128::MAX {
        i128::MAX as int
    } else if x < i128::MIN {
        i128::MIN as int
    } else {
        x
    }
}

/// What a hazard at proximity `new` does to a cell of the given radius whose closest
/// hazard is at `current`, where it is not closer: nothing, and where its distance
/// exceeds the current one by more than the cell's diameter, nothing to the cells
/// beyond either.
pub open spec fn update_without_gain(new: Proximity, current: Proximity, radius: u64) -> HPCellUpdate {
    if new.distance_from_border > current.distance_from_border + 2 * radius {
        HPCellUpdate::Boundary
    } else {
        HPCellUpdate::Unaffected
    }
}

/// The closest of `base` and the first `k` proximities of `qz`.
pub open spec fn closest_with_zones(base: Proximity, qz: Seq<Proximity>, k: int) -> Proximity
    decreases k,
{
    if k <= 0 {
        base
    } else {
        closest_with_zones(base, qz, k - 1).spec_min(qz[k - 1])
    }
}

/// The list of hazards that a cell has to look at: for each active hazard among the
/// first `k`, in their order, its place and the proximity of `p` to the circle around
/// its poles.
pub open spec fn pending_of(hazards: Seq<HazardView>, p: Point, k: int) -> Seq<(usize, Proximity)>
    decreases k,
{
    if k <= 0 {
        Seq::empty()
    } else {
        let rest = pending_of(hazards, p, k - 1);
        if hazards[k - 1].active {
            rest.push(((k - 1) as usize, bounding_proximity(hazards[k - 1].shape.surrogate, p)))
        } else {
            rest
        }
    }
}

/// The place on the list of the closest bounding proximity among the first `k`
/// entries: the first one where several are equally close.
pub open spec fn first_closest(pending: Seq<(usize, Proximity)>, k: int) -> int
    decreases k,
{
    if k <= 1 {
        0
    } else {
        let best = first_closest(pending, k - 1);
        if pending[k - 1].1.closer_than(pending[best].1) {
            k - 1
        } else {
            best
        }
    }
}

/// The first of the closest entries is one of the entries.
pub proof fn lemma_first_closest_in_range(pending: Seq<(usize, Proximity)>, k: int)
    requires
        1 <= k,
    ensures
        0 <= first_closest(pending, k) < k,
    decreases k,
{
    if k > 1 {
        lemma_first_closest_in_range(pending, k - 1);
    }
}

/// What becomes of the closest hazard `current` of a cell with center `p` once the
/// hazards on the list are looked at. The entry with the closest bounding proximity is
/// taken off the list, the last entry taking its place, and its hazard takes the place
/// of `current` where it is strictly closer; this goes on until the list is empty or
/// its closest bounding proximity is farther than `current`.
pub open spec fn settled(
    pending: Seq<(usize, Proximity)>,
    current: (Proximity, HazardEntity),
    hazards: Seq<HazardView>,
    p: Point,
) -> (Proximity, HazardEntity)
    decreases pending.len(),
{
    if pending.len() == 0 {
        current
    } else {
        let best = first_closest(pending, pending.len() as int);
        let entry = pending[best];
        if current.0.closer_than(entry.1) {
            current
        } else {
            let h = hazards[entry.0 as int];
            let prox = hazard_proximity(h, p);
            let next = if prox.closer_than(current.0) {
                (prox, h.entity)
            } else {
                current
            };
            proof {
                lemma_first_closest_in_range(pending, pending.len() as int);
            }
            settled(pending.update(best, pending.last()).drop_last(), next, hazards, p)
        }
    }
}

/// Every active hazard of the sequence forbids its inside.
pub open spec fn all_active_forbid_inside(hazards: Seq<HazardView>) -> bool {
    forall|i: int|
        0 <= i < hazards.len() && (#[trigger] hazards[i]).active ==> hazards[i].entity.spec_presence()
            == GeoPosition::Interior
}

/// `after` is what becomes of the closest hazard `before` of a cell with center `p`
/// once the active hazards of `hazards` are accounted for: the proximity is the
/// closest of them all, and the entity is that of a hazard at that proximity. Where
/// the proximity stays, the entity stays; where several hazards are equally close,
/// the order in which the hazards are looked at decides.
pub open spec fn registered(
    before: (Proximity, HazardEntity),
    after: (Proximity, HazardEntity),
    hazards: Seq<HazardView>,
    p: Point,
) -> bool {
    &&& after == settled(pending_of(hazards, p, hazards.len() as int), before, hazards, p)
    &&& after.0 == closest_of_all(before.0, hazards, p)
    &&& if after.0 == before.0 {
        after == before
    } else {
        exists|i: int|
            0 <= i < hazards.len() && attained_at(after.0, #[trigger] hazards[i], p)
                && hazards[i].entity == after.1
    }
}

/// What a cell holds, as mathematical values.
pub struct HPCellView {
    pub bbox: AARectangle,
    pub centroid: Point,
    pub radius: u64,
    /// The closest universal hazard, static or dynamic, and its proximity.
    pub uni_haz_prox: (Proximity, HazardEntity),
    /// The closest universal static hazard, and its proximity.
    pub static_uni_haz_prox: (Proximity, HazardEntity),
    /// The proximity of the closest quality zone of each class.
    pub qz_haz_prox: Seq<Proximity>,
}

impl HPCellView {
    /// The center and the radius are those of the bounding box, and the closest
    /// universal hazard is at least as close as the closest static one.
    pub open spec fn wf(self) -> bool {
        &&& self.bbox.wf()
        &&& self.centroid == self.bbox.spec_centroid()
        &&& self.radius == self.bbox.spec_half_diagonal()
        &&& self.uni_haz_prox.0.as_close_as(self.static_uni_haz_prox.0)
        &&& self.qz_haz_prox.len() == N_QUALITIES
    }

    /// The cell accounts for its static hazards and for the active hazards of
    /// `dynamic`: its closest universal hazard is the closest of them, and is named
    /// by its entity.
    pub open spec fn tracks(self, dynamic: Seq<HazardView>) -> bool {
        &&& self.uni_haz_prox.0 == closest_of_all(
            self.static_uni_haz_prox.0,
            dynamic,
            self.centroid,
        )
        &&& (self.uni_haz_prox == self.static_uni_haz_prox || exists|i: int|
            0 <= i < dynamic.len() && attained_at(
                self.uni_haz_prox.0,
                #[trigger] dynamic[i],
                self.centroid,
            ) && dynamic[i].entity == self.uni_haz_prox.1)
    }
}

/// A cell of the hazard proximity grid: a square of the bin that remembers how close
/// its center is to the nearest hazard.
#[derive(Debug)]
pub struct HPCell {
    bbox: AARectangle,
    centroid: Point,
    radius: u64,
    uni_haz_prox: (Proximity, HazardEntity),
    static_uni_haz_prox: (Proximity, HazardEntity),
    qz_haz_prox: [Proximity; N_QUALITIES],
}

impl View for HPCell {
    type V = HPCellView;

    closed spec fn view(&self) -> HPCellView {
        HPCellView {
            bbox: self.bbox,
            centroid: self.centroid,
            radius: self.radius,
            uni_haz_prox: self.uni_haz_prox,
            static_uni_haz_prox: self.static_uni_haz_prox,
            qz_haz_prox: self.qz_haz_prox@,
        }
    }
}

impl Clone for HPCell {
    /// A copy that holds the same values.
    fn clone(&self) -> (r: HPCell)
        ensures
            r@ == self@,
    {
        HPCell {
            bbox: self.bbox,
            centroid: self.centroid,
            radius: self.radius,
            uni_haz_prox: self.uni_haz_prox,
            static_uni_haz_prox: self.static_uni_haz_prox,
            qz_haz_prox: self.qz_haz_prox,
        }
    }
}

/// The hazard at place `i` among the hazards handed in is on the list of those that a
/// cell still has to look at. An entry of the list holds the place of a hazard and the
/// proximity of the cell's center to the circle around its poles.
pub open spec fn is_pending(pending: Seq<(usize, Proximity)>, i: int) -> bool {
    exists|k: int| 0 <= k < pending.len() && (#[trigger] pending[k]).0 == i
}

/// Each entry of the list names an active hazard and holds its bounding proximity.
pub open spec fn pending_wf(
    pending: Seq<(usize, Proximity)>,
    hazards: Seq<HazardView>,
    p: Point,
) -> bool {
    forall|k: int|
        0 <= k < pending.len() ==> {
            let entry = #[trigger] pending[k];
            &&& entry.0 < hazards.len()
            &&& hazards[entry.0 as int].active
            &&& entry.1 == bounding_proximity(hazards[entry.0 as int].shape.surrogate, p)
        }
}

impl HPCell {
    pub open spec fn wf(&self) -> bool {
        self@.wf()
    }

    /// The cell with the given bounding box in a bin with the given static hazards.
    /// None of the hazards may be a placed item.
    pub fn new(bbox: AARectangle, static_hazards: &[Hazard]) -> (r: HPCell)
        requires
            bbox.wf(),
            all_wf(hazard_views(static_hazards@)),
            forall|i: int|
                0 <= i < static_hazards@.len() ==> !(#[trigger] static_hazards@[i])@.entity.spec_dynamic(),
        ensures
            r.wf(),
            r@.bbox == bbox,
            r@.static_uni_haz_prox == closest_static(
                hazard_views(static_hazards@),
                r@.centroid,
                static_hazards@.len() as int,
            ),
            r@.uni_haz_prox == r@.static_uni_haz_prox,
            forall|q: int|
                0 <= q < N_QUALITIES ==> #[trigger] r@.qz_haz_prox[q] == closest_quality_zone(
                    hazard_views(static_hazards@),
                    q,
                    r@.centroid,
                    static_hazards@.len() as int,
                ),
    {
        let centroid: Point = bbox.centroid();
        let radius: u64 = bbox.half_diagonal();
        let mut static_uni_haz_prox: (Proximity, HazardEntity) = (
            Proximity::default(),
            HazardEntity::BinOuter,
        );
        let mut qz_haz_prox: [Proximity; N_QUALITIES] = [Proximity::default();N_QUALITIES];
        let ghost views = hazard_views(static_hazards@);
        let n: usize = static_hazards.len();
        let mut i: usize = 0;
        while i < n
            invariant
                0 <= i <= n,
                n == static_hazards@.len(),
                views == hazard_views(static_hazards@),
                all_wf(views),
                forall|j: int|
                    0 <= j < static_hazards@.len() ==> !(#[trigger] static_hazards@[j])@.entity.spec_dynamic(),
                centroid.in_range(),
                static_uni_haz_prox == closest_static(views, centroid, i as int),
                forall|q: int|
                    0 <= q < N_QUALITIES ==> #[trigger] qz_haz_prox@[q] == closest_quality_zone(
                        views,
                        q,
                        centroid,
                        i as int,
                    ),
            decreases n - i,
        {
            let hazard: &Hazard = &static_hazards[i];
            assert(views[i as int] == hazard@);
            assert(views[i as int].wf());
            let (pos, distance) = hazard.shape().distance_from_border(&centroid);
            let prox: Proximity = if pos == hazard.entity().presence() {
                Proximity::new(GeoPosition::Interior, distance)
            } else {
                Proximity::new(GeoPosition::Exterior, distance)
            };
            assert(prox == static_proximity(hazard@, centroid));
            let ghost before = qz_haz_prox@;
            match hazard.entity() {
                HazardEntity::BinOuter | HazardEntity::BinHole { .. } => {
                    if prox.is_closer_than(&static_uni_haz_prox.0) {
                        static_uni_haz_prox = (prox, *hazard.entity());
                    }
                },
                HazardEntity::QualityZoneInferior { quality, .. } => {
                    let q: usize = *quality;
                    let closest: Proximity = qz_haz_prox[q].min(prox);
                    qz_haz_prox[q] = closest;
                },
                HazardEntity::PlacedItem { .. } => {
                    assert(static_hazards@[i as int]@.entity.spec_dynamic());
                },
            }
            assert forall|q: int| 0 <= q < N_QUALITIES implies #[trigger] qz_haz_prox@[q]
                == closest_quality_zone(views, q, centroid, i as int + 1) by {
                assert(before[q] == closest_quality_zone(views, q, centroid, i as int));
            }
            i += 1;
        }
        HPCell {
            bbox,
            centroid,
            radius,
            uni_haz_prox: static_uni_haz_prox,
            static_uni_haz_prox,
            qz_haz_prox,
        }
    }

    /// Accounts for one more hazard whose inside is forbidden: where the hazard is
    /// closer to the cell's center than the closest so far, it takes that place.
    pub fn register_hazard(&mut self, to_register: &Hazard) -> (r: HPCellUpdate)
        requires
            old(self).wf(),
            to_register.wf(),
            to_register@.entity.spec_presence() == GeoPosition::Interior,
        ensures
            final(self).wf(),
            hazard_proximity(to_register@, old(self)@.centroid).closer_than(
                old(self)@.uni_haz_prox.0,
            ) ==> r == HPCellUpdate::Affected && final(self)@ == (HPCellView {
                uni_haz_prox: (
                    hazard_proximity(to_register@, old(self)@.centroid),
                    to_register@.entity,
                ),
                ..old(self)@
            }),
            !hazard_proximity(to_register@, old(self)@.centroid).closer_than(
                old(self)@.uni_haz_prox.0,
            ) ==> final(self)@ == old(self)@ && r == update_without_gain(
                hazard_proximity(to_register@, old(self)@.centroid),
                old(self)@.uni_haz_prox.0,
                old(self)@.radius,
            ),
    {
        let current_prox: Proximity = self.uni_haz_prox.0;
        let haz_prox: Proximity = distance_to_surrogate_poles_border(
            self,
            to_register.shape().surrogate().poles().as_slice(),
        );
        if haz_prox.is_closer_than(&current_prox) {
            self.uni_haz_prox = (haz_prox, *to_register.entity());
            HPCellUpdate::Affected
        } else if haz_prox.distance_from_border as u128 > current_prox.distance_from_border as u128
            + 2 * (self.radius as u128) {
            HPCellUpdate::Boundary
        } else {
            HPCellUpdate::Unaffected
        }
    }

    /// Accounts for the active hazards of `to_register`, all of which forbid their
    /// inside. The hazards are looked at in the order of the proximity of the cell's
    /// center to the circles around their poles; the first one whose circle is
    /// farther than the closest hazard so far ends the work, since no hazard is
    /// closer than its circle.
    pub fn register_hazards(&mut self, to_register: &[Hazard])
        requires
            old(self).wf(),
            all_wf(hazard_views(to_register@)),
            all_active_forbid_inside(hazard_views(to_register@)),
        ensures
            final(self).wf(),
            final(self)@ == (HPCellView {
                uni_haz_prox: final(self)@.uni_haz_prox,
                ..old(self)@
            }),
            registered(
                old(self)@.uni_haz_prox,
                final(self)@.uni_haz_prox,
                hazard_views(to_register@),
                old(self)@.centroid,
            ),
    {
        let ghost views = hazard_views(to_register@);
        let ghost base = self@.uni_haz_prox;
        let ghost center = self@.centroid;
        let n: usize = to_register.len();
        let mut pending: Vec<(usize, Proximity)> = Vec::new();
        let mut i: usize = 0;
        while i < n
            invariant
                0 <= i <= n,
                n == to_register@.len(),
                views == hazard_views(to_register@),
                all_wf(views),
                self.wf(),
                self@ == old(self)@,
                center == self@.centroid,
                pending_wf(pending@, views, center),
                pending@ == pending_of(views, center, i as int),
                forall|j: int| 0 <= j < i && (#[trigger] views[j]).active ==> is_pending(pending@, j),
            decreases n - i,
        {
            let haz: &Hazard = &to_register[i];
            assert(views[i as int] == haz@);
            assert(views[i as int].wf());
            if haz.is_active() {
                let circle: Circle = haz.shape().surrogate().poles_bounding_circle();
                let (pos, dist) = circle.distance_from_border(&self.centroid);
                let ghost before = pending@;
                pending.push((i, Proximity::new(pos, dist)));
                proof {
                    assert forall|j: int| 0 <= j < i + 1 && (#[trigger] views[j]).active implies is_pending(
                        pending@,
                        j,
                    ) by {
                        if j < i {
                            let k = choose|k: int| 0 <= k < before.len() && (#[trigger] before[k]).0 == j;
                            assert(pending@[k] == before[k]);
                        } else {
                            assert(pending@[before.len() as int].0 == j);
                        }
                    }
                    assert forall|k: int| 0 <= k < pending@.len() implies ({
                        let entry = #[trigger] pending@[k];
                        &&& entry.0 < views.len()
                        &&& views[entry.0 as int].active
                        &&& entry.1 == bounding_proximity(views[entry.0 as int].shape.surrogate, center)
                    }) by {
                        if k < before.len() {
                            assert(pending@[k] == before[k]);
                        }
                    }
                }
            }
            i += 1;
        }
        let ghost goal = settled(pending@, base, views, center);
        while pending.len() > 0
            invariant
                settled(pending@, self@.uni_haz_prox, views, center) == goal,
                n == to_register@.len(),
                views == hazard_views(to_register@),
                all_wf(views),
                all_active_forbid_inside(views),
                self.wf(),
                self@ == (HPCellView { uni_haz_prox: self@.uni_haz_prox, ..old(self)@ }),
                center == self@.centroid,
                base == old(self)@.uni_haz_prox,
                pending_wf(pending@, views, center),
                self@.uni_haz_prox.0.as_close_as(base.0),
                if self@.uni_haz_prox.0 == base.0 {
                    self@.uni_haz_prox == base
                } else {
                    exists|j: int|
                        0 <= j < views.len() && attained_at(
                            self@.uni_haz_prox.0,
                            #[trigger] views[j],
                            center,
                        ) && views[j].entity == self@.uni_haz_prox.1
                },
                forall|j: int|
                    0 <= j < n ==> covers(self@.uni_haz_prox.0, #[trigger] views[j], center)
                        || is_pending(pending@, j),
            ensures
                self@.uni_haz_prox == goal,
                forall|j: int| 0 <= j < n ==> covers(self@.uni_haz_prox.0, #[trigger] views[j], center),
            decreases pending.len(),
        {
            let mut best: usize = 0;
            let mut k: usize = 1;
            while k < pending.len()
                invariant
                    0 <= best < k <= pending.len(),
                    best as int == first_closest(pending@, k as int),
                    forall|j: int|
                        0 <= j < k ==> pending@[best as int].1.as_close_as((#[trigger] pending@[j]).1),
                decreases pending.len() - k,
            {
                if pending[k].1.is_closer_than(&pending[best].1) {
                    best = k;
                }
                k += 1;
            }
            let entry: (usize, Proximity) = pending[best];
            let index: usize = entry.0;
            let bounding_prox: Proximity = entry.1;
            let current_proximity: Proximity = self.uni_haz_prox.0;
            assert(pending@[best as int] == entry);
            if !current_proximity.is_closer_than(&bounding_prox) {
                assert(views[index as int] == to_register@[index as int]@);
                assert(views[index as int].wf());
                let ghost uni_before = self@.uni_haz_prox;
                let ghost pending_before = pending@;
                self.register_hazard(&to_register[index]);
                pending.swap_remove(best);
                proof {
                    let last = pending_before.len() - 1;
                    assert(pending@ == pending_before.update(best as int, pending_before.last()).drop_last());
                    assert(settled(pending_before, uni_before, views, center) == settled(
                        pending@,
                        self@.uni_haz_prox,
                        views,
                        center,
                    ));
                    assert forall|j: int| 0 <= j < n implies covers(
                        self@.uni_haz_prox.0,
                        #[trigger] views[j],
                        center,
                    ) || is_pending(pending@, j) by {
                        if j == index {
                        } else if covers(uni_before.0, views[j], center) {
                        } else {
                            let k = choose|k: int|
                                0 <= k < pending_before.len() && (#[trigger] pending_before[k]).0 == j;
                            let moved = if k == last {
                                best as int
                            } else {
                                k
                            };
                            assert(pending@[moved] == pending_before[k]);
                        }
                    }
                    assert forall|k: int| 0 <= k < pending@.len() implies ({
                        let entry = #[trigger] pending@[k];
                        &&& entry.0 < views.len()
                        &&& views[entry.0 as int].active
                        &&& entry.1 == bounding_proximity(views[entry.0 as int].shape.surrogate, center)
                    }) by {
                        let from = if k == best {
                            last
                        } else {
                            k
                        };
                        assert(pending@[k] == pending_before[from]);
                    }
                }
            } else {
                proof {
                    assert forall|j: int| 0 <= j < n implies covers(
                        self@.uni_haz_prox.0,
                        #[trigger] views[j],
                        center,
                    ) by {
                        if !covers(self@.uni_haz_prox.0, views[j], center) {
                            let k = choose|k: int| 0 <= k < pending@.len() && (#[trigger] pending@[k]).0 == j;
                            assert(pending@[best as int].1.as_close_as(pending@[k].1));
                            assert(views[j].wf());
                            lemma_bounding_proximity(views[j].shape.surrogate, center);
                        }
                    }
                }
                break ;
            }
        }
        proof {
            lemma_closest_proximity_is_closest(base.0, views, center, n as int);
            lemma_closest_unique(
                self@.uni_haz_prox.0,
                closest_of_all(base.0, views, center),
                base.0,
                views,
                center,
                n as int,
            );
        }
    }

    /// Forgets the hazards named by `to_deregister`. Where the closest universal
    /// hazard of the cell is among them, the cell falls back on its closest static
    /// hazard and accounts anew for the active hazards of `remaining`.
    pub fn deregister_hazards(&mut self, to_deregister: &[HazardEntity], remaining: &[Hazard]) -> (r:
        HPCellUpdate)
        requires
            old(self).wf(),
            all_wf(hazard_views(remaining@)),
            all_active_forbid_inside(hazard_views(remaining@)),
        ensures
            final(self).wf(),
            final(self)@ == (HPCellView {
                uni_haz_prox: final(self)@.uni_haz_prox,
                ..old(self)@
            }),
            to_deregister@.contains(old(self)@.uni_haz_prox.1) ==> r == HPCellUpdate::Affected
                && registered(
                old(self)@.static_uni_haz_prox,
                final(self)@.uni_haz_prox,
                hazard_views(remaining@),
                old(self)@.centroid,
            ),
            !to_deregister@.contains(old(self)@.uni_haz_prox.1) ==> r == HPCellUpdate::Unaffected
                && final(self)@ == old(self)@,
    {
        if contains_entity(to_deregister, &self.uni_haz_prox.1) {
            self.uni_haz_prox = self.static_uni_haz_prox;
            self.register_hazards(remaining);
            HPCellUpdate::Affected
        } else {
            HPCellUpdate::Unaffected
        }
    }

    pub fn bbox(&self) -> (r: &AARectangle)
        ensures
            *r == self@.bbox,
    {
        &self.bbox
    }

    pub fn radius(&self) -> (r: u64)
        ensures
            r == self@.radius,
    {
        self.radius
    }

    pub fn centroid(&self) -> (r: Point)
        ensures
            r == self@.centroid,
    {
        self.centroid
    }

    /// The value of the cell: the room around its center, as an area.
    pub fn value(&self) -> (r: u128)
        ensures
            r as int == cell_value(self@.uni_haz_prox.0, self@.qz_haz_prox),
    {
        Self::calculate_value(self.uni_haz_prox.0, self.qz_haz_prox)
    }

    /// The value of a cell whose closest universal hazard is at `uni_haz_prox` and
    /// whose quality zones are at `qz_prox`.
    pub fn calculate_value(uni_haz_prox: Proximity, qz_prox: [Proximity; N_QUALITIES]) -> (r: u128)
        ensures
            r as int == cell_value(uni_haz_prox, qz_prox@),
    {
        let d: u128 = uni_haz_prox.distance_from_border as u128;
        proof {
            lemma_product_bound(d as int, d as int, 0xffff_ffff_ffff_ffff, 0xffff_ffff_ffff_ffff);
        }
        let value: u128 = d * d;
        let mut first: usize = 0;
        let mut q: usize = 0;
        while q < N_QUALITIES
            invariant
                0 <= first <= q <= N_QUALITIES,
                first as int == first_interior(qz_prox@, q as int),
            decreases N_QUALITIES - q,
        {
            if first == q && qz_prox[q].position != GeoPosition::Interior {
                first = q + 1;
            }
            q += 1;
        }
        if first < N_QUALITIES {
            let quality: u128 = first as u128;
            let whole: u128 = value / 10;
            let rest: u128 = value % 10;
            proof {
                lemma_product_monotone(whole as int, quality as int, whole as int, 9);
                lemma_product_monotone(rest as int, quality as int, 9, 9);
                lemma_scaled_quotient(value as int, quality as int);
            }
            whole * quality + (rest * quality) / 10
        } else {
            value
        }
    }

    /// What the cell would lose in value if a hazard at `new_hazard_proximity` were
    /// registered, and what the registration would do to the cell. The loss is the
    /// difference of the two values, held within the 128-bit signed integers; there is
    /// none where the hazard is not closer than the closest so far.
    pub fn value_loss(&self, new_hazard_proximity: Proximity) -> (r: (Option<i128>, HPCellUpdate))
        ensures
            new_hazard_proximity.closer_than(self@.uni_haz_prox.0) ==> r.1 == HPCellUpdate::Affected
                && r.0 == Some(
                saturate(
                    cell_value(self@.uni_haz_prox.0, self@.qz_haz_prox) - cell_value(
                        new_hazard_proximity,
                        self@.qz_haz_prox,
                    ),
                ) as i128,
            ),
            !new_hazard_proximity.closer_than(self@.uni_haz_prox.0) ==> r.0 is None && r.1
                == update_without_gain(
                new_hazard_proximity,
                self@.uni_haz_prox.0,
                self@.radius,
            ),
    {
        if new_hazard_proximity.is_closer_than(&self.uni_haz_prox.0) {
            let new_value: u128 = Self::calculate_value(new_hazard_proximity, self.qz_haz_prox);
            let value: u128 = self.value();
            let loss: i128 = if value >= new_value {
                let gap: u128 = value - new_value;
                if gap > i128::MAX as u128 {
                    i128::MAX
                } else {
                    gap as i128
                }
            } else {
                let gap: u128 = new_value - value;
                if gap > i128::MAX as u128 {
                    i128::MIN
                } else {
                    -(gap as i128)
                }
            };
            (Some(loss), HPCellUpdate::Affected)
        } else if new_hazard_proximity.distance_from_border as u128
            > self.uni_haz_prox.0.distance_from_border as u128 + 2 * (self.radius as u128) {
            (None, HPCellUpdate::Boundary)
        } else {
            (None, HPCellUpdate::Unaffected)
        }
    }

    /// The proximity of the closest hazard that concerns an item: the closest
    /// universal hazard and the quality zones of the classes below `quality_level`, or
    /// of all classes where no level is given.
    pub fn hazard_proximity(&self, quality_level: Option<usize>) -> (r: Proximity)
        requires
            quality_level matches Some(level) ==> level <= N_QUALITIES,
        ensures
            r == closest_with_zones(
                self@.uni_haz_prox.0,
                self@.qz_haz_prox,
                match quality_level {
                    Some(level) => level as int,
                    None => N_QUALITIES as int,
                },
            ),
    {
        let mut haz_prox: Proximity = self.uni_haz_prox.0;
        let relevant_qualities: usize = match quality_level {
            Some(level) => level,
            None => N_QUALITIES,
        };
        let mut quality: usize = 0;
        while quality < relevant_qualities
            invariant
                0 <= quality <= relevant_qualities <= N_QUALITIES,
                haz_prox == closest_with_zones(
                    self@.uni_haz_prox.0,
                    self@.qz_haz_prox,
                    quality as int,
                ),
            decreases relevant_qualities - quality,
        {
            haz_prox = haz_prox.min(self.qz_haz_prox[quality]);
            quality += 1;
        }
        haz_prox
    }

    /// The closest universal hazard, static or dynamic, and its proximity.
    pub fn universal_hazard_proximity(&self) -> (r: &(Proximity, HazardEntity))
        ensures
            *r == self@.uni_haz_prox,
    {
        &self.uni_haz_prox
    }

    /// The proximity of the closest universal static hazard.
    pub fn bin_haz_prox(&self) -> (r: Proximity)
        ensures
            r == self@.static_uni_haz_prox.0,
    {
        self.static_uni_haz_prox.0
    }

    /// The proximity of the closest quality zone of each class.
    pub fn qz_haz_prox(&self) -> (r: [Proximity; N_QUALITIES])
        ensures
            r@ == self@.qz_haz_prox,
    {
        self.qz_haz_prox
    }

    /// The closest universal static hazard, and its proximity.
    pub fn static_uni_haz_prox(&self) -> (r: &(Proximity, HazardEntity))
        ensures
            *r == self@.static_uni_haz_prox,
    {
        &self.static_uni_haz_prox
    }
}

/// The proximity of the center of `hp_cell` to the closest of `poles`.
pub fn distance_to_surrogate_poles_border(hp_cell: &HPCell, poles: &[Circle]) -> (r: Proximity)
    requires
        hp_cell.wf(),
        poles@.len() > 0,
        forall|i: int| 0 <= i < poles@.len() ==> (#[trigger] poles@[i]).wf(),
    ensures
        r == poles_proximity(poles@, hp_cell@.centroid),
{
    let centroid: Point = hp_cell.centroid;
    let mut closest: Proximity = Proximity::default();
    let mut i: usize = 0;
    while i < poles.len()
        invariant
            0 <= i <= poles@.len(),
            centroid.in_range(),
            forall|j: int| 0 <= j < poles@.len() ==> (#[trigger] poles@[j]).wf(),
            closest == poles_proximity_upto(poles@, centroid, i as int),
        decreases poles@.len() - i,
    {
        let (pos, dist) = poles[i].distance_from_border(&centroid);
        closest = closest.min(Proximity::new(pos, dist));
        i += 1;
    }
    closest
}

/// Tells whether `entity` is among `entities`. The search is that of
/// `itertools::Itertools::contains` on the entities in order, which compares by `==`;
/// the contract takes it that the answer is `true` exactly where an equal entity is
/// there.
#[verifier::external_body]
pub(crate) fn contains_entity(entities: &[HazardEntity], entity: &HazardEntity) -> (r: bool)
    ensures
        r == entities@.contains(*entity),
{
    itertools::Itertools::contains(&mut entities.iter(), entity)
}

/// Scaling by a quality class before dividing by ten is the same as scaling the
/// quotient and the remainder apart.
proof fn lemma_scaled_quotient(v: int, q: int)
    requires
        0 <= v,
        0 <= q,
    ensures
        (v * q) / 10 == (v / 10) * q + ((v % 10) * q) / 10,
{
    let whole = v / 10;
    let rest = v % 10;
    assert(v * q == 10 * (whole * q) + rest * q) by (nonlinear_arith)
        requires
            v == 10 * whole + rest,
    ;
}

/// The rank of the proximity to a circle is the signed distance to its border, less
/// one inside the circle.
pub proof fn lemma_circle_proximity_rank(c: Circle, p: Point)
    requires
        c.wf(),
        p.in_range(),
    ensures
        circle_proximity(c, p).rank() == c.spec_signed_distance(p) - if c.spec_position_of(p)
            == GeoPosition::Interior {
            1int
        } else {
            0int
        },
{
    lemma_position_agrees_with_distance(c, p);
}

/// The proximity to the first `k` poles is the proximity to one of them.
pub proof fn lemma_poles_proximity_attained(poles: Seq<Circle>, p: Point, k: int) -> (i: int)
    requires
        0 < k <= poles.len(),
    ensures
        0 <= i < k,
        poles_proximity_upto(poles, p, k) == circle_proximity(poles[i], p),
    decreases k,
{
    let here = circle_proximity(poles[k - 1], p);
    let rest = poles_proximity_upto(poles, p, k - 1);
    if k == 1 {
        lemma_farthest(here);
        if !here.closer_than(rest) {
            lemma_rank_injective(here, rest);
        }
        0
    } else {
        let j = lemma_poles_proximity_attained(poles, p, k - 1);
        if here.closer_than(rest) {
            k - 1
        } else {
            j
        }
    }
}

/// The proximity to the first `k` poles is as close as the proximity to each of them.
pub proof fn lemma_poles_proximity_least(poles: Seq<Circle>, p: Point, k: int, i: int)
    requires
        0 <= i < k <= poles.len(),
    ensures
        poles_proximity_upto(poles, p, k).as_close_as(circle_proximity(poles[i], p)),
    decreases k,
{
    if i < k - 1 {
        lemma_poles_proximity_least(poles, p, k - 1, i);
    }
}

/// The circle around the poles of a surrogate is at least as close to any point as the
/// poles are: what lies beyond the circle lies beyond every pole.
pub proof fn lemma_bounding_proximity(s: SurrogateView, p: Point)
    requires
        s.wf(),
        p.in_range(),
    ensures
        bounding_proximity(s, p).as_close_as(poles_proximity(s.poles, p)),
{
    let i = lemma_poles_proximity_attained(s.poles, p, s.poles.len() as int);
    assert(s.poles[i].wf() && s.poles[i].within(s.poles_bounding_circle));
    lemma_within_is_farther(s.poles[i], s.poles_bounding_circle, p);
    lemma_circle_proximity_rank(s.poles[i], p);
    lemma_circle_proximity_rank(s.poles_bounding_circle, p);
}

/// The closest of a base and the active hazards is as close as each of them, and is
/// one of them.
pub proof fn lemma_closest_proximity_is_closest(
    base: Proximity,
    hazards: Seq<HazardView>,
    p: Point,
    k: int,
)
    requires
        0 <= k <= hazards.len(),
    ensures
        is_closest(closest_proximity(base, hazards, p, k), base, hazards, p, k),
    decreases k,
{
    if k > 0 {
        lemma_closest_proximity_is_closest(base, hazards, p, k - 1);
        let rest = closest_proximity(base, hazards, p, k - 1);
        let x = closest_proximity(base, hazards, p, k);
        assert forall|i: int| 0 <= i < k implies covers(x, #[trigger] hazards[i], p) by {
            if i < k - 1 {
                assert(covers(rest, hazards[i], p));
            }
        }
        if x != base {
            if x == rest {
                let i = choose|i: int| 0 <= i < k - 1 && attained_at(rest, #[trigger] hazards[i], p);
                assert(attained_at(x, hazards[i], p));
            } else {
                assert(attained_at(x, hazards[k - 1], p));
            }
        }
    }
}

/// There is one closest proximity only.
pub proof fn lemma_closest_unique(
    x: Proximity,
    y: Proximity,
    base: Proximity,
    hazards: Seq<HazardView>,
    p: Point,
    k: int,
)
    requires
        is_closest(x, base, hazards, p, k),
        is_closest(y, base, hazards, p, k),
    ensures
        x == y,
{
    if y != base {
        let i = choose|i: int| 0 <= i < k && attained_at(y, #[trigger] hazards[i], p);
        assert(covers(x, hazards[i], p));
    }
    if x != base {
        let i = choose|i: int| 0 <= i < k && attained_at(x, #[trigger] hazards[i], p);
        assert(covers(y, hazards[i], p));
    }
    lemma_rank_injective(x, y);
}

/// The closest proximity among the first `k` hazards depends on those hazards only.
pub proof fn lemma_closest_prefix(
    base: Proximity,
    s1: Seq<HazardView>,
    s2: Seq<HazardView>,
    p: Point,
    k: int,
)
    requires
        0 <= k <= s1.len(),
        k <= s2.len(),
        forall|i: int| 0 <= i < k ==> s1[i] == s2[i],
    ensures
        closest_proximity(base, s1, p, k) == closest_proximity(base, s2, p, k),
    decreases k,
{
    if k > 0 {
        lemma_closest_prefix(base, s1, s2, p, k - 1);
    }
}

/// Accounting for two sequences of hazards one after the other is accounting for
/// both together.
pub proof fn lemma_closest_concat(
    base: Proximity,
    a: Seq<HazardView>,
    b: Seq<HazardView>,
    p: Point,
    k: int,
)
    requires
        0 <= k <= b.len(),
    ensures
        closest_proximity(base, a + b, p, a.len() + k) == closest_proximity(
            closest_of_all(base, a, p),
            b,
            p,
            k,
        ),
    decreases k,
{
    if k == 0 {
        lemma_closest_prefix(base, a + b, a, p, a.len() as int);
    } else {
        lemma_closest_concat(base, a, b, p, k - 1);
        assert((a + b)[a.len() + k - 1] == b[k - 1]);
    }
}

/// A cell that accounts for the hazards of `dynamic` and then registers those of
/// `added` accounts for both.
pub proof fn lemma_registration_keeps_track(
    before: HPCellView,
    after: HPCellView,
    dynamic: Seq<HazardView>,
    added: Seq<HazardView>,
)
    requires
        before.tracks(dynamic),
        after == (HPCellView { uni_haz_prox: after.uni_haz_prox, ..before }),
        registered(before.uni_haz_prox, after.uni_haz_prox, added, before.centroid),
    ensures
        after.tracks(dynamic + added),
{
    let p = before.centroid;
    let all = dynamic + added;
    lemma_closest_concat(before.static_uni_haz_prox.0, dynamic, added, p, added.len() as int);
    if after.uni_haz_prox.0 == before.uni_haz_prox.0 {
        if before.uni_haz_prox != before.static_uni_haz_prox {
            let i = choose|i: int|
                0 <= i < dynamic.len() && attained_at(
                    before.uni_haz_prox.0,
                    #[trigger] dynamic[i],
                    p,
                ) && dynamic[i].entity == before.uni_haz_prox.1;
            assert(all[i] == dynamic[i]);
        }
    } else {
        let j = choose|j: int|
            0 <= j < added.len() && attained_at(after.uni_haz_prox.0, #[trigger] added[j], p)
                && added[j].entity == after.uni_haz_prox.1;
        assert(all[dynamic.len() + j] == added[j]);
    }
}

/// What a cell accounts for depends on the hazards that are switched on, not on their
/// order, nor on those that are switched off.
pub proof fn lemma_tracks_same_active(cell: HPCellView, s1: Seq<HazardView>, s2: Seq<HazardView>)
    requires
        cell.tracks(s1),
        forall|i: int| 0 <= i < s1.len() && (#[trigger] s1[i]).active ==> s2.contains(s1[i]),
        forall|j: int| 0 <= j < s2.len() && (#[trigger] s2[j]).active ==> s1.contains(s2[j]),
    ensures
        cell.tracks(s2),
{
    let p = cell.centroid;
    let base = cell.static_uni_haz_prox.0;
    let x = cell.uni_haz_prox.0;
    lemma_closest_proximity_is_closest(base, s1, p, s1.len() as int);
    lemma_closest_proximity_is_closest(base, s2, p, s2.len() as int);
    assert forall|j: int| 0 <= j < s2.len() implies covers(x, #[trigger] s2[j], p) by {
        if s2[j].active {
            let i = choose|i: int| 0 <= i < s1.len() && s1[i] == s2[j];
            assert(covers(x, s1[i], p));
        }
    }
    if x != base {
        let i = choose|i: int| 0 <= i < s1.len() && attained_at(x, #[trigger] s1[i], p);
        let j = choose|j: int| 0 <= j < s2.len() && s2[j] == s1[i];
        assert(attained_at(x, s2[j], p));
    }
    lemma_closest_unique(x, closest_of_all(base, s2, p), base, s2, p, s2.len() as int);
    if cell.uni_haz_prox != cell.static_uni_haz_prox {
        let i = choose|i: int|
            0 <= i < s1.len() && attained_at(x, #[trigger] s1[i], p) && s1[i].entity
                == cell.uni_haz_prox.1;
        let j = choose|j: int| 0 <= j < s2.len() && s2[j] == s1[i];
        assert(attained_at(x, s2[j], p) && s2[j].entity == cell.uni_haz_prox.1);
    }
}

/// A cell that accounts for the hazards of `dynamic` and then deregisters the
/// entities of `to_deregister` accounts for `remaining`, where `remaining` holds, of
/// the active hazards of `dynamic`, all but those named, and no other active hazard.
pub proof fn lemma_deregistration_keeps_track(
    before: HPCellView,
    after: HPCellView,
    dynamic: Seq<HazardView>,
    to_deregister: Seq<HazardEntity>,
    remaining: Seq<HazardView>,
)
    requires
        before.tracks(dynamic),
        after == (HPCellView { uni_haz_prox: after.uni_haz_prox, ..before }),
        forall|j: int|
            0 <= j < remaining.len() && (#[trigger] remaining[j]).active ==> dynamic.contains(
                remaining[j],
            ),
        forall|i: int|
            0 <= i < dynamic.len() && (#[trigger] dynamic[i]).active && !to_deregister.contains(
                dynamic[i].entity,
            ) ==> remaining.contains(dynamic[i]),
        if to_deregister.contains(before.uni_haz_prox.1) {
            registered(before.static_uni_haz_prox, after.uni_haz_prox, remaining, before.centroid)
        } else {
            after == before
        },
    ensures
        after.tracks(remaining),
{
    let p = before.centroid;
    let base = before.static_uni_haz_prox.0;
    if !to_deregister.contains(before.uni_haz_prox.1) {
        let x = before.uni_haz_prox.0;
        lemma_closest_proximity_is_closest(base, dynamic, p, dynamic.len() as int);
        lemma_closest_proximity_is_closest(base, remaining, p, remaining.len() as int);
        assert forall|j: int| 0 <= j < remaining.len() implies covers(x, #[trigger] remaining[j], p) by {
            if remaining[j].active {
                let i = choose|i: int| 0 <= i < dynamic.len() && dynamic[i] == remaining[j];
                assert(covers(x, dynamic[i], p));
            }
        }
        if before.uni_haz_prox != before.static_uni_haz_prox {
            let i = choose|i: int|
                0 <= i < dynamic.len() && attained_at(x, #[trigger] dynamic[i], p)
                    && dynamic[i].entity == before.uni_haz_prox.1;
            let j = choose|j: int| 0 <= j < remaining.len() && remaining[j] == dynamic[i];
            assert(attained_at(x, remaining[j], p) && remaining[j].entity == before.uni_haz_prox.1);
        }
        lemma_closest_unique(
            x,
            closest_of_all(base, remaining, p),
            base,
            remaining,
            p,
            remaining.len() as int,
        );
    }
}

/// The closest static hazard is as close as every universal hazard among those looked
/// at.
pub proof fn lemma_closest_static_least(hazards: Seq<HazardView>, p: Point, k: int, i: int)
    requires
        0 <= i < k <= hazards.len(),
        hazards[i].entity.spec_universal(),
    ensures
        closest_static(hazards, p, k).0.as_close_as(static_proximity(hazards[i], p)),
    decreases k,
{
    if i < k - 1 {
        lemma_closest_static_least(hazards, p, k - 1, i);
    }
}

/// The closest static hazard is one of the universal hazards looked at, or else the
/// bin's outer border at the farthest proximity.
pub proof fn lemma_closest_static_attained(hazards: Seq<HazardView>, p: Point, k: int)
    requires
        0 <= k <= hazards.len(),
    ensures
        closest_static(hazards, p, k) == (Proximity::farthest(), HazardEntity::BinOuter)
            || exists|j: int|
            0 <= j < k && (#[trigger] hazards[j]).entity.spec_universal() && closest_static(
                hazards,
                p,
                k,
            ) == (static_proximity(hazards[j], p), hazards[j].entity),
    decreases k,
{
    if k > 0 {
        lemma_closest_static_attained(hazards, p, k - 1);
        let rest = closest_static(hazards, p, k - 1);
        let here = static_proximity(hazards[k - 1], p);
        if hazards[k - 1].entity.spec_universal() && here.closer_than(rest.0) {
            assert(hazards[k - 1].entity.spec_universal());
        } else if rest != (Proximity::farthest(), HazardEntity::BinOuter) {
            let j = choose|j: int|
                0 <= j < k - 1 && (#[trigger] hazards[j]).entity.spec_universal() && rest == (
                    static_proximity(hazards[j], p),
                    hazards[j].entity,
                );
            assert(hazards[j].entity.spec_universal());
        }
    }
}

/// The closest universal hazard of a cell is at least as close as its closest static
/// hazard.
pub proof fn lemma_never_farther_than_static(cell: HPCellView)
    requires
        cell.wf(),
    ensures
        cell.uni_haz_prox.0.as_close_as(cell.static_uni_haz_prox.0),
{
}

/// A cell that accounts for the hazards of `dynamic` is as close to its closest
/// universal hazard as to its closest static hazard and to each active hazard of
/// `dynamic`, and exactly as close as to one of them.
pub proof fn lemma_tracking_is_complete(cell: HPCellView, dynamic: Seq<HazardView>)
    requires
        cell.tracks(dynamic),
    ensures
        is_closest(
            cell.uni_haz_prox.0,
            cell.static_uni_haz_prox.0,
            dynamic,
            cell.centroid,
            dynamic.len() as int,
        ),
{
    lemma_closest_proximity_is_closest(
        cell.static_uni_haz_prox.0,
        dynamic,
        cell.centroid,
        dynamic.len() as int,
    );
}

/// The closest universal hazard of `cell` has no rival among its static hazards and
/// the hazards of `dynamic`: where the closest static hazard is that close, no active
/// dynamic hazard is, and the active dynamic hazards that are that close stand for one
/// entity.
pub open spec fn unrivalled(cell: HPCellView, dynamic: Seq<HazardView>) -> bool {
    let x = cell.uni_haz_prox.0;
    &&& x == cell.static_uni_haz_prox.0 ==> forall|j: int|
        0 <= j < dynamic.len() ==> !attained_at(x, #[trigger] dynamic[j], cell.centroid)
    &&& forall|j: int, k: int|
        0 <= j < dynamic.len() && 0 <= k < dynamic.len() && attained_at(
            x,
            #[trigger] dynamic[j],
            cell.centroid,
        ) && attained_at(x, #[trigger] dynamic[k], cell.centroid) ==> dynamic[j].entity
            == dynamic[k].entity
}

/// Two cells over the same square of the same bin that account for the same hazards
/// hold the same proximity of their closest universal hazard, and the same entity
/// where that hazard has no rival.
pub proof fn lemma_tracking_determines_proximity(a: HPCellView, b: HPCellView, dynamic: Seq<HazardView>)
    requires
        a.tracks(dynamic),
        b.tracks(dynamic),
        a.centroid == b.centroid,
        a.static_uni_haz_prox == b.static_uni_haz_prox,
    ensures
        a.uni_haz_prox.0 == b.uni_haz_prox.0,
        unrivalled(a, dynamic) ==> a.uni_haz_prox == b.uni_haz_prox,
{
    if unrivalled(a, dynamic) {
        let x = a.uni_haz_prox.0;
        if a.uni_haz_prox != a.static_uni_haz_prox {
            let j = choose|j: int|
                0 <= j < dynamic.len() && attained_at(x, #[trigger] dynamic[j], a.centroid)
                    && dynamic[j].entity == a.uni_haz_prox.1;
            assert(attained_at(x, dynamic[j], a.centroid));
        }
        if b.uni_haz_prox != b.static_uni_haz_prox {
            let k = choose|k: int|
                0 <= k < dynamic.len() && attained_at(x, #[trigger] dynamic[k], b.centroid)
                    && dynamic[k].entity == b.uni_haz_prox.1;
            assert(attained_at(x, dynamic[k], a.centroid));
        }
    }
}

} // verus!
