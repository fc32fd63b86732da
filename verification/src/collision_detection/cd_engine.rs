//! The collision detection engine: the hazards of a layout, the queries on them, and
//! the hazard proximity grid that follows them.

use vstd::prelude::*;
use vstd::slice::slice_subrange;
use crate::collision_detection::hazard::{all_wf, hazard_views, Hazard, HazardView};
use crate::collision_detection::hazard_entity::HazardEntity;
use crate::entities::placed_item::PlacedItemUID;
use crate::collision_detection::hazard_proximity_grid::{
    grid_deregistered,
    grid_fits,
    grid_registered,
    lemma_grid_deregistration_keeps_track,
    lemma_grid_registration_keeps_track,
    lemma_grid_tracks_same_active,
    lemma_same_frame_keeps_statics,
    lemma_same_frame_reflexive,
    spec_cell_size,
    spec_cells_along,
    HPGridView,
    HazardProximityGrid,
};
use crate::collision_detection::hp_cell::{
    all_active_forbid_inside,
    closest_quality_zone,
    contains_entity,
    covers,
    lemma_closest_static_least,
    lemma_tracking_determines_proximity,
    lemma_tracking_is_complete,
    static_proximity,
    unrivalled,
};
use crate::N_QUALITIES;
use crate::error::CDEError;
use crate::geometry::aa_rectangle::AARectangle;
use crate::geometry::circle::Circle;
use crate::geometry::geo_enums::GeoPosition;
use crate::geometry::point::Point;
use crate::geometry::simple_polygon::{
    circle_overlaps,
    circle_within,
    polygon_within,
    polygons_overlap,
    SimplePolygon,
};
use crate::geometry::sp_surrogate::SPSurrogate;
use crate::geometry::transformation::Transformation;

verus! {

/// How the surrogates of the items are to be made.
#[derive(Clone, Copy, Debug, PartialEq, Eq, Hash, Structural)]
pub struct SPSurrogateConfig {
    /// Number of poles to test before anything else.
    pub n_ff_poles: usize,
    /// Number of piers to test before anything else.
    pub n_ff_piers: usize,
    /// The share of a polygon's area that its poles are to cover, in thousandths.
    pub pole_coverage_goal: u16,
}

/// The configuration of an engine.
#[derive(Clone, Copy, Debug, PartialEq, Eq, Hash, Structural)]
pub struct CDEConfig {
    /// About how many cells the hazard proximity grid is to have.
    pub hpg_n_cells_target: usize,
    pub surrogate: SPSurrogateConfig,
}

/// Names a registered hazard, to take it out again.
#[derive(Clone, Copy, Debug, PartialEq, Eq, Hash, Structural)]
pub struct HazardHandle {
    pub entity: HazardEntity,
}

/// A query that passes over the entities of `ignore` has to look at `h`.
pub open spec fn relevant(h: HazardView, ignore: Seq<HazardEntity>) -> bool {
    h.active && !ignore.contains(h.entity)
}

/// The polygon `shape` is where `h` forbids it to be: it has a point in common with a
/// hazard that forbids its inside, or it does not lie inside of and apart from the
/// border of a hazard that forbids its outside.
pub open spec fn shape_violates(shape: Seq<Point>, h: HazardView) -> bool {
    match h.entity.spec_presence() {
        GeoPosition::Interior => polygons_overlap(shape, h.shape.points),
        GeoPosition::Exterior => !polygon_within(shape, h.shape.points),
    }
}

/// The circle `pole` is where `h` forbids it to be.
pub open spec fn pole_violates(pole: Circle, h: HazardView) -> bool {
    match h.entity.spec_presence() {
        GeoPosition::Interior => circle_overlaps(pole, h.shape.points),
        GeoPosition::Exterior => !circle_within(pole, h.shape.points),
    }
}

/// The polygon is where one of the relevant hazards forbids it to be.
pub open spec fn shape_hits_any(
    shape: Seq<Point>,
    hazards: Seq<HazardView>,
    ignore: Seq<HazardEntity>,
) -> bool {
    exists|i: int|
        0 <= i < hazards.len() && relevant(#[trigger] hazards[i], ignore) && shape_violates(
            shape,
            hazards[i],
        )
}

/// One of the circles is where the hazard forbids it to be.
pub open spec fn poles_violate(poles: Seq<Circle>, h: HazardView) -> bool {
    exists|k: int| 0 <= k < poles.len() && pole_violates(#[trigger] poles[k], h)
}

/// One of the circles is where one of the relevant hazards forbids it to be.
pub open spec fn poles_hit_any(
    poles: Seq<Circle>,
    hazards: Seq<HazardView>,
    ignore: Seq<HazardEntity>,
) -> bool {
    exists|i: int|
        0 <= i < hazards.len() && relevant(#[trigger] hazards[i], ignore) && poles_violate(
            poles,
            hazards[i],
        )
}

/// What an engine holds, as mathematical values.
pub struct CDEView {
    pub bbox: AARectangle,
    pub config: CDEConfig,
    /// The hazards of the bin, which stay.
    pub static_hazards: Seq<HazardView>,
    /// The hazards of the layout, which come and go.
    pub dynamic_hazards: Seq<HazardView>,
    pub grid: HPGridView,
}

impl CDEView {
    /// A dynamic hazard stands for `entity`.
    pub open spec fn is_registered(self, entity: HazardEntity) -> bool {
        exists|i: int|
            0 <= i < self.dynamic_hazards.len() && (#[trigger] self.dynamic_hazards[i]).entity
                == entity
    }

    /// The place of the dynamic hazard that stands for `entity`.
    pub open spec fn position_of(self, entity: HazardEntity) -> int {
        choose|i: int|
            0 <= i < self.dynamic_hazards.len() && (#[trigger] self.dynamic_hazards[i]).entity
                == entity
    }

    /// The static hazards are those of a bin, the dynamic hazards are placed items
    /// with an entity each of its own, and the grid is the one that the configuration
    /// asks for, built from the static hazards and accounting for the dynamic ones.
    pub open spec fn wf(self) -> bool {
        &&& all_wf(self.static_hazards)
        &&& forall|i: int|
            0 <= i < self.static_hazards.len() ==> !(#[trigger] self.static_hazards[i]).entity.spec_dynamic()
        &&& placed_items(self.dynamic_hazards)
        &&& self.grid.wf()
        &&& self.grid.bbox == self.bbox
        &&& self.grid.cell_size == spec_cell_size(self.bbox, self.config.hpg_n_cells_target)
        &&& self.grid.n_cols == spec_cells_along(self.bbox.spec_width(), self.grid.cell_size as int)
        &&& self.grid.n_rows == spec_cells_along(
            self.bbox.spec_height(),
            self.grid.cell_size as int,
        )
        &&& self.grid.built_from(self.static_hazards)
        &&& self.grid.tracks(self.dynamic_hazards)
    }

    /// `other` differs from this engine in its dynamic hazards and in the closest
    /// universal hazards of its cells at most.
    pub open spec fn same_bin(self, other: CDEView) -> bool {
        &&& self.bbox == other.bbox
        &&& self.config == other.config
        &&& self.static_hazards == other.static_hazards
        &&& self.grid.same_frame(other.grid)
    }
}

/// Why an engine would not register a hazard that stands for `entity`, if it would
/// not: the entity forbids its outside; or it is none that comes and goes; or a
/// hazard is registered for it already.
pub open spec fn registration_refusal(cde: CDEView, entity: HazardEntity) -> Option<CDEError> {
    if entity.spec_presence() == GeoPosition::Exterior {
        Some(CDEError::UnsupportedConfiguration)
    } else if !entity.spec_dynamic() {
        Some(CDEError::InvalidInput)
    } else if cde.is_registered(entity) {
        Some(CDEError::InvalidInput)
    } else {
        None
    }
}

/// The hazards are well formed, stand for placed items, and stand each for an entity
/// of its own.
pub open spec fn placed_items(hazards: Seq<HazardView>) -> bool {
    &&& all_wf(hazards)
    &&& forall|i: int| 0 <= i < hazards.len() ==> (#[trigger] hazards[i]).entity.spec_dynamic()
    &&& forall|i: int, j: int|
        0 <= i < j < hazards.len() ==> (#[trigger] hazards[i]).entity != (#[trigger] hazards[j]).entity
}

/// `after` is `before` with the hazard `h` registered: `h` is the last of the dynamic
/// hazards, and every cell accounts for it.
pub open spec fn registers(before: CDEView, h: HazardView, after: CDEView) -> bool {
    &&& after.same_bin(before)
    &&& after.dynamic_hazards == before.dynamic_hazards.push(h)
    &&& grid_registered(before.grid, after.grid, seq![h])
}

/// `after` is `before` with the hazard at `index` taken out, the last dynamic hazard
/// having taken its place: the cells whose closest hazard it was account anew for the
/// hazards that remain, the others are as before.
pub open spec fn deregisters(before: CDEView, index: int, after: CDEView) -> bool {
    &&& after.same_bin(before)
    &&& after.dynamic_hazards == before.dynamic_hazards.update(
        index,
        before.dynamic_hazards.last(),
    ).drop_last()
    &&& grid_deregistered(
        before.grid,
        after.grid,
        seq![before.dynamic_hazards[index].entity],
        after.dynamic_hazards,
    )
}

/// `after` is `before` with the hazard at `index` switched on or off, and every cell
/// accounting for the change.
pub open spec fn switches(before: CDEView, index: int, active: bool, after: CDEView) -> bool {
    let switched = HazardView { active, ..before.dynamic_hazards[index] };
    &&& after.same_bin(before)
    &&& after.dynamic_hazards == before.dynamic_hazards.update(index, switched)
    &&& if before.dynamic_hazards[index].active == active {
        after.grid == before.grid
    } else if active {
        grid_registered(before.grid, after.grid, seq![switched])
    } else {
        grid_deregistered(before.grid, after.grid, seq![switched.entity], after.dynamic_hazards)
    }
}

/// The collision detection engine of a layout.
#[derive(Debug)]
pub struct CDEngine {
    bbox: AARectangle,
    config: CDEConfig,
    static_hazards: Vec<Hazard>,
    dynamic_hazards: Vec<Hazard>,
    haz_prox_grid: HazardProximityGrid,
}

impl View for CDEngine {
    type V = CDEView;

    closed spec fn view(&self) -> CDEView {
        CDEView {
            bbox: self.bbox,
            config: self.config,
            static_hazards: hazard_views(self.static_hazards@),
            dynamic_hazards: hazard_views(self.dynamic_hazards@),
            grid: self.haz_prox_grid@,
        }
    }
}

/// Those among the first `k` hazards that are switched on, in their order.
pub open spec fn active_of(hazards: Seq<HazardView>, k: int) -> Seq<HazardView>
    decreases k,
{
    if k <= 0 {
        Seq::empty()
    } else {
        let rest = active_of(hazards, k - 1);
        if hazards[k - 1].active {
            rest.push(hazards[k - 1])
        } else {
            rest
        }
    }
}

/// Adds to `target` copies of those of `hazards` that are switched on.
fn extend_with_active(target: &mut Vec<Hazard>, hazards: &Vec<Hazard>)
    ensures
        hazard_views(final(target)@) == hazard_views(old(target)@) + active_of(
            hazard_views(hazards@),
            hazards@.len() as int,
        ),
{
    let ghost start = hazard_views(target@);
    let ghost views = hazard_views(hazards@);
    let mut i: usize = 0;
    assert(start + active_of(views, 0) =~= start);
    while i < hazards.len()
        invariant
            0 <= i <= hazards@.len(),
            views == hazard_views(hazards@),
            hazard_views(target@) == start + active_of(views, i as int),
        decreases hazards@.len() - i,
    {
        assert(views[i as int] == hazards@[i as int]@);
        if hazards[i].is_active() {
            let ghost before = hazard_views(target@);
            let copy: Hazard = hazards[i].clone();
            target.push(copy);
            assert(hazard_views(target@) =~= before.push(copy@));
            assert(hazard_views(target@) =~= start + active_of(views, i as int + 1));
        }
        i += 1;
    }
}

/// A copy of `hazards` that shares nothing with it.
fn clone_hazards(hazards: &Vec<Hazard>) -> (r: Vec<Hazard>)
    ensures
        hazard_views(r@) == hazard_views(hazards@),
{
    let mut copy: Vec<Hazard> = Vec::new();
    let mut i: usize = 0;
    while i < hazards.len()
        invariant
            0 <= i <= hazards@.len(),
            copy@.len() == i,
            forall|j: int| 0 <= j < i ==> (#[trigger] copy@[j])@ == hazards@[j]@,
        decreases hazards@.len() - i,
    {
        copy.push(hazards[i].clone());
        i += 1;
    }
    assert(hazard_views(copy@) =~= hazard_views(hazards@));
    copy
}

impl Clone for CDEngine {
    /// A copy that holds the same hazards and the same grid, and shares nothing with
    /// this engine: what is done to the one leaves the other as it is.
    fn clone(&self) -> (r: CDEngine)
        ensures
            r@ == self@,
    {
        CDEngine {
            bbox: self.bbox,
            config: self.config,
            static_hazards: clone_hazards(&self.static_hazards),
            dynamic_hazards: clone_hazards(&self.dynamic_hazards),
            haz_prox_grid: self.haz_prox_grid.clone(),
        }
    }
}

/// Tells whether `shape` is where one of the hazards that the query has to look at
/// forbids it to be.
pub fn shape_collides_with(shape: &SimplePolygon, hazards: &[Hazard], ignore: &[HazardEntity]) -> (r:
    bool)
    requires
        shape.wf(),
        all_wf(hazard_views(hazards@)),
    ensures
        r == shape_hits_any(shape@.points, hazard_views(hazards@), ignore@),
{
    let ghost views = hazard_views(hazards@);
    let mut i: usize = 0;
    while i < hazards.len()
        invariant
            0 <= i <= hazards@.len(),
            shape.wf(),
            views == hazard_views(hazards@),
            all_wf(views),
            forall|j: int|
                0 <= j < i ==> !(relevant(#[trigger] views[j], ignore@) && shape_violates(
                    shape@.points,
                    views[j],
                )),
        decreases hazards@.len() - i,
    {
        let hazard: &Hazard = &hazards[i];
        assert(views[i as int] == hazard@);
        assert(views[i as int].wf());
        if hazard.is_active() && !contains_entity(ignore, hazard.entity()) {
            let violates: bool = match hazard.entity().presence() {
                GeoPosition::Interior => shape.collides_with(hazard.shape()),
                GeoPosition::Exterior => !shape.lies_within(hazard.shape()),
            };
            if violates {
                return true;
            }
        }
        i += 1;
    }
    false
}

/// Tells whether one of the poles of `surrogate` is where one of the hazards that the
/// query has to look at forbids it to be.
pub fn surrogate_collides_with(surrogate: &SPSurrogate, hazards: &[Hazard], ignore: &[HazardEntity]) -> (r:
    bool)
    requires
        surrogate.wf(),
        all_wf(hazard_views(hazards@)),
    ensures
        r == poles_hit_any(surrogate@.poles, hazard_views(hazards@), ignore@),
{
    let ghost views = hazard_views(hazards@);
    let poles: &Vec<Circle> = surrogate.poles();
    let mut i: usize = 0;
    while i < hazards.len()
        invariant
            0 <= i <= hazards@.len(),
            surrogate.wf(),
            poles@ == surrogate@.poles,
            views == hazard_views(hazards@),
            all_wf(views),
            forall|j: int|
                0 <= j < i ==> !(relevant(#[trigger] views[j], ignore@) && poles_violate(
                    poles@,
                    views[j],
                )),
        decreases hazards@.len() - i,
    {
        let hazard: &Hazard = &hazards[i];
        assert(views[i as int] == hazard@);
        assert(views[i as int].wf());
        if hazard.is_active() && !contains_entity(ignore, hazard.entity()) {
            let presence: GeoPosition = hazard.entity().presence();
            let mut k: usize = 0;
            while k < poles.len()
                invariant
                    0 <= k <= poles@.len(),
                    0 <= i < hazards@.len(),
                    surrogate.wf(),
                    poles@ == surrogate@.poles,
                    views == hazard_views(hazards@),
                    hazard@ == views[i as int],
                    hazard@.wf(),
                    presence == hazard@.entity.spec_presence(),
                    relevant(views[i as int], ignore@),
                    forall|a: int| 0 <= a < k ==> !pole_violates(#[trigger] poles@[a], hazard@),
                decreases poles@.len() - k,
            {
                let pole: Circle = poles[k];
                assert(surrogate@.poles[k as int].wf());
                let violates: bool = match presence {
                    GeoPosition::Interior => hazard.shape().collides_with_circle(&pole),
                    GeoPosition::Exterior => !hazard.shape().holds_circle(&pole),
                };
                if violates {
                    assert(pole_violates(poles@[k as int], views[i as int]));
                    return true;
                }
                k += 1;
            }
        }
        i += 1;
    }
    false
}

impl CDEngine {
    pub open spec fn wf(&self) -> bool {
        self@.wf()
    }

    /// The engine of a bin with the given bounding box and static hazards, with no
    /// dynamic hazard. It is refused where a static hazard is a placed item, or where
    /// the grid that the configuration asks for cannot be laid over the box.
    pub fn new(bbox: AARectangle, static_hazards: Vec<Hazard>, config: CDEConfig) -> (r: Result<
        CDEngine,
        CDEError,
    >)
        requires
            all_wf(hazard_views(static_hazards@)),
        ensures
            r.is_ok() == (grid_fits(bbox, config.hpg_n_cells_target) && forall|i: int|
                0 <= i < static_hazards@.len() ==> !(#[trigger] static_hazards@[i])@.entity.spec_dynamic()),
            r.is_err() ==> r.unwrap_err() == CDEError::InvalidInput,
            r.is_ok() ==> {
                let cde = r.unwrap()@;
                &&& cde.wf()
                &&& cde.bbox == bbox
                &&& cde.config == config
                &&& cde.static_hazards == hazard_views(static_hazards@)
                &&& cde.dynamic_hazards == Seq::<HazardView>::empty()
            },
    {
        let mut i: usize = 0;
        while i < static_hazards.len()
            invariant
                0 <= i <= static_hazards@.len(),
                forall|j: int| 0 <= j < i ==> !(#[trigger] static_hazards@[j])@.entity.spec_dynamic(),
            decreases static_hazards@.len() - i,
        {
            if static_hazards[i].entity().dynamic() {
                return Err(CDEError::InvalidInput);
            }
            i += 1;
        }
        match HazardProximityGrid::new(bbox, static_hazards.as_slice(), config.hpg_n_cells_target) {
            Ok(haz_prox_grid) => {
                let dynamic_hazards: Vec<Hazard> = Vec::new();
                assert(hazard_views(dynamic_hazards@) =~= Seq::<HazardView>::empty());
                let cde = CDEngine { bbox, config, static_hazards, dynamic_hazards, haz_prox_grid };
                assert forall|i: int| 0 <= i < cde@.static_hazards.len() implies !(
                #[trigger] cde@.static_hazards[i]).entity.spec_dynamic() by {
                    assert(cde@.static_hazards[i] == static_hazards@[i]@);
                }
                Ok(cde)
            },
            Err(e) => Err(e),
        }
    }

    /// The place of the dynamic hazard that stands for `entity`, if there is one.
    pub fn position_of(&self, entity: &HazardEntity) -> (r: Option<usize>)
        ensures
            r.is_some() == self@.is_registered(*entity),
            r matches Some(index) ==> index < self@.dynamic_hazards.len()
                && self@.dynamic_hazards[index as int].entity == *entity,
    {
        let mut i: usize = 0;
        while i < self.dynamic_hazards.len()
            invariant
                0 <= i <= self.dynamic_hazards@.len(),
                forall|j: int| 0 <= j < i ==> (#[trigger] self@.dynamic_hazards[j]).entity != *entity,
            decreases self.dynamic_hazards@.len() - i,
        {
            assert(self@.dynamic_hazards[i as int] == self.dynamic_hazards@[i as int]@);
            if *self.dynamic_hazards[i].entity() == *entity {
                return Some(i);
            }
            i += 1;
        }
        None
    }

    /// Registers a hazard of the layout. The hazard has to stand for a placed item
    /// that is not registered yet.
    pub fn register_hazard(&mut self, hazard: Hazard) -> (r: Result<(), CDEError>)
        requires
            old(self).wf(),
            hazard.wf(),
        ensures
            final(self).wf(),
            r == match registration_refusal(old(self)@, hazard@.entity) {
                Some(e) => Err::<(), CDEError>(e),
                None => Ok::<(), CDEError>(()),
            },
            r.is_err() ==> final(self)@ == old(self)@,
            r.is_ok() ==> registers(old(self)@, hazard@, final(self)@),
    {
        if hazard.entity().presence() == GeoPosition::Exterior {
            return Err(CDEError::UnsupportedConfiguration);
        }
        if !hazard.entity().dynamic() {
            return Err(CDEError::InvalidInput);
        }
        if self.position_of(hazard.entity()).is_some() {
            return Err(CDEError::InvalidInput);
        }
        let ghost before = self@;
        let ghost added = hazard@;
        self.dynamic_hazards.push(hazard);
        let n: usize = self.dynamic_hazards.len();
        let batch: &[Hazard] = slice_subrange(self.dynamic_hazards.as_slice(), n - 1, n);
        proof {
            assert(hazard_views(batch@) =~= seq![added]);
            assert(hazard_views(self.dynamic_hazards@) =~= before.dynamic_hazards.push(added));
        }
        let _ = self.haz_prox_grid.register(batch);
        proof {
            lemma_register_keeps_wf(before, added, self@);
        }
        Ok(())
    }

    /// Registers the placed item `uid`, whose shape in the layout is `shape`.
    pub fn register_item(&mut self, uid: PlacedItemUID, shape: SimplePolygon) -> (r: Result<
        HazardHandle,
        CDEError,
    >)
        requires
            old(self).wf(),
            shape.wf(),
        ensures
            final(self).wf(),
            r.is_ok() == !old(self)@.is_registered(HazardEntity::PlacedItem { id: uid }),
            r.is_err() ==> final(self)@ == old(self)@ && r.unwrap_err() == CDEError::InvalidInput,
            r.is_ok() ==> r.unwrap().entity == (HazardEntity::PlacedItem { id: uid }) && registers(
                old(self)@,
                HazardView { entity: HazardEntity::PlacedItem { id: uid }, shape: shape@, active: true },
                final(self)@,
            ),
    {
        let entity = HazardEntity::PlacedItem { id: uid };
        match Hazard::new(entity, shape) {
            Ok(hazard) => match self.register_hazard(hazard) {
                Ok(()) => Ok(HazardHandle { entity }),
                Err(e) => Err(e),
            },
            Err(e) => Err(e),
        }
    }

    /// Takes out the dynamic hazard that stands for `entity`.
    pub fn deregister_hazard(&mut self, entity: HazardEntity) -> (r: Result<(), CDEError>)
        requires
            old(self).wf(),
        ensures
            final(self).wf(),
            r.is_ok() == old(self)@.is_registered(entity),
            r.is_err() ==> final(self)@ == old(self)@ && r.unwrap_err() == CDEError::InvalidInput,
            r.is_ok() ==> deregisters(old(self)@, old(self)@.position_of(entity), final(self)@),
    {
        let index: usize = match self.position_of(&entity) {
            Some(index) => index,
            None => {
                return Err(CDEError::InvalidInput);
            },
        };
        let ghost before = self@;
        proof {
            lemma_position_is_unique(before, entity, index as int);
        }
        let _ = self.dynamic_hazards.swap_remove(index);
        let mut named: Vec<HazardEntity> = Vec::new();
        named.push(entity);
        proof {
            let remaining = hazard_views(self.dynamic_hazards@);
            assert(remaining =~= before.dynamic_hazards.update(
                index as int,
                before.dynamic_hazards.last(),
            ).drop_last());
            assert(named@ =~= seq![entity]);
            lemma_swap_remove_members(before.dynamic_hazards, index as int, remaining);
        }
        let _ = self.haz_prox_grid.deregister(named.as_slice(), self.dynamic_hazards.as_slice());
        proof {
            lemma_deregister_keeps_wf(before, index as int, self@);
        }
        Ok(())
    }

    /// Takes out the placed item that `handle` names.
    pub fn deregister_item(&mut self, handle: HazardHandle) -> (r: Result<(), CDEError>)
        requires
            old(self).wf(),
        ensures
            final(self).wf(),
            r.is_ok() == old(self)@.is_registered(handle.entity),
            r.is_err() ==> final(self)@ == old(self)@ && r.unwrap_err() == CDEError::InvalidInput,
            r.is_ok() ==> deregisters(
                old(self)@,
                old(self)@.position_of(handle.entity),
                final(self)@,
            ),
    {
        self.deregister_hazard(handle.entity)
    }

    /// Switches off the dynamic hazard that stands for `entity`: it stays registered,
    /// the queries pass over it, and the grid forgets it.
    pub fn deactivate_hazard(&mut self, entity: HazardEntity) -> (r: Result<(), CDEError>)
        requires
            old(self).wf(),
        ensures
            final(self).wf(),
            r.is_ok() == old(self)@.is_registered(entity),
            r.is_err() ==> final(self)@ == old(self)@ && r.unwrap_err() == CDEError::InvalidInput,
            r.is_ok() ==> switches(
                old(self)@,
                old(self)@.position_of(entity),
                false,
                final(self)@,
            ),
    {
        let index: usize = match self.position_of(&entity) {
            Some(index) => index,
            None => {
                return Err(CDEError::InvalidInput);
            },
        };
        let ghost before = self@;
        proof {
            lemma_position_is_unique(before, entity, index as int);
        }
        assert(before.dynamic_hazards[index as int] == self.dynamic_hazards@[index as int]@);
        if self.dynamic_hazards[index].is_active() {
            self.dynamic_hazards[index].deactivate();
            let mut named: Vec<HazardEntity> = Vec::new();
            named.push(entity);
            proof {
                let remaining = hazard_views(self.dynamic_hazards@);
                assert(remaining =~= before.dynamic_hazards.update(
                    index as int,
                    HazardView { active: false, ..before.dynamic_hazards[index as int] },
                ));
                assert(named@ =~= seq![entity]);
                lemma_switch_members(before.dynamic_hazards, index as int, false, remaining);
            }
            let _ = self.haz_prox_grid.deregister(named.as_slice(), self.dynamic_hazards.as_slice());
        } else {
            proof {
                assert(before.dynamic_hazards =~= before.dynamic_hazards.update(
                    index as int,
                    HazardView { active: false, ..before.dynamic_hazards[index as int] },
                ));
                lemma_same_frame_reflexive(before.grid);
            }
        }
        proof {
            lemma_switch_keeps_wf(before, index as int, false, self@);
        }
        Ok(())
    }

    /// Switches on the dynamic hazard that stands for `entity`: the queries look at
    /// it again, and the grid accounts for it.
    pub fn activate_hazard(&mut self, entity: HazardEntity) -> (r: Result<(), CDEError>)
        requires
            old(self).wf(),
        ensures
            final(self).wf(),
            r.is_ok() == old(self)@.is_registered(entity),
            r.is_err() ==> final(self)@ == old(self)@ && r.unwrap_err() == CDEError::InvalidInput,
            r.is_ok() ==> switches(old(self)@, old(self)@.position_of(entity), true, final(self)@),
    {
        let index: usize = match self.position_of(&entity) {
            Some(index) => index,
            None => {
                return Err(CDEError::InvalidInput);
            },
        };
        let ghost before = self@;
        proof {
            lemma_position_is_unique(before, entity, index as int);
        }
        assert(before.dynamic_hazards[index as int] == self.dynamic_hazards@[index as int]@);
        if !self.dynamic_hazards[index].is_active() {
            self.dynamic_hazards[index].activate();
            let n: usize = self.dynamic_hazards.len();
            assert(index < n);
            let batch: &[Hazard] = slice_subrange(self.dynamic_hazards.as_slice(), index, index + 1);
            proof {
                let switched = HazardView { active: true, ..before.dynamic_hazards[index as int] };
                let now = hazard_views(self.dynamic_hazards@);
                assert(now =~= before.dynamic_hazards.update(index as int, switched));
                assert(hazard_views(batch@) =~= seq![switched]);
                lemma_switch_members(before.dynamic_hazards, index as int, true, now);
                assert(now[index as int].wf());
                assert(now[index as int].entity.spec_dynamic());
            }
            let _ = self.haz_prox_grid.register(batch);
        } else {
            proof {
                assert(before.dynamic_hazards =~= before.dynamic_hazards.update(
                    index as int,
                    HazardView { active: true, ..before.dynamic_hazards[index as int] },
                ));
                lemma_same_frame_reflexive(before.grid);
            }
        }
        proof {
            lemma_switch_keeps_wf(before, index as int, true, self@);
        }
        Ok(())
    }

    /// Tells whether `shape`, where it stands, is where a hazard forbids it to be:
    /// whether it has a point in common with an active hazard that forbids its inside,
    /// or does not lie inside of the bin. The hazards that stand for the entities of
    /// `ignore` are passed over.
    pub fn shape_collides(&self, shape: &SimplePolygon, ignore: &[HazardEntity]) -> (r: bool)
        requires
            self.wf(),
            shape.wf(),
        ensures
            r == (shape_hits_any(shape@.points, self@.static_hazards, ignore@) || shape_hits_any(
                shape@.points,
                self@.dynamic_hazards,
                ignore@,
            )),
    {
        shape_collides_with(shape, self.static_hazards.as_slice(), ignore) || shape_collides_with(
            shape,
            self.dynamic_hazards.as_slice(),
            ignore,
        )
    }

    /// Tells whether a pole of `surrogate`, once transformed, is where a hazard forbids
    /// it to be, or beyond the coordinate range. The hazards that stand for the
    /// entities of `ignore` are passed over. A `false` does not tell that the polygon
    /// is free of collisions.
    pub fn surrogate_collides(
        &self,
        surrogate: &SPSurrogate,
        transform: &Transformation,
        ignore: &[HazardEntity],
    ) -> (r: bool)
        requires
            self.wf(),
            surrogate.wf(),
            transform.wf(),
        ensures
            r == (!surrogate@.stays_in_range(*transform) || poles_hit_any(
                surrogate@.transformed(*transform).poles,
                self@.static_hazards,
                ignore@,
            ) || poles_hit_any(
                surrogate@.transformed(*transform).poles,
                self@.dynamic_hazards,
                ignore@,
            )),
    {
        match surrogate.transform_clone(transform) {
            Ok(moved) => surrogate_collides_with(&moved, self.static_hazards.as_slice(), ignore)
                || surrogate_collides_with(&moved, self.dynamic_hazards.as_slice(), ignore),
            Err(_) => true,
        }
    }

    /// Tells whether `shape` cannot be placed where it stands: first by its poles,
    /// then, where no pole settles it, by the polygon itself.
    pub fn placement_collides(&self, shape: &SimplePolygon, ignore: &[HazardEntity]) -> (r: bool)
        requires
            self.wf(),
            shape.wf(),
        ensures
            r == (poles_hit_any(shape@.surrogate.poles, self@.static_hazards, ignore@)
                || poles_hit_any(shape@.surrogate.poles, self@.dynamic_hazards, ignore@)
                || shape_hits_any(shape@.points, self@.static_hazards, ignore@) || shape_hits_any(
                shape@.points,
                self@.dynamic_hazards,
                ignore@,
            )),
            shape_hits_any(shape@.points, self@.static_hazards, ignore@) || shape_hits_any(
                shape@.points,
                self@.dynamic_hazards,
                ignore@,
            ) ==> r,
    {
        if surrogate_collides_with(shape.surrogate(), self.static_hazards.as_slice(), ignore)
            || surrogate_collides_with(shape.surrogate(), self.dynamic_hazards.as_slice(), ignore) {
            true
        } else {
            self.shape_collides(shape, ignore)
        }
    }

    /// The bounding box of the bin.
    pub fn bbox(&self) -> (r: AARectangle)
        ensures
            r == self@.bbox,
    {
        self.bbox
    }

    pub fn config(&self) -> (r: CDEConfig)
        ensures
            r == self@.config,
    {
        self.config
    }

    /// The hazards of the bin.
    pub fn static_hazards(&self) -> (r: &Vec<Hazard>)
        ensures
            hazard_views(r@) == self@.static_hazards,
    {
        &self.static_hazards
    }

    /// The hazards of the layout.
    pub fn dynamic_hazards(&self) -> (r: &Vec<Hazard>)
        ensures
            hazard_views(r@) == self@.dynamic_hazards,
    {
        &self.dynamic_hazards
    }

    /// Copies of all hazards: those of the bin, then those of the layout.
    pub fn all_hazards(&self) -> (r: Vec<Hazard>)
        ensures
            hazard_views(r@) == self@.static_hazards + self@.dynamic_hazards,
    {
        let mut all: Vec<Hazard> = clone_hazards(&self.static_hazards);
        let ghost statics = hazard_views(all@);
        let mut i: usize = 0;
        while i < self.dynamic_hazards.len()
            invariant
                0 <= i <= self.dynamic_hazards@.len(),
                statics == hazard_views(self.static_hazards@),
                hazard_views(all@) == statics + hazard_views(self.dynamic_hazards@).subrange(
                    0,
                    i as int,
                ),
            decreases self.dynamic_hazards@.len() - i,
        {
            let ghost before = hazard_views(all@);
            let copy: Hazard = self.dynamic_hazards[i].clone();
            all.push(copy);
            assert(hazard_views(all@) =~= before.push(copy@));
            assert(hazard_views(all@) =~= statics + hazard_views(self.dynamic_hazards@).subrange(
                0,
                i as int + 1,
            ));
            i += 1;
        }
        assert(hazard_views(self.dynamic_hazards@).subrange(0, self.dynamic_hazards@.len() as int)
            =~= hazard_views(self.dynamic_hazards@));
        all
    }

    /// Copies of the hazards that are switched on: those of the bin, then those of the
    /// layout.
    pub fn active_hazards(&self) -> (r: Vec<Hazard>)
        ensures
            hazard_views(r@) == active_of(
                self@.static_hazards,
                self@.static_hazards.len() as int,
            ) + active_of(self@.dynamic_hazards, self@.dynamic_hazards.len() as int),
    {
        let mut active: Vec<Hazard> = Vec::new();
        assert(hazard_views(active@) =~= Seq::<HazardView>::empty());
        extend_with_active(&mut active, &self.static_hazards);
        extend_with_active(&mut active, &self.dynamic_hazards);
        assert(Seq::<HazardView>::empty() + active_of(
            self@.static_hazards,
            self@.static_hazards.len() as int,
        ) =~= active_of(self@.static_hazards, self@.static_hazards.len() as int));
        active
    }

    /// The bounding box of the bin, which is the box that the engine covers.
    pub fn bin_bbox(&self) -> (r: AARectangle)
        ensures
            r == self@.bbox,
    {
        self.bbox
    }

    /// The hazard proximity grid.
    pub fn haz_prox_grid(&self) -> (r: &HazardProximityGrid)
        ensures
            r@ == self@.grid,
    {
        &self.haz_prox_grid
    }

    /// The radius of the cells of the hazard proximity grid.
    pub fn hpg_cell_radius(&self) -> (r: u64)
        requires
            self.wf(),
        ensures
            r as int == self@.grid.cell_radius(),
            forall|i: int| 0 <= i < self@.grid.cells.len() ==> (#[trigger] self@.grid.cells[i]).radius == r,
    {
        self.haz_prox_grid.cell_radius()
    }
}

/// In a well-formed engine one hazard only stands for an entity.
proof fn lemma_position_is_unique(cde: CDEView, entity: HazardEntity, index: int)
    requires
        placed_items(cde.dynamic_hazards),
        0 <= index < cde.dynamic_hazards.len(),
        cde.dynamic_hazards[index].entity == entity,
    ensures
        cde.position_of(entity) == index,
{
    let chosen = cde.position_of(entity);
    assert(cde.dynamic_hazards[chosen].entity == entity);
    if chosen < index {
        assert(cde.dynamic_hazards[chosen].entity != cde.dynamic_hazards[index].entity);
    } else if index < chosen {
        assert(cde.dynamic_hazards[index].entity != cde.dynamic_hazards[chosen].entity);
    }
}

/// Placed items forbid their inside.
proof fn lemma_placed_items_forbid_inside(hazards: Seq<HazardView>)
    requires
        placed_items(hazards),
    ensures
        all_wf(hazards),
        all_active_forbid_inside(hazards),
{
    assert forall|i: int| 0 <= i < hazards.len() && (#[trigger] hazards[i]).active implies hazards[i].entity.spec_presence()
        == GeoPosition::Interior by {
        assert(hazards[i].entity.spec_dynamic());
    }
}

/// Taking a hazard out, the last one taking its place, leaves placed items with an
/// entity each of its own: all those that were there but the one taken out.
proof fn lemma_swap_remove_members(before: Seq<HazardView>, index: int, after: Seq<HazardView>)
    requires
        placed_items(before),
        0 <= index < before.len(),
        after == before.update(index, before.last()).drop_last(),
    ensures
        placed_items(after),
        all_wf(after),
        all_active_forbid_inside(after),
        forall|j: int| 0 <= j < after.len() ==> before.contains(#[trigger] after[j]),
        forall|i: int|
            0 <= i < before.len() && (#[trigger] before[i]).entity != before[index].entity
                ==> after.contains(before[i]),
{
    let last = before.len() - 1;
    assert forall|j: int| 0 <= j < after.len() implies before.contains(#[trigger] after[j])
        && after[j].wf() && after[j].entity.spec_dynamic() by {
        let from = if j == index {
            last
        } else {
            j
        };
        assert(before[from] == after[j]);
    }
    assert forall|i: int|
        0 <= i < before.len() && (#[trigger] before[i]).entity
            != before[index].entity implies after.contains(before[i]) by {
        let to = if i == last {
            index
        } else {
            i
        };
        assert(after[to] == before[i]);
    }
    assert forall|i: int, j: int| 0 <= i < j < after.len() implies (#[trigger] after[i]).entity != (
    #[trigger] after[j]).entity by {
        let from_i = if i == index {
            last
        } else {
            i
        };
        let from_j = if j == index {
            last
        } else {
            j
        };
        assert(after[i] == before[from_i]);
        assert(after[j] == before[from_j]);
        if from_i < from_j {
            assert(before[from_i].entity != before[from_j].entity);
        } else {
            assert(before[from_j].entity != before[from_i].entity);
        }
    }
    lemma_placed_items_forbid_inside(after);
}

/// Switching a hazard on or off leaves placed items with an entity each of its own.
proof fn lemma_switch_members(before: Seq<HazardView>, index: int, active: bool, after: Seq<HazardView>)
    requires
        placed_items(before),
        0 <= index < before.len(),
        after == before.update(index, HazardView { active, ..before[index] }),
    ensures
        placed_items(after),
        all_wf(after),
        all_active_forbid_inside(after),
{
    assert forall|j: int| 0 <= j < after.len() implies (#[trigger] after[j]).wf()
        && after[j].entity.spec_dynamic() by {
        assert(before[j].wf());
        assert(before[j].entity.spec_dynamic());
    }
    assert forall|i: int, j: int| 0 <= i < j < after.len() implies (#[trigger] after[i]).entity != (
    #[trigger] after[j]).entity by {
        assert(before[i].entity != before[j].entity);
    }
    lemma_placed_items_forbid_inside(after);
}

/// An engine that registers a hazard as it should stays well formed.
proof fn lemma_register_keeps_wf(before: CDEView, h: HazardView, after: CDEView)
    requires
        before.wf(),
        h.wf(),
        registration_refusal(before, h.entity) is None,
        registers(before, h, after),
        after.grid.wf(),
    ensures
        after.wf(),
{
    let dynamic = before.dynamic_hazards;
    assert(dynamic + seq![h] =~= dynamic.push(h));
    lemma_grid_registration_keeps_track(before.grid, after.grid, dynamic, seq![h]);
    lemma_same_frame_keeps_statics(before.grid, after.grid, before.static_hazards);
    let all = after.dynamic_hazards;
    assert forall|j: int| 0 <= j < all.len() implies (#[trigger] all[j]).wf()
        && all[j].entity.spec_dynamic() by {
        if j < dynamic.len() {
            assert(all[j] == dynamic[j]);
        }
    }
    assert forall|i: int, j: int| 0 <= i < j < all.len() implies (#[trigger] all[i]).entity != (
    #[trigger] all[j]).entity by {
        assert(all[i] == dynamic[i]);
        if j < dynamic.len() {
            assert(all[j] == dynamic[j]);
        } else {
            assert(dynamic[i].entity != h.entity);
        }
    }
}

/// An engine that takes a hazard out as it should stays well formed.
proof fn lemma_deregister_keeps_wf(before: CDEView, index: int, after: CDEView)
    requires
        before.wf(),
        0 <= index < before.dynamic_hazards.len(),
        deregisters(before, index, after),
        after.grid.wf(),
    ensures
        after.wf(),
{
    let dynamic = before.dynamic_hazards;
    let entity = dynamic[index].entity;
    let named = seq![entity];
    lemma_swap_remove_members(dynamic, index, after.dynamic_hazards);
    assert forall|i: int|
        0 <= i < dynamic.len() && (#[trigger] dynamic[i]).active && !named.contains(
            dynamic[i].entity,
        ) implies after.dynamic_hazards.contains(dynamic[i]) by {
        assert(named[0] == entity);
    }
    lemma_grid_deregistration_keeps_track(
        before.grid,
        after.grid,
        dynamic,
        named,
        after.dynamic_hazards,
    );
    lemma_same_frame_keeps_statics(before.grid, after.grid, before.static_hazards);
}

/// An engine that switches a hazard as it should stays well formed.
proof fn lemma_switch_keeps_wf(before: CDEView, index: int, active: bool, after: CDEView)
    requires
        before.wf(),
        0 <= index < before.dynamic_hazards.len(),
        switches(before, index, active, after),
        after.grid.wf(),
    ensures
        after.wf(),
{
    let dynamic = before.dynamic_hazards;
    let switched = HazardView { active, ..dynamic[index] };
    let now = after.dynamic_hazards;
    lemma_switch_members(dynamic, index, active, now);
    lemma_same_frame_keeps_statics(before.grid, after.grid, before.static_hazards);
    if dynamic[index].active == active {
        assert(now =~= dynamic);
    } else if active {
        let both = dynamic + seq![switched];
        lemma_grid_registration_keeps_track(before.grid, after.grid, dynamic, seq![switched]);
        assert forall|a: int| 0 <= a < both.len() && (#[trigger] both[a]).active implies now.contains(
            both[a],
        ) by {
            if a < dynamic.len() {
                assert(both[a] == dynamic[a]);
                assert(now[a] == both[a]);
            } else {
                assert(now[index] == both[a]);
            }
        }
        assert forall|b: int| 0 <= b < now.len() && (#[trigger] now[b]).active implies both.contains(
            now[b],
        ) by {
            if b == index {
                assert(both[dynamic.len() as int] == now[b]);
            } else {
                assert(both[b] == now[b]);
            }
        }
        lemma_grid_tracks_same_active(after.grid, both, now);
    } else {
        let named = seq![switched.entity];
        assert forall|j: int| 0 <= j < now.len() && (#[trigger] now[j]).active implies dynamic.contains(
            now[j],
        ) by {
            assert(dynamic[j] == now[j]);
        }
        assert forall|i: int|
            0 <= i < dynamic.len() && (#[trigger] dynamic[i]).active && !named.contains(
                dynamic[i].entity,
            ) implies now.contains(dynamic[i]) by {
            assert(named[0] == switched.entity);
            assert(now[i] == dynamic[i]);
        }
        lemma_grid_deregistration_keeps_track(before.grid, after.grid, dynamic, named, now);
    }
}

/// Registering a hazard and taking it out again leaves the engine with the hazards it
/// had, and every cell with the proximity of the closest universal hazard that it had.
/// A cell whose closest universal hazard had no rival is as it was in everything.
pub proof fn lemma_register_then_deregister(
    before: CDEView,
    h: HazardView,
    between: CDEView,
    after: CDEView,
)
    requires
        before.wf(),
        between.wf(),
        after.wf(),
        registers(before, h, between),
        deregisters(between, between.position_of(h.entity), after),
    ensures
        after.bbox == before.bbox,
        after.config == before.config,
        after.static_hazards == before.static_hazards,
        after.dynamic_hazards == before.dynamic_hazards,
        after.grid.cells.len() == before.grid.cells.len(),
        forall|i: int|
            0 <= i < before.grid.cells.len() ==> (#[trigger] after.grid.cells[i]).uni_haz_prox.0
                == before.grid.cells[i].uni_haz_prox.0,
        forall|i: int|
            0 <= i < before.grid.cells.len() && unrivalled(
                #[trigger] before.grid.cells[i],
                before.dynamic_hazards,
            ) ==> after.grid.cells[i] == before.grid.cells[i],
{
    let last = before.dynamic_hazards.len() as int;
    assert(between.dynamic_hazards[last] == h);
    lemma_position_is_unique(between, h.entity, last);
    assert(after.dynamic_hazards =~= before.dynamic_hazards);
    assert forall|i: int| 0 <= i < before.grid.cells.len() implies (
    #[trigger] after.grid.cells[i]).uni_haz_prox.0 == before.grid.cells[i].uni_haz_prox.0 && (unrivalled(
        before.grid.cells[i],
        before.dynamic_hazards,
    ) ==> after.grid.cells[i] == before.grid.cells[i]) by {
        let a = before.grid.cells[i];
        let m = between.grid.cells[i];
        let c = after.grid.cells[i];
        assert(a.tracks(before.dynamic_hazards));
        assert(c.tracks(after.dynamic_hazards));
        assert(m == (crate::collision_detection::hp_cell::HPCellView { uni_haz_prox: m.uni_haz_prox, ..a }));
        assert(c == (crate::collision_detection::hp_cell::HPCellView { uni_haz_prox: c.uni_haz_prox, ..m }));
        lemma_tracking_determines_proximity(a, c, before.dynamic_hazards);
    }
}

/// The grid of an engine is determined by the bin, the number of cells asked for and
/// the hazards: two engines that agree on these agree on every cell, but for the
/// entity of a closest universal hazard that has a rival.
pub proof fn lemma_grid_is_determined(a: CDEView, b: CDEView)
    requires
        a.wf(),
        b.wf(),
        a.bbox == b.bbox,
        a.config.hpg_n_cells_target == b.config.hpg_n_cells_target,
        a.static_hazards == b.static_hazards,
        a.dynamic_hazards == b.dynamic_hazards,
    ensures
        a.grid.cell_size == b.grid.cell_size,
        a.grid.n_cols == b.grid.n_cols,
        a.grid.n_rows == b.grid.n_rows,
        a.grid.cells.len() == b.grid.cells.len(),
        forall|i: int|
            0 <= i < a.grid.cells.len() ==> (#[trigger] a.grid.cells[i])
                == (crate::collision_detection::hp_cell::HPCellView {
                uni_haz_prox: a.grid.cells[i].uni_haz_prox,
                ..b.grid.cells[i]
            }) && a.grid.cells[i].uni_haz_prox.0 == b.grid.cells[i].uni_haz_prox.0,
        forall|i: int|
            0 <= i < a.grid.cells.len() && unrivalled(#[trigger] a.grid.cells[i], a.dynamic_hazards)
                ==> a.grid.cells[i] == b.grid.cells[i],
{
    assert forall|i: int| 0 <= i < a.grid.cells.len() implies (#[trigger] a.grid.cells[i])
        == (crate::collision_detection::hp_cell::HPCellView {
        uni_haz_prox: a.grid.cells[i].uni_haz_prox,
        ..b.grid.cells[i]
    }) && a.grid.cells[i].uni_haz_prox.0 == b.grid.cells[i].uni_haz_prox.0 && (unrivalled(
        a.grid.cells[i],
        a.dynamic_hazards,
    ) ==> a.grid.cells[i] == b.grid.cells[i]) by {
        let ca = a.grid.cells[i];
        let cb = b.grid.cells[i];
        assert(ca.wf() && cb.wf());
        assert(ca.bbox == cb.bbox);
        assert(ca.tracks(a.dynamic_hazards));
        assert(cb.tracks(b.dynamic_hazards));
        assert(ca.static_uni_haz_prox == cb.static_uni_haz_prox);
        assert forall|q: int| 0 <= q < N_QUALITIES implies ca.qz_haz_prox[q] == cb.qz_haz_prox[q] by {
            assert(ca.qz_haz_prox[q] == closest_quality_zone(
                a.static_hazards,
                q,
                ca.centroid,
                a.static_hazards.len() as int,
            ));
        }
        assert(ca.qz_haz_prox =~= cb.qz_haz_prox);
        lemma_tracking_determines_proximity(ca, cb, a.dynamic_hazards);
    }
}

/// An operation on an engine has one outcome only: registering a hazard, taking one
/// out, or switching one, on the same engine, leaves the same engine, down to the
/// entity that each cell names.
pub proof fn lemma_operations_are_determined(
    before: CDEView,
    h: HazardView,
    index: int,
    active: bool,
    a: CDEView,
    b: CDEView,
)
    ensures
        registers(before, h, a) && registers(before, h, b) ==> a == b,
        deregisters(before, index, a) && deregisters(before, index, b) ==> a == b,
        switches(before, index, active, a) && switches(before, index, active, b) ==> a == b,
{
    if (registers(before, h, a) && registers(before, h, b)) || (deregisters(before, index, a)
        && deregisters(before, index, b)) || (switches(before, index, active, a) && switches(
        before,
        index,
        active,
        b,
    )) {
        assert forall|i: int| 0 <= i < a.grid.cells.len() implies a.grid.cells[i]
            == b.grid.cells[i] by {
            let cell = before.grid.cells[i];
            assert(a.grid.cells[i] == (crate::collision_detection::hp_cell::HPCellView {
                uni_haz_prox: a.grid.cells[i].uni_haz_prox,
                ..cell
            }));
            assert(b.grid.cells[i] == (crate::collision_detection::hp_cell::HPCellView {
                uni_haz_prox: b.grid.cells[i].uni_haz_prox,
                ..cell
            }));
        }
        assert(a.grid.cells =~= b.grid.cells);
    }
}

/// Every cell of an engine is complete: the proximity of its closest universal hazard
/// is as close as that of its closest static hazard and that of every active dynamic
/// hazard, measured on the poles; and its closest static hazard is as close as every
/// universal static hazard, measured on the polygon.
pub proof fn lemma_cells_are_complete(cde: CDEView, i: int)
    requires
        cde.wf(),
        0 <= i < cde.grid.cells.len(),
    ensures
        cde.grid.cells[i].uni_haz_prox.0.as_close_as(cde.grid.cells[i].static_uni_haz_prox.0),
        forall|j: int|
            0 <= j < cde.dynamic_hazards.len() ==> covers(
                cde.grid.cells[i].uni_haz_prox.0,
                #[trigger] cde.dynamic_hazards[j],
                cde.grid.cells[i].centroid,
            ),
        forall|j: int|
            0 <= j < cde.static_hazards.len() && (#[trigger] cde.static_hazards[j]).entity.spec_universal()
                ==> cde.grid.cells[i].static_uni_haz_prox.0.as_close_as(
                static_proximity(cde.static_hazards[j], cde.grid.cells[i].centroid),
            ),
{
    let cell = cde.grid.cells[i];
    assert(cell.tracks(cde.dynamic_hazards));
    lemma_tracking_is_complete(cell, cde.dynamic_hazards);
    assert forall|j: int|
        0 <= j < cde.static_hazards.len() && (
        #[trigger] cde.static_hazards[j]).entity.spec_universal() implies cell.static_uni_haz_prox.0.as_close_as(
        static_proximity(cde.static_hazards[j], cell.centroid),
    ) by {
        lemma_closest_static_least(
            cde.static_hazards,
            cell.centroid,
            cde.static_hazards.len() as int,
            j,
        );
    }
}

} // verus!
