//! Hazards: regions that a placement has to respect.

use vstd::prelude::*;
use crate::collision_detection::hazard_entity::HazardEntity;
use crate::error::CDEError;
use crate::geometry::simple_polygon::{PolygonView, SimplePolygon};

verus! {

/// What a hazard holds, as mathematical values.
pub struct HazardView {
    pub entity: HazardEntity,
    pub shape: PolygonView,
    pub active: bool,
}

impl HazardView {
    pub open spec fn wf(self) -> bool {
        &&& self.entity.wf()
        &&& self.shape.wf()
    }
}

/// A region that a placement has to respect, with what it stands for. A hazard can be
/// switched off for a while without being removed.
#[derive(Debug)]
pub struct Hazard {
    entity: HazardEntity,
    shape: SimplePolygon,
    active: bool,
}

impl View for Hazard {
    type V = HazardView;

    closed spec fn view(&self) -> HazardView {
        HazardView { entity: self.entity, shape: self.shape@, active: self.active }
    }
}

impl Clone for Hazard {
    /// A copy that holds the same entity, shape and switch.
    fn clone(&self) -> (r: Hazard)
        ensures
            r@ == self@,
    {
        Hazard { entity: self.entity, shape: self.shape.clone(), active: self.active }
    }
}

/// The views of a sequence of hazards, in the same order.
pub open spec fn hazard_views(hazards: Seq<Hazard>) -> Seq<HazardView> {
    Seq::new(hazards.len(), |i: int| hazards[i]@)
}

/// Every hazard of the sequence is well formed.
pub open spec fn all_wf(hazards: Seq<HazardView>) -> bool {
    forall|i: int| 0 <= i < hazards.len() ==> (#[trigger] hazards[i]).wf()
}

impl Hazard {
    pub open spec fn wf(&self) -> bool {
        self@.wf()
    }

    /// An active hazard with the given entity and shape. It is refused where the
    /// entity is a quality zone of a class that does not exist.
    pub fn new(entity: HazardEntity, shape: SimplePolygon) -> (r: Result<Hazard, CDEError>)
        requires
            shape.wf(),
        ensures
            r.is_ok() == entity.wf(),
            r.is_ok() ==> r.unwrap()@ == (HazardView { entity, shape: shape@, active: true }),
            r.is_err() ==> r.unwrap_err() == CDEError::InvalidInput,
    {
        if entity.is_valid() {
            Ok(Hazard { entity, shape, active: true })
        } else {
            Err(CDEError::InvalidInput)
        }
    }

    pub fn entity(&self) -> (r: &HazardEntity)
        ensures
            *r == self@.entity,
    {
        &self.entity
    }

    pub fn shape(&self) -> (r: &SimplePolygon)
        ensures
            r@ == self@.shape,
    {
        &self.shape
    }

    pub fn is_active(&self) -> (r: bool)
        ensures
            r == self@.active,
    {
        self.active
    }

    /// Switches the hazard on.
    pub fn activate(&mut self)
        ensures
            final(self)@ == (HazardView { active: true, ..old(self)@ }),
    {
        self.active = true;
    }

    /// Switches the hazard off.
    pub fn deactivate(&mut self)
        ensures
            final(self)@ == (HazardView { active: false, ..old(self)@ }),
    {
        self.active = false;
    }
}

} // verus!
