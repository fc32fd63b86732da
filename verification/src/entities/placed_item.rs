//! Items as they lie in a layout.

use vstd::prelude::*;
use crate::collision_detection::hazard::HazardView;
use crate::collision_detection::hazard_entity::HazardEntity;
use crate::collision_detection::hazard_filter::QZHazardFilter;
use crate::entities::item::{Item, ItemView};
use crate::error::CDEError;
use crate::geometry::d_transformation::DTransformation;
use crate::geometry::simple_polygon::{PolygonView, SimplePolygon};
use crate::geometry::transformation::Transformation;

verus! {

/// The identity of a placed item: which item it is and where it was put.
#[derive(Clone, Copy, Debug, PartialEq, Eq, Hash, Structural)]
pub struct PlacedItemUID {
    pub item_id: usize,
    pub d_transf: DTransformation,
}

/// What a placed item holds, as mathematical values.
pub struct PlacedItemView {
    pub uid: PlacedItemUID,
    /// The shape of the item where it was put.
    pub shape: PolygonView,
    pub hazard_filter: Option<QZHazardFilter>,
}

impl PlacedItemView {
    /// The hazard that the placed item is to the items placed after it.
    pub open spec fn hazard(self) -> HazardView {
        HazardView {
            entity: HazardEntity::PlacedItem { id: self.uid },
            shape: self.shape,
            active: true,
        }
    }
}

/// The item can be put where `d_transf` says: its shape stays within coordinate
/// range.
pub open spec fn can_be_put(item: ItemView, d_transf: DTransformation) -> bool {
    item.shape.stays_in_range(d_transf.spec_compose())
}

/// `placed` is `item` put where `d_transf` says.
pub open spec fn is_put(placed: PlacedItemView, item: ItemView, d_transf: DTransformation) -> bool {
    let t = d_transf.spec_compose();
    &&& placed.uid == (PlacedItemUID { item_id: item.id, d_transf })
    &&& placed.shape.wf()
    &&& placed.shape.points == t.images_of(item.shape.points)
    &&& placed.shape.surrogate == item.shape.surrogate.transformed(t)
    &&& placed.hazard_filter == item.hazard_filter
}

/// An item as it lies in a layout.
#[derive(Debug)]
pub struct PlacedItem {
    uid: PlacedItemUID,
    shape: SimplePolygon,
    hazard_filter: Option<QZHazardFilter>,
}

impl View for PlacedItem {
    type V = PlacedItemView;

    closed spec fn view(&self) -> PlacedItemView {
        PlacedItemView { uid: self.uid, shape: self.shape@, hazard_filter: self.hazard_filter }
    }
}

impl Clone for PlacedItem {
    /// A copy that holds the same values.
    fn clone(&self) -> (r: PlacedItem)
        ensures
            r@ == self@,
    {
        PlacedItem { uid: self.uid, shape: self.shape.clone(), hazard_filter: self.hazard_filter }
    }
}

impl PlacedItem {
    /// The item put where `d_transf` says. It is refused where its shape would leave
    /// the coordinate range.
    pub fn new(item: &Item, d_transf: DTransformation) -> (r: Result<PlacedItem, CDEError>)
        requires
            item.wf(),
            d_transf.wf(),
        ensures
            r.is_ok() == can_be_put(item@, d_transf),
            r.is_ok() ==> is_put(r.unwrap()@, item@, d_transf),
            r.is_err() ==> r.unwrap_err() == CDEError::InvalidInput,
    {
        let transf: Transformation = d_transf.compose();
        match item.shape().transform_clone(&transf) {
            Ok(shape) => Ok(
                PlacedItem {
                    uid: PlacedItemUID { item_id: item.id(), d_transf },
                    shape,
                    hazard_filter: item.hazard_filter(),
                },
            ),
            Err(e) => Err(e),
        }
    }

    pub fn uid(&self) -> (r: &PlacedItemUID)
        ensures
            *r == self@.uid,
    {
        &self.uid
    }

    pub fn item_id(&self) -> (r: usize)
        ensures
            r == self@.uid.item_id,
    {
        self.uid.item_id
    }

    pub fn d_transformation(&self) -> (r: &DTransformation)
        ensures
            *r == self@.uid.d_transf,
    {
        &self.uid.d_transf
    }

    /// The shape of the item where it was put.
    pub fn shape(&self) -> (r: &SimplePolygon)
        ensures
            r@ == self@.shape,
    {
        &self.shape
    }

    pub fn hazard_filter(&self) -> (r: Option<QZHazardFilter>)
        ensures
            r == self@.hazard_filter,
    {
        self.hazard_filter
    }
}

} // verus!
