//! The items to be packed.

use vstd::prelude::*;
use crate::collision_detection::hazard_filter::QZHazardFilter;
use crate::geometry::simple_polygon::{PolygonView, SimplePolygon};

verus! {

/// What an item holds, as mathematical values.
pub struct ItemView {
    pub id: usize,
    pub shape: PolygonView,
    pub base_quality: Option<usize>,
    pub hazard_filter: Option<QZHazardFilter>,
}

impl ItemView {
    /// The shape is well formed, and the filter passes over the quality zones that
    /// the item is good enough for.
    pub open spec fn wf(self) -> bool {
        &&& self.shape.wf()
        &&& self.hazard_filter == filter_for(self.base_quality)
    }
}

/// The filter of an item of the given quality: it passes over the quality zones of
/// that class and above. An item without a quality has no filter.
pub open spec fn filter_for(base_quality: Option<usize>) -> Option<QZHazardFilter> {
    match base_quality {
        Some(quality) => Some(QZHazardFilter { cutoff_quality: quality }),
        None => None,
    }
}

/// An item to be packed: a shape, as it lies before it is placed, and the quality
/// that the item demands of the zone it is placed in.
#[derive(Debug)]
pub struct Item {
    id: usize,
    shape: SimplePolygon,
    base_quality: Option<usize>,
    hazard_filter: Option<QZHazardFilter>,
}

impl View for Item {
    type V = ItemView;

    closed spec fn view(&self) -> ItemView {
        ItemView {
            id: self.id,
            shape: self.shape@,
            base_quality: self.base_quality,
            hazard_filter: self.hazard_filter,
        }
    }
}

impl Clone for Item {
    /// A copy that holds the same values.
    fn clone(&self) -> (r: Item)
        ensures
            r@ == self@,
    {
        Item {
            id: self.id,
            shape: self.shape.clone(),
            base_quality: self.base_quality,
            hazard_filter: self.hazard_filter,
        }
    }
}

impl Item {
    pub open spec fn wf(&self) -> bool {
        self@.wf()
    }

    pub fn new(id: usize, shape: SimplePolygon, base_quality: Option<usize>) -> (r: Item)
        requires
            shape.wf(),
        ensures
            r@ == (ItemView {
                id,
                shape: shape@,
                base_quality,
                hazard_filter: filter_for(base_quality),
            }),
            r.wf(),
    {
        let hazard_filter: Option<QZHazardFilter> = match base_quality {
            Some(quality) => Some(QZHazardFilter { cutoff_quality: quality }),
            None => None,
        };
        Item { id, shape, base_quality, hazard_filter }
    }

    pub fn id(&self) -> (r: usize)
        ensures
            r == self@.id,
    {
        self.id
    }

    pub fn shape(&self) -> (r: &SimplePolygon)
        ensures
            r@ == self@.shape,
    {
        &self.shape
    }

    pub fn base_quality(&self) -> (r: Option<usize>)
        ensures
            r == self@.base_quality,
    {
        self.base_quality
    }

    pub fn hazard_filter(&self) -> (r: Option<QZHazardFilter>)
        ensures
            r == self@.hazard_filter,
    {
        self.hazard_filter
    }
}

} // verus!
