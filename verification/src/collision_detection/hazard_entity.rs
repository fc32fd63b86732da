//! What a hazard stands for.

use vstd::prelude::*;
use crate::entities::placed_item::PlacedItemUID;
use crate::geometry::geo_enums::GeoPosition;
use crate::N_QUALITIES;

verus! {

/// The origin of a hazard.
#[allow(inconsistent_fields)]
#[derive(Clone, Copy, Debug, PartialEq, Eq, Hash, Structural)]
pub enum HazardEntity {
    /// An item placed in the layout.
    PlacedItem { id: PlacedItemUID },
    /// Everything outside of the bin.
    BinOuter,
    /// A hole in the bin.
    BinHole { id: usize },
    /// A zone of the bin of inferior quality.
    QualityZoneInferior { quality: usize, id: usize },
}

impl HazardEntity {
    /// The side of the hazard's shape on which an item collides with it: the outside
    /// for the bin's outer border, the inside for everything else.
    pub open spec fn spec_presence(self) -> GeoPosition {
        match self {
            HazardEntity::BinOuter => GeoPosition::Exterior,
            _ => GeoPosition::Interior,
        }
    }

    /// The hazard concerns every item, whatever its quality demands.
    pub open spec fn spec_universal(self) -> bool {
        !(self is QualityZoneInferior)
    }

    /// The hazard comes and goes with the layout.
    pub open spec fn spec_dynamic(self) -> bool {
        self is PlacedItem
    }

    /// A quality zone carries a class below `N_QUALITIES`.
    pub open spec fn wf(self) -> bool {
        self matches HazardEntity::QualityZoneInferior { quality, .. } ==> quality < N_QUALITIES
    }

    pub fn presence(&self) -> (r: GeoPosition)
        ensures
            r == self.spec_presence(),
    {
        match self {
            HazardEntity::BinOuter => GeoPosition::Exterior,
            _ => GeoPosition::Interior,
        }
    }

    pub fn universal(&self) -> (r: bool)
        ensures
            r == self.spec_universal(),
    {
        match self {
            HazardEntity::QualityZoneInferior { .. } => false,
            _ => true,
        }
    }

    pub fn dynamic(&self) -> (r: bool)
        ensures
            r == self.spec_dynamic(),
    {
        match self {
            HazardEntity::PlacedItem { .. } => true,
            _ => false,
        }
    }

    /// Tells whether the entity is well formed.
    pub fn is_valid(&self) -> (r: bool)
        ensures
            r == self.wf(),
    {
        match self {
            HazardEntity::QualityZoneInferior { quality, .. } => *quality < N_QUALITIES,
            _ => true,
        }
    }
}

} // verus!
