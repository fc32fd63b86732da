//! Where a point lies relative to a shape.

use vstd::prelude::*;

verus! {

/// The side of a shape's border on which something lies. The border itself counts as
/// `Interior`.
#[derive(Clone, Copy, Debug, PartialEq, Eq, Hash, Structural)]
pub enum GeoPosition {
    Exterior,
    Interior,
}

impl GeoPosition {
    /// The other side.
    pub fn inverse(&self) -> (r: GeoPosition)
        ensures
            r != *self,
    {
        match self {
            GeoPosition::Exterior => GeoPosition::Interior,
            GeoPosition::Interior => GeoPosition::Exterior,
        }
    }
}

} // verus!
