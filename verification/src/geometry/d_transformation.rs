//! Rigid transformations in decomposed form.

use vstd::prelude::*;

verus! {

/// A proper rigid transformation, decomposed into a rotation followed by a
/// translation. Two placements of an item are the same placement exactly when their
/// decomposed transformations are equal.
///
/// The rotation is a whole number of quarter turns, counter-clockwise for a positive
/// number: the rotations that map the lattice onto itself. The translation is a
/// lattice vector.
#[derive(Clone, Copy, Debug, PartialEq, Eq, Hash, Structural)]
pub struct DTransformation {
    /// The rotation, in quarter turns.
    pub rotation: i64,
    /// The translation along the x axis.
    pub translation_x: i64,
    /// The translation along the y axis.
    pub translation_y: i64,
}

impl DTransformation {
    pub fn new(rotation: i64, translation: (i64, i64)) -> (r: DTransformation)
        ensures
            r.rotation == rotation,
            r.translation_x == translation.0,
            r.translation_y == translation.1,
    {
        DTransformation { rotation, translation_x: translation.0, translation_y: translation.1 }
    }

    /// The transformation that moves nothing.
    pub fn empty() -> (r: DTransformation)
        ensures
            r.rotation == 0,
            r.translation_x == 0,
            r.translation_y == 0,
    {
        DTransformation { rotation: 0, translation_x: 0, translation_y: 0 }
    }

    pub fn rotation(&self) -> (r: i64)
        ensures
            r == self.rotation,
    {
        self.rotation
    }

    pub fn translation(&self) -> (r: (i64, i64))
        ensures
            r.0 == self.translation_x,
            r.1 == self.translation_y,
    {
        (self.translation_x, self.translation_y)
    }
}

} // verus!
