//! Collision detection for two-dimensional irregular packing on an integer lattice.
//!
//! Lengths and coordinates are whole numbers of a unit that the caller chooses, within
//! `2^30` of the origin. Where two shapes lie relative to each other is decided
//! exactly, by cross products; every distance is rounded down to the unit. Shapes are
//! moved by the rigid transformations that map the lattice onto itself: rotations by
//! quarter turns and translations by lattice vectors.
//!
//! The engine ([`collision_detection::cd_engine::CDEngine`]) holds the hazards of a
//! layout, answers whether a shape or its surrogate collides with them, and keeps a
//! grid of cells ([`collision_detection::hazard_proximity_grid::HazardProximityGrid`])
//! that know how close their centers are to the nearest hazard. Contracts are stated
//! over mathematical integers and sequences, on the view of each type.

pub mod error;
pub mod geometry;
pub mod collision_detection;
pub mod entities;

use vstd::prelude::*;

verus! {

/// Number of quality classes. Quality zones carry a class below this number.
pub const N_QUALITIES: usize = 10;

} // verus!
