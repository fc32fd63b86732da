//! Geometric primitives on the integer lattice.

pub mod numeric;
pub mod geo_enums;
pub mod point;
pub mod circle;
pub mod aa_rectangle;
pub mod edge;
pub mod d_transformation;
pub mod transformation;
pub mod sp_surrogate;
pub mod simple_polygon;
