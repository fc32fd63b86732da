//! The packing problems.

pub mod strip_packing;
