//! The ways in which an operation can fail.

use vstd::prelude::*;

verus! {

/// Why an operation was refused. An operation that fails leaves its subject unchanged.
#[derive(Clone, Copy, Debug, PartialEq, Eq, Hash, Structural)]
pub enum CDEError {
    /// A value handed in is not acceptable: a coordinate out of range, a polygon with
    /// fewer than three vertices or without area, a quality class out of range, an
    /// empty list of poles, an entity that is already registered or not registered.
    InvalidInput,
    /// A check that the library makes on its own state at run time has failed.
    InvariantViolation,
    /// The request is outside of what the engine supports: a dynamic hazard whose
    /// exterior is the forbidden side.
    UnsupportedConfiguration,
}

} // verus!
