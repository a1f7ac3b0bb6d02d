//! Error kinds surfaced by the store and the engine.
use vstd::prelude::*;

verus! {

/// Failures of the entity store.
#[derive(Clone, Copy, Debug, PartialEq, Eq, Structural)]
pub enum DriverError {
    /// The entity does not exist.
    NotFound,
    /// A unique value is already taken.
    Conflict,
}

/// Errors visible at the engine's boundary.
#[derive(Clone, Copy, Debug, PartialEq, Eq, Structural)]
pub enum CoreError {
    BadRequest,
    Forbidden,
    Unauthorised,
    NotFound,
    Driver(DriverError),
}

pub type CoreResult<T> = Result<T, CoreError>;

} // verus!
