//! Why a construction was refused.

use vstd::prelude::*;

verus! {

/// The ways in which a request to the library can be refused.
#[derive(Copy, Clone, Debug, PartialEq, Eq, Hash, Structural)]
pub enum GlobeError {
    /// The subdivision level was zero: a triangle cannot be cut into no parts.
    InvalidSubdivisionLevel,
}

} // verus!
