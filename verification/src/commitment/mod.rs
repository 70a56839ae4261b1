//! The multilinear polynomial commitment: a pairing-based scheme over the
//! Boolean hypercube. Setup samples a secret point and publishes masked
//! eq tables; a commitment is one multi-scalar multiplication; an opening
//! walks the cube-division decomposition of the polynomial; verification
//! is a product of pairings.

pub mod commit;
pub mod data_structures;
pub mod open;
pub mod setup;
pub mod verify;

use vstd::prelude::*;

verus! {

/// The commitment scheme, as a unit carrying its operations.
pub struct MLPolyCommit;

} // verus!
