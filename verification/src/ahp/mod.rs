//! The algebraic holographic proof underlying the argument: six prover
//! rounds and five verifier messages, chaining a commitment to the
//! witness polynomial, two sumchecks over the matrix extensions, and two
//! commitment openings.

pub mod indexer;
pub mod prover;
pub mod verify;

use vstd::prelude::*;

verus! {

/// The protocol, as a unit carrying its round functions.
pub struct AHPForSpartan;

} // verus!
