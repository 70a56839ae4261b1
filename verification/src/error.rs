//! Error codes surfaced by the indexer, the prover and the verifier.

use vstd::prelude::*;

verus! {

/// Every way the argument system can fail.
///
/// The structural errors come from malformed caller input; the witness
/// errors come from a check inside verification and mean the proof does not
/// convince the verifier.
#[derive(Clone, Copy, Debug, PartialEq, Eq, Structural)]
pub enum Error {
    /// A caller handed in data that breaks a structural precondition.
    InvalidArg,
    /// The claimed evaluation of the public-input polynomial is wrong.
    PublicInputMismatch,
    /// The residual claim of the first sumcheck does not hold.
    FirstSubclaim,
    /// The residual claim of the second sumcheck does not hold.
    SecondSubclaim,
    /// A commitment opening failed its pairing check.
    OpeningMismatch,
    /// A sumcheck round polynomial does not sum to the running claim.
    SumcheckMismatch,
    /// Proof bytes could not be decoded.
    SerializationError,
}

} // verus!
