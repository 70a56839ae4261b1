//! Parameter bundles of the commitment scheme.

use vstd::prelude::*;
use vstd::arithmetic::power2::pow2;
use crate::curve::{all_g1_wf, all_g2_wf, G1El, G2El};

verus! {

/// The prover's parameters: for each suffix length `k = nv - i`, the
/// masked eq table of the last `k` secret coordinates, in both groups.
pub struct PublicParameter {
    pub nv: usize,
    pub powers_of_g: Vec<Vec<G1El>>,
    pub powers_of_h: Vec<Vec<G2El>>,
    pub g: G1El,
    pub h: G2El,
}

impl PublicParameter {
    /// Well-formed: one table per variable, of halving power-of-two
    /// lengths, every entry a valid encoding.
    pub open spec fn wf(self) -> bool {
        &&& 1 <= self.nv <= 30
        &&& pow2(self.nv as nat) <= usize::MAX
        &&& self.g.wf()
        &&& self.h.wf()
        &&& self.powers_of_g@.len() == self.nv
        &&& self.powers_of_h@.len() == self.nv
        &&& forall|i: int|
            0 <= i < self.nv ==> (#[trigger] self.powers_of_g@[i])@.len() == pow2(
                (self.nv - i) as nat,
            ) && all_g1_wf(self.powers_of_g@[i]@)
        &&& forall|i: int|
            0 <= i < self.nv ==> (#[trigger] self.powers_of_h@[i])@.len() == pow2(
                (self.nv - i) as nat,
            ) && all_g2_wf(self.powers_of_h@[i]@)
    }
}

/// The verifier's parameters: the generators and the masks `g^{t_i}`.
pub struct VerifierParameter {
    pub nv: usize,
    pub g: G1El,
    pub h: G2El,
    pub g_mask_random: Vec<G1El>,
}

impl VerifierParameter {
    /// Well-formed: one mask per variable, every entry a valid encoding.
    pub open spec fn wf(self) -> bool {
        &&& 1 <= self.nv <= 30
        &&& self.g.wf()
        &&& self.h.wf()
        &&& self.g_mask_random@.len() == self.nv
        &&& all_g1_wf(self.g_mask_random@)
    }
}

} // verus!
