//! Committing to a multilinear polynomial: one multi-scalar
//! multiplication of its table against the full masked eq table.

use vstd::prelude::*;
use vstd::arithmetic::power2::pow2;
use crate::commitment::data_structures::PublicParameter;
use crate::commitment::MLPolyCommit;
use crate::curve::{g1_msm, g1_msm_of, g1_views, G1El};
use crate::data_structures::ml_extension::DenseMle;
use crate::error::Error;
use crate::field::vals_of;

verus! {

/// A commitment: the arity of the committed polynomial and the masked
/// product point.
pub struct Commitment {
    pub nv: usize,
    pub g_product: G1El,
}

impl Commitment {
    /// A valid encoding of the declared arity.
    pub open spec fn wf(self) -> bool {
        self.g_product.wf()
    }

    /// A copy of this commitment.
    pub fn duplicate(&self) -> (r: Commitment)
        ensures
            r.nv == self.nv,
            r.g_product@ == self.g_product@,
    {
        Commitment { nv: self.nv, g_product: self.g_product.duplicate() }
    }
}

impl MLPolyCommit {
    /// Commit to a polynomial under the public parameters.
    ///
    /// The commitment is the multi-scalar multiplication of the
    /// polynomial's table against the full masked eq table, which makes
    /// it the generator raised to the polynomial's value at the secret
    /// point. Rejected when the arity does not match the parameters.
    pub fn commit(pp: &PublicParameter, polynomial: &DenseMle) -> (r: Result<Commitment, Error>)
        requires
            pp.wf(),
            polynomial.wf(),
        ensures
            match r {
                Ok(c) => {
                    &&& polynomial.nvars() == pp.nv
                    &&& c.nv == pp.nv
                    &&& c.wf()
                    &&& c.g_product@ == g1_msm_of(g1_views(pp.powers_of_g@[0]@), polynomial@)
                },
                Err(e) => e == Error::InvalidArg && polynomial.nvars() != pp.nv,
            },
    {
        if polynomial.num_vars() != pp.nv {
            return Err(Error::InvalidArg);
        }
        let scalars = polynomial.table();
        let bases = &pp.powers_of_g[0];
        proof {
            assert(pp.powers_of_g@[0]@.len() == pow2(pp.nv as nat));
            assert(vals_of(scalars@) == polynomial@);
        }
        let g_product = g1_msm(bases, scalars);
        Ok(Commitment { nv: pp.nv, g_product })
    }
}

} // verus!
