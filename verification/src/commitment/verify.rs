//! Verifying an opening: one pairing on the left against a product of
//! pairings, one per variable, on the right.

use vstd::prelude::*;
use crate::commitment::commit::Commitment;
use crate::commitment::data_structures::VerifierParameter;
use crate::commitment::open::Proof;
use crate::commitment::MLPolyCommit;
use crate::curve::{
    all_g2_wf, g1_scale, g1_scale_of, g1_sub, g1_sub_of, g1_views, g2_views, gt_mul, gt_mul_of,
    pairing, pairing_of, GtEl,
};
use crate::error::Error;
use crate::field::{all_ok, vals_of, Fe};

verus! {

/// The product of the verification pairings over the first `cnt`
/// variables: each factor pairs the unmasked difference against the
/// matching proof component.
pub open spec fn gt_chain(
    masks: Seq<Seq<u8>>,
    g: Seq<u8>,
    pts: Seq<int>,
    prfs: Seq<Seq<u8>>,
    cnt: nat,
) -> Seq<u8>
    decreases cnt,
{
    if cnt <= 1 {
        pairing_of(g1_sub_of(masks[0], g1_scale_of(g, pts[0])), prfs[0])
    } else {
        gt_mul_of(
            gt_chain(masks, g, pts, prfs, (cnt - 1) as nat),
            pairing_of(g1_sub_of(masks[cnt - 1], g1_scale_of(g, pts[cnt - 1])), prfs[cnt - 1]),
        )
    }
}

impl MLPolyCommit {
    /// Check an opening: accept exactly when the pairing of the shifted
    /// commitment against `h` equals the product of the per-variable
    /// pairings.
    pub fn verify(
        vp: &VerifierParameter,
        commitment: &Commitment,
        point: &Vec<Fe>,
        eval: &Fe,
        proof: &Proof,
    ) -> (r: Result<bool, Error>)
        requires
            vp.wf(),
            commitment.wf(),
            all_ok(point@),
            eval.ok(),
            proof.wf(),
        ensures
            match r {
                Ok(b) => {
                    &&& point@.len() == vp.nv
                    &&& proof.proofs@.len() == vp.nv
                    &&& (b <==> pairing_of(
                        g1_sub_of(commitment.g_product@, g1_scale_of(vp.g@, eval.val())),
                        vp.h@,
                    ) == gt_chain(
                        g1_views(vp.g_mask_random@),
                        vp.g@,
                        vals_of(point@),
                        g2_views(proof.proofs@),
                        vp.nv as nat,
                    ))
                },
                Err(e) => e == Error::InvalidArg && (point@.len() != vp.nv || proof.proofs@.len()
                    != vp.nv),
            },
    {
        let nv = vp.nv;
        if point.len() != nv || proof.proofs.len() != nv {
            return Err(Error::InvalidArg);
        }
        let shifted = g1_sub(&commitment.g_product, &g1_scale(&vp.g, eval));
        let left = pairing(&shifted, &vp.h);
        proof {
            crate::field::lemma_vals_of_index(point@, 0);
        }
        let first_diff = g1_sub(&vp.g_mask_random[0], &g1_scale(&vp.g, &point[0]));
        let mut right: GtEl = pairing(&first_diff, &proof.proofs[0]);
        let mut i: usize = 1;
        while i < nv
            invariant
                1 <= i <= nv,
                vp.wf(),
                nv == vp.nv,
                point@.len() == nv,
                all_ok(point@),
                proof.proofs@.len() == nv,
                all_g2_wf(proof.proofs@),
                right@ == gt_chain(
                    g1_views(vp.g_mask_random@),
                    vp.g@,
                    vals_of(point@),
                    g2_views(proof.proofs@),
                    i as nat,
                ),
            decreases nv - i,
        {
            proof {
                crate::field::lemma_vals_of_index(point@, i as int);
            }
            let diff = g1_sub(&vp.g_mask_random[i], &g1_scale(&vp.g, &point[i]));
            let e = pairing(&diff, &proof.proofs[i]);
            right = gt_mul(&right, &e);
            i = i + 1;
        }
        Ok(left.equal(&right))
    }
}

} // verus!
