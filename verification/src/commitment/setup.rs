//! Commitment setup: sample the generators and the secret point, and mask
//! the eq tables of every suffix of the secret into both groups.

use vstd::prelude::*;
use vstd::arithmetic::power2::{lemma_pow2_pos, lemma_pow2_strictly_increases, pow2};
use crate::algebra::{eq_prod, point_of};
use crate::commitment::data_structures::{PublicParameter, VerifierParameter};
use crate::commitment::MLPolyCommit;
use crate::curve::{
    fe_sample, g1_sample, g1_scale, g1_scale_of, g2_sample, g2_scale, g2_scale_of, g1_views,
    g2_views, G1El, G2El,
};
use crate::data_structures::eq::eq_table;
use crate::error::Error;
use crate::field::{all_ok, prime, vals_of, Fe};

verus! {

/// The masked eq table of the suffix `t[i..]`: entry `x` is the base
/// raised to `eq(t[i..], x)`.
pub open spec fn masked_g1_table(base: Seq<u8>, tv: Seq<int>, i: int, x: int) -> Seq<u8> {
    g1_scale_of(base, eq_prod(tv.skip(i), point_of(x, (tv.len() - i) as nat)) % prime())
}

/// The same table masked into the second group.
pub open spec fn masked_g2_table(base: Seq<u8>, tv: Seq<int>, i: int, x: int) -> Seq<u8> {
    g2_scale_of(base, eq_prod(tv.skip(i), point_of(x, (tv.len() - i) as nat)) % prime())
}

impl MLPolyCommit {
    /// Sample generators and a secret point `t`, and publish the masked
    /// eq tables of every suffix of `t`, together with the verifier's
    /// masks `g^{t_i}`.
    ///
    /// The secret `t` is handed back only so that a caller with its own
    /// trust requirements can inspect or discard it; the argument system
    /// drops it on the spot.
    pub fn keygen(nv: usize, rng: &mut rand::rngs::StdRng) -> (r: Result<
        (PublicParameter, VerifierParameter, Vec<Fe>),
        Error,
    >)
        ensures
            match r {
                Ok((pp, vp, t)) => {
                    &&& 1 <= nv <= 30
                    &&& pp.wf()
                    &&& vp.wf()
                    &&& pp.nv == nv
                    &&& vp.nv == nv
                    &&& vp.g@ == pp.g@
                    &&& vp.h@ == pp.h@
                    &&& t@.len() == nv
                    &&& all_ok(t@)
                    &&& forall|i: int, x: int|
                        0 <= i < nv && 0 <= x < pow2((nv - i) as nat)
                            ==> (#[trigger] pp.powers_of_g@[i]@[x])@ == masked_g1_table(
                            pp.g@,
                            vals_of(t@),
                            i,
                            x,
                        )
                    &&& forall|i: int, x: int|
                        0 <= i < nv && 0 <= x < pow2((nv - i) as nat)
                            ==> (#[trigger] pp.powers_of_h@[i]@[x])@ == masked_g2_table(
                            pp.h@,
                            vals_of(t@),
                            i,
                            x,
                        )
                    &&& forall|i: int|
                        0 <= i < nv ==> (#[trigger] vp.g_mask_random@[i])@ == g1_scale_of(
                            pp.g@,
                            t@[i].val(),
                        )
                },
                Err(e) => e == Error::InvalidArg && !(1 <= nv <= 30),
            },
    {
        if nv == 0 || nv > 30 {
            return Err(Error::InvalidArg);
        }
        proof {
            vstd::arithmetic::power2::lemma2_to64();
            if (nv as nat) < 32 {
                lemma_pow2_strictly_increases(nv as nat, 32);
            }
            assert(pow2(32) == 0x100000000);
        }
        let g = g1_sample(rng);
        let h = g2_sample(rng);
        let mut t: Vec<Fe> = Vec::new();
        let mut i: usize = 0;
        while i < nv
            invariant
                i <= nv,
                t@.len() == i,
                all_ok(t@),
            decreases nv - i,
        {
            let s = fe_sample(rng);
            t.push(s);
            i = i + 1;
        }
        let ghost tv = vals_of(t@);
        let mut powers_of_g: Vec<Vec<G1El>> = Vec::new();
        let mut powers_of_h: Vec<Vec<G2El>> = Vec::new();
        let mut i: usize = 0;
        while i < nv
            invariant
                i <= nv,
                1 <= nv <= 30,
                pow2(nv as nat) <= usize::MAX,
                g.wf(),
                h.wf(),
                t@.len() == nv,
                all_ok(t@),
                tv == vals_of(t@),
                powers_of_g@.len() == i,
                powers_of_h@.len() == i,
                forall|ii: int|
                    0 <= ii < i ==> (#[trigger] powers_of_g@[ii])@.len() == pow2((nv - ii) as nat)
                        && crate::curve::all_g1_wf(powers_of_g@[ii]@),
                forall|ii: int|
                    0 <= ii < i ==> (#[trigger] powers_of_h@[ii])@.len() == pow2((nv - ii) as nat)
                        && crate::curve::all_g2_wf(powers_of_h@[ii]@),
                forall|ii: int, x: int|
                    0 <= ii < i && 0 <= x < pow2((nv - ii) as nat)
                        ==> (#[trigger] powers_of_g@[ii]@[x])@ == masked_g1_table(g@, tv, ii, x),
                forall|ii: int, x: int|
                    0 <= ii < i && 0 <= x < pow2((nv - ii) as nat)
                        ==> (#[trigger] powers_of_h@[ii]@[x])@ == masked_g2_table(h@, tv, ii, x),
            decreases nv - i,
        {
            let mut tail: Vec<Fe> = Vec::new();
            let mut j: usize = i;
            while j < nv
                invariant
                    i <= j <= nv,
                    t@.len() == nv,
                    all_ok(t@),
                    tail@.len() == j - i,
                    all_ok(tail@),
                    forall|jj: int| 0 <= jj < j - i ==> tail@[jj] == t@[i + jj],
                decreases nv - j,
            {
                tail.push(t[j]);
                j = j + 1;
            }
            proof {
                assert(tail@ =~= t@.skip(i as int));
                assert(vals_of(tail@) =~= tv.skip(i as int)) by {
                    assert forall|jj: int| 0 <= jj < tail@.len() implies vals_of(tail@)[jj]
                        == tv.skip(i as int)[jj] by {
                        crate::field::lemma_vals_of_index(tail@, jj);
                        crate::field::lemma_vals_of_index(t@, i + jj);
                    }
                }
                if ((nv - i) as nat) < nv as nat {
                    lemma_pow2_strictly_increases((nv - i) as nat, nv as nat);
                }
            }
            let sub = eq_table(&tail);
            let size = sub.len();
            let mut gtab: Vec<G1El> = Vec::new();
            let mut htab: Vec<G2El> = Vec::new();
            let mut x: usize = 0;
            while x < size
                invariant
                    x <= size,
                    i < nv,
                    g.wf(),
                    h.wf(),
                    tv.len() == nv,
                    size == pow2((nv - i) as nat),
                    sub@.len() == size,
                    all_ok(sub@),
                    forall|b: int|
                        0 <= b < size ==> (#[trigger] sub@[b]).val() == eq_prod(
                            tv.skip(i as int),
                            point_of(b, (nv - i) as nat),
                        ) % prime(),
                    gtab@.len() == x,
                    htab@.len() == x,
                    crate::curve::all_g1_wf(gtab@),
                    crate::curve::all_g2_wf(htab@),
                    forall|b: int|
                        0 <= b < x ==> (#[trigger] gtab@[b])@ == masked_g1_table(g@, tv, i as int, b),
                    forall|b: int|
                        0 <= b < x ==> (#[trigger] htab@[b])@ == masked_g2_table(h@, tv, i as int, b),
                decreases size - x,
            {
                let ge = g1_scale(&g, &sub[x]);
                let he = g2_scale(&h, &sub[x]);
                gtab.push(ge);
                htab.push(he);
                x = x + 1;
            }
            powers_of_g.push(gtab);
            powers_of_h.push(htab);
            i = i + 1;
        }
        let mut g_mask_random: Vec<G1El> = Vec::new();
        let mut i: usize = 0;
        while i < nv
            invariant
                i <= nv,
                g.wf(),
                t@.len() == nv,
                all_ok(t@),
                g_mask_random@.len() == i,
                crate::curve::all_g1_wf(g_mask_random@),
                forall|ii: int|
                    0 <= ii < i ==> (#[trigger] g_mask_random@[ii])@ == g1_scale_of(
                        g@,
                        t@[ii].val(),
                    ),
            decreases nv - i,
        {
            let m = g1_scale(&g, &t[i]);
            g_mask_random.push(m);
            i = i + 1;
        }
        let gv = g.duplicate();
        let hv = h.duplicate();
        let pp = PublicParameter { nv, powers_of_g, powers_of_h, g, h };
        let vp = VerifierParameter { nv, g: gv, h: hv, g_mask_random };
        Ok((pp, vp, t))
    }
}

} // verus!
