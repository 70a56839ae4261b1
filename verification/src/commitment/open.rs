//! Opening a commitment at a point: the long division of the polynomial
//! along the cube, one variable at a time, with each quotient table
//! masked into the second group.

use vstd::prelude::*;
use vstd::arithmetic::power2::{lemma_pow2_pos, lemma_pow2_unfold, pow2};
use crate::algebra::{bind_seq, mle_eval};
use crate::commitment::data_structures::PublicParameter;
use crate::commitment::MLPolyCommit;
use crate::curve::{all_g2_wf, g2_msm, g2_msm_of, g2_views, G2El};
use crate::data_structures::ml_extension::{bind_table, copy_table, DenseMle};
use crate::error::Error;
use crate::field::{all_ok, fe_sub, lemma_vals_of_index, prime, vals_of, Fe};

verus! {

/// An opening proof: one masked quotient per variable.
pub struct Proof {
    pub proofs: Vec<G2El>,
}

impl Proof {
    /// Every component is a valid encoding.
    pub open spec fn wf(self) -> bool {
        all_g2_wf(self.proofs@)
    }
}

/// The residual table after binding the first `i` point coordinates.
pub open spec fn r_table(poly: Seq<int>, pt: Seq<int>, i: nat) -> Seq<int>
    decreases i,
{
    if i == 0 {
        poly
    } else {
        bind_seq(r_table(poly, pt, (i - 1) as nat), pt[i - 1])
    }
}

/// The quotient table of one division step: odd minus even entries.
pub open spec fn q_of(t: Seq<int>) -> Seq<int> {
    Seq::new((t.len() / 2) as nat, |b: int| (t[2 * b + 1] - t[2 * b]) % prime())
}

/// The quotient table with every entry repeated, matching the masked
/// table it is multiplied against.
pub open spec fn expand_q(q: Seq<int>) -> Seq<int> {
    Seq::new(2 * q.len(), |u: int| q[u / 2])
}

impl MLPolyCommit {
    /// Evaluate the polynomial at `point` and produce the opening proof.
    ///
    /// Step `i` splits the current table into a quotient, which is masked
    /// against the suffix table of the parameters, and a remainder, which
    /// is the table with coordinate `i` bound in; the final remainder is
    /// the claimed value. The quotient tables are returned alongside for
    /// inspection.
    pub fn open(pp: &PublicParameter, polynomial: &DenseMle, point: &Vec<Fe>) -> (r: Result<
        (Fe, Proof, Vec<Vec<Fe>>),
        Error,
    >)
        requires
            pp.wf(),
            polynomial.wf(),
            all_ok(point@),
        ensures
            match r {
                Ok((y, pf, q)) => {
                    &&& polynomial.nvars() == pp.nv
                    &&& point@.len() == pp.nv
                    &&& y.ok()
                    &&& y.val() == mle_eval(polynomial@, vals_of(point@))
                    &&& pf.wf()
                    &&& pf.proofs@.len() == pp.nv
                    &&& forall|i: int|
                        0 <= i < pp.nv ==> (#[trigger] pf.proofs@[i])@ == g2_msm_of(
                            g2_views(pp.powers_of_h@[i]@),
                            expand_q(q_of(r_table(polynomial@, vals_of(point@), i as nat))),
                        )
                    &&& q@.len() == pp.nv + 1
                    &&& forall|k: int|
                        1 <= k <= pp.nv ==> vals_of((#[trigger] q@[k])@) == q_of(
                            r_table(polynomial@, vals_of(point@), (pp.nv - k) as nat),
                        )
                },
                Err(e) => e == Error::InvalidArg && (polynomial.nvars() != pp.nv || point@.len()
                    != pp.nv),
            },
    {
        let nv = pp.nv;
        if polynomial.num_vars() != nv || point.len() != nv {
            return Err(Error::InvalidArg);
        }
        let ghost pts = vals_of(point@);
        let eval_result = polynomial.eval_at(point);
        let mut cur: Vec<Fe> = copy_table(polynomial.table());
        let mut proofs: Vec<G2El> = Vec::new();
        let mut qs: Vec<Vec<Fe>> = Vec::new();
        let mut k: usize = 0;
        while k < nv + 1
            invariant
                k <= nv + 1,
                nv <= 30,
                qs@.len() == k,
            decreases nv + 1 - k,
        {
            let empty: Vec<Fe> = Vec::new();
            qs.push(empty);
            k = k + 1;
        }
        let mut i: usize = 0;
        proof {
            assert(vals_of(cur@) == r_table(polynomial@, pts, 0));
        }
        while i < nv
            invariant
                i <= nv,
                1 <= nv <= 30,
                pow2(nv as nat) <= usize::MAX,
                pp.wf(),
                nv == pp.nv,
                polynomial.wf(),
                polynomial.nvars() == nv,
                point@.len() == nv,
                all_ok(point@),
                pts == vals_of(point@),
                all_ok(cur@),
                vals_of(cur@) == r_table(polynomial@, pts, i as nat),
                cur@.len() == pow2((nv - i) as nat),
                proofs@.len() == i,
                all_g2_wf(proofs@),
                forall|ii: int|
                    0 <= ii < i ==> (#[trigger] proofs@[ii])@ == g2_msm_of(
                        g2_views(pp.powers_of_h@[ii]@),
                        expand_q(q_of(r_table(polynomial@, pts, ii as nat))),
                    ),
                qs@.len() == nv + 1,
                forall|kk: int|
                    nv - i < kk <= nv ==> vals_of((#[trigger] qs@[kk])@) == q_of(
                        r_table(polynomial@, pts, (nv - kk) as nat),
                    ),
            decreases nv - i,
        {
            proof {
                lemma_pow2_unfold((nv - i) as nat);
                lemma_pow2_pos((nv - i - 1) as nat);
            }
            let half = cur.len() / 2;
            let ghost rt = vals_of(cur@);
            let mut qk: Vec<Fe> = Vec::new();
            let mut b: usize = 0;
            while b < half
                invariant
                    b <= half,
                    half == cur@.len() / 2,
                    2 * half == cur@.len(),
                    all_ok(cur@),
                    rt == vals_of(cur@),
                    qk@.len() == b,
                    all_ok(qk@),
                    forall|bb: int|
                        0 <= bb < b ==> (#[trigger] qk@[bb]).val() == (rt[2 * bb + 1] - rt[2 * bb])
                            % prime(),
                decreases half - b,
            {
                proof {
                    lemma_vals_of_index(cur@, 2 * b as int);
                    lemma_vals_of_index(cur@, 2 * b as int + 1);
                }
                let e = fe_sub(&cur[2 * b + 1], &cur[2 * b]);
                qk.push(e);
                b = b + 1;
            }
            proof {
                assert(vals_of(qk@) =~= q_of(rt)) by {
                    assert forall|bb: int| 0 <= bb < half implies vals_of(qk@)[bb] == q_of(rt)[bb]
                        by {
                        lemma_vals_of_index(qk@, bb);
                    }
                }
            }
            let mut scalars: Vec<Fe> = Vec::new();
            let mut u: usize = 0;
            while u < 2 * half
                invariant
                    u <= 2 * half,
                    half <= usize::MAX / 2,
                    half == qk@.len(),
                    all_ok(qk@),
                    scalars@.len() == u,
                    all_ok(scalars@),
                    forall|uu: int| 0 <= uu < u ==> (#[trigger] scalars@[uu]) == qk@[uu / 2],
                decreases 2 * half - u,
            {
                let e = qk[u / 2];
                scalars.push(e);
                u = u + 1;
            }
            proof {
                assert(vals_of(scalars@) =~= expand_q(vals_of(qk@))) by {
                    assert forall|uu: int| 0 <= uu < 2 * half implies vals_of(scalars@)[uu]
                        == expand_q(vals_of(qk@))[uu] by {
                        lemma_vals_of_index(scalars@, uu);
                        lemma_vals_of_index(qk@, uu / 2);
                    }
                }
                assert(pp.powers_of_h@[i as int]@.len() == pow2((nv - i) as nat));
            }
            let pi_h = g2_msm(&pp.powers_of_h[i], &scalars);
            proofs.push(pi_h);
            qs.set(nv - i, qk);
            let ghost pre_bind = vals_of(cur@);
            cur = bind_table(&cur, &point[i]);
            proof {
                lemma_vals_of_index(point@, i as int);
                assert(vals_of(cur@) == bind_seq(pre_bind, pts[i as int]));
                assert(r_table(polynomial@, pts, (i + 1) as nat) == bind_seq(
                    r_table(polynomial@, pts, i as nat),
                    pts[i as int],
                ));
                assert(vals_of(cur@).len() == pre_bind.len() / 2);
            }
            i = i + 1;
        }
        let pf = Proof { proofs };
        Ok((eval_result, pf, qs))
    }
}

} // verus!
