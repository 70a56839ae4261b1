//! The prover's side of the protocol: six rounds, from the commitment to
//! the witness polynomial to the final opening.

use vstd::prelude::*;
use vstd::arithmetic::div_mod::{
    lemma_add_mod_noop, lemma_mod_bound, lemma_mul_mod_noop_left, lemma_mul_mod_noop_right,
    lemma_sub_mod_noop_right,
};
use vstd::arithmetic::power2::pow2;
use crate::ahp::indexer::IndexPK;
use crate::ahp::verify::{
    VerifierFifthMessage, VerifierFirstMessage, VerifierFourthMessage, VerifierSecondMessage,
    VerifierThirdMessage,
};
use crate::ahp::AHPForSpartan;
use crate::algebra::{bit, comb_sum, cube_sum, eq_prod, eqf, mle_eval, point_of, prod_at};
use crate::commitment::commit::Commitment;
use crate::commitment::data_structures::PublicParameter;
use crate::commitment::open::{expand_q, q_of, r_table, Proof as EvalProof};
use crate::commitment::MLPolyCommit;
use crate::curve::{g1_msm_of, g1_views, g2_msm_of, g2_views};
use crate::data_structures::eq::eq_extension;
use crate::data_structures::ml_extension::{copy_table, DenseMle};
use crate::data_structures::r1cs_reader::{entry_dot, slice_at, MatrixExtension};
use crate::error::Error;
use crate::field::{all_ok, fmul, lemma_vals_of_index, prime, vals_of, Fe};
use crate::ml_sumcheck::{
    combo_view, lemma_combo_index, prover_init, prover_randomness, prove_round, IndexInfo,
    ProverMsg, ProverState as MLProverState, VerifierMsg as MLVerifierMsg,
};

verus! {

/// The table of the assignment polynomial: public inputs then witness.
pub open spec fn z_view(pk: IndexPK) -> Seq<int> {
    vals_of(pk.v@) + vals_of(pk.w@)
}

/// The table of row sums of a matrix extension against `z`.
pub open spec fn sum_y_table(m: MatrixExtension, z: Seq<int>) -> Seq<int> {
    Seq::new(pow2(m.nvars()), |x: int| entry_dot(m, z, x, z.len() as nat) % prime())
}

/// The same table, negated.
pub open spec fn neg_sum_y_table(m: MatrixExtension, z: Seq<int>) -> Seq<int> {
    Seq::new(pow2(m.nvars()), |x: int| (0 - entry_dot(m, z, x, z.len() as nat)) % prime())
}

/// The table of one eq factor, lifted over the whole cube.
pub open spec fn eq_factor_table(t: int, j: nat, n: nat) -> Seq<int> {
    Seq::new(pow2(n), |b: int| eqf(t, bit(b, j)) % prime())
}

/// The tables of all eq factors of the point `tor`.
pub open spec fn eq_factor_tables(tor: Seq<int>, n: nat) -> Seq<Seq<int>> {
    Seq::new(n, |j: int| eq_factor_table(tor[j], j as nat, n))
}

/// The combination of the first sumcheck: the claim that
/// `eq(tor, x) * ((Az)(x) (Bz)(x) - (Cz)(x))` sums to zero.
pub open spec fn first_sumcheck_tables(pk: IndexPK, tor: Seq<int>) -> Seq<Seq<Seq<int>>> {
    let z = z_view(pk);
    let n = pk.log_n as nat;
    seq![
        seq![sum_y_table(pk.matrix_a, z), sum_y_table(pk.matrix_b, z)] + eq_factor_tables(tor, n),
        seq![neg_sum_y_table(pk.matrix_c, z)] + eq_factor_tables(tor, n),
    ]
}

/// The table of the matrix extension sliced at `rx`, scaled by `s`.
pub open spec fn scaled_slice_table(m: MatrixExtension, rx: Seq<int>, s: int) -> Seq<int> {
    Seq::new(pow2(m.nvars()), |y: int| (s * slice_at(m, rx, y, pow2(m.nvars()))) % prime())
}

/// The combination of the second sumcheck: the claim that
/// `(ra A~ + rb B~ + rc C~)(rx, y) * z(y)` sums to the combined values.
pub open spec fn second_sumcheck_tables(
    pk: IndexPK,
    rx: Seq<int>,
    ra: int,
    rb: int,
    rc: int,
) -> Seq<Seq<Seq<int>>> {
    seq![
        seq![scaled_slice_table(pk.matrix_a, rx, ra), z_view(pk)],
        seq![scaled_slice_table(pk.matrix_b, rx, rb), z_view(pk)],
        seq![scaled_slice_table(pk.matrix_c, rx, rc), z_view(pk)],
    ]
}

/// The point `rv`, padded with zeros up to `n` coordinates.
pub open spec fn padded_point(rv: Seq<int>, n: nat) -> Seq<int> {
    rv + Seq::new((n - rv.len()) as nat, |i: int| 0int)
}

/// The prover before its first message.
pub struct ProverFirstState {
    pub pk: IndexPK,
}

/// The prover after committing to the assignment polynomial.
pub struct ProverSecondState {
    pub pk: IndexPK,
}

/// The prover after opening at the public-input point.
pub struct ProverThirdState {
    pub pk: IndexPK,
    pub z: DenseMle,
}

/// The prover while running the first sumcheck.
pub struct ProverFirstSumcheckState {
    pub pk: IndexPK,
    pub z: DenseMle,
    pub sum_az_over_y: DenseMle,
    pub sum_bz_over_y: DenseMle,
    pub sum_cz_over_y: DenseMle,
    pub ml_prover_state: MLProverState,
}

/// The prover between the sumchecks.
pub struct ProverFifthState {
    pub pk: IndexPK,
    pub z: DenseMle,
    pub r_x: Vec<Fe>,
}

/// The prover while running the second sumcheck.
pub struct ProverSecondSumcheckState {
    pub z: DenseMle,
    pub ml_prover_state: MLProverState,
}

/// The first message: the commitment to the assignment polynomial.
pub struct ProverFirstMessage {
    pub commitment: Commitment,
}

/// The second message: the claimed value at the public-input point, with
/// its opening.
pub struct ProverSecondMessage {
    pub z_rv_0: Fe,
    pub proof_for_z_rv_0: EvalProof,
}

/// The third message: the shape of the first sumcheck.
pub struct ProverThirdMessage {
    pub ml_index_info: IndexInfo,
}

/// The fourth message: the three matrix row-sum values at the sampled
/// row point.
pub struct ProverFourthMessage {
    pub va: Fe,
    pub vb: Fe,
    pub vc: Fe,
}

/// The fifth message: the shape of the second sumcheck.
pub struct ProverFifthMessage {
    pub index_info: IndexInfo,
}

/// The sixth message: the claimed value at the sampled column point,
/// with its opening.
pub struct ProverSixthMessage {
    pub z_ry: Fe,
    pub proof_for_z_ry: EvalProof,
}

/// The final message of the prover.
pub type ProverFinalMessage = ProverSixthMessage;

/// Build the assignment table `v` followed by `w`.
fn build_z(pk: &IndexPK) -> (r: DenseMle)
    requires
        pk.wf(),
    ensures
        r.wf(),
        r.nvars() == pk.log_n,
        r@ == z_view(*pk),
{
    let mut table = copy_table(&pk.v);
    let n = pk.w.len();
    let mut i: usize = 0;
    while i < n
        invariant
            i <= n,
            n == pk.w@.len(),
            table@ == pk.v@ + pk.w@.take(i as int),
        decreases n - i,
    {
        table.push(pk.w[i]);
        proof {
            assert(table@ =~= pk.v@ + pk.w@.take(i as int + 1));
        }
        i = i + 1;
    }
    proof {
        assert(table@ =~= pk.v@ + pk.w@);
        assert(all_ok(table@)) by {
            assert forall|j: int| 0 <= j < table@.len() implies (#[trigger] table@[j]).ok() by {
                if j < pk.v@.len() {
                    assert(table@[j] == pk.v@[j]);
                } else {
                    assert(table@[j] == pk.w@[j - pk.v@.len()]);
                }
            }
        }
    }
    let r = DenseMle::new_unchecked(table, pk.log_n);
    proof {
        assert(r@ =~= z_view(*pk)) by {
            assert forall|j: int| 0 <= j < r@.len() implies r@[j] == z_view(*pk)[j] by {
                lemma_vals_of_index(pk.v@ + pk.w@, j);
                if j < pk.v@.len() {
                    lemma_vals_of_index(pk.v@, j);
                } else {
                    lemma_vals_of_index(pk.w@, j - pk.v@.len());
                }
            }
        }
    }
    r
}

impl AHPForSpartan {
    /// Start the prover on a key and its assignment.
    pub fn prover_init(pk: IndexPK, v: Vec<Fe>, w: Vec<Fe>) -> (r: Result<ProverFirstState, Error>)
        requires
            pk.wf(),
            all_ok(v@),
            all_ok(w@),
        ensures
            match r {
                Ok(st) => {
                    &&& st.pk.wf()
                    &&& st.pk.v@ == v@
                    &&& st.pk.w@ == w@
                    &&& st.pk.matrix_a == pk.matrix_a
                    &&& st.pk.matrix_b == pk.matrix_b
                    &&& st.pk.matrix_c == pk.matrix_c
                    &&& st.pk.log_n == pk.log_n
                    &&& st.pk.log_v == pk.log_v
                    &&& v@.len() == pow2(pk.log_v as nat)
                    &&& v@.len() + w@.len() == pow2(pk.log_n as nat)
                },
                Err(e) => e == Error::InvalidArg && !(v@.len() == pow2(pk.log_v as nat) && v@.len()
                    + w@.len() == pow2(pk.log_n as nat)),
            },
    {
        let vlen_expected = crate::algebra::pow2_exec(pk.log_v);
        let nlen_expected = crate::algebra::pow2_exec(pk.log_n);
        proof {
            if (pk.log_v as nat) < pk.log_n as nat {
                vstd::arithmetic::power2::lemma_pow2_strictly_increases(
                    pk.log_v as nat,
                    pk.log_n as nat,
                );
            }
        }
        if v.len() != vlen_expected {
            return Err(Error::InvalidArg);
        }
        if v.len() > nlen_expected || w.len() != nlen_expected - v.len() {
            return Err(Error::InvalidArg);
        }
        let pk2 = IndexPK {
            matrix_a: pk.matrix_a,
            matrix_b: pk.matrix_b,
            matrix_c: pk.matrix_c,
            v,
            w,
            log_n: pk.log_n,
            log_v: pk.log_v,
        };
        Ok(ProverFirstState { pk: pk2 })
    }

    /// First round: commit to the assignment polynomial.
    pub fn prover_first_round(state: ProverFirstState, pp: &PublicParameter) -> (r: Result<
        (ProverSecondState, ProverFirstMessage),
        Error,
    >)
        requires
            state.pk.wf(),
            pp.wf(),
        ensures
            match r {
                Ok((st, msg)) => {
                    &&& pp.nv == state.pk.log_n
                    &&& st.pk == state.pk
                    &&& msg.commitment.nv == state.pk.log_n
                    &&& msg.commitment.wf()
                    &&& msg.commitment.g_product@ == g1_msm_of(
                        g1_views(pp.powers_of_g@[0]@),
                        z_view(state.pk),
                    )
                },
                Err(e) => e == Error::InvalidArg && pp.nv != state.pk.log_n,
            },
    {
        if pp.nv != state.pk.log_n {
            return Err(Error::InvalidArg);
        }
        let z = build_z(&state.pk);
        let commitment = match MLPolyCommit::commit(pp, &z) {
            Ok(c) => c,
            Err(e) => {
                return Err(e);
            },
        };
        Ok((ProverSecondState { pk: state.pk }, ProverFirstMessage { commitment }))
    }

    /// Second round: open the assignment polynomial at the public-input
    /// point, padded with zeros.
    pub fn prover_second_round(
        state: ProverSecondState,
        v_msg: VerifierFirstMessage,
        pp: &PublicParameter,
    ) -> (r: Result<(ProverThirdState, ProverSecondMessage), Error>)
        requires
            state.pk.wf(),
            pp.wf(),
            v_msg.r_v@.len() == state.pk.log_v,
            all_ok(v_msg.r_v@),
        ensures
            match r {
                Ok((st, msg)) => {
                    &&& pp.nv == state.pk.log_n
                    &&& st.pk == state.pk
                    &&& st.z.wf()
                    &&& st.z.nvars() == state.pk.log_n
                    &&& st.z@ == z_view(state.pk)
                    &&& msg.z_rv_0.ok()
                    &&& msg.z_rv_0.val() == mle_eval(
                        z_view(state.pk),
                        padded_point(vals_of(v_msg.r_v@), state.pk.log_n as nat),
                    )
                    &&& msg.proof_for_z_rv_0.wf()
                    &&& msg.proof_for_z_rv_0.proofs@.len() == state.pk.log_n
                    &&& forall|i: int|
                        0 <= i < state.pk.log_n
                            ==> (#[trigger] msg.proof_for_z_rv_0.proofs@[i])@ == g2_msm_of(
                            g2_views(pp.powers_of_h@[i]@),
                            expand_q(
                                q_of(
                                    r_table(
                                        z_view(state.pk),
                                        padded_point(
                                            vals_of(v_msg.r_v@),
                                            state.pk.log_n as nat,
                                        ),
                                        i as nat,
                                    ),
                                ),
                            ),
                        )
                },
                Err(e) => e == Error::InvalidArg && pp.nv != state.pk.log_n,
            },
    {
        if pp.nv != state.pk.log_n {
            return Err(Error::InvalidArg);
        }
        let z = build_z(&state.pk);
        let mut full = copy_table(&v_msg.r_v);
        let zero = Fe::zero();
        let n = state.pk.log_n;
        let mut i: usize = v_msg.r_v.len();
        while i < n
            invariant
                v_msg.r_v@.len() <= i <= n,
                zero.ok(),
                zero.val() == 0,
                full@.len() == i,
                full@.take(v_msg.r_v@.len() as int) == v_msg.r_v@,
                forall|j: int| v_msg.r_v@.len() <= j < i ==> (#[trigger] full@[j]).val() == 0,
                all_ok(v_msg.r_v@),
                forall|j: int| 0 <= j < v_msg.r_v@.len() ==> full@[j] == v_msg.r_v@[j],
            decreases n - i,
        {
            full.push(zero);
            i = i + 1;
        }
        proof {
            assert(all_ok(full@)) by {
                assert forall|j: int| 0 <= j < full@.len() implies (#[trigger] full@[j]).ok() by {
                    if j < v_msg.r_v@.len() {
                        assert(full@[j] == v_msg.r_v@[j]);
                    }
                }
            }
            assert(vals_of(full@) =~= padded_point(vals_of(v_msg.r_v@), n as nat)) by {
                assert forall|j: int| 0 <= j < full@.len() implies vals_of(full@)[j] == padded_point(
                    vals_of(v_msg.r_v@),
                    n as nat,
                )[j] by {
                    lemma_vals_of_index(full@, j);
                    if j < v_msg.r_v@.len() {
                        lemma_vals_of_index(v_msg.r_v@, j);
                    }
                }
            }
        }
        let opened = match MLPolyCommit::open(pp, &z, &full) {
            Ok(o) => o,
            Err(e) => {
                return Err(e);
            },
        };
        let (y0, pf, _qs) = opened;
        let msg = ProverSecondMessage { z_rv_0: y0, proof_for_z_rv_0: pf };
        Ok((ProverThirdState { pk: state.pk, z }, msg))
    }

    /// Third round: assemble the first sumcheck from the row sums and
    /// the eq factors of the verifier's point.
    pub fn prover_third_round(state: ProverThirdState, v_msg: VerifierSecondMessage) -> (r: Result<
        (ProverFirstSumcheckState, ProverThirdMessage),
        Error,
    >)
        requires
            state.pk.wf(),
            state.z.wf(),
            state.z.nvars() == state.pk.log_n,
            state.z@ == z_view(state.pk),
            v_msg.tor@.len() == state.pk.log_n,
            all_ok(v_msg.tor@),
        ensures
            ({
                let n = state.pk.log_n;
                match r {
                    Ok((st, msg)) => {
                        &&& st.pk == state.pk
                        &&& st.z@ == z_view(state.pk)
                        &&& st.z.wf()
                        &&& st.z.nvars() == n
                        &&& st.sum_az_over_y.wf() && st.sum_az_over_y.nvars() == n
                        &&& st.sum_az_over_y@ == sum_y_table(state.pk.matrix_a, z_view(state.pk))
                        &&& st.sum_bz_over_y.wf() && st.sum_bz_over_y.nvars() == n
                        &&& st.sum_bz_over_y@ == sum_y_table(state.pk.matrix_b, z_view(state.pk))
                        &&& st.sum_cz_over_y.wf() && st.sum_cz_over_y.nvars() == n
                        &&& st.sum_cz_over_y@ == sum_y_table(state.pk.matrix_c, z_view(state.pk))
                        &&& st.ml_prover_state.wf()
                        &&& st.ml_prover_state.round_s() == 0
                        &&& st.ml_prover_state.nv_s() == n
                        &&& st.ml_prover_state.maxm() == n + 2
                        &&& st.ml_prover_state.tables() == first_sumcheck_tables(
                            state.pk,
                            vals_of(v_msg.tor@),
                        )
                        &&& msg.ml_index_info == (IndexInfo {
                            num_variables: n,
                            max_multiplicands: (n + 2) as usize,
                        })
                    },
                    Err(_) => false,
                }
            }),
    {
        let pk = state.pk;
        let z = state.z;
        let n = pk.log_n;
        let ghost tv = vals_of(v_msg.tor@);
        let eq = eq_extension(&v_msg.tor);
        let sum_az_over_y = pk.matrix_a.sum_over_y(&z);
        let sum_bz_over_y = pk.matrix_b.sum_over_y(&z);
        let sum_cz_over_y = pk.matrix_c.sum_over_y(&z);
        let neg_c = sum_cz_over_y.negate();
        proof {
            assert(sum_az_over_y@ =~= sum_y_table(pk.matrix_a, z_view(pk)));
            assert(sum_bz_over_y@ =~= sum_y_table(pk.matrix_b, z_view(pk)));
            assert(sum_cz_over_y@ =~= sum_y_table(pk.matrix_c, z_view(pk)));
            assert(neg_c@ =~= neg_sum_y_table(pk.matrix_c, z_view(pk))) by {
                assert forall|x: int| 0 <= x < neg_c@.len() implies neg_c@[x] == neg_sum_y_table(
                    pk.matrix_c,
                    z_view(pk),
                )[x] by {
                    let e = entry_dot(pk.matrix_c, z_view(pk), x, z_view(pk).len() as nat);
                    assert(sum_cz_over_y@[x] == e % prime());
                    assert(neg_c@[x] == (0 - sum_cz_over_y@[x]) % prime());
                    lemma_sub_mod_noop_right(0, e, prime());
                }
            }
        }
        let mut p1: Vec<DenseMle> = Vec::new();
        p1.push(sum_az_over_y.duplicate());
        p1.push(sum_bz_over_y.duplicate());
        let mut j: usize = 0;
        while j < n
            invariant
                j <= n,
                n == pk.log_n,
                pk.wf(),
                eq@.len() == n,
                tv.len() == n,
                tv == vals_of(v_msg.tor@),
                all_ok(v_msg.tor@),
                forall|jj: int|
                    0 <= jj < n ==> {
                        &&& (#[trigger] eq@[jj]).wf()
                        &&& eq@[jj].nvars() == n
                        &&& forall|b: int|
                            0 <= b < pow2(n as nat) ==> #[trigger] eq@[jj]@[b] == eqf(
                                v_msg.tor@[jj].val(),
                                bit(b, jj as nat),
                            ) % prime()
                    },
                p1@.len() == j + 2,
                p1@[0]@ == sum_y_table(pk.matrix_a, z_view(pk)),
                p1@[1]@ == sum_y_table(pk.matrix_b, z_view(pk)),
                p1@[0].wf() && p1@[0].nvars() == n,
                p1@[1].wf() && p1@[1].nvars() == n,
                forall|jj: int| 0 <= jj < j ==> #[trigger] p1@[jj + 2]@ == eq@[jj]@,
                forall|jj: int|
                    2 <= jj < j + 2 ==> (#[trigger] p1@[jj]).wf() && p1@[jj].nvars() == n,
                sum_az_over_y.wf() && sum_az_over_y.nvars() == n,
                sum_bz_over_y.wf() && sum_bz_over_y.nvars() == n,
            decreases n - j,
        {
            p1.push(eq[j].duplicate());
            j = j + 1;
        }
        let mut p2: Vec<DenseMle> = Vec::new();
        p2.push(neg_c);
        let mut j: usize = 0;
        while j < n
            invariant
                j <= n,
                n == pk.log_n,
                pk.wf(),
                eq@.len() == n,
                forall|jj: int|
                    0 <= jj < n ==> {
                        &&& (#[trigger] eq@[jj]).wf()
                        &&& eq@[jj].nvars() == n
                    },
                p2@.len() == j + 1,
                p2@[0]@ == neg_sum_y_table(pk.matrix_c, z_view(pk)),
                p2@[0].wf() && p2@[0].nvars() == n,
                forall|jj: int| 0 <= jj < j ==> #[trigger] p2@[jj + 1]@ == eq@[jj]@,
                forall|jj: int|
                    1 <= jj < j + 1 ==> (#[trigger] p2@[jj]).wf() && p2@[jj].nvars() == n,
            decreases n - j,
        {
            p2.push(eq[j].duplicate());
            j = j + 1;
        }
        let mut products: Vec<Vec<DenseMle>> = Vec::new();
        products.push(p1);
        products.push(p2);
        proof {
            assert(crate::ml_sumcheck::combo_wf(products@, n as nat, (n + 2) as nat)) by {
                assert forall|i: int| 0 <= i < products@.len() implies 1 <= (
                #[trigger] products@[i])@.len() <= n + 2 by {}
                assert forall|i: int, jj: int|
                    0 <= i < products@.len() && 0 <= jj < products@[i]@.len() implies (
                #[trigger] products@[i]@[jj]).wf() && products@[i]@[jj].nvars() == n as nat by {
                    if i == 0 {
                        if jj >= 2 {
                            assert(products@[0]@[jj].wf() && products@[0]@[jj].nvars() == n);
                        }
                    } else {
                        if jj >= 1 {
                            assert(products@[1]@[jj].wf() && products@[1]@[jj].nvars() == n);
                        }
                    }
                }
            }
        }
        let ghost pseq = products@;
        let ml_prover_state = prover_init(products, n, n + 2);
        proof {
            let target = first_sumcheck_tables(pk, tv);
            let got = combo_view(pseq);
            assert(got =~= target) by {
                assert(got.len() == 2);
                assert forall|jj: int| 0 <= jj < n + 2 implies got[0][jj] == target[0][jj] by {
                    lemma_combo_index(pseq, 0, jj);
                    if jj == 0 {
                    } else if jj == 1 {
                    } else {
                        assert(pseq[0]@[(jj - 2) + 2]@ == eq@[jj - 2]@);
                        assert(pseq[0]@[jj]@ == eq@[jj - 2]@);
                        assert(eq@[jj - 2]@ =~= eq_factor_table(tv[jj - 2], (jj - 2) as nat, n as nat))
                            by {
                            assert forall|b: int|
                                0 <= b < pow2(n as nat) implies #[trigger] eq@[jj - 2]@[b]
                                == eq_factor_table(tv[jj - 2], (jj - 2) as nat, n as nat)[b] by {
                                lemma_vals_of_index(v_msg.tor@, jj - 2);
                            }
                        }
                        assert(target[0][jj] == eq_factor_tables(tv, n as nat)[jj - 2]);
                    }
                }
                assert(got[0].len() == n + 2);
                assert(target[0].len() == n + 2);
                assert(got[0] =~= target[0]);
                assert forall|jj: int| 0 <= jj < n + 1 implies got[1][jj] == target[1][jj] by {
                    lemma_combo_index(pseq, 1, jj);
                    if jj == 0 {
                    } else {
                        assert(pseq[1]@[(jj - 1) + 1]@ == eq@[jj - 1]@);
                        assert(pseq[1]@[jj]@ == eq@[jj - 1]@);
                        assert(eq@[jj - 1]@ =~= eq_factor_table(tv[jj - 1], (jj - 1) as nat, n as nat))
                            by {
                            assert forall|b: int|
                                0 <= b < pow2(n as nat) implies #[trigger] eq@[jj - 1]@[b]
                                == eq_factor_table(tv[jj - 1], (jj - 1) as nat, n as nat)[b] by {
                                lemma_vals_of_index(v_msg.tor@, jj - 1);
                            }
                        }
                        assert(target[1][jj] == eq_factor_tables(tv, n as nat)[jj - 1]);
                    }
                }
                assert(got[1].len() == n + 1);
                assert(target[1].len() == n + 1);
                assert(got[1] =~= target[1]);
            }
        }
        let next_state = ProverFirstSumcheckState {
            pk,
            z,
            sum_az_over_y,
            sum_bz_over_y,
            sum_cz_over_y,
            ml_prover_state,
        };
        let msg = ProverThirdMessage {
            ml_index_info: IndexInfo { num_variables: n, max_multiplicands: n + 2 },
        };
        Ok((next_state, msg))
    }

    /// One round of the first sumcheck.
    pub fn prove_first_sumcheck_round(
        state: ProverFirstSumcheckState,
        v_msg: Option<MLVerifierMsg>,
    ) -> (r: Result<(ProverFirstSumcheckState, ProverMsg), Error>)
        requires
            state.ml_prover_state.wf(),
            state.ml_prover_state.round_s() < state.ml_prover_state.nv_s(),
            state.ml_prover_state.round_s() == 0 <==> v_msg is None,
            v_msg matches Some(m) ==> m.randomness.ok(),
        ensures
            ({
                match r {
                    Ok((st, msg)) => {
                        &&& st.pk == state.pk
                        &&& st.z == state.z
                        &&& st.sum_az_over_y == state.sum_az_over_y
                        &&& st.sum_bz_over_y == state.sum_bz_over_y
                        &&& st.sum_cz_over_y == state.sum_cz_over_y
                        &&& st.ml_prover_state.wf()
                        &&& st.ml_prover_state.nv_s() == state.ml_prover_state.nv_s()
                        &&& st.ml_prover_state.maxm() == state.ml_prover_state.maxm()
                        &&& st.ml_prover_state.round_s() == state.ml_prover_state.round_s() + 1
                        &&& (match v_msg {
                            Some(m) => {
                                &&& st.ml_prover_state.challenges()
                                    == state.ml_prover_state.challenges().push(m.randomness)
                                &&& st.ml_prover_state.tables() == crate::algebra::bind_products(
                                    state.ml_prover_state.tables(),
                                    m.randomness.val(),
                                )
                            },
                            None => {
                                &&& st.ml_prover_state.challenges()
                                    == state.ml_prover_state.challenges()
                                &&& st.ml_prover_state.tables() == state.ml_prover_state.tables()
                            },
                        })
                        &&& msg.evaluations@.len() == state.ml_prover_state.maxm() + 1
                        &&& all_ok(msg.evaluations@)
                        &&& forall|k: int|
                            0 <= k <= state.ml_prover_state.maxm()
                                ==> (#[trigger] msg.evaluations@[k]).val()
                                == crate::algebra::comb_line_sum(
                                st.ml_prover_state.tables(),
                                pow2(
                                    (state.ml_prover_state.nv_s()
                                        - state.ml_prover_state.round_s() - 1) as nat,
                                ),
                                k,
                            ) % prime()
                    },
                    Err(_) => false,
                }
            }),
    {
        let (msg, new_ml) = prove_round(state.ml_prover_state, &v_msg);
        let st = ProverFirstSumcheckState {
            pk: state.pk,
            z: state.z,
            sum_az_over_y: state.sum_az_over_y,
            sum_bz_over_y: state.sum_bz_over_y,
            sum_cz_over_y: state.sum_cz_over_y,
            ml_prover_state: new_ml,
        };
        Ok((st, msg))
    }

    /// Fourth round: evaluate the three row-sum polynomials at the full
    /// row point.
    pub fn prove_fourth_round(
        state: ProverFirstSumcheckState,
        v_msg: VerifierThirdMessage,
    ) -> (r: Result<(ProverFifthState, ProverFourthMessage), Error>)
        requires
            state.pk.wf(),
            state.ml_prover_state.wf(),
            state.ml_prover_state.round_s() == state.ml_prover_state.nv_s(),
            state.ml_prover_state.nv_s() == state.pk.log_n,
            state.sum_az_over_y.wf() && state.sum_az_over_y.nvars() == state.pk.log_n,
            state.sum_bz_over_y.wf() && state.sum_bz_over_y.nvars() == state.pk.log_n,
            state.sum_cz_over_y.wf() && state.sum_cz_over_y.nvars() == state.pk.log_n,
            v_msg.last_random_point.ok(),
        ensures
            ({
                let rx = state.ml_prover_state.challenges().push(v_msg.last_random_point);
                match r {
                    Ok((st, msg)) => {
                        &&& st.pk == state.pk
                        &&& st.z == state.z
                        &&& st.r_x@ == rx
                        &&& st.r_x@.len() == state.pk.log_n
                        &&& all_ok(st.r_x@)
                        &&& msg.va.ok() && msg.vb.ok() && msg.vc.ok()
                        &&& msg.va.val() == mle_eval(state.sum_az_over_y@, vals_of(rx))
                        &&& msg.vb.val() == mle_eval(state.sum_bz_over_y@, vals_of(rx))
                        &&& msg.vc.val() == mle_eval(state.sum_cz_over_y@, vals_of(rx))
                    },
                    Err(_) => false,
                }
            }),
    {
        let mut r_x = copy_table(prover_randomness(&state.ml_prover_state));
        r_x.push(v_msg.last_random_point);
        proof {
            crate::ml_sumcheck::lemma_prover_wf(state.ml_prover_state);
            assert(all_ok(r_x@)) by {
                assert forall|j: int| 0 <= j < r_x@.len() implies (#[trigger] r_x@[j]).ok() by {
                    if j < r_x@.len() - 1 {
                        assert(r_x@[j] == state.ml_prover_state.challenges()[j]);
                    }
                }
            }
        }
        let va = state.sum_az_over_y.eval_at(&r_x);
        let vb = state.sum_bz_over_y.eval_at(&r_x);
        let vc = state.sum_cz_over_y.eval_at(&r_x);
        let next = ProverFifthState { pk: state.pk, z: state.z, r_x };
        Ok((next, ProverFourthMessage { va, vb, vc }))
    }

    /// Fifth round: assemble the second sumcheck from the sliced
    /// matrices, scaled by the verifier's combiners, against the
    /// assignment polynomial.
    pub fn prove_fifth_round(state: ProverFifthState, v_msg: VerifierFourthMessage) -> (r: Result<
        (ProverSecondSumcheckState, ProverFifthMessage),
        Error,
    >)
        requires
            state.pk.wf(),
            state.z.wf(),
            state.z.nvars() == state.pk.log_n,
            state.z@ == z_view(state.pk),
            state.r_x@.len() == state.pk.log_n,
            all_ok(state.r_x@),
            v_msg.r_a.ok(),
            v_msg.r_b.ok(),
            v_msg.r_c.ok(),
        ensures
            ({
                let n = state.pk.log_n;
                let rxv = vals_of(state.r_x@);
                match r {
                    Ok((st, msg)) => {
                        &&& st.z@ == z_view(state.pk)
                        &&& st.z.wf()
                        &&& st.z.nvars() == n
                        &&& st.ml_prover_state.wf()
                        &&& st.ml_prover_state.round_s() == 0
                        &&& st.ml_prover_state.nv_s() == n
                        &&& st.ml_prover_state.maxm() == 2
                        &&& st.ml_prover_state.tables() == second_sumcheck_tables(
                            state.pk,
                            rxv,
                            v_msg.r_a.val(),
                            v_msg.r_b.val(),
                            v_msg.r_c.val(),
                        )
                        &&& msg.index_info == (IndexInfo {
                            num_variables: n,
                            max_multiplicands: 2,
                        })
                    },
                    Err(_) => false,
                }
            }),
    {
        let pk = &state.pk;
        let n = pk.log_n;
        let ghost rxv = vals_of(state.r_x@);
        let a_slice = pk.matrix_a.eval_on_x(&state.r_x);
        let a_rx = a_slice.multiply(&v_msg.r_a);
        let b_slice = pk.matrix_b.eval_on_x(&state.r_x);
        let b_rx = b_slice.multiply(&v_msg.r_b);
        let c_slice = pk.matrix_c.eval_on_x(&state.r_x);
        let c_rx = c_slice.multiply(&v_msg.r_c);
        proof {
            lemma_scaled_table(pk.matrix_a, rxv, v_msg.r_a.val(), a_slice@, a_rx@);
            lemma_scaled_table(pk.matrix_b, rxv, v_msg.r_b.val(), b_slice@, b_rx@);
            lemma_scaled_table(pk.matrix_c, rxv, v_msg.r_c.val(), c_slice@, c_rx@);
        }
        let mut pa: Vec<DenseMle> = Vec::new();
        pa.push(a_rx);
        pa.push(state.z.duplicate());
        let mut pb: Vec<DenseMle> = Vec::new();
        pb.push(b_rx);
        pb.push(state.z.duplicate());
        let mut pc: Vec<DenseMle> = Vec::new();
        pc.push(c_rx);
        pc.push(state.z.duplicate());
        let mut products: Vec<Vec<DenseMle>> = Vec::new();
        products.push(pa);
        products.push(pb);
        products.push(pc);
        proof {
            assert(crate::ml_sumcheck::combo_wf(products@, n as nat, 2)) by {
                assert forall|i: int, jj: int|
                    0 <= i < products@.len() && 0 <= jj < products@[i]@.len() implies (
                #[trigger] products@[i]@[jj]).wf() && products@[i]@[jj].nvars() == n as nat by {}
            }
        }
        let ghost pseq = products@;
        let ml_prover_state = prover_init(products, n, 2);
        proof {
            let target = second_sumcheck_tables(
                state.pk,
                rxv,
                v_msg.r_a.val(),
                v_msg.r_b.val(),
                v_msg.r_c.val(),
            );
            let got = combo_view(pseq);
            assert(got =~= target) by {
                lemma_combo_index(pseq, 0, 0);
                lemma_combo_index(pseq, 0, 1);
                lemma_combo_index(pseq, 1, 0);
                lemma_combo_index(pseq, 1, 1);
                lemma_combo_index(pseq, 2, 0);
                lemma_combo_index(pseq, 2, 1);
                assert(got[0] =~= target[0]);
                assert(got[1] =~= target[1]);
                assert(got[2] =~= target[2]);
            }
        }
        let next = ProverSecondSumcheckState { z: state.z, ml_prover_state };
        let msg = ProverFifthMessage {
            index_info: IndexInfo { num_variables: n, max_multiplicands: 2 },
        };
        Ok((next, msg))
    }

    /// One round of the second sumcheck.
    pub fn prove_second_sumcheck_round(
        state: ProverSecondSumcheckState,
        v_msg: Option<MLVerifierMsg>,
    ) -> (r: Result<(ProverSecondSumcheckState, ProverMsg), Error>)
        requires
            state.ml_prover_state.wf(),
            state.ml_prover_state.round_s() < state.ml_prover_state.nv_s(),
            state.ml_prover_state.round_s() == 0 <==> v_msg is None,
            v_msg matches Some(m) ==> m.randomness.ok(),
        ensures
            ({
                match r {
                    Ok((st, msg)) => {
                        &&& st.z == state.z
                        &&& st.ml_prover_state.wf()
                        &&& st.ml_prover_state.nv_s() == state.ml_prover_state.nv_s()
                        &&& st.ml_prover_state.maxm() == state.ml_prover_state.maxm()
                        &&& st.ml_prover_state.round_s() == state.ml_prover_state.round_s() + 1
                        &&& (match v_msg {
                            Some(m) => st.ml_prover_state.challenges()
                                == state.ml_prover_state.challenges().push(m.randomness),
                            None => st.ml_prover_state.challenges()
                                == state.ml_prover_state.challenges(),
                        })
                        &&& msg.evaluations@.len() == state.ml_prover_state.maxm() + 1
                        &&& all_ok(msg.evaluations@)
                        &&& forall|k: int|
                            0 <= k <= state.ml_prover_state.maxm()
                                ==> (#[trigger] msg.evaluations@[k]).val()
                                == crate::algebra::comb_line_sum(
                                st.ml_prover_state.tables(),
                                pow2(
                                    (state.ml_prover_state.nv_s()
                                        - state.ml_prover_state.round_s() - 1) as nat,
                                ),
                                k,
                            ) % prime()
                    },
                    Err(_) => false,
                }
            }),
    {
        let (msg, new_ml) = prove_round(state.ml_prover_state, &v_msg);
        Ok((ProverSecondSumcheckState { z: state.z, ml_prover_state: new_ml }, msg))
    }

    /// Sixth round: open the assignment polynomial at the full column
    /// point.
    pub fn prove_sixth_round(
        state: ProverSecondSumcheckState,
        v_msg: VerifierFifthMessage,
        pp: &PublicParameter,
    ) -> (r: Result<ProverFinalMessage, Error>)
        requires
            state.z.wf(),
            state.ml_prover_state.wf(),
            state.ml_prover_state.round_s() == state.ml_prover_state.nv_s(),
            state.z.nvars() == state.ml_prover_state.nv_s(),
            pp.wf(),
            v_msg.last_random_point.ok(),
        ensures
            ({
                let ry = state.ml_prover_state.challenges().push(v_msg.last_random_point);
                match r {
                    Ok(msg) => {
                        &&& pp.nv == state.z.nvars()
                        &&& msg.z_ry.ok()
                        &&& msg.z_ry.val() == mle_eval(state.z@, vals_of(ry))
                        &&& msg.proof_for_z_ry.wf()
                        &&& msg.proof_for_z_ry.proofs@.len() == pp.nv
                        &&& forall|i: int|
                            0 <= i < pp.nv ==> (#[trigger] msg.proof_for_z_ry.proofs@[i])@
                                == g2_msm_of(
                                g2_views(pp.powers_of_h@[i]@),
                                expand_q(q_of(r_table(state.z@, vals_of(ry), i as nat))),
                            )
                    },
                    Err(e) => e == Error::InvalidArg && pp.nv != state.z.nvars(),
                }
            }),
    {
        let mut r_y = copy_table(prover_randomness(&state.ml_prover_state));
        r_y.push(v_msg.last_random_point);
        proof {
            crate::ml_sumcheck::lemma_prover_wf(state.ml_prover_state);
            assert(all_ok(r_y@)) by {
                assert forall|j: int| 0 <= j < r_y@.len() implies (#[trigger] r_y@[j]).ok() by {
                    if j < r_y@.len() - 1 {
                        assert(r_y@[j] == state.ml_prover_state.challenges()[j]);
                    }
                }
            }
        }
        if state.z.num_vars() != pp.nv {
            return Err(Error::InvalidArg);
        }
        let opened = match MLPolyCommit::open(pp, &state.z, &r_y) {
            Ok(o) => o,
            Err(e) => {
                return Err(e);
            },
        };
        let (z_ry, pf, _qs) = opened;
        Ok(ProverFinalMessage { z_ry, proof_for_z_ry: pf })
    }
}

/// The public-input identity: the assignment polynomial, evaluated at
/// the public-input point padded with zeros, takes the value of the
/// public-input polynomial itself. So the claimed value an honest prover
/// sends in its second round is exactly what the verifier recomputes
/// from the public input, whatever point the transcript samples.
pub proof fn lemma_public_input_consistency(pk: IndexPK, rv: Seq<int>)
    requires
        pk.wf(),
        rv.len() == pk.log_v,
    ensures
        mle_eval(z_view(pk), padded_point(rv, pk.log_n as nat)) == mle_eval(
            vals_of(pk.v@),
            rv,
        ),
{
    let z = z_view(pk);
    assert(z.len() == pow2(pk.log_n as nat)) by {
        assert(vals_of(pk.v@).len() == pk.v@.len());
        assert(vals_of(pk.w@).len() == pk.w@.len());
    }
    crate::algebra::lemma_padded_eval(z, rv, pk.log_n as nat, pk.log_v as nat);
    assert(z.take(pow2(pk.log_v as nat) as int) =~= vals_of(pk.v@)) by {
        assert forall|j: int| 0 <= j < pk.v@.len() implies z[j] == vals_of(pk.v@)[j] by {
            assert(z[j] == (vals_of(pk.v@) + vals_of(pk.w@))[j]);
        }
    }
}

/// Satisfaction of the indexed system: at every cube point, the row sums
/// of the three matrices against the assignment obey the Hadamard
/// relation `(Az) * (Bz) = (Cz)`.
pub open spec fn satisfies(pk: IndexPK) -> bool {
    forall|b: int|
        0 <= b < pow2(pk.log_n as nat) ==> fmul(
            #[trigger] sum_y_table(pk.matrix_a, z_view(pk))[b],
            sum_y_table(pk.matrix_b, z_view(pk))[b],
        ) == sum_y_table(pk.matrix_c, z_view(pk))[b]
}

/// At one cube point of a satisfying assignment, the two products of the
/// first sumcheck cancel.
proof fn lemma_first_sumcheck_term_vanishes(pk: IndexPK, tor: Seq<int>, b: int)
    requires
        pk.wf(),
        satisfies(pk),
        0 <= b < pow2(pk.log_n as nat),
    ensures
        (prod_at(first_sumcheck_tables(pk, tor)[0], b) + prod_at(
            first_sumcheck_tables(pk, tor)[1],
            b,
        )) % prime() == 0,
{
    let z = z_view(pk);
    let n = pk.log_n as nat;
    let eqs = eq_factor_tables(tor, n);
    let p1 = first_sumcheck_tables(pk, tor)[0];
    let p2 = first_sumcheck_tables(pk, tor)[1];
    let azb = sum_y_table(pk.matrix_a, z)[b];
    let bzb = sum_y_table(pk.matrix_b, z)[b];
    let czb = sum_y_table(pk.matrix_c, z)[b];
    let ncb = neg_sum_y_table(pk.matrix_c, z)[b];
    let ev = prod_at(eqs, b);
    let pp = prime();
    assert(prod_at(p1, b) == azb * (bzb * ev)) by {
        let d1 = p1.drop_first();
        assert(p1[0] == sum_y_table(pk.matrix_a, z));
        assert(prod_at(p1, b) == p1[0][b] * prod_at(d1, b));
        assert(d1 =~= seq![sum_y_table(pk.matrix_b, z)] + eqs);
        assert(prod_at(d1, b) == d1[0][b] * prod_at(d1.drop_first(), b));
        assert(d1[0] == sum_y_table(pk.matrix_b, z));
        assert(d1.drop_first() =~= eqs);
    }
    assert(prod_at(p2, b) == ncb * ev) by {
        assert(p2[0] == neg_sum_y_table(pk.matrix_c, z));
        assert(prod_at(p2, b) == p2[0][b] * prod_at(p2.drop_first(), b));
        assert(p2.drop_first() =~= eqs);
    }
    let cd = entry_dot(pk.matrix_c, z, b, z.len() as nat);
    assert(czb == cd % pp);
    assert(ncb == (0 - cd) % pp);
    lemma_mod_bound(cd, pp);
    lemma_mod_bound(0 - cd, pp);
    assert((azb * bzb) % pp == czb) by {
        assert(fmul(azb, bzb) == czb);
    }
    assert(azb * (bzb * ev) + ncb * ev == (azb * bzb + ncb) * ev) by (nonlinear_arith);
    lemma_mul_mod_noop_left(azb * bzb + ncb, ev, pp);
    assert((azb * bzb + ncb) % pp == 0) by {
        lemma_add_mod_noop(azb * bzb, ncb, pp);
        crate::algebra::lemma_already_reduced(ncb);
        assert((azb * bzb + ncb) % pp == (czb + ncb) % pp);
        lemma_add_mod_noop(cd, 0 - cd, pp);
        assert((cd % pp + (0 - cd) % pp) % pp == (cd + (0 - cd)) % pp);
        assert(cd + (0 - cd) == 0);
        assert(0int % pp == 0);
    }
    assert((0int * ev) == 0) by (nonlinear_arith);
    assert((prod_at(p1, b) + prod_at(p2, b)) % pp == ((azb * bzb + ncb) % pp * ev) % pp);
    assert((0int) % pp == 0);
}

/// The two running cube sums of the first sumcheck cancel at every
/// prefix of the cube.
proof fn lemma_first_sumcheck_prefix_vanishes(pk: IndexPK, tor: Seq<int>, len: nat)
    requires
        pk.wf(),
        satisfies(pk),
        len <= pow2(pk.log_n as nat),
    ensures
        (cube_sum(first_sumcheck_tables(pk, tor)[0], len) + cube_sum(
            first_sumcheck_tables(pk, tor)[1],
            len,
        )) % prime() == 0,
    decreases len,
{
    let p1 = first_sumcheck_tables(pk, tor)[0];
    let p2 = first_sumcheck_tables(pk, tor)[1];
    let pp = prime();
    if len == 0 {
        assert(0int % pp == 0);
    } else {
        lemma_first_sumcheck_prefix_vanishes(pk, tor, (len - 1) as nat);
        lemma_first_sumcheck_term_vanishes(pk, tor, len - 1);
        let s = cube_sum(p1, (len - 1) as nat) + cube_sum(p2, (len - 1) as nat);
        let t = prod_at(p1, len - 1) + prod_at(p2, len - 1);
        lemma_add_mod_noop(s, t, pp);
        assert(cube_sum(p1, len) + cube_sum(p2, len) == s + t);
        assert((0int + 0int) % pp == 0);
    }
}

/// For a satisfying assignment, the first sumcheck's combination sums to
/// zero over the whole cube, whatever eq point the verifier samples: the
/// zero the protocol claims is the true sum, so, with the round-passing
/// law of the sumcheck engine, an honest first round message is never
/// rejected.
pub proof fn lemma_first_sumcheck_sum_vanishes(pk: IndexPK, tor: Seq<int>)
    requires
        pk.wf(),
        satisfies(pk),
    ensures
        comb_sum(first_sumcheck_tables(pk, tor), pow2(pk.log_n as nat)) % prime() == 0,
{
    let tables = first_sumcheck_tables(pk, tor);
    let n = pow2(pk.log_n as nat);
    lemma_first_sumcheck_prefix_vanishes(pk, tor, n);
    let rest = tables.drop_first();
    assert(comb_sum(tables, n) == cube_sum(tables[0], n) + comb_sum(rest, n));
    assert(comb_sum(rest, n) == cube_sum(rest[0], n) + comb_sum(rest.drop_first(), n));
    assert(rest[0] == tables[1]);
    assert(rest.drop_first() =~= Seq::<Seq<Seq<int>>>::empty());
    assert(comb_sum(Seq::<Seq<Seq<int>>>::empty(), n) == 0);
}

/// A two-factor product sums, over the cube prefix, to the inner
/// product of its tables.
proof fn lemma_cube_sum_two(a: Seq<int>, b: Seq<int>, len: nat)
    ensures
        cube_sum(seq![a, b], len) == crate::algebra::table_inner(a, b, len),
    decreases len,
{
    if len > 0 {
        lemma_cube_sum_two(a, b, (len - 1) as nat);
        let i = len - 1;
        let s2 = seq![a, b];
        assert(s2[0] == a);
        assert(prod_at(s2, i) == s2[0][i] * prod_at(s2.drop_first(), i));
        assert(s2.drop_first() =~= seq![b]);
        assert(prod_at(seq![b], i) == seq![b][0][i] * prod_at(seq![b].drop_first(), i));
        assert(seq![b][0] == b);
        assert(seq![b].drop_first() =~= Seq::<Seq<int>>::empty());
        assert(prod_at(Seq::<Seq<int>>::empty(), i) == 1);
        assert(a[i] * (b[i] * 1) == a[i] * b[i]) by (nonlinear_arith);
    }
}

/// The inner product of a scaled, reduced slice table with `z` is
/// congruent to the scale times the raw slice inner product.
proof fn lemma_scaled_slice_inner(
    m: MatrixExtension,
    rxv: Seq<int>,
    sc: int,
    zv: Seq<int>,
    len: nat,
)
    requires
        len <= pow2(m.nvars()),
    ensures
        crate::algebra::table_inner(scaled_slice_table(m, rxv, sc), zv, len) % prime() == (sc
            * crate::data_structures::r1cs_reader::slice_dot(m, rxv, zv, len, pow2(m.nvars())))
            % prime(),
    decreases len,
{
    let sst = scaled_slice_table(m, rxv, sc);
    let nn = pow2(m.nvars());
    if len == 0 {
        assert(sc * 0 == 0) by (nonlinear_arith);
    } else {
        lemma_scaled_slice_inner(m, rxv, sc, zv, (len - 1) as nat);
        let y = len - 1;
        let sl = slice_at(m, rxv, y, nn);
        let sd0 = crate::data_structures::r1cs_reader::slice_dot(
            m,
            rxv,
            zv,
            (len - 1) as nat,
            nn,
        );
        let ti0 = crate::algebra::table_inner(sst, zv, (len - 1) as nat);
        assert(sst[y] == (sc * sl) % prime());
        vstd::arithmetic::div_mod::lemma_mul_mod_noop_left(sc * sl, zv[y], prime());
        assert((sst[y] * zv[y]) % prime() == ((sc * sl) * zv[y]) % prime()) by {
            vstd::arithmetic::div_mod::lemma_mul_mod_noop_left(sc * sl, zv[y], prime());
            vstd::arithmetic::div_mod::lemma_mod_twice((sc * sl) * zv[y], prime());
        }
        assert((sc * sl) * zv[y] == sc * (sl * zv[y])) by (nonlinear_arith);
        lemma_add_mod_noop(ti0, sst[y] * zv[y], prime());
        lemma_add_mod_noop(sc * sd0, sc * (sl * zv[y]), prime());
        assert(sc * sd0 + sc * (sl * zv[y]) == sc * (sd0 + sl * zv[y])) by (nonlinear_arith);
        assert((ti0 % prime() + (sst[y] * zv[y]) % prime()) % prime() == ((sc * sd0) % prime() + (
        sc * (sl * zv[y])) % prime()) % prime());
    }
}

/// The eq-weighted raw row dot products are congruent to the eq-weighted
/// sum of the reduced row-sum table.
proof fn lemma_weighted_rows_reduce(m: MatrixExtension, rxv: Seq<int>, zv: Seq<int>, xlen: nat)
    requires
        rxv.len() == m.nvars(),
        zv.len() == pow2(m.nvars()),
        xlen <= pow2(m.nvars()),
    ensures
        crate::data_structures::r1cs_reader::weighted_row_dots(m, rxv, zv, zv.len() as nat, xlen)
            % prime() == crate::algebra::eq_weighted(sum_y_table(m, zv), rxv, xlen) % prime(),
    decreases xlen,
{
    if xlen > 0 {
        lemma_weighted_rows_reduce(m, rxv, zv, (xlen - 1) as nat);
        let x = xlen - 1;
        let w = eq_prod(rxv, point_of(x, rxv.len() as nat));
        let d = entry_dot(m, zv, x, zv.len() as nat);
        let wrd0 = crate::data_structures::r1cs_reader::weighted_row_dots(
            m,
            rxv,
            zv,
            zv.len() as nat,
            (xlen - 1) as nat,
        );
        let ew0 = crate::algebra::eq_weighted(sum_y_table(m, zv), rxv, (xlen - 1) as nat);
        assert(sum_y_table(m, zv)[x] == d % prime());
        assert((w * (d % prime())) % prime() == (w * d) % prime()) by {
            vstd::arithmetic::div_mod::lemma_mul_mod_noop_right(w, d, prime());
            vstd::arithmetic::div_mod::lemma_mod_twice(w * d, prime());
        }
        lemma_add_mod_noop(wrd0, w * d, prime());
        lemma_add_mod_noop(ew0, w * (d % prime()), prime());
        assert((wrd0 % prime() + (w * d) % prime()) % prime() == (ew0 % prime() + (w * (d
            % prime())) % prime()) % prime());
    }
}

/// One matrix's product in the second sumcheck sums, over the cube, to
/// its combiner times the honest evaluation of its row-sum polynomial.
proof fn lemma_second_sumcheck_one_matrix(m: MatrixExtension, pk: IndexPK, rxv: Seq<int>, sc: int)
    requires
        pk.wf(),
        m.wf(),
        m.nvars() == pk.log_n,
        rxv.len() == pk.log_n,
    ensures
        cube_sum(seq![scaled_slice_table(m, rxv, sc), z_view(pk)], pow2(pk.log_n as nat))
            % prime() == (sc * mle_eval(sum_y_table(m, z_view(pk)), rxv)) % prime(),
{
    let nn = pow2(pk.log_n as nat);
    let zv = z_view(pk);
    let pp = prime();
    assert(zv.len() == nn) by {
        assert(vals_of(pk.v@).len() == pk.v@.len());
        assert(vals_of(pk.w@).len() == pk.w@.len());
    }
    lemma_cube_sum_two(scaled_slice_table(m, rxv, sc), zv, nn);
    lemma_scaled_slice_inner(m, rxv, sc, zv, nn);
    crate::data_structures::r1cs_reader::lemma_slice_dot_exchange(m, rxv, zv, nn, nn);
    lemma_weighted_rows_reduce(m, rxv, zv, nn);
    crate::algebra::lemma_mle_eval_by_eq(sum_y_table(m, zv), rxv, pk.log_n as nat);
    let sd = crate::data_structures::r1cs_reader::slice_dot(m, rxv, zv, nn, nn);
    let va = mle_eval(sum_y_table(m, zv), rxv);
    assert((sc * sd) % pp == (sc * (sd % pp)) % pp) by {
        vstd::arithmetic::div_mod::lemma_mul_mod_noop_right(sc, sd, pp);
        vstd::arithmetic::div_mod::lemma_mod_twice(sc * sd, pp);
    }
    assert(sd % pp == va) by {
        let ew = crate::algebra::eq_weighted(sum_y_table(m, zv), rxv, nn);
        vstd::arithmetic::div_mod::lemma_mod_twice(ew, pp);
    }
}

/// The second sumcheck's true sum is the combined claim: for the honest
/// tables, the combination sums over the cube to
/// `ra * va + rb * vb + rc * vc`, the exact sum the verifier starts its
/// second sumcheck from. With the round-passing law of the engine, an
/// honest prover's opening message of the second sumcheck is never
/// rejected.
pub proof fn lemma_second_sumcheck_sum_matches(
    pk: IndexPK,
    rxv: Seq<int>,
    ra: int,
    rb: int,
    rc: int,
)
    requires
        pk.wf(),
        rxv.len() == pk.log_n,
    ensures
        comb_sum(second_sumcheck_tables(pk, rxv, ra, rb, rc), pow2(pk.log_n as nat)) % prime()
            == (ra * mle_eval(sum_y_table(pk.matrix_a, z_view(pk)), rxv) + rb * mle_eval(
            sum_y_table(pk.matrix_b, z_view(pk)),
            rxv,
        ) + rc * mle_eval(sum_y_table(pk.matrix_c, z_view(pk)), rxv)) % prime(),
{
    let nn = pow2(pk.log_n as nat);
    let pp = prime();
    let tables = second_sumcheck_tables(pk, rxv, ra, rb, rc);
    let ca = cube_sum(tables[0], nn);
    let cb = cube_sum(tables[1], nn);
    let cc = cube_sum(tables[2], nn);
    assert(comb_sum(tables, nn) == ca + (cb + (cc + 0))) by {
        let r1 = tables.drop_first();
        let r2 = r1.drop_first();
        assert(comb_sum(tables, nn) == cube_sum(tables[0], nn) + comb_sum(r1, nn));
        assert(comb_sum(r1, nn) == cube_sum(r1[0], nn) + comb_sum(r2, nn));
        assert(r1[0] == tables[1]);
        assert(comb_sum(r2, nn) == cube_sum(r2[0], nn) + comb_sum(r2.drop_first(), nn));
        assert(r2[0] == tables[2]);
        assert(r2.drop_first() =~= Seq::<Seq<Seq<int>>>::empty());
        assert(comb_sum(Seq::<Seq<Seq<int>>>::empty(), nn) == 0);
    }
    lemma_second_sumcheck_one_matrix(pk.matrix_a, pk, rxv, ra);
    lemma_second_sumcheck_one_matrix(pk.matrix_b, pk, rxv, rb);
    lemma_second_sumcheck_one_matrix(pk.matrix_c, pk, rxv, rc);
    let va = mle_eval(sum_y_table(pk.matrix_a, z_view(pk)), rxv);
    let vb = mle_eval(sum_y_table(pk.matrix_b, z_view(pk)), rxv);
    let vc = mle_eval(sum_y_table(pk.matrix_c, z_view(pk)), rxv);
    lemma_add_mod_noop(cb, cc, pp);
    lemma_add_mod_noop(rb * vb, rc * vc, pp);
    assert((cb + cc) % pp == (rb * vb + rc * vc) % pp);
    lemma_add_mod_noop(ca, cb + cc, pp);
    lemma_add_mod_noop(ra * va, rb * vb + rc * vc, pp);
    assert((ca + (cb + (cc + 0))) == ca + (cb + cc));
}

/// The pointwise scaled slice of a matrix extension is the scaled-slice
/// table.
proof fn lemma_scaled_table(m: MatrixExtension, rxv: Seq<int>, s: int, mid: Seq<int>, got: Seq<int>)
    requires
        mid.len() == pow2(m.nvars()),
        got.len() == mid.len(),
        forall|y: int|
            0 <= y < mid.len() ==> #[trigger] mid[y] == slice_at(m, rxv, y, m.size()) % prime(),
        forall|y: int| 0 <= y < mid.len() ==> got[y] == fmul(s, #[trigger] mid[y]),
    ensures
        got == scaled_slice_table(m, rxv, s),
{
    assert forall|y: int| 0 <= y < got.len() implies #[trigger] got[y] == scaled_slice_table(
        m,
        rxv,
        s,
    )[y] by {
        assert(mid[y] == slice_at(m, rxv, y, m.size()) % prime());
        lemma_mul_mod_noop_right(s, slice_at(m, rxv, y, m.size()), prime());
    }
    assert(got =~= scaled_slice_table(m, rxv, s));
}

} // verus!
