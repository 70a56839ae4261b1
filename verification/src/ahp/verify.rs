//! The verifier's side of the protocol: sampling from the transcript,
//! checking the two sumchecks round by round, and discharging the
//! residual claims against the matrix extensions and the commitment.

use vstd::prelude::*;
use vstd::arithmetic::div_mod::{
    lemma_add_mod_noop, lemma_mul_mod_noop, lemma_mul_mod_noop_left, lemma_sub_mod_noop,
};
use vstd::arithmetic::power2::pow2;
use crate::ahp::indexer::{IndexPK, IndexVK};
use crate::ahp::prover::{
    ProverFifthMessage, ProverFinalMessage, ProverFirstMessage, ProverFourthMessage,
    ProverSecondMessage, ProverThirdMessage,
};
use crate::ahp::AHPForSpartan;
use crate::algebra::{lemma_already_reduced, mle_eval};
use crate::commitment::commit::Commitment;
use crate::commitment::data_structures::VerifierParameter;
use crate::commitment::MLPolyCommit;
use crate::curve::{g1_scale_of, g1_sub_of, g1_views, g2_views, gt_mul_of, pairing_of};
use crate::data_structures::eq::eq_extension;
use crate::data_structures::ml_extension::{copy_table, DenseMle};
use crate::data_structures::r1cs_reader::{slice_at, MatrixExtension};
use crate::error::Error;
use crate::field::{
    all_ok, fe_add, fe_mul, fe_sub, lemma_vals_of_index, prime, vals_of, Fe,
};
use crate::ml_sumcheck::{
    fe_equal, subclaim, verifier_init, verify_round, IndexInfo, ProverMsg, SubClaim,
    VerifierMsg as MLVerifierMsg, VerifierState as MLVerifierState,
};
use crate::transcript::Transcript;

verus! {

/// The verifier's first message: the public-input point.
pub struct VerifierFirstMessage {
    pub r_v: Vec<Fe>,
}

/// The verifier's second message: the row point of the eq weighting.
pub struct VerifierSecondMessage {
    pub tor: Vec<Fe>,
}

/// The verifier's third message: the last challenge of the first
/// sumcheck.
#[derive(Clone, Copy)]
pub struct VerifierThirdMessage {
    pub last_random_point: Fe,
}

/// The verifier's fourth message: the three combiners.
#[derive(Clone, Copy)]
pub struct VerifierFourthMessage {
    pub r_a: Fe,
    pub r_b: Fe,
    pub r_c: Fe,
}

/// The verifier's fifth message: the last challenge of the second
/// sumcheck.
#[derive(Clone, Copy)]
pub struct VerifierFifthMessage {
    pub last_random_point: Fe,
}

/// The verifier before the first prover message.
pub struct VerifierFirstState {
    pub v: Vec<Fe>,
    pub log_v: usize,
    pub vk: IndexVK,
}

/// The verifier after receiving the commitment.
pub struct VerifierSecondState {
    pub v: Vec<Fe>,
    pub log_v: usize,
    pub vk: IndexVK,
    pub r_v: Vec<Fe>,
    pub commit: Commitment,
}

/// The verifier after checking the public-input opening.
pub struct VerifierThirdState {
    pub vk: IndexVK,
    pub commit: Commitment,
    pub eq: Vec<DenseMle>,
}

/// The verifier while running the first sumcheck.
pub struct VerifierFirstSumcheckState {
    pub vk: IndexVK,
    pub commit: Commitment,
    pub eq: Vec<DenseMle>,
    pub ml_verifier: MLVerifierState,
}

/// The verifier holding the first residual claim.
pub struct VerifierFourthState {
    pub vk: IndexVK,
    pub commit: Commitment,
    pub eq: Vec<DenseMle>,
    pub first_subclaim: SubClaim,
}

/// The verifier between the sumchecks.
pub struct VerifierFifthState {
    pub vk: IndexVK,
    pub commit: Commitment,
    pub r_a: Fe,
    pub r_b: Fe,
    pub r_c: Fe,
    pub va: Fe,
    pub vb: Fe,
    pub vc: Fe,
    pub r_x: Vec<Fe>,
}

/// The verifier while running the second sumcheck.
pub struct VerifierSecondSumcheckState {
    pub vk: IndexVK,
    pub commit: Commitment,
    pub r_a: Fe,
    pub r_b: Fe,
    pub r_c: Fe,
    pub ml_verifier: MLVerifierState,
    pub r_x: Vec<Fe>,
}

/// The verifier holding the second residual claim.
pub struct VerifierSixthState {
    pub vk: IndexVK,
    pub commit: Commitment,
    pub r_a: Fe,
    pub r_b: Fe,
    pub r_c: Fe,
    pub second_subclaim: SubClaim,
    pub r_x: Vec<Fe>,
}

/// The product of the evaluations of the eq factor polynomials at a
/// point: the eq weighting, evaluated factor by factor.
pub open spec fn eval_chain(eqs: Seq<DenseMle>, pt: Seq<int>, cnt: nat) -> int
    decreases cnt,
{
    if cnt == 0 {
        1
    } else {
        eval_chain(eqs, pt, (cnt - 1) as nat) * mle_eval(eqs[cnt - 1]@, pt)
    }
}

/// The table of a matrix extension sliced at `rx`.
pub open spec fn slice_table(m: MatrixExtension, rx: Seq<int>) -> Seq<int> {
    Seq::new(pow2(m.nvars()), |y: int| slice_at(m, rx, y, pow2(m.nvars())) % prime())
}

/// The matrix extension evaluated at the pair of points: the slice at
/// `rx`, read as a polynomial, at `ry`.
pub open spec fn mat_eval(m: MatrixExtension, rx: Seq<int>, ry: Seq<int>) -> int {
    mle_eval(slice_table(m, rx), ry)
}

/// A bundle of eq factor polynomials over `n` variables.
pub open spec fn eq_bundle_wf(eqs: Seq<DenseMle>, n: nat) -> bool {
    &&& eqs.len() == n
    &&& forall|j: int| 0 <= j < n ==> (#[trigger] eqs[j]).wf() && eqs[j].nvars() == n
}

/// One draw, read through the draw-chain specs.
proof fn lemma_one_draw(s0: Seq<u8>, c: Fe, s1: Seq<u8>)
    requires
        c.val() == crate::algebra::le_int(
            crate::transcript::blake2_of(s0 + seq![crate::transcript::out_tag()]),
        ) % crate::field::prime(),
        s1 == crate::transcript::blake2_of(s0 + seq![crate::transcript::step_tag()]),
    ensures
        c.val() == crate::transcript::draws(s0, 1)[0],
        s1 == crate::transcript::chain_after(s0, 1),
{
    assert(crate::transcript::chain_after(s0, 0) == s0);
    assert(crate::transcript::draws(s0, 1) == crate::transcript::draws(s0, 0).push(c.val()));
}

/// Three draws in order, read through the draw-chain specs.
proof fn lemma_three_draws(s0: Seq<u8>, a: Fe, b: Fe, c: Fe, s3: Seq<u8>)
    requires
        a.val() == crate::algebra::le_int(
            crate::transcript::blake2_of(s0 + seq![crate::transcript::out_tag()]),
        ) % crate::field::prime(),
        b.val() == crate::algebra::le_int(
            crate::transcript::blake2_of(
                crate::transcript::chain_after(s0, 1) + seq![crate::transcript::out_tag()],
            ),
        ) % crate::field::prime(),
        c.val() == crate::algebra::le_int(
            crate::transcript::blake2_of(
                crate::transcript::chain_after(s0, 2) + seq![crate::transcript::out_tag()],
            ),
        ) % crate::field::prime(),
        s3 == crate::transcript::blake2_of(
            crate::transcript::chain_after(s0, 2) + seq![crate::transcript::step_tag()],
        ),
    ensures
        a.val() == crate::transcript::draws(s0, 3)[0],
        b.val() == crate::transcript::draws(s0, 3)[1],
        c.val() == crate::transcript::draws(s0, 3)[2],
        s3 == crate::transcript::chain_after(s0, 3),
{
    assert(crate::transcript::chain_after(s0, 0) == s0);
    assert(crate::transcript::draws(s0, 1) == crate::transcript::draws(s0, 0).push(a.val()));
    assert(crate::transcript::draws(s0, 2) == crate::transcript::draws(s0, 1).push(b.val()));
    assert(crate::transcript::draws(s0, 3) == crate::transcript::draws(s0, 2).push(c.val()));
}

/// Sample a vector of field elements from the transcript.
fn sample_fields(rng: &mut Transcript, count: usize) -> (r: Vec<Fe>)
    ensures
        r@.len() == count,
        all_ok(r@),
        vals_of(r@) == crate::transcript::draws(old(rng)@, count as nat),
        final(rng)@ == crate::transcript::chain_after(old(rng)@, count as nat),
{
    let mut out: Vec<Fe> = Vec::new();
    let mut i: usize = 0;
    proof {
        assert(vals_of(out@) =~= crate::transcript::draws(old(rng)@, 0));
    }
    while i < count
        invariant
            i <= count,
            out@.len() == i,
            all_ok(out@),
            vals_of(out@) == crate::transcript::draws(old(rng)@, i as nat),
            rng@ == crate::transcript::chain_after(old(rng)@, i as nat),
        decreases count - i,
    {
        let ghost pre = vals_of(out@);
        let f = rng.sample_field();
        out.push(f);
        proof {
            assert(vals_of(out@) =~= pre.push(f.val())) by {
                assert forall|j: int| 0 <= j < out@.len() implies vals_of(out@)[j] == pre.push(
                    f.val(),
                )[j] by {
                    lemma_vals_of_index(out@, j);
                    if j < pre.len() {
                        lemma_vals_of_index(out@.drop_last(), j);
                        assert(out@.drop_last() =~= out@.subrange(0, j).add(
                            out@.subrange(j, out@.len() - 1),
                        )) by {
                            assert(out@.drop_last() =~= out@.subrange(0, out@.len() - 1));
                        }
                    }
                }
            }
            assert(vals_of(out@) == crate::transcript::draws(old(rng)@, (i + 1) as nat));
        }
        i = i + 1;
    }
    out
}

/// Pad a point with zero coordinates up to `n`.
pub(crate) fn pad_point(point: &Vec<Fe>, n: usize) -> (r: Vec<Fe>)
    requires
        point@.len() <= n,
        all_ok(point@),
    ensures
        r@.len() == n,
        all_ok(r@),
        vals_of(r@) == crate::ahp::prover::padded_point(vals_of(point@), n as nat),
{
    let mut full = copy_table(point);
    let zero = Fe::zero();
    let mut i: usize = point.len();
    while i < n
        invariant
            point@.len() <= i <= n,
            zero.ok(),
            zero.val() == 0,
            full@.len() == i,
            all_ok(point@),
            forall|j: int| 0 <= j < point@.len() ==> full@[j] == point@[j],
            forall|j: int| point@.len() <= j < i ==> (#[trigger] full@[j]).val() == 0,
        decreases n - i,
    {
        full.push(zero);
        i = i + 1;
    }
    proof {
        assert(all_ok(full@)) by {
            assert forall|j: int| 0 <= j < full@.len() implies (#[trigger] full@[j]).ok() by {
                if j < point@.len() {
                    assert(full@[j] == point@[j]);
                }
            }
        }
        assert(vals_of(full@) =~= crate::ahp::prover::padded_point(vals_of(point@), n as nat)) by {
            assert forall|j: int| 0 <= j < full@.len() implies vals_of(full@)[j]
                == crate::ahp::prover::padded_point(vals_of(point@), n as nat)[j] by {
                lemma_vals_of_index(full@, j);
                if j < point@.len() {
                    lemma_vals_of_index(point@, j);
                }
            }
        }
    }
    full
}

impl AHPForSpartan {
    /// Start the verifier on a key and the public input.
    ///
    /// Rejected unless the public input has exactly the size the key
    /// declares and fits the constraint rows.
    pub fn verifier_init(vk: IndexVK, v: Vec<Fe>) -> (r: Result<VerifierFirstState, Error>)
        requires
            vk.wf(),
            all_ok(v@),
        ensures
            match r {
                Ok(st) => {
                    &&& st.vk == vk
                    &&& st.v@ == v@
                    &&& st.log_v == vk.log_v
                    &&& v@.len() == pow2(vk.log_v as nat)
                    &&& v@.len() <= vk.matrix_a.nrows()
                },
                Err(e) => e == Error::InvalidArg && !(v@.len() == pow2(vk.log_v as nat) && v@.len()
                    <= vk.matrix_a.nrows()),
            },
    {
        proof {
            if (vk.log_v as nat) < vk.log_n as nat {
                vstd::arithmetic::power2::lemma_pow2_strictly_increases(
                    vk.log_v as nat,
                    vk.log_n as nat,
                );
            }
        }
        let expected = crate::algebra::pow2_exec(vk.log_v);
        if v.len() != expected || v.len() > vk.matrix_a.num_constraints() {
            return Err(Error::InvalidArg);
        }
        let log_v = vk.log_v;
        Ok(VerifierFirstState { v, log_v, vk })
    }

    /// First round: receive the commitment, sample the public-input
    /// point.
    pub fn verify_first_round(
        state: VerifierFirstState,
        p_msg: ProverFirstMessage,
        rng: &mut Transcript,
    ) -> (r: Result<(VerifierSecondState, VerifierFirstMessage), Error>)
        requires
            state.vk.wf(),
            all_ok(state.v@),
            p_msg.commitment.wf(),
        ensures
            match r {
                Ok((st, msg)) => {
                    &&& st.vk == state.vk
                    &&& st.v@ == state.v@
                    &&& st.log_v == state.log_v
                    &&& st.commit == p_msg.commitment
                    &&& st.r_v@ == msg.r_v@
                    &&& msg.r_v@.len() == state.log_v
                    &&& all_ok(msg.r_v@)
                    &&& vals_of(msg.r_v@) == crate::transcript::draws(
                        old(rng)@,
                        state.log_v as nat,
                    )
                    &&& final(rng)@ == crate::transcript::chain_after(
                        old(rng)@,
                        state.log_v as nat,
                    )
                },
                Err(_) => false,
            },
    {
        let r_v = sample_fields(rng, state.log_v);
        let msg_r_v = copy_table(&r_v);
        let next = VerifierSecondState {
            v: state.v,
            log_v: state.log_v,
            vk: state.vk,
            commit: p_msg.commitment,
            r_v,
        };
        Ok((next, VerifierFirstMessage { r_v: msg_r_v }))
    }

    /// Sample the verifier's first message without checking anything:
    /// the prover's mirror of the first round.
    pub fn sample_first_round(log_v: usize, rng: &mut Transcript) -> (r: VerifierFirstMessage)
        ensures
            r.r_v@.len() == log_v,
            all_ok(r.r_v@),
            vals_of(r.r_v@) == crate::transcript::draws(old(rng)@, log_v as nat),
            final(rng)@ == crate::transcript::chain_after(old(rng)@, log_v as nat),
    {
        VerifierFirstMessage { r_v: sample_fields(rng, log_v) }
    }

    /// Second round: check the claimed public-input evaluation and its
    /// opening, then sample the eq point.
    ///
    /// Fails with `PublicInputMismatch` exactly when the claimed value
    /// disagrees with the public-input polynomial, and with
    /// `OpeningMismatch` exactly when the opening's pairing check
    /// disagrees.
    pub fn verify_second_round(
        state: VerifierSecondState,
        p_msg: ProverSecondMessage,
        rng: &mut Transcript,
        vp: &VerifierParameter,
    ) -> (r: Result<(VerifierThirdState, VerifierSecondMessage), Error>)
        requires
            state.vk.wf(),
            all_ok(state.v@),
            state.v@.len() == pow2(state.vk.log_v as nat),
            state.log_v == state.vk.log_v,
            state.r_v@.len() == state.log_v,
            all_ok(state.r_v@),
            state.commit.wf(),
            vp.wf(),
            p_msg.z_rv_0.ok(),
            p_msg.proof_for_z_rv_0.wf(),
        ensures
            ({
                let n = state.vk.log_n;
                let claimed_ok = mle_eval(vals_of(state.v@), vals_of(state.r_v@))
                    == p_msg.z_rv_0.val();
                let pairing_ok = pairing_of(
                    g1_sub_of(
                        state.commit.g_product@,
                        g1_scale_of(vp.g@, p_msg.z_rv_0.val()),
                    ),
                    vp.h@,
                ) == crate::commitment::verify::gt_chain(
                    g1_views(vp.g_mask_random@),
                    vp.g@,
                    crate::ahp::prover::padded_point(vals_of(state.r_v@), n as nat),
                    g2_views(p_msg.proof_for_z_rv_0.proofs@),
                    vp.nv as nat,
                );
                match r {
                    Ok((st, msg)) => {
                        &&& vp.nv == n
                        &&& p_msg.proof_for_z_rv_0.proofs@.len() == n
                        &&& claimed_ok
                        &&& pairing_ok
                        &&& st.vk == state.vk
                        &&& st.commit == state.commit
                        &&& msg.tor@.len() == n
                        &&& all_ok(msg.tor@)
                        &&& vals_of(msg.tor@) == crate::transcript::draws(old(rng)@, n as nat)
                        &&& final(rng)@ == crate::transcript::chain_after(old(rng)@, n as nat)
                        &&& eq_bundle_wf(st.eq@, n as nat)
                        &&& forall|j: int, b: int|
                            0 <= j < n && 0 <= b < pow2(n as nat) ==> (#[trigger] st.eq@[j]@[b])
                                == crate::algebra::eqf(msg.tor@[j].val(), crate::algebra::bit(b, j as nat))
                                % prime()
                    },
                    Err(e) => {
                        &&& final(rng)@ == old(rng)@
                        &&& ({
                            ||| (e == Error::InvalidArg && (vp.nv != n
                                || p_msg.proof_for_z_rv_0.proofs@.len() != n))
                            ||| (e == Error::PublicInputMismatch && vp.nv == n && !claimed_ok)
                            ||| (e == Error::OpeningMismatch && vp.nv == n && claimed_ok
                                && !pairing_ok)
                        })
                    },
                }
            }),
    {
        let n = state.vk.log_n;
        if vp.nv != n {
            return Err(Error::InvalidArg);
        }
        let v_table = copy_table(&state.v);
        let v_mle = DenseMle::new_unchecked(v_table, state.vk.log_v);
        let claimed = v_mle.eval_at(&state.r_v);
        proof {
            assert(vals_of(state.v@) == v_mle@);
        }
        if !fe_equal(&claimed, &p_msg.z_rv_0) {
            return Err(Error::PublicInputMismatch);
        }
        let full = pad_point(&state.r_v, n);
        let passed = match MLPolyCommit::verify(
            vp,
            &state.commit,
            &full,
            &p_msg.z_rv_0,
            &p_msg.proof_for_z_rv_0,
        ) {
            Ok(b) => b,
            Err(e) => {
                return Err(e);
            },
        };
        if !passed {
            return Err(Error::OpeningMismatch);
        }
        let tor = sample_fields(rng, n);
        let eq = eq_extension(&tor);
        let next = VerifierThirdState { vk: state.vk, commit: state.commit, eq };
        Ok((next, VerifierSecondMessage { tor }))
    }

    /// Sample the verifier's second message without checking anything.
    pub fn simulate_verify_second_round(pk: &IndexPK, rng: &mut Transcript) -> (r:
        VerifierSecondMessage)
        ensures
            r.tor@.len() == pk.log_n,
            all_ok(r.tor@),
            vals_of(r.tor@) == crate::transcript::draws(old(rng)@, pk.log_n as nat),
            final(rng)@ == crate::transcript::chain_after(old(rng)@, pk.log_n as nat),
    {
        VerifierSecondMessage { tor: sample_fields(rng, pk.log_n) }
    }

    /// Third round: accept the first sumcheck's shape and start its
    /// verifier on the claimed sum zero.
    pub fn verify_third_round(state: VerifierThirdState, p_msg: ProverThirdMessage) -> (r: Result<
        (VerifierFirstSumcheckState, Option<MLVerifierMsg>),
        Error,
    >)
        requires
            state.vk.wf(),
        ensures
            ({
                let n = state.vk.log_n;
                let shape_ok = p_msg.ml_index_info.num_variables == n
                    && p_msg.ml_index_info.max_multiplicands == n + 2;
                match r {
                    Ok((st, vm)) => {
                        &&& shape_ok
                        &&& vm is None
                        &&& st.vk == state.vk
                        &&& st.commit == state.commit
                        &&& st.eq == state.eq
                        &&& st.ml_verifier.wf()
                        &&& st.ml_verifier.nv_s() == n
                        &&& st.ml_verifier.maxm() == n + 2
                        &&& st.ml_verifier.round_s() == 0
                        &&& st.ml_verifier.claim().val() == 0
                        &&& st.ml_verifier.challenges() == Seq::<Fe>::empty()
                    },
                    Err(e) => e == Error::InvalidArg && !shape_ok,
                }
            }),
    {
        let n = state.vk.log_n;
        if p_msg.ml_index_info.num_variables != n || p_msg.ml_index_info.max_multiplicands != n + 2 {
            return Err(Error::InvalidArg);
        }
        let zero = Fe::zero();
        let ml_verifier = verifier_init(&p_msg.ml_index_info, &zero);
        let next = VerifierFirstSumcheckState {
            vk: state.vk,
            commit: state.commit,
            eq: state.eq,
            ml_verifier,
        };
        Ok((next, None))
    }

    /// The prover's mirror of the third round.
    pub fn simulate_verify_third_round() -> (r: Option<MLVerifierMsg>)
        ensures
            r is None,
    {
        None
    }

    /// An ongoing round of the first sumcheck: check the round
    /// polynomial against the running claim, sample the next challenge.
    pub fn verify_first_sumcheck_ongoing_round(
        state: VerifierFirstSumcheckState,
        p_msg: ProverMsg,
        rng: &mut Transcript,
    ) -> (r: Result<(VerifierFirstSumcheckState, Option<MLVerifierMsg>), Error>)
        requires
            state.ml_verifier.wf(),
            state.ml_verifier.round_s() < state.ml_verifier.nv_s(),
            all_ok(p_msg.evaluations@),
        ensures
            final(rng)@ == crate::transcript::chain_after(old(rng)@, 1),
            match r {
                Ok((st, vm)) => {
                    &&& p_msg.evaluations@.len() == state.ml_verifier.maxm() + 1
                    &&& crate::field::fadd(
                        p_msg.evaluations@[0].val(),
                        p_msg.evaluations@[1].val(),
                    ) == state.ml_verifier.claim().val()
                    &&& st.vk == state.vk
                    &&& st.commit == state.commit
                    &&& st.eq == state.eq
                    &&& st.ml_verifier.wf()
                    &&& st.ml_verifier.nv_s() == state.ml_verifier.nv_s()
                    &&& st.ml_verifier.maxm() == state.ml_verifier.maxm()
                    &&& st.ml_verifier.round_s() == state.ml_verifier.round_s() + 1
                    &&& (vm matches Some(m) && st.ml_verifier.challenges()
                        == state.ml_verifier.challenges().push(m.randomness)
                        && m.randomness.val() == crate::transcript::draws(old(rng)@, 1)[0]
                        && st.ml_verifier.claim().val() == crate::ml_sumcheck::lagrange(
                        vals_of(p_msg.evaluations@),
                        m.randomness.val(),
                    ))
                },
                Err(e) => {
                    ||| (e == Error::InvalidArg && p_msg.evaluations@.len()
                        != state.ml_verifier.maxm() + 1)
                    ||| (e == Error::SumcheckMismatch && p_msg.evaluations@.len()
                        == state.ml_verifier.maxm() + 1 && crate::field::fadd(
                        p_msg.evaluations@[0].val(),
                        p_msg.evaluations@[1].val(),
                    ) != state.ml_verifier.claim().val())
                },
            },
    {
        let c = rng.sample_field();
        proof {
            lemma_one_draw(old(rng)@, c, rng@);
        }
        let (vm, new_ml) = match verify_round(p_msg, state.ml_verifier, &c) {
            Ok(p) => p,
            Err(e) => {
                return Err(e);
            },
        };
        let next = VerifierFirstSumcheckState {
            vk: state.vk,
            commit: state.commit,
            eq: state.eq,
            ml_verifier: new_ml,
        };
        Ok((next, Some(vm)))
    }

    /// The prover's mirror of an ongoing first-sumcheck round.
    pub fn simulate_verify_first_sumcheck_ongoing_round(rng: &mut Transcript) -> (r: Option<
        MLVerifierMsg,
    >)
        ensures
            r matches Some(m) && m.randomness.ok() && m.randomness.val()
                == crate::transcript::draws(old(rng)@, 1)[0],
            final(rng)@ == crate::transcript::chain_after(old(rng)@, 1),
    {
        let c = rng.sample_field();
        proof {
            lemma_one_draw(old(rng)@, c, rng@);
        }
        Some(MLVerifierMsg { randomness: c })
    }

    /// The final round of the first sumcheck: check the last round
    /// polynomial and keep the residual claim.
    pub fn verify_first_sumcheck_final_round(
        state: VerifierFirstSumcheckState,
        p_msg: ProverMsg,
        rng: &mut Transcript,
    ) -> (r: Result<(VerifierFourthState, VerifierThirdMessage), Error>)
        requires
            state.ml_verifier.wf(),
            state.ml_verifier.round_s() + 1 == state.ml_verifier.nv_s(),
            all_ok(p_msg.evaluations@),
        ensures
            final(rng)@ == crate::transcript::chain_after(old(rng)@, 1),
            match r {
                Ok((st, msg)) => {
                    &&& p_msg.evaluations@.len() == state.ml_verifier.maxm() + 1
                    &&& crate::field::fadd(
                        p_msg.evaluations@[0].val(),
                        p_msg.evaluations@[1].val(),
                    ) == state.ml_verifier.claim().val()
                    &&& st.vk == state.vk
                    &&& st.commit == state.commit
                    &&& st.eq == state.eq
                    &&& st.first_subclaim.point@ == state.ml_verifier.challenges().push(
                        msg.last_random_point,
                    )
                    &&& st.first_subclaim.point@.len() == state.ml_verifier.nv_s()
                    &&& all_ok(st.first_subclaim.point@)
                    &&& st.first_subclaim.expected_evaluation.ok()
                    &&& st.first_subclaim.expected_evaluation.val()
                        == crate::ml_sumcheck::lagrange(
                        vals_of(p_msg.evaluations@),
                        msg.last_random_point.val(),
                    )
                    &&& msg.last_random_point.ok()
                    &&& msg.last_random_point.val() == crate::transcript::draws(old(rng)@, 1)[0]
                },
                Err(e) => {
                    ||| (e == Error::InvalidArg && p_msg.evaluations@.len()
                        != state.ml_verifier.maxm() + 1)
                    ||| (e == Error::SumcheckMismatch && p_msg.evaluations@.len()
                        == state.ml_verifier.maxm() + 1 && crate::field::fadd(
                        p_msg.evaluations@[0].val(),
                        p_msg.evaluations@[1].val(),
                    ) != state.ml_verifier.claim().val())
                },
            },
    {
        let c = rng.sample_field();
        proof {
            lemma_one_draw(old(rng)@, c, rng@);
        }
        let (vm, new_ml) = match verify_round(p_msg, state.ml_verifier, &c) {
            Ok(p) => p,
            Err(e) => {
                return Err(e);
            },
        };
        let sc = subclaim(new_ml);
        let msg = VerifierThirdMessage { last_random_point: vm.randomness };
        let next = VerifierFourthState {
            vk: state.vk,
            commit: state.commit,
            eq: state.eq,
            first_subclaim: sc,
        };
        Ok((next, msg))
    }

    /// The prover's mirror of the final first-sumcheck round.
    pub fn simulate_verify_first_sumcheck_final_round(rng: &mut Transcript) -> (r:
        VerifierThirdMessage)
        ensures
            r.last_random_point.ok(),
            r.last_random_point.val() == crate::transcript::draws(old(rng)@, 1)[0],
            final(rng)@ == crate::transcript::chain_after(old(rng)@, 1),
    {
        let c = rng.sample_field();
        proof {
            lemma_one_draw(old(rng)@, c, rng@);
        }
        VerifierThirdMessage { last_random_point: c }
    }

    /// Fourth round: discharge the first residual claim against the eq
    /// weighting, then sample the three combiners.
    ///
    /// Fails with `FirstSubclaim` exactly when
    /// `(va vb - vc) * eq(tor, r_x)` misses the expected evaluation.
    pub fn verify_fourth_round(
        state: VerifierFourthState,
        p_msg: ProverFourthMessage,
        rng: &mut Transcript,
    ) -> (r: Result<(VerifierFifthState, VerifierFourthMessage), Error>)
        requires
            state.vk.wf(),
            eq_bundle_wf(state.eq@, state.vk.log_n as nat),
            state.first_subclaim.point@.len() == state.vk.log_n,
            all_ok(state.first_subclaim.point@),
            state.first_subclaim.expected_evaluation.ok(),
            p_msg.va.ok(),
            p_msg.vb.ok(),
            p_msg.vc.ok(),
        ensures
            ({
                let n = state.vk.log_n;
                let rx = vals_of(state.first_subclaim.point@);
                let claim_holds = ((p_msg.va.val() * p_msg.vb.val() - p_msg.vc.val()) * eval_chain(
                    state.eq@,
                    rx,
                    n as nat,
                )) % prime() == state.first_subclaim.expected_evaluation.val();
                match r {
                    Ok((st, msg)) => {
                        &&& claim_holds
                        &&& st.vk == state.vk
                        &&& st.commit == state.commit
                        &&& st.r_x@ == state.first_subclaim.point@
                        &&& st.va == p_msg.va
                        &&& st.vb == p_msg.vb
                        &&& st.vc == p_msg.vc
                        &&& st.r_a == msg.r_a && st.r_b == msg.r_b && st.r_c == msg.r_c
                        &&& msg.r_a.ok() && msg.r_b.ok() && msg.r_c.ok()
                        &&& msg.r_a.val() == crate::transcript::draws(old(rng)@, 3)[0]
                        &&& msg.r_b.val() == crate::transcript::draws(old(rng)@, 3)[1]
                        &&& msg.r_c.val() == crate::transcript::draws(old(rng)@, 3)[2]
                        &&& final(rng)@ == crate::transcript::chain_after(old(rng)@, 3)
                    },
                    Err(e) => e == Error::FirstSubclaim && !claim_holds && final(rng)@ == old(
                        rng,
                    )@,
                }
            }),
    {
        let n = state.vk.log_n;
        let ghost rx = vals_of(state.first_subclaim.point@);
        let r_x = &state.first_subclaim.point;
        let mut acc = Fe::one();
        let mut i: usize = 0;
        proof {
            assert(1int % prime() == 1) by {
                vstd::arithmetic::div_mod::lemma_small_mod(1nat, prime() as nat);
            }
        }
        while i < n
            invariant
                i <= n,
                n == state.vk.log_n,
                eq_bundle_wf(state.eq@, n as nat),
                r_x@.len() == n,
                all_ok(r_x@),
                rx == vals_of(r_x@),
                r_x@ == state.first_subclaim.point@,
                acc.ok(),
                acc.val() == eval_chain(state.eq@, rx, i as nat) % prime(),
            decreases n - i,
        {
            let e = state.eq[i].eval_at(r_x);
            let ghost pre = eval_chain(state.eq@, rx, i as nat);
            acc = fe_mul(&acc, &e);
            proof {
                let ev = mle_eval(state.eq@[i as int]@, rx);
                lemma_already_reduced(ev);
                lemma_mul_mod_noop(pre, ev, prime());
            }
            i = i + 1;
        }
        let prod_ab = fe_mul(&p_msg.va, &p_msg.vb);
        let diff = fe_sub(&prod_ab, &p_msg.vc);
        let lhs = fe_mul(&diff, &acc);
        proof {
            let a = p_msg.va.val();
            let b = p_msg.vb.val();
            let cc = p_msg.vc.val();
            let ch = eval_chain(state.eq@, rx, n as nat);
            lemma_already_reduced(cc);
            lemma_sub_mod_noop(a * b, cc, prime());
            assert(diff.val() == (a * b - cc) % prime());
            lemma_mul_mod_noop(a * b - cc, ch, prime());
            assert(lhs.val() == ((a * b - cc) * ch) % prime());
        }
        if !fe_equal(&lhs, &state.first_subclaim.expected_evaluation) {
            return Err(Error::FirstSubclaim);
        }
        let r_a = rng.sample_field();
        let r_b = rng.sample_field();
        let r_c = rng.sample_field();
        proof {
            let s0 = old(rng)@;
            assert(crate::transcript::chain_after(s0, 0) == s0);
            assert(crate::transcript::chain_after(s0, 1) == crate::transcript::blake2_of(
                s0 + seq![crate::transcript::step_tag()],
            ));
            assert(crate::transcript::chain_after(s0, 2) == crate::transcript::blake2_of(
                crate::transcript::chain_after(s0, 1) + seq![crate::transcript::step_tag()],
            ));
            lemma_three_draws(s0, r_a, r_b, r_c, rng@);
        }
        let next = VerifierFifthState {
            vk: state.vk,
            commit: state.commit,
            r_a,
            r_b,
            r_c,
            va: p_msg.va,
            vb: p_msg.vb,
            vc: p_msg.vc,
            r_x: state.first_subclaim.point,
        };
        Ok((next, VerifierFourthMessage { r_a, r_b, r_c }))
    }

    /// The prover's mirror of the fourth round.
    pub fn simulate_verify_fourth_round(rng: &mut Transcript) -> (r: VerifierFourthMessage)
        ensures
            r.r_a.ok() && r.r_b.ok() && r.r_c.ok(),
            r.r_a.val() == crate::transcript::draws(old(rng)@, 3)[0],
            r.r_b.val() == crate::transcript::draws(old(rng)@, 3)[1],
            r.r_c.val() == crate::transcript::draws(old(rng)@, 3)[2],
            final(rng)@ == crate::transcript::chain_after(old(rng)@, 3),
    {
        let r_a = rng.sample_field();
        let r_b = rng.sample_field();
        let r_c = rng.sample_field();
        proof {
            let s0 = old(rng)@;
            assert(crate::transcript::chain_after(s0, 0) == s0);
            assert(crate::transcript::chain_after(s0, 1) == crate::transcript::blake2_of(
                s0 + seq![crate::transcript::step_tag()],
            ));
            assert(crate::transcript::chain_after(s0, 2) == crate::transcript::blake2_of(
                crate::transcript::chain_after(s0, 1) + seq![crate::transcript::step_tag()],
            ));
            lemma_three_draws(s0, r_a, r_b, r_c, rng@);
        }
        VerifierFourthMessage { r_a, r_b, r_c }
    }

    /// Fifth round: accept the second sumcheck's shape and start its
    /// verifier on the combined claim.
    pub fn verify_fifth_round(state: VerifierFifthState, p_msg: ProverFifthMessage) -> (r: Result<
        (VerifierSecondSumcheckState, Option<MLVerifierMsg>),
        Error,
    >)
        requires
            state.vk.wf(),
            state.r_a.ok(),
            state.r_b.ok(),
            state.r_c.ok(),
            state.va.ok(),
            state.vb.ok(),
            state.vc.ok(),
        ensures
            ({
                let n = state.vk.log_n;
                let shape_ok = p_msg.index_info.num_variables == n
                    && p_msg.index_info.max_multiplicands == 2;
                match r {
                    Ok((st, vm)) => {
                        &&& shape_ok
                        &&& vm is None
                        &&& st.vk == state.vk
                        &&& st.commit == state.commit
                        &&& st.r_a == state.r_a && st.r_b == state.r_b && st.r_c == state.r_c
                        &&& st.r_x@ == state.r_x@
                        &&& st.ml_verifier.wf()
                        &&& st.ml_verifier.nv_s() == n
                        &&& st.ml_verifier.maxm() == 2
                        &&& st.ml_verifier.round_s() == 0
                        &&& st.ml_verifier.challenges() == Seq::<Fe>::empty()
                        &&& st.ml_verifier.claim().val() == (state.r_a.val() * state.va.val()
                            + state.r_b.val() * state.vb.val() + state.r_c.val()
                            * state.vc.val()) % prime()
                    },
                    Err(e) => e == Error::InvalidArg && !shape_ok,
                }
            }),
    {
        let n = state.vk.log_n;
        if p_msg.index_info.num_variables != n || p_msg.index_info.max_multiplicands != 2 {
            return Err(Error::InvalidArg);
        }
        let ta = fe_mul(&state.r_a, &state.va);
        let tb = fe_mul(&state.r_b, &state.vb);
        let tc = fe_mul(&state.r_c, &state.vc);
        let sum_ab = fe_add(&ta, &tb);
        let claimed = fe_add(&sum_ab, &tc);
        proof {
            let a = state.r_a.val() * state.va.val();
            let b = state.r_b.val() * state.vb.val();
            let cc = state.r_c.val() * state.vc.val();
            lemma_add_mod_noop(a, b, prime());
            lemma_add_mod_noop(a + b, cc, prime());
        }
        let ml_verifier = verifier_init(&p_msg.index_info, &claimed);
        let next = VerifierSecondSumcheckState {
            vk: state.vk,
            commit: state.commit,
            r_a: state.r_a,
            r_b: state.r_b,
            r_c: state.r_c,
            ml_verifier,
            r_x: state.r_x,
        };
        Ok((next, None))
    }

    /// The prover's mirror of the fifth round.
    pub fn simulate_verify_fifth_round() -> (r: Option<MLVerifierMsg>)
        ensures
            r is None,
    {
        None
    }

    /// An ongoing round of the second sumcheck.
    pub fn verify_second_sumcheck_ongoing_round(
        state: VerifierSecondSumcheckState,
        p_msg: ProverMsg,
        rng: &mut Transcript,
    ) -> (r: Result<(VerifierSecondSumcheckState, Option<MLVerifierMsg>), Error>)
        requires
            state.ml_verifier.wf(),
            state.ml_verifier.round_s() < state.ml_verifier.nv_s(),
            all_ok(p_msg.evaluations@),
        ensures
            final(rng)@ == crate::transcript::chain_after(old(rng)@, 1),
            match r {
                Ok((st, vm)) => {
                    &&& p_msg.evaluations@.len() == state.ml_verifier.maxm() + 1
                    &&& crate::field::fadd(
                        p_msg.evaluations@[0].val(),
                        p_msg.evaluations@[1].val(),
                    ) == state.ml_verifier.claim().val()
                    &&& vm matches Some(m)
                    &&& st.vk == state.vk
                    &&& st.commit == state.commit
                    &&& st.r_a == state.r_a && st.r_b == state.r_b && st.r_c == state.r_c
                    &&& st.r_x@ == state.r_x@
                    &&& st.ml_verifier.wf()
                    &&& st.ml_verifier.nv_s() == state.ml_verifier.nv_s()
                    &&& st.ml_verifier.maxm() == state.ml_verifier.maxm()
                    &&& st.ml_verifier.round_s() == state.ml_verifier.round_s() + 1
                    &&& (vm matches Some(m) && st.ml_verifier.claim().val()
                        == crate::ml_sumcheck::lagrange(
                        vals_of(p_msg.evaluations@),
                        m.randomness.val(),
                    ) && m.randomness.val() == crate::transcript::draws(old(rng)@, 1)[0])
                },
                Err(e) => {
                    ||| (e == Error::InvalidArg && p_msg.evaluations@.len()
                        != state.ml_verifier.maxm() + 1)
                    ||| (e == Error::SumcheckMismatch && p_msg.evaluations@.len()
                        == state.ml_verifier.maxm() + 1 && crate::field::fadd(
                        p_msg.evaluations@[0].val(),
                        p_msg.evaluations@[1].val(),
                    ) != state.ml_verifier.claim().val())
                },
            },
    {
        let c = rng.sample_field();
        proof {
            lemma_one_draw(old(rng)@, c, rng@);
        }
        let (vm, new_ml) = match verify_round(p_msg, state.ml_verifier, &c) {
            Ok(p) => p,
            Err(e) => {
                return Err(e);
            },
        };
        let next = VerifierSecondSumcheckState {
            vk: state.vk,
            commit: state.commit,
            r_a: state.r_a,
            r_b: state.r_b,
            r_c: state.r_c,
            ml_verifier: new_ml,
            r_x: state.r_x,
        };
        Ok((next, Some(vm)))
    }

    /// The prover's mirror of an ongoing second-sumcheck round.
    pub fn simulate_verify_second_sumcheck_ongoing_round(rng: &mut Transcript) -> (r: Option<
        MLVerifierMsg,
    >)
        ensures
            r matches Some(m) && m.randomness.ok() && m.randomness.val()
                == crate::transcript::draws(old(rng)@, 1)[0],
            final(rng)@ == crate::transcript::chain_after(old(rng)@, 1),
    {
        let c = rng.sample_field();
        proof {
            lemma_one_draw(old(rng)@, c, rng@);
        }
        Some(MLVerifierMsg { randomness: c })
    }

    /// The final round of the second sumcheck: check the last round
    /// polynomial and keep the residual claim.
    pub fn verify_second_sumcheck_final_round(
        state: VerifierSecondSumcheckState,
        p_msg: ProverMsg,
        rng: &mut Transcript,
    ) -> (r: Result<(VerifierSixthState, VerifierFifthMessage), Error>)
        requires
            state.ml_verifier.wf(),
            state.ml_verifier.round_s() + 1 == state.ml_verifier.nv_s(),
            all_ok(p_msg.evaluations@),
        ensures
            final(rng)@ == crate::transcript::chain_after(old(rng)@, 1),
            match r {
                Ok((st, msg)) => {
                    &&& p_msg.evaluations@.len() == state.ml_verifier.maxm() + 1
                    &&& crate::field::fadd(
                        p_msg.evaluations@[0].val(),
                        p_msg.evaluations@[1].val(),
                    ) == state.ml_verifier.claim().val()
                    &&& st.vk == state.vk
                    &&& st.commit == state.commit
                    &&& st.r_a == state.r_a && st.r_b == state.r_b && st.r_c == state.r_c
                    &&& st.r_x@ == state.r_x@
                    &&& st.second_subclaim.point@ == state.ml_verifier.challenges().push(
                        msg.last_random_point,
                    )
                    &&& st.second_subclaim.point@.len() == state.ml_verifier.nv_s()
                    &&& all_ok(st.second_subclaim.point@)
                    &&& st.second_subclaim.expected_evaluation.ok()
                    &&& st.second_subclaim.expected_evaluation.val()
                        == crate::ml_sumcheck::lagrange(
                        vals_of(p_msg.evaluations@),
                        msg.last_random_point.val(),
                    )
                    &&& msg.last_random_point.ok()
                    &&& msg.last_random_point.val() == crate::transcript::draws(old(rng)@, 1)[0]
                },
                Err(e) => {
                    ||| (e == Error::InvalidArg && p_msg.evaluations@.len()
                        != state.ml_verifier.maxm() + 1)
                    ||| (e == Error::SumcheckMismatch && p_msg.evaluations@.len()
                        == state.ml_verifier.maxm() + 1 && crate::field::fadd(
                        p_msg.evaluations@[0].val(),
                        p_msg.evaluations@[1].val(),
                    ) != state.ml_verifier.claim().val())
                },
            },
    {
        let c = rng.sample_field();
        proof {
            lemma_one_draw(old(rng)@, c, rng@);
        }
        let (vm, new_ml) = match verify_round(p_msg, state.ml_verifier, &c) {
            Ok(p) => p,
            Err(e) => {
                return Err(e);
            },
        };
        let sc = subclaim(new_ml);
        let msg = VerifierFifthMessage { last_random_point: vm.randomness };
        let next = VerifierSixthState {
            vk: state.vk,
            commit: state.commit,
            r_a: state.r_a,
            r_b: state.r_b,
            r_c: state.r_c,
            second_subclaim: sc,
            r_x: state.r_x,
        };
        Ok((next, msg))
    }

    /// The prover's mirror of the final second-sumcheck round.
    pub fn simulate_verify_second_sumcheck_final_round(rng: &mut Transcript) -> (r:
        VerifierFifthMessage)
        ensures
            r.last_random_point.ok(),
            r.last_random_point.val() == crate::transcript::draws(old(rng)@, 1)[0],
            final(rng)@ == crate::transcript::chain_after(old(rng)@, 1),
    {
        let c = rng.sample_field();
        proof {
            lemma_one_draw(old(rng)@, c, rng@);
        }
        VerifierFifthMessage { last_random_point: c }
    }

    /// Sixth round: discharge the second residual claim against the
    /// matrix extensions and check the final opening.
    ///
    /// Fails with `SecondSubclaim` exactly when the combined matrix
    /// evaluations, scaled by the claimed value, miss the expected
    /// evaluation, and with `OpeningMismatch` exactly when the final
    /// opening's pairing check disagrees.
    pub fn verify_sixth_round(
        state: VerifierSixthState,
        p_msg: ProverFinalMessage,
        vp: &VerifierParameter,
    ) -> (r: Result<bool, Error>)
        requires
            state.vk.wf(),
            state.r_a.ok(),
            state.r_b.ok(),
            state.r_c.ok(),
            state.r_x@.len() == state.vk.log_n,
            all_ok(state.r_x@),
            state.second_subclaim.point@.len() == state.vk.log_n,
            all_ok(state.second_subclaim.point@),
            state.second_subclaim.expected_evaluation.ok(),
            state.commit.wf(),
            vp.wf(),
            p_msg.z_ry.ok(),
            p_msg.proof_for_z_ry.wf(),
        ensures
            ({
                let n = state.vk.log_n;
                let rx = vals_of(state.r_x@);
                let ry = vals_of(state.second_subclaim.point@);
                let a = mat_eval(state.vk.matrix_a, rx, ry);
                let b = mat_eval(state.vk.matrix_b, rx, ry);
                let cc = mat_eval(state.vk.matrix_c, rx, ry);
                let zr = p_msg.z_ry.val();
                let claim_holds = (state.r_a.val() * a * zr + state.r_b.val() * b * zr
                    + state.r_c.val() * cc * zr) % prime()
                    == state.second_subclaim.expected_evaluation.val();
                let pairing_ok = pairing_of(
                    g1_sub_of(state.commit.g_product@, g1_scale_of(vp.g@, zr)),
                    vp.h@,
                ) == crate::commitment::verify::gt_chain(
                    g1_views(vp.g_mask_random@),
                    vp.g@,
                    ry,
                    g2_views(p_msg.proof_for_z_ry.proofs@),
                    vp.nv as nat,
                );
                match r {
                    Ok(b2) => {
                        &&& b2 == true
                        &&& claim_holds
                        &&& pairing_ok
                        &&& vp.nv == n
                    },
                    Err(e) => {
                        ||| (e == Error::InvalidArg && (vp.nv != n
                            || p_msg.proof_for_z_ry.proofs@.len() != n))
                        ||| (e == Error::SecondSubclaim && vp.nv == n && !claim_holds)
                        ||| (e == Error::OpeningMismatch && vp.nv == n && claim_holds
                            && !pairing_ok)
                    },
                }
            }),
    {
        let n = state.vk.log_n;
        if vp.nv != n {
            return Err(Error::InvalidArg);
        }
        let r_y = &state.second_subclaim.point;
        let a_tab = state.vk.matrix_a.eval_on_x(&state.r_x);
        let b_tab = state.vk.matrix_b.eval_on_x(&state.r_x);
        let c_tab = state.vk.matrix_c.eval_on_x(&state.r_x);
        proof {
            assert(a_tab@ =~= slice_table(state.vk.matrix_a, vals_of(state.r_x@)));
            assert(b_tab@ =~= slice_table(state.vk.matrix_b, vals_of(state.r_x@)));
            assert(c_tab@ =~= slice_table(state.vk.matrix_c, vals_of(state.r_x@)));
        }
        let a_rx_ry = a_tab.eval_at(r_y);
        let b_rx_ry = b_tab.eval_at(r_y);
        let c_rx_ry = c_tab.eval_at(r_y);
        let ta = fe_mul(&fe_mul(&state.r_a, &a_rx_ry), &p_msg.z_ry);
        let tb = fe_mul(&fe_mul(&state.r_b, &b_rx_ry), &p_msg.z_ry);
        let tc = fe_mul(&fe_mul(&state.r_c, &c_rx_ry), &p_msg.z_ry);
        let actual = fe_add(&fe_add(&ta, &tb), &tc);
        proof {
            let rx = vals_of(state.r_x@);
            let ry = vals_of(state.second_subclaim.point@);
            let a = mat_eval(state.vk.matrix_a, rx, ry);
            let b = mat_eval(state.vk.matrix_b, rx, ry);
            let cc = mat_eval(state.vk.matrix_c, rx, ry);
            let zr = p_msg.z_ry.val();
            lemma_mul_mod_noop_left(state.r_a.val() * a, zr, prime());
            lemma_mul_mod_noop_left(state.r_b.val() * b, zr, prime());
            lemma_mul_mod_noop_left(state.r_c.val() * cc, zr, prime());
            assert(ta.val() == (state.r_a.val() * a * zr) % prime());
            assert(tb.val() == (state.r_b.val() * b * zr) % prime());
            assert(tc.val() == (state.r_c.val() * cc * zr) % prime());
            lemma_add_mod_noop(state.r_a.val() * a * zr, state.r_b.val() * b * zr, prime());
            lemma_add_mod_noop(
                state.r_a.val() * a * zr + state.r_b.val() * b * zr,
                state.r_c.val() * cc * zr,
                prime(),
            );
        }
        if !fe_equal(&actual, &state.second_subclaim.expected_evaluation) {
            return Err(Error::SecondSubclaim);
        }
        let passed = match MLPolyCommit::verify(
            vp,
            &state.commit,
            r_y,
            &p_msg.z_ry,
            &p_msg.proof_for_z_ry,
        ) {
            Ok(b) => b,
            Err(e) => {
                return Err(e);
            },
        };
        if !passed {
            return Err(Error::OpeningMismatch);
        }
        Ok(true)
    }
}

} // verus!
