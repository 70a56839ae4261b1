//! A succinct argument for R1CS satisfiability over the BLS12-381 scalar
//! field: two chained multilinear sumchecks bound together by a
//! pairing-based commitment to the assignment polynomial, made
//! non-interactive by a transcript-seeded PRNG.

#![allow(unused_imports)]

use vstd::prelude::*;

pub mod ahp;
pub mod algebra;
pub mod commitment;
pub mod curve;
pub mod data_structures;
pub mod drivers;
pub mod error;
pub mod field;
pub mod ml_sumcheck;
pub mod transcript;

use vstd::arithmetic::power2::pow2;
use crate::ahp::indexer::{IndexPK, IndexVK};
use crate::ahp::AHPForSpartan;
use crate::commitment::data_structures::{PublicParameter, VerifierParameter};
use crate::data_structures::wire::{
    encode_fe_vec, encode_matrix, msgs_wf, push_fe, push_g2_list, push_msg, push_u32, Proof,
};
use crate::error::Error;
use crate::field::{all_ok, Fe};
use crate::ml_sumcheck::{IndexInfo, ProverMsg, VerifierMsg as MLVerifierMsg};
use crate::transcript::Transcript;

verus! {

/// The argument system: indexing, proving, verifying.
pub struct Spartan;

/// Sizes under the supported range fit the feed encoders' counters.
proof fn lemma_feed_bounds(log_n: nat, log_v: nat)
    requires
        1 <= log_n <= 30,
        log_v <= log_n,
    ensures
        pow2(log_n) <= 0x40000000,
        pow2(log_v) <= 0x40000000,
{
    vstd::arithmetic::power2::lemma2_to64();
    if log_n < 30 {
        vstd::arithmetic::power2::lemma_pow2_strictly_increases(log_n, 30);
    }
    if log_v < 30 {
        vstd::arithmetic::power2::lemma_pow2_strictly_increases(log_v, 30);
    }
}

/// The transcript chain value after feeding the three matrices and the
/// public input, in order, into the state `t0`.
pub open spec fn instance_chain(
    t0: Seq<u8>,
    ma: crate::data_structures::r1cs_reader::MatrixExtension,
    mb: crate::data_structures::r1cs_reader::MatrixExtension,
    mc: crate::data_structures::r1cs_reader::MatrixExtension,
    v: Seq<Fe>,
) -> Seq<u8> {
    let tag = seq![crate::transcript::feed_tag()];
    crate::transcript::blake2_of(
        crate::transcript::blake2_of(
            crate::transcript::blake2_of(
                crate::transcript::blake2_of(
                    t0 + tag + crate::data_structures::wire::matrix_bytes(ma),
                ) + tag + crate::data_structures::wire::matrix_bytes(mb),
            ) + tag + crate::data_structures::wire::matrix_bytes(mc),
        ) + tag + crate::data_structures::wire::fe_vec_bytes(v),
    )
}

/// The transcript chain value the verifier holds when it samples the
/// public-input point: the instance fed, then the received commitment.
pub open spec fn chain_at_first_sample(vk: IndexVK, v: Seq<Fe>, p: Proof) -> Seq<u8> {
    crate::transcript::blake2_of(
        instance_chain(
            crate::transcript::blake2_of(crate::transcript::transcript_label()),
            vk.matrix_a,
            vk.matrix_b,
            vk.matrix_c,
            v,
        ) + seq![crate::transcript::feed_tag()]
            + p.prover_first_message.commitment.g_product@,
    )
}

/// Whether a proof's claimed public-input evaluation matches the
/// public-input polynomial at the transcript-derived point.
pub open spec fn public_input_consistent(vk: IndexVK, v: Seq<Fe>, p: Proof) -> bool {
    crate::algebra::mle_eval(
        crate::field::vals_of(v),
        crate::transcript::draws(chain_at_first_sample(vk, v, p), vk.log_v as nat),
    ) == p.prover_second_message.z_rv_0.val()
}

/// Feed the canonical encoding of the index and the public input.
fn feed_instance(
    fs: &mut Transcript,
    ma: &crate::data_structures::r1cs_reader::MatrixExtension,
    mb: &crate::data_structures::r1cs_reader::MatrixExtension,
    mc: &crate::data_structures::r1cs_reader::MatrixExtension,
    v: &Vec<Fe>,
)
    requires
        ma.wf() && ma.nrows() <= 0xffffffff && ma.size() <= 0xffffffff,
        mb.wf() && mb.nrows() <= 0xffffffff && mb.size() <= 0xffffffff,
        mc.wf() && mc.nrows() <= 0xffffffff && mc.size() <= 0xffffffff,
        all_ok(v@),
        v@.len() <= 0xffffffff,
    ensures
        final(fs)@ == instance_chain(old(fs)@, *ma, *mb, *mc, v@),
{
    let ea = encode_matrix(ma);
    fs.feed(&ea);
    let eb = encode_matrix(mb);
    fs.feed(&eb);
    let ec = encode_matrix(mc);
    fs.feed(&ec);
    let ev = encode_fe_vec(v);
    fs.feed(&ev);
}

/// Feed a sumcheck shape message.
fn feed_index_info(fs: &mut Transcript, info: &IndexInfo)
    requires
        info.num_variables <= 0xffffffff,
        info.max_multiplicands <= 0xffffffff,
{
    let mut buf: Vec<u8> = Vec::new();
    push_u32(&mut buf, info.num_variables as u32);
    push_u32(&mut buf, info.max_multiplicands as u32);
    fs.feed(&buf);
}

/// Feed one sumcheck round message.
fn feed_prover_msg(fs: &mut Transcript, m: &ProverMsg)
    requires
        all_ok(m.evaluations@),
        m.evaluations@.len() <= 33,
{
    let mut buf: Vec<u8> = Vec::new();
    push_msg(&mut buf, m);
    fs.feed(&buf);
}

impl Spartan {
    /// Build the prover's key.
    ///
    /// Succeeds exactly when the assignment sizes are powers of two in
    /// the supported range and every matrix fits their square.
    pub fn index(
        matrix_a: Vec<Vec<(Fe, usize)>>,
        matrix_b: Vec<Vec<(Fe, usize)>>,
        matrix_c: Vec<Vec<(Fe, usize)>>,
        v: Vec<Fe>,
        w: Vec<Fe>,
    ) -> (r: Result<IndexPK, Error>)
        requires
            all_ok(v@),
            all_ok(w@),
            forall|x: int|
                0 <= x < matrix_a@.len() ==> all_ok(
                    (#[trigger] matrix_a@[x])@.map_values(|e: (Fe, usize)| e.0),
                ),
            forall|x: int|
                0 <= x < matrix_b@.len() ==> all_ok(
                    (#[trigger] matrix_b@[x])@.map_values(|e: (Fe, usize)| e.0),
                ),
            forall|x: int|
                0 <= x < matrix_c@.len() ==> all_ok(
                    (#[trigger] matrix_c@[x])@.map_values(|e: (Fe, usize)| e.0),
                ),
        ensures
            match r {
                Ok(pk) => {
                    &&& crate::ahp::indexer::index_input_ok(
                        matrix_a@,
                        matrix_b@,
                        matrix_c@,
                        v@,
                        w@,
                    )
                    &&& pk.wf()
                    &&& pk.v@ == v@
                    &&& pk.w@ == w@
                },
                Err(e) => {
                    &&& e == Error::InvalidArg
                    &&& !crate::ahp::indexer::index_input_ok(
                        matrix_a@,
                        matrix_b@,
                        matrix_c@,
                        v@,
                        w@,
                    )
                },
            },
    {
        AHPForSpartan::index(matrix_a, matrix_b, matrix_c, v, w)
    }

    /// Produce a proof that the assignment `v` followed by `w` satisfies
    /// the indexed constraint system.
    ///
    /// Succeeds exactly when the assignment has the sizes the key
    /// declares and the parameters match the key; the proof is then
    /// well-formed for the key's size.
    pub fn prove(pk: IndexPK, v: Vec<Fe>, w: Vec<Fe>, pp: &PublicParameter) -> (r: Result<
        Proof,
        Error,
    >)
        requires
            pk.wf(),
            all_ok(v@),
            all_ok(w@),
            pp.wf(),
        ensures
            ({
                let fits = v@.len() == pow2(pk.log_v as nat) && v@.len() + w@.len() == pow2(
                    pk.log_n as nat,
                ) && pp.nv == pk.log_n;
                match r {
                    Ok(proof) => {
                        &&& fits
                        &&& proof.wf(pk.log_n as nat)
                        &&& proof.prover_first_message.commitment.g_product@
                            == crate::curve::g1_msm_of(
                            crate::curve::g1_views(pp.powers_of_g@[0]@),
                            crate::field::vals_of(v@) + crate::field::vals_of(w@),
                        )
                        &&& ({
                            let t1 = crate::transcript::blake2_of(
                                instance_chain(
                                    crate::transcript::blake2_of(
                                        crate::transcript::transcript_label(),
                                    ),
                                    pk.matrix_a,
                                    pk.matrix_b,
                                    pk.matrix_c,
                                    v@,
                                ) + seq![crate::transcript::feed_tag()]
                                    + proof.prover_first_message.commitment.g_product@,
                            );
                            proof.prover_second_message.z_rv_0.val() == crate::algebra::mle_eval(
                                crate::field::vals_of(v@) + crate::field::vals_of(w@),
                                crate::ahp::prover::padded_point(
                                    crate::transcript::draws(t1, pk.log_v as nat),
                                    pk.log_n as nat,
                                ),
                            )
                        })
                    },
                    Err(e) => e == Error::InvalidArg && !fits,
                }
            }),
    {
        let log_n = pk.log_n;
        let log_v = pk.log_v;
        let ps = match AHPForSpartan::prover_init(pk, v, w) {
            Ok(s) => s,
            Err(e) => {
                return Err(e);
            },
        };
        if pp.nv != log_n {
            return Err(Error::InvalidArg);
        }
        let mut fs = Transcript::new();
        proof {
            lemma_feed_bounds(ps.pk.log_n as nat, ps.pk.log_v as nat);
            ps.pk.matrix_a.lemma_wf_bounds();
            ps.pk.matrix_b.lemma_wf_bounds();
            ps.pk.matrix_c.lemma_wf_bounds();
        }
        feed_instance(&mut fs, &ps.pk.matrix_a, &ps.pk.matrix_b, &ps.pk.matrix_c, &ps.pk.v);
        let (ps, pm1) = match AHPForSpartan::prover_first_round(ps, pp) {
            Ok(t) => t,
            Err(e) => {
                return Err(e);
            },
        };
        let c_bytes = pm1.commitment.g_product.to_bytes();
        fs.feed(&c_bytes);
        let vm1 = AHPForSpartan::sample_first_round(log_v, &mut fs);
        let (ps, pm2) = match AHPForSpartan::prover_second_round(ps, vm1, pp) {
            Ok(t) => t,
            Err(e) => {
                return Err(e);
            },
        };
        let mut m2_bytes: Vec<u8> = Vec::new();
        push_fe(&mut m2_bytes, &pm2.z_rv_0);
        push_g2_list(&mut m2_bytes, &pm2.proof_for_z_rv_0.proofs);
        fs.feed(&m2_bytes);
        let vm2 = AHPForSpartan::simulate_verify_second_round(&ps.pk, &mut fs);
        let ghost pkv = ps.pk;
        let (mut ps, pm3) = match AHPForSpartan::prover_third_round(ps, vm2) {
            Ok(t) => t,
            Err(e) => {
                return Err(e);
            },
        };
        feed_index_info(&mut fs, &pm3.ml_index_info);
        let mut vm: Option<MLVerifierMsg> = AHPForSpartan::simulate_verify_third_round();
        let mut sumcheck1_msgs: Vec<ProverMsg> = Vec::new();
        let mut i: usize = 0;
        while i < log_n - 1
            invariant
                i <= log_n - 1,
                1 <= log_n <= 30,
                ps.pk == pkv,
                ps.pk.wf(),
                ps.z.wf() && ps.z.nvars() == log_n && ps.z@ == crate::ahp::prover::z_view(pkv),
                ps.sum_az_over_y.wf() && ps.sum_az_over_y.nvars() == log_n,
                ps.sum_bz_over_y.wf() && ps.sum_bz_over_y.nvars() == log_n,
                ps.sum_cz_over_y.wf() && ps.sum_cz_over_y.nvars() == log_n,
                ps.ml_prover_state.wf(),
                ps.ml_prover_state.nv_s() == log_n,
                ps.ml_prover_state.maxm() == log_n + 2,
                ps.ml_prover_state.round_s() == i,
                i == 0 <==> vm is None,
                vm matches Some(m) ==> m.randomness.ok(),
                sumcheck1_msgs@.len() == i,
                msgs_wf(sumcheck1_msgs@, i as nat, (log_n + 3) as nat),
            decreases log_n - 1 - i,
        {
            let (ps_new, pm) = match AHPForSpartan::prove_first_sumcheck_round(ps, vm) {
                Ok(t) => t,
                Err(e) => {
                    return Err(e);
                },
            };
            ps = ps_new;
            feed_prover_msg(&mut fs, &pm);
            sumcheck1_msgs.push(pm);
            vm = AHPForSpartan::simulate_verify_first_sumcheck_ongoing_round(&mut fs);
            i = i + 1;
        }
        let (ps, pm) = match AHPForSpartan::prove_first_sumcheck_round(ps, vm) {
            Ok(t) => t,
            Err(e) => {
                return Err(e);
            },
        };
        feed_prover_msg(&mut fs, &pm);
        sumcheck1_msgs.push(pm);
        let vm3 = AHPForSpartan::simulate_verify_first_sumcheck_final_round(&mut fs);
        let (ps, pm4) = match AHPForSpartan::prove_fourth_round(ps, vm3) {
            Ok(t) => t,
            Err(e) => {
                return Err(e);
            },
        };
        let mut m4_bytes: Vec<u8> = Vec::new();
        push_fe(&mut m4_bytes, &pm4.va);
        push_fe(&mut m4_bytes, &pm4.vb);
        push_fe(&mut m4_bytes, &pm4.vc);
        fs.feed(&m4_bytes);
        let vm4 = AHPForSpartan::simulate_verify_fourth_round(&mut fs);
        let (mut ps2, pm5) = match AHPForSpartan::prove_fifth_round(ps, vm4) {
            Ok(t) => t,
            Err(e) => {
                return Err(e);
            },
        };
        feed_index_info(&mut fs, &pm5.index_info);
        let mut vm: Option<MLVerifierMsg> = AHPForSpartan::simulate_verify_fifth_round();
        let mut sumcheck2_msgs: Vec<ProverMsg> = Vec::new();
        let mut i: usize = 0;
        while i < log_n - 1
            invariant
                i <= log_n - 1,
                1 <= log_n <= 30,
                ps2.z.wf() && ps2.z.nvars() == log_n,
                ps2.ml_prover_state.wf(),
                ps2.ml_prover_state.nv_s() == log_n,
                ps2.ml_prover_state.maxm() == 2,
                ps2.ml_prover_state.round_s() == i,
                i == 0 <==> vm is None,
                vm matches Some(m) ==> m.randomness.ok(),
                sumcheck2_msgs@.len() == i,
                msgs_wf(sumcheck2_msgs@, i as nat, 3),
            decreases log_n - 1 - i,
        {
            let (ps_new, pm) = match AHPForSpartan::prove_second_sumcheck_round(ps2, vm) {
                Ok(t) => t,
                Err(e) => {
                    return Err(e);
                },
            };
            ps2 = ps_new;
            feed_prover_msg(&mut fs, &pm);
            sumcheck2_msgs.push(pm);
            vm = AHPForSpartan::simulate_verify_second_sumcheck_ongoing_round(&mut fs);
            i = i + 1;
        }
        let (ps2, pm) = match AHPForSpartan::prove_second_sumcheck_round(ps2, vm) {
            Ok(t) => t,
            Err(e) => {
                return Err(e);
            },
        };
        feed_prover_msg(&mut fs, &pm);
        sumcheck2_msgs.push(pm);
        let vm5 = AHPForSpartan::simulate_verify_second_sumcheck_final_round(&mut fs);
        let pm6 = match AHPForSpartan::prove_sixth_round(ps2, vm5, pp) {
            Ok(t) => t,
            Err(e) => {
                return Err(e);
            },
        };
        Ok(
            Proof {
                prover_first_message: pm1,
                prover_second_message: pm2,
                prover_third_message: pm3,
                first_sumcheck_messages: sumcheck1_msgs,
                prover_fourth_message: pm4,
                prover_fifth_message: pm5,
                second_sumcheck_messages: sumcheck2_msgs,
                prover_sixth_message: pm6,
            },
        )
    }

    /// Check a proof against the verifier's key and the public input.
    ///
    /// Replays the transcript, checks every sumcheck round, both
    /// residual claims and both openings; accepts only when every check
    /// passes, and surfaces the first failing check's error otherwise.
    /// A structural error is returned exactly when the public input does
    /// not fit the key or the parameters do not fit the instance; every
    /// other error is a witness error from a failed check.
    pub fn verify(vk: IndexVK, v: Vec<Fe>, proof: Proof, vp: &VerifierParameter) -> (r: Result<
        bool,
        Error,
    >)
        requires
            vk.wf(),
            all_ok(v@),
            proof.wf(vk.log_n as nat),
            vp.wf(),
        ensures
            match r {
                Ok(b) => b == true,
                Err(_) => true,
            },
            r == Err::<bool, Error>(Error::InvalidArg) <==> (v@.len() != pow2(vk.log_v as nat)
                || v@.len() > vk.matrix_a.nrows() || vp.nv != vk.log_n),
            r == Err::<bool, Error>(Error::PublicInputMismatch) <==> (v@.len() == pow2(
                vk.log_v as nat,
            ) && v@.len() <= vk.matrix_a.nrows() && vp.nv == vk.log_n
                && !public_input_consistent(vk, v@, proof)),
    {
        let log_n = vk.log_n;
        let mut first_msgs = proof.first_sumcheck_messages;
        let mut second_msgs = proof.second_sumcheck_messages;
        let vs = match AHPForSpartan::verifier_init(vk, v) {
            Ok(s) => s,
            Err(e) => {
                return Err(e);
            },
        };
        let mut fs = Transcript::new();
        proof {
            lemma_feed_bounds(vs.vk.log_n as nat, vs.vk.log_v as nat);
            vs.vk.matrix_a.lemma_wf_bounds();
            vs.vk.matrix_b.lemma_wf_bounds();
            vs.vk.matrix_c.lemma_wf_bounds();
        }
        feed_instance(&mut fs, &vs.vk.matrix_a, &vs.vk.matrix_b, &vs.vk.matrix_c, &vs.v);
        let pm1 = proof.prover_first_message;
        let c_bytes = pm1.commitment.g_product.to_bytes();
        fs.feed(&c_bytes);
        let (vs, _vm1) = match AHPForSpartan::verify_first_round(vs, pm1, &mut fs) {
            Ok(t) => t,
            Err(e) => {
                return Err(e);
            },
        };
        let pm2 = proof.prover_second_message;
        let mut m2_bytes: Vec<u8> = Vec::new();
        push_fe(&mut m2_bytes, &pm2.z_rv_0);
        push_g2_list(&mut m2_bytes, &pm2.proof_for_z_rv_0.proofs);
        fs.feed(&m2_bytes);
        let (vs, _vm2) = match AHPForSpartan::verify_second_round(vs, pm2, &mut fs, vp) {
            Ok(t) => t,
            Err(e) => {
                return Err(e);
            },
        };
        let pm3 = proof.prover_third_message;
        feed_index_info(&mut fs, &pm3.ml_index_info);
        let (mut vs, _) = match AHPForSpartan::verify_third_round(vs, pm3) {
            Ok(t) => t,
            Err(e) => {
                return Err(e);
            },
        };
        let ghost vkv = vs.vk;
        let ghost commit0 = vs.commit;
        let mut i: usize = 0;
        while i < log_n - 1
            invariant
                i <= log_n - 1,
                1 <= log_n <= 30,
                vs.vk == vkv,
                vs.commit == commit0,
                vs.vk.wf(),
                vs.vk.log_n == log_n,
                vs.commit.wf(),
                v@.len() == pow2(vk.log_v as nat),
                v@.len() <= vk.matrix_a.nrows(),
                vp.nv == vk.log_n,
                public_input_consistent(vk, v@, proof),
                crate::ahp::verify::eq_bundle_wf(vs.eq@, log_n as nat),
                vs.ml_verifier.wf(),
                vs.ml_verifier.nv_s() == log_n,
                vs.ml_verifier.maxm() == log_n + 2,
                vs.ml_verifier.round_s() == i,
                first_msgs@.len() + i == log_n,
                msgs_wf(first_msgs@, (log_n - i) as nat, (log_n + 3) as nat),
            decreases log_n - 1 - i,
        {
            let pm = match Self::try_pop(&mut first_msgs) {
                Ok(m) => m,
                Err(e) => {
                    return Err(e);
                },
            };
            feed_prover_msg(&mut fs, &pm);
            let (vs_new, _) = match AHPForSpartan::verify_first_sumcheck_ongoing_round(
                vs,
                pm,
                &mut fs,
            ) {
                Ok(t) => t,
                Err(e) => {
                    return Err(e);
                },
            };
            vs = vs_new;
            i = i + 1;
        }
        let pm = match Self::try_pop(&mut first_msgs) {
            Ok(m) => m,
            Err(e) => {
                return Err(e);
            },
        };
        feed_prover_msg(&mut fs, &pm);
        let (vs, _vm3) = match AHPForSpartan::verify_first_sumcheck_final_round(vs, pm, &mut fs) {
            Ok(t) => t,
            Err(e) => {
                return Err(e);
            },
        };
        let pm4 = proof.prover_fourth_message;
        let mut m4_bytes: Vec<u8> = Vec::new();
        push_fe(&mut m4_bytes, &pm4.va);
        push_fe(&mut m4_bytes, &pm4.vb);
        push_fe(&mut m4_bytes, &pm4.vc);
        fs.feed(&m4_bytes);
        let (vs, _vm4) = match AHPForSpartan::verify_fourth_round(vs, pm4, &mut fs) {
            Ok(t) => t,
            Err(e) => {
                return Err(e);
            },
        };
        let pm5 = proof.prover_fifth_message;
        feed_index_info(&mut fs, &pm5.index_info);
        let (mut vs2, _) = match AHPForSpartan::verify_fifth_round(vs, pm5) {
            Ok(t) => t,
            Err(e) => {
                return Err(e);
            },
        };
        let ghost vkv2 = vs2.vk;
        let ghost commit2 = vs2.commit;
        let ghost rx2 = vs2.r_x@;
        let mut i: usize = 0;
        while i < log_n - 1
            invariant
                i <= log_n - 1,
                1 <= log_n <= 30,
                vs2.vk == vkv2,
                vs2.commit == commit2,
                vs2.r_x@ == rx2,
                vs2.vk.wf(),
                vs2.vk.log_n == log_n,
                vs2.commit.wf(),
                v@.len() == pow2(vk.log_v as nat),
                v@.len() <= vk.matrix_a.nrows(),
                vp.nv == vk.log_n,
                public_input_consistent(vk, v@, proof),
                vs2.r_a.ok() && vs2.r_b.ok() && vs2.r_c.ok(),
                vs2.r_x@.len() == log_n,
                all_ok(vs2.r_x@),
                vs2.ml_verifier.wf(),
                vs2.ml_verifier.nv_s() == log_n,
                vs2.ml_verifier.maxm() == 2,
                vs2.ml_verifier.round_s() == i,
                second_msgs@.len() + i == log_n,
                msgs_wf(second_msgs@, (log_n - i) as nat, 3),
            decreases log_n - 1 - i,
        {
            let pm = match Self::try_pop(&mut second_msgs) {
                Ok(m) => m,
                Err(e) => {
                    return Err(e);
                },
            };
            feed_prover_msg(&mut fs, &pm);
            let (vs_new, _) = match AHPForSpartan::verify_second_sumcheck_ongoing_round(
                vs2,
                pm,
                &mut fs,
            ) {
                Ok(t) => t,
                Err(e) => {
                    return Err(e);
                },
            };
            vs2 = vs_new;
            i = i + 1;
        }
        let pm = match Self::try_pop(&mut second_msgs) {
            Ok(m) => m,
            Err(e) => {
                return Err(e);
            },
        };
        feed_prover_msg(&mut fs, &pm);
        let (vs2, _vm5) = match AHPForSpartan::verify_second_sumcheck_final_round(
            vs2,
            pm,
            &mut fs,
        ) {
            Ok(t) => t,
            Err(e) => {
                return Err(e);
            },
        };
        let pm6 = proof.prover_sixth_message;
        let result = match AHPForSpartan::verify_sixth_round(vs2, pm6, vp) {
            Ok(b) => b,
            Err(e) => {
                return Err(e);
            },
        };
        Ok(result)
    }

    /// Take the next queued sumcheck message; a missing one means the
    /// proof is malformed.
    fn try_pop(sumcheck_messages: &mut Vec<ProverMsg>) -> (r: Result<ProverMsg, Error>)
        ensures
            match r {
                Ok(m) => {
                    &&& old(sumcheck_messages)@.len() > 0
                    &&& m == old(sumcheck_messages)@[0]
                    &&& final(sumcheck_messages)@ == old(sumcheck_messages)@.drop_first()
                },
                Err(e) => {
                    &&& e == Error::InvalidArg
                    &&& old(sumcheck_messages)@.len() == 0
                    &&& final(sumcheck_messages)@ == old(sumcheck_messages)@
                },
            },
    {
        if sumcheck_messages.len() == 0 {
            return Err(Error::InvalidArg);
        }
        let m = sumcheck_messages.remove(0);
        proof {
            assert(sumcheck_messages@ =~= old(sumcheck_messages)@.drop_first());
        }
        Ok(m)
    }
}

} // verus!
