//! The proof object: the full non-interactive transcript of the prover's
//! messages, with its canonical byte encoding.
//!
//! Wire order: the commitment, the public-input value, its opening, the
//! first sumcheck's rounds, the three matrix values, the second
//! sumcheck's rounds, the final value, its opening. Counts are 32-bit
//! little-endian; field elements are 32-byte canonical little-endian;
//! group elements are compressed.

use vstd::prelude::*;
use crate::ahp::prover::{
    ProverFifthMessage, ProverFirstMessage, ProverFourthMessage, ProverSecondMessage,
    ProverSixthMessage, ProverThirdMessage,
};
use crate::commitment::commit::Commitment;
use crate::commitment::open::Proof as EvalProof;
use crate::curve::{g1_validate, g2_validate, G1El, G2El};
use crate::data_structures::r1cs_reader::MatrixExtension;
use crate::error::Error;
use crate::field::{all_ok, Fe};
use crate::ml_sumcheck::{IndexInfo, ProverMsg};
use crate::transcript::push_all;

verus! {

/// The non-interactive proof: every prover message in round order.
pub struct Proof {
    pub prover_first_message: ProverFirstMessage,
    pub prover_second_message: ProverSecondMessage,
    pub prover_third_message: ProverThirdMessage,
    pub first_sumcheck_messages: Vec<ProverMsg>,
    pub prover_fourth_message: ProverFourthMessage,
    pub prover_fifth_message: ProverFifthMessage,
    pub second_sumcheck_messages: Vec<ProverMsg>,
    pub prover_sixth_message: ProverSixthMessage,
}

/// The exact size of the wire encoding for an instance of `n`
/// variables: the fixed header and trailer plus the per-round blocks.
pub open spec fn proof_byte_len(n: nat) -> nat {
    216 + 392 * n + 32 * (n * n)
}

/// The encoding of a list of G2 points, in order.
pub open spec fn cat_g2(es: Seq<G2El>) -> Seq<u8>
    decreases es.len(),
{
    if es.len() == 0 {
        Seq::empty()
    } else {
        cat_g2(es.drop_last()) + es.last()@
    }
}

/// The encoding of a list of field elements, in order.
pub open spec fn cat_fe(es: Seq<Fe>) -> Seq<u8>
    decreases es.len(),
{
    if es.len() == 0 {
        Seq::empty()
    } else {
        cat_fe(es.drop_last()) + crate::field::fe_le_bytes(es.last().val())
    }
}

/// The encoding of one sumcheck round message: its 32-bit count, then
/// its evaluations.
pub open spec fn msg_bytes(m: ProverMsg) -> Seq<u8> {
    crate::algebra::le_bytes_of(m.evaluations@.len() as int, 4) + cat_fe(m.evaluations@)
}

/// The encoding of a list of round messages, in order.
pub open spec fn cat_msgs(ms: Seq<ProverMsg>) -> Seq<u8>
    decreases ms.len(),
{
    if ms.len() == 0 {
        Seq::empty()
    } else {
        cat_msgs(ms.drop_last()) + msg_bytes(ms.last())
    }
}

/// The full wire encoding of a proof for an instance of `n` variables:
/// the commitment, the public-input value and its opening, the first
/// sumcheck's rounds, the three matrix values, the second sumcheck's
/// rounds, and the final value and its opening, in that order.
pub open spec fn proof_bytes(p: Proof, n: nat) -> Seq<u8> {
    p.prover_first_message.commitment.g_product@ + crate::field::fe_le_bytes(
        p.prover_second_message.z_rv_0.val(),
    ) + cat_g2(p.prover_second_message.proof_for_z_rv_0.proofs@) + crate::algebra::le_bytes_of(
        n as int,
        4,
    ) + cat_msgs(p.first_sumcheck_messages@) + crate::field::fe_le_bytes(
        p.prover_fourth_message.va.val(),
    ) + crate::field::fe_le_bytes(p.prover_fourth_message.vb.val()) + crate::field::fe_le_bytes(
        p.prover_fourth_message.vc.val(),
    ) + crate::algebra::le_bytes_of(n as int, 4) + cat_msgs(p.second_sumcheck_messages@)
        + crate::field::fe_le_bytes(p.prover_sixth_message.z_ry.val()) + cat_g2(
        p.prover_sixth_message.proof_for_z_ry.proofs@,
    )
}

/// Every round message has the declared number of evaluations, all
/// canonical.
pub open spec fn msgs_wf(msgs: Seq<ProverMsg>, rounds: nat, evals: nat) -> bool {
    &&& msgs.len() == rounds
    &&& forall|i: int|
        0 <= i < rounds ==> (#[trigger] msgs[i]).evaluations@.len() == evals && all_ok(
            msgs[i].evaluations@,
        )
}

impl Proof {
    /// A proof of the declared size: every component well-formed and of
    /// the shape the protocol sends for `n` variables.
    pub open spec fn wf(self, n: nat) -> bool {
        &&& 1 <= n <= 30
        &&& self.prover_first_message.commitment.wf()
        &&& self.prover_first_message.commitment.nv == n
        &&& self.prover_second_message.z_rv_0.ok()
        &&& self.prover_second_message.proof_for_z_rv_0.wf()
        &&& self.prover_second_message.proof_for_z_rv_0.proofs@.len() == n
        &&& self.prover_third_message.ml_index_info == (IndexInfo {
            num_variables: n as usize,
            max_multiplicands: (n + 2) as usize,
        })
        &&& msgs_wf(self.first_sumcheck_messages@, n, n + 3)
        &&& self.prover_fourth_message.va.ok()
        &&& self.prover_fourth_message.vb.ok()
        &&& self.prover_fourth_message.vc.ok()
        &&& self.prover_fifth_message.index_info == (IndexInfo {
            num_variables: n as usize,
            max_multiplicands: 2,
        })
        &&& msgs_wf(self.second_sumcheck_messages@, n, 3)
        &&& self.prover_sixth_message.z_ry.ok()
        &&& self.prover_sixth_message.proof_for_z_ry.wf()
        &&& self.prover_sixth_message.proof_for_z_ry.proofs@.len() == n
    }

    /// Serialise to the canonical wire format: the commitment, the
    /// public-input value and opening, the first sumcheck's rounds, the
    /// three matrix values, the second sumcheck's rounds, and the final
    /// value and opening, in that order and nothing else.
    pub fn to_bytes(&self) -> (r: Vec<u8>)
        requires
            self.wf(self.prover_first_message.commitment.nv as nat),
        ensures
            r@.len() == proof_byte_len(self.prover_first_message.commitment.nv as nat),
            r@ == proof_bytes(*self, self.prover_first_message.commitment.nv as nat),
    {
        let n = self.prover_first_message.commitment.nv;
        let mut out: Vec<u8> = Vec::new();
        push_g1(&mut out, &self.prover_first_message.commitment.g_product);
        push_fe(&mut out, &self.prover_second_message.z_rv_0);
        push_g2_list(&mut out, &self.prover_second_message.proof_for_z_rv_0.proofs);
        push_u32(&mut out, n as u32);
        push_msg_list(&mut out, &self.first_sumcheck_messages, Ghost((n + 3) as nat));
        push_fe(&mut out, &self.prover_fourth_message.va);
        push_fe(&mut out, &self.prover_fourth_message.vb);
        push_fe(&mut out, &self.prover_fourth_message.vc);
        push_u32(&mut out, n as u32);
        push_msg_list(&mut out, &self.second_sumcheck_messages, Ghost(3nat));
        push_fe(&mut out, &self.prover_sixth_message.z_ry);
        push_g2_list(&mut out, &self.prover_sixth_message.proof_for_z_ry.proofs);
        proof {
            let nn = n as nat;
            assert(self.first_sumcheck_messages@.len() == nn);
            assert(self.second_sumcheck_messages@.len() == nn);
            assert(out@.len() == 48 + 32 + 96 * nn + 4 + nn * (4 + 32 * ((nn + 3) as nat)) + 32
                + 32 + 32 + 4 + nn * (4 + 32 * 3) + 32 + 96 * nn);
            assert(nn * (4 + 32 * ((nn + 3) as nat)) == 100 * nn + 32 * (nn * nn))
                by (nonlinear_arith);
            assert(nn * (4 + 32 * 3) == 100 * nn) by (nonlinear_arith);
            assert(out@.len() == proof_byte_len(nn));
            assert(out@ =~= proof_bytes(*self, nn));
        }
        out
    }

    /// Parse the canonical wire format for an instance of `n` variables.
    ///
    /// Accepted exactly on encodings: a decoded proof re-encodes to the
    /// input bytes. Rejected with `SerializationError` on any malformed
    /// component: a truncated buffer, an invalid group encoding, a
    /// non-canonical field element, a count that does not match `n`, or
    /// trailing bytes.
    pub fn from_bytes(bytes: &Vec<u8>, n: usize) -> (r: Result<Proof, Error>)
        requires
            1 <= n <= 30,
            bytes@.len() <= usize::MAX,
        ensures
            match r {
                Ok(p) => p.wf(n as nat) && bytes@ == proof_bytes(p, n as nat),
                Err(e) => e == Error::SerializationError,
            },
    {
        let mut pos: usize = 0;
        let (g_product, p1) = match read_g1(bytes, pos) {
            Ok(t) => t,
            Err(e) => {
                return Err(e);
            },
        };
        pos = p1;
        let (z_rv_0, p2) = match read_fe(bytes, pos) {
            Ok(t) => t,
            Err(e) => {
                return Err(e);
            },
        };
        pos = p2;
        let (pi0, p3) = match read_g2_list(bytes, pos, n) {
            Ok(t) => t,
            Err(e) => {
                return Err(e);
            },
        };
        pos = p3;
        let (n1, p4) = match read_u32(bytes, pos) {
            Ok(t) => t,
            Err(e) => {
                return Err(e);
            },
        };
        pos = p4;
        if n1 != n as u32 {
            return Err(Error::SerializationError);
        }
        let (msgs1, p5) = match read_msg_list(bytes, pos, n, n + 3) {
            Ok(t) => t,
            Err(e) => {
                return Err(e);
            },
        };
        pos = p5;
        let (va, p6) = match read_fe(bytes, pos) {
            Ok(t) => t,
            Err(e) => {
                return Err(e);
            },
        };
        pos = p6;
        let (vb, p7) = match read_fe(bytes, pos) {
            Ok(t) => t,
            Err(e) => {
                return Err(e);
            },
        };
        pos = p7;
        let (vc, p8) = match read_fe(bytes, pos) {
            Ok(t) => t,
            Err(e) => {
                return Err(e);
            },
        };
        pos = p8;
        let (n2, p9) = match read_u32(bytes, pos) {
            Ok(t) => t,
            Err(e) => {
                return Err(e);
            },
        };
        pos = p9;
        if n2 != n as u32 {
            return Err(Error::SerializationError);
        }
        let (msgs2, p10) = match read_msg_list(bytes, pos, n, 3) {
            Ok(t) => t,
            Err(e) => {
                return Err(e);
            },
        };
        pos = p10;
        let (z_ry, p11) = match read_fe(bytes, pos) {
            Ok(t) => t,
            Err(e) => {
                return Err(e);
            },
        };
        pos = p11;
        let (pi1, p12) = match read_g2_list(bytes, pos, n) {
            Ok(t) => t,
            Err(e) => {
                return Err(e);
            },
        };
        pos = p12;
        if pos != bytes.len() {
            return Err(Error::SerializationError);
        }
        let decoded = Proof {
            prover_first_message: ProverFirstMessage {
                commitment: Commitment { nv: n, g_product },
            },
            prover_second_message: ProverSecondMessage {
                z_rv_0,
                proof_for_z_rv_0: EvalProof { proofs: pi0 },
            },
            prover_third_message: ProverThirdMessage {
                ml_index_info: IndexInfo { num_variables: n, max_multiplicands: n + 2 },
            },
            first_sumcheck_messages: msgs1,
            prover_fourth_message: ProverFourthMessage { va, vb, vc },
            prover_fifth_message: ProverFifthMessage {
                index_info: IndexInfo { num_variables: n, max_multiplicands: 2 },
            },
            second_sumcheck_messages: msgs2,
            prover_sixth_message: ProverSixthMessage {
                z_ry,
                proof_for_z_ry: EvalProof { proofs: pi1 },
            },
        };
        proof {
            let b = bytes@;
            assert(crate::algebra::le_bytes_of(n1 as int, 4) == crate::algebra::le_bytes_of(
                n as int,
                4,
            ));
            assert(crate::algebra::le_bytes_of(n2 as int, 4) == crate::algebra::le_bytes_of(
                n as int,
                4,
            ));
            assert(b.subrange(0, p2 as int) =~= b.subrange(0, p1 as int) + b.subrange(
                p1 as int,
                p2 as int,
            ));
            assert(b.subrange(0, p3 as int) =~= b.subrange(0, p2 as int) + b.subrange(
                p2 as int,
                p3 as int,
            ));
            assert(b.subrange(0, p4 as int) =~= b.subrange(0, p3 as int) + b.subrange(
                p3 as int,
                p4 as int,
            ));
            assert(b.subrange(0, p5 as int) =~= b.subrange(0, p4 as int) + b.subrange(
                p4 as int,
                p5 as int,
            ));
            assert(b.subrange(0, p6 as int) =~= b.subrange(0, p5 as int) + b.subrange(
                p5 as int,
                p6 as int,
            ));
            assert(b.subrange(0, p7 as int) =~= b.subrange(0, p6 as int) + b.subrange(
                p6 as int,
                p7 as int,
            ));
            assert(b.subrange(0, p8 as int) =~= b.subrange(0, p7 as int) + b.subrange(
                p7 as int,
                p8 as int,
            ));
            assert(b.subrange(0, p9 as int) =~= b.subrange(0, p8 as int) + b.subrange(
                p8 as int,
                p9 as int,
            ));
            assert(b.subrange(0, p10 as int) =~= b.subrange(0, p9 as int) + b.subrange(
                p9 as int,
                p10 as int,
            ));
            assert(b.subrange(0, p11 as int) =~= b.subrange(0, p10 as int) + b.subrange(
                p10 as int,
                p11 as int,
            ));
            assert(b.subrange(0, p12 as int) =~= b.subrange(0, p11 as int) + b.subrange(
                p11 as int,
                p12 as int,
            ));
            assert(b =~= b.subrange(0, p12 as int));
            assert(b == proof_bytes(decoded, n as nat));
        }
        Ok(decoded)
    }
}

/// Append a 32-bit count, little endian.
pub(crate) fn push_u32(out: &mut Vec<u8>, x: u32)
    ensures
        final(out)@.len() == old(out)@.len() + 4,
        final(out)@ == old(out)@ + crate::algebra::le_bytes_of(x as int, 4),
{
    let mut w: u32 = x;
    let mut j: usize = 0;
    proof {
        vstd::arithmetic::power2::lemma2_to64();
        vstd::arithmetic::div_mod::lemma_div_basics(x as int);
        assert(crate::algebra::le_bytes_of(x as int, 4).take(0) =~= Seq::<u8>::empty());
        assert(out@ =~= old(out)@ + Seq::<u8>::empty());
    }
    while j < 4
        invariant
            j <= 4,
            out@.len() == old(out)@.len() + j,
            w == (x as int) / (vstd::arithmetic::power2::pow2((8 * j) as nat) as int),
            out@ == old(out)@ + crate::algebra::le_bytes_of(x as int, 4).take(j as int),
        decreases 4 - j,
    {
        proof {
            vstd::arithmetic::power2::lemma2_to64();
            vstd::arithmetic::power2::lemma_pow2_pos((8 * j) as nat);
            vstd::arithmetic::power2::lemma_pow2_adds((8 * j) as nat, 8);
        }
        out.push((w % 256) as u8);
        proof {
            assert(crate::algebra::byte_of(x as int, j as int) == (w % 256) as u8);
            assert(out@ =~= old(out)@ + crate::algebra::le_bytes_of(x as int, 4).take(
                j as int + 1,
            ));
            vstd::arithmetic::div_mod::lemma_div_denominator(
                x as int,
                vstd::arithmetic::power2::pow2((8 * j) as nat) as int,
                256,
            );
        }
        w = w / 256;
        j = j + 1;
    }
    proof {
        assert(crate::algebra::le_bytes_of(x as int, 4).take(4) =~= crate::algebra::le_bytes_of(
            x as int,
            4,
        ));
    }
}

/// Append a field element's canonical encoding.
pub(crate) fn push_fe(out: &mut Vec<u8>, f: &Fe)
    requires
        f.ok(),
    ensures
        final(out)@.len() == old(out)@.len() + 32,
        final(out)@ == old(out)@ + crate::field::fe_le_bytes(f.val()),
{
    let b = f.to_le_bytes();
    push_all(out, &b);
}

/// Append a G1 point's compressed encoding.
pub(crate) fn push_g1(out: &mut Vec<u8>, e: &G1El)
    requires
        e.wf(),
    ensures
        final(out)@.len() == old(out)@.len() + 48,
        final(out)@ == old(out)@ + e@,
{
    let b = e.to_bytes();
    push_all(out, &b);
}

/// Append a G2 point's compressed encoding.
pub(crate) fn push_g2(out: &mut Vec<u8>, e: &G2El)
    requires
        e.wf(),
    ensures
        final(out)@.len() == old(out)@.len() + 96,
        final(out)@ == old(out)@ + e@,
{
    let b = e.to_bytes();
    push_all(out, &b);
}

/// Append a list of G2 points, in order.
pub(crate) fn push_g2_list(out: &mut Vec<u8>, es: &Vec<G2El>)
    requires
        crate::curve::all_g2_wf(es@),
    ensures
        final(out)@.len() == old(out)@.len() + 96 * es@.len(),
        final(out)@ == old(out)@ + cat_g2(es@),
{
    let m = es.len();
    let mut i: usize = 0;
    proof {
        assert(out@ =~= old(out)@ + cat_g2(es@.take(0)));
    }
    while i < m
        invariant
            i <= m,
            m == es@.len(),
            crate::curve::all_g2_wf(es@),
            out@.len() == old(out)@.len() + 96 * i,
            out@ == old(out)@ + cat_g2(es@.take(i as int)),
        decreases m - i,
    {
        push_g2(out, &es[i]);
        proof {
            assert(es@.take(i as int + 1).drop_last() =~= es@.take(i as int));
            assert(es@.take(i as int + 1).last() == es@[i as int]);
            assert(out@ =~= old(out)@ + cat_g2(es@.take(i as int + 1)));
        }
        i = i + 1;
    }
    proof {
        assert(es@.take(m as int) =~= es@);
    }
}

/// Append one sumcheck round message: a 32-bit count, then the
/// evaluations.
pub(crate) fn push_msg(out: &mut Vec<u8>, m: &ProverMsg)
    requires
        all_ok(m.evaluations@),
        m.evaluations@.len() <= 33,
    ensures
        final(out)@.len() == old(out)@.len() + 4 + 32 * m.evaluations@.len(),
        final(out)@ == old(out)@ + msg_bytes(*m),
{
    push_u32(out, m.evaluations.len() as u32);
    let ghost head = crate::algebra::le_bytes_of(m.evaluations@.len() as int, 4);
    let cnt = m.evaluations.len();
    let mut i: usize = 0;
    proof {
        assert(cat_fe(m.evaluations@.take(0)) =~= Seq::<u8>::empty());
        assert(out@ =~= old(out)@ + head + cat_fe(m.evaluations@.take(0)));
    }
    while i < cnt
        invariant
            i <= cnt,
            cnt == m.evaluations@.len(),
            all_ok(m.evaluations@),
            head == crate::algebra::le_bytes_of(m.evaluations@.len() as int, 4),
            out@.len() == old(out)@.len() + 4 + 32 * i,
            out@ == old(out)@ + head + cat_fe(m.evaluations@.take(i as int)),
        decreases cnt - i,
    {
        push_fe(out, &m.evaluations[i]);
        proof {
            assert(m.evaluations@.take(i as int + 1).drop_last() =~= m.evaluations@.take(
                i as int,
            ));
            assert(m.evaluations@.take(i as int + 1).last() == m.evaluations@[i as int]);
            assert(out@ =~= old(out)@ + head + cat_fe(m.evaluations@.take(i as int + 1)));
        }
        i = i + 1;
    }
    proof {
        assert(m.evaluations@.take(cnt as int) =~= m.evaluations@);
        assert(out@ =~= old(out)@ + msg_bytes(*m));
    }
}

/// Append a list of sumcheck round messages of uniform width, in order.
pub(crate) fn push_msg_list(out: &mut Vec<u8>, msgs: &Vec<ProverMsg>, Ghost(width): Ghost<nat>)
    requires
        width <= 33,
        msgs_wf(msgs@, msgs@.len() as nat, width),
    ensures
        final(out)@.len() == old(out)@.len() + msgs@.len() * (4 + 32 * width),
        final(out)@ == old(out)@ + cat_msgs(msgs@),
{
    let m = msgs.len();
    let mut i: usize = 0;
    proof {
        assert(cat_msgs(msgs@.take(0)) =~= Seq::<u8>::empty());
        assert(out@ =~= old(out)@ + cat_msgs(msgs@.take(0)));
    }
    while i < m
        invariant
            i <= m,
            m == msgs@.len(),
            width <= 33,
            msgs_wf(msgs@, msgs@.len() as nat, width),
            out@.len() == old(out)@.len() + i * (4 + 32 * width),
            out@ == old(out)@ + cat_msgs(msgs@.take(i as int)),
        decreases m - i,
    {
        proof {
            assert(msgs@[i as int].evaluations@.len() == width);
            assert((i + 1) * (4 + 32 * width) == i * (4 + 32 * width) + (4 + 32 * width))
                by (nonlinear_arith);
        }
        push_msg(out, &msgs[i]);
        proof {
            assert(msgs@.take(i as int + 1).drop_last() =~= msgs@.take(i as int));
            assert(msgs@.take(i as int + 1).last() == msgs@[i as int]);
            assert(out@ =~= old(out)@ + cat_msgs(msgs@.take(i as int + 1)));
        }
        i = i + 1;
    }
    proof {
        assert(msgs@.take(m as int) =~= msgs@);
    }
}

/// Copy `count` bytes starting at `pos`; rejected when the buffer is too
/// short.
fn take_bytes(bytes: &Vec<u8>, pos: usize, count: usize) -> (r: Result<(Vec<u8>, usize), Error>)
    requires
        bytes@.len() <= usize::MAX,
    ensures
        match r {
            Ok((v, p2)) => v@.len() == count && p2 == pos + count && pos + count <= bytes@.len()
                && v@ == bytes@.subrange(pos as int, pos + count),
            Err(e) => e == Error::SerializationError,
        },
{
    if pos > bytes.len() || count > bytes.len() - pos {
        return Err(Error::SerializationError);
    }
    let mut out: Vec<u8> = Vec::new();
    let mut i: usize = 0;
    while i < count
        invariant
            i <= count,
            pos + count <= bytes@.len(),
            bytes@.len() <= usize::MAX,
            out@.len() == i,
            out@ == bytes@.subrange(pos as int, pos + i),
        decreases count - i,
    {
        out.push(bytes[pos + i]);
        proof {
            assert(out@ =~= bytes@.subrange(pos as int, pos + i + 1));
        }
        i = i + 1;
    }
    Ok((out, pos + count))
}

/// Read a 32-bit count.
fn read_u32(bytes: &Vec<u8>, pos: usize) -> (r: Result<(u32, usize), Error>)
    requires
        bytes@.len() <= usize::MAX,
    ensures
        match r {
            Ok((x, p2)) => p2 == pos + 4 && pos + 4 <= bytes@.len()
                && crate::algebra::le_bytes_of(x as int, 4) == bytes@.subrange(pos as int, pos + 4),
            Err(e) => e == Error::SerializationError,
        },
{
    let (chunk, p2) = match take_bytes(bytes, pos, 4) {
        Ok(t) => t,
        Err(e) => {
            return Err(e);
        },
    };
    let x: u32 = (chunk[0] as u32) + 256 * (chunk[1] as u32) + 65536 * (chunk[2] as u32) + 16777216
        * (chunk[3] as u32);
    proof {
        let cs = chunk@;
        let d1 = cs.drop_first();
        let d2 = d1.drop_first();
        let d3 = d2.drop_first();
        let d4 = d3.drop_first();
        assert(d4.len() == 0);
        assert(crate::algebra::le_int(d4) == 0);
        assert(crate::algebra::le_int(d3) == d3[0] + 256 * crate::algebra::le_int(d4));
        assert(crate::algebra::le_int(d2) == d2[0] + 256 * crate::algebra::le_int(d3));
        assert(crate::algebra::le_int(d1) == d1[0] + 256 * crate::algebra::le_int(d2));
        assert(crate::algebra::le_int(cs) == cs[0] + 256 * crate::algebra::le_int(d1));
        assert(d1[0] == cs[1] && d2[0] == cs[2] && d3[0] == cs[3]);
        assert(x as int == crate::algebra::le_int(cs));
        crate::algebra::lemma_le_bytes_of_le_int(cs);
    }
    Ok((x, p2))
}

/// Read a field element; rejected when not a canonical residue.
fn read_fe(bytes: &Vec<u8>, pos: usize) -> (r: Result<(Fe, usize), Error>)
    requires
        bytes@.len() <= usize::MAX,
    ensures
        match r {
            Ok((f, p2)) => f.ok() && p2 == pos + 32 && pos + 32 <= bytes@.len()
                && crate::field::fe_le_bytes(f.val()) == bytes@.subrange(pos as int, pos + 32),
            Err(e) => e == Error::SerializationError,
        },
{
    let (chunk, p2) = match take_bytes(bytes, pos, 32) {
        Ok(t) => t,
        Err(e) => {
            return Err(e);
        },
    };
    match Fe::from_le_bytes(&chunk) {
        Some(f) => {
            proof {
                crate::algebra::lemma_le_bytes_of_le_int(chunk@);
            }
            Ok((f, p2))
        },
        None => Err(Error::SerializationError),
    }
}

/// Read a G1 point; rejected when not a valid compressed encoding.
fn read_g1(bytes: &Vec<u8>, pos: usize) -> (r: Result<(G1El, usize), Error>)
    requires
        bytes@.len() <= usize::MAX,
    ensures
        match r {
            Ok((e, p2)) => e.wf() && p2 == pos + 48 && pos + 48 <= bytes@.len() && e@
                == bytes@.subrange(pos as int, pos + 48),
            Err(e) => e == Error::SerializationError,
        },
{
    let (chunk, p2) = match take_bytes(bytes, pos, 48) {
        Ok(t) => t,
        Err(e) => {
            return Err(e);
        },
    };
    match g1_validate(&chunk) {
        Some(e) => {
            if e.to_bytes().len() != 48 {
                return Err(Error::SerializationError);
            }
            Ok((e, p2))
        },
        None => Err(Error::SerializationError),
    }
}

/// Read a G2 point; rejected when not a valid compressed encoding.
fn read_g2(bytes: &Vec<u8>, pos: usize) -> (r: Result<(G2El, usize), Error>)
    requires
        bytes@.len() <= usize::MAX,
    ensures
        match r {
            Ok((e, p2)) => e.wf() && p2 == pos + 96 && pos + 96 <= bytes@.len() && e@
                == bytes@.subrange(pos as int, pos + 96),
            Err(e) => e == Error::SerializationError,
        },
{
    let (chunk, p2) = match take_bytes(bytes, pos, 96) {
        Ok(t) => t,
        Err(e) => {
            return Err(e);
        },
    };
    match g2_validate(&chunk) {
        Some(e) => {
            if e.to_bytes().len() != 96 {
                return Err(Error::SerializationError);
            }
            Ok((e, p2))
        },
        None => Err(Error::SerializationError),
    }
}

/// Read `count` G2 points.
fn read_g2_list(bytes: &Vec<u8>, pos: usize, count: usize) -> (r: Result<(Vec<G2El>, usize), Error>)
    requires
        bytes@.len() <= usize::MAX,
    ensures
        match r {
            Ok((es, p2)) => es@.len() == count && crate::curve::all_g2_wf(es@) && p2 >= pos && p2
                <= bytes@.len() && cat_g2(es@) == bytes@.subrange(pos as int, p2 as int),
            Err(e) => e == Error::SerializationError,
        },
{
    if pos > bytes.len() {
        return Err(Error::SerializationError);
    }
    let mut out: Vec<G2El> = Vec::new();
    let mut cur = pos;
    let mut i: usize = 0;
    proof {
        assert(cat_g2(out@) =~= bytes@.subrange(pos as int, pos as int));
    }
    while i < count
        invariant
            i <= count,
            bytes@.len() <= usize::MAX,
            out@.len() == i,
            crate::curve::all_g2_wf(out@),
            pos <= cur <= bytes@.len(),
            cat_g2(out@) == bytes@.subrange(pos as int, cur as int),
        decreases count - i,
    {
        let ghost pre = out@;
        let ghost cur0 = cur as int;
        let (e, p2) = match read_g2(bytes, cur) {
            Ok(t) => t,
            Err(e) => {
                return Err(e);
            },
        };
        out.push(e);
        proof {
            assert(out@.drop_last() =~= pre);
            assert(cat_g2(out@) == cat_g2(pre) + e@);
            assert(bytes@.subrange(pos as int, cur0) + bytes@.subrange(cur0, cur0 + 96)
                =~= bytes@.subrange(pos as int, cur0 + 96));
        }
        cur = p2;
        i = i + 1;
    }
    Ok((out, cur))
}

/// Read `rounds` sumcheck messages, each with exactly `evals`
/// evaluations.
fn read_msg_list(bytes: &Vec<u8>, pos: usize, rounds: usize, evals: usize) -> (r: Result<
    (Vec<ProverMsg>, usize),
    Error,
>)
    requires
        bytes@.len() <= usize::MAX,
        evals <= 33,
    ensures
        match r {
            Ok((msgs, p2)) => msgs_wf(msgs@, rounds as nat, evals as nat) && p2 >= pos && p2
                <= bytes@.len() && cat_msgs(msgs@) == bytes@.subrange(pos as int, p2 as int),
            Err(e) => e == Error::SerializationError,
        },
{
    if pos > bytes.len() {
        return Err(Error::SerializationError);
    }
    let mut out: Vec<ProverMsg> = Vec::new();
    let mut cur = pos;
    let mut i: usize = 0;
    proof {
        assert(cat_msgs(out@) =~= bytes@.subrange(pos as int, pos as int));
    }
    while i < rounds
        invariant
            i <= rounds,
            bytes@.len() <= usize::MAX,
            evals <= 33,
            out@.len() == i,
            forall|j: int|
                0 <= j < i ==> (#[trigger] out@[j]).evaluations@.len() == evals && all_ok(
                    out@[j].evaluations@,
                ),
            pos <= cur <= bytes@.len(),
            cat_msgs(out@) == bytes@.subrange(pos as int, cur as int),
        decreases rounds - i,
    {
        let ghost pre = out@;
        let ghost cur0 = cur as int;
        let (cnt, p2) = match read_u32(bytes, cur) {
            Ok(t) => t,
            Err(e) => {
                return Err(e);
            },
        };
        cur = p2;
        if cnt != evals as u32 {
            return Err(Error::SerializationError);
        }
        let mut evs: Vec<Fe> = Vec::new();
        let mut k: usize = 0;
        proof {
            assert(cat_fe(evs@) =~= bytes@.subrange(cur as int, cur as int));
        }
        while k < evals
            invariant
                k <= evals,
                bytes@.len() <= usize::MAX,
                evs@.len() == k,
                all_ok(evs@),
                0 <= cur0,
                cur >= cur0 + 4,
                cur <= bytes@.len(),
                cat_fe(evs@) == bytes@.subrange(cur0 + 4, cur as int),
            decreases evals - k,
        {
            let ghost epre = evs@;
            let ghost ecur = cur as int;
            let (f, p3) = match read_fe(bytes, cur) {
                Ok(t) => t,
                Err(e) => {
                    return Err(e);
                },
            };
            evs.push(f);
            proof {
                assert(evs@.drop_last() =~= epre);
                assert(cat_fe(evs@) == cat_fe(epre) + crate::field::fe_le_bytes(f.val()));
                assert(bytes@.subrange(cur0 + 4, ecur) + bytes@.subrange(ecur, ecur + 32)
                    =~= bytes@.subrange(cur0 + 4, ecur + 32));
            }
            cur = p3;
            k = k + 1;
        }
        let msg = ProverMsg { evaluations: evs };
        out.push(msg);
        proof {
            assert(out@.drop_last() =~= pre);
            assert(out@.last() == msg);
            assert(msg_bytes(msg) == crate::algebra::le_bytes_of(evals as int, 4) + cat_fe(
                msg.evaluations@,
            ));
            assert(crate::algebra::le_bytes_of(cnt as int, 4) == crate::algebra::le_bytes_of(
                evals as int,
                4,
            ));
            assert(bytes@.subrange(cur0, cur0 + 4) + bytes@.subrange(cur0 + 4, cur as int)
                =~= bytes@.subrange(cur0, cur as int));
            assert(msg_bytes(msg) == bytes@.subrange(cur0, cur as int));
            assert(cat_msgs(out@) == cat_msgs(pre) + msg_bytes(msg));
            assert(bytes@.subrange(pos as int, cur0) + bytes@.subrange(cur0, cur as int)
                =~= bytes@.subrange(pos as int, cur as int));
        }
        i = i + 1;
    }
    Ok((out, cur))
}

/// The feed encoding of a vector of field elements: its 32-bit count,
/// then the elements.
pub open spec fn fe_vec_bytes(v: Seq<Fe>) -> Seq<u8> {
    crate::algebra::le_bytes_of(v.len() as int, 4) + cat_fe(v)
}

/// The feed encoding of one matrix entry: its column, then its value.
pub open spec fn entry_bytes(e: (Fe, usize)) -> Seq<u8> {
    crate::algebra::le_bytes_of(e.1 as int, 4) + crate::field::fe_le_bytes(e.0.val())
}

/// The feed encoding of a sparse row's entries, in order.
pub open spec fn cat_entries(row: Seq<(Fe, usize)>) -> Seq<u8>
    decreases row.len(),
{
    if row.len() == 0 {
        Seq::empty()
    } else {
        cat_entries(row.drop_last()) + entry_bytes(row.last())
    }
}

/// The feed encoding of one sparse row: its 64-bit entry count, then its
/// entries.
pub open spec fn row_bytes(row: Seq<(Fe, usize)>) -> Seq<u8> {
    crate::algebra::le_bytes_of(row.len() as int, 8) + cat_entries(row)
}

/// The feed encodings of the first `x` stored rows, in order.
pub open spec fn cat_rows(m: MatrixExtension, x: nat) -> Seq<u8>
    decreases x,
{
    if x == 0 {
        Seq::empty()
    } else {
        cat_rows(m, (x - 1) as nat) + row_bytes(m.row_at(x - 1))
    }
}

/// The feed encoding of a sparse matrix: its 32-bit row count, then its
/// rows.
pub open spec fn matrix_bytes(m: MatrixExtension) -> Seq<u8> {
    crate::algebra::le_bytes_of(m.nrows() as int, 4) + cat_rows(m, m.nrows())
}

/// Append a machine count as eight little-endian bytes.
pub(crate) fn push_len8(out: &mut Vec<u8>, x: usize)
    ensures
        final(out)@ == old(out)@ + crate::algebra::le_bytes_of(x as int, 8),
{
    let mut w: usize = x;
    let mut j: usize = 0;
    proof {
        vstd::arithmetic::power2::lemma2_to64();
        vstd::arithmetic::div_mod::lemma_div_basics(x as int);
        assert(crate::algebra::le_bytes_of(x as int, 8).take(0) =~= Seq::<u8>::empty());
        assert(out@ =~= old(out)@ + Seq::<u8>::empty());
    }
    while j < 8
        invariant
            j <= 8,
            w == (x as int) / (vstd::arithmetic::power2::pow2((8 * j) as nat) as int),
            out@ == old(out)@ + crate::algebra::le_bytes_of(x as int, 8).take(j as int),
        decreases 8 - j,
    {
        proof {
            vstd::arithmetic::power2::lemma2_to64();
            vstd::arithmetic::power2::lemma_pow2_pos((8 * j) as nat);
            vstd::arithmetic::power2::lemma_pow2_adds((8 * j) as nat, 8);
        }
        out.push((w % 256) as u8);
        proof {
            assert(crate::algebra::byte_of(x as int, j as int) == (w % 256) as u8);
            assert(out@ =~= old(out)@ + crate::algebra::le_bytes_of(x as int, 8).take(
                j as int + 1,
            ));
            vstd::arithmetic::div_mod::lemma_div_denominator(
                x as int,
                vstd::arithmetic::power2::pow2((8 * j) as nat) as int,
                256,
            );
        }
        w = w / 256;
        j = j + 1;
    }
    proof {
        assert(crate::algebra::le_bytes_of(x as int, 8).take(8) =~= crate::algebra::le_bytes_of(
            x as int,
            8,
        ));
    }
}

/// The canonical feed encoding of a vector of field elements: a 32-bit
/// count, then the elements.
pub(crate) fn encode_fe_vec(v: &Vec<Fe>) -> (r: Vec<u8>)
    requires
        all_ok(v@),
        v@.len() <= 0xffffffff,
    ensures
        r@ == fe_vec_bytes(v@),
{
    let mut out: Vec<u8> = Vec::new();
    push_u32(&mut out, v.len() as u32);
    let ghost head = crate::algebra::le_bytes_of(v@.len() as int, 4);
    let m = v.len();
    let mut i: usize = 0;
    proof {
        assert(cat_fe(v@.take(0)) =~= Seq::<u8>::empty());
        assert(out@ =~= Seq::<u8>::empty() + head + cat_fe(v@.take(0)));
    }
    while i < m
        invariant
            i <= m,
            m == v@.len(),
            all_ok(v@),
            head == crate::algebra::le_bytes_of(v@.len() as int, 4),
            out@ == Seq::<u8>::empty() + head + cat_fe(v@.take(i as int)),
        decreases m - i,
    {
        push_fe(&mut out, &v[i]);
        proof {
            assert(v@.take(i as int + 1).drop_last() =~= v@.take(i as int));
            assert(v@.take(i as int + 1).last() == v@[i as int]);
            assert(out@ =~= Seq::<u8>::empty() + head + cat_fe(v@.take(i as int + 1)));
        }
        i = i + 1;
    }
    proof {
        assert(v@.take(m as int) =~= v@);
        assert(out@ =~= fe_vec_bytes(v@));
    }
    out
}

/// The canonical feed encoding of a sparse matrix: a 32-bit row count,
/// then per row a 64-bit entry count and the `(column, value)` pairs.
pub(crate) fn encode_matrix(m: &MatrixExtension) -> (r: Vec<u8>)
    requires
        m.wf(),
        m.nrows() <= 0xffffffff,
        m.size() <= 0xffffffff,
    ensures
        r@ == matrix_bytes(*m),
{
    let mut out: Vec<u8> = Vec::new();
    let rows = m.num_constraints();
    push_u32(&mut out, rows as u32);
    let ghost head = crate::algebra::le_bytes_of(m.nrows() as int, 4);
    let mut x: usize = 0;
    proof {
        assert(cat_rows(*m, 0) =~= Seq::<u8>::empty());
        assert(out@ =~= Seq::<u8>::empty() + head + cat_rows(*m, 0));
    }
    while x < rows
        invariant
            x <= rows,
            rows == m.nrows(),
            m.wf(),
            m.size() <= 0xffffffff,
            head == crate::algebra::le_bytes_of(m.nrows() as int, 4),
            out@ == Seq::<u8>::empty() + head + cat_rows(*m, x as nat),
        decreases rows - x,
    {
        let rlen = m.row_len(x);
        push_len8(&mut out, rlen);
        let ghost row_head = crate::algebra::le_bytes_of(m.row_at(x as int).len() as int, 8);
        let ghost base = out@;
        let mut k: usize = 0;
        proof {
            assert(cat_entries(m.row_at(x as int).take(0)) =~= Seq::<u8>::empty());
            assert(out@ =~= base + cat_entries(m.row_at(x as int).take(0)));
        }
        while k < rlen
            invariant
                k <= rlen,
                x < m.nrows(),
                rlen == m.row_at(x as int).len(),
                m.wf(),
                m.size() <= 0xffffffff,
                out@ == base + cat_entries(m.row_at(x as int).take(k as int)),
            decreases rlen - k,
        {
            let e = m.row_entry(x, k);
            proof {
                m.lemma_wf_row(x as int);
                assert(m.row_at(x as int)[k as int].1 < m.size());
                assert(m.row_at(x as int)[k as int].0.ok());
            }
            push_u32(&mut out, e.1 as u32);
            push_fe(&mut out, &e.0);
            proof {
                let row = m.row_at(x as int);
                assert(row.take(k as int + 1).drop_last() =~= row.take(k as int));
                assert(row.take(k as int + 1).last() == row[k as int]);
                assert(out@ =~= base + cat_entries(row.take(k as int + 1)));
            }
            k = k + 1;
        }
        proof {
            let row = m.row_at(x as int);
            assert(row.take(rlen as int) =~= row);
            assert(out@ =~= Seq::<u8>::empty() + head + cat_rows(*m, (x + 1) as nat));
        }
        x = x + 1;
    }
    proof {
        assert(out@ =~= matrix_bytes(*m));
    }
    out
}

} // verus!
