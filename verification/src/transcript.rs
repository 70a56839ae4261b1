//! The transcript PRNG of the Fiat-Shamir transform: a hash-chained
//! sponge over Blake2b-512. Feeding ratchets the chain over the message
//! bytes; sampling expands the chain with a distinct tag and reduces the
//! digest into the field.
//!
//! Every operation is a function of the bytes fed so far, so prover and
//! verifier, feeding the same messages in the same order, draw the same
//! challenges.

use vstd::prelude::*;
use blake2::Digest;
use crate::algebra::le_int;
use crate::field::{fe_from_le_bytes_mod, prime, Fe};

verus! {

/// The 64-byte digest of a byte string. Relies on blake2's Blake2b-512:
/// the digest is a function of the input bytes alone.
pub uninterp spec fn blake2_of(input: Seq<u8>) -> Seq<u8>;

/// Relies on blake2's Blake2b-512 digest.
#[verifier::external_body]
fn blake2b512(input: &Vec<u8>) -> (r: Vec<u8>)
    ensures
        r@ == blake2_of(input@),
        r@.len() == 64,
{
    let mut h = blake2::Blake2b512::new();
    h.update(input.as_slice());
    let out = h.finalize();
    out.to_vec()
}

/// The domain separator the chain starts from.
pub open spec fn transcript_label() -> Seq<u8> {
    seq![115u8, 112u8, 97u8, 114u8, 116u8, 97u8, 110u8]
}

/// The tag fed before absorbing a message.
pub open spec fn feed_tag() -> u8 {
    0u8
}

/// The tag that expands the chain into an output block.
pub open spec fn out_tag() -> u8 {
    1u8
}

/// The tag that ratchets the chain after an output.
pub open spec fn step_tag() -> u8 {
    2u8
}

/// The chain value after `count` draws from the state `state`.
pub open spec fn chain_after(state: Seq<u8>, count: nat) -> Seq<u8>
    decreases count,
{
    if count == 0 {
        state
    } else {
        blake2_of(chain_after(state, (count - 1) as nat) + seq![step_tag()])
    }
}

/// The values of `count` draws from the state `state`, in order: each is
/// the output digest of the chain at its turn, reduced into the field.
pub open spec fn draws(state: Seq<u8>, count: nat) -> Seq<int>
    decreases count,
{
    if count == 0 {
        Seq::empty()
    } else {
        draws(state, (count - 1) as nat).push(
            le_int(blake2_of(chain_after(state, (count - 1) as nat) + seq![out_tag()])) % prime(),
        )
    }
}

/// The transcript PRNG: a 64-byte chain value.
pub struct Transcript {
    state: Vec<u8>,
}

impl View for Transcript {
    type V = Seq<u8>;

    /// The current chain value.
    closed spec fn view(&self) -> Seq<u8> {
        self.state@
    }
}

impl Transcript {
    /// Start the chain from the protocol's domain separator.
    pub fn new() -> (r: Transcript)
        ensures
            r@ == blake2_of(transcript_label()),
    {
        let mut label: Vec<u8> = Vec::new();
        label.push(115);
        label.push(112);
        label.push(97);
        label.push(114);
        label.push(116);
        label.push(97);
        label.push(110);
        proof {
            assert(label@ =~= transcript_label());
        }
        let state = blake2b512(&label);
        Transcript { state }
    }

    /// Absorb message bytes: the chain becomes the digest of the old
    /// chain, the feed tag, and the message.
    pub fn feed(&mut self, bytes: &Vec<u8>)
        ensures
            final(self)@ == blake2_of(old(self)@ + seq![feed_tag()] + bytes@),
    {
        let mut buf = crate::curve::copy_bytes(&self.state);
        buf.push(0);
        push_all(&mut buf, bytes);
        proof {
            assert(buf@ =~= old(self)@ + seq![feed_tag()] + bytes@);
        }
        self.state = blake2b512(&buf);
    }

    /// Draw one field element: the digest of the chain under the output
    /// tag, reduced into the field; the chain ratchets under the step
    /// tag.
    pub fn sample_field(&mut self) -> (r: Fe)
        ensures
            r.ok(),
            r.val() == le_int(blake2_of(old(self)@ + seq![out_tag()])) % prime(),
            final(self)@ == blake2_of(old(self)@ + seq![step_tag()]),
    {
        let mut outbuf = crate::curve::copy_bytes(&self.state);
        outbuf.push(1);
        proof {
            assert(outbuf@ =~= old(self)@ + seq![out_tag()]);
        }
        let block = blake2b512(&outbuf);
        let r = fe_from_le_bytes_mod(&block);
        let mut stepbuf = crate::curve::copy_bytes(&self.state);
        stepbuf.push(2);
        proof {
            assert(stepbuf@ =~= old(self)@ + seq![step_tag()]);
        }
        self.state = blake2b512(&stepbuf);
        r
    }
}

/// Append all of `src` to `buf`.
pub fn push_all(buf: &mut Vec<u8>, src: &Vec<u8>)
    ensures
        final(buf)@ == old(buf)@ + src@,
{
    let n = src.len();
    let mut i: usize = 0;
    while i < n
        invariant
            i <= n,
            n == src@.len(),
            buf@ == old(buf)@ + src@.take(i as int),
        decreases n - i,
    {
        buf.push(src[i]);
        proof {
            assert(buf@ =~= old(buf)@ + src@.take(i as int + 1));
        }
        i = i + 1;
    }
    proof {
        assert(buf@ =~= old(buf)@ + src@);
    }
}

} // verus!
