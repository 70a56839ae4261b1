//! The pairing-friendly curve adapter: group elements of BLS12-381 carried
//! by their canonical compressed encodings, with the group operations done
//! by `ark_ec` behind trusted wrappers.
//!
//! Every wrapper converts through the compressed encoding, performs one
//! curve operation, and serialises the result back; its contract names the
//! result as an uninterpreted function of the operand encodings, which is
//! sound because each operation is a function of its operands alone.

use vstd::prelude::*;
use ark_ec::pairing::Pairing;
use ark_ec::{AffineRepr, CurveGroup, VariableBaseMSM};
use ark_ff::PrimeField;
use ark_ff::UniformRand;
use ark_serialize::{CanonicalDeserialize, CanonicalSerialize};
use rand::SeedableRng;
use crate::field::{all_ok, vals_of, Fe};

verus! {

/// The deterministic random generator that seeds commitment setup.
#[verifier::external_type_specification]
#[verifier::external_body]
pub struct ExStdRng(rand::rngs::StdRng);

/// Whether a byte string is the compressed encoding of a G1 point.
pub uninterp spec fn g1_ok(b: Seq<u8>) -> bool;

/// Whether a byte string is the compressed encoding of a G2 point.
pub uninterp spec fn g2_ok(b: Seq<u8>) -> bool;

/// The encoding of a G1 point multiplied by a scalar.
pub uninterp spec fn g1_scale_of(base: Seq<u8>, k: int) -> Seq<u8>;

/// The encoding of a G2 point multiplied by a scalar.
pub uninterp spec fn g2_scale_of(base: Seq<u8>, k: int) -> Seq<u8>;

/// The encoding of the difference of two G1 points.
pub uninterp spec fn g1_sub_of(a: Seq<u8>, b: Seq<u8>) -> Seq<u8>;

/// The encoding of a multi-scalar multiplication in G1.
pub uninterp spec fn g1_msm_of(bases: Seq<Seq<u8>>, scalars: Seq<int>) -> Seq<u8>;

/// The encoding of a multi-scalar multiplication in G2.
pub uninterp spec fn g2_msm_of(bases: Seq<Seq<u8>>, scalars: Seq<int>) -> Seq<u8>;

/// The encoding of the pairing of a G1 point with a G2 point.
pub uninterp spec fn pairing_of(a: Seq<u8>, b: Seq<u8>) -> Seq<u8>;

/// The encoding of the product of two target-group elements.
pub uninterp spec fn gt_mul_of(a: Seq<u8>, b: Seq<u8>) -> Seq<u8>;

/// A point of G1, as its canonical compressed encoding.
pub struct G1El {
    bytes: Vec<u8>,
}

impl View for G1El {
    type V = Seq<u8>;

    closed spec fn view(&self) -> Seq<u8> {
        self.bytes@
    }
}

impl G1El {
    /// A valid encoding: 48 bytes naming a point of the group.
    pub open spec fn wf(self) -> bool {
        g1_ok(self@) && self@.len() == 48
    }

    /// A copy of this point.
    pub fn duplicate(&self) -> (r: G1El)
        ensures
            r@ == self@,
    {
        G1El { bytes: copy_bytes(&self.bytes) }
    }

    /// The compressed encoding.
    pub fn to_bytes(&self) -> (r: Vec<u8>)
        ensures
            r@ == self@,
    {
        copy_bytes(&self.bytes)
    }
}

/// A point of G2, as its canonical compressed encoding.
pub struct G2El {
    bytes: Vec<u8>,
}

impl View for G2El {
    type V = Seq<u8>;

    closed spec fn view(&self) -> Seq<u8> {
        self.bytes@
    }
}

impl G2El {
    /// A valid encoding: 96 bytes naming a point of the group.
    pub open spec fn wf(self) -> bool {
        g2_ok(self@) && self@.len() == 96
    }

    /// A copy of this point.
    pub fn duplicate(&self) -> (r: G2El)
        ensures
            r@ == self@,
    {
        G2El { bytes: copy_bytes(&self.bytes) }
    }

    /// The compressed encoding.
    pub fn to_bytes(&self) -> (r: Vec<u8>)
        ensures
            r@ == self@,
    {
        copy_bytes(&self.bytes)
    }
}

/// An element of the pairing target group, as its canonical encoding.
pub struct GtEl {
    bytes: Vec<u8>,
}

impl View for GtEl {
    type V = Seq<u8>;

    closed spec fn view(&self) -> Seq<u8> {
        self.bytes@
    }
}

impl GtEl {
    /// Whether this element equals another, by canonical encoding.
    pub fn equal(&self, other: &GtEl) -> (r: bool)
        ensures
            r <==> self@ == other@,
    {
        bytes_equal(&self.bytes, &other.bytes)
    }
}

/// The encodings of a sequence of G1 points.
pub open spec fn g1_views(s: Seq<G1El>) -> Seq<Seq<u8>> {
    s.map_values(|e: G1El| e@)
}

/// The encodings of a sequence of G2 points.
pub open spec fn g2_views(s: Seq<G2El>) -> Seq<Seq<u8>> {
    s.map_values(|e: G2El| e@)
}

/// Every point of the sequence is a valid G1 encoding.
pub open spec fn all_g1_wf(s: Seq<G1El>) -> bool {
    forall|i: int| 0 <= i < s.len() ==> (#[trigger] s[i]).wf()
}

/// Every point of the sequence is a valid G2 encoding.
pub open spec fn all_g2_wf(s: Seq<G2El>) -> bool {
    forall|i: int| 0 <= i < s.len() ==> (#[trigger] s[i]).wf()
}

/// A byte-for-byte copy.
pub fn copy_bytes(src: &Vec<u8>) -> (r: Vec<u8>)
    ensures
        r@ == src@,
{
    let mut out: Vec<u8> = Vec::new();
    let n = src.len();
    let mut i: usize = 0;
    while i < n
        invariant
            i <= n,
            n == src@.len(),
            out@ == src@.take(i as int),
        decreases n - i,
    {
        out.push(src[i]);
        proof {
            assert(out@ =~= src@.take(i as int + 1));
        }
        i = i + 1;
    }
    proof {
        assert(out@ =~= src@);
    }
    out
}

/// Whether two byte strings are equal.
pub fn bytes_equal(a: &Vec<u8>, b: &Vec<u8>) -> (r: bool)
    ensures
        r <==> a@ == b@,
{
    if a.len() != b.len() {
        return false;
    }
    let n = a.len();
    let mut i: usize = 0;
    while i < n
        invariant
            i <= n,
            n == a@.len(),
            n == b@.len(),
            forall|j: int| 0 <= j < i ==> a@[j] == b@[j],
        decreases n - i,
    {
        if a[i] != b[i] {
            return false;
        }
        i = i + 1;
    }
    proof {
        assert(a@ =~= b@);
    }
    true
}

/// Relies on rand's `StdRng`: a deterministic generator from a 64-bit seed.
#[verifier::external_body]
pub fn seeded_rng(seed: u64) -> rand::rngs::StdRng {
    rand::rngs::StdRng::seed_from_u64(seed)
}

/// Relies on `ark_ff`'s uniform sampling of the scalar field: whatever
/// comes out is a canonical residue.
#[verifier::external_body]
pub fn fe_sample(rng: &mut rand::rngs::StdRng) -> (r: Fe)
    ensures
        r.ok(),
{
    let x = ark_bls12_381::Fr::rand(rng);
    let l = x.into_bigint().0;
    Fe::from_limbs(l[0], l[1], l[2], l[3]).unwrap()
}

/// Relies on `ark_ec`'s uniform sampling of G1 and on compressed
/// serialisation: whatever comes out is a valid 48-byte encoding.
#[verifier::external_body]
pub fn g1_sample(rng: &mut rand::rngs::StdRng) -> (r: G1El)
    ensures
        r.wf(),
{
    let p = ark_bls12_381::G1Projective::rand(rng).into_affine();
    let mut out = Vec::new();
    p.serialize_compressed(&mut out).unwrap();
    G1El { bytes: out }
}

/// Relies on `ark_ec`'s uniform sampling of G2 and on compressed
/// serialisation: whatever comes out is a valid 96-byte encoding.
#[verifier::external_body]
pub fn g2_sample(rng: &mut rand::rngs::StdRng) -> (r: G2El)
    ensures
        r.wf(),
{
    let p = ark_bls12_381::G2Projective::rand(rng).into_affine();
    let mut out = Vec::new();
    p.serialize_compressed(&mut out).unwrap();
    G2El { bytes: out }
}

/// Relies on `ark_ec` scalar multiplication in G1, through the compressed
/// encodings on both sides.
#[verifier::external_body]
pub fn g1_scale(base: &G1El, s: &Fe) -> (r: G1El)
    requires
        base.wf(),
        s.ok(),
    ensures
        r.wf(),
        r@ == g1_scale_of(base@, s.val()),
{
    let p = ark_bls12_381::G1Affine::deserialize_compressed(&*base.bytes).unwrap();
    let l = s.limbs();
    let k = ark_bls12_381::Fr::from_bigint(ark_ff::BigInt([l.0, l.1, l.2, l.3])).unwrap();
    let q = (p * k).into_affine();
    let mut out = Vec::new();
    q.serialize_compressed(&mut out).unwrap();
    G1El { bytes: out }
}

/// Relies on `ark_ec` scalar multiplication in G2, through the compressed
/// encodings on both sides.
#[verifier::external_body]
pub fn g2_scale(base: &G2El, s: &Fe) -> (r: G2El)
    requires
        base.wf(),
        s.ok(),
    ensures
        r.wf(),
        r@ == g2_scale_of(base@, s.val()),
{
    let p = ark_bls12_381::G2Affine::deserialize_compressed(&*base.bytes).unwrap();
    let l = s.limbs();
    let k = ark_bls12_381::Fr::from_bigint(ark_ff::BigInt([l.0, l.1, l.2, l.3])).unwrap();
    let q = (p * k).into_affine();
    let mut out = Vec::new();
    q.serialize_compressed(&mut out).unwrap();
    G2El { bytes: out }
}

/// Relies on `ark_ec` group subtraction in G1, through the compressed
/// encodings on both sides.
#[verifier::external_body]
pub fn g1_sub(a: &G1El, b: &G1El) -> (r: G1El)
    requires
        a.wf(),
        b.wf(),
    ensures
        r.wf(),
        r@ == g1_sub_of(a@, b@),
{
    let p = ark_bls12_381::G1Affine::deserialize_compressed(&*a.bytes).unwrap();
    let q = ark_bls12_381::G1Affine::deserialize_compressed(&*b.bytes).unwrap();
    let d = (p.into_group() - q.into_group()).into_affine();
    let mut out = Vec::new();
    d.serialize_compressed(&mut out).unwrap();
    G1El { bytes: out }
}

/// Relies on `ark_ec`'s variable-base multi-scalar multiplication in G1,
/// through the compressed encodings on both sides.
#[verifier::external_body]
pub fn g1_msm(bases: &Vec<G1El>, scalars: &Vec<Fe>) -> (r: G1El)
    requires
        bases@.len() == scalars@.len(),
        all_g1_wf(bases@),
        all_ok(scalars@),
    ensures
        r.wf(),
        r@ == g1_msm_of(g1_views(bases@), vals_of(scalars@)),
{
    let pts: Vec<ark_bls12_381::G1Affine> = bases.iter().map(
        |e| ark_bls12_381::G1Affine::deserialize_compressed(&*e.bytes).unwrap(),
    ).collect();
    let ks: Vec<ark_bls12_381::Fr> = scalars.iter().map(
        |s| {
            let l = s.limbs();
            ark_bls12_381::Fr::from_bigint(ark_ff::BigInt([l.0, l.1, l.2, l.3])).unwrap()
        },
    ).collect();
    let q = ark_bls12_381::G1Projective::msm(&pts, &ks).unwrap().into_affine();
    let mut out = Vec::new();
    q.serialize_compressed(&mut out).unwrap();
    G1El { bytes: out }
}

/// Relies on `ark_ec`'s variable-base multi-scalar multiplication in G2,
/// through the compressed encodings on both sides.
#[verifier::external_body]
pub fn g2_msm(bases: &Vec<G2El>, scalars: &Vec<Fe>) -> (r: G2El)
    requires
        bases@.len() == scalars@.len(),
        all_g2_wf(bases@),
        all_ok(scalars@),
    ensures
        r.wf(),
        r@ == g2_msm_of(g2_views(bases@), vals_of(scalars@)),
{
    let pts: Vec<ark_bls12_381::G2Affine> = bases.iter().map(
        |e| ark_bls12_381::G2Affine::deserialize_compressed(&*e.bytes).unwrap(),
    ).collect();
    let ks: Vec<ark_bls12_381::Fr> = scalars.iter().map(
        |s| {
            let l = s.limbs();
            ark_bls12_381::Fr::from_bigint(ark_ff::BigInt([l.0, l.1, l.2, l.3])).unwrap()
        },
    ).collect();
    let q = ark_bls12_381::G2Projective::msm(&pts, &ks).unwrap().into_affine();
    let mut out = Vec::new();
    q.serialize_compressed(&mut out).unwrap();
    G2El { bytes: out }
}

/// Relies on `ark_ec`'s pairing, through the compressed encodings of the
/// arguments and of the target-group result.
#[verifier::external_body]
pub fn pairing(a: &G1El, b: &G2El) -> (r: GtEl)
    requires
        a.wf(),
        b.wf(),
    ensures
        r@ == pairing_of(a@, b@),
{
    let p = ark_bls12_381::G1Affine::deserialize_compressed(&*a.bytes).unwrap();
    let q = ark_bls12_381::G2Affine::deserialize_compressed(&*b.bytes).unwrap();
    let t = ark_bls12_381::Bls12_381::pairing(p, q);
    let mut out = Vec::new();
    t.serialize_compressed(&mut out).unwrap();
    GtEl { bytes: out }
}

/// Relies on `ark_ec`'s target-group multiplication, through the
/// canonical encodings on both sides.
#[verifier::external_body]
pub fn gt_mul(a: &GtEl, b: &GtEl) -> (r: GtEl)
    ensures
        r@ == gt_mul_of(a@, b@),
{
    let p = ark_ec::pairing::PairingOutput::<ark_bls12_381::Bls12_381>::deserialize_compressed(
        &*a.bytes,
    ).unwrap();
    let q = ark_ec::pairing::PairingOutput::<ark_bls12_381::Bls12_381>::deserialize_compressed(
        &*b.bytes,
    ).unwrap();
    let t = p + q;
    let mut out = Vec::new();
    t.serialize_compressed(&mut out).unwrap();
    GtEl { bytes: out }
}

/// Relies on `ark_serialize`'s compressed round trip for G1: accepted
/// exactly when the bytes are the canonical encoding of a point, which
/// is checked by deserialising and re-serialising.
#[verifier::external_body]
pub fn g1_validate(bytes: &Vec<u8>) -> (r: Option<G1El>)
    ensures
        match r {
            Some(e) => e@ == bytes@ && e.wf(),
            None => !g1_ok(bytes@),
        },
{
    let p = match ark_bls12_381::G1Affine::deserialize_compressed(&**bytes) {
        Ok(p) => p,
        Err(_) => return None,
    };
    let mut back = Vec::new();
    p.serialize_compressed(&mut back).unwrap();
    if back != *bytes {
        return None;
    }
    Some(G1El { bytes: back })
}

/// Relies on `ark_serialize`'s compressed round trip for G2: accepted
/// exactly when the bytes are the canonical encoding of a point, which
/// is checked by deserialising and re-serialising.
#[verifier::external_body]
pub fn g2_validate(bytes: &Vec<u8>) -> (r: Option<G2El>)
    ensures
        match r {
            Some(e) => e@ == bytes@ && e.wf(),
            None => !g2_ok(bytes@),
        },
{
    let p = match ark_bls12_381::G2Affine::deserialize_compressed(&**bytes) {
        Ok(p) => p,
        Err(_) => return None,
    };
    let mut back = Vec::new();
    p.serialize_compressed(&mut back).unwrap();
    if back != *bytes {
        return None;
    }
    Some(G2El { bytes: back })
}

} // verus!
