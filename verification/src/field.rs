//! The scalar field of BLS12-381, modelled by its canonical residue.
//!
//! A field element is carried as four little-endian 64-bit limbs whose
//! combined value is the canonical representative in `[0, prime())`. The
//! arithmetic itself is done by `ark_ff` behind trusted wrappers; every
//! wrapper's contract states the result as integer arithmetic modulo the
//! prime, so everything built on top is verified against ordinary
//! mathematics.

use vstd::prelude::*;
use vstd::arithmetic::div_mod::{
    lemma_add_mod_noop, lemma_mod_bound, lemma_mod_multiples_vanish, lemma_mul_mod_noop,
    lemma_mul_mod_noop_left, lemma_mul_mod_noop_right, lemma_small_mod, lemma_sub_mod_noop,
};
use ark_ff::Field;
use ark_ff::PrimeField;

verus! {

/// The prime modulus of the BLS12-381 scalar field.
pub open spec fn prime() -> int {
    0x73eda753299d7d483339d80809a1d80553bda402fffe5bfeffffffff00000001int
}

/// Little-endian 64-bit limbs of the modulus, for executable range checks.
pub const PRIME_D0: u64 = 0xffffffff00000001;
pub const PRIME_D1: u64 = 0x53bda402fffe5bfe;
pub const PRIME_D2: u64 = 0x3339d80809a1d805;
pub const PRIME_D3: u64 = 0x73eda753299d7d48;

/// An element of the scalar field, as canonical little-endian limbs.
#[derive(Clone, Copy, Debug, PartialEq, Eq, Structural)]
pub struct Fe {
    d0: u64,
    d1: u64,
    d2: u64,
    d3: u64,
}

impl Fe {
    /// The integer this element stands for.
    pub closed spec fn val(self) -> int {
        self.d0 + self.d1 * 0x10000000000000000int
            + self.d2 * 0x100000000000000000000000000000000int
            + self.d3 * 0x1000000000000000000000000000000000000000000000000int
    }

    /// Canonical form: the value is a reduced residue.
    pub open spec fn ok(self) -> bool {
        0 <= self.val() < prime()
    }
}

/// Field addition in spec form.
pub open spec fn fadd(a: int, b: int) -> int {
    (a + b) % prime()
}

/// Field subtraction in spec form.
pub open spec fn fsub(a: int, b: int) -> int {
    (a - b) % prime()
}

/// Field multiplication in spec form.
pub open spec fn fmul(a: int, b: int) -> int {
    (a * b) % prime()
}

/// The limbs of a canonical element are determined by its value.
pub proof fn lemma_val_injective(a: Fe, b: Fe)
    requires
        a.val() == b.val(),
    ensures
        a == b,
{
    lemma_limb_peel(a.d0, a.d1, a.d2, a.d3);
    lemma_limb_peel(b.d0, b.d1, b.d2, b.d3);
}

/// Each limb equals a fixed quotient-and-remainder picture of the value.
proof fn lemma_limb_peel(d0: u64, d1: u64, d2: u64, d3: u64)
    ensures
        ({
            let v = d0 + d1 * 0x10000000000000000int
                + d2 * 0x100000000000000000000000000000000int
                + d3 * 0x1000000000000000000000000000000000000000000000000int;
            let base: int = 0x10000000000000000int;
            &&& v % base == d0
            &&& (v / base) % base == d1
            &&& ((v / base) / base) % base == d2
            &&& (((v / base) / base) / base) % base == d3
        }),
{
    let base: int = 0x10000000000000000int;
    let v: int = d0 + d1 * 0x10000000000000000int
        + d2 * 0x100000000000000000000000000000000int
        + d3 * 0x1000000000000000000000000000000000000000000000000int;
    let r3: int = d3 as int;
    let r2: int = d2 + r3 * base;
    let r1: int = d1 + r2 * base;
    assert(v == d0 + r1 * base) by (nonlinear_arith)
        requires
            r1 == d1 + (d2 + d3 * base) * base,
            v == d0 + d1 * base + d2 * base * base + d3 * base * base * base,
            r2 == d2 + d3 * base,
            r3 == d3,
            base == 0x10000000000000000int;
    lemma_div_step(d0 as int, r1, base);
    lemma_div_step(d1 as int, r2, base);
    lemma_div_step(d2 as int, r3, base);
    lemma_small_mod(d3 as nat, base as nat);
}

/// For `0 <= a < base`, the value `a + q * base` splits as remainder `a`
/// and quotient `q`.
proof fn lemma_div_step(a: int, q: int, base: int)
    requires
        0 <= a < base,
        0 <= q,
    ensures
        (a + q * base) % base == a,
        (a + q * base) / base == q,
{
    lemma_mod_multiples_vanish(q, a, base);
    lemma_small_mod(a as nat, base as nat);
    vstd::arithmetic::div_mod::lemma_fundamental_div_mod_converse(a + q * base, base, q, a);
}

/// The executable limb constants agree with the spec-level modulus.
pub proof fn lemma_prime_limbs()
    ensures
        PRIME_D0 + PRIME_D1 * 0x10000000000000000int
            + PRIME_D2 * 0x100000000000000000000000000000000int
            + PRIME_D3 * 0x1000000000000000000000000000000000000000000000000int == prime(),
        prime() > 0x10000000000000000int,
{
}

/// Relies on `ark_ff` addition in the scalar field: the canonical residue
/// of the integer sum.
#[verifier::external_body]
pub fn fe_add(a: &Fe, b: &Fe) -> (r: Fe)
    requires
        a.ok(),
        b.ok(),
    ensures
        r.ok(),
        r.val() == fadd(a.val(), b.val()),
{
    let x = ark_bls12_381::Fr::from_bigint(ark_ff::BigInt([a.d0, a.d1, a.d2, a.d3])).unwrap();
    let y = ark_bls12_381::Fr::from_bigint(ark_ff::BigInt([b.d0, b.d1, b.d2, b.d3])).unwrap();
    let l = (x + y).into_bigint().0;
    Fe { d0: l[0], d1: l[1], d2: l[2], d3: l[3] }
}

/// Relies on `ark_ff` subtraction in the scalar field: the canonical
/// residue of the integer difference.
#[verifier::external_body]
pub fn fe_sub(a: &Fe, b: &Fe) -> (r: Fe)
    requires
        a.ok(),
        b.ok(),
    ensures
        r.ok(),
        r.val() == fsub(a.val(), b.val()),
{
    let x = ark_bls12_381::Fr::from_bigint(ark_ff::BigInt([a.d0, a.d1, a.d2, a.d3])).unwrap();
    let y = ark_bls12_381::Fr::from_bigint(ark_ff::BigInt([b.d0, b.d1, b.d2, b.d3])).unwrap();
    let l = (x - y).into_bigint().0;
    Fe { d0: l[0], d1: l[1], d2: l[2], d3: l[3] }
}

/// Relies on `ark_ff` multiplication in the scalar field: the canonical
/// residue of the integer product.
#[verifier::external_body]
pub fn fe_mul(a: &Fe, b: &Fe) -> (r: Fe)
    requires
        a.ok(),
        b.ok(),
    ensures
        r.ok(),
        r.val() == fmul(a.val(), b.val()),
{
    let x = ark_bls12_381::Fr::from_bigint(ark_ff::BigInt([a.d0, a.d1, a.d2, a.d3])).unwrap();
    let y = ark_bls12_381::Fr::from_bigint(ark_ff::BigInt([b.d0, b.d1, b.d2, b.d3])).unwrap();
    let l = (x * y).into_bigint().0;
    Fe { d0: l[0], d1: l[1], d2: l[2], d3: l[3] }
}

/// Relies on `ark_ff` inversion in the scalar field: the unique residue
/// whose product with the argument is one.
#[verifier::external_body]
pub fn fe_inv(a: &Fe) -> (r: Fe)
    requires
        a.ok(),
        a.val() != 0,
    ensures
        r.ok(),
        fmul(r.val(), a.val()) == 1,
{
    let x = ark_bls12_381::Fr::from_bigint(ark_ff::BigInt([a.d0, a.d1, a.d2, a.d3])).unwrap();
    let l = x.inverse().unwrap().into_bigint().0;
    Fe { d0: l[0], d1: l[1], d2: l[2], d3: l[3] }
}

impl Fe {
    /// Embed a machine integer; it is already a reduced residue.
    pub fn from_u64(x: u64) -> (r: Fe)
        ensures
            r.ok(),
            r.val() == x,
    {
        Fe { d0: x, d1: 0, d2: 0, d3: 0 }
    }

    /// The additive identity.
    pub fn zero() -> (r: Fe)
        ensures
            r.ok(),
            r.val() == 0,
    {
        Fe::from_u64(0)
    }

    /// The little-endian 64-bit limbs of the canonical representative.
    pub fn limbs(&self) -> (r: (u64, u64, u64, u64))
        ensures
            self.val() == r.0 + r.1 * 0x10000000000000000int
                + r.2 * 0x100000000000000000000000000000000int
                + r.3 * 0x1000000000000000000000000000000000000000000000000int,
    {
        (self.d0, self.d1, self.d2, self.d3)
    }

    /// Rebuild an element from little-endian limbs; rejected unless the
    /// value is a reduced residue.
    pub fn from_limbs(d0: u64, d1: u64, d2: u64, d3: u64) -> (r: Option<Fe>)
        ensures
            ({
                let v = d0 + d1 * 0x10000000000000000int
                    + d2 * 0x100000000000000000000000000000000int
                    + d3 * 0x1000000000000000000000000000000000000000000000000int;
                match r {
                    Some(f) => f.ok() && f.val() == v,
                    None => v >= prime(),
                }
            }),
    {
        proof {
            lemma_prime_limbs();
        }
        let canonical = if d3 != PRIME_D3 {
            d3 < PRIME_D3
        } else if d2 != PRIME_D2 {
            d2 < PRIME_D2
        } else if d1 != PRIME_D1 {
            d1 < PRIME_D1
        } else {
            d0 < PRIME_D0
        };
        if canonical {
            Some(Fe { d0, d1, d2, d3 })
        } else {
            None
        }
    }

    /// The multiplicative identity.
    pub fn one() -> (r: Fe)
        ensures
            r.ok(),
            r.val() == 1,
    {
        Fe::from_u64(1)
    }
}

/// The canonical 32-byte little-endian encoding of a residue.
pub open spec fn fe_le_bytes(v: int) -> Seq<u8> {
    crate::algebra::le_bytes_of(v, 32)
}

impl Fe {
    /// The canonical fixed-width byte encoding: 32 bytes, little endian.
    #[verifier::rlimit(100)]
    #[verifier::spinoff_prover]
    pub fn to_le_bytes(&self) -> (r: Vec<u8>)
        requires
            self.ok(),
        ensures
            r@ == fe_le_bytes(self.val()),
            r@.len() == 32,
            crate::algebra::le_int(r@) == self.val(),
    {
        let mut out: Vec<u8> = Vec::new();
        let l = self.limbs();
        u64_push_le(&mut out, l.0);
        u64_push_le(&mut out, l.1);
        u64_push_le(&mut out, l.2);
        u64_push_le(&mut out, l.3);
        proof {
            lemma_fe_encoding(*self, out@);
        }
        out
    }

    /// Decode a canonical 32-byte little-endian encoding; rejected when
    /// the value is not a reduced residue.
    pub fn from_le_bytes(bytes: &Vec<u8>) -> (r: Option<Fe>)
        requires
            bytes@.len() == 32,
        ensures
            match r {
                Some(f) => f.ok() && f.val() == crate::algebra::le_int(bytes@),
                None => crate::algebra::le_int(bytes@) >= prime(),
            },
    {
        let d0 = u64_read_le(bytes, 0);
        let d1 = u64_read_le(bytes, 8);
        let d2 = u64_read_le(bytes, 16);
        let d3 = u64_read_le(bytes, 24);
        proof {
            let s = bytes@;
            let a0 = s.subrange(0, 8);
            let a1 = s.subrange(8, 16);
            let a2 = s.subrange(16, 24);
            let a3 = s.subrange(24, 32);
            assert(s =~= a0 + (a1 + (a2 + a3))) by {
                assert(a1 + (a2 + a3) =~= s.subrange(8, 32));
                assert(a2 + a3 =~= s.subrange(16, 32));
            }
            crate::algebra::lemma_le_int_concat(a0, a1 + (a2 + a3));
            crate::algebra::lemma_le_int_concat(a1, a2 + a3);
            crate::algebra::lemma_le_int_concat(a2, a3);
            vstd::arithmetic::power2::lemma2_to64();
            vstd::arithmetic::power2::lemma2_to64_rest();
            vstd::arithmetic::power2::lemma_pow2_adds(64, 64);
            vstd::arithmetic::power2::lemma_pow2_adds(64, 128);
            let b64 = 0x10000000000000000int;
            assert(vstd::arithmetic::power2::pow2(128) == 0x100000000000000000000000000000000int);
            assert(vstd::arithmetic::power2::pow2(192)
                == 0x1000000000000000000000000000000000000000000000000int);
            assert(crate::algebra::le_int(s) == d0 + d1 * b64
                + d2 * 0x100000000000000000000000000000000int
                + d3 * 0x1000000000000000000000000000000000000000000000000int) by (nonlinear_arith)
                requires
                    crate::algebra::le_int(s) == d0 + b64 * (d1 + b64 * (d2 + b64 * d3)),
                    b64 == 0x10000000000000000int;
        }
        Fe::from_limbs(d0, d1, d2, d3)
    }
}

/// The limb-wise little-endian encoding is the encoding of the value.
#[verifier::rlimit(100)]
#[verifier::spinoff_prover]
proof fn lemma_fe_encoding(f: Fe, got: Seq<u8>)
    requires
        f.ok(),
        got == Seq::<u8>::empty() + crate::algebra::le_bytes_of(f.d0 as int, 8)
            + crate::algebra::le_bytes_of(f.d1 as int, 8) + crate::algebra::le_bytes_of(
            f.d2 as int,
            8,
        ) + crate::algebra::le_bytes_of(f.d3 as int, 8),
    ensures
        got == fe_le_bytes(f.val()),
        got.len() == 32,
        crate::algebra::le_int(got) == f.val(),
{
    lemma_fe_bytes_assemble(f.d0, f.d1, f.d2, f.d3);
    let plain = crate::algebra::le_bytes_of(f.d0 as int, 8) + crate::algebra::le_bytes_of(
        f.d1 as int,
        8,
    ) + crate::algebra::le_bytes_of(f.d2 as int, 8) + crate::algebra::le_bytes_of(f.d3 as int, 8);
    assert(got =~= plain);
    assert(got =~= fe_le_bytes(f.val())) by {
        assert forall|j: int| 0 <= j < 32 implies got[j] == fe_le_bytes(f.val())[j] by {
            if j < 8 {
                assert(got[j] == crate::algebra::le_bytes_of(f.d0 as int, 8)[j]);
            } else if j < 16 {
                assert(got[j] == crate::algebra::le_bytes_of(f.d1 as int, 8)[j - 8]);
            } else if j < 24 {
                assert(got[j] == crate::algebra::le_bytes_of(f.d2 as int, 8)[j - 16]);
            } else {
                assert(got[j] == crate::algebra::le_bytes_of(f.d3 as int, 8)[j - 24]);
            }
        }
    }
    crate::algebra::lemma_le_int_of_bytes(f.val(), 32);
    lemma_val_small(f);
    vstd::arithmetic::div_mod::lemma_small_mod(
        f.val() as nat,
        vstd::arithmetic::power2::pow2(256) as nat,
    );
}

/// The value of a canonical element fits 256 bits.
proof fn lemma_val_small(f: Fe)
    ensures
        0 <= f.val() < vstd::arithmetic::power2::pow2(256),
{
    vstd::arithmetic::power2::lemma2_to64();
    vstd::arithmetic::power2::lemma_pow2_adds(64, 64);
    vstd::arithmetic::power2::lemma_pow2_adds(128, 64);
    vstd::arithmetic::power2::lemma_pow2_adds(192, 64);
    assert(vstd::arithmetic::power2::pow2(128) == 0x100000000000000000000000000000000int);
    assert(vstd::arithmetic::power2::pow2(192)
        == 0x1000000000000000000000000000000000000000000000000int);
    assert(vstd::arithmetic::power2::pow2(256)
        == 0x10000000000000000000000000000000000000000000000000000000000000000int);
}

/// The byte encodings of the four limbs assemble to the encoding of the
/// combined value.
proof fn lemma_fe_bytes_assemble(d0: u64, d1: u64, d2: u64, d3: u64)
    ensures
        ({
            let v = d0 + d1 * 0x10000000000000000int
                + d2 * 0x100000000000000000000000000000000int
                + d3 * 0x1000000000000000000000000000000000000000000000000int;
            forall|j: int|
                0 <= j < 32 ==> crate::algebra::le_bytes_of(v, 32)[j] == (if j < 8 {
                    crate::algebra::le_bytes_of(d0 as int, 8)[j]
                } else if j < 16 {
                    crate::algebra::le_bytes_of(d1 as int, 8)[j - 8]
                } else if j < 24 {
                    crate::algebra::le_bytes_of(d2 as int, 8)[j - 16]
                } else {
                    crate::algebra::le_bytes_of(d3 as int, 8)[j - 24]
                })
        }),
{
    let v = d0 + d1 * 0x10000000000000000int + d2 * 0x100000000000000000000000000000000int
        + d3 * 0x1000000000000000000000000000000000000000000000000int;
    assert forall|j: int| 0 <= j < 32 implies crate::algebra::le_bytes_of(v, 32)[j] == (if j < 8 {
        crate::algebra::le_bytes_of(d0 as int, 8)[j]
    } else if j < 16 {
        crate::algebra::le_bytes_of(d1 as int, 8)[j - 8]
    } else if j < 24 {
        crate::algebra::le_bytes_of(d2 as int, 8)[j - 16]
    } else {
        crate::algebra::le_bytes_of(d3 as int, 8)[j - 24]
    }) by {
        let l: int = j / 8;
        let jj: int = j % 8;
        lemma_byte_of_limb(d0, d1, d2, d3, l, jj);
        assert(j == 8 * l + jj) by {
            vstd::arithmetic::div_mod::lemma_fundamental_div_mod(j, 8);
        }
    }
}

/// Byte `jj` of limb `l` is byte `8l + jj` of the combined value.
proof fn lemma_byte_of_limb(d0: u64, d1: u64, d2: u64, d3: u64, l: int, jj: int)
    requires
        0 <= l < 4,
        0 <= jj < 8,
    ensures
        ({
            let v = d0 + d1 * 0x10000000000000000int
                + d2 * 0x100000000000000000000000000000000int
                + d3 * 0x1000000000000000000000000000000000000000000000000int;
            let dl: int = if l == 0 {
                d0 as int
            } else if l == 1 {
                d1 as int
            } else if l == 2 {
                d2 as int
            } else {
                d3 as int
            };
            crate::algebra::byte_of(v, 8 * l + jj) == crate::algebra::byte_of(dl, jj)
        }),
{
    let b64: int = 0x10000000000000000int;
    let l128: int = 0x100000000000000000000000000000000int;
    let l192: int = 0x1000000000000000000000000000000000000000000000000int;
    vstd::arithmetic::power2::lemma2_to64();
    vstd::arithmetic::power2::lemma2_to64_rest();
    vstd::arithmetic::power2::lemma_pow2_adds(64, 64);
    vstd::arithmetic::power2::lemma_pow2_adds(128, 64);
    assert(vstd::arithmetic::power2::pow2(128) == l128);
    assert(vstd::arithmetic::power2::pow2(192) == l192);
    let v = d0 + d1 * 0x10000000000000000int + d2 * 0x100000000000000000000000000000000int
        + d3 * 0x1000000000000000000000000000000000000000000000000int;
    let dl: int = if l == 0 {
        d0 as int
    } else if l == 1 {
        d1 as int
    } else if l == 2 {
        d2 as int
    } else {
        d3 as int
    };
    let hi: int = if l == 0 {
        d1 + d2 * b64 + d3 * l128
    } else if l == 1 {
        d2 + d3 * b64
    } else if l == 2 {
        d3 as int
    } else {
        0
    };
    let low: int = if l == 0 {
        0
    } else if l == 1 {
        d0 as int
    } else if l == 2 {
        d0 + d1 * b64
    } else {
        d0 + d1 * b64 + d2 * l128
    };
    let pl: int = if l == 0 {
        1
    } else if l == 1 {
        b64
    } else if l == 2 {
        l128
    } else {
        l192
    };
    assert(pl == vstd::arithmetic::power2::pow2((64 * l) as nat)) by {
        if l == 0 {
        } else if l == 1 {
        } else if l == 2 {
        } else {
        }
    }
    assert(0 <= hi);
    assert(0 <= low < pl);
    if l == 0 {
        assert(v == low + (dl + hi * b64) * 1);
        lemma_div_step(low, dl + hi * b64, 1);
    } else if l == 1 {
        assert((dl + hi * b64) * b64 == dl * b64 + hi * (b64 * b64)) by (nonlinear_arith);
        assert(v == low + (dl + hi * b64) * b64);
        lemma_div_step(low, dl + hi * b64, b64);
    } else if l == 2 {
        assert((dl + hi * b64) * l128 == dl * l128 + hi * (b64 * l128)) by (nonlinear_arith);
        assert(b64 * l128 == l192);
        assert(v == low + (dl + hi * b64) * l128);
        lemma_div_step(low, dl + hi * b64, l128);
    } else {
        assert((dl + hi * b64) * l192 == dl * l192 + hi * (b64 * l192)) by (nonlinear_arith);
        assert(v == low + (dl + hi * b64) * l192);
        lemma_div_step(low, dl + hi * b64, l192);
    }
    assert(v / pl == dl + hi * b64);
    let pj = vstd::arithmetic::power2::pow2((8 * jj) as nat) as int;
    let rest = vstd::arithmetic::power2::pow2((64 - 8 * jj) as nat) as int;
    vstd::arithmetic::power2::lemma_pow2_adds((8 * jj) as nat, (64 - 8 * jj) as nat);
    assert(b64 == pj * rest);
    vstd::arithmetic::power2::lemma_pow2_pos((8 * jj) as nat);
    vstd::arithmetic::power2::lemma_pow2_pos((64 - 8 * jj) as nat);
    assert(hi * (pj * rest) == (hi * rest) * pj) by (nonlinear_arith);
    assert(v / pl == dl + (hi * rest) * pj);
    vstd::arithmetic::div_mod::lemma_hoist_over_denominator(dl, hi * rest, pj as nat);
    assert((v / pl) / pj == dl / pj + hi * rest);
    vstd::arithmetic::div_mod::lemma_div_denominator(v, pl, pj);
    assert((v / pl) / pj == v / (pl * pj));
    vstd::arithmetic::power2::lemma_pow2_adds((64 * l) as nat, (8 * jj) as nat);
    assert((8 * (8 * l + jj)) as nat == (64 * l + 8 * jj) as nat);
    assert(pl * pj == vstd::arithmetic::power2::pow2((8 * (8 * l + jj)) as nat));
    let rest2 = vstd::arithmetic::power2::pow2((56 - 8 * jj) as nat) as int;
    vstd::arithmetic::power2::lemma_pow2_adds(8, (56 - 8 * jj) as nat);
    assert(rest == 256 * rest2);
    assert(hi * rest == 256 * (hi * rest2)) by (nonlinear_arith)
        requires
            rest == 256 * rest2;
    vstd::arithmetic::div_mod::lemma_mod_multiples_vanish(hi * rest2, dl / pj, 256);
    assert((256 * (hi * rest2) + dl / pj) % 256 == (dl / pj) % 256);
    assert((v / (pl * pj)) % 256 == (dl / pj) % 256);
}

/// Append the eight little-endian bytes of one limb.
fn u64_push_le(out: &mut Vec<u8>, w: u64)
    ensures
        final(out)@ == old(out)@ + crate::algebra::le_bytes_of(w as int, 8),
{
    let mut d: u64 = 1;
    let mut j: usize = 0;
    let ghost base = old(out)@;
    proof {
        vstd::arithmetic::power2::lemma2_to64();
    }
    while j < 8
        invariant
            j <= 8,
            j < 8 ==> d == vstd::arithmetic::power2::pow2((8 * j) as nat),
            out@.len() == base.len() + j,
            out@ == base + crate::algebra::le_bytes_of(w as int, 8).take(j as int),
        decreases 8 - j,
    {
        proof {
            vstd::arithmetic::power2::lemma2_to64();
            vstd::arithmetic::power2::lemma2_to64_rest();
            vstd::arithmetic::power2::lemma_pow2_pos((8 * j) as nat);
        }
        let b = ((w / d) % 256) as u8;
        out.push(b);
        proof {
            assert(crate::algebra::byte_of(w as int, j as int) == b);
            assert(out@ =~= base + crate::algebra::le_bytes_of(w as int, 8).take(j as int + 1));
        }
        d = if j < 7 {
            d * 256
        } else {
            d
        };
        j = j + 1;
        proof {
            if j < 8 {
                vstd::arithmetic::power2::lemma_pow2_adds((8 * (j - 1)) as nat, 8);
                assert(d == vstd::arithmetic::power2::pow2((8 * j) as nat));
            }
        }
    }
    proof {
        assert(crate::algebra::le_bytes_of(w as int, 8).take(8) =~= crate::algebra::le_bytes_of(
            w as int,
            8,
        ));
    }
}

/// Read one limb from eight little-endian bytes at `off`.
fn u64_read_le(bytes: &Vec<u8>, off: usize) -> (r: u64)
    requires
        off + 8 <= bytes@.len(),
        bytes@.len() <= usize::MAX,
    ensures
        r == crate::algebra::le_int(bytes@.subrange(off as int, off as int + 8)),
{
    let mut acc: u64 = 0;
    let mut j: usize = 8;
    proof {
        assert(bytes@.subrange(off as int + 8, off as int + 8).len() == 0);
        vstd::arithmetic::power2::lemma2_to64();
        vstd::arithmetic::power2::lemma2_to64_rest();
    }
    while j > 0
        invariant
            j <= 8,
            off + 8 <= bytes@.len(),
            bytes@.len() <= usize::MAX,
            acc == crate::algebra::le_int(bytes@.subrange(off + j, off as int + 8)),
            acc < vstd::arithmetic::power2::pow2((8 * (8 - j)) as nat),
        decreases j,
    {
        let ghost newtail = bytes@.subrange(off + j - 1, off as int + 8);
        proof {
            vstd::arithmetic::power2::lemma2_to64();
            vstd::arithmetic::power2::lemma2_to64_rest();
            if 8 * (8 - j) < 56 {
                vstd::arithmetic::power2::lemma_pow2_strictly_increases(
                    (8 * (8 - j)) as nat,
                    56,
                );
            }
            assert(acc < vstd::arithmetic::power2::pow2(56));
            assert(newtail.drop_first() =~= bytes@.subrange(off + j, off as int + 8));
            assert(newtail[0] == bytes@[off + j - 1]);
        }
        acc = acc * 256 + (bytes[off + j - 1] as u64);
        j = j - 1;
        proof {
            crate::algebra::lemma_le_int_bound(bytes@.subrange(off + j, off as int + 8));
            vstd::arithmetic::power2::lemma2_to64();
            vstd::arithmetic::power2::lemma2_to64_rest();
        }
    }
    acc
}

/// Relies on `ark_ff`'s `from_le_bytes_mod_order`: the little-endian
/// integer named by the bytes, reduced.
#[verifier::external_body]
pub fn fe_from_le_bytes_mod(bytes: &Vec<u8>) -> (r: Fe)
    ensures
        r.ok(),
        r.val() == crate::algebra::le_int(bytes@) % prime(),
{
    let x = <ark_bls12_381::Fr as PrimeField>::from_le_bytes_mod_order(bytes.as_slice());
    let l = x.into_bigint().0;
    Fe::from_limbs(l[0], l[1], l[2], l[3]).unwrap()
}

/// The integer values behind a sequence of field elements.
pub open spec fn vals_of(s: Seq<Fe>) -> Seq<int> {
    s.map_values(|f: Fe| f.val())
}

/// Every element of the sequence is canonical.
pub open spec fn all_ok(s: Seq<Fe>) -> bool {
    forall|i: int| 0 <= i < s.len() ==> (#[trigger] s[i]).ok()
}

/// Indexing the value sequence is taking the value of the element.
pub broadcast proof fn lemma_vals_of_index(s: Seq<Fe>, i: int)
    requires
        0 <= i < s.len(),
    ensures
        #[trigger] vals_of(s)[i] == s[i].val(),
{
}

/// The value sequence is as long as the element sequence.
pub broadcast proof fn lemma_vals_of_len(s: Seq<Fe>)
    ensures
        (#[trigger] vals_of(s)).len() == s.len(),
{
}

/// The additive inverse, computed from the subtraction wrapper.
pub fn fe_neg(a: &Fe) -> (r: Fe)
    requires
        a.ok(),
    ensures
        r.ok(),
        r.val() == (0 - a.val()) % prime(),
{
    let z = Fe::zero();
    fe_sub(&z, a)
}

} // verus!
