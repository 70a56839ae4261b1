//! The eq extension: the indicator polynomial of a point, kept factored
//! per variable, and its tensor expansion over the whole cube.

use vstd::prelude::*;
use vstd::arithmetic::div_mod::lemma_mul_mod_noop;
use vstd::arithmetic::power2::{
    lemma2_to64, lemma_pow2_pos, lemma_pow2_strictly_increases, lemma_pow2_unfold, pow2,
};
use crate::algebra::{
    bit, eq_prod, eqf, lemma_already_reduced, lemma_bit_shift, point_of, pow2_exec,
};
use crate::data_structures::ml_extension::DenseMle;
use crate::field::{all_ok, fe_sub, lemma_vals_of_index, prime, vals_of, Fe};

verus! {

/// The list of per-variable eq factors of `eq(t, x)`, each lifted to a
/// polynomial over all `t.len()` variables.
///
/// Factor `j` only reads variable `j`: its table entry at cube index `b`
/// is `t_j` when bit `j` of `b` is set and `1 - t_j` otherwise.
pub fn eq_extension(t: &Vec<Fe>) -> (r: Vec<DenseMle>)
    requires
        all_ok(t@),
        pow2(t@.len()) <= usize::MAX,
    ensures
        r@.len() == t@.len(),
        forall|j: int|
            0 <= j < t@.len() ==> {
                &&& (#[trigger] r@[j]).wf()
                &&& r@[j].nvars() == t@.len()
                &&& forall|b: int|
                    0 <= b < pow2(t@.len()) ==> #[trigger] r@[j]@[b] == eqf(
                        t@[j].val(),
                        bit(b, j as nat),
                    ) % prime()
            },
    {
    let n = t.len();
    let size = pow2_exec(n);
    let one = Fe::one();
    let mut out: Vec<DenseMle> = Vec::new();
    let mut j: usize = 0;
    while j < n
        invariant
            j <= n,
            n == t@.len(),
            size == pow2(n as nat),
            all_ok(t@),
            one.ok(),
            one.val() == 1,
            out@.len() == j,
            forall|jj: int|
                0 <= jj < j ==> {
                    &&& (#[trigger] out@[jj]).wf()
                    &&& out@[jj].nvars() == n
                    &&& forall|b: int|
                        0 <= b < pow2(n as nat) ==> #[trigger] out@[jj]@[b] == eqf(
                            t@[jj].val(),
                            bit(b, jj as nat),
                        ) % prime()
                },
        decreases n - j,
    {
        proof {
            lemma_pow2_strictly_increases(j as nat, n as nat);
        }
        let pj = pow2_exec(j);
        let tj = t[j];
        let off = fe_sub(&one, &tj);
        let mut table: Vec<Fe> = Vec::new();
        let mut b: usize = 0;
        while b < size
            invariant
                b <= size,
                size == pow2(n as nat),
                j < n,
                n == t@.len(),
                all_ok(t@),
                pj == pow2(j as nat),
                tj == t@[j as int],
                tj.ok(),
                off.ok(),
                off.val() == (1 - tj.val()) % prime(),
                table@.len() == b,
                all_ok(table@),
                forall|bb: int|
                    0 <= bb < b ==> (#[trigger] table@[bb]).val() == eqf(
                        t@[j as int].val(),
                        bit(bb, j as nat),
                    ) % prime(),
            decreases size - b,
        {
            proof {
                lemma_pow2_pos(j as nat);
            }
            let hi = (b / pj) % 2;
            let e = if hi == 1 {
                tj
            } else {
                off
            };
            proof {
                assert(bit(b as int, j as nat) == ((b as int) / (pow2(j as nat) as int)) % 2);
                if hi == 1 {
                    assert(eqf(tj.val(), 1) == tj.val()) by (nonlinear_arith);
                    lemma_already_reduced(tj.val());
                } else {
                    assert(eqf(tj.val(), 0) == 1 - tj.val()) by (nonlinear_arith);
                }
            }
            table.push(e);
            b = b + 1;
        }
        let mle = DenseMle::new_unchecked(table, n);
        proof {
            let tbl = mle@;
            assert forall|bb: int| 0 <= bb < pow2(n as nat) implies #[trigger] tbl[bb] == eqf(
                t@[j as int].val(),
                bit(bb, j as nat),
            ) % prime() by {
                lemma_vals_of_index(table@, bb);
            }
        }
        out.push(mle);
        j = j + 1;
    }
    out
}

/// The full tensor table of `eq(t, x)` over the cube `{0,1}^n`.
pub fn eq_table(t: &Vec<Fe>) -> (r: Vec<Fe>)
    requires
        all_ok(t@),
        pow2(t@.len()) <= usize::MAX,
    ensures
        r@.len() == pow2(t@.len()),
        all_ok(r@),
        forall|b: int|
            0 <= b < r@.len() ==> (#[trigger] r@[b]).val() == eq_prod(
                vals_of(t@),
                point_of(b, t@.len()),
            ) % prime(),
{
    let n = t.len();
    let one = Fe::one();
    let mut cur: Vec<Fe> = Vec::new();
    cur.push(one);
    proof {
        lemma2_to64();
        assert(eq_prod(vals_of(t@).skip(n as int), point_of(0, 0)) == 1);
        assert(1int % prime() == 1);
    }
    let mut jj: usize = 0;
    while jj < n
        invariant
            jj <= n,
            n == t@.len(),
            all_ok(t@),
            one.ok(),
            one.val() == 1,
            pow2(n as nat) <= usize::MAX,
            cur@.len() == pow2(jj as nat),
            all_ok(cur@),
            forall|b: int|
                0 <= b < cur@.len() ==> (#[trigger] cur@[b]).val() == eq_prod(
                    vals_of(t@).skip((n - jj) as int),
                    point_of(b, jj as nat),
                ) % prime(),
        decreases n - jj,
    {
        let j = n - 1 - jj;
        let tj = t[j];
        let off = fe_sub(&one, &tj);
        let size = cur.len();
        proof {
            lemma_pow2_unfold((jj + 1) as nat);
            if jj + 1 < n {
                lemma_pow2_strictly_increases((jj + 1) as nat, n as nat);
            }
            assert(2 * pow2(jj as nat) == pow2((jj + 1) as nat));
        }
        let mut next: Vec<Fe> = Vec::new();
        let mut b: usize = 0;
        while b < 2 * size
            invariant
                b <= 2 * size,
                size == cur@.len(),
                size == pow2(jj as nat),
                2 * size == pow2((jj + 1) as nat),
                2 * size <= usize::MAX,
                jj < n,
                j == n - 1 - jj,
                n == t@.len(),
                all_ok(t@),
                all_ok(cur@),
                tj == t@[j as int],
                tj.ok(),
                off.ok(),
                off.val() == (1 - tj.val()) % prime(),
                forall|bb: int|
                    0 <= bb < cur@.len() ==> (#[trigger] cur@[bb]).val() == eq_prod(
                        vals_of(t@).skip((n - jj) as int),
                        point_of(bb, jj as nat),
                    ) % prime(),
                next@.len() == b,
                all_ok(next@),
                forall|bb: int|
                    0 <= bb < b ==> (#[trigger] next@[bb]).val() == eq_prod(
                        vals_of(t@).skip(j as int),
                        point_of(bb, (jj + 1) as nat),
                    ) % prime(),
            decreases 2 * size - b,
        {
            let f = if b % 2 == 1 {
                tj
            } else {
                off
            };
            let half = b / 2;
            let e = crate::field::fe_mul(&f, &cur[half]);
            proof {
                let tv = vals_of(t@);
                let tjv = tj.val();
                let lo = bit(b as int, 0);
                lemma2_to64();
                assert(lo == (b as int) % 2);
                if b % 2 == 1 {
                    assert(eqf(tjv, 1) == tjv) by (nonlinear_arith);
                    lemma_already_reduced(tjv);
                    assert(f.val() == eqf(tjv, lo) % prime());
                } else {
                    assert(eqf(tjv, 0) == 1 - tjv) by (nonlinear_arith);
                    assert(f.val() == eqf(tjv, lo) % prime());
                }
                let rest = eq_prod(tv.skip((n - jj) as int), point_of(half as int, jj as nat));
                assert(cur@[half as int].val() == rest % prime());
                let pt = point_of(b as int, (jj + 1) as nat);
                assert(pt[0] == lo);
                assert(pt.drop_first() =~= point_of(half as int, jj as nat)) by {
                    assert forall|i: int| 0 <= i < jj implies pt.drop_first()[i] == bit(
                        half as int,
                        i as nat,
                    ) by {
                        assert(pt.drop_first()[i] == bit(b as int, (i + 1) as nat));
                        lemma_bit_shift(b as int, i as nat);
                    }
                }
                assert(tv.skip(j as int)[0] == tv[j as int]);
                assert(tv.skip(j as int).drop_first() =~= tv.skip((n - jj) as int));
                lemma_vals_of_index(t@, j as int);
                assert(eq_prod(tv.skip(j as int), pt) == eqf(tjv, lo) * rest);
                lemma_mul_mod_noop(eqf(tjv, lo), rest, prime());
                assert(e.val() == (eqf(tjv, lo) * rest) % prime());
            }
            next.push(e);
            b = b + 1;
        }
        cur = next;
        jj = jj + 1;
    }
    proof {
        assert(vals_of(t@).skip(0) =~= vals_of(t@));
    }
    cur
}

} // verus!
