//! Ghost-level algebra of evaluation tables on the Boolean hypercube.
//!
//! A multilinear polynomial in `n` variables is represented by the sequence
//! of its values on `{0,1}^n`, index `b` standing for the point whose `i`-th
//! coordinate is bit `i` of `b`. Everything here is stated over mathematical
//! integers; residues modulo the field prime are taken exactly where the
//! executable code reduces.

use vstd::prelude::*;
use vstd::arithmetic::div_mod::{
    lemma_add_mod_noop, lemma_mod_bound, lemma_mod_twice, lemma_mul_mod_noop,
    lemma_mul_mod_noop_left, lemma_mul_mod_noop_right, lemma_small_mod,
};
use vstd::arithmetic::power2::pow2;
use crate::field::prime;

verus! {

/// Bit `i` of index `b`.
pub open spec fn bit(b: int, i: nat) -> int {
    (b / pow2(i) as int) % 2
}

/// The point of the cube `{0,1}^n` that index `b` stands for.
pub open spec fn point_of(b: int, n: nat) -> Seq<int> {
    Seq::new(n, |i: int| bit(b, i as nat))
}

/// One variable-binding step: halve the table, folding coordinate `c` in.
pub open spec fn bind_seq(t: Seq<int>, c: int) -> Seq<int> {
    Seq::new((t.len() / 2) as nat, |b: int| ((1 - c) * t[2 * b] + c * t[2 * b + 1]) % prime())
}

/// The value of the multilinear extension of table `t` at `pt`, reduced.
pub open spec fn mle_eval(t: Seq<int>, pt: Seq<int>) -> int
    decreases pt.len(),
{
    if pt.len() == 0 {
        t[0] % prime()
    } else {
        mle_eval(bind_seq(t, pt[0]), pt.drop_first())
    }
}

/// The one-variable eq factor: 1 when `x == t` on `{0,1}`, linear in both.
pub open spec fn eqf(t: int, x: int) -> int {
    (1 - t) * (1 - x) + t * x
}

/// The full eq product over matching coordinate sequences.
pub open spec fn eq_prod(t: Seq<int>, x: Seq<int>) -> int
    decreases t.len(),
{
    if t.len() == 0 {
        1
    } else {
        eqf(t[0], x[0]) * eq_prod(t.drop_first(), x.drop_first())
    }
}

/// Sum of the first `len` entries of a table.
pub open spec fn table_sum(t: Seq<int>, len: nat) -> int
    decreases len,
{
    if len == 0 {
        0
    } else {
        table_sum(t, (len - 1) as nat) + t[len - 1]
    }
}

/// Inner product of the first `len` entries of two tables.
pub open spec fn table_inner(a: Seq<int>, b: Seq<int>, len: nat) -> int
    decreases len,
{
    if len == 0 {
        0
    } else {
        table_inner(a, b, (len - 1) as nat) + a[len - 1] * b[len - 1]
    }
}

/// Product over a list of tables of their entries at index `b`.
pub open spec fn prod_at(factors: Seq<Seq<int>>, b: int) -> int
    decreases factors.len(),
{
    if factors.len() == 0 {
        1
    } else {
        factors[0][b] * prod_at(factors.drop_first(), b)
    }
}

/// Sum over the first `len` cube points of the product of the tables.
pub open spec fn cube_sum(factors: Seq<Seq<int>>, len: nat) -> int
    decreases len,
{
    if len == 0 {
        0
    } else {
        cube_sum(factors, (len - 1) as nat) + prod_at(factors, len - 1)
    }
}

/// Sum of `cube_sum` over a list of products of tables.
pub open spec fn comb_sum(products: Seq<Seq<Seq<int>>>, len: nat) -> int
    decreases products.len(),
{
    if products.len() == 0 {
        0
    } else {
        cube_sum(products[0], len) + comb_sum(products.drop_first(), len)
    }
}

/// The product of the tables with their first variable moved to `c`.
pub open spec fn prod_on_line(factors: Seq<Seq<int>>, b: int, c: int) -> int
    decreases factors.len(),
{
    if factors.len() == 0 {
        1
    } else {
        ((1 - c) * factors[0][2 * b] + c * factors[0][2 * b + 1])
            * prod_on_line(factors.drop_first(), b, c)
    }
}

/// The round polynomial of a product: sum over the half cube, first
/// variable held at `c`.
pub open spec fn line_sum(factors: Seq<Seq<int>>, half: nat, c: int) -> int
    decreases half,
{
    if half == 0 {
        0
    } else {
        line_sum(factors, (half - 1) as nat, c) + prod_on_line(factors, half - 1, c)
    }
}

/// The round polynomial of a whole combination.
pub open spec fn comb_line_sum(products: Seq<Seq<Seq<int>>>, half: nat, c: int) -> int
    decreases products.len(),
{
    if products.len() == 0 {
        0
    } else {
        line_sum(products[0], half, c) + comb_line_sum(products.drop_first(), half, c)
    }
}

/// Appending a factor multiplies the product on a line.
pub proof fn lemma_prod_on_line_push(factors: Seq<Seq<int>>, f: Seq<int>, b: int, c: int)
    ensures
        prod_on_line(factors.push(f), b, c) == prod_on_line(factors, b, c) * ((1 - c) * f[2 * b]
            + c * f[2 * b + 1]),
    decreases factors.len(),
{
    let lf = (1 - c) * f[2 * b] + c * f[2 * b + 1];
    if factors.len() == 0 {
        assert(factors.push(f).drop_first() =~= factors);
        assert(factors.push(f)[0] == f);
        assert(prod_on_line(factors.push(f).drop_first(), b, c) == 1);
        assert(prod_on_line(factors.push(f), b, c) == lf * 1);
        assert(lf * 1 == 1 * lf) by (nonlinear_arith);
    } else {
        assert(factors.push(f).drop_first() =~= factors.drop_first().push(f));
        lemma_prod_on_line_push(factors.drop_first(), f, b, c);
        let h = (1 - c) * factors[0][2 * b] + c * factors[0][2 * b + 1];
        let t = prod_on_line(factors.drop_first(), b, c);
        assert(h * (t * lf) == (h * t) * lf) by (nonlinear_arith);
    }
}

/// Appending a product adds its round polynomial to the combination's.
pub proof fn lemma_comb_line_push(products: Seq<Seq<Seq<int>>>, p: Seq<Seq<int>>, half: nat, c: int)
    ensures
        comb_line_sum(products.push(p), half, c) == comb_line_sum(products, half, c) + line_sum(
            p,
            half,
            c,
        ),
    decreases products.len(),
{
    if products.len() == 0 {
        assert(products.push(p).drop_first() =~= products);
    } else {
        assert(products.push(p).drop_first() =~= products.drop_first().push(p));
        lemma_comb_line_push(products.drop_first(), p, half, c);
    }
}

/// Holding the line coordinate at a Boolean value picks out the even or
/// odd entries of each factor.
pub proof fn lemma_prod_line_bool(factors: Seq<Seq<int>>, b: int)
    ensures
        prod_on_line(factors, b, 0) == prod_at(factors, 2 * b),
        prod_on_line(factors, b, 1) == prod_at(factors, 2 * b + 1),
    decreases factors.len(),
{
    if factors.len() > 0 {
        lemma_prod_line_bool(factors.drop_first(), b);
    }
}

/// A round polynomial of one product sums at 0 and 1 to the cube sum.
pub proof fn lemma_line_split(factors: Seq<Seq<int>>, half: nat)
    ensures
        line_sum(factors, half, 0) + line_sum(factors, half, 1) == cube_sum(factors, 2 * half),
    decreases half,
{
    if half > 0 {
        lemma_line_split(factors, (half - 1) as nat);
        lemma_prod_line_bool(factors, half - 1);
        assert(cube_sum(factors, 2 * half) == cube_sum(factors, (2 * half - 1) as nat) + prod_at(
            factors,
            2 * half - 1,
        ));
        assert(cube_sum(factors, (2 * half - 1) as nat) == cube_sum(factors, (2 * half - 2) as nat)
            + prod_at(factors, 2 * half - 2));
    }
}

/// The round polynomial of a combination, taken at 0 and 1, sums to the
/// combination's sum over the whole cube: the identity every honest
/// sumcheck round message satisfies.
pub proof fn lemma_comb_split(products: Seq<Seq<Seq<int>>>, half: nat)
    ensures
        comb_line_sum(products, half, 0) + comb_line_sum(products, half, 1) == comb_sum(
            products,
            2 * half,
        ),
    decreases products.len(),
{
    if products.len() > 0 {
        lemma_comb_split(products.drop_first(), half);
        lemma_line_split(products[0], half);
    }
}

/// After binding every factor at `c`, the product at a cube index is
/// congruent to the product on the line at `c`.
pub proof fn lemma_prod_bind(orig: Seq<Seq<int>>, bound: Seq<Seq<int>>, b: int, c: int)
    requires
        0 <= b,
        bound.len() == orig.len(),
        forall|j: int| 0 <= j < orig.len() ==> #[trigger] bound[j] == bind_seq(orig[j], c),
        forall|j: int| 0 <= j < orig.len() ==> b < (#[trigger] orig[j]).len() / 2,
    ensures
        prod_at(bound, b) % prime() == prod_on_line(orig, b, c) % prime(),
    decreases orig.len(),
{
    if orig.len() == 0 {
    } else {
        assert(bound.drop_first().len() == orig.drop_first().len());
        assert forall|j: int| 0 <= j < orig.drop_first().len() implies #[trigger] bound.drop_first()[j]
            == bind_seq(orig.drop_first()[j], c) by {
            assert(orig.drop_first()[j] == orig[j + 1]);
            assert(bound.drop_first()[j] == bound[j + 1]);
            assert(bound[j + 1] == bind_seq(orig[j + 1], c));
        }
        assert forall|j: int| 0 <= j < orig.drop_first().len() implies b < (
        #[trigger] orig.drop_first()[j]).len() / 2 by {
            assert(orig.drop_first()[j] == orig[j + 1]);
            assert(b < orig[j + 1].len() / 2);
        }
        lemma_prod_bind(orig.drop_first(), bound.drop_first(), b, c);
        let h = (1 - c) * orig[0][2 * b] + c * orig[0][2 * b + 1];
        let t = prod_on_line(orig.drop_first(), b, c);
        let hb = bound[0][b];
        let tb = prod_at(bound.drop_first(), b);
        assert(0 <= b < orig[0].len() / 2);
        assert(hb == h % prime());
        lemma_mul_mod_noop(hb, tb, prime());
        lemma_mod_twice(h, prime());
        lemma_mul_mod_noop(h, t, prime());
        assert((hb % prime()) == h % prime());
        assert(tb % prime() == t % prime()) by {
            lemma_prod_bind(orig.drop_first(), bound.drop_first(), b, c);
        }
        assert((hb * tb) % prime() == ((hb % prime()) * (tb % prime())) % prime()) by {
            lemma_mul_mod_noop(hb, tb, prime());
        }
        assert(((h % prime()) * (t % prime())) % prime() == (h * t) % prime()) by {
            lemma_mul_mod_noop(h, t, prime());
        }
    }
}

/// After binding every factor at `c`, the cube sum is congruent to the
/// round polynomial evaluated at `c`.
pub proof fn lemma_cube_bind(orig: Seq<Seq<int>>, bound: Seq<Seq<int>>, half: nat, c: int)
    requires
        bound.len() == orig.len(),
        forall|j: int| 0 <= j < orig.len() ==> #[trigger] bound[j] == bind_seq(orig[j], c),
        forall|j: int| 0 <= j < orig.len() ==> half <= (#[trigger] orig[j]).len() / 2,
    ensures
        cube_sum(bound, half) % prime() == line_sum(orig, half, c) % prime(),
    decreases half,
{
    if half > 0 {
        lemma_cube_bind(orig, bound, (half - 1) as nat, c);
        lemma_prod_bind(orig, bound, half - 1, c);
        let cs = cube_sum(bound, (half - 1) as nat);
        let ls = line_sum(orig, (half - 1) as nat, c);
        let pb = prod_at(bound, half - 1);
        let pl = prod_on_line(orig, half - 1, c);
        lemma_add_mod_noop(cs, pb, prime());
        lemma_add_mod_noop(ls, pl, prime());
    }
}

/// After binding every factor of every product at `c`, the combination's
/// sum over the halved cube is congruent to the combination's round
/// polynomial evaluated at `c`: the running sumcheck claim survives one
/// round.
pub proof fn lemma_comb_bind(
    orig: Seq<Seq<Seq<int>>>,
    bound: Seq<Seq<Seq<int>>>,
    half: nat,
    c: int,
)
    requires
        bound.len() == orig.len(),
        forall|i: int, j: int|
            0 <= i < orig.len() && 0 <= j < orig[i].len() ==> #[trigger] bound[i][j] == bind_seq(
                orig[i][j],
                c,
            ),
        forall|i: int| 0 <= i < orig.len() ==> (#[trigger] bound[i]).len() == orig[i].len(),
        forall|i: int, j: int|
            0 <= i < orig.len() && 0 <= j < orig[i].len() ==> half <= (#[trigger] orig[i][j]).len()
                / 2,
    ensures
        comb_sum(bound, half) % prime() == comb_line_sum(orig, half, c) % prime(),
    decreases orig.len(),
{
    if orig.len() > 0 {
        assert forall|i: int, j: int|
            0 <= i < orig.drop_first().len() && 0 <= j < orig.drop_first()[i].len() implies (
        #[trigger] bound.drop_first()[i][j]) == bind_seq(orig.drop_first()[i][j], c) by {
            assert(orig.drop_first()[i] == orig[i + 1]);
            assert(bound.drop_first()[i] == bound[i + 1]);
            assert(bound[i + 1][j] == bind_seq(orig[i + 1][j], c));
        }
        assert forall|i: int| 0 <= i < orig.drop_first().len() implies (
        #[trigger] bound.drop_first()[i]).len() == orig.drop_first()[i].len() by {
            assert(orig.drop_first()[i] == orig[i + 1]);
            assert(bound.drop_first()[i] == bound[i + 1]);
            assert(bound[i + 1].len() == orig[i + 1].len());
        }
        assert forall|i: int, j: int|
            0 <= i < orig.drop_first().len() && 0 <= j < orig.drop_first()[i].len() implies half <= (
        #[trigger] orig.drop_first()[i][j]).len() / 2 by {
            assert(orig.drop_first()[i] == orig[i + 1]);
            assert(half <= orig[i + 1][j].len() / 2);
        }
        lemma_comb_bind(orig.drop_first(), bound.drop_first(), half, c);
        assert forall|j: int| 0 <= j < orig[0].len() implies #[trigger] bound[0][j] == bind_seq(
            orig[0][j],
            c,
        ) by {}
        assert forall|j: int| 0 <= j < orig[0].len() implies half <= (#[trigger] orig[0][j]).len()
            / 2 by {}
        lemma_cube_bind(orig[0], bound[0], half, c);
        let cs = comb_sum(bound.drop_first(), half);
        let ls = comb_line_sum(orig.drop_first(), half, c);
        let cb = cube_sum(bound[0], half);
        let ll = line_sum(orig[0], half, c);
        lemma_add_mod_noop(cb, cs, prime());
        lemma_add_mod_noop(ll, ls, prime());
    }
}

/// Every table of every product, with its first variable bound at `c`.
pub open spec fn bind_products(products: Seq<Seq<Seq<int>>>, c: int) -> Seq<Seq<Seq<int>>> {
    products.map_values(|fs: Seq<Seq<int>>| fs.map_values(|t: Seq<int>| bind_seq(t, c)))
}

/// How `bind_products` reads entrywise.
pub proof fn lemma_bind_products_index(products: Seq<Seq<Seq<int>>>, c: int, i: int, j: int)
    requires
        0 <= i < products.len(),
        0 <= j < products[i].len(),
    ensures
        bind_products(products, c).len() == products.len(),
        bind_products(products, c)[i].len() == products[i].len(),
        bind_products(products, c)[i][j] == bind_seq(products[i][j], c),
{
}

/// All entries of a table are reduced residues.
pub open spec fn table_ok(t: Seq<int>) -> bool {
    forall|i: int| 0 <= i < t.len() ==> 0 <= #[trigger] t[i] < prime()
}

/// Binding a table at a boolean coordinate selects the even or odd half.
pub proof fn lemma_bind_bool(t: Seq<int>, c: int, b: int)
    requires
        c == 0 || c == 1,
        0 <= b < t.len() / 2,
    ensures
        bind_seq(t, c)[b] == (if c == 0 { t[2 * b] } else { t[2 * b + 1] }) % prime(),
{
}

/// On a cube index, the multilinear extension reproduces the table entry.
pub proof fn lemma_mle_eval_on_cube(t: Seq<int>, n: nat, b: int)
    requires
        t.len() == pow2(n),
        0 <= b < pow2(n),
    ensures
        mle_eval(t, point_of(b, n)) == t[b] % prime(),
    decreases n,
{
    vstd::arithmetic::power2::lemma_pow2_pos(n);
    if n == 0 {
        assert(point_of(b, n).len() == 0);
        assert(pow2(0) == 1) by {
            vstd::arithmetic::power2::lemma2_to64();
        }
        assert(b == 0);
    } else {
        let pt = point_of(b, n);
        let c = bit(b, 0);
        assert(pt[0] == c);
        vstd::arithmetic::power2::lemma_pow2_unfold(n);
        let t1 = bind_seq(t, c);
        let b1 = b / 2;
        assert(pow2(n) / 2 == pow2((n - 1) as nat)) by {
            assert(pow2(n) == 2 * pow2((n - 1) as nat));
        }
        assert(t1.len() == pow2((n - 1) as nat));
        assert(0 <= b1 < pow2((n - 1) as nat));
        assert(pt.drop_first() =~= point_of(b1, (n - 1) as nat)) by {
            assert forall|i: int| 0 <= i < n - 1 implies pt.drop_first()[i] == bit(b1, i as nat) by {
                assert(pt.drop_first()[i] == bit(b, (i + 1) as nat));
                lemma_bit_shift(b, i as nat);
            }
        }
        assert(c == 0 || c == 1) by {
            assert(pow2(0) == 1) by {
                vstd::arithmetic::power2::lemma2_to64();
            }
            lemma_mod_bound(b, 2);
        }
        assert(b == 2 * b1 + c) by {
            assert(pow2(0) == 1) by {
                vstd::arithmetic::power2::lemma2_to64();
            }
            assert(c == b % 2);
            vstd::arithmetic::div_mod::lemma_fundamental_div_mod(b, 2);
        }
        lemma_bind_bool(t, c, b1);
        lemma_mle_eval_on_cube(t1, (n - 1) as nat, b1);
        assert(mle_eval(t, pt) == mle_eval(t1, pt.drop_first()));
        assert(t1[b1] == t[b] % prime());
        lemma_mod_twice(t[b], prime());
    }
}

/// Bit `i+1` of `b` is bit `i` of `b / 2`.
pub proof fn lemma_bit_shift(b: int, i: nat)
    requires
        0 <= b,
    ensures
        bit(b, (i + 1) as nat) == bit(b / 2, i),
{
    vstd::arithmetic::power2::lemma_pow2_unfold((i + 1) as nat);
    vstd::arithmetic::power2::lemma_pow2_pos(i);
    let q = pow2(i) as int;
    assert(pow2((i + 1) as nat) == 2 * pow2(i));
    assert(b / (2 * q) == (b / 2) / q) by {
        vstd::arithmetic::div_mod::lemma_div_denominator(b, 2, q);
    }
}

/// The weighted sum of the first `len` table entries, each under the eq
/// indicator of `pt` at its own cube point.
pub open spec fn eq_weighted(t: Seq<int>, pt: Seq<int>, len: nat) -> int
    decreases len,
{
    if len == 0 {
        0
    } else {
        eq_weighted(t, pt, (len - 1) as nat) + eq_prod(pt, point_of(len - 1, pt.len() as nat))
            * t[len - 1]
    }
}

/// One step of the eq-weighted sum against one binding step: summing the
/// weighted pairs of the first `2 * len` entries is congruent to the
/// weighted sum of the first `len` bound entries.
proof fn lemma_eq_weighted_bind(t: Seq<int>, pt: Seq<int>, len: nat)
    requires
        pt.len() >= 1,
        2 * len <= t.len(),
    ensures
        eq_weighted(t, pt, 2 * len) % prime() == eq_weighted(
            bind_seq(t, pt[0]),
            pt.drop_first(),
            len,
        ) % prime(),
    decreases len,
{
    let c = pt[0];
    let bt = bind_seq(t, c);
    let ptr = pt.drop_first();
    let n = pt.len() as nat;
    if len == 0 {
    } else {
        lemma_eq_weighted_bind(t, pt, (len - 1) as nat);
        let b = len - 1;
        // the two cube points over `b` split off their first coordinate
        assert(point_of(2 * b, n)[0] == bit(2 * b, 0));
        assert(point_of(2 * b + 1, n)[0] == bit(2 * b + 1, 0));
        vstd::arithmetic::power2::lemma2_to64();
        assert(bit(2 * b, 0) == (2 * b) % 2) by {
            vstd::arithmetic::div_mod::lemma_div_basics(2 * b);
        }
        assert(bit(2 * b + 1, 0) == (2 * b + 1) % 2) by {
            vstd::arithmetic::div_mod::lemma_div_basics(2 * b + 1);
        }
        assert((2 * b) % 2 == 0) by {
            vstd::arithmetic::div_mod::lemma_mod_multiples_vanish(b, 0, 2);
        }
        assert((2 * b + 1) % 2 == 1) by {
            vstd::arithmetic::div_mod::lemma_mod_multiples_vanish(b, 1, 2);
        }
        assert(point_of(2 * b, n).drop_first() =~= point_of(b, (n - 1) as nat)) by {
            assert forall|i: int|
                0 <= i < n - 1 implies #[trigger] point_of(2 * b, n).drop_first()[i] == bit(
                b,
                i as nat,
            ) by {
                assert(point_of(2 * b, n).drop_first()[i] == bit(2 * b, (i + 1) as nat));
                lemma_bit_shift(2 * b, i as nat);
                assert((2 * b) / 2 == b) by {
                    vstd::arithmetic::div_mod::lemma_div_multiples_vanish(b, 2);
                }
            }
        }
        assert(point_of(2 * b + 1, n).drop_first() =~= point_of(b, (n - 1) as nat)) by {
            assert forall|i: int|
                0 <= i < n - 1 implies #[trigger] point_of(2 * b + 1, n).drop_first()[i] == bit(
                b,
                i as nat,
            ) by {
                assert(point_of(2 * b + 1, n).drop_first()[i] == bit(2 * b + 1, (i + 1) as nat));
                lemma_bit_shift(2 * b + 1, i as nat);
                assert((2 * b + 1) / 2 == b) by {
                    vstd::arithmetic::div_mod::lemma_div_multiples_vanish_fancy(b, 1, 2);
                }
            }
        }
        let ew = eq_prod(ptr, point_of(b, (n - 1) as nat));
        assert(eq_prod(pt, point_of(2 * b, n)) == eqf(c, 0) * ew);
        assert(eq_prod(pt, point_of(2 * b + 1, n)) == eqf(c, 1) * ew);
        assert(eqf(c, 0) == 1 - c) by (nonlinear_arith);
        assert(eqf(c, 1) == c) by (nonlinear_arith);
        // the weighted pair collapses to the weight of the bound entry
        let t0 = t[2 * b];
        let t1 = t[2 * b + 1];
        assert(((1 - c) * ew) * t0 + (c * ew) * t1 == ew * ((1 - c) * t0 + c * t1))
            by (nonlinear_arith);
        assert(bt[b] == ((1 - c) * t0 + c * t1) % prime());
        vstd::arithmetic::div_mod::lemma_mul_mod_noop_right(ew, (1 - c) * t0 + c * t1, prime());
        // fold both running sums one step
        let s2 = eq_weighted(t, pt, (2 * len - 2) as nat);
        let sb = eq_weighted(bt, ptr, (len - 1) as nat);
        assert(eq_weighted(t, pt, 2 * len) == s2 + ((1 - c) * ew) * t0 + (c * ew) * t1) by {
            assert(eq_weighted(t, pt, (2 * len - 1) as nat) == s2 + eq_prod(
                pt,
                point_of(2 * b, n),
            ) * t0);
        }
        assert(eq_weighted(bt, ptr, len) == sb + ew * bt[b]);
        lemma_add_mod_noop(s2, ew * ((1 - c) * t0 + c * t1), prime());
        lemma_add_mod_noop(sb, ew * bt[b], prime());
        assert((ew * bt[b]) % prime() == (ew * ((1 - c) * t0 + c * t1)) % prime());
    }
}

/// The multilinear extension is the eq-weighted sum of its table: the
/// identity behind reading a matrix slice as a sum of eq terms.
pub proof fn lemma_mle_eval_by_eq(t: Seq<int>, pt: Seq<int>, n: nat)
    requires
        t.len() == pow2(n),
        pt.len() == n,
    ensures
        mle_eval(t, pt) == eq_weighted(t, pt, pow2(n)) % prime(),
    decreases n,
{
    vstd::arithmetic::power2::lemma_pow2_pos(n);
    if n == 0 {
        vstd::arithmetic::power2::lemma2_to64();
        assert(eq_weighted(t, pt, 0) == 0);
        assert(eq_weighted(t, pt, 1) == 0 + eq_prod(pt, point_of(0, pt.len() as nat)) * t[0]);
        assert(point_of(0, pt.len() as nat) =~= point_of(0, 0));
        assert(eq_prod(pt, point_of(0, 0)) == 1);
        assert(1 * t[0] == t[0]) by (nonlinear_arith);
    } else {
        vstd::arithmetic::power2::lemma_pow2_unfold(n);
        let bt = bind_seq(t, pt[0]);
        assert(bt.len() == pow2((n - 1) as nat));
        lemma_mle_eval_by_eq(bt, pt.drop_first(), (n - 1) as nat);
        lemma_eq_weighted_bind(t, pt, pow2((n - 1) as nat));
        assert(2 * pow2((n - 1) as nat) == pow2(n));
    }
}

/// Evaluating at the all-zero point reads entry zero of the table.
pub proof fn lemma_mle_eval_zeros(t: Seq<int>, m: nat)
    requires
        t.len() >= pow2(m),
    ensures
        mle_eval(t, Seq::new(m, |i: int| 0int)) == t[0] % prime(),
    decreases m,
{
    vstd::arithmetic::power2::lemma_pow2_pos(m);
    if m == 0 {
        assert(Seq::new(0, |i: int| 0int).len() == 0);
    } else {
        let zs = Seq::new(m, |i: int| 0int);
        assert(zs[0] == 0);
        assert(zs.drop_first() =~= Seq::new((m - 1) as nat, |i: int| 0int));
        vstd::arithmetic::power2::lemma_pow2_unfold(m);
        vstd::arithmetic::power2::lemma_pow2_pos((m - 1) as nat);
        let bound = bind_seq(t, 0);
        assert(bound.len() == t.len() / 2);
        assert(bound.len() >= pow2((m - 1) as nat));
        assert(bound[0] == ((1 - 0) * t[0] + 0 * t[1]) % prime());
        assert((1 - 0) * t[0] + 0 * t[1] == t[0]) by (nonlinear_arith);
        lemma_mle_eval_zeros(bound, (m - 1) as nat);
        lemma_mod_twice(t[0], prime());
    }
}

/// Binding commutes with truncating the table to an even prefix.
pub proof fn lemma_bind_take(t: Seq<int>, c: int, m: nat)
    requires
        2 * m <= t.len(),
    ensures
        bind_seq(t, c).take(m as int) == bind_seq(t.take(2 * m as int), c),
{
    assert forall|b: int| 0 <= b < m implies bind_seq(t, c).take(m as int)[b] == bind_seq(
        t.take(2 * m as int),
        c,
    )[b] by {
        assert(t.take(2 * m as int)[2 * b] == t[2 * b]);
        assert(t.take(2 * m as int)[2 * b + 1] == t[2 * b + 1]);
    }
    assert(bind_seq(t, c).take(m as int) =~= bind_seq(t.take(2 * m as int), c));
}

/// Evaluating at a point whose tail is zero reads the polynomial of the
/// table's prefix: the extra variables select the low block.
pub proof fn lemma_padded_eval(z: Seq<int>, rv: Seq<int>, n: nat, k: nat)
    requires
        k <= n,
        z.len() == pow2(n),
        rv.len() == k,
    ensures
        mle_eval(z, rv + Seq::new((n - k) as nat, |i: int| 0int)) == mle_eval(
            z.take(pow2(k) as int),
            rv,
        ),
    decreases k,
{
    vstd::arithmetic::power2::lemma_pow2_pos(n);
    vstd::arithmetic::power2::lemma_pow2_pos(k);
    if k == 0 {
        assert(rv + Seq::new(n as nat, |i: int| 0int) =~= Seq::new(n, |i: int| 0int));
        lemma_mle_eval_zeros(z, n);
        vstd::arithmetic::power2::lemma2_to64();
        assert(z.take(1)[0] == z[0]);
        assert(mle_eval(z.take(pow2(0) as int), rv) == z.take(1)[0] % prime());
    } else {
        let pt = rv + Seq::new((n - k) as nat, |i: int| 0int);
        assert(pt[0] == rv[0]);
        assert(pt.drop_first() =~= rv.drop_first() + Seq::new((n - k) as nat, |i: int| 0int));
        vstd::arithmetic::power2::lemma_pow2_unfold(n);
        vstd::arithmetic::power2::lemma_pow2_unfold(k);
        let bound = bind_seq(z, rv[0]);
        assert(bound.len() == pow2((n - 1) as nat));
        lemma_padded_eval(bound, rv.drop_first(), (n - 1) as nat, (k - 1) as nat);
        assert((n - 1) - (k - 1) == n - k);
        if k < n {
            lemma_pow2_strictly_increases_local(k, n);
        }
        assert(2 * pow2((k - 1) as nat) == pow2(k));
        lemma_bind_take(z, rv[0], pow2((k - 1) as nat));
        assert(bound.take(pow2((k - 1) as nat) as int) == bind_seq(
            z.take(pow2(k) as int),
            rv[0],
        ));
        assert(mle_eval(z.take(pow2(k) as int), rv) == mle_eval(
            bind_seq(z.take(pow2(k) as int), rv[0]),
            rv.drop_first(),
        ));
    }
}

/// Strict monotonicity of powers of two, restated locally.
proof fn lemma_pow2_strictly_increases_local(a: nat, b: nat)
    requires
        a < b,
    ensures
        pow2(a) < pow2(b),
{
    vstd::arithmetic::power2::lemma_pow2_strictly_increases(a, b);
}

/// Compute a power of two that is known to fit the platform.
pub fn pow2_exec(e: usize) -> (r: usize)
    requires
        pow2(e as nat) <= usize::MAX,
    ensures
        r == pow2(e as nat),
{
    let mut i: usize = 0;
    let mut m: usize = 1;
    proof {
        vstd::arithmetic::power2::lemma2_to64();
    }
    while i < e
        invariant
            i <= e,
            m == pow2(i as nat),
            pow2(e as nat) <= usize::MAX,
        decreases e - i,
    {
        proof {
            vstd::arithmetic::power2::lemma_pow2_unfold((i + 1) as nat);
            if i + 1 < e {
                vstd::arithmetic::power2::lemma_pow2_strictly_increases((i + 1) as nat, e as nat);
            }
        }
        m = m * 2;
        i = i + 1;
    }
    m
}

/// The integer named by a little-endian byte string.
pub open spec fn le_int(s: Seq<u8>) -> int
    decreases s.len(),
{
    if s.len() == 0 {
        0
    } else {
        s[0] + 256 * le_int(s.drop_first())
    }
}

/// Byte `j` of the little-endian encoding of `v`.
pub open spec fn byte_of(v: int, j: int) -> u8 {
    (((v / pow2((8 * j) as nat) as int)) % 256) as u8
}

/// The `n`-byte little-endian encoding of `v`.
pub open spec fn le_bytes_of(v: int, n: nat) -> Seq<u8> {
    Seq::new(n as nat, |j: int| byte_of(v, j))
}

/// Reading back the little-endian encoding recovers the value, up to the
/// width of the encoding.
pub proof fn lemma_le_int_of_bytes(v: int, n: nat)
    requires
        0 <= v,
    ensures
        le_int(le_bytes_of(v, n)) == v % (pow2(8 * n) as int),
    decreases n,
{
    vstd::arithmetic::power2::lemma_pow2_pos(8 * n);
    if n == 0 {
        assert(pow2(0) == 1) by {
            vstd::arithmetic::power2::lemma2_to64();
        }
        assert(v % 1 == 0) by {
            vstd::arithmetic::div_mod::lemma_fundamental_div_mod(v, 1);
            vstd::arithmetic::div_mod::lemma_div_basics(v);
        }
    } else {
        let s = le_bytes_of(v, n);
        let v1 = v / 256;
        assert(v1 >= 0) by {
            vstd::arithmetic::div_mod::lemma_div_pos_is_pos(v, 256);
        }
        assert(s.drop_first() =~= le_bytes_of(v1, (n - 1) as nat)) by {
            assert forall|j: int| 0 <= j < n - 1 implies s.drop_first()[j] == byte_of(v1, j) by {
                assert(s.drop_first()[j] == byte_of(v, j + 1));
                vstd::arithmetic::power2::lemma_pow2_unfold((8 * (j + 1)) as nat);
                vstd::arithmetic::power2::lemma_pow2_pos((8 * j) as nat);
                assert(pow2((8 * (j + 1)) as nat) == 2 * pow2((8 * j + 7) as nat));
                assert(pow2((8 * j + 8) as nat) == 256 * pow2((8 * j) as nat)) by {
                    vstd::arithmetic::power2::lemma_pow2_adds(8, (8 * j) as nat);
                    assert(pow2(8) == 256) by {
                        vstd::arithmetic::power2::lemma2_to64();
                    }
                }
                assert(v / (256 * pow2((8 * j) as nat) as int) == (v / 256) / pow2(
                    (8 * j) as nat,
                ) as int) by {
                    vstd::arithmetic::power2::lemma_pow2_pos((8 * j) as nat);
                    vstd::arithmetic::div_mod::lemma_div_denominator(
                        v,
                        256,
                        pow2((8 * j) as nat) as int,
                    );
                }
            }
        }
        lemma_le_int_of_bytes(v1, (n - 1) as nat);
        assert(s[0] == byte_of(v, 0));
        assert(pow2(0) == 1) by {
            vstd::arithmetic::power2::lemma2_to64();
        }
        assert(v / 1 == v) by {
            vstd::arithmetic::div_mod::lemma_div_basics(v);
        }
        assert(s[0] == v % 256);
        let m1 = pow2((8 * (n - 1)) as nat) as int;
        assert(le_int(s) == v % 256 + 256 * (v1 % m1));
        assert(pow2(8 * n) == 256 * pow2((8 * (n - 1)) as nat)) by {
            vstd::arithmetic::power2::lemma_pow2_adds(8, (8 * (n - 1)) as nat);
            assert(pow2(8) == 256) by {
                vstd::arithmetic::power2::lemma2_to64();
            }
        }
        assert(v % (256 * m1) == 256 * ((v / 256) % m1) + v % 256) by {
            vstd::arithmetic::power2::lemma_pow2_pos((8 * (n - 1)) as nat);
            vstd::arithmetic::div_mod::lemma_mod_breakdown(v, 256, m1);
        }
    }
}

/// Re-encoding the value a byte string names gives back the string.
pub proof fn lemma_le_bytes_of_le_int(c: Seq<u8>)
    ensures
        le_bytes_of(le_int(c), c.len()) == c,
    decreases c.len(),
{
    let n = c.len();
    let v = le_int(c);
    lemma_le_int_bound(c);
    if n == 0 {
        assert(le_bytes_of(v, 0) =~= c);
    } else {
        let r = le_int(c.drop_first());
        lemma_le_int_bound(c.drop_first());
        assert(v == c[0] + 256 * r);
        assert(byte_of(v, 0) == c[0]) by {
            vstd::arithmetic::power2::lemma2_to64();
            vstd::arithmetic::div_mod::lemma_div_basics(v);
            vstd::arithmetic::div_mod::lemma_mod_multiples_vanish(r, c[0] as int, 256);
            vstd::arithmetic::div_mod::lemma_small_mod(c[0] as nat, 256);
        }
        assert(v / 256 == r) by {
            vstd::arithmetic::div_mod::lemma_div_multiples_vanish_fancy(r, c[0] as int, 256);
        }
        assert(le_bytes_of(v, n).drop_first() =~= le_bytes_of(v / 256, (n - 1) as nat)) by {
            assert forall|j: int|
                0 <= j < n - 1 implies le_bytes_of(v, n).drop_first()[j] == byte_of(v / 256, j) by {
                assert(le_bytes_of(v, n).drop_first()[j] == byte_of(v, j + 1));
                vstd::arithmetic::power2::lemma_pow2_pos((8 * j) as nat);
                assert(pow2((8 * j + 8) as nat) == 256 * pow2((8 * j) as nat)) by {
                    vstd::arithmetic::power2::lemma_pow2_adds(8, (8 * j) as nat);
                    assert(pow2(8) == 256) by {
                        vstd::arithmetic::power2::lemma2_to64();
                    }
                }
                assert(v / (256 * pow2((8 * j) as nat) as int) == (v / 256) / pow2(
                    (8 * j) as nat,
                ) as int) by {
                    vstd::arithmetic::div_mod::lemma_div_denominator(
                        v,
                        256,
                        pow2((8 * j) as nat) as int,
                    );
                }
            }
        }
        lemma_le_bytes_of_le_int(c.drop_first());
        assert(le_bytes_of(v, n) =~= c) by {
            assert(le_bytes_of(v, n)[0] == byte_of(v, 0));
            assert forall|j: int| 0 <= j < n implies le_bytes_of(v, n)[j] == c[j] by {
                if j > 0 {
                    assert(le_bytes_of(v, n).drop_first()[j - 1] == le_bytes_of(
                        v / 256,
                        (n - 1) as nat,
                    )[j - 1]);
                    assert(le_bytes_of(v / 256, (n - 1) as nat)[j - 1] == c.drop_first()[j - 1]);
                }
            }
        }
    }
}

/// Concatenation reads as the low part plus the shifted high part.
pub proof fn lemma_le_int_concat(a: Seq<u8>, b: Seq<u8>)
    ensures
        le_int(a + b) == le_int(a) + pow2(8 * a.len()) * le_int(b),
    decreases a.len(),
{
    if a.len() == 0 {
        assert(a + b =~= b);
        assert(pow2(0) == 1) by {
            vstd::arithmetic::power2::lemma2_to64();
        }
        assert(1 * le_int(b) == le_int(b)) by (nonlinear_arith);
    } else {
        assert((a + b).drop_first() =~= a.drop_first() + b);
        lemma_le_int_concat(a.drop_first(), b);
        let p1 = pow2(8 * (a.len() - 1) as nat) as int;
        let lb = le_int(b);
        assert(le_int(a + b) == a[0] + 256 * (le_int(a.drop_first()) + p1 * lb));
        assert(256 * (le_int(a.drop_first()) + p1 * lb) == 256 * le_int(a.drop_first()) + 256 * (p1
            * lb)) by (nonlinear_arith);
        assert(pow2(8 * a.len()) == 256 * p1) by {
            vstd::arithmetic::power2::lemma_pow2_adds(8, (8 * (a.len() - 1)) as nat);
            assert(pow2(8) == 256) by {
                vstd::arithmetic::power2::lemma2_to64();
            }
        }
        assert(256 * (p1 * lb) == (256 * p1) * lb) by (nonlinear_arith);
    }
}

/// A byte string names a value under the power of its width.
pub proof fn lemma_le_int_bound(s: Seq<u8>)
    ensures
        0 <= le_int(s) < pow2(8 * s.len()),
    decreases s.len(),
{
    if s.len() == 0 {
        assert(pow2(0) == 1) by {
            vstd::arithmetic::power2::lemma2_to64();
        }
    } else {
        lemma_le_int_bound(s.drop_first());
        let t = le_int(s.drop_first());
        let p1 = pow2(8 * (s.len() - 1) as nat) as int;
        assert(le_int(s) == s[0] + 256 * t);
        assert(256 * t <= 256 * (p1 - 1)) by (nonlinear_arith)
            requires
                t <= p1 - 1;
        assert(pow2(8 * s.len()) == 256 * p1) by {
            vstd::arithmetic::power2::lemma_pow2_adds(8, (8 * (s.len() - 1)) as nat);
            assert(pow2(8) == 256) by {
                vstd::arithmetic::power2::lemma2_to64();
            }
        }
        assert(0 <= 256 * t) by (nonlinear_arith)
            requires
                t >= 0;
    }
}

/// A reduced residue is unchanged by reduction.
pub proof fn lemma_already_reduced(x: int)
    requires
        0 <= x < prime(),
    ensures
        x % prime() == x,
{
    lemma_small_mod(x as nat, prime() as nat);
}

} // verus!
