//! Dense multilinear extensions: a polynomial on `n` variables stored as
//! its length-`2^n` evaluation table over the Boolean hypercube.

use vstd::prelude::*;
use vstd::arithmetic::div_mod::{lemma_add_mod_noop, lemma_mul_mod_noop_left};
use vstd::arithmetic::power2::{lemma_pow2_pos, lemma_pow2_strictly_increases, lemma_pow2_unfold, pow2};
use crate::algebra::{bind_seq, lemma_already_reduced, mle_eval, table_sum};
use crate::error::Error;
use crate::field::{
    all_ok, fadd, fe_add, fe_mul, fe_sub, fmul, lemma_vals_of_index, lemma_vals_of_len, prime,
    vals_of, Fe,
};

verus! {

broadcast use crate::field::lemma_vals_of_index, crate::field::lemma_vals_of_len;

/// A dense multilinear extension: the evaluation table of a multilinear
/// polynomial over the Boolean hypercube, low variable in the low bit.
pub struct DenseMle {
    evals: Vec<Fe>,
    nv: usize,
}

impl View for DenseMle {
    type V = Seq<int>;

    /// The table of integer values this polynomial takes on the cube.
    closed spec fn view(&self) -> Seq<int> {
        vals_of(self.evals@)
    }
}

impl DenseMle {
    /// The arity of the polynomial.
    pub closed spec fn nvars(self) -> nat {
        self.nv as nat
    }

    /// Well-formed: a full table of canonical entries.
    pub open spec fn wf(self) -> bool {
        &&& self@.len() == pow2(self.nvars())
        &&& forall|i: int| 0 <= i < self@.len() ==> 0 <= #[trigger] self@[i] < prime()
    }

    /// Well-formedness seen from the element side.
    proof fn lemma_wf_elements(self)
        requires
            self.wf(),
        ensures
            all_ok(self.evals@),
            self.evals@.len() == pow2(self.nvars()),
    {
        assert forall|i: int| 0 <= i < self.evals@.len() implies (
        #[trigger] self.evals@[i]).ok() by {
            lemma_vals_of_index(self.evals@, i);
            assert(self@[i] == self.evals@[i].val());
        }
    }

    /// Wrap a table whose length is already known to be a power of two.
    pub(crate) fn new_unchecked(evals: Vec<Fe>, nv: usize) -> (r: DenseMle)
        requires
            evals@.len() == pow2(nv as nat),
            all_ok(evals@),
        ensures
            r.wf(),
            r.nvars() == nv,
            r@ == vals_of(evals@),
    {
        let r = DenseMle { evals, nv };
        proof {
            assert forall|i: int| 0 <= i < r@.len() implies 0 <= #[trigger] r@[i] < prime() by {
                lemma_vals_of_index(r.evals@, i);
                assert(r.evals@[i].ok());
            }
        }
        r
    }

    /// Build from an evaluation table; rejected unless the length is a
    /// power of two.
    pub fn from_table(evals: Vec<Fe>) -> (r: Result<DenseMle, Error>)
        requires
            all_ok(evals@),
        ensures
            match r {
                Ok(m) => {
                    &&& m.wf()
                    &&& m@ == vals_of(evals@)
                    &&& evals@.len() == pow2(m.nvars())
                },
                Err(e) => {
                    &&& e == Error::InvalidArg
                    &&& forall|n: nat| evals@.len() != pow2(n)
                },
            },
    {
        match log2_exact(evals.len()) {
            Some(nv) => Ok(DenseMle::new_unchecked(evals, nv)),
            None => Err(Error::InvalidArg),
        }
    }

    /// The arity.
    pub fn num_vars(&self) -> (r: usize)
        ensures
            r == self.nvars(),
    {
        self.nv
    }

    /// The number of table entries.
    pub fn table_len(&self) -> (r: usize)
        ensures
            r == self@.len(),
    {
        self.evals.len()
    }

    /// The table entry at `i`.
    pub fn entry(&self, i: usize) -> (r: Fe)
        requires
            i < self@.len(),
        ensures
            r.val() == self@[i as int],
            self.wf() ==> r.ok(),
    {
        proof {
            lemma_vals_of_index(self.evals@, i as int);
        }
        self.evals[i]
    }

    /// Bind the first variable to `c`: the table halves and the arity
    /// drops by one.
    pub fn bind_first(&mut self, c: &Fe)
        requires
            old(self).wf(),
            old(self).nvars() > 0,
            c.ok(),
        ensures
            final(self).wf(),
            final(self).nvars() == old(self).nvars() - 1,
            final(self)@ == bind_seq(old(self)@, c.val()),
    {
        proof {
            self.lemma_wf_elements();
            lemma_pow2_unfold(self.nv as nat);
        }
        let bound = bind_table(&self.evals, c);
        let new_nv = self.nv - 1;
        proof {
            assert(bind_seq(self@, c.val()).len() == pow2(self.nv as nat) / 2);
            assert(pow2(self.nv as nat) / 2 == pow2((self.nv - 1) as nat));
        }
        self.evals = bound;
        self.nv = new_nv;
        proof {
            assert forall|i: int| 0 <= i < self@.len() implies 0 <= #[trigger] self@[i] < prime() by {
                lemma_vals_of_index(self.evals@, i);
                assert(self.evals@[i].ok());
            }
        }
    }

    /// Evaluate the polynomial at a point, by binding one variable at a
    /// time.
    pub fn eval_at(&self, point: &Vec<Fe>) -> (r: Fe)
        requires
            self.wf(),
            point@.len() == self.nvars(),
            all_ok(point@),
        ensures
            r.ok(),
            r.val() == mle_eval(self@, vals_of(point@)),
    {
        let ghost pts = vals_of(point@);
        proof {
            self.lemma_wf_elements();
        }
        let n = self.nv;
        let mut table = copy_table(&self.evals);
        proof {
            assert(pts.skip(0) =~= pts);
            assert(vals_of(table@) == self@);
        }
        let mut i: usize = 0;
        while i < n
            invariant
                i <= n,
                all_ok(table@),
                table@.len() == pow2((n - i) as nat),
                pts.len() == n,
                all_ok(point@),
                point@.len() == n,
                pts == vals_of(point@),
                mle_eval(self@, pts) == mle_eval(vals_of(table@), pts.skip(i as int)),
            decreases n - i,
        {
            let ghost pre = vals_of(table@);
            proof {
                lemma_pow2_unfold((n - i) as nat);
                lemma_vals_of_index(point@, i as int);
                assert(pts.skip(i as int)[0] == pts[i as int]);
                assert(pts[i as int] == point@[i as int].val());
                assert(pts.skip(i as int).drop_first() =~= pts.skip(i as int + 1));
            }
            table = bind_table(&table, &point[i]);
            proof {
                assert(vals_of(table@) == bind_seq(pre, pts[i as int]));
                assert(mle_eval(pre, pts.skip(i as int)) == mle_eval(
                    bind_seq(pre, pts.skip(i as int)[0]),
                    pts.skip(i as int).drop_first(),
                ));
                assert(pow2((n - i) as nat) / 2 == pow2((n - i - 1) as nat));
                assert(table@.len() == pre.len() / 2);
            }
            i = i + 1;
        }
        proof {
            lemma_pow2_pos(0);
            vstd::arithmetic::power2::lemma2_to64();
            assert(pts.skip(n as int).len() == 0);
            assert(mle_eval(vals_of(table@), pts.skip(n as int)) == vals_of(table@)[0] % prime());
            lemma_vals_of_index(table@, 0);
            assert(table@[0].ok());
            lemma_already_reduced(vals_of(table@)[0]);
        }
        table[0]
    }

    /// The sum of the table over the whole cube.
    pub fn sum_over_cube(&self) -> (r: Fe)
        requires
            self.wf(),
        ensures
            r.ok(),
            r.val() == table_sum(self@, self@.len() as nat) % prime(),
    {
        let mut acc = Fe::zero();
        let mut i: usize = 0;
        proof {
            assert(table_sum(self@, 0) == 0);
            assert(0int % prime() == 0);
        }
        let n = self.evals.len();
        while i < n
            invariant
                i <= n,
                n == self@.len(),
                n == self.evals@.len(),
                self.wf(),
                acc.ok(),
                acc.val() == table_sum(self@, i as nat) % prime(),
            decreases n - i,
        {
            let ghost s = table_sum(self@, i as nat);
            proof {
                self.lemma_wf_elements();
                lemma_vals_of_index(self.evals@, i as int);
            }
            acc = fe_add(&acc, &self.evals[i]);
            proof {
                lemma_already_reduced(self@[i as int]);
                lemma_add_mod_noop(s, self@[i as int], prime());
                assert(table_sum(self@, (i + 1) as nat) == s + self@[i as int]);
            }
            i = i + 1;
        }
        acc
    }

    /// The pointwise additive inverse.
    pub fn negate(&self) -> (r: DenseMle)
        requires
            self.wf(),
        ensures
            r.wf(),
            r.nvars() == self.nvars(),
            r@.len() == self@.len(),
            forall|i: int| 0 <= i < self@.len() ==> r@[i] == (0 - #[trigger] self@[i]) % prime(),
    {
        let z = Fe::zero();
        let mut out: Vec<Fe> = Vec::new();
        let n = self.evals.len();
        let mut i: usize = 0;
        while i < n
            invariant
                i <= n,
                n == self@.len(),
                n == self.evals@.len(),
                self.wf(),
                out@.len() == i,
                z.ok(),
                z.val() == 0,
                all_ok(out@),
                forall|j: int|
                    0 <= j < i ==> (#[trigger] out@[j]).val() == (0 - self@[j]) % prime(),
            decreases n - i,
        {
            proof {
                self.lemma_wf_elements();
                lemma_vals_of_index(self.evals@, i as int);
            }
            let e = fe_sub(&z, &self.evals[i]);
            out.push(e);
            i = i + 1;
        }
        let r = DenseMle::new_unchecked(out, self.nv);
        proof {
            assert forall|i: int| 0 <= i < self@.len() implies r@[i] == (0 - #[trigger] self@[i])
                % prime() by {
                lemma_vals_of_index(r.evals@, i);
            }
        }
        r
    }

    /// The pointwise product with the scalar `c`.
    pub fn multiply(&self, c: &Fe) -> (r: DenseMle)
        requires
            self.wf(),
            c.ok(),
        ensures
            r.wf(),
            r.nvars() == self.nvars(),
            r@.len() == self@.len(),
            forall|i: int| 0 <= i < self@.len() ==> r@[i] == fmul(c.val(), #[trigger] self@[i]),
    {
        let mut out: Vec<Fe> = Vec::new();
        let n = self.evals.len();
        let mut i: usize = 0;
        while i < n
            invariant
                i <= n,
                n == self@.len(),
                n == self.evals@.len(),
                self.wf(),
                c.ok(),
                out@.len() == i,
                all_ok(out@),
                forall|j: int|
                    0 <= j < i ==> (#[trigger] out@[j]).val() == fmul(c.val(), self@[j]),
            decreases n - i,
        {
            proof {
                self.lemma_wf_elements();
                lemma_vals_of_index(self.evals@, i as int);
            }
            let e = fe_mul(c, &self.evals[i]);
            out.push(e);
            i = i + 1;
        }
        let r = DenseMle::new_unchecked(out, self.nv);
        proof {
            assert forall|i: int| 0 <= i < self@.len() implies r@[i] == fmul(
                c.val(),
                #[trigger] self@[i],
            ) by {
                lemma_vals_of_index(r.evals@, i);
            }
        }
        r
    }

    /// The underlying evaluation table.
    pub fn table(&self) -> (r: &Vec<Fe>)
        ensures
            vals_of(r@) == self@,
            r@.len() == self@.len(),
            self.wf() ==> all_ok(r@),
    {
        proof {
            if self.wf() {
                self.lemma_wf_elements();
            }
        }
        &self.evals
    }

    /// A copy of this polynomial.
    pub fn duplicate(&self) -> (r: DenseMle)
        ensures
            r@ == self@,
            r.nvars() == self.nvars(),
            r.wf() == self.wf(),
    {
        DenseMle { evals: copy_table(&self.evals), nv: self.nv }
    }
}

/// Copy a table of field elements.
pub(crate) fn copy_table(t: &Vec<Fe>) -> (r: Vec<Fe>)
    ensures
        r@ == t@,
{
    let mut out: Vec<Fe> = Vec::new();
    let n = t.len();
    let mut i: usize = 0;
    while i < n
        invariant
            i <= n,
            n == t@.len(),
            out@ == t@.take(i as int),
        decreases n - i,
    {
        out.push(t[i]);
        proof {
            assert(out@ =~= t@.take(i as int + 1));
        }
        i = i + 1;
    }
    proof {
        assert(out@ =~= t@);
    }
    out
}

/// Halve a table by folding its first variable to the coordinate `c`.
pub(crate) fn bind_table(t: &Vec<Fe>, c: &Fe) -> (r: Vec<Fe>)
    requires
        all_ok(t@),
        c.ok(),
    ensures
        all_ok(r@),
        vals_of(r@) == bind_seq(vals_of(t@), c.val()),
{
    let one = Fe::one();
    let s = fe_sub(&one, c);
    let n = t.len();
    let half = n / 2;
    let mut out: Vec<Fe> = Vec::new();
    let mut b: usize = 0;
    while b < half
        invariant
            b <= half,
            n == t@.len(),
            half == n / 2,
            all_ok(t@),
            c.ok(),
            s.ok(),
            s.val() == (1 - c.val()) % prime(),
            out@.len() == b,
            all_ok(out@),
            forall|j: int|
                0 <= j < b ==> (#[trigger] out@[j]).val() == ((1 - c.val()) * t@[2 * j].val()
                    + c.val() * t@[2 * j + 1].val()) % prime(),
        decreases half - b,
    {
        let t0 = t[2 * b];
        let t1 = t[2 * b + 1];
        let m0 = fe_mul(&s, &t0);
        let m1 = fe_mul(c, &t1);
        let e = fe_add(&m0, &m1);
        proof {
            let cv = c.val();
            let v0 = t0.val();
            let v1 = t1.val();
            lemma_mul_mod_noop_left(1 - cv, v0, prime());
            assert(m0.val() == ((1 - cv) * v0) % prime());
            lemma_add_mod_noop((1 - cv) * v0, cv * v1, prime());
            assert(e.val() == ((1 - cv) * v0 + cv * v1) % prime());
        }
        out.push(e);
        b = b + 1;
    }
    proof {
        assert forall|j: int| 0 <= j < vals_of(out@).len() implies vals_of(out@)[j] == bind_seq(
            vals_of(t@),
            c.val(),
        )[j] by {
            lemma_vals_of_index(out@, j);
            lemma_vals_of_index(t@, 2 * j);
            lemma_vals_of_index(t@, 2 * j + 1);
        }
        assert(vals_of(out@) =~= bind_seq(vals_of(t@), c.val()));
    }
    out
}

/// Find `k` with `len == 2^k`, if any.
pub(crate) fn log2_exact(len: usize) -> (r: Option<usize>)
    ensures
        match r {
            Some(k) => len == pow2(k as nat),
            None => forall|n: nat| len != pow2(n),
        },
{
    let mut k: usize = 0;
    let mut m: usize = 1;
    proof {
        vstd::arithmetic::power2::lemma2_to64();
        vstd::arithmetic::power2::lemma2_to64_rest();
    }
    while m < len
        invariant
            m == pow2(k as nat),
            k < 64,
            forall|n: nat| n < k ==> pow2(n) < len,
        decreases 64 - k,
    {
        if m > usize::MAX / 2 {
            proof {
                lemma_pow2_unfold((k + 1) as nat);
                assert forall|n: nat| len != pow2(n) by {
                    if n < k as nat {
                        assert(pow2(n) < len);
                    } else if n == k as nat {
                        assert(pow2(n) == m < len);
                    } else {
                        if n > k + 1 {
                            lemma_pow2_strictly_increases((k + 1) as nat, n);
                        }
                        assert(pow2((k + 1) as nat) == 2 * m);
                        assert(2 * m > usize::MAX >= len);
                    }
                }
            }
            return None;
        }
        proof {
            vstd::arithmetic::power2::lemma2_to64();
            vstd::arithmetic::power2::lemma2_to64_rest();
            lemma_pow2_unfold((k + 1) as nat);
            assert forall|n: nat| n < k + 1 implies pow2(n) < len by {
                if n < k as nat {
                } else {
                    assert(n == k as nat);
                }
            }
            assert(k + 1 < 64) by {
                if k + 1 >= 64 {
                    assert(k as nat == 63);
                    assert(pow2(63) == 0x8000000000000000);
                    assert(m > usize::MAX / 2);
                }
            }
        }
        m = m * 2;
        k = k + 1;
    }
    if m == len {
        Some(k)
    } else {
        proof {
            assert forall|n: nat| len != pow2(n) by {
                if n < k as nat {
                    assert(pow2(n) < len);
                } else {
                    if n > k as nat {
                        lemma_pow2_strictly_increases(k as nat, n);
                    }
                }
            }
        }
        None
    }
}

} // verus!
