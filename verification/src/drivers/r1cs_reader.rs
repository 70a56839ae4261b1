//! A reader that takes a constraint matrix straight from an R1CS
//! frontend and exposes it as a multilinear extension.

use vstd::prelude::*;
use vstd::arithmetic::power2::pow2;
use crate::data_structures::ml_extension::DenseMle;
use crate::data_structures::r1cs_reader::{entry_dot, rows_fit, slice_at, MatrixExtension};
use crate::error::Error;
use crate::field::{all_ok, prime, vals_of, Fe};

verus! {

/// One constraint matrix with the frontend's dimension bookkeeping.
pub struct R1CSReader {
    pub constraint: MatrixExtension,
    pub num_instance_variables: usize,
    pub num_witness_variables: usize,
    pub num_constraints: usize,
}

/// What it means for `wd` to be the width the reader pads to: the least
/// power of two at least `m`.
pub open spec fn is_pad_width(m: nat, wd: nat) -> bool {
    &&& exists|e: nat| wd == pow2(e)
    &&& m <= wd
    &&& (m <= 1 ==> wd == 1)
    &&& (m > 1 ==> wd < 2 * m)
}

/// The pad width of a count is unique.
pub proof fn lemma_pad_width_unique(m: nat, w1: nat, w2: nat)
    requires
        is_pad_width(m, w1),
        is_pad_width(m, w2),
    ensures
        w1 == w2,
{
    if m > 1 {
        let e1 = choose|e: nat| w1 == pow2(e);
        let e2 = choose|e: nat| w2 == pow2(e);
        if e1 < e2 {
            vstd::arithmetic::power2::lemma_pow2_unfold((e1 + 1) as nat);
            if e1 + 1 < e2 {
                vstd::arithmetic::power2::lemma_pow2_strictly_increases((e1 + 1) as nat, e2);
            }
            assert(w2 >= 2 * w1);
        }
        if e2 < e1 {
            vstd::arithmetic::power2::lemma_pow2_unfold((e2 + 1) as nat);
            if e2 + 1 < e1 {
                vstd::arithmetic::power2::lemma_pow2_strictly_increases((e2 + 1) as nat, e1);
            }
            assert(w1 >= 2 * w2);
        }
    }
}

/// The condition under which the reader wraps its input: consistent
/// dimension bookkeeping, a pad width that fits the platform, and every
/// column under that width.
pub open spec fn setup_input_ok(
    matrix: Seq<Vec<(Fe, usize)>>,
    num_instance_variables: nat,
    num_witness_variables: nat,
    num_constraints: nat,
) -> bool {
    &&& num_instance_variables + num_witness_variables + 1 == num_constraints
    &&& matrix.len() == num_constraints
    &&& exists|e: nat| num_constraints <= #[trigger] pow2(e) <= usize::MAX
    &&& forall|wd: nat| is_pad_width(num_constraints, wd) ==> rows_fit(matrix, wd)
}

impl R1CSReader {
    /// The wrapped matrix extension.
    pub open spec fn matrix(self) -> MatrixExtension {
        self.constraint
    }

    /// Structural invariant.
    pub open spec fn wf(self) -> bool {
        &&& self.matrix().wf()
        &&& self.matrix().nrows() == self.num_constraints
    }

    /// Wrap a frontend matrix of `num_constraints` rows as an extension
    /// over the square of the padded width.
    ///
    /// Succeeds exactly when the declared dimensions are consistent, a
    /// power-of-two width fits the platform, and every column is in
    /// range of the padded width.
    pub fn setup(
        matrix: Vec<Vec<(Fe, usize)>>,
        num_instance_variables: usize,
        num_witness_variables: usize,
        num_constraints: usize,
    ) -> (r: Result<R1CSReader, Error>)
        requires
            forall|x: int|
                0 <= x < matrix@.len() ==> all_ok(
                    (#[trigger] matrix@[x])@.map_values(|e: (Fe, usize)| e.0),
                ),
        ensures
            match r {
                Ok(rd) => {
                    &&& rd.wf()
                    &&& rd.num_instance_variables == num_instance_variables
                    &&& rd.num_witness_variables == num_witness_variables
                    &&& rd.num_constraints == num_constraints
                    &&& rd.matrix().nrows() == matrix@.len()
                    &&& forall|x: int|
                        0 <= x < matrix@.len() ==> #[trigger] rd.matrix().row_at(x) == matrix@[x]@
                    &&& setup_input_ok(
                        matrix@,
                        num_instance_variables as nat,
                        num_witness_variables as nat,
                        num_constraints as nat,
                    )
                },
                Err(e) => {
                    &&& e == Error::InvalidArg
                    &&& !setup_input_ok(
                        matrix@,
                        num_instance_variables as nat,
                        num_witness_variables as nat,
                        num_constraints as nat,
                    )
                },
            },
    {
        if num_instance_variables > usize::MAX - num_witness_variables
            || num_instance_variables + num_witness_variables > usize::MAX - 1
            || num_instance_variables + num_witness_variables + 1 != num_constraints {
            return Err(Error::InvalidArg);
        }
        if matrix.len() != num_constraints {
            return Err(Error::InvalidArg);
        }
        let n = match next_power_of_two(num_constraints) {
            Some(k) => k,
            None => {
                return Err(Error::InvalidArg);
            },
        };
        proof {
            assert(is_pad_width(num_constraints as nat, n as nat));
        }
        let ghost rows = matrix@;
        let constraint = match MatrixExtension::new(matrix, n) {
            Ok(m) => m,
            Err(e) => {
                proof {
                    assert(!rows_fit(rows, n as nat));
                }
                return Err(e);
            },
        };
        proof {
            let e0 = choose|e: nat| n as nat == pow2(e);
            assert(num_constraints as nat <= pow2(e0) <= usize::MAX);
            assert forall|wd: nat|
                is_pad_width(num_constraints as nat, wd) implies rows_fit(rows, wd) by {
                lemma_pad_width_unique(num_constraints as nat, wd, n as nat);
            }
        }
        Ok(
            R1CSReader {
                constraint,
                num_instance_variables,
                num_witness_variables,
                num_constraints,
            },
        )
    }

    /// The table of sums over the column block against `z`: entry `x` is
    /// `sum over y of M(x, y) * z(y)`, reduced.
    pub fn sum_over_y(&self, z: &DenseMle) -> (r: Result<DenseMle, Error>)
        requires
            self.wf(),
            z.wf(),
        ensures
            match r {
                Ok(t) => {
                    &&& z.nvars() == self.matrix().nvars()
                    &&& t.wf()
                    &&& t.nvars() == self.matrix().nvars()
                    &&& forall|x: int|
                        0 <= x < t@.len() ==> #[trigger] t@[x] == entry_dot(
                            self.matrix(),
                            z@,
                            x,
                            z@.len() as nat,
                        ) % prime()
                },
                Err(e) => e == Error::InvalidArg && z.nvars() != self.matrix().nvars(),
            },
    {
        if z.num_vars() != self.constraint.num_vars() {
            return Err(Error::InvalidArg);
        }
        Ok(self.constraint.sum_over_y(z))
    }

    /// The table of the extension with its row block evaluated at `r_x`:
    /// entry `y` is `sum over x of eq(r_x, x) * M(x, y)`, reduced.
    pub fn eval_on_x(&self, r_x: &Vec<Fe>) -> (r: Result<DenseMle, Error>)
        requires
            self.wf(),
            all_ok(r_x@),
        ensures
            match r {
                Ok(t) => {
                    &&& r_x@.len() == self.matrix().nvars()
                    &&& t.wf()
                    &&& t.nvars() == self.matrix().nvars()
                    &&& forall|y: int|
                        0 <= y < t@.len() ==> #[trigger] t@[y] == slice_at(
                            self.matrix(),
                            vals_of(r_x@),
                            y,
                            self.matrix().size(),
                        ) % prime()
                },
                Err(e) => e == Error::InvalidArg && r_x@.len() != self.matrix().nvars(),
            },
    {
        if r_x.len() != self.constraint.num_vars() {
            return Err(Error::InvalidArg);
        }
        Ok(self.constraint.eval_on_x(r_x))
    }
}

/// The least power of two at least `m`, when one fits the platform.
fn next_power_of_two(m: usize) -> (r: Option<usize>)
    ensures
        match r {
            Some(k) => is_pad_width(m as nat, k as nat),
            None => forall|e: nat| pow2(e) <= usize::MAX ==> pow2(e) < m,
        },
{
    let mut k: usize = 1;
    let mut e: usize = 0;
    proof {
        vstd::arithmetic::power2::lemma2_to64();
    }
    while k < m
        invariant
            k == pow2(e as nat),
            e < 64,
            forall|n2: nat| n2 < e ==> pow2(n2) < m,
        decreases 64 - e,
    {
        if k > usize::MAX / 2 {
            proof {
                vstd::arithmetic::power2::lemma_pow2_unfold((e + 1) as nat);
                assert forall|e2: nat| pow2(e2) <= usize::MAX implies pow2(e2) < m by {
                    if e2 <= e as nat {
                        if e2 < e as nat {
                            vstd::arithmetic::power2::lemma_pow2_strictly_increases(
                                e2,
                                e as nat,
                            );
                        }
                        assert(pow2(e2) <= k);
                    } else {
                        if e2 > e + 1 {
                            vstd::arithmetic::power2::lemma_pow2_strictly_increases(
                                (e + 1) as nat,
                                e2,
                            );
                        }
                        assert(pow2(e2) >= 2 * k);
                    }
                }
            }
            return None;
        }
        proof {
            vstd::arithmetic::power2::lemma2_to64();
            vstd::arithmetic::power2::lemma2_to64_rest();
            vstd::arithmetic::power2::lemma_pow2_unfold((e + 1) as nat);
            assert(e + 1 < 64) by {
                if e + 1 >= 64 {
                    assert(e as nat == 63);
                    assert(pow2(63) == 0x8000000000000000);
                }
            }
            assert forall|n2: nat| n2 < e + 1 implies pow2(n2) < m by {
                if n2 < e as nat {
                } else {
                    assert(n2 == e as nat);
                }
            }
        }
        k = k * 2;
        e = e + 1;
    }
    proof {
        if m > 1 {
            assert(e >= 1) by {
                if e == 0 {
                    assert(k == 1);
                }
            }
            assert(pow2((e - 1) as nat) < m);
            vstd::arithmetic::power2::lemma_pow2_unfold(e as nat);
        }
    }
    Some(k)
}

} // verus!
