//! The indexer: from the three sparse matrices and the assignment to the
//! prover and verifier keys.

use vstd::prelude::*;
use vstd::arithmetic::power2::{lemma_pow2_strictly_increases, pow2};
use crate::ahp::AHPForSpartan;
use crate::data_structures::ml_extension::{copy_table, log2_exact, DenseMle};
use crate::data_structures::r1cs_reader::{rows_fit, MatrixExtension};
use crate::error::Error;
use crate::field::{all_ok, Fe};

verus! {

/// The prover's key: the three matrix extensions, the assignment, and
/// the two size logarithms.
pub struct IndexPK {
    pub matrix_a: MatrixExtension,
    pub matrix_b: MatrixExtension,
    pub matrix_c: MatrixExtension,
    pub v: Vec<Fe>,
    pub w: Vec<Fe>,
    pub log_n: usize,
    pub log_v: usize,
}

/// The verifier's key: the prover's key without the private witness.
pub struct IndexVK {
    pub matrix_a: MatrixExtension,
    pub matrix_b: MatrixExtension,
    pub matrix_c: MatrixExtension,
    pub v: Vec<Fe>,
    pub log_n: usize,
    pub log_v: usize,
}

impl IndexPK {
    /// Structural invariant of a prover key.
    pub open spec fn wf(self) -> bool {
        &&& 1 <= self.log_n <= 30
        &&& self.log_v <= self.log_n
        &&& pow2(self.log_n as nat) <= usize::MAX
        &&& self.matrix_a.wf() && self.matrix_a.nvars() == self.log_n
        &&& self.matrix_b.wf() && self.matrix_b.nvars() == self.log_n
        &&& self.matrix_c.wf() && self.matrix_c.nvars() == self.log_n
        &&& self.v@.len() == pow2(self.log_v as nat)
        &&& self.v@.len() + self.w@.len() == pow2(self.log_n as nat)
        &&& all_ok(self.v@)
        &&& all_ok(self.w@)
    }

    /// Project the verifier's key: the same data with the private
    /// witness dropped.
    pub fn vk(&self) -> (r: IndexVK)
        ensures
            r.matrix_a.nvars() == self.matrix_a.nvars(),
            r.matrix_a.nrows() == self.matrix_a.nrows(),
            r.matrix_a.wf() == self.matrix_a.wf(),
            forall|x: int, y: int| #[trigger] r.matrix_a.entry(x, y) == self.matrix_a.entry(x, y),
            forall|x: int|
                0 <= x < self.matrix_a.nrows() ==> #[trigger] r.matrix_a.row_at(x)
                    == self.matrix_a.row_at(x),
            r.matrix_b.nvars() == self.matrix_b.nvars(),
            r.matrix_b.nrows() == self.matrix_b.nrows(),
            r.matrix_b.wf() == self.matrix_b.wf(),
            forall|x: int, y: int| #[trigger] r.matrix_b.entry(x, y) == self.matrix_b.entry(x, y),
            forall|x: int|
                0 <= x < self.matrix_b.nrows() ==> #[trigger] r.matrix_b.row_at(x)
                    == self.matrix_b.row_at(x),
            r.matrix_c.nvars() == self.matrix_c.nvars(),
            r.matrix_c.nrows() == self.matrix_c.nrows(),
            r.matrix_c.wf() == self.matrix_c.wf(),
            forall|x: int, y: int| #[trigger] r.matrix_c.entry(x, y) == self.matrix_c.entry(x, y),
            forall|x: int|
                0 <= x < self.matrix_c.nrows() ==> #[trigger] r.matrix_c.row_at(x)
                    == self.matrix_c.row_at(x),
            r.v@ == self.v@,
            r.log_n == self.log_n,
            r.log_v == self.log_v,
            self.wf() ==> r.wf(),
    {
        IndexVK {
            matrix_a: self.matrix_a.duplicate(),
            matrix_b: self.matrix_b.duplicate(),
            matrix_c: self.matrix_c.duplicate(),
            v: copy_table(&self.v),
            log_n: self.log_n,
            log_v: self.log_v,
        }
    }
}

impl IndexVK {
    /// Structural invariant of a verifier key.
    pub open spec fn wf(self) -> bool {
        &&& 1 <= self.log_n <= 30
        &&& self.log_v <= self.log_n
        &&& pow2(self.log_n as nat) <= usize::MAX
        &&& self.matrix_a.wf() && self.matrix_a.nvars() == self.log_n
        &&& self.matrix_b.wf() && self.matrix_b.nvars() == self.log_n
        &&& self.matrix_c.wf() && self.matrix_c.nvars() == self.log_n
        &&& self.v@.len() == pow2(self.log_v as nat)
        &&& all_ok(self.v@)
    }
}

/// The condition under which indexing succeeds: the assignment sizes
/// are powers of two in the supported range, and the three matrices fit
/// the square of the assignment length.
pub open spec fn index_input_ok(
    matrix_a: Seq<Vec<(Fe, usize)>>,
    matrix_b: Seq<Vec<(Fe, usize)>>,
    matrix_c: Seq<Vec<(Fe, usize)>>,
    v: Seq<Fe>,
    w: Seq<Fe>,
) -> bool {
    let n = v.len() + w.len();
    &&& w.len() <= usize::MAX - v.len()
    &&& exists|k: nat| n == pow2(k)
    &&& exists|k: nat| v.len() == pow2(k)
    &&& 2 <= n <= 0x40000000
    &&& rows_fit(matrix_a, n)
    &&& rows_fit(matrix_b, n)
    &&& rows_fit(matrix_c, n)
}

impl AHPForSpartan {
    /// Build the prover's key from the sparse matrices and the
    /// assignment.
    ///
    /// Succeeds exactly when the assignment length and the public part
    /// are powers of two within the supported range and every matrix
    /// fits the square of that size; rejected otherwise.
    pub fn index(
        matrix_a: Vec<Vec<(Fe, usize)>>,
        matrix_b: Vec<Vec<(Fe, usize)>>,
        matrix_c: Vec<Vec<(Fe, usize)>>,
        v: Vec<Fe>,
        w: Vec<Fe>,
    ) -> (r: Result<IndexPK, Error>)
        requires
            all_ok(v@),
            all_ok(w@),
            forall|x: int|
                0 <= x < matrix_a@.len() ==> all_ok(
                    (#[trigger] matrix_a@[x])@.map_values(|e: (Fe, usize)| e.0),
                ),
            forall|x: int|
                0 <= x < matrix_b@.len() ==> all_ok(
                    (#[trigger] matrix_b@[x])@.map_values(|e: (Fe, usize)| e.0),
                ),
            forall|x: int|
                0 <= x < matrix_c@.len() ==> all_ok(
                    (#[trigger] matrix_c@[x])@.map_values(|e: (Fe, usize)| e.0),
                ),
        ensures
            match r {
                Ok(pk) => {
                    &&& index_input_ok(matrix_a@, matrix_b@, matrix_c@, v@, w@)
                    &&& pk.wf()
                    &&& pk.v@ == v@
                    &&& pk.w@ == w@
                    &&& v@.len() + w@.len() == pow2(pk.log_n as nat)
                    &&& v@.len() == pow2(pk.log_v as nat)
                    &&& pk.matrix_a.nrows() == matrix_a@.len()
                    &&& pk.matrix_b.nrows() == matrix_b@.len()
                    &&& pk.matrix_c.nrows() == matrix_c@.len()
                    &&& forall|x: int|
                        0 <= x < matrix_a@.len() ==> #[trigger] pk.matrix_a.row_at(x)
                            == matrix_a@[x]@
                    &&& forall|x: int|
                        0 <= x < matrix_b@.len() ==> #[trigger] pk.matrix_b.row_at(x)
                            == matrix_b@[x]@
                    &&& forall|x: int|
                        0 <= x < matrix_c@.len() ==> #[trigger] pk.matrix_c.row_at(x)
                            == matrix_c@[x]@
                },
                Err(e) => {
                    &&& e == Error::InvalidArg
                    &&& !index_input_ok(matrix_a@, matrix_b@, matrix_c@, v@, w@)
                },
            },
    {
        if w.len() > usize::MAX - v.len() {
            return Err(Error::InvalidArg);
        }
        let n = v.len() + w.len();
        let log_n = match log2_exact(n) {
            Some(k) => k,
            None => {
                return Err(Error::InvalidArg);
            },
        };
        let log_v = match log2_exact(v.len()) {
            Some(k) => k,
            None => {
                return Err(Error::InvalidArg);
            },
        };
        if log_n == 0 || log_n > 30 {
            proof {
                vstd::arithmetic::power2::lemma2_to64();
                if log_n == 0 {
                    assert(n < 2);
                } else {
                    lemma_pow2_strictly_increases(30, log_n as nat);
                    assert(n > 0x40000000);
                }
            }
            return Err(Error::InvalidArg);
        }
        proof {
            if log_v > log_n {
                lemma_pow2_strictly_increases(log_n as nat, log_v as nat);
            }
            vstd::arithmetic::power2::lemma2_to64();
            if (log_n as nat) < 30 {
                lemma_pow2_strictly_increases(log_n as nat, 30);
            }
            assert(2 <= n <= 0x40000000) by {
                if log_n > 1 {
                    lemma_pow2_strictly_increases(1, log_n as nat);
                }
            }
        }
        let matrix_a = match MatrixExtension::new(matrix_a, n) {
            Ok(m) => m,
            Err(e) => {
                return Err(e);
            },
        };
        let matrix_b = match MatrixExtension::new(matrix_b, n) {
            Ok(m) => m,
            Err(e) => {
                return Err(e);
            },
        };
        let matrix_c = match MatrixExtension::new(matrix_c, n) {
            Ok(m) => m,
            Err(e) => {
                return Err(e);
            },
        };
        proof {
            lemma_pow2_injective(matrix_a.nvars(), log_n as nat);
            lemma_pow2_injective(matrix_b.nvars(), log_n as nat);
            lemma_pow2_injective(matrix_c.nvars(), log_n as nat);
        }
        Ok(IndexPK { matrix_a, matrix_b, matrix_c, v, w, log_n, log_v })
    }
}

/// Powers of two agree only on equal exponents.
proof fn lemma_pow2_injective(a: nat, b: nat)
    requires
        pow2(a) == pow2(b),
    ensures
        a == b,
{
    if a < b {
        lemma_pow2_strictly_increases(a, b);
    }
    if b < a {
        lemma_pow2_strictly_increases(b, a);
    }
}

} // verus!
