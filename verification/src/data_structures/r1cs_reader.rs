//! Sparse matrices over the scalar field, read as multilinear extensions.
//!
//! A matrix of size `N x N`, `N = 2^n`, is stored as its non-empty rows,
//! each a list of `(value, column)` pairs. Its extension is the multilinear
//! polynomial on `2n` variables agreeing with the matrix on the cube. Two
//! specialised evaluations drive the argument: the table of row sums
//! against a witness polynomial, and the table of one partially evaluated
//! slice.

use vstd::prelude::*;
use vstd::arithmetic::div_mod::{lemma_add_mod_noop, lemma_mul_mod_noop_left};
use vstd::arithmetic::mul::lemma_mul_is_distributive_add;
use vstd::arithmetic::power2::pow2;
use crate::algebra::{eq_prod, point_of};
use crate::data_structures::eq::eq_table;
use crate::data_structures::ml_extension::DenseMle;
use crate::error::Error;
use crate::field::{all_ok, fe_add, fe_mul, lemma_vals_of_index, prime, vals_of, Fe};

verus! {

/// The value stored at column `y` of a sparse row: the sum of the entries
/// that name that column (zero when none does).
pub open spec fn row_lookup(row: Seq<(Fe, usize)>, y: int) -> int
    decreases row.len(),
{
    if row.len() == 0 {
        0
    } else {
        (if row[0].1 == y {
            row[0].0.val()
        } else {
            0
        }) + row_lookup(row.drop_first(), y)
    }
}

/// The inner product of a sparse row with a dense table, entry by entry.
pub open spec fn row_dot(row: Seq<(Fe, usize)>, z: Seq<int>) -> int
    decreases row.len(),
{
    if row.len() == 0 {
        0
    } else {
        row[0].0.val() * z[row[0].1 as int] + row_dot(row.drop_first(), z)
    }
}

/// The contribution of a sparse row, scaled by `s`, to column `y`.
pub open spec fn row_scaled(row: Seq<(Fe, usize)>, s: int, y: int) -> int
    decreases row.len(),
{
    if row.len() == 0 {
        0
    } else {
        (if row[0].1 == y {
            s * row[0].0.val()
        } else {
            0
        }) + row_scaled(row.drop_first(), s, y)
    }
}

/// The dense inner product of the looked-up row with `z` over the first
/// `ylen` columns.
pub open spec fn lookup_dot(row: Seq<(Fe, usize)>, z: Seq<int>, ylen: nat) -> int
    decreases ylen,
{
    if ylen == 0 {
        0
    } else {
        lookup_dot(row, z, (ylen - 1) as nat) + row_lookup(row, ylen - 1) * z[ylen - 1]
    }
}

/// The dense inner product of a single entry's indicator with `z`.
pub open spec fn single_dot(e: (Fe, usize), z: Seq<int>, ylen: nat) -> int
    decreases ylen,
{
    if ylen == 0 {
        0
    } else {
        single_dot(e, z, (ylen - 1) as nat) + (if e.1 == ylen - 1 {
            e.0.val()
        } else {
            0
        }) * z[ylen - 1]
    }
}

/// A sparse matrix together with the data of its multilinear extension.
pub struct MatrixExtension {
    rows: Vec<Vec<(Fe, usize)>>,
    num_vars: usize,
    n: usize,
}

impl MatrixExtension {
    /// The arity of the extension in each block of variables.
    pub closed spec fn nvars(self) -> nat {
        self.num_vars as nat
    }

    /// The number of stored (constraint) rows.
    pub closed spec fn nrows(self) -> nat {
        self.rows@.len()
    }

    /// The stored sparse row `x`.
    pub closed spec fn row_at(self, x: int) -> Seq<(Fe, usize)> {
        self.rows@[x]@
    }

    /// The matrix entry at row `x`, column `y`; rows beyond the stored
    /// ones are empty.
    pub open spec fn entry(self, x: int, y: int) -> int {
        if 0 <= x < self.nrows() {
            row_lookup(self.row_at(x), y)
        } else {
            0
        }
    }

    /// Well-formed: the size is the power of two of the arity, the stored
    /// rows fit, every entry names a column in range and holds a
    /// canonical value.
    pub closed spec fn wf(self) -> bool {
        &&& self.n == pow2(self.num_vars as nat)
        &&& self.rows@.len() <= self.n
        &&& forall|x: int|
            0 <= x < self.rows@.len() ==> #[trigger] row_wf(self.rows@[x]@, self.n as nat)
    }

    /// The number of columns (and padded rows).
    pub open spec fn size(self) -> nat {
        pow2(self.nvars())
    }
}

/// Every entry of a sparse row names a column under `n` and holds a
/// canonical value.
pub open spec fn row_wf(row: Seq<(Fe, usize)>, n: nat) -> bool {
    forall|k: int|
        0 <= k < row.len() ==> (#[trigger] row[k]).1 < n && row[k].0.ok()
}

/// Sparse rows fit a width `n`: no more rows than `n`, and every entry
/// names a column under `n`.
pub open spec fn rows_fit(rows: Seq<Vec<(Fe, usize)>>, n: nat) -> bool {
    &&& rows.len() <= n
    &&& forall|x: int, k: int|
        0 <= x < rows.len() && 0 <= k < rows[x]@.len() ==> (#[trigger] rows[x]@[k]).1 < n
}

/// Sum of `entry(x, y) * z[y]` over the first `ylen` columns.
pub open spec fn entry_dot(m: MatrixExtension, z: Seq<int>, x: int, ylen: nat) -> int
    decreases ylen,
{
    if ylen == 0 {
        0
    } else {
        entry_dot(m, z, x, (ylen - 1) as nat) + m.entry(x, ylen - 1) * z[ylen - 1]
    }
}

/// Sum of `eq(rx, x) * entry(x, y)` over the first `xlen` rows: the slice
/// of the matrix extension at the point `rx`.
pub open spec fn slice_at(m: MatrixExtension, rx: Seq<int>, y: int, xlen: nat) -> int
    decreases xlen,
{
    if xlen == 0 {
        0
    } else {
        slice_at(m, rx, y, (xlen - 1) as nat) + eq_prod(rx, point_of(xlen - 1, rx.len() as nat))
            * m.entry(xlen - 1, y)
    }
}

/// The inner product of the slice at `rx`, cut at `xlen` rows, with the
/// first `ylen` entries of `z`.
pub open spec fn slice_dot(m: MatrixExtension, rx: Seq<int>, z: Seq<int>, ylen: nat, xlen: nat) -> int
    decreases ylen,
{
    if ylen == 0 {
        0
    } else {
        slice_dot(m, rx, z, (ylen - 1) as nat, xlen) + slice_at(m, rx, ylen - 1, xlen) * z[ylen
            - 1]
    }
}

/// The eq-weighted sum of the row dot products over the first `xlen`
/// rows.
pub open spec fn weighted_row_dots(
    m: MatrixExtension,
    rx: Seq<int>,
    z: Seq<int>,
    ylen: nat,
    xlen: nat,
) -> int
    decreases xlen,
{
    if xlen == 0 {
        0
    } else {
        weighted_row_dots(m, rx, z, ylen, (xlen - 1) as nat) + eq_prod(
            rx,
            point_of(xlen - 1, rx.len() as nat),
        ) * entry_dot(m, z, xlen - 1, ylen)
    }
}

/// One row's eq-weighted contribution to the slice inner product.
spec fn row_contribution(m: MatrixExtension, rx: Seq<int>, z: Seq<int>, x: int, ylen: nat) -> int
    decreases ylen,
{
    if ylen == 0 {
        0
    } else {
        row_contribution(m, rx, z, x, (ylen - 1) as nat) + (eq_prod(rx, point_of(x, rx.len() as nat))
            * m.entry(x, ylen - 1)) * z[ylen - 1]
    }
}

/// Cutting one more row off the slice splits off that row's
/// contribution.
proof fn lemma_slice_dot_split(m: MatrixExtension, rx: Seq<int>, z: Seq<int>, ylen: nat, xlen: nat)
    requires
        xlen >= 1,
    ensures
        slice_dot(m, rx, z, ylen, xlen) == slice_dot(m, rx, z, ylen, (xlen - 1) as nat)
            + row_contribution(m, rx, z, xlen - 1, ylen),
    decreases ylen,
{
    if ylen > 0 {
        lemma_slice_dot_split(m, rx, z, (ylen - 1) as nat, xlen);
        let y = ylen - 1;
        let a = slice_at(m, rx, y, (xlen - 1) as nat);
        let w = eq_prod(rx, point_of(xlen - 1, rx.len() as nat)) * m.entry(xlen - 1, y);
        assert(slice_at(m, rx, y, xlen) == a + w);
        assert((a + w) * z[y] == a * z[y] + w * z[y]) by (nonlinear_arith);
    }
}

/// A row's contribution factors into its eq weight times its dot
/// product.
proof fn lemma_row_contribution_factors(
    m: MatrixExtension,
    rx: Seq<int>,
    z: Seq<int>,
    x: int,
    ylen: nat,
)
    ensures
        row_contribution(m, rx, z, x, ylen) == eq_prod(rx, point_of(x, rx.len() as nat))
            * entry_dot(m, z, x, ylen),
    decreases ylen,
{
    if ylen == 0 {
        let w = eq_prod(rx, point_of(x, rx.len() as nat));
        assert(w * 0 == 0) by (nonlinear_arith);
    } else {
        lemma_row_contribution_factors(m, rx, z, x, (ylen - 1) as nat);
        let w = eq_prod(rx, point_of(x, rx.len() as nat));
        let d = entry_dot(m, z, x, (ylen - 1) as nat);
        let e = m.entry(x, ylen - 1);
        let zz = z[ylen - 1];
        assert((w * e) * zz == w * (e * zz)) by (nonlinear_arith);
        assert(w * d + w * (e * zz) == w * (d + e * zz)) by (nonlinear_arith);
    }
}

/// The slice cut at no rows vanishes.
proof fn lemma_slice_dot_empty(m: MatrixExtension, rx: Seq<int>, z: Seq<int>, ylen: nat)
    ensures
        slice_dot(m, rx, z, ylen, 0) == 0,
    decreases ylen,
{
    if ylen > 0 {
        lemma_slice_dot_empty(m, rx, z, (ylen - 1) as nat);
        assert(slice_at(m, rx, ylen - 1, 0) * z[ylen - 1] == 0) by (nonlinear_arith)
            requires
                slice_at(m, rx, ylen - 1, 0) == 0;
    }
}

/// The exchange of sums: the slice at `rx`, paired against `z` column by
/// column, equals the eq-weighted row dot products.
pub proof fn lemma_slice_dot_exchange(
    m: MatrixExtension,
    rx: Seq<int>,
    z: Seq<int>,
    ylen: nat,
    xlen: nat,
)
    ensures
        slice_dot(m, rx, z, ylen, xlen) == weighted_row_dots(m, rx, z, ylen, xlen),
    decreases xlen,
{
    if xlen == 0 {
        lemma_slice_dot_empty(m, rx, z, ylen);
    } else {
        lemma_slice_dot_exchange(m, rx, z, ylen, (xlen - 1) as nat);
        lemma_slice_dot_split(m, rx, z, ylen, xlen);
        lemma_row_contribution_factors(m, rx, z, xlen - 1, ylen);
    }
}

/// Appending an entry extends the sparse inner product by one term.
proof fn lemma_row_dot_push(row: Seq<(Fe, usize)>, e: (Fe, usize), z: Seq<int>)
    ensures
        row_dot(row.push(e), z) == row_dot(row, z) + e.0.val() * z[e.1 as int],
    decreases row.len(),
{
    if row.len() == 0 {
        assert(row.push(e).drop_first() =~= row);
    } else {
        assert(row.push(e).drop_first() =~= row.drop_first().push(e));
        lemma_row_dot_push(row.drop_first(), e, z);
    }
}

/// Appending an entry extends the scaled column contribution by one term.
proof fn lemma_row_scaled_push(row: Seq<(Fe, usize)>, e: (Fe, usize), s: int, y: int)
    ensures
        row_scaled(row.push(e), s, y) == row_scaled(row, s, y) + (if e.1 == y {
            s * e.0.val()
        } else {
            0
        }),
    decreases row.len(),
{
    if row.len() == 0 {
        assert(row.push(e).drop_first() =~= row);
    } else {
        assert(row.push(e).drop_first() =~= row.drop_first().push(e));
        lemma_row_scaled_push(row.drop_first(), e, s, y);
    }
}

/// Appending an entry extends a looked-up column value by one term.
proof fn lemma_row_lookup_push(row: Seq<(Fe, usize)>, e: (Fe, usize), y: int)
    ensures
        row_lookup(row.push(e), y) == row_lookup(row, y) + (if e.1 == y {
            e.0.val()
        } else {
            0
        }),
    decreases row.len(),
{
    if row.len() == 0 {
        assert(row.push(e).drop_first() =~= row);
    } else {
        assert(row.push(e).drop_first() =~= row.drop_first().push(e));
        lemma_row_lookup_push(row.drop_first(), e, y);
    }
}

/// A single entry's dense inner product collapses to one term.
proof fn lemma_single_dot(e: (Fe, usize), z: Seq<int>, ylen: nat)
    ensures
        single_dot(e, z, ylen) == if (e.1 as int) < ylen {
            e.0.val() * z[e.1 as int]
        } else {
            0
        },
    decreases ylen,
{
    if ylen > 0 {
        lemma_single_dot(e, z, (ylen - 1) as nat);
    }
}

/// The empty row looks up to zero everywhere.
proof fn lemma_lookup_dot_empty(row: Seq<(Fe, usize)>, z: Seq<int>, ylen: nat)
    requires
        row.len() == 0,
    ensures
        lookup_dot(row, z, ylen) == 0,
    decreases ylen,
{
    if ylen > 0 {
        lemma_lookup_dot_empty(row, z, (ylen - 1) as nat);
    }
}

/// The dense inner product splits off the first sparse entry.
proof fn lemma_lookup_dot_cons(row: Seq<(Fe, usize)>, z: Seq<int>, ylen: nat)
    requires
        row.len() > 0,
    ensures
        lookup_dot(row, z, ylen) == single_dot(row[0], z, ylen) + lookup_dot(
            row.drop_first(),
            z,
            ylen,
        ),
    decreases ylen,
{
    if ylen > 0 {
        lemma_lookup_dot_cons(row, z, (ylen - 1) as nat);
        let a: int = if row[0].1 == ylen - 1 {
            row[0].0.val()
        } else {
            0
        };
        let b = row_lookup(row.drop_first(), ylen - 1);
        let zz = z[ylen - 1];
        assert(row_lookup(row, ylen - 1) == a + b);
        assert((a + b) * zz == a * zz + b * zz) by (nonlinear_arith);
    }
}

/// Dense and sparse inner products of a row agree when all its columns
/// are in range.
proof fn lemma_row_bridge(row: Seq<(Fe, usize)>, z: Seq<int>, ylen: nat)
    requires
        forall|k: int| 0 <= k < row.len() ==> (#[trigger] row[k]).1 < ylen,
    ensures
        lookup_dot(row, z, ylen) == row_dot(row, z),
    decreases row.len(),
{
    if row.len() == 0 {
        lemma_lookup_dot_empty(row, z, ylen);
    } else {
        lemma_lookup_dot_cons(row, z, ylen);
        lemma_single_dot(row[0], z, ylen);
        lemma_row_bridge(row.drop_first(), z, ylen);
    }
}

/// The scaled column contribution is the scaled lookup.
proof fn lemma_row_scaled_is_lookup(row: Seq<(Fe, usize)>, s: int, y: int)
    ensures
        row_scaled(row, s, y) == s * row_lookup(row, y),
    decreases row.len(),
{
    if row.len() == 0 {
        assert(s * 0 == 0) by (nonlinear_arith);
    } else {
        lemma_row_scaled_is_lookup(row.drop_first(), s, y);
        lemma_mul_is_distributive_add(
            s,
            if row[0].1 == y {
                row[0].0.val()
            } else {
                0
            },
            row_lookup(row.drop_first(), y),
        );
        assert(s * (if row[0].1 == y {
            row[0].0.val()
        } else {
            0
        }) == (if row[0].1 == y {
            s * row[0].0.val()
        } else {
            0
        })) by (nonlinear_arith);
    }
}

/// Entry-sums over a prefix of columns agree with the stored row.
proof fn lemma_entry_dot_is_lookup(m: MatrixExtension, z: Seq<int>, x: int, ylen: nat)
    ensures
        0 <= x < m.nrows() ==> entry_dot(m, z, x, ylen) == lookup_dot(m.row_at(x), z, ylen),
        !(0 <= x < m.nrows()) ==> entry_dot(m, z, x, ylen) == 0,
    decreases ylen,
{
    if ylen > 0 {
        lemma_entry_dot_is_lookup(m, z, x, (ylen - 1) as nat);
        if !(0 <= x < m.nrows()) {
            assert(m.entry(x, ylen - 1) == 0);
            assert(0int * z[ylen - 1] == 0) by (nonlinear_arith);
        }
    }
}

/// Rows past the stored ones contribute nothing to the slice.
proof fn lemma_slice_pad(m: MatrixExtension, rx: Seq<int>, y: int, from: nat, to: nat)
    requires
        m.nrows() <= from <= to,
    ensures
        slice_at(m, rx, y, to) == slice_at(m, rx, y, from),
    decreases to - from,
{
    if to > from {
        lemma_slice_pad(m, rx, y, from, (to - 1) as nat);
        assert(m.entry(to - 1, y) == 0);
        assert(eq_prod(rx, point_of(to - 1, rx.len() as nat)) * 0 == 0) by (nonlinear_arith);
    }
}

impl MatrixExtension {
    /// Wrap sparse rows as an `N x N` matrix extension.
    ///
    /// Rejected unless `n` is a power of two, the rows fit in `n`, and
    /// every entry names a column under `n`.
    pub fn new(rows: Vec<Vec<(Fe, usize)>>, n: usize) -> (r: Result<MatrixExtension, Error>)
        requires
            forall|x: int|
                0 <= x < rows@.len() ==> all_ok(
                    (#[trigger] rows@[x])@.map_values(|e: (Fe, usize)| e.0),
                ),
        ensures
            match r {
                Ok(m) => {
                    &&& m.wf()
                    &&& n == pow2(m.nvars())
                    &&& m.nrows() == rows@.len()
                    &&& forall|x: int| 0 <= x < rows@.len() ==> m.row_at(x) == (#[trigger] rows@[x])@
                    &&& rows_fit(rows@, n as nat)
                },
                Err(e) => {
                    &&& e == Error::InvalidArg
                    &&& ((forall|k: nat| n != pow2(k)) || !rows_fit(rows@, n as nat))
                },
            },
    {
        let num_vars = match crate::data_structures::ml_extension::log2_exact(n) {
            Some(k) => k,
            None => {
                return Err(Error::InvalidArg);
            },
        };
        if rows.len() > n {
            return Err(Error::InvalidArg);
        }
        let mut x: usize = 0;
        let nrows = rows.len();
        while x < nrows
            invariant
                x <= nrows,
                nrows == rows@.len(),
                forall|xx: int| 0 <= xx < x ==> row_wf((#[trigger] rows@[xx])@, n as nat),
                forall|xx: int|
                    0 <= xx < rows@.len() ==> all_ok(
                        (#[trigger] rows@[xx])@.map_values(|e: (Fe, usize)| e.0),
                    ),
            decreases nrows - x,
        {
            let row = &rows[x];
            let mut k: usize = 0;
            let rlen = row.len();
            while k < rlen
                invariant
                    k <= rlen,
                    rlen == row@.len(),
                    row@ == rows@[x as int]@,
                    x < rows@.len(),
                    forall|xx: int|
                        0 <= xx < rows@.len() ==> all_ok(
                            (#[trigger] rows@[xx])@.map_values(|e: (Fe, usize)| e.0),
                        ),
                    forall|kk: int| 0 <= kk < k ==> (#[trigger] row@[kk]).1 < n,
                decreases rlen - k,
            {
                if row[k].1 >= n {
                    proof {
                        assert(rows@[x as int]@[k as int].1 >= n);
                        assert(!rows_fit(rows@, n as nat));
                    }
                    return Err(Error::InvalidArg);
                }
                k = k + 1;
            }
            proof {
                assert(row_wf(rows@[x as int]@, n as nat)) by {
                    let rr = rows@[x as int]@;
                    assert forall|kk: int| 0 <= kk < rr.len() implies (#[trigger] rr[kk]).1 < n
                        && rr[kk].0.ok() by {
                        let mapped = rr.map_values(|e: (Fe, usize)| e.0);
                        assert(mapped[kk] == rr[kk].0);
                        assert(mapped[kk].ok());
                    }
                }
            }
            x = x + 1;
        }
        proof {
            assert(rows_fit(rows@, n as nat)) by {
                assert forall|xx: int, kk: int|
                    0 <= xx < rows@.len() && 0 <= kk < rows@[xx]@.len() implies (
                #[trigger] rows@[xx]@[kk]).1 < n by {
                    assert(row_wf(rows@[xx]@, n as nat));
                }
            }
        }
        Ok(MatrixExtension { rows, num_vars, n })
    }

    /// A well-formed matrix has no more stored rows than its width.
    pub proof fn lemma_wf_bounds(self)
        requires
            self.wf(),
        ensures
            self.nrows() <= self.size(),
    {
    }

    /// A well-formed matrix keeps every row's entries in range.
    pub proof fn lemma_wf_row(self, x: int)
        requires
            self.wf(),
            0 <= x < self.nrows(),
        ensures
            row_wf(self.row_at(x), self.size()),
    {
        assert(row_wf(self.rows@[x]@, self.n as nat));
    }

    /// A deep copy of this matrix extension.
    pub fn duplicate(&self) -> (r: MatrixExtension)
        ensures
            r.nvars() == self.nvars(),
            r.nrows() == self.nrows(),
            r.wf() == self.wf(),
            forall|x: int| 0 <= x < self.nrows() ==> #[trigger] r.row_at(x) == self.row_at(x),
            forall|x: int, y: int| #[trigger] r.entry(x, y) == self.entry(x, y),
    {
        let mut rows: Vec<Vec<(Fe, usize)>> = Vec::new();
        let n = self.rows.len();
        let mut x: usize = 0;
        while x < n
            invariant
                x <= n,
                n == self.rows@.len(),
                rows@.len() == x,
                forall|xx: int| 0 <= xx < x ==> (#[trigger] rows@[xx])@ == self.rows@[xx]@,
            decreases n - x,
        {
            let src = &self.rows[x];
            let m = src.len();
            let mut row: Vec<(Fe, usize)> = Vec::new();
            let mut k: usize = 0;
            while k < m
                invariant
                    k <= m,
                    m == src@.len(),
                    row@ == src@.take(k as int),
                decreases m - k,
            {
                row.push(src[k]);
                proof {
                    assert(row@ =~= src@.take(k as int + 1));
                }
                k = k + 1;
            }
            proof {
                assert(row@ =~= src@);
            }
            rows.push(row);
            x = x + 1;
        }
        let r = MatrixExtension { rows, num_vars: self.num_vars, n: self.n };
        proof {
            assert forall|x: int, y: int| true implies #[trigger] r.entry(x, y) == self.entry(x, y) by {
                if 0 <= x < self.nrows() {
                    assert(r.row_at(x) == self.row_at(x));
                }
            }
            assert(r.wf() == self.wf()) by {
                if self.wf() {
                    assert forall|xx: int| 0 <= xx < r.rows@.len() implies #[trigger] row_wf(
                        r.rows@[xx]@,
                        r.n as nat,
                    ) by {
                        assert(row_wf(self.rows@[xx]@, self.n as nat));
                    }
                }
                if r.wf() {
                    assert forall|xx: int| 0 <= xx < self.rows@.len() implies #[trigger] row_wf(
                        self.rows@[xx]@,
                        self.n as nat,
                    ) by {
                        assert(row_wf(r.rows@[xx]@, r.n as nat));
                    }
                }
            }
        }
        r
    }

    /// The number of stored constraint rows.
    pub fn num_constraints(&self) -> (r: usize)
        ensures
            r == self.nrows(),
    {
        self.rows.len()
    }

    /// The arity of the extension.
    pub fn num_vars(&self) -> (r: usize)
        ensures
            r == self.nvars(),
    {
        self.num_vars
    }

    /// The number of columns (and padded rows).
    pub fn width(&self) -> (r: usize)
        requires
            self.wf(),
        ensures
            r == self.size(),
    {
        self.n
    }

    /// How many entries row `x` stores.
    pub fn row_len(&self, x: usize) -> (r: usize)
        requires
            x < self.nrows(),
        ensures
            r == self.row_at(x as int).len(),
    {
        self.rows[x].len()
    }

    /// The `k`-th stored entry of row `x`.
    pub fn row_entry(&self, x: usize, k: usize) -> (r: (Fe, usize))
        requires
            x < self.nrows(),
            k < self.row_at(x as int).len(),
        ensures
            r == self.row_at(x as int)[k as int],
    {
        self.rows[x][k]
    }

    /// The table of sums, over the second block of variables, of the
    /// matrix extension against the table of `z`.
    ///
    /// Entry `x` of the result is `sum over y of entry(x, y) * z(y)`,
    /// reduced; rows past the stored constraints are zero.
    pub fn sum_over_y(&self, z: &DenseMle) -> (r: DenseMle)
        requires
            self.wf(),
            z.wf(),
            z.nvars() == self.nvars(),
        ensures
            r.wf(),
            r.nvars() == self.nvars(),
            forall|x: int|
                0 <= x < r@.len() ==> #[trigger] r@[x] == entry_dot(*self, z@, x, z@.len() as nat)
                    % prime(),
    {
        let n = self.n;
        let nrows = self.rows.len();
        let mut out: Vec<Fe> = Vec::new();
        let mut x: usize = 0;
        while x < nrows
            invariant
                x <= nrows,
                nrows == self.nrows(),
                self.wf(),
                z.wf(),
                z.nvars() == self.nvars(),
                n == self.size(),
                n == z@.len(),
                out@.len() == x,
                all_ok(out@),
                forall|xx: int|
                    0 <= xx < x ==> (#[trigger] out@[xx]).val() == entry_dot(
                        *self,
                        z@,
                        xx,
                        z@.len() as nat,
                    ) % prime(),
            decreases nrows - x,
        {
            let row = &self.rows[x];
            let rlen = row.len();
            let mut acc = Fe::zero();
            let mut k: usize = 0;
            proof {
                assert(row_dot(row@.take(0), z@) == 0);
                assert(0int % prime() == 0);
            }
            while k < rlen
                invariant
                    k <= rlen,
                    rlen == row@.len(),
                    x < self.nrows(),
                    row@ == self.row_at(x as int),
                    self.wf(),
                    z.wf(),
                    z.nvars() == self.nvars(),
                    n == self.size(),
                    n == z@.len(),
                    acc.ok(),
                    acc.val() == row_dot(row@.take(k as int), z@) % prime(),
                decreases rlen - k,
            {
                let e = row[k];
                proof {
                    assert(row_wf(self.row_at(x as int), self.size()));
                    assert(row@[k as int].1 < n);
                    assert(row@[k as int].0.ok());
                }
                let term = fe_mul(&e.0, &z.entry(e.1));
                proof {
                    assert(z@[e.1 as int] < prime() && 0 <= z@[e.1 as int]);
                }
                let ghost pre = row_dot(row@.take(k as int), z@);
                acc = fe_add(&acc, &term);
                proof {
                    lemma_add_mod_noop(pre, e.0.val() * z@[e.1 as int], prime());
                    crate::algebra::lemma_already_reduced(z@[e.1 as int]);
                    vstd::arithmetic::div_mod::lemma_mul_mod_noop_right(
                        e.0.val(),
                        z@[e.1 as int],
                        prime(),
                    );
                    assert(row@.take(k as int + 1) =~= row@.take(k as int).push(row@[k as int]));
                    lemma_row_dot_push(row@.take(k as int), row@[k as int], z@);
                }
                k = k + 1;
            }
            proof {
                assert(row@.take(rlen as int) =~= row@);
                assert(row_wf(self.row_at(x as int), self.size()));
                assert forall|kk: int| 0 <= kk < row@.len() implies (#[trigger] row@[kk]).1
                    < z@.len() by {
                    assert(self.row_at(x as int)[kk].1 < self.size());
                }
                lemma_row_bridge(row@, z@, z@.len() as nat);
                lemma_entry_dot_is_lookup(*self, z@, x as int, z@.len() as nat);
                assert(acc.val() == entry_dot(*self, z@, x as int, z@.len() as nat) % prime());
            }
            out.push(acc);
            x = x + 1;
        }
        let zero = Fe::zero();
        while x < n
            invariant
                nrows <= x <= n,
                nrows == self.nrows(),
                self.wf(),
                z.wf(),
                z.nvars() == self.nvars(),
                n == self.size(),
                n == z@.len(),
                zero.ok(),
                zero.val() == 0,
                out@.len() == x,
                all_ok(out@),
                forall|xx: int|
                    0 <= xx < x ==> (#[trigger] out@[xx]).val() == entry_dot(
                        *self,
                        z@,
                        xx,
                        z@.len() as nat,
                    ) % prime(),
            decreases n - x,
        {
            proof {
                lemma_entry_dot_is_lookup(*self, z@, x as int, z@.len() as nat);
                assert(0int % prime() == 0);
            }
            out.push(zero);
            x = x + 1;
        }
        let r = DenseMle::new_unchecked(out, self.num_vars);
        proof {
            assert forall|xx: int| 0 <= xx < r@.len() implies #[trigger] r@[xx] == entry_dot(
                *self,
                z@,
                xx,
                z@.len() as nat,
            ) % prime() by {
                lemma_vals_of_index(out@, xx);
            }
        }
        r
    }

    /// The table, over the second block of variables, of the matrix
    /// extension with its first block evaluated at `r_x`.
    ///
    /// Entry `y` of the result is `sum over x of eq(r_x, x) * entry(x, y)`,
    /// reduced: exactly the extension `M~(r_x, y)`.
    pub fn eval_on_x(&self, r_x: &Vec<Fe>) -> (r: DenseMle)
        requires
            self.wf(),
            r_x@.len() == self.nvars(),
            all_ok(r_x@),
        ensures
            r.wf(),
            r.nvars() == self.nvars(),
            forall|y: int|
                0 <= y < r@.len() ==> #[trigger] r@[y] == slice_at(
                    *self,
                    vals_of(r_x@),
                    y,
                    self.size(),
                ) % prime(),
    {
        let ghost rxv = vals_of(r_x@);
        let n = self.n;
        let eq = eq_table(r_x);
        let zero = Fe::zero();
        let mut out: Vec<Fe> = Vec::new();
        let mut y: usize = 0;
        while y < n
            invariant
                y <= n,
                zero.ok(),
                zero.val() == 0,
                out@.len() == y,
                all_ok(out@),
                forall|yy: int| 0 <= yy < y ==> (#[trigger] out@[yy]).val() == 0,
            decreases n - y,
        {
            out.push(zero);
            y = y + 1;
        }
        let nrows = self.rows.len();
        let mut x: usize = 0;
        proof {
            assert forall|yy: int| 0 <= yy < n implies (#[trigger] out@[yy]).val() == slice_at(
                *self,
                rxv,
                yy,
                0,
            ) % prime() by {
                assert(0int % prime() == 0);
            }
        }
        while x < nrows
            invariant
                x <= nrows,
                nrows == self.nrows(),
                self.wf(),
                rxv == vals_of(r_x@),
                rxv.len() == self.nvars(),
                n == self.size(),
                eq@.len() == n,
                all_ok(eq@),
                forall|b: int|
                    0 <= b < n ==> (#[trigger] eq@[b]).val() == eq_prod(rxv, point_of(b, rxv.len() as nat))
                        % prime(),
                out@.len() == n,
                all_ok(out@),
                forall|yy: int|
                    0 <= yy < n ==> (#[trigger] out@[yy]).val() == slice_at(*self, rxv, yy, x as nat)
                        % prime(),
            decreases nrows - x,
        {
            let ghost ex = eq_prod(rxv, point_of(x as int, rxv.len() as nat));
            let row_len = self.rows[x].len();
            let mut k: usize = 0;
            while k < row_len
                invariant
                    k <= row_len,
                    x < nrows,
                    nrows == self.nrows(),
                    row_len == self.row_at(x as int).len(),
                    self.wf(),
                    rxv == vals_of(r_x@),
                    rxv.len() == self.nvars(),
                    n == self.size(),
                    eq@.len() == n,
                    all_ok(eq@),
                    ex == eq_prod(rxv, point_of(x as int, rxv.len() as nat)),
                    forall|b: int|
                        0 <= b < n ==> (#[trigger] eq@[b]).val() == eq_prod(
                            rxv,
                            point_of(b, rxv.len() as nat),
                        ) % prime(),
                    out@.len() == n,
                    all_ok(out@),
                    forall|yy: int|
                        0 <= yy < n ==> (#[trigger] out@[yy]).val() == (slice_at(
                            *self,
                            rxv,
                            yy,
                            x as nat,
                        ) + row_scaled(self.row_at(x as int).take(k as int), ex, yy)) % prime(),
                decreases row_len - k,
            {
                let e = self.rows[x][k];
                proof {
                    assert(row_wf(self.row_at(x as int), self.size()));
                    assert(self.row_at(x as int)[k as int].1 < n);
                    assert(self.row_at(x as int)[k as int].0.ok());
                }
                let c = e.1;
                let term = fe_mul(&eq[x], &e.0);
                let cur = out[c];
                let updated = fe_add(&cur, &term);
                let ghost pre_out = out@;
                out.set(c, updated);
                proof {
                    let row = self.row_at(x as int);
                    let ee = row[k as int];
                    assert(row.take(k as int + 1) =~= row.take(k as int).push(ee));
                    assert forall|yy: int| 0 <= yy < n implies (#[trigger] out@[yy]).val() == (
                    slice_at(*self, rxv, yy, x as nat) + row_scaled(
                        row.take(k as int + 1),
                        ex,
                        yy,
                    )) % prime() by {
                        lemma_row_scaled_push(row.take(k as int), ee, ex, yy);
                        if yy == c as int {
                            let base = slice_at(*self, rxv, yy, x as nat) + row_scaled(
                                row.take(k as int),
                                ex,
                                yy,
                            );
                            lemma_mul_mod_noop_left(ex, ee.0.val(), prime());
                            assert(term.val() == (ex * ee.0.val()) % prime());
                            lemma_add_mod_noop(base, ex * ee.0.val(), prime());
                            assert(out@[yy].val() == (base + ex * ee.0.val()) % prime());
                        } else {
                            assert(out@[yy] == pre_out[yy]);
                        }
                    }
                }
                k = k + 1;
            }
            proof {
                let row = self.row_at(x as int);
                assert(row.take(row_len as int) =~= row);
                assert forall|yy: int| 0 <= yy < n implies (#[trigger] out@[yy]).val() == slice_at(
                    *self,
                    rxv,
                    yy,
                    (x + 1) as nat,
                ) % prime() by {
                    lemma_row_scaled_is_lookup(row, ex, yy);
                    assert(slice_at(*self, rxv, yy, (x + 1) as nat) == slice_at(
                        *self,
                        rxv,
                        yy,
                        x as nat,
                    ) + ex * self.entry(x as int, yy));
                }
            }
            x = x + 1;
        }
        proof {
            assert forall|yy: int| 0 <= yy < n implies (#[trigger] out@[yy]).val() == slice_at(
                *self,
                rxv,
                yy,
                self.size(),
            ) % prime() by {
                lemma_slice_pad(*self, rxv, yy, nrows as nat, self.size());
            }
        }
        let r = DenseMle::new_unchecked(out, self.num_vars);
        proof {
            assert forall|yy: int| 0 <= yy < r@.len() implies #[trigger] r@[yy] == slice_at(
                *self,
                rxv,
                yy,
                self.size(),
            ) % prime() by {
                lemma_vals_of_index(out@, yy);
            }
        }
        r
    }
}

} // verus!
