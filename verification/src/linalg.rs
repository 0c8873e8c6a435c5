//! Inverse, determinant and Cholesky factor of a fixed-point matrix.
//!
//! The inverse and the determinant come from one Gauss-Jordan reduction with
//! partial pivoting; the specification functions spell that reduction out,
//! rounding included, so that the result is pinned to the last digit.
//!
//! No routine here returns a value that rests on a clipped one: where a
//! product, a sum or a quotient reaches an end of the range, the reduction
//! or the factorisation fails.
use crate::fixed::{
    fx_abs, fx_div, fx_mul, fx_neg, fx_root, fx_sqrt, fx_sub, in_range, is_isqrt, Fixed, SCALE,
};
use crate::matrix::{has_shape, is_square, mat_block, mat_zero, Matrix};
use crate::vector::{
    concat_rows, copy_range, div_row, dot, dot_in_range, dot_prefix, dot_prefix_in_range,
    eliminate_row, eliminate_row_in_range, raws, row_div, row_eliminate, row_eliminate_in_range,
    row_in_range, row_is_in_range, row_unit, unit_row, with_entry,
};
use vstd::prelude::*;

verus! {

/// Among the rows `k ..= i` of `g`, the first whose entry in column `k` is
/// greatest in absolute value.
pub open spec fn pivot_upto(g: Seq<Seq<int>>, k: int, i: int) -> int
    decreases i - k,
{
    if i <= k {
        k
    } else {
        let p = pivot_upto(g, k, i - 1);
        if fx_abs(g[i][k]) > fx_abs(g[p][k]) {
            i
        } else {
            p
        }
    }
}

/// The pivot row for column `k`: among the rows from `k` on, the first whose
/// entry in column `k` is greatest in absolute value.
pub open spec fn pivot_row(g: Seq<Seq<int>>, k: int) -> int {
    pivot_upto(g, k, g.len() - 1)
}

/// The grid after column `k` is cleared with pivot row `p`: the pivot row,
/// divided by its entry in column `k`, moves to row `k`; row `k` moves to row
/// `p`; and every other row loses its own entry in column `k` times the new
/// row `k`.
pub open spec fn eliminated(g: Seq<Seq<int>>, k: int, p: int) -> Seq<Seq<int>> {
    let lead = row_div(g[p], g[p][k]);
    Seq::new(
        g.len(),
        |i: int|
            if i == k {
                lead
            } else {
                let src = if i == p {
                    g[k]
                } else {
                    g[i]
                };
                row_eliminate(src, src[k], lead)
            },
    )
}

/// The row from which the cleared grid computes its row `i`: row `k` for the
/// pivot row `p`, with which it changes places, else row `i`.
pub open spec fn source_row(g: Seq<Seq<int>>, k: int, p: int, i: int) -> Seq<int> {
    if i == p {
        g[k]
    } else {
        g[i]
    }
}

/// Whether row `i` of `eliminated(g, k, p)` is computed without clipping.
pub open spec fn row_step_in_range(g: Seq<Seq<int>>, k: int, p: int, i: int) -> bool {
    i == k || row_eliminate_in_range(
        source_row(g, k, p, i),
        source_row(g, k, p, i)[k],
        row_div(g[p], g[p][k]),
    )
}

/// Whether `eliminated(g, k, p)` is computed without clipping: no quotient,
/// product or difference reaches an end of the range.
pub open spec fn eliminated_in_range(g: Seq<Seq<int>>, k: int, p: int) -> bool {
    &&& row_in_range(row_div(g[p], g[p][k]))
    &&& forall|i: int| 0 <= i < g.len() ==> #[trigger] row_step_in_range(g, k, p, i)
}

/// The product of the pivots after the step on column `k` with pivot row
/// `p`: the product so far, negated for an exchange of rows, times the
/// pivot. `None` once a product is clipped.
pub open spec fn next_det(st: Reduction, k: int, p: int) -> Option<int> {
    match st.det {
        None => None,
        Some(d) => {
            let product = fx_mul(
                if p == k {
                    d
                } else {
                    fx_neg(d)
                },
                st.grid[p][k],
            );
            if in_range(product) {
                Some(product)
            } else {
                None
            }
        },
    }
}

/// The geometric mean of the pivots after the step on column `k` with pivot
/// row `p`: the mean so far times the root of the size of the pivot, of the
/// order that the grid has rows.
pub open spec fn next_gauge(st: Reduction, k: int, p: int) -> int {
    fx_mul(st.gauge, fx_root(fx_abs(st.grid[p][k]), st.grid.len()))
}

/// A grid under reduction.
pub struct Reduction {
    /// The grid.
    pub grid: Seq<Seq<int>>,
    /// The product of the pivots so far, negated once for every exchange of
    /// rows, or `None` once it has left the range.
    pub det: Option<int>,
    /// The product of the roots of the sizes of the pivots so far, each root
    /// of the order that the grid has rows. After the last step this is the
    /// root of that order of the size of the determinant, and it stays in
    /// the range where the determinant itself does not.
    pub gauge: int,
}

/// The raw value of a number that may be missing.
pub open spec fn raw_of(x: Option<Fixed>) -> Option<int> {
    match x {
        None => None,
        Some(v) => Some(v@),
    }
}

/// One step of the reduction, on column `k`; `None` when every candidate
/// pivot is zero, or when the pivot, an entry of the cleared grid or the
/// mean of the pivots is clipped.
pub open spec fn reduce_step(st: Reduction, k: int) -> Option<Reduction> {
    let p = pivot_row(st.grid, k);
    let pv = st.grid[p][k];
    if pv == 0 || !in_range(pv) || !eliminated_in_range(st.grid, k, p) || !in_range(
        next_gauge(st, k, p),
    ) {
        None
    } else {
        Some(
            Reduction {
                grid: eliminated(st.grid, k, p),
                det: next_det(st, k, p),
                gauge: next_gauge(st, k, p),
            },
        )
    }
}

/// The reduction of `g` over its first `k` columns.
pub open spec fn reduce(g: Seq<Seq<int>>, k: nat) -> Option<Reduction>
    decreases k,
{
    if k == 0 {
        Some(Reduction { grid: g, det: Some(SCALE as int), gauge: SCALE as int })
    } else {
        match reduce(g, (k - 1) as nat) {
            None => None,
            Some(st) => reduce_step(st, k - 1),
        }
    }
}

/// The square grid `m` with the identity written to its right.
pub open spec fn augmented(m: Seq<Seq<int>>) -> Seq<Seq<int>> {
    Seq::new(m.len(), |i: int| m[i] + row_unit(m.len(), i))
}

/// The inverse of a square grid by Gauss-Jordan reduction, or `None` when a
/// column offers no pivot or a value leaves the range.
pub open spec fn mat_inverse(m: Seq<Seq<int>>) -> Option<Seq<Seq<int>>> {
    match reduce(augmented(m), m.len()) {
        None => None,
        Some(st) => Some(mat_block(st.grid, 0, m.len() as int, m.len(), m.len())),
    }
}

/// The determinant of a square grid: the signed product of the pivots of its
/// reduction. `None` when the reduction fails or the product leaves the
/// range.
pub open spec fn mat_det(m: Seq<Seq<int>>) -> Option<int> {
    match reduce(augmented(m), m.len()) {
        None => None,
        Some(st) => st.det,
    }
}

/// The root of the size of the determinant of a square grid, of the order
/// that the grid has rows: the product of the roots of the sizes of the
/// pivots of its reduction. `None` when the reduction fails.
pub open spec fn mat_gauge(m: Seq<Seq<int>>) -> Option<int> {
    match reduce(augmented(m), m.len()) {
        None => None,
        Some(st) => Some(st.gauge),
    }
}

/// The numerator of entry `(i, j)` of the Cholesky factor: the entry of `r`
/// less the product of rows `i` and `j` of the factor over the columns
/// before `j`.
pub open spec fn chol_numerator(r: Seq<Seq<int>>, l: Seq<Seq<int>>, j: int, i: int) -> int {
    fx_sub(r[i][j], dot(l[i], l[j], j as nat))
}

/// Whether entry `(i, j)` of the factor, below the diagonal entry `d`, is
/// computed without clipping.
pub open spec fn chol_entry_in_range(
    r: Seq<Seq<int>>,
    l: Seq<Seq<int>>,
    j: int,
    d: int,
    i: int,
) -> bool {
    &&& dot_in_range(l[i], l[j], j as nat)
    &&& in_range(chol_numerator(r, l, j, i))
    &&& in_range(fx_div(chol_numerator(r, l, j, i), d))
}

/// Whether the entries of column `j` below the diagonal entry `d` are
/// computed without clipping.
pub open spec fn chol_column_in_range(r: Seq<Seq<int>>, l: Seq<Seq<int>>, j: int, d: int) -> bool {
    forall|i: int| j < i < l.len() ==> #[trigger] chol_entry_in_range(r, l, j, d, i)
}

/// The Cholesky factor after column `j` is added to the columns before it
/// in `l`; `None` when the entry on the diagonal would not be positive, or
/// when a value is clipped.
pub open spec fn chol_step(r: Seq<Seq<int>>, l: Seq<Seq<int>>, j: int) -> Option<Seq<Seq<int>>> {
    let s = chol_numerator(r, l, j, j);
    let d = fx_sqrt(s);
    if s <= 0 || !in_range(s) || !dot_in_range(l[j], l[j], j as nat) || !chol_column_in_range(
        r,
        l,
        j,
        d,
    ) {
        None
    } else {
        Some(
            Seq::new(
                l.len(),
                |i: int|
                    if i < j {
                        l[i]
                    } else if i == j {
                        l[i].update(j, d)
                    } else {
                        l[i].update(j, fx_div(chol_numerator(r, l, j, i), d))
                    },
            ),
        )
    }
}

/// The first `j` columns of the Cholesky factor of `r`, in a grid that is
/// zero elsewhere.
pub open spec fn chol_cols(r: Seq<Seq<int>>, j: nat) -> Option<Seq<Seq<int>>>
    decreases j,
{
    if j == 0 {
        Some(mat_zero(r.len(), r.len()))
    } else {
        match chol_cols(r, (j - 1) as nat) {
            None => None,
            Some(l) => chol_step(r, l, j - 1),
        }
    }
}

/// The lower-triangular Cholesky factor of a square grid, read from its
/// lower triangle, or `None` when the grid is not positive definite or a
/// value leaves the range.
pub open spec fn mat_cholesky(r: Seq<Seq<int>>) -> Option<Seq<Seq<int>>> {
    chol_cols(r, r.len())
}

/// A factorisation that has failed stays failed.
pub proof fn lemma_chol_fails_on(r: Seq<Seq<int>>, j: nat, n: nat)
    requires
        j <= n,
        chol_cols(r, j) is None,
    ensures
        chol_cols(r, n) is None,
    decreases n,
{
    if j < n {
        lemma_chol_fails_on(r, j, (n - 1) as nat);
    }
}

/// A reduction that has failed stays failed.
pub proof fn lemma_reduce_fails_on(g: Seq<Seq<int>>, k: nat, n: nat)
    requires
        k <= n,
        reduce(g, k) is None,
    ensures
        reduce(g, n) is None,
    decreases n,
{
    if k < n {
        lemma_reduce_fails_on(g, k, (n - 1) as nat);
    }
}

/// The pivot row for column `k` of `work`.
fn find_pivot(work: &Matrix, k: usize, n: usize) -> (p: usize)
    requires
        k < n,
        n >= 1,
        has_shape(work@, n as int, 2 * n),
    ensures
        k <= p < n,
        p == pivot_row(work@, k as int),
{
    let mut p: usize = k;
    let mut i: usize = k + 1;
    assert(work@[k as int].len() == 2 * n);
    while i < n
        invariant
            k < i <= n,
            k <= p < i,
            has_shape(work@, n as int, 2 * n),
            work.rows.len() == n,
            p == pivot_upto(work@, k as int, i - 1),
        decreases n - i,
    {
        assert(work@[i as int].len() == 2 * n);
        assert(work@[p as int].len() == 2 * n);
        if work.rows[i][k].abs().raw > work.rows[p][k].abs().raw {
            p = i;
        }
        i = i + 1;
    }
    p
}

/// Whether column `k` of `work` is cleared with pivot row `p` without
/// clipping.
fn clear_column_in_range(work: &Matrix, k: usize, p: usize, n: usize) -> (r: bool)
    requires
        k <= p < n,
        has_shape(work@, n as int, 2 * n),
        work@[p as int][k as int] != 0,
    ensures
        r == eliminated_in_range(work@, k as int, p as int),
{
    assert(work@[p as int].len() == 2 * n);
    assert(work@[k as int].len() == 2 * n);
    let pv = work.rows[p][k];
    let lead = div_row(&work.rows[p], pv);
    assert(lead.len() == raws(lead@).len());
    if !row_is_in_range(&lead) {
        return false;
    }
    let mut i: usize = 0;
    while i < n
        invariant
            k <= p < n,
            i <= n,
            has_shape(work@, n as int, 2 * n),
            work.rows.len() == n,
            raws(lead@) == row_div(work@[p as int], work@[p as int][k as int]),
            lead.len() == 2 * n,
            forall|t: int|
                0 <= t < i ==> #[trigger] row_step_in_range(work@, k as int, p as int, t),
        decreases n - i,
    {
        assert(work@[i as int].len() == 2 * n);
        assert(work@[k as int].len() == 2 * n);
        if i != k {
            let source = if i == p {
                k
            } else {
                i
            };
            let f = work.rows[source][k];
            if !eliminate_row_in_range(&work.rows[source], f, &lead) {
                assert(!row_step_in_range(work@, k as int, p as int, i as int));
                return false;
            }
        }
        i = i + 1;
    }
    true
}

/// The grid `work` after column `k` is cleared with pivot row `p`.
fn clear_column(work: &Matrix, k: usize, p: usize, n: usize) -> (next: Matrix)
    requires
        k <= p < n,
        has_shape(work@, n as int, 2 * n),
        work@[p as int][k as int] != 0,
    ensures
        has_shape(next@, n as int, 2 * n),
        next@ == eliminated(work@, k as int, p as int),
{
    assert(work@[p as int].len() == 2 * n);
    assert(work@[k as int].len() == 2 * n);
    let pv = work.rows[p][k];
    let lead = div_row(&work.rows[p], pv);
    assert(lead.len() == raws(lead@).len());
    let mut rows: Vec<Vec<Fixed>> = Vec::new();
    let mut i: usize = 0;
    while i < n
        invariant
            k <= p < n,
            i <= n,
            has_shape(work@, n as int, 2 * n),
            work.rows.len() == n,
            raws(lead@) == row_div(work@[p as int], work@[p as int][k as int]),
            lead.len() == 2 * n,
            rows.len() == i,
            forall|t: int|
                0 <= t < i ==> raws(#[trigger] rows[t]@) == eliminated(
                    work@,
                    k as int,
                    p as int,
                )[t],
        decreases n - i,
    {
        assert(work@[i as int].len() == 2 * n);
        assert(work@[k as int].len() == 2 * n);
        if i == k {
            rows.push(copy_range(&lead, 0, lead.len()));
            assert(raws(lead@).subrange(0, lead.len() as int) =~= raws(lead@));
        } else if i == p {
            let f = work.rows[k][k];
            rows.push(eliminate_row(&work.rows[k], f, &lead));
        } else {
            let f = work.rows[i][k];
            rows.push(eliminate_row(&work.rows[i], f, &lead));
        }
        i = i + 1;
    }
    let next = Matrix { rows };
    assert(next@ =~= eliminated(work@, k as int, p as int));
    assert forall|t: int| 0 <= t < n implies (#[trigger] next@[t]).len() == 2 * n by {
        assert(work@[t].len() == 2 * n);
    }
    next
}

/// What a reduction finds for a matrix that has an inverse.
#[derive(Debug)]
pub struct Inverse {
    /// The inverse.
    pub inverse: Matrix,
    /// The determinant, unless it leaves the range.
    pub determinant: Option<Fixed>,
    /// The root of the size of the determinant, of the order that the matrix
    /// has rows.
    pub gauge: Fixed,
}

impl Matrix {
    /// The inverse of a square matrix, with its determinant and the root of
    /// the size of the determinant, or `None` when the reduction meets a
    /// column without a pivot or a value that leaves the range.
    pub fn invert(&self) -> (r: Option<Inverse>)
        requires
            self.wf(),
            is_square(self@),
        ensures
            r is None <==> mat_inverse(self@) is None,
            r matches Some(found) ==> {
                &&& found.inverse.wf()
                &&& is_square(found.inverse@)
                &&& found.inverse@.len() == self@.len()
                &&& mat_inverse(self@) == Some(found.inverse@)
                &&& mat_det(self@) == raw_of(found.determinant)
                &&& mat_gauge(self@) == Some(found.gauge@)
                &&& in_range(found.gauge@)
            },
    {
        let n = self.rows.len();
        let mut rows: Vec<Vec<Fixed>> = Vec::new();
        let mut i: usize = 0;
        while i < n
            invariant
                self.wf(),
                is_square(self@),
                n == self.rows.len(),
                i <= n,
                rows.len() == i,
                forall|t: int|
                    0 <= t < i ==> raws(#[trigger] rows[t]@) == self@[t] + row_unit(n as nat, t),
            decreases n - i,
        {
            let unit = unit_row(n, i);
            rows.push(concat_rows(&self.rows[i], &unit));
            i = i + 1;
        }
        let mut work = Matrix { rows };
        let mut det = Some(Fixed::one());
        let mut gauge = Fixed::one();
        assert(work@ =~= augmented(self@));
        assert forall|t: int| 0 <= t < n implies (#[trigger] work@[t]).len() == 2 * n by {
            assert(self@[t].len() == n);
        }
        let mut k: usize = 0;
        while k < n
            invariant
                n == self.rows.len(),
                n >= 1,
                k <= n,
                has_shape(work@, n as int, 2 * n),
                in_range(gauge@),
                reduce(augmented(self@), k as nat) == Some(
                    Reduction { grid: work@, det: raw_of(det), gauge: gauge@ },
                ),
            decreases n - k,
        {
            let p = find_pivot(&work, k, n);
            assert(work@[p as int].len() == 2 * n);
            let pv = work.rows[p][k];
            if pv.raw == 0 {
                proof {
                    assert(reduce(augmented(self@), (k + 1) as nat) is None);
                    lemma_reduce_fails_on(augmented(self@), (k + 1) as nat, n as nat);
                }
                return None;
            }
            let root = match pv.abs().root(n) {
                Some(root) => root,
                None => Fixed::zero(),
            };
            let mean = gauge.sat_mul(root);
            if !pv.is_in_range() || !clear_column_in_range(&work, k, p, n) || !mean.is_in_range() {
                proof {
                    assert(reduce(augmented(self@), (k + 1) as nat) is None);
                    lemma_reduce_fails_on(augmented(self@), (k + 1) as nat, n as nat);
                }
                return None;
            }
            let next = clear_column(&work, k, p, n);
            det = match det {
                None => None,
                Some(d) => {
                    let signed = if p == k {
                        d
                    } else {
                        d.neg()
                    };
                    let product = signed.sat_mul(pv);
                    if product.is_in_range() {
                        Some(product)
                    } else {
                        None
                    }
                },
            };
            gauge = mean;
            work = next;
            k = k + 1;
        }
        assert(work@[0].len() == 2 * n);
        let inverse = work.block(0, n, n, n);
        Some(Inverse { inverse, determinant: det, gauge })
    }
}

/// Whether the entries of column `j` below the diagonal entry `d` are
/// computed without clipping.
fn cholesky_column_in_range(r: &Matrix, l: &Matrix, j: usize, d: Fixed, n: usize) -> (ok: bool)
    requires
        j < n,
        has_shape(r@, n as int, n as int),
        has_shape(l@, n as int, n as int),
        d@ != 0,
    ensures
        ok == chol_column_in_range(r@, l@, j as int, d@),
{
    let mut i: usize = j + 1;
    while i < n
        invariant
            j < i <= n,
            has_shape(r@, n as int, n as int),
            has_shape(l@, n as int, n as int),
            r.rows.len() == n,
            l.rows.len() == n,
            d@ != 0,
            forall|t: int|
                j < t < i ==> #[trigger] chol_entry_in_range(r@, l@, j as int, d@, t),
        decreases n - i,
    {
        assert(r@[i as int].len() == n);
        assert(l@[i as int].len() == n);
        assert(l@[j as int].len() == n);
        let num = r.rows[i][j].sat_sub(dot_prefix(&l.rows[i], &l.rows[j], j));
        let v = match num.checked_div(d) {
            Some(v) => v,
            None => Fixed::zero(),
        };
        if !dot_prefix_in_range(&l.rows[i], &l.rows[j], j) || !num.is_in_range()
            || !v.is_in_range() {
            assert(!chol_entry_in_range(r@, l@, j as int, d@, i as int));
            return false;
        }
        i = i + 1;
    }
    true
}

/// The factor `l` with column `j` added.
fn cholesky_column(r: &Matrix, l: &Matrix, j: usize, n: usize) -> (next: Option<Matrix>)
    requires
        j < n,
        has_shape(r@, n as int, n as int),
        has_shape(l@, n as int, n as int),
    ensures
        next is None <==> chol_step(r@, l@, j as int) is None,
        next matches Some(m) ==> has_shape(m@, n as int, n as int) && chol_step(
            r@,
            l@,
            j as int,
        ) == Some(m@),
{
    assert(r@[j as int].len() == n);
    assert(l@[j as int].len() == n);
    let s = r.rows[j][j].sat_sub(dot_prefix(&l.rows[j], &l.rows[j], j));
    if s.raw <= 0 || !s.is_in_range() || !dot_prefix_in_range(&l.rows[j], &l.rows[j], j) {
        return None;
    }
    let d = match s.sqrt() {
        Some(d) => d,
        None => Fixed::zero(),
    };
    assert(d@ != 0) by {
        assert(is_isqrt(s@ * SCALE, d@));
        assert(s@ * SCALE >= 1);
        if d@ == 0 {
            assert((d@ + 1) * (d@ + 1) == 1) by (nonlinear_arith)
                requires
                    d@ == 0,
            ;
        }
    }
    if !cholesky_column_in_range(r, l, j, d, n) {
        return None;
    }
    let mut rows: Vec<Vec<Fixed>> = Vec::new();
    let mut i: usize = 0;
    while i < n
        invariant
            j < n,
            i <= n,
            has_shape(r@, n as int, n as int),
            has_shape(l@, n as int, n as int),
            r.rows.len() == n,
            l.rows.len() == n,
            d@ != 0,
            d@ == fx_sqrt(s@),
            s@ == chol_numerator(r@, l@, j as int, j as int),
            s@ > 0,
            chol_step(r@, l@, j as int) is Some,
            rows.len() == i,
            forall|t: int|
                0 <= t < i ==> Some(raws(#[trigger] rows[t]@)) == Some(
                    chol_step(r@, l@, j as int)->0[t],
                ),
        decreases n - i,
    {
        assert(r@[i as int].len() == n);
        assert(l@[i as int].len() == n);
        assert(l@[j as int].len() == n);
        if i < j {
            rows.push(copy_range(&l.rows[i], 0, n));
            assert(l@[i as int].subrange(0, n as int) =~= l@[i as int]);
        } else if i == j {
            rows.push(with_entry(&l.rows[i], j, d));
        } else {
            let num = r.rows[i][j].sat_sub(dot_prefix(&l.rows[i], &l.rows[j], j));
            let v = match num.checked_div(d) {
                Some(v) => v,
                None => Fixed::zero(),
            };
            rows.push(with_entry(&l.rows[i], j, v));
        }
        i = i + 1;
    }
    let next = Matrix { rows };
    assert(next@ =~= chol_step(r@, l@, j as int)->0);
    assert forall|t: int| 0 <= t < n implies (#[trigger] next@[t]).len() == n by {
        assert(l@[t].len() == n);
    }
    Some(next)
}

impl Matrix {
    /// The determinant of a square matrix: the signed product of the pivots
    /// of its reduction. `None` when the reduction fails or the product
    /// leaves the range.
    pub fn determinant(&self) -> (r: Option<Fixed>)
        requires
            self.wf(),
            is_square(self@),
        ensures
            mat_det(self@) == raw_of(r),
    {
        match self.invert() {
            Some(found) => found.determinant,
            None => None,
        }
    }

    /// The lower-triangular Cholesky factor of a square matrix, read from
    /// its lower triangle, or `None` when an entry on the diagonal of the
    /// factor would not be positive.
    pub fn cholesky(&self) -> (r: Option<Matrix>)
        requires
            self.wf(),
            is_square(self@),
        ensures
            r is None <==> mat_cholesky(self@) is None,
            r matches Some(l) ==> {
                &&& l.wf()
                &&& is_square(l@)
                &&& l@.len() == self@.len()
                &&& mat_cholesky(self@) == Some(l@)
            },
    {
        let n = self.rows.len();
        let mut l = Matrix::zeros(n, n);
        let mut j: usize = 0;
        while j < n
            invariant
                n == self.rows.len(),
                n >= 1,
                j <= n,
                has_shape(self@, n as int, n as int),
                has_shape(l@, n as int, n as int),
                chol_cols(self@, j as nat) == Some(l@),
            decreases n - j,
        {
            match cholesky_column(self, &l, j, n) {
                None => {
                    proof {
                        assert(chol_cols(self@, (j + 1) as nat) is None);
                        lemma_chol_fails_on(self@, (j + 1) as nat, n as nat);
                    }
                    return None;
                },
                Some(next) => {
                    l = next;
                },
            }
            j = j + 1;
        }
        assert(l@[0].len() == n);
        Some(l)
    }
}

} // verus!
