//! Dense matrices of fixed-point numbers.
//!
//! A matrix is a list of rows. Its view is the grid of raw values; every
//! routine here states its result as a function of that grid.
use crate::fixed::{in_range, isqrt, isqrt_wide, lemma_isqrt_exists, sat, Fixed};
use crate::vector::{
    dot_in_range, dot_prefix_in_range, row_in_range, row_is_in_range,
    add_rows, concat_rows, copy_range, dot, dot_prefix, halve_row, neg_row, raws,
    row_add, row_half, row_neg, row_scale, row_sub, row_unit, scale_row, sub_rows, sum_squares,
    unit_row,
};
use vstd::prelude::*;

verus! {

/// A matrix, stored row by row.
#[derive(Debug)]
pub struct Matrix {
    /// The rows, all of one length.
    pub rows: Vec<Vec<Fixed>>,
}

impl View for Matrix {
    type V = Seq<Seq<int>>;

    /// The grid of raw values.
    open spec fn view(&self) -> Seq<Seq<int>> {
        Seq::new(self.rows.len() as nat, |i: int| raws(self.rows[i]@))
    }
}

impl Clone for Matrix {
    /// A copy with the same entries.
    fn clone(&self) -> (r: Matrix)
        ensures
            r@ == self@,
    {
        let mut rows: Vec<Vec<Fixed>> = Vec::new();
        let mut i: usize = 0;
        while i < self.rows.len()
            invariant
                i <= self.rows.len(),
                rows.len() == i,
                forall|t: int| 0 <= t < i ==> (#[trigger] rows[t])@ == self.rows[t]@,
            decreases self.rows.len() - i,
        {
            rows.push(copy_range(&self.rows[i], 0, self.rows[i].len()));
            assert(self.rows[i as int]@.subrange(0, self.rows[i as int].len() as int)
                =~= self.rows[i as int]@);
            i = i + 1;
        }
        let r = Matrix { rows };
        assert(r@ =~= self@);
        r
    }
}

/// The grid of raw values of an array of `R` rows and `C` columns.
pub open spec fn grid_of<const R: usize, const C: usize>(a: [[Fixed; C]; R]) -> Seq<Seq<int>> {
    Seq::new(R as nat, |i: int| raws(a[i]@))
}

/// Whether `m` has `h` rows of `w` entries.
pub open spec fn has_shape(m: Seq<Seq<int>>, h: int, w: int) -> bool {
    m.len() == h && forall|i: int| 0 <= i < h ==> (#[trigger] m[i]).len() == w
}

/// Whether `m` has at least one row and one column, and rows of one length.
pub open spec fn is_grid(m: Seq<Seq<int>>) -> bool {
    &&& m.len() >= 1
    &&& m[0].len() >= 1
    &&& forall|i: int| 0 <= i < m.len() ==> (#[trigger] m[i]).len() == m[0].len()
}

/// The number of columns of a grid.
pub open spec fn width(m: Seq<Seq<int>>) -> nat {
    m[0].len()
}

/// Whether `m` is a grid with as many rows as columns.
pub open spec fn is_square(m: Seq<Seq<int>>) -> bool {
    is_grid(m) && m.len() == width(m)
}

/// The transpose of a grid.
pub open spec fn mat_transpose(m: Seq<Seq<int>>) -> Seq<Seq<int>> {
    Seq::new(width(m), |j: int| Seq::new(m.len(), |i: int| m[i][j]))
}

/// The product of two grids, for `width(a) == b.len()`.
pub open spec fn mat_mul(a: Seq<Seq<int>>, b: Seq<Seq<int>>) -> Seq<Seq<int>> {
    let bt = mat_transpose(b);
    Seq::new(a.len(), |i: int| Seq::new(bt.len(), |j: int| dot(a[i], bt[j], width(a))))
}

/// Whether every entry of a grid lies strictly inside the range.
pub open spec fn mat_in_range(m: Seq<Seq<int>>) -> bool {
    forall|i: int| 0 <= i < m.len() ==> row_in_range(#[trigger] m[i])
}

/// Whether the product of two grids is computed without clipping.
pub open spec fn mat_mul_in_range(a: Seq<Seq<int>>, b: Seq<Seq<int>>) -> bool {
    let bt = mat_transpose(b);
    forall|i: int, j: int|
        0 <= i < a.len() && 0 <= j < bt.len() ==> #[trigger] dot_in_range(a[i], bt[j], width(a))
}

/// The entrywise sum of two grids of one shape.
pub open spec fn mat_add(a: Seq<Seq<int>>, b: Seq<Seq<int>>) -> Seq<Seq<int>> {
    Seq::new(a.len(), |i: int| row_add(a[i], b[i]))
}

/// The entrywise difference of two grids of one shape.
pub open spec fn mat_sub(a: Seq<Seq<int>>, b: Seq<Seq<int>>) -> Seq<Seq<int>> {
    Seq::new(a.len(), |i: int| row_sub(a[i], b[i]))
}

/// The grid `a` with every entry multiplied by `c`.
pub open spec fn mat_scale(a: Seq<Seq<int>>, c: int) -> Seq<Seq<int>> {
    Seq::new(a.len(), |i: int| row_scale(a[i], c))
}

/// The grid `a` with every entry halved.
pub open spec fn mat_half(a: Seq<Seq<int>>) -> Seq<Seq<int>> {
    Seq::new(a.len(), |i: int| row_half(a[i]))
}

/// The grid `a` with every entry negated.
pub open spec fn mat_neg(a: Seq<Seq<int>>) -> Seq<Seq<int>> {
    Seq::new(a.len(), |i: int| row_neg(a[i]))
}

/// The grid of `h` rows and `w` columns that holds zero everywhere.
pub open spec fn mat_zero(h: nat, w: nat) -> Seq<Seq<int>> {
    Seq::new(h, |i: int| Seq::new(w, |j: int| 0int))
}

/// The identity grid with `n` rows.
pub open spec fn mat_identity(n: nat) -> Seq<Seq<int>> {
    Seq::new(n, |i: int| row_unit(n, i))
}

/// The grid `[a, b; c, d]` assembled from four blocks; `a` and `b` have one
/// height, and so have `c` and `d`.
pub open spec fn mat_blocks(
    a: Seq<Seq<int>>,
    b: Seq<Seq<int>>,
    c: Seq<Seq<int>>,
    d: Seq<Seq<int>>,
) -> Seq<Seq<int>> {
    Seq::new(
        a.len() + c.len(),
        |i: int|
            if i < a.len() {
                a[i] + b[i]
            } else {
                c[i - a.len()] + d[i - a.len()]
            },
    )
}

/// The block of `m` made of `h` rows from row `top` and `w` columns from
/// column `left`.
pub open spec fn mat_block(m: Seq<Seq<int>>, top: int, left: int, h: nat, w: nat) -> Seq<Seq<int>> {
    Seq::new(h, |i: int| m[top + i].subrange(left, left + w))
}

/// The exact sum of the squares of the entries of the first `n` rows of
/// `m`, in squares of billionths.
pub open spec fn squares_upto(m: Seq<Seq<int>>, n: nat) -> int
    decreases n,
{
    if n == 0 {
        0
    } else {
        sum_squares(squares_upto(m, (n - 1) as nat), m[n - 1], m[n - 1].len())
    }
}

/// The Frobenius norm of a grid: the square root of the exact sum of the
/// squares of its entries, rounded down to a billionth once and saturated.
/// It is zero only for a grid of zeros.
pub open spec fn mat_norm(m: Seq<Seq<int>>) -> int {
    sat(isqrt(squares_upto(m, m.len())))
}

/// `x`, or `2^126` when `x` is not below that: norms of `2^63` billionths
/// and more saturate, so sums of squares need not be told apart beyond it.
pub open spec fn capped(x: int) -> int {
    if x >= 0x4000_0000_0000_0000_0000_0000_0000_0000 {
        0x4000_0000_0000_0000_0000_0000_0000_0000
    } else {
        x
    }
}

/// A sum of squares on top of a non-negative number is not negative.
pub proof fn lemma_sum_squares_nonneg(acc: int, a: Seq<int>, n: nat)
    requires
        acc >= 0,
    ensures
        sum_squares(acc, a, n) >= 0,
    decreases n,
{
    if n > 0 {
        lemma_sum_squares_nonneg(acc, a, (n - 1) as nat);
        let x = a[n - 1];
        assert(x * x >= 0) by (nonlinear_arith);
    }
}

/// The sum of the squares of the entries of a grid is not negative.
pub proof fn lemma_squares_upto_nonneg(m: Seq<Seq<int>>, n: nat)
    ensures
        squares_upto(m, n) >= 0,
    decreases n,
{
    if n > 0 {
        lemma_squares_upto_nonneg(m, (n - 1) as nat);
        lemma_sum_squares_nonneg(squares_upto(m, (n - 1) as nat), m[n - 1], m[n - 1].len());
    }
}

/// A sum of squares is at least the sum it started from, and at least the
/// square of each entry that went into it.
proof fn lemma_sum_squares_covers(acc: int, a: Seq<int>, n: nat, j: int)
    requires
        acc >= 0,
        0 <= j < n,
    ensures
        sum_squares(acc, a, n) >= acc,
        sum_squares(acc, a, n) >= a[j] * a[j],
    decreases n,
{
    lemma_sum_squares_nonneg(acc, a, (n - 1) as nat);
    let x = a[n - 1];
    assert(x * x >= 0) by (nonlinear_arith);
    if n - 1 > 0 {
        lemma_sum_squares_covers(acc, a, (n - 1) as nat, if j < n - 1 { j } else { 0 });
    }
}

/// The sum of the squares of the entries of a grid is at least the square
/// of each of them.
proof fn lemma_squares_upto_covers(m: Seq<Seq<int>>, n: nat, i: int, j: int)
    requires
        0 <= i < n,
        0 <= j < m[i].len(),
    ensures
        squares_upto(m, n) >= m[i][j] * m[i][j],
    decreases n,
{
    let before = squares_upto(m, (n - 1) as nat);
    lemma_squares_upto_nonneg(m, (n - 1) as nat);
    if i == n - 1 {
        lemma_sum_squares_covers(before, m[n - 1], m[n - 1].len(), j);
    } else {
        lemma_squares_upto_covers(m, (n - 1) as nat, i, j);
        if m[n - 1].len() > 0 {
            lemma_sum_squares_covers(before, m[n - 1], m[n - 1].len(), 0);
        }
    }
}

/// A norm is not negative.
pub proof fn lemma_norm_is_not_negative(m: Seq<Seq<int>>)
    ensures
        mat_norm(m) >= 0,
{
    lemma_squares_upto_nonneg(m, m.len());
    lemma_isqrt_exists(squares_upto(m, m.len()));
}

/// The norm is zero only for a grid of zeros: no entry is too small to
/// count.
pub proof fn lemma_norm_is_zero_only_for_zeros(m: Seq<Seq<int>>, i: int, j: int)
    requires
        mat_norm(m) == 0,
        0 <= i < m.len(),
        0 <= j < m[i].len(),
    ensures
        m[i][j] == 0,
{
    let total = squares_upto(m, m.len());
    lemma_squares_upto_nonneg(m, m.len());
    lemma_isqrt_exists(total);
    lemma_squares_upto_covers(m, m.len(), i, j);
    let root = isqrt(total);
    assert(root == 0);
    assert((root + 1) * (root + 1) == 1) by (nonlinear_arith)
        requires
            root == 0,
    ;
    let x = m[i][j];
    assert(x != 0 ==> x * x >= 1) by (nonlinear_arith);
}

/// A norm that is not clipped is the norm of a grid without a clipped entry.
pub proof fn lemma_norm_in_range_covers_entries(m: Seq<Seq<int>>, i: int, j: int)
    requires
        in_range(mat_norm(m)),
        0 <= i < m.len(),
        0 <= j < m[i].len(),
    ensures
        in_range(m[i][j]),
{
    let total = squares_upto(m, m.len());
    lemma_squares_upto_nonneg(m, m.len());
    lemma_isqrt_exists(total);
    lemma_squares_upto_covers(m, m.len(), i, j);
    let root = isqrt(total);
    let x = m[i][j];
    let top = i64::MAX as int;
    assert((root + 1) * (root + 1) <= top * top) by (nonlinear_arith)
        requires
            0 <= root + 1 <= top,
    ;
    assert(x >= top || x <= -top ==> x * x >= top * top) by (nonlinear_arith)
        requires
            top > 0,
    ;
}

impl Matrix {
    /// Whether the rows make a grid.
    pub open spec fn wf(&self) -> bool {
        is_grid(self@)
    }

    /// Whether the rows make a grid; a matrix that fails this is rejected
    /// wherever one is taken from a caller.
    pub fn is_well_formed(&self) -> (r: bool)
        ensures
            r == self.wf(),
    {
        if self.rows.len() == 0 {
            return false;
        }
        let c = self.rows[0].len();
        if c == 0 {
            return false;
        }
        let mut i: usize = 1;
        while i < self.rows.len()
            invariant
                1 <= i <= self.rows.len(),
                c == self.rows[0].len(),
                forall|t: int| 0 <= t < i ==> (#[trigger] self.rows[t]).len() == c,
            decreases self.rows.len() - i,
        {
            if self.rows[i].len() != c {
                assert(self@[i as int].len() != self@[0].len());
                return false;
            }
            i = i + 1;
        }
        assert forall|t: int| 0 <= t < self@.len() implies (#[trigger] self@[t]).len()
            == self@[0].len() by {
            assert(self.rows[t].len() == c);
        }
        true
    }

    /// The matrix with the given rows, or `None` when they do not make a
    /// grid.
    pub fn from_rows(rows: Vec<Vec<Fixed>>) -> (r: Option<Matrix>)
        ensures
            r is Some <==> (Matrix { rows }).wf(),
            r matches Some(m) ==> m.wf() && m.rows == rows,
    {
        let m = Matrix { rows };
        if m.is_well_formed() {
            Some(m)
        } else {
            None
        }
    }

    /// The matrix with the entries of an array of `R` rows and `C` columns.
    pub fn from_array<const R: usize, const C: usize>(a: &[[Fixed; C]; R]) -> (m: Matrix)
        ensures
            m@ == grid_of(*a),
            m.wf() <==> R >= 1 && C >= 1,
    {
        let mut rows: Vec<Vec<Fixed>> = Vec::new();
        let mut i: usize = 0;
        while i < R
            invariant
                i <= R,
                rows.len() == i,
                forall|t: int| 0 <= t < i ==> raws(#[trigger] rows[t]@) == raws(a[t]@),
            decreases R - i,
        {
            let mut row: Vec<Fixed> = Vec::new();
            let mut j: usize = 0;
            while j < C
                invariant
                    i < R,
                    j <= C,
                    row.len() == j,
                    forall|t: int| 0 <= t < j ==> #[trigger] row[t] == a[i as int][t],
                decreases C - j,
            {
                row.push(a[i][j]);
                j = j + 1;
            }
            assert(raws(row@) =~= raws(a[i as int]@));
            rows.push(row);
            i = i + 1;
        }
        let m = Matrix { rows };
        assert(m@ =~= grid_of(*a));
        assert(R >= 1 ==> m@[0].len() == C);
        m
    }

    /// The array of `R` rows and `C` columns with the entries of the
    /// matrix, or `None` when the matrix has another shape.
    pub fn to_array<const R: usize, const C: usize>(&self) -> (r: Option<[[Fixed; C]; R]>)
        ensures
            r is Some <==> has_shape(self@, R as int, C as int),
            r matches Some(a) ==> grid_of(a) == self@,
    {
        if self.rows.len() != R {
            return None;
        }
        let mut out = [[Fixed::zero(); C]; R];
        let mut i: usize = 0;
        while i < R
            invariant
                i <= R == self.rows.len(),
                forall|t: int| 0 <= t < i ==> (#[trigger] self@[t]).len() == C,
                forall|t: int| 0 <= t < i ==> raws(#[trigger] out[t]@) == self@[t],
            decreases R - i,
        {
            if self.rows[i].len() != C {
                assert(self@[i as int].len() != C);
                return None;
            }
            let mut row = [Fixed::zero(); C];
            let mut j: usize = 0;
            while j < C
                invariant
                    i < R == self.rows.len(),
                    self.rows[i as int].len() == C,
                    j <= C,
                    forall|t: int| 0 <= t < j ==> #[trigger] row[t] == self.rows[i as int][t],
                decreases C - j,
            {
                row[j] = self.rows[i][j];
                j = j + 1;
            }
            assert(raws(row@) =~= self@[i as int]);
            out[i] = row;
            i = i + 1;
        }
        assert(grid_of(out) =~= self@);
        Some(out)
    }

    /// The number of rows.
    pub fn nrows(&self) -> (r: usize)
        ensures
            r == self@.len(),
    {
        self.rows.len()
    }

    /// The number of columns.
    pub fn ncols(&self) -> (r: usize)
        requires
            self.wf(),
        ensures
            r == width(self@),
    {
        self.rows[0].len()
    }

    /// The entry in row `i` and column `j`.
    pub fn get(&self, i: usize, j: usize) -> (r: Fixed)
        requires
            self.wf(),
            i < self@.len(),
            j < width(self@),
        ensures
            r@ == self@[i as int][j as int],
    {
        assert(self@[i as int].len() == width(self@));
        self.rows[i][j]
    }

    /// The matrix of `h` rows and `w` columns that holds zero everywhere.
    pub fn zeros(h: usize, w: usize) -> (r: Matrix)
        requires
            h >= 1,
            w >= 1,
        ensures
            r.wf(),
            r@ == mat_zero(h as nat, w as nat),
    {
        let mut rows: Vec<Vec<Fixed>> = Vec::new();
        let mut i: usize = 0;
        while i < h
            invariant
                i <= h,
                rows.len() == i,
                forall|t: int|
                    0 <= t < i ==> raws(#[trigger] rows[t]@) == Seq::new(w as nat, |j: int| 0int),
            decreases h - i,
        {
            let mut row: Vec<Fixed> = Vec::new();
            let mut j: usize = 0;
            while j < w
                invariant
                    j <= w,
                    row.len() == j,
                    forall|t: int| 0 <= t < j ==> (#[trigger] row[t])@ == 0,
                decreases w - j,
            {
                row.push(Fixed::zero());
                j = j + 1;
            }
            assert(raws(row@) =~= Seq::new(w as nat, |j: int| 0int));
            rows.push(row);
            i = i + 1;
        }
        let r = Matrix { rows };
        assert(r@ =~= mat_zero(h as nat, w as nat));
        r
    }

    /// The identity matrix with `n` rows, for `n >= 1`.
    pub fn identity(n: usize) -> (r: Matrix)
        requires
            n >= 1,
        ensures
            r.wf(),
            r@ == mat_identity(n as nat),
    {
        let mut rows: Vec<Vec<Fixed>> = Vec::new();
        let mut i: usize = 0;
        while i < n
            invariant
                i <= n,
                rows.len() == i,
                forall|t: int| 0 <= t < i ==> raws(#[trigger] rows[t]@) == row_unit(n as nat, t),
            decreases n - i,
        {
            rows.push(unit_row(n, i));
            i = i + 1;
        }
        let r = Matrix { rows };
        assert(r@ =~= mat_identity(n as nat));
        r
    }

    /// The transpose.
    pub fn transpose(&self) -> (r: Matrix)
        requires
            self.wf(),
        ensures
            r.wf(),
            r@ == mat_transpose(self@),
    {
        let h = self.rows.len();
        let w = self.rows[0].len();
        let mut rows: Vec<Vec<Fixed>> = Vec::new();
        let mut j: usize = 0;
        while j < w
            invariant
                self.wf(),
                h == self.rows.len(),
                w == self.rows[0].len(),
                j <= w,
                rows.len() == j,
                forall|t: int|
                    0 <= t < j ==> raws(#[trigger] rows[t]@) == Seq::new(
                        h as nat,
                        |i: int| self@[i][t],
                    ),
            decreases w - j,
        {
            let mut col: Vec<Fixed> = Vec::new();
            let mut i: usize = 0;
            while i < h
                invariant
                    self.wf(),
                    h == self.rows.len(),
                    w == self.rows[0].len(),
                    j < w,
                    i <= h,
                    col.len() == i,
                    forall|t: int| 0 <= t < i ==> (#[trigger] col[t])@ == self@[t][j as int],
                decreases h - i,
            {
                assert(self@[i as int].len() == w);
                col.push(self.rows[i][j]);
                i = i + 1;
            }
            assert(raws(col@) =~= Seq::new(h as nat, |i: int| self@[i][j as int]));
            rows.push(col);
            j = j + 1;
        }
        let r = Matrix { rows };
        assert(r@ =~= mat_transpose(self@));
        assert(r@[0].len() == h);
        r
    }

    /// The product `self * rhs`.
    pub fn product(&self, rhs: &Matrix) -> (r: Matrix)
        requires
            self.wf(),
            rhs.wf(),
            width(self@) == rhs@.len(),
        ensures
            r.wf(),
            r@ == mat_mul(self@, rhs@),
            r@.len() == self@.len(),
            width(r@) == width(rhs@),
    {
        let bt = rhs.transpose();
        let h = self.rows.len();
        let w = bt.rows.len();
        let n = self.rows[0].len();
        let mut rows: Vec<Vec<Fixed>> = Vec::new();
        let mut i: usize = 0;
        while i < h
            invariant
                self.wf(),
                bt.wf(),
                bt@ == mat_transpose(rhs@),
                h == self.rows.len(),
                w == bt.rows.len(),
                n == self.rows[0].len(),
                n == width(bt@),
                i <= h,
                rows.len() == i,
                forall|t: int|
                    0 <= t < i ==> raws(#[trigger] rows[t]@) == Seq::new(
                        w as nat,
                        |j: int| dot(self@[t], bt@[j], n as nat),
                    ),
            decreases h - i,
        {
            let mut row: Vec<Fixed> = Vec::new();
            let mut j: usize = 0;
            while j < w
                invariant
                    self.wf(),
                    bt.wf(),
                    h == self.rows.len(),
                    w == bt.rows.len(),
                    n == self.rows[0].len(),
                    n == width(bt@),
                    i < h,
                    j <= w,
                    row.len() == j,
                    forall|t: int|
                        0 <= t < j ==> (#[trigger] row[t])@ == dot(
                            self@[i as int],
                            bt@[t],
                            n as nat,
                        ),
                decreases w - j,
            {
                assert(self@[i as int].len() == n);
                assert(bt@[j as int].len() == n);
                row.push(dot_prefix(&self.rows[i], &bt.rows[j], n));
                j = j + 1;
            }
            assert(raws(row@) =~= Seq::new(
                w as nat,
                |j: int| dot(self@[i as int], bt@[j], n as nat),
            ));
            rows.push(row);
            i = i + 1;
        }
        let r = Matrix { rows };
        assert(r@ =~= mat_mul(self@, rhs@));
        r
    }

    /// Whether every entry lies strictly inside the range, so that none
    /// can be the clipped result of an operation.
    pub fn is_in_range(&self) -> (r: bool)
        ensures
            r == mat_in_range(self@),
    {
        let mut i: usize = 0;
        while i < self.rows.len()
            invariant
                i <= self.rows.len(),
                forall|t: int| 0 <= t < i ==> row_in_range(#[trigger] self@[t]),
            decreases self.rows.len() - i,
        {
            if !row_is_in_range(&self.rows[i]) {
                assert(!row_in_range(self@[i as int]));
                return false;
            }
            i = i + 1;
        }
        true
    }

    /// Whether the product `self * rhs` is computed without clipping.
    pub fn product_is_in_range(&self, rhs: &Matrix) -> (r: bool)
        requires
            self.wf(),
            rhs.wf(),
            width(self@) == rhs@.len(),
        ensures
            r == mat_mul_in_range(self@, rhs@),
    {
        let bt = rhs.transpose();
        let n = self.rows[0].len();
        let mut i: usize = 0;
        while i < self.rows.len()
            invariant
                self.wf(),
                bt.wf(),
                bt@ == mat_transpose(rhs@),
                n == self.rows[0].len(),
                n == width(self@),
                n == width(bt@),
                i <= self.rows.len(),
                forall|t: int, j: int|
                    0 <= t < i && 0 <= j < bt@.len() ==> #[trigger] dot_in_range(
                        self@[t],
                        bt@[j],
                        n as nat,
                    ),
            decreases self.rows.len() - i,
        {
            let mut j: usize = 0;
            while j < bt.rows.len()
                invariant
                    self.wf(),
                    bt.wf(),
                    bt@ == mat_transpose(rhs@),
                    n == self.rows[0].len(),
                    n == width(self@),
                    n == width(bt@),
                    i < self.rows.len(),
                    j <= bt.rows.len(),
                    forall|t: int|
                        0 <= t < j ==> #[trigger] dot_in_range(self@[i as int], bt@[t], n as nat),
                decreases bt.rows.len() - j,
            {
                assert(self@[i as int].len() == n);
                assert(bt@[j as int].len() == n);
                if !dot_prefix_in_range(&self.rows[i], &bt.rows[j], n) {
                    assert(!dot_in_range(self@[i as int], bt@[j as int], n as nat));
                    return false;
                }
                j = j + 1;
            }
            i = i + 1;
        }
        true
    }

    /// The entrywise sum `self + rhs`.
    pub fn sum(&self, rhs: &Matrix) -> (r: Matrix)
        requires
            self.wf(),
            rhs.wf(),
            self@.len() == rhs@.len(),
            width(self@) == width(rhs@),
        ensures
            r.wf(),
            r@ == mat_add(self@, rhs@),
            r@.len() == self@.len(),
            width(r@) == width(self@),
    {
        let h = self.rows.len();
        let mut rows: Vec<Vec<Fixed>> = Vec::new();
        let mut i: usize = 0;
        while i < h
            invariant
                self.wf(),
                rhs.wf(),
                h == self.rows.len() == rhs.rows.len(),
                width(self@) == width(rhs@),
                i <= h,
                rows.len() == i,
                forall|t: int|
                    0 <= t < i ==> raws(#[trigger] rows[t]@) == row_add(self@[t], rhs@[t]),
            decreases h - i,
        {
            assert(self@[i as int].len() == rhs@[i as int].len());
            rows.push(add_rows(&self.rows[i], &rhs.rows[i]));
            i = i + 1;
        }
        let r = Matrix { rows };
        assert(r@ =~= mat_add(self@, rhs@));
        assert(r@[0].len() == self@[0].len());
        assert forall|t: int| 0 <= t < r@.len() implies (#[trigger] r@[t]).len() == r@[0].len() by {
            assert(self@[t].len() == self@[0].len());
        }
        r
    }

    /// The entrywise difference `self - rhs`.
    pub fn difference(&self, rhs: &Matrix) -> (r: Matrix)
        requires
            self.wf(),
            rhs.wf(),
            self@.len() == rhs@.len(),
            width(self@) == width(rhs@),
        ensures
            r.wf(),
            r@ == mat_sub(self@, rhs@),
            r@.len() == self@.len(),
            width(r@) == width(self@),
    {
        let h = self.rows.len();
        let mut rows: Vec<Vec<Fixed>> = Vec::new();
        let mut i: usize = 0;
        while i < h
            invariant
                self.wf(),
                rhs.wf(),
                h == self.rows.len() == rhs.rows.len(),
                width(self@) == width(rhs@),
                i <= h,
                rows.len() == i,
                forall|t: int|
                    0 <= t < i ==> raws(#[trigger] rows[t]@) == row_sub(self@[t], rhs@[t]),
            decreases h - i,
        {
            assert(self@[i as int].len() == rhs@[i as int].len());
            rows.push(sub_rows(&self.rows[i], &rhs.rows[i]));
            i = i + 1;
        }
        let r = Matrix { rows };
        assert(r@ =~= mat_sub(self@, rhs@));
        assert(r@[0].len() == self@[0].len());
        assert forall|t: int| 0 <= t < r@.len() implies (#[trigger] r@[t]).len() == r@[0].len() by {
            assert(self@[t].len() == self@[0].len());
        }
        r
    }

    /// The matrix with every entry multiplied by `c`.
    pub fn scaled(&self, c: Fixed) -> (r: Matrix)
        requires
            self.wf(),
        ensures
            r.wf(),
            r@ == mat_scale(self@, c@),
            r@.len() == self@.len(),
            width(r@) == width(self@),
    {
        let h = self.rows.len();
        let mut rows: Vec<Vec<Fixed>> = Vec::new();
        let mut i: usize = 0;
        while i < h
            invariant
                h == self.rows.len(),
                i <= h,
                rows.len() == i,
                forall|t: int|
                    0 <= t < i ==> raws(#[trigger] rows[t]@) == row_scale(self@[t], c@),
            decreases h - i,
        {
            rows.push(scale_row(&self.rows[i], c));
            i = i + 1;
        }
        let r = Matrix { rows };
        assert(r@ =~= mat_scale(self@, c@));
        assert(r@[0].len() == self@[0].len());
        assert forall|t: int| 0 <= t < r@.len() implies (#[trigger] r@[t]).len() == r@[0].len() by {
            assert(self@[t].len() == self@[0].len());
        }
        r
    }

    /// The matrix with every entry halved.
    pub fn halved(&self) -> (r: Matrix)
        requires
            self.wf(),
        ensures
            r.wf(),
            r@ == mat_half(self@),
            r@.len() == self@.len(),
            width(r@) == width(self@),
    {
        let h = self.rows.len();
        let mut rows: Vec<Vec<Fixed>> = Vec::new();
        let mut i: usize = 0;
        while i < h
            invariant
                h == self.rows.len(),
                i <= h,
                rows.len() == i,
                forall|t: int| 0 <= t < i ==> raws(#[trigger] rows[t]@) == row_half(self@[t]),
            decreases h - i,
        {
            rows.push(halve_row(&self.rows[i]));
            i = i + 1;
        }
        let r = Matrix { rows };
        assert(r@ =~= mat_half(self@));
        assert(r@[0].len() == self@[0].len());
        assert forall|t: int| 0 <= t < r@.len() implies (#[trigger] r@[t]).len() == r@[0].len() by {
            assert(self@[t].len() == self@[0].len());
        }
        r
    }

    /// The matrix with every entry negated.
    pub fn negated(&self) -> (r: Matrix)
        requires
            self.wf(),
        ensures
            r.wf(),
            r@ == mat_neg(self@),
            r@.len() == self@.len(),
            width(r@) == width(self@),
    {
        let h = self.rows.len();
        let mut rows: Vec<Vec<Fixed>> = Vec::new();
        let mut i: usize = 0;
        while i < h
            invariant
                h == self.rows.len(),
                i <= h,
                rows.len() == i,
                forall|t: int| 0 <= t < i ==> raws(#[trigger] rows[t]@) == row_neg(self@[t]),
            decreases h - i,
        {
            rows.push(neg_row(&self.rows[i]));
            i = i + 1;
        }
        let r = Matrix { rows };
        assert(r@ =~= mat_neg(self@));
        assert(r@[0].len() == self@[0].len());
        assert forall|t: int| 0 <= t < r@.len() implies (#[trigger] r@[t]).len() == r@[0].len() by {
            assert(self@[t].len() == self@[0].len());
        }
        r
    }

    /// The block of `h` rows from row `top` and `w` columns from column
    /// `left`.
    pub fn block(&self, top: usize, left: usize, h: usize, w: usize) -> (r: Matrix)
        requires
            self.wf(),
            h >= 1,
            w >= 1,
            top + h <= self@.len(),
            left + w <= width(self@),
        ensures
            r.wf(),
            r@ == mat_block(self@, top as int, left as int, h as nat, w as nat),
            r@.len() == h,
            width(r@) == w,
    {
        let mut rows: Vec<Vec<Fixed>> = Vec::new();
        let mut i: usize = 0;
        while i < h
            invariant
                self.wf(),
                top + h <= self.rows.len(),
                left + w <= width(self@) == self.rows[0].len(),
                i <= h,
                rows.len() == i,
                forall|t: int|
                    0 <= t < i ==> raws(#[trigger] rows[t]@) == self@[top + t].subrange(
                        left as int,
                        left + w,
                    ),
            decreases h - i,
        {
            assert(self@[top + i].len() == width(self@));
            rows.push(copy_range(&self.rows[top + i], left, left + w));
            i = i + 1;
        }
        let r = Matrix { rows };
        assert(r@ =~= mat_block(self@, top as int, left as int, h as nat, w as nat));
        r
    }

    /// The Frobenius norm.
    pub fn norm(&self) -> (r: Fixed)
        ensures
            r@ == mat_norm(self@),
    {
        let cap: u128 = 0x4000_0000_0000_0000_0000_0000_0000_0000;
        let mut acc: u128 = 0;
        let mut i: usize = 0;
        while i < self.rows.len()
            invariant
                i <= self.rows.len(),
                cap == 0x4000_0000_0000_0000_0000_0000_0000_0000,
                squares_upto(self@, i as nat) >= 0,
                acc == capped(squares_upto(self@, i as nat)),
            decreases self.rows.len() - i,
        {
            let ghost before = squares_upto(self@, i as nat);
            let mut j: usize = 0;
            while j < self.rows[i].len()
                invariant
                    i < self.rows.len(),
                    j <= self.rows[i as int].len(),
                    cap == 0x4000_0000_0000_0000_0000_0000_0000_0000,
                    before >= 0,
                    sum_squares(before, self@[i as int], j as nat) >= 0,
                    acc == capped(sum_squares(before, self@[i as int], j as nat)),
                decreases self.rows[i as int].len() - j,
            {
                let x: i128 = self.rows[i][j].raw as i128;
                assert(0 <= x * x <= 0x4000_0000_0000_0000_0000_0000_0000_0000) by (nonlinear_arith)
                    requires
                        -0x8000_0000_0000_0000 <= x <= 0x8000_0000_0000_0000,
                ;
                let square: u128 = (x * x) as u128;
                acc = acc + square;
                if acc > cap {
                    acc = cap;
                }
                j = j + 1;
            }
            i = i + 1;
        }
        if acc >= cap {
            proof {
                let total = squares_upto(self@, self@.len());
                lemma_isqrt_exists(total);
                let root = isqrt(total);
                if root < 0x8000_0000_0000_0000 {
                    assert((root + 1) * (root + 1) <= 0x8000_0000_0000_0000 * 0x8000_0000_0000_0000)
                        by (nonlinear_arith)
                        requires
                            0 <= root + 1 <= 0x8000_0000_0000_0000,
                    ;
                }
            }
            Fixed { raw: i64::MAX }
        } else {
            Fixed { raw: isqrt_wide(acc) as i64 }
        }
    }
}

/// The matrix `[a, b; c, d]` assembled from four blocks.
pub fn matrix_from_list(a: &Matrix, b: &Matrix, c: &Matrix, d: &Matrix) -> (r: Matrix)
    requires
        a.wf(),
        b.wf(),
        c.wf(),
        d.wf(),
        a@.len() == b@.len(),
        c@.len() == d@.len(),
        width(a@) == width(c@),
        width(b@) == width(d@),
    ensures
        r.wf(),
        r@ == mat_blocks(a@, b@, c@, d@),
        r@.len() == a@.len() + c@.len(),
        width(r@) == width(a@) + width(b@),
{
    let top = a.rows.len();
    let bottom = c.rows.len();
    let mut rows: Vec<Vec<Fixed>> = Vec::new();
    let mut i: usize = 0;
    while i < top
        invariant
            top == a.rows.len() == b.rows.len(),
            i <= top,
            rows.len() == i,
            forall|t: int| 0 <= t < i ==> raws(#[trigger] rows[t]@) == a@[t] + b@[t],
        decreases top - i,
    {
        rows.push(concat_rows(&a.rows[i], &b.rows[i]));
        i = i + 1;
    }
    let mut k: usize = 0;
    while k < bottom
        invariant
            top == a.rows.len() == b.rows.len(),
            bottom == c.rows.len() == d.rows.len(),
            k <= bottom,
            rows.len() == top + k,
            forall|t: int| 0 <= t < top ==> raws(#[trigger] rows[t]@) == a@[t] + b@[t],
            forall|t: int| 0 <= t < k ==> raws(#[trigger] rows[top + t]@) == c@[t] + d@[t],
        decreases bottom - k,
    {
        rows.push(concat_rows(&c.rows[k], &d.rows[k]));
        k = k + 1;
    }
    let r = Matrix { rows };
    assert(r@.len() == top + bottom);
    assert forall|t: int| 0 <= t < r@.len() implies #[trigger] r@[t] == mat_blocks(
        a@,
        b@,
        c@,
        d@,
    )[t] by {
        if t >= top {
            assert(raws(r.rows[top + (t - top)]@) == c@[t - top] + d@[t - top]);
        }
    }
    assert(r@ =~= mat_blocks(a@, b@, c@, d@));
    assert forall|t: int| 0 <= t < r@.len() implies (#[trigger] r@[t]).len() == r@[0].len() by {
        if t < top {
            assert(a@[t].len() == width(a@));
            assert(b@[t].len() == width(b@));
        } else {
            assert(c@[t - top].len() == width(c@));
            assert(d@[t - top].len() == width(d@));
        }
    }
    r
}

} // verus!
