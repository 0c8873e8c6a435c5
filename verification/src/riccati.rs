//! Solver for the continuous-time algebraic Riccati equation.
//!
//! The solver runs the matrix-sign-function iteration with determinant
//! scaling on the matrix `Z = [A, G; Q, -A']`, where `G = B R^-1 B'`. The
//! limit `W` maps the stable invariant subspace of `Z`, spanned by the
//! columns of `[I; -H]`, to its negative, so `W12 H = W11 + I` in the top
//! row of blocks of `W`; the solution `H` is read off there.
//!
//! The iteration stops on the exact Frobenius norm of the change, and no
//! value that saturation has clipped reaches a result: the solver fails
//! where one appears.
use crate::fixed::{fx_div, in_range, Fixed, SCALE};
use crate::linalg::{chol_cols, lemma_chol_fails_on, mat_cholesky, mat_gauge, mat_inverse};
use crate::matrix::{
    is_grid, is_square, lemma_norm_in_range_covers_entries, lemma_norm_is_not_negative,
    lemma_norm_is_zero_only_for_zeros, mat_add, mat_block, mat_blocks, mat_half,
    mat_identity, mat_in_range, mat_mul, mat_mul_in_range, mat_neg, mat_norm, mat_scale, mat_sub,
    mat_transpose, matrix_from_list, width, Matrix,
};
use crate::vector::{dot_in_range, row_in_range};
use vstd::prelude::*;

verus! {

/// Why no solution was returned.
#[derive(Clone, Copy, Debug, PartialEq, Eq, Structural)]
pub enum RiccatiError {
    /// The shapes of the matrices do not fit together.
    DimensionMismatch,
    /// The control cost is not positive definite.
    SingularCostMatrix,
    /// A matrix that had to be inverted has no inverse.
    SingularMatrix,
    /// The iteration cap was reached before the tolerance was met.
    ConvergenceFailure,
}

/// Whether `a` is S x S, `b` is S x C, `q` is S x S and `r` is C x C.
pub open spec fn shapes_agree(
    a: Seq<Seq<int>>,
    b: Seq<Seq<int>>,
    q: Seq<Seq<int>>,
    r: Seq<Seq<int>>,
) -> bool {
    &&& is_square(a)
    &&& is_grid(b)
    &&& b.len() == a.len()
    &&& is_square(q)
    &&& q.len() == a.len()
    &&& is_square(r)
    &&& r.len() == width(b)
}

/// The grid `m`, unless an entry of it is clipped.
pub open spec fn guarded(m: Seq<Seq<int>>) -> Option<Seq<Seq<int>>> {
    if mat_in_range(m) {
        Some(m)
    } else {
        None
    }
}

/// The product of two grids, unless a value in it is clipped.
pub open spec fn mul_guarded(a: Seq<Seq<int>>, b: Seq<Seq<int>>) -> Option<Seq<Seq<int>>> {
    if mat_mul_in_range(a, b) {
        Some(mat_mul(a, b))
    } else {
        None
    }
}

/// The inverse of the control cost `r`, from its Cholesky factor `l` as
/// `inverse(l)' * inverse(l)`; `None` when `r` is not positive definite or
/// a value leaves the range.
pub open spec fn cost_inverse(r: Seq<Seq<int>>) -> Option<Seq<Seq<int>>> {
    match mat_cholesky(r) {
        None => None,
        Some(l) => match mat_inverse(l) {
            None => None,
            Some(li) => mul_guarded(mat_transpose(li), li),
        },
    }
}

/// The matrix `[a, g; q, -a']` with `g = b * rinv * b'`; `None` when a
/// value leaves the range.
pub open spec fn hamiltonian(
    a: Seq<Seq<int>>,
    b: Seq<Seq<int>>,
    q: Seq<Seq<int>>,
    rinv: Seq<Seq<int>>,
) -> Option<Seq<Seq<int>>> {
    match mul_guarded(b, rinv) {
        None => None,
        Some(br) => match mul_guarded(br, mat_transpose(b)) {
            None => None,
            Some(g) => match guarded(mat_neg(mat_transpose(a))) {
                None => None,
                Some(at) => Some(mat_blocks(a, g, q, at)),
            },
        },
    }
}

/// The factor by which a step scales `z`, of height `n`, first:
/// `|det(z)|^(-1/n)`, computed as one over the product of the `n`-th roots
/// of the sizes of the pivots of `z`, so that a determinant beyond the range
/// does not stop the solver. `None` when `z` cannot be reduced, or that
/// product is zero, or the factor is clipped.
pub open spec fn sign_scale(z: Seq<Seq<int>>) -> Option<int> {
    match mat_gauge(z) {
        None => None,
        Some(s) => if s == 0 || !in_range(fx_div(SCALE as int, s)) {
            None
        } else {
            Some(fx_div(SCALE as int, s))
        },
    }
}

/// One step of the scaled sign iteration: `z` is scaled by `sign_scale(z)`
/// to `y`, and the step gives `y - (y - inverse(y)) / 2`. `None` when there
/// is no scale, `y` has no inverse, or a value leaves the range.
pub open spec fn sign_step(z: Seq<Seq<int>>) -> Option<Seq<Seq<int>>> {
    match sign_scale(z) {
        None => None,
        Some(c) => match guarded(mat_scale(z, c)) {
            None => None,
            Some(y) => match mat_inverse(y) {
                None => None,
                Some(yi) => match guarded(mat_sub(y, yi)) {
                    None => None,
                    Some(gap) => guarded(mat_sub(y, mat_half(gap))),
                },
            },
        },
    }
}

/// Whether the step from `prev` to `next` is within the relative tolerance:
/// the norm of the change is less than `tolerance` times the norm of `prev`.
/// The two sides are compared as exact integers, without a rounded product
/// or quotient. A norm of the change that is clipped, as it is when an entry
/// of the change is, counts as too large; a clipped norm of `prev` only
/// makes the bound smaller.
pub open spec fn converged(next: Seq<Seq<int>>, prev: Seq<Seq<int>>, tolerance: int) -> bool {
    let change = mat_norm(mat_sub(next, prev));
    in_range(change) && change * SCALE < tolerance * mat_norm(prev)
}

/// The limit of the sign iteration from `z`, within `budget` steps.
pub open spec fn sign_iterate(z: Seq<Seq<int>>, tolerance: int, budget: nat) -> Result<
    Seq<Seq<int>>,
    RiccatiError,
>
    decreases budget,
{
    if budget == 0 {
        Err(RiccatiError::ConvergenceFailure)
    } else {
        match sign_step(z) {
            None => Err(RiccatiError::SingularMatrix),
            Some(next) => if converged(next, z, tolerance) {
                Ok(next)
            } else {
                sign_iterate(next, tolerance, (budget - 1) as nat)
            },
        }
    }
}

/// The solution read off the limit `w` of the iteration: with `w11` and
/// `w12` the top blocks of `w`, it is `inverse(w12) * (w11 + I)`. `None`
/// when `w12` has no inverse or a value leaves the range.
pub open spec fn stabilizing_solution(w: Seq<Seq<int>>, n: nat) -> Option<Seq<Seq<int>>> {
    let w11 = mat_block(w, 0, 0, n, n);
    let w12 = mat_block(w, 0, n as int, n, n);
    match mat_inverse(w12) {
        None => None,
        Some(inv) => match guarded(mat_add(w11, mat_identity(n))) {
            None => None,
            Some(shifted) => mul_guarded(inv, shifted),
        },
    }
}

/// What `solve_cont_riccati` returns.
pub open spec fn riccati_solution(
    a: Seq<Seq<int>>,
    b: Seq<Seq<int>>,
    q: Seq<Seq<int>>,
    r: Seq<Seq<int>>,
    tolerance: int,
    max_iterations: nat,
) -> Result<Seq<Seq<int>>, RiccatiError> {
    if !shapes_agree(a, b, q, r) {
        Err(RiccatiError::DimensionMismatch)
    } else {
        match cost_inverse(r) {
            None => Err(RiccatiError::SingularCostMatrix),
            Some(rinv) => match hamiltonian(a, b, q, rinv) {
                None => Err(RiccatiError::SingularMatrix),
                Some(z) => match sign_iterate(z, tolerance, max_iterations) {
                    Err(e) => Err(e),
                    Ok(w) => match stabilizing_solution(w, a.len()) {
                        None => Err(RiccatiError::SingularMatrix),
                        Some(h) => Ok(h),
                    },
                },
            },
        }
    }
}

/// Whether the four matrices are well formed and their shapes fit together.
pub fn check_shapes(a: &Matrix, b: &Matrix, q: &Matrix, r: &Matrix) -> (ok: bool)
    ensures
        ok == shapes_agree(a@, b@, q@, r@),
{
    if !a.is_well_formed() || !b.is_well_formed() || !q.is_well_formed() || !r.is_well_formed() {
        return false;
    }
    let s = a.nrows();
    let c = b.ncols();
    a.ncols() == s && b.nrows() == s && q.nrows() == s && q.ncols() == s && r.nrows() == c
        && r.ncols() == c
}

/// The matrix, unless an entry of it is clipped.
pub fn guard(m: Matrix) -> (res: Option<Matrix>)
    ensures
        res is None <==> guarded(m@) is None,
        res matches Some(same) ==> same@ == m@ && mat_in_range(m@),
{
    if m.is_in_range() {
        Some(m)
    } else {
        None
    }
}

/// The product `a * b`, unless a value in it is clipped.
pub fn guarded_product(a: &Matrix, b: &Matrix) -> (res: Option<Matrix>)
    requires
        a.wf(),
        b.wf(),
        width(a@) == b@.len(),
    ensures
        res is None <==> mul_guarded(a@, b@) is None,
        res matches Some(m) ==> {
            &&& m.wf()
            &&& mul_guarded(a@, b@) == Some(m@)
            &&& m@.len() == a@.len()
            &&& width(m@) == width(b@)
        },
{
    if a.product_is_in_range(b) {
        Some(a.product(b))
    } else {
        None
    }
}

/// The inverse of the control cost, or `None` when it is not positive
/// definite or a value leaves the range.
pub fn invert_cost(r: &Matrix) -> (res: Option<Matrix>)
    requires
        r.wf(),
        is_square(r@),
    ensures
        res is None <==> cost_inverse(r@) is None,
        res matches Some(m) ==> {
            &&& m.wf()
            &&& is_square(m@)
            &&& m@.len() == r@.len()
            &&& cost_inverse(r@) == Some(m@)
        },
{
    match r.cholesky() {
        None => None,
        Some(l) => match l.invert() {
            None => None,
            Some(found) => {
                let lit = found.inverse.transpose();
                guarded_product(&lit, &found.inverse)
            },
        },
    }
}

/// One step of the scaled sign iteration.
fn step(z: &Matrix) -> (res: Option<Matrix>)
    requires
        z.wf(),
        is_square(z@),
    ensures
        res is None <==> sign_step(z@) is None,
        res matches Some(m) ==> {
            &&& m.wf()
            &&& is_square(m@)
            &&& m@.len() == z@.len()
            &&& sign_step(z@) == Some(m@)
        },
{
    let root = match z.invert() {
        None => {
            return None;
        },
        Some(found) => found.gauge,
    };
    let c = match Fixed::one().checked_div(root) {
        None => {
            return None;
        },
        Some(c) => c,
    };
    if !c.is_in_range() {
        return None;
    }
    let y = z.scaled(c);
    if !y.is_in_range() {
        return None;
    }
    let yi = match y.invert() {
        None => {
            return None;
        },
        Some(found) => found.inverse,
    };
    let gap = y.difference(&yi);
    if !gap.is_in_range() {
        return None;
    }
    let next = y.difference(&gap.halved());
    if !next.is_in_range() {
        return None;
    }
    Some(next)
}

/// Whether the step from `prev` to `next` is within the relative tolerance.
fn within_tolerance(next: &Matrix, prev: &Matrix, tolerance: Fixed) -> (r: bool)
    requires
        next.wf(),
        prev.wf(),
        next@.len() == prev@.len(),
        width(next@) == width(prev@),
    ensures
        r == converged(next@, prev@, tolerance@),
{
    let change_norm = next.difference(prev).norm();
    if !change_norm.is_in_range() {
        return false;
    }
    let change: i128 = change_norm.raw as i128;
    let size: i128 = prev.norm().raw as i128;
    let bound: i128 = tolerance.raw as i128;
    assert(-0x4000_0000_0000_0000_0000_0000_0000_0000 <= bound * size
        <= 0x4000_0000_0000_0000_0000_0000_0000_0000) by (nonlinear_arith)
        requires
            -0x8000_0000_0000_0000 <= bound <= 0x8000_0000_0000_0000,
            -0x8000_0000_0000_0000 <= size <= 0x8000_0000_0000_0000,
    ;
    let unit: i128 = SCALE as i128;
    change * unit < bound * size
}

/// The limit of the sign iteration from `z`.
fn iterate(z: Matrix, tolerance: Fixed, max_iterations: usize) -> (res: Result<
    Matrix,
    RiccatiError,
>)
    requires
        z.wf(),
        is_square(z@),
    ensures
        res matches Ok(w) ==> {
            &&& w.wf()
            &&& is_square(w@)
            &&& w@.len() == z@.len()
            &&& sign_iterate(z@, tolerance@, max_iterations as nat) == Ok::<
                Seq<Seq<int>>,
                RiccatiError,
            >(w@)
        },
        res matches Err(e) ==> sign_iterate(z@, tolerance@, max_iterations as nat) == Err::<
            Seq<Seq<int>>,
            RiccatiError,
        >(e),
{
    let ghost start = z@;
    let mut current = z;
    let mut done: usize = 0;
    while done < max_iterations
        invariant
            done <= max_iterations,
            start == z@,
            current.wf(),
            is_square(current@),
            current@.len() == start.len(),
            sign_iterate(start, tolerance@, max_iterations as nat) == sign_iterate(
                current@,
                tolerance@,
                (max_iterations - done) as nat,
            ),
        decreases max_iterations - done,
    {
        match step(&current) {
            None => {
                return Err(RiccatiError::SingularMatrix);
            },
            Some(next) => {
                if within_tolerance(&next, &current, tolerance) {
                    return Ok(next);
                }
                current = next;
            },
        }
        done = done + 1;
    }
    Err(RiccatiError::ConvergenceFailure)
}

/// Solves the continuous-time algebraic Riccati equation
/// `A'H + HA - H B R^-1 B' H + Q = 0` for its stabilizing solution `H`.
///
/// `a` is S x S, `b` is S x C, `q` is S x S and `r` is C x C; anything else
/// is a `DimensionMismatch`. A cost `r` that is not positive definite is a
/// `SingularCostMatrix`. The iteration stops when the change of one step,
/// in the Frobenius norm, is less than `tolerance` times the norm of the
/// matrix before the step; `max_iterations` steps without that are a
/// `ConvergenceFailure`. A matrix without an inverse, in a step or when the
/// solution is read off, is a `SingularMatrix`.
///
/// No solution rests on a clipped value: a number that reaches an end of
/// the range is a `SingularCostMatrix` while the cost is inverted and a
/// `SingularMatrix` after that.
pub fn solve_cont_riccati(
    a: &Matrix,
    b: &Matrix,
    q: &Matrix,
    r: &Matrix,
    tolerance: Fixed,
    max_iterations: usize,
) -> (res: Result<Matrix, RiccatiError>)
    ensures
        res matches Ok(h) ==> {
            &&& h.wf()
            &&& is_square(h@)
            &&& h@.len() == a@.len()
            &&& riccati_solution(a@, b@, q@, r@, tolerance@, max_iterations as nat) == Ok::<
                Seq<Seq<int>>,
                RiccatiError,
            >(h@)
        },
        res matches Err(e) ==> riccati_solution(
            a@,
            b@,
            q@,
            r@,
            tolerance@,
            max_iterations as nat,
        ) == Err::<Seq<Seq<int>>, RiccatiError>(e),
{
    if !check_shapes(a, b, q, r) {
        return Err(RiccatiError::DimensionMismatch);
    }
    let rinv = match invert_cost(r) {
        None => {
            return Err(RiccatiError::SingularCostMatrix);
        },
        Some(m) => m,
    };
    let bt = b.transpose();
    let g = match guarded_product(b, &rinv) {
        None => {
            return Err(RiccatiError::SingularMatrix);
        },
        Some(br) => match guarded_product(&br, &bt) {
            None => {
                return Err(RiccatiError::SingularMatrix);
            },
            Some(g) => g,
        },
    };
    let at = a.transpose().negated();
    if !at.is_in_range() {
        return Err(RiccatiError::SingularMatrix);
    }
    let z = matrix_from_list(a, &g, q, &at);
    let n = a.nrows();
    let w = match iterate(z, tolerance, max_iterations) {
        Err(e) => {
            return Err(e);
        },
        Ok(w) => w,
    };
    let w11 = w.block(0, 0, n, n);
    let w12 = w.block(0, n, n, n);
    match w12.invert() {
        None => Err(RiccatiError::SingularMatrix),
        Some(found) => {
            let shifted = w11.sum(&Matrix::identity(n));
            if !shifted.is_in_range() {
                return Err(RiccatiError::SingularMatrix);
            }
            match guarded_product(&found.inverse, &shifted) {
                None => Err(RiccatiError::SingularMatrix),
                Some(h) => Ok(h),
            }
        },
    }
}

/// A guarded product holds no clipped value.
pub proof fn lemma_guarded_product_is_in_range(a: Seq<Seq<int>>, b: Seq<Seq<int>>)
    requires
        mul_guarded(a, b) is Some,
    ensures
        mat_in_range(mul_guarded(a, b)->0),
{
    let m = mat_mul(a, b);
    let bt = mat_transpose(b);
    assert forall|i: int| 0 <= i < m.len() implies row_in_range(#[trigger] m[i]) by {
        assert forall|j: int| 0 <= j < m[i].len() implies in_range(#[trigger] m[i][j]) by {
            assert(dot_in_range(a[i], bt[j], width(a)));
        }
    }
}

/// A solution holds no clipped value: the solver does not return what
/// saturation has touched.
pub proof fn lemma_solution_is_in_range(
    a: Seq<Seq<int>>,
    b: Seq<Seq<int>>,
    q: Seq<Seq<int>>,
    r: Seq<Seq<int>>,
    tolerance: int,
    max_iterations: nat,
)
    requires
        riccati_solution(a, b, q, r, tolerance, max_iterations) is Ok,
    ensures
        mat_in_range(riccati_solution(a, b, q, r, tolerance, max_iterations)->Ok_0),
{
    let rinv = cost_inverse(r)->0;
    let z = hamiltonian(a, b, q, rinv)->0;
    let w = sign_iterate(z, tolerance, max_iterations)->Ok_0;
    let n = a.len();
    let inv = mat_inverse(mat_block(w, 0, n as int, n, n))->0;
    let shifted = mat_add(mat_block(w, 0, 0, n, n), mat_identity(n));
    lemma_guarded_product_is_in_range(inv, shifted);
}

/// A control cost whose first entry is not positive is not positive
/// definite: the solver answers `SingularCostMatrix`, whatever the other
/// matrices hold.
pub proof fn lemma_nonpositive_cost_is_singular(
    a: Seq<Seq<int>>,
    b: Seq<Seq<int>>,
    q: Seq<Seq<int>>,
    r: Seq<Seq<int>>,
    tolerance: int,
    max_iterations: nat,
)
    requires
        shapes_agree(a, b, q, r),
        r[0][0] <= 0,
    ensures
        riccati_solution(a, b, q, r, tolerance, max_iterations) == Err::<
            Seq<Seq<int>>,
            RiccatiError,
        >(RiccatiError::SingularCostMatrix),
{
    assert(chol_cols(r, 0) is Some);
    assert(chol_cols(r, 1) is None);
    lemma_chol_fails_on(r, 1, r.len());
}

/// A limit of the sign iteration is never an unconverged iterate: it is the
/// result of a step whose change, in the exact Frobenius norm, was less than
/// the tolerance times the norm of the matrix before the step.
pub proof fn lemma_limit_meets_tolerance(z: Seq<Seq<int>>, tolerance: int, budget: nat)
    requires
        sign_iterate(z, tolerance, budget) is Ok,
    ensures
        exists|prev: Seq<Seq<int>>| #[trigger]
            sign_step(prev) == Some(sign_iterate(z, tolerance, budget)->Ok_0) && converged(
                sign_iterate(z, tolerance, budget)->Ok_0,
                prev,
                tolerance,
            ),
    decreases budget,
{
    let next = sign_step(z)->0;
    if converged(next, z, tolerance) {
        assert(sign_step(z) == Some(sign_iterate(z, tolerance, budget)->Ok_0));
    } else {
        lemma_limit_meets_tolerance(next, tolerance, (budget - 1) as nat);
    }
}

/// A step that counts as converged changed no entry by a clipped amount, and
/// changed nothing at all if the norm of the change is zero.
pub proof fn lemma_converged_change_is_measured(
    next: Seq<Seq<int>>,
    prev: Seq<Seq<int>>,
    tolerance: int,
    i: int,
    j: int,
)
    requires
        converged(next, prev, tolerance),
        0 <= i < mat_sub(next, prev).len(),
        0 <= j < mat_sub(next, prev)[i].len(),
    ensures
        in_range(mat_sub(next, prev)[i][j]),
        mat_norm(mat_sub(next, prev)) == 0 ==> mat_sub(next, prev)[i][j] == 0,
{
    let change = mat_sub(next, prev);
    lemma_norm_in_range_covers_entries(change, i, j);
    if mat_norm(change) == 0 {
        lemma_norm_is_zero_only_for_zeros(change, i, j);
    }
}

/// A tolerance that is not positive is never met: a norm is not negative.
pub proof fn lemma_no_tolerance_no_limit(z: Seq<Seq<int>>, tolerance: int, budget: nat)
    requires
        tolerance <= 0,
    ensures
        sign_iterate(z, tolerance, budget) is Err,
    decreases budget,
{
    if budget > 0 {
        match sign_step(z) {
            None => {},
            Some(next) => {
                lemma_norm_is_not_negative(mat_sub(next, z));
                lemma_norm_is_not_negative(z);
                let change = mat_norm(mat_sub(next, z));
                let size = mat_norm(z);
                assert(tolerance * size <= 0) by (nonlinear_arith)
                    requires
                        tolerance <= 0,
                        size >= 0,
                ;
                lemma_no_tolerance_no_limit(next, tolerance, (budget - 1) as nat);
            },
        }
    }
}

/// With no iteration allowed, a well-posed problem ends in
/// `ConvergenceFailure`.
pub proof fn lemma_no_budget_no_solution(
    a: Seq<Seq<int>>,
    b: Seq<Seq<int>>,
    q: Seq<Seq<int>>,
    r: Seq<Seq<int>>,
    tolerance: int,
)
    requires
        shapes_agree(a, b, q, r),
        cost_inverse(r) matches Some(rinv) && hamiltonian(a, b, q, rinv) is Some,
    ensures
        riccati_solution(a, b, q, r, tolerance, 0) == Err::<Seq<Seq<int>>, RiccatiError>(
            RiccatiError::ConvergenceFailure,
        ),
{
}

} // verus!
