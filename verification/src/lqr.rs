//! Linear-quadratic regulator with an integral trim.
//!
//! The controller feeds the state error back through the optimal gain and
//! subtracts, on one control channel, an integral of the error on one state
//! axis. The integral is cleared whenever that error is inside a small
//! deadband. This removes a steady bias on one axis; it is an approximation,
//! not a regulator designed on an augmented state.
//!
//! The number of states `S` and the number of control channels `C` are part
//! of the types, so the shapes of the matrices are checked when the program
//! is compiled and a control tick works on arrays alone.
use crate::fixed::{fx_abs, fx_add, fx_mul, fx_sub, Fixed};
use crate::matrix::{grid_of, has_shape, mat_transpose, Matrix};
use crate::riccati::{
    cost_inverse, guarded_product, invert_cost, mul_guarded, riccati_solution, solve_cont_riccati,
    RiccatiError,
};
use crate::vector::{dot, raws, row_sub};
use vstd::prelude::*;

verus! {

/// Half the width of the deadband of the integral trim: one hundredth.
pub const TRIM_DEADBAND: i64 = 10_000_000;

/// Why the controller returned no result.
#[derive(Clone, Copy, Debug, PartialEq, Eq, Structural)]
pub enum LqrError {
    /// The shapes of the matrices do not fit together, or the trim axis or
    /// the trim channel does not exist.
    DimensionMismatch,
    /// The control cost is not positive definite.
    SingularCostMatrix,
    /// A matrix that had to be inverted has no inverse.
    SingularMatrix,
    /// The iteration cap was reached before the tolerance was met.
    ConvergenceFailure,
    /// A control was asked for before a gain was computed.
    GainNotComputed,
}

/// The controller's error for a failure of the Riccati solver: the same
/// failure.
pub open spec fn lqr_error(e: RiccatiError) -> LqrError {
    match e {
        RiccatiError::DimensionMismatch => LqrError::DimensionMismatch,
        RiccatiError::SingularCostMatrix => LqrError::SingularCostMatrix,
        RiccatiError::SingularMatrix => LqrError::SingularMatrix,
        RiccatiError::ConvergenceFailure => LqrError::ConvergenceFailure,
    }
}

impl LqrError {
    /// The controller's error for a failure of the Riccati solver.
    pub fn from_riccati(e: RiccatiError) -> (r: LqrError)
        ensures
            r == lqr_error(e),
    {
        match e {
            RiccatiError::DimensionMismatch => LqrError::DimensionMismatch,
            RiccatiError::SingularCostMatrix => LqrError::SingularCostMatrix,
            RiccatiError::SingularMatrix => LqrError::SingularMatrix,
            RiccatiError::ConvergenceFailure => LqrError::ConvergenceFailure,
        }
    }
}

/// A linear system `x' = a x + b u` with the quadratic cost `x' q x + u' r u`.
pub struct LinearSystem {
    /// The state matrix, S x S.
    pub a: Seq<Seq<int>>,
    /// The control matrix, S x C.
    pub b: Seq<Seq<int>>,
    /// The state cost, S x S.
    pub q: Seq<Seq<int>>,
    /// The control cost, C x C.
    pub r: Seq<Seq<int>>,
}

/// The solution of a regulator problem.
pub struct Synthesis {
    /// The stabilizing solution `H` of the Riccati equation, S x S.
    pub solution: Seq<Seq<int>>,
    /// The optimal gain `K`, C x S.
    pub gain: Seq<Seq<int>>,
}

/// The gain `rinv * b' * h` for the solution `h` of the Riccati equation,
/// or `None` when a value in it is clipped.
pub open spec fn feedback_gain(b: Seq<Seq<int>>, rinv: Seq<Seq<int>>, h: Seq<Seq<int>>) -> Option<
    Seq<Seq<int>>,
> {
    match mul_guarded(rinv, mat_transpose(b)) {
        None => None,
        Some(rb) => mul_guarded(rb, h),
    }
}

/// The solution of the Riccati equation for `sys` and the gain
/// `K = R^-1 B' H` that goes with it, or the failure of the solver. A gain
/// with a clipped value is a `SingularMatrix`.
pub open spec fn lqr_gain(sys: LinearSystem, tolerance: int, max_iterations: nat) -> Result<
    Synthesis,
    LqrError,
> {
    match riccati_solution(sys.a, sys.b, sys.q, sys.r, tolerance, max_iterations) {
        Err(e) => Err(lqr_error(e)),
        Ok(h) => match feedback_gain(sys.b, cost_inverse(sys.r)->0, h) {
            None => Err(LqrError::SingularMatrix),
            Some(k) => Ok(Synthesis { solution: h, gain: k }),
        },
    }
}

/// The trim integral after a tick on which the error on the trim axis is
/// `y`: zero inside the deadband, else the old integral plus `y * ki`.
pub open spec fn trim_update(integral: int, ki: int, y: int) -> int {
    if fx_abs(y) < TRIM_DEADBAND {
        0
    } else {
        fx_add(integral, fx_mul(y, ki))
    }
}

/// The product of the gain `k` and the state error.
pub open spec fn feedback(k: Seq<Seq<int>>, error: Seq<int>) -> Seq<int> {
    Seq::new(k.len(), |c: int| dot(k[c], error, error.len()))
}

/// The control vector: the feedback `k * error` with `integral` subtracted
/// on the trim channel.
pub open spec fn control_law(k: Seq<Seq<int>>, error: Seq<int>, integral: int, channel: int) -> Seq<
    int,
> {
    let u = feedback(k, error);
    u.update(channel, fx_sub(u[channel], integral))
}

/// What a controller holds.
pub struct LqrState {
    /// The system the gain was computed for, if one was.
    pub model: Option<LinearSystem>,
    /// The solution of the Riccati equation for that system.
    pub solution: Option<Seq<Seq<int>>>,
    /// The optimal gain, C x S.
    pub gain: Option<Seq<Seq<int>>>,
    /// The coefficient of the integral trim.
    pub ki: int,
    /// The accumulated integral of the error on the trim axis.
    pub integral_error: int,
    /// The state axis whose error is integrated.
    pub trim_axis: nat,
    /// The control channel from which the integral is subtracted.
    pub trim_channel: nat,
    /// The iteration cap handed to the Riccati solver.
    pub max_iterations: nat,
}

/// Whether the controller has a gain and the trim axis and the trim channel
/// exist: the axis among the entries of a state, the channel among the rows
/// of the gain.
pub open spec fn tick_fits(s: LqrState, current: Seq<int>, desired: Seq<int>) -> bool {
    &&& s.gain matches Some(k)
    &&& s.trim_axis < current.len()
    &&& s.trim_channel < k.len()
}

/// The trim integral after a tick with the given states.
pub open spec fn tick_integral(s: LqrState, current: Seq<int>, desired: Seq<int>) -> int {
    trim_update(s.integral_error, s.ki, row_sub(desired, current)[s.trim_axis as int])
}

/// What `compute_optimal_controls` returns in state `s`.
pub open spec fn tick_controls(s: LqrState, current: Seq<int>, desired: Seq<int>) -> Result<
    Seq<int>,
    LqrError,
> {
    match s.gain {
        None => Err(LqrError::GainNotComputed),
        Some(k) => if tick_fits(s, current, desired) {
            Ok(
                control_law(
                    k,
                    row_sub(desired, current),
                    tick_integral(s, current, desired),
                    s.trim_channel as int,
                ),
            )
        } else {
            Err(LqrError::DimensionMismatch)
        },
    }
}

/// The state in which `compute_optimal_controls` leaves a controller that
/// was in state `s`: on an error, `s`.
pub open spec fn tick_next(s: LqrState, current: Seq<int>, desired: Seq<int>) -> LqrState {
    if tick_fits(s, current, desired) {
        LqrState { integral_error: tick_integral(s, current, desired), ..s }
    } else {
        s
    }
}

/// The statement of a regulator problem with `S` states and `C` control
/// channels: a linear system and its cost.
#[derive(Clone, Copy, Debug)]
pub struct LinearQuadraticRegulator<const S: usize, const C: usize> {
    /// The state matrix.
    pub a: [[Fixed; S]; S],
    /// The control matrix.
    pub b: [[Fixed; C]; S],
    /// The state cost, symmetric and positive semi-definite.
    pub q: [[Fixed; S]; S],
    /// The control cost, symmetric and positive definite.
    pub r: [[Fixed; C]; C],
}

impl<const S: usize, const C: usize> View for LinearQuadraticRegulator<S, C> {
    type V = LinearSystem;

    /// The grids of raw values of the four matrices.
    open spec fn view(&self) -> LinearSystem {
        LinearSystem { a: grid_of(self.a), b: grid_of(self.b), q: grid_of(self.q), r: grid_of(self.r) }
    }
}

impl<const S: usize, const C: usize> LinearQuadraticRegulator<S, C> {
    /// The problem with state matrix `a`, control matrix `b`, state cost `q`
    /// and control cost `r`.
    pub fn new(a: [[Fixed; S]; S], b: [[Fixed; C]; S], q: [[Fixed; S]; S], r: [[Fixed; C]; C]) -> (m:
        LinearQuadraticRegulator<S, C>)
        ensures
            m@ == (LinearSystem { a: grid_of(a), b: grid_of(b), q: grid_of(q), r: grid_of(r) }),
    {
        LinearQuadraticRegulator { a, b, q, r }
    }

    /// The solution `H` of the Riccati equation and the optimal gain
    /// `K = R^-1 B' H`, in that order.
    ///
    /// A problem without states or without control channels is a
    /// `DimensionMismatch`; a failure of the solver comes back unchanged; a
    /// gain with a clipped value is a `SingularMatrix`.
    pub fn synthesize(&self, tolerance: Fixed, max_iterations: usize) -> (res: Result<
        ([[Fixed; S]; S], [[Fixed; S]; C]),
        LqrError,
    >)
        ensures
            res matches Ok(hk) ==> lqr_gain(self@, tolerance@, max_iterations as nat) == Ok::<
                Synthesis,
                LqrError,
            >(Synthesis { solution: grid_of(hk.0), gain: grid_of(hk.1) }),
            res matches Err(e) ==> lqr_gain(self@, tolerance@, max_iterations as nat) == Err::<
                Synthesis,
                LqrError,
            >(e),
    {
        let a = Matrix::from_array(&self.a);
        let b = Matrix::from_array(&self.b);
        let q = Matrix::from_array(&self.q);
        let r = Matrix::from_array(&self.r);
        let h = match solve_cont_riccati(&a, &b, &q, &r, tolerance, max_iterations) {
            Err(e) => {
                return Err(LqrError::from_riccati(e));
            },
            Ok(h) => h,
        };
        let rinv = match invert_cost(&r) {
            None => {
                return Err(LqrError::SingularCostMatrix);
            },
            Some(m) => m,
        };
        let k = match guarded_product(&rinv, &b.transpose()) {
            None => {
                return Err(LqrError::SingularMatrix);
            },
            Some(rb) => match guarded_product(&rb, &h) {
                None => {
                    return Err(LqrError::SingularMatrix);
                },
                Some(k) => k,
            },
        };
        assert(b@[0].len() == C);
        match (h.to_array::<S, S>(), k.to_array::<C, S>()) {
            (Some(solution), Some(gain)) => Ok((solution, gain)),
            _ => Err(LqrError::DimensionMismatch),
        }
    }
}

/// A linear-quadratic regulator with an integral trim, for a system with
/// `S` states and `C` control channels.
#[derive(Clone, Copy, Debug)]
pub struct LqrController<const S: usize, const C: usize> {
    model: Option<LinearQuadraticRegulator<S, C>>,
    solution: Option<[[Fixed; S]; S]>,
    k: Option<[[Fixed; S]; C]>,
    ki: Fixed,
    integral_error: Fixed,
    trim_axis: usize,
    trim_channel: usize,
    max_iterations: usize,
}

impl<const S: usize, const C: usize> View for LqrController<S, C> {
    type V = LqrState;

    closed spec fn view(&self) -> LqrState {
        LqrState {
            model: match self.model {
                Some(m) => Some(m@),
                None => None,
            },
            solution: match self.solution {
                Some(h) => Some(grid_of(h)),
                None => None,
            },
            gain: match self.k {
                Some(k) => Some(grid_of(k)),
                None => None,
            },
            ki: self.ki@,
            integral_error: self.integral_error@,
            trim_axis: self.trim_axis as nat,
            trim_channel: self.trim_channel as nat,
            max_iterations: self.max_iterations as nat,
        }
    }
}

impl<const S: usize, const C: usize> LqrController<S, C> {
    /// A controller without a gain and without integral trim: the trim
    /// coefficient is zero, the trim reads state axis 1 and acts on control
    /// channel 0, and the solver may take 100 iterations.
    pub fn new() -> (r: LqrController<S, C>)
        ensures
            r@ == (LqrState {
                model: None,
                solution: None,
                gain: None,
                ki: 0,
                integral_error: 0,
                trim_axis: 1,
                trim_channel: 0,
                max_iterations: 100,
            }),
    {
        LqrController {
            model: None,
            solution: None,
            k: None,
            ki: Fixed::zero(),
            integral_error: Fixed::zero(),
            trim_axis: 1,
            trim_channel: 0,
            max_iterations: 100,
        }
    }

    /// The gain of a controller for `S` states and `C` channels has `C` rows
    /// of `S` entries.
    pub proof fn lemma_gain_shape(self)
        ensures
            self@.gain matches Some(k) ==> has_shape(k, C as int, S as int),
    {
    }

    /// Sets the coefficient of the integral trim.
    pub fn set_integral_gain(&mut self, ki: Fixed)
        ensures
            final(self)@ == (LqrState { ki: ki@, ..old(self)@ }),
    {
        self.ki = ki;
    }

    /// Sets the state axis whose error is integrated and the control channel
    /// from which the integral is subtracted.
    pub fn set_trim(&mut self, axis: usize, channel: usize)
        ensures
            final(self)@ == (LqrState {
                trim_axis: axis as nat,
                trim_channel: channel as nat,
                ..old(self)@
            }),
    {
        self.trim_axis = axis;
        self.trim_channel = channel;
    }

    /// Sets the iteration cap handed to the Riccati solver.
    pub fn set_max_iterations(&mut self, max_iterations: usize)
        ensures
            final(self)@ == (LqrState { max_iterations: max_iterations as nat, ..old(self)@ }),
    {
        self.max_iterations = max_iterations;
    }

    /// The optimal gain, if one was computed.
    pub fn gain(&self) -> (r: Option<[[Fixed; S]; C]>)
        ensures
            r is Some <==> self@.gain is Some,
            r matches Some(k) ==> self@.gain == Some(grid_of(k)),
    {
        self.k
    }

    /// The solution of the Riccati equation that the gain was computed from.
    pub fn solution(&self) -> (r: Option<[[Fixed; S]; S]>)
        ensures
            r is Some <==> self@.solution is Some,
            r matches Some(h) ==> self@.solution == Some(grid_of(h)),
    {
        self.solution
    }

    /// The system that the gain was computed for.
    pub fn model(&self) -> (r: Option<LinearQuadraticRegulator<S, C>>)
        ensures
            r is Some <==> self@.model is Some,
            r matches Some(m) ==> self@.model == Some(m@),
    {
        self.model
    }

    /// The accumulated integral of the error on the trim axis.
    pub fn integral_error(&self) -> (r: Fixed)
        ensures
            r@ == self@.integral_error,
    {
        self.integral_error
    }

    /// Computes, stores and returns the optimal gain `K = R^-1 B' H` for the
    /// system `(a, b, q, r)`, where `H` solves the Riccati equation to the
    /// relative tolerance `epsilon`.
    ///
    /// On an error the controller is left as it was, with the gain it had.
    pub fn compute_gain(
        &mut self,
        a: &[[Fixed; S]; S],
        b: &[[Fixed; C]; S],
        q: &[[Fixed; S]; S],
        r: &[[Fixed; C]; C],
        epsilon: Fixed,
    ) -> (res: Result<[[Fixed; S]; C], LqrError>)
        ensures
            res matches Ok(k) ==> {
                let sys = LinearSystem { a: grid_of(*a), b: grid_of(*b), q: grid_of(*q), r: grid_of(*r) };
                &&& lqr_gain(sys, epsilon@, old(self)@.max_iterations) matches Ok(found)
                &&& found.gain == grid_of(k)
                &&& final(self)@ == (LqrState {
                    model: Some(sys),
                    solution: Some(found.solution),
                    gain: Some(found.gain),
                    ..old(self)@
                })
            },
            res matches Err(e) ==> {
                let sys = LinearSystem { a: grid_of(*a), b: grid_of(*b), q: grid_of(*q), r: grid_of(*r) };
                &&& lqr_gain(sys, epsilon@, old(self)@.max_iterations) == Err::<Synthesis, LqrError>(e)
                &&& final(self)@ == old(self)@
            },
    {
        let model = LinearQuadraticRegulator::new(*a, *b, *q, *r);
        match model.synthesize(epsilon, self.max_iterations) {
            Err(e) => Err(e),
            Ok((h, k)) => {
                self.model = Some(model);
                self.solution = Some(h);
                self.k = Some(k);
                Ok(k)
            },
        }
    }

    /// The control for the current and the desired state.
    ///
    /// With `error = desired - current` and `y` its entry on the trim axis,
    /// the trim integral is cleared when `|y|` is less than one hundredth,
    /// else `y * ki` is added to it; the control is `K * error`, less the
    /// integral on the trim channel.
    ///
    /// `GainNotComputed` when no gain was computed; `DimensionMismatch` when
    /// the trim axis or the trim channel does not exist. On an error the
    /// controller is left as it was.
    pub fn compute_optimal_controls(&mut self, current_state: &[Fixed; S], desired_state: &[Fixed; S]) -> (res:
        Result<[Fixed; C], LqrError>)
        ensures
            res matches Ok(u) ==> tick_controls(
                old(self)@,
                raws(current_state@),
                raws(desired_state@),
            ) == Ok::<Seq<int>, LqrError>(raws(u@)),
            res matches Err(e) ==> tick_controls(
                old(self)@,
                raws(current_state@),
                raws(desired_state@),
            ) == Err::<Seq<int>, LqrError>(e),
            final(self)@ == tick_next(old(self)@, raws(current_state@), raws(desired_state@)),
    {
        let k = match self.k {
            None => {
                return Err(LqrError::GainNotComputed);
            },
            Some(k) => k,
        };
        if self.trim_axis >= S || self.trim_channel >= C {
            return Err(LqrError::DimensionMismatch);
        }
        let ghost error = row_sub(raws(desired_state@), raws(current_state@));
        let y = desired_state[self.trim_axis].sat_sub(current_state[self.trim_axis]);
        let integral = if y.abs().lt(Fixed::from_raw(TRIM_DEADBAND)) {
            Fixed::zero()
        } else {
            self.integral_error.sat_add(y.sat_mul(self.ki))
        };
        let mut controls = [Fixed::zero(); C];
        let mut c: usize = 0;
        while c < C
            invariant
                c <= C,
                error == row_sub(raws(desired_state@), raws(current_state@)),
                forall|t: int|
                    0 <= t < c ==> (#[trigger] controls[t])@ == dot(grid_of(k)[t], error, S as nat),
            decreases C - c,
        {
            let mut acc = Fixed::zero();
            let mut j: usize = 0;
            while j < S
                invariant
                    c < C,
                    j <= S,
                    error == row_sub(raws(desired_state@), raws(current_state@)),
                    acc@ == dot(grid_of(k)[c as int], error, j as nat),
                decreases S - j,
            {
                let e = desired_state[j].sat_sub(current_state[j]);
                acc = acc.sat_add(k[c][j].sat_mul(e));
                j = j + 1;
            }
            controls[c] = acc;
            c = c + 1;
        }
        assert(raws(controls@) =~= feedback(grid_of(k), error));
        controls[self.trim_channel] = controls[self.trim_channel].sat_sub(integral);
        assert(raws(controls@) =~= control_law(
            grid_of(k),
            error,
            integral@,
            self.trim_channel as int,
        ));
        self.integral_error = integral;
        Ok(controls)
    }
}

/// Before a gain is computed, a control is refused with `GainNotComputed`
/// and the controller stays as it is.
pub proof fn lemma_no_gain_no_control(s: LqrState, current: Seq<int>, desired: Seq<int>)
    requires
        s.gain is None,
    ensures
        tick_controls(s, current, desired) == Err::<Seq<int>, LqrError>(
            LqrError::GainNotComputed,
        ),
        tick_next(s, current, desired) == s,
{
}

/// Inside the deadband a tick clears the trim integral, so the control is
/// the plain feedback.
pub proof fn lemma_deadband_clears_integral(s: LqrState, current: Seq<int>, desired: Seq<int>)
    requires
        tick_fits(s, current, desired),
        fx_abs(row_sub(desired, current)[s.trim_axis as int]) < TRIM_DEADBAND,
    ensures
        tick_next(s, current, desired).integral_error == 0,
        tick_controls(s, current, desired) == Ok::<Seq<int>, LqrError>(
            feedback(s.gain->0, row_sub(desired, current)),
        ),
{
    let k = s.gain->0;
    let u = feedback(k, row_sub(desired, current));
    let c = s.trim_channel as int;
    assert(u.update(c, fx_sub(u[c], 0)) =~= u);
}

/// With a trim coefficient of zero and an empty integral, as in a new
/// controller, the integral stays empty and the control is the plain
/// feedback.
pub proof fn lemma_without_trim_control_is_feedback(
    s: LqrState,
    current: Seq<int>,
    desired: Seq<int>,
)
    requires
        tick_fits(s, current, desired),
        s.ki == 0,
        s.integral_error == 0,
    ensures
        tick_next(s, current, desired) == s,
        tick_controls(s, current, desired) == Ok::<Seq<int>, LqrError>(
            feedback(s.gain->0, row_sub(desired, current)),
        ),
{
    let error = row_sub(desired, current);
    let y = error[s.trim_axis as int];
    assert(y * 0 == 0);
    let u = feedback(s.gain->0, error);
    let c = s.trim_channel as int;
    assert(u.update(c, fx_sub(u[c], 0)) =~= u);
}

/// A synthesis fails whenever the Riccati solver fails, and with the same
/// failure.
pub proof fn lemma_gain_fails_as_solver(sys: LinearSystem, tolerance: int, max_iterations: nat)
    ensures
        riccati_solution(sys.a, sys.b, sys.q, sys.r, tolerance, max_iterations) matches Err(e)
            ==> lqr_gain(sys, tolerance, max_iterations) == Err::<Synthesis, LqrError>(
            lqr_error(e),
        ),
{
}

} // verus!
