//! Discrete single-axis PID controller.
//!
//! The integral accumulates on every tick and is cleared only on request.
//! The derivative acts on the measurement, not on the error, so a change of
//! the setpoint does not kick it.
use crate::fixed::{fx_add, fx_mul, fx_neg, fx_sub, Fixed};
use vstd::prelude::*;

verus! {

/// The terms of one control computation and their sum.
#[derive(Debug, PartialEq, Eq)]
pub struct ControlOutput<T> {
    /// The proportional term.
    pub p: T,
    /// The integral term: the sum over all ticks of `error * ki`.
    pub i: T,
    /// The derivative term.
    pub d: T,
    /// The sum of the three terms.
    pub output: T,
}

impl View for ControlOutput<Fixed> {
    type V = ControlOutput<int>;

    /// The raw values of the four numbers.
    open spec fn view(&self) -> ControlOutput<int> {
        ControlOutput { p: self.p@, i: self.i@, d: self.d@, output: self.output@ }
    }
}

/// The raw values that a PID controller holds.
pub struct PidState {
    /// The proportional gain.
    pub kp: int,
    /// The integral gain.
    pub ki: int,
    /// The derivative gain.
    pub kd: int,
    /// The setpoint.
    pub setpoint: int,
    /// The accumulated integral term.
    pub integral: int,
    /// The measurement of the tick before, once there was one.
    pub previous: Option<int>,
}

/// A proportional-integral-derivative controller.
#[derive(Clone, Copy, Debug, PartialEq, Eq)]
pub struct Pid {
    /// The proportional gain.
    pub kp: Fixed,
    /// The integral gain.
    pub ki: Fixed,
    /// The derivative gain.
    pub kd: Fixed,
    /// The setpoint.
    pub setpoint: Fixed,
    /// The accumulated integral term.
    pub integral: Fixed,
    /// The measurement of the tick before, once there was one.
    pub previous: Option<Fixed>,
}

impl View for Pid {
    type V = PidState;

    /// The raw values of the fields.
    open spec fn view(&self) -> PidState {
        PidState {
            kp: self.kp@,
            ki: self.ki@,
            kd: self.kd@,
            setpoint: self.setpoint@,
            integral: self.integral@,
            previous: match self.previous {
                Some(m) => Some(m@),
                None => None,
            },
        }
    }
}

/// The output of a tick on which `measurement` is read in state `s`.
///
/// With `error = setpoint - measurement`: the proportional term is
/// `error * kp`, the integral term is the old integral plus `error * ki`,
/// and the derivative term is `-(measurement - previous) * kd`, where a
/// missing previous measurement counts as zero.
pub open spec fn pid_output(s: PidState, measurement: int) -> ControlOutput<int> {
    let error = fx_sub(s.setpoint, measurement);
    let p = fx_mul(error, s.kp);
    let i = fx_add(s.integral, fx_mul(error, s.ki));
    let before = match s.previous {
        Some(m) => m,
        None => 0,
    };
    let d = fx_mul(fx_neg(fx_sub(measurement, before)), s.kd);
    ControlOutput { p, i, d, output: fx_add(fx_add(p, i), d) }
}

/// The state after a tick on which `measurement` is read in state `s`.
pub open spec fn pid_next(s: PidState, measurement: int) -> PidState {
    PidState { integral: pid_output(s, measurement).i, previous: Some(measurement), ..s }
}

/// The state `s` with the integral cleared.
pub open spec fn pid_reset(s: PidState) -> PidState {
    PidState { integral: 0, ..s }
}

impl Pid {
    /// A controller with the given gains and setpoint, an empty integral and
    /// no previous measurement.
    pub fn new(kp: Fixed, ki: Fixed, kd: Fixed, setpoint: Fixed) -> (r: Pid)
        ensures
            r@ == (PidState {
                kp: kp@,
                ki: ki@,
                kd: kd@,
                setpoint: setpoint@,
                integral: 0,
                previous: None,
            }),
    {
        Pid { kp, ki, kd, setpoint, integral: Fixed::zero(), previous: None }
    }

    /// Clears the integral. The previous measurement stays.
    pub fn reset_integral(&mut self)
        ensures
            final(self)@ == pid_reset(old(self)@),
    {
        self.integral = Fixed::zero();
    }

    /// Takes a measurement and returns the next control output.
    pub fn calculate(&mut self, measurement: Fixed) -> (out: ControlOutput<Fixed>)
        ensures
            out@ == pid_output(old(self)@, measurement@),
            final(self)@ == pid_next(old(self)@, measurement@),
    {
        let error = self.setpoint.sat_sub(measurement);
        let proportional = error.sat_mul(self.kp);
        let integral = self.integral.sat_add(error.sat_mul(self.ki));
        let before = match self.previous {
            Some(previous) => previous,
            None => Fixed::zero(),
        };
        let derivative = measurement.sat_sub(before).neg().sat_mul(self.kd);
        let output = proportional.sat_add(integral).sat_add(derivative);
        self.previous = Some(measurement);
        self.integral = integral;
        ControlOutput { p: proportional, i: integral, d: derivative, output }
    }
}

/// A measurement equal to the one before it gives no derivative term.
pub proof fn lemma_repeated_measurement_has_no_derivative(s: PidState, first: int, second: int)
    requires
        first == second,
    ensures
        pid_output(pid_next(s, first), second).d == 0,
{
    let kd = s.kd;
    assert(0 * kd == 0);
}

/// Clearing the integral changes nothing but the integral: the next output
/// has the same proportional and derivative terms, and its integral term is
/// the new error times `ki` alone.
pub proof fn lemma_reset_keeps_derivative(s: PidState, measurement: int)
    ensures
        pid_reset(s).previous == s.previous,
        pid_output(pid_reset(s), measurement).d == pid_output(s, measurement).d,
        pid_output(pid_reset(s), measurement).p == pid_output(s, measurement).p,
        pid_output(pid_reset(s), measurement).i == fx_add(
            0,
            fx_mul(fx_sub(s.setpoint, measurement), s.ki),
        ),
{
}

} // verus!
