//! One call for either control strategy.
//!
//! The regulator and the PID controller are independent: a loop picks one
//! of them. This trait gives both the same shape, so that a main loop can
//! be written once for whichever law it is handed.
use crate::fixed::Fixed;
use crate::lqr::{tick_controls, tick_next, LqrController, LqrError};
use crate::pid::{pid_next, pid_output, ControlOutput, Pid};
use crate::vector::raws;
use vstd::prelude::*;

verus! {

/// A control law that is evaluated once per tick.
pub trait ControlLaw {
    /// What the law reads on a tick.
    type Measurement;

    /// What the law returns on a tick.
    type Output;

    /// Evaluates the law for one tick.
    fn compute(&mut self, measurement: &Self::Measurement) -> Result<Self::Output, LqrError>;
}

impl ControlLaw for Pid {
    type Measurement = Fixed;

    type Output = ControlOutput<Fixed>;

    /// One `calculate`; it never fails.
    fn compute(&mut self, measurement: &Fixed) -> (res: Result<ControlOutput<Fixed>, LqrError>)
        ensures
            res matches Ok(out) && out@ == pid_output(old(self)@, measurement@),
            final(self)@ == pid_next(old(self)@, measurement@),
    {
        Ok(self.calculate(*measurement))
    }
}

impl<const S: usize, const C: usize> ControlLaw for LqrController<S, C> {
    type Measurement = ([Fixed; S], [Fixed; S]);

    type Output = [Fixed; C];

    /// One `compute_optimal_controls` on the pair of the current and the
    /// desired state.
    fn compute(&mut self, measurement: &([Fixed; S], [Fixed; S])) -> (res: Result<
        [Fixed; C],
        LqrError,
    >)
        ensures
            res matches Ok(u) ==> tick_controls(
                old(self)@,
                raws(measurement.0@),
                raws(measurement.1@),
            ) == Ok::<Seq<int>, LqrError>(raws(u@)),
            res matches Err(e) ==> tick_controls(
                old(self)@,
                raws(measurement.0@),
                raws(measurement.1@),
            ) == Err::<Seq<int>, LqrError>(e),
            final(self)@ == tick_next(old(self)@, raws(measurement.0@), raws(measurement.1@)),
    {
        self.compute_optimal_controls(&measurement.0, &measurement.1)
    }
}

} // verus!
