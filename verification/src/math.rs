//! Numerical integrators: fourth-order Runge-Kutta, Verlet, Stormer-Verlet.
use crate::fixed::{
    clamp, fixed, fx_add, fx_half, fx_mul, fx_mul_square, round_div, round_quotient, sat, Fixed,
    SCALE,
};
use vstd::prelude::*;

verus! {

/// Why an integrator returned no result.
#[derive(Clone, Copy, Debug, PartialEq, Eq, Structural)]
pub enum IntegrationError {
    /// The step is zero or negative.
    InvalidStep,
    /// The step cap was reached before the end condition was met.
    ConvergenceFailure,
}

/// The number of Runge-Kutta steps from `x0` to `x` with a positive step:
/// the quotient `(x - x0) / step` rounded down, and none when `x <= x0`.
pub open spec fn rk4_steps(x0: int, x: int, step: int) -> nat {
    if x > x0 {
        ((x - x0) / step) as nat
    } else {
        0
    }
}

/// The change of `y` over one step with the four slopes `k1 .. k4`, each
/// already multiplied by the step: `(k1 + 2 k2 + 2 k3 + k4) / 6`, rounded
/// once.
pub open spec fn rk4_increment(k1: int, k2: int, k3: int, k4: int) -> int {
    sat(round_div(k1 + 2 * k2 + 2 * k3 + k4, 6))
}

/// Whether `s1 .. s4` are results of the equation at the four points of one
/// classic Runge-Kutta step of size `h` from `(x, y)`, and `y_next` is the
/// value that they give.
pub open spec fn rk4_step_with<F: Fn(Fixed, Fixed) -> Fixed>(
    equation: F,
    h: Fixed,
    x: Fixed,
    y: Fixed,
    s1: Fixed,
    s2: Fixed,
    s3: Fixed,
    s4: Fixed,
    y_next: Fixed,
) -> bool {
    let k1 = fx_mul(h@, s1@);
    let k2 = fx_mul(h@, s2@);
    let k3 = fx_mul(h@, s3@);
    let k4 = fx_mul(h@, s4@);
    let x_mid = fixed(fx_add(x@, fx_half(h@)));
    let x_end = fixed(fx_add(x@, h@));
    &&& equation.ensures((x, y), s1)
    &&& equation.ensures((x_mid, fixed(fx_add(y@, fx_half(k1)))), s2)
    &&& equation.ensures((x_mid, fixed(fx_add(y@, fx_half(k2)))), s3)
    &&& equation.ensures((x_end, fixed(fx_add(y@, k3))), s4)
    &&& y_next@ == fx_add(y@, rk4_increment(k1, k2, k3, k4))
}

/// Whether one Runge-Kutta step of size `h` can lead from `(x, y)` to the
/// value `y_next`: some results of the equation at the four points of the
/// step give it.
pub open spec fn rk4_step<F: Fn(Fixed, Fixed) -> Fixed>(
    equation: F,
    h: Fixed,
    x: Fixed,
    y: Fixed,
    y_next: Fixed,
) -> bool {
    exists|s1: Fixed, s2: Fixed, s3: Fixed, s4: Fixed| #[trigger]
        rk4_step_with(equation, h, x, y, s1, s2, s3, s4, y_next)
}

/// The abscissa after `i` steps of size `h` from `x0`.
pub open spec fn rk4_x(x0: int, h: int, i: nat) -> int
    decreases i,
{
    if i == 0 {
        x0
    } else {
        fx_add(rk4_x(x0, h, (i - 1) as nat), h)
    }
}

/// Whether step `i` of a run from `x0` can lead from `ys[i]` to `ys[i + 1]`.
pub open spec fn rk4_link<F: Fn(Fixed, Fixed) -> Fixed>(
    equation: F,
    h: Fixed,
    x0: Fixed,
    ys: Seq<Fixed>,
    i: int,
) -> bool {
    rk4_step(equation, h, fixed(rk4_x(x0@, h@, i as nat)), ys[i], ys[i + 1])
}

/// Whether `ys` holds the values of `y` along a run of Runge-Kutta steps of
/// size `h` from `(x0, y0)`: it starts with `y0`, and every step can lead
/// from one entry to the next.
pub open spec fn rk4_trace<F: Fn(Fixed, Fixed) -> Fixed>(
    equation: F,
    h: Fixed,
    x0: Fixed,
    y0: Fixed,
    ys: Seq<Fixed>,
) -> bool {
    &&& ys.len() >= 1
    &&& ys[0] == y0
    &&& forall|i: int| 0 <= i < ys.len() - 1 ==> #[trigger] rk4_link(equation, h, x0, ys, i)
}

/// Integrates `y' = equation(x, y)` from `(x0, y0)` to `x` with the classic
/// fourth-order Runge-Kutta scheme and returns `y` there.
///
/// For `x == x0` the result is `y0`, whatever the step. Otherwise a step
/// that is zero or negative is an `InvalidStep`, and the number of steps is
/// `(x - x0) / step_size` rounded down, which is none for `x < x0`.
pub fn rk4<F: Fn(Fixed, Fixed) -> Fixed>(
    equation: F,
    x0: Fixed,
    y0: Fixed,
    x: Fixed,
    step_size: Fixed,
) -> (res: Result<Fixed, IntegrationError>)
    requires
        forall|u: Fixed, v: Fixed| equation.requires((u, v)),
    ensures
        res is Err <==> x@ != x0@ && step_size@ <= 0,
        res matches Err(e) ==> e == IntegrationError::InvalidStep,
        x@ == x0@ ==> res == Ok::<Fixed, IntegrationError>(y0),
        res matches Ok(y) ==> exists|ys: Seq<Fixed>|
            {
                &&& #[trigger] rk4_trace(equation, step_size, x0, y0, ys)
                &&& ys.len() == rk4_steps(x0@, x@, step_size@) + 1
                &&& ys.last() == y
            },
{
    if x.raw == x0.raw {
        assert(rk4_trace(equation, step_size, x0, y0, seq![y0]));
        return Ok(y0);
    }
    if step_size.raw <= 0 {
        return Err(IntegrationError::InvalidStep);
    }
    let span: i128 = x.raw as i128 - x0.raw as i128;
    let count: i128 = if span > 0 {
        span / (step_size.raw as i128)
    } else {
        0
    };
    assert(count == rk4_steps(x0@, x@, step_size@)) by {
        if span > 0 {
            vstd::arithmetic::div_mod::lemma_div_pos_is_pos(span as int, step_size@);
        }
    }
    let mut done: i128 = 0;
    let mut xi = x0;
    let mut yi = y0;
    let ghost mut ys: Seq<Fixed> = seq![y0];
    while done < count
        invariant
            0 <= done <= count,
            step_size@ > 0,
            count == rk4_steps(x0@, x@, step_size@),
            forall|u: Fixed, v: Fixed| equation.requires((u, v)),
            xi@ == rk4_x(x0@, step_size@, done as nat),
            rk4_trace(equation, step_size, x0, y0, ys),
            ys.len() == done + 1,
            ys.last() == yi,
        decreases count - done,
    {
        let half_step = step_size.half();
        let x_mid = xi.sat_add(half_step);
        let x_end = xi.sat_add(step_size);
        let s1 = equation(xi, yi);
        let k1 = step_size.sat_mul(s1);
        let y2 = yi.sat_add(k1.half());
        let s2 = equation(x_mid, y2);
        let k2 = step_size.sat_mul(s2);
        let y3 = yi.sat_add(k2.half());
        let s3 = equation(x_mid, y3);
        let k3 = step_size.sat_mul(s3);
        let y4 = yi.sat_add(k3);
        let s4 = equation(x_end, y4);
        let k4 = step_size.sat_mul(s4);
        let total: i128 = k1.raw as i128 + 2 * (k2.raw as i128) + 2 * (k3.raw as i128)
            + k4.raw as i128;
        let y_next = yi.sat_add(clamp(round_quotient(total, 6)));
        proof {
            assert(x_mid == fixed(fx_add(xi@, fx_half(step_size@))));
            assert(x_end == fixed(fx_add(xi@, step_size@)));
            assert(y2 == fixed(fx_add(yi@, fx_half(k1@))));
            assert(y3 == fixed(fx_add(yi@, fx_half(k2@))));
            assert(y4 == fixed(fx_add(yi@, k3@)));
            assert(rk4_step_with(equation, step_size, xi, yi, s1, s2, s3, s4, y_next));
            assert(rk4_step(equation, step_size, xi, yi, y_next));
            assert(xi == fixed(rk4_x(x0@, step_size@, done as nat)));
            let longer = ys.push(y_next);
            assert forall|i: int| 0 <= i < longer.len() - 1 implies #[trigger] rk4_link(
                equation,
                step_size,
                x0,
                longer,
                i,
            ) by {
                if i < done {
                    assert(rk4_link(equation, step_size, x0, ys, i));
                }
            }
            ys = longer;
        }
        xi = x_end;
        yi = y_next;
        done = done + 1;
    }
    Ok(yi)
}

/// The raw value of `a * dt * dt`, the change that a constant acceleration
/// adds to each Verlet step. The product is exact and rounded once, so a
/// small step does not lose the acceleration.
pub open spec fn verlet_term(acceleration: int, dt: int) -> int {
    fx_mul_square(acceleration, dt)
}

/// The position after one Verlet step: `2 x(t) - x(t - dt) + a dt^2`,
/// saturated once.
pub open spec fn verlet_next(position: int, previous: int, term: int) -> int {
    sat(2 * position - previous + term)
}

/// The time at which a Verlet run, now at `time` with the given position
/// and the position one step before, first sees a position at or below
/// zero, or `None` when `budget` more steps do not get there.
pub open spec fn verlet_run(
    position: int,
    previous: int,
    term: int,
    dt: int,
    time: int,
    budget: nat,
) -> Option<int>
    decreases budget,
{
    if position <= 0 {
        Some(time)
    } else if budget == 0 {
        None
    } else {
        verlet_run(
            verlet_next(position, previous, term),
            position,
            term,
            dt,
            fx_add(time, dt),
            (budget - 1) as nat,
        )
    }
}

/// As `verlet_run`, with the velocity, which grows by `gain` on each step:
/// the time and the velocity at the first position at or below zero.
pub open spec fn stormer_run(
    position: int,
    previous: int,
    term: int,
    dt: int,
    gain: int,
    time: int,
    velocity: int,
    budget: nat,
) -> Option<(int, int)>
    decreases budget,
{
    if position <= 0 {
        Some((time, velocity))
    } else if budget == 0 {
        None
    } else {
        stormer_run(
            verlet_next(position, previous, term),
            position,
            term,
            dt,
            gain,
            fx_add(time, dt),
            fx_add(velocity, gain),
            (budget - 1) as nat,
        )
    }
}

/// What `verlet` returns: the time of the first position at or below zero.
/// A body that starts there needs no step. Otherwise a step that is zero or
/// negative is an `InvalidStep`, and `max_steps` steps that leave the
/// position above zero are a `ConvergenceFailure`.
pub open spec fn verlet_result(position: int, acceleration: int, dt: int, max_steps: nat) -> Result<
    int,
    IntegrationError,
> {
    if position <= 0 {
        Ok(0)
    } else if dt <= 0 {
        Err(IntegrationError::InvalidStep)
    } else {
        match verlet_run(position, position, verlet_term(acceleration, dt), dt, 0, max_steps) {
            Some(t) => Ok(t),
            None => Err(IntegrationError::ConvergenceFailure),
        }
    }
}

/// What `stormer_verlet` returns: the time of the first position at or below
/// zero and the velocity then, with the errors of `verlet_result`.
pub open spec fn stormer_result(
    position: int,
    acceleration: int,
    dt: int,
    max_steps: nat,
) -> Result<(int, int), IntegrationError> {
    if position <= 0 {
        Ok((0, 0))
    } else if dt <= 0 {
        Err(IntegrationError::InvalidStep)
    } else {
        match stormer_run(
            position,
            position,
            verlet_term(acceleration, dt),
            dt,
            fx_mul(acceleration, dt),
            0,
            0,
            max_steps,
        ) {
            Some(tv) => Ok(tv),
            None => Err(IntegrationError::ConvergenceFailure),
        }
    }
}

/// Steps a position under constant acceleration by Verlet integration,
/// `x(t + dt) = 2 x(t) - x(t - dt) + a dt^2` from rest, until it is at or
/// below zero, and returns the time that has passed.
///
/// A step that is zero or negative is an `InvalidStep`; `max_steps` steps
/// that leave the position above zero are a `ConvergenceFailure`. For a
/// body that is not accelerated and starts above zero that is every run.
pub fn verlet(position: Fixed, acceleration: Fixed, delta_time: Fixed, max_steps: usize) -> (res:
    Result<Fixed, IntegrationError>)
    ensures
        res matches Ok(time) ==> verlet_result(
            position@,
            acceleration@,
            delta_time@,
            max_steps as nat,
        ) == Ok::<int, IntegrationError>(time@),
        res matches Err(e) ==> verlet_result(
            position@,
            acceleration@,
            delta_time@,
            max_steps as nat,
        ) == Err::<int, IntegrationError>(e),
        acceleration@ == 0 && position@ > 0 && delta_time@ > 0 ==> res == Err::<
            Fixed,
            IntegrationError,
        >(IntegrationError::ConvergenceFailure),
{
    if position.raw <= 0 {
        return Ok(Fixed::zero());
    }
    if delta_time.raw <= 0 {
        return Err(IntegrationError::InvalidStep);
    }
    let term = acceleration.times_square(delta_time);
    let mut current = position;
    let mut previous = position;
    let mut time = Fixed::zero();
    let mut steps: usize = 0;
    while current.raw > 0 && steps < max_steps
        invariant
            steps <= max_steps,
            term@ == verlet_term(acceleration@, delta_time@),
            verlet_run(position@, position@, term@, delta_time@, 0, max_steps as nat)
                == verlet_run(
                current@,
                previous@,
                term@,
                delta_time@,
                time@,
                (max_steps - steps) as nat,
            ),
        decreases max_steps - steps,
    {
        let next = clamp(2 * (current.raw as i128) - previous.raw as i128 + term.raw as i128);
        time = time.sat_add(delta_time);
        previous = current;
        current = next;
        steps = steps + 1;
    }
    proof {
        if acceleration@ == 0 {
            lemma_unaccelerated_body_never_lands(position@, delta_time@, max_steps as nat);
        }
    }
    if current.raw <= 0 {
        Ok(time)
    } else {
        Err(IntegrationError::ConvergenceFailure)
    }
}

/// As `verlet`, and also adds `acceleration * delta_time` to the velocity
/// on every step: returns the time that has passed and the velocity.
pub fn stormer_verlet(
    position: Fixed,
    acceleration: Fixed,
    delta_time: Fixed,
    max_steps: usize,
) -> (res: Result<(Fixed, Fixed), IntegrationError>)
    ensures
        res matches Ok(out) ==> stormer_result(
            position@,
            acceleration@,
            delta_time@,
            max_steps as nat,
        ) == Ok::<(int, int), IntegrationError>((out.0@, out.1@)),
        res matches Err(e) ==> stormer_result(
            position@,
            acceleration@,
            delta_time@,
            max_steps as nat,
        ) == Err::<(int, int), IntegrationError>(e),
        acceleration@ == 0 && position@ > 0 && delta_time@ > 0 ==> res == Err::<
            (Fixed, Fixed),
            IntegrationError,
        >(IntegrationError::ConvergenceFailure),
{
    if position.raw <= 0 {
        return Ok((Fixed::zero(), Fixed::zero()));
    }
    if delta_time.raw <= 0 {
        return Err(IntegrationError::InvalidStep);
    }
    let term = acceleration.times_square(delta_time);
    let gain = acceleration.sat_mul(delta_time);
    let mut current = position;
    let mut previous = position;
    let mut time = Fixed::zero();
    let mut velocity = Fixed::zero();
    let mut steps: usize = 0;
    while current.raw > 0 && steps < max_steps
        invariant
            steps <= max_steps,
            term@ == verlet_term(acceleration@, delta_time@),
            gain@ == fx_mul(acceleration@, delta_time@),
            stormer_run(position@, position@, term@, delta_time@, gain@, 0, 0, max_steps as nat)
                == stormer_run(
                current@,
                previous@,
                term@,
                delta_time@,
                gain@,
                time@,
                velocity@,
                (max_steps - steps) as nat,
            ),
        decreases max_steps - steps,
    {
        let next = clamp(2 * (current.raw as i128) - previous.raw as i128 + term.raw as i128);
        time = time.sat_add(delta_time);
        velocity = velocity.sat_add(gain);
        previous = current;
        current = next;
        steps = steps + 1;
    }
    proof {
        if acceleration@ == 0 {
            lemma_unaccelerated_body_never_lands(position@, delta_time@, max_steps as nat);
        }
    }
    if current.raw <= 0 {
        Ok((time, velocity))
    } else {
        Err(IntegrationError::ConvergenceFailure)
    }
}

/// A step keeps the acceleration whenever `a * dt * dt` is at least half a
/// billionth in size: the term then has the sign of the acceleration.
pub proof fn lemma_verlet_term_keeps_acceleration(acceleration: int, dt: int)
    requires
        2 * acceleration * dt * dt >= SCALE * SCALE || 2 * acceleration * dt * dt <= -(SCALE
            * SCALE),
    ensures
        acceleration > 0 ==> verlet_term(acceleration, dt) > 0,
        acceleration < 0 ==> verlet_term(acceleration, dt) < 0,
{
    let n = acceleration * dt * dt;
    let m = SCALE * SCALE;
    assert(m == 1_000_000_000_000_000_000);
    assert(2 * acceleration * dt * dt == 2 * n) by (nonlinear_arith)
        requires
            n == acceleration * dt * dt,
    ;
    assert(acceleration > 0 ==> n >= 0) by (nonlinear_arith)
        requires
            n == acceleration * dt * dt,
    ;
    assert(acceleration < 0 ==> n <= 0) by (nonlinear_arith)
        requires
            n == acceleration * dt * dt,
    ;
    if n >= 0 {
        vstd::arithmetic::div_mod::lemma_div_is_ordered(m, n + m / 2, m);
    } else {
        vstd::arithmetic::div_mod::lemma_div_is_ordered(m, -n + m / 2, m);
    }
}

/// A Verlet run without acceleration stays where it starts: from a position
/// above zero it uses up every budget.
proof fn lemma_verlet_run_stays(position: int, dt: int, time: int, budget: nat)
    requires
        0 < position <= i64::MAX,
    ensures
        verlet_run(position, position, 0, dt, time, budget) is None,
    decreases budget,
{
    if budget > 0 {
        lemma_verlet_run_stays(position, dt, fx_add(time, dt), (budget - 1) as nat);
    }
}

/// The same for a Stormer-Verlet run.
proof fn lemma_stormer_run_stays(position: int, dt: int, time: int, velocity: int, budget: nat)
    requires
        0 < position <= i64::MAX,
    ensures
        stormer_run(position, position, 0, dt, 0, time, velocity, budget) is None,
    decreases budget,
{
    if budget > 0 {
        lemma_stormer_run_stays(
            position,
            dt,
            fx_add(time, dt),
            fx_add(velocity, 0),
            (budget - 1) as nat,
        );
    }
}

/// A body that starts above zero and is not accelerated never gets to zero:
/// neither integrator ends by a crossing, whatever the step and the cap.
/// With a positive step both end in `ConvergenceFailure`.
pub proof fn lemma_unaccelerated_body_never_lands(position: int, dt: int, max_steps: nat)
    requires
        0 < position <= i64::MAX,
    ensures
        verlet_result(position, 0, dt, max_steps) is Err,
        stormer_result(position, 0, dt, max_steps) is Err,
        dt > 0 ==> verlet_result(position, 0, dt, max_steps) == Err::<int, IntegrationError>(
            IntegrationError::ConvergenceFailure,
        ),
        dt > 0 ==> stormer_result(position, 0, dt, max_steps) == Err::<
            (int, int),
            IntegrationError,
        >(IntegrationError::ConvergenceFailure),
{
    assert(0 * dt * dt == 0);
    assert(0 * dt == 0);
    lemma_verlet_run_stays(position, dt, 0, max_steps);
    lemma_stormer_run_stays(position, dt, 0, 0, max_steps);
}

/// Whether the equation gives one result for each point.
pub open spec fn deterministic<F: Fn(Fixed, Fixed) -> Fixed>(equation: F) -> bool {
    forall|x: Fixed, y: Fixed, r1: Fixed, r2: Fixed|
        #[trigger] equation.ensures((x, y), r1) && #[trigger] equation.ensures((x, y), r2) ==> r1
            == r2
}

/// With an equation that gives one result for each point, a Runge-Kutta
/// step leads to one value.
pub proof fn lemma_rk4_step_is_unique<F: Fn(Fixed, Fixed) -> Fixed>(
    equation: F,
    h: Fixed,
    x: Fixed,
    y: Fixed,
    first: Fixed,
    second: Fixed,
)
    requires
        deterministic(equation),
        rk4_step(equation, h, x, y, first),
        rk4_step(equation, h, x, y, second),
    ensures
        first == second,
{
    let (a1, a2, a3, a4) = choose|s1: Fixed, s2: Fixed, s3: Fixed, s4: Fixed| #[trigger]
        rk4_step_with(equation, h, x, y, s1, s2, s3, s4, first);
    let (b1, b2, b3, b4) = choose|s1: Fixed, s2: Fixed, s3: Fixed, s4: Fixed| #[trigger]
        rk4_step_with(equation, h, x, y, s1, s2, s3, s4, second);
    assert(a1 == b1);
    assert(a2 == b2);
    assert(a3 == b3);
    assert(a4 == b4);
    assert(first@ == second@);
}

/// With an equation that gives one result for each point, the values along
/// a run are fixed by its start: two traces of one length are equal, so
/// `rk4` returns a function of its arguments.
pub proof fn lemma_rk4_trace_is_unique<F: Fn(Fixed, Fixed) -> Fixed>(
    equation: F,
    h: Fixed,
    x0: Fixed,
    y0: Fixed,
    first: Seq<Fixed>,
    second: Seq<Fixed>,
)
    requires
        deterministic(equation),
        rk4_trace(equation, h, x0, y0, first),
        rk4_trace(equation, h, x0, y0, second),
        first.len() == second.len(),
    ensures
        first == second,
{
    assert forall|i: int| 0 <= i < first.len() implies first[i] == second[i] by {
        lemma_rk4_trace_agrees(equation, h, x0, y0, first, second, i);
    }
    assert(first =~= second);
}

/// Two traces of one run agree at every place both have.
proof fn lemma_rk4_trace_agrees<F: Fn(Fixed, Fixed) -> Fixed>(
    equation: F,
    h: Fixed,
    x0: Fixed,
    y0: Fixed,
    first: Seq<Fixed>,
    second: Seq<Fixed>,
    i: int,
)
    requires
        deterministic(equation),
        rk4_trace(equation, h, x0, y0, first),
        rk4_trace(equation, h, x0, y0, second),
        0 <= i < first.len(),
        i < second.len(),
    ensures
        first[i] == second[i],
    decreases i,
{
    if i > 0 {
        lemma_rk4_trace_agrees(equation, h, x0, y0, first, second, i - 1);
        assert(rk4_link(equation, h, x0, first, i - 1));
        assert(rk4_link(equation, h, x0, second, i - 1));
        lemma_rk4_step_is_unique(
            equation,
            h,
            fixed(rk4_x(x0@, h@, (i - 1) as nat)),
            first[i - 1],
            first[i],
            second[i],
        );
    }
}

} // verus!
