//! Rigid-body plant model: a point mass that is stepped under the forces
//! applied to it.
use crate::fixed::{fx_add, fx_div, fx_half, fx_mul, fx_mul_square, Fixed};
use crate::math::IntegrationError;
use vstd::prelude::*;

verus! {

/// Three raw values.
pub struct Triple {
    /// The first component.
    pub x: int,
    /// The second component.
    pub y: int,
    /// The third component.
    pub z: int,
}

/// A vector in space.
#[derive(Clone, Copy, Debug, PartialEq, Eq, Structural)]
pub struct Vector3 {
    /// The first component.
    pub x: Fixed,
    /// The second component.
    pub y: Fixed,
    /// The third component.
    pub z: Fixed,
}

impl View for Vector3 {
    type V = Triple;

    /// The raw values of the components.
    open spec fn view(&self) -> Triple {
        Triple { x: self.x@, y: self.y@, z: self.z@ }
    }
}

/// The componentwise sum.
pub open spec fn triple_add(a: Triple, b: Triple) -> Triple {
    Triple { x: fx_add(a.x, b.x), y: fx_add(a.y, b.y), z: fx_add(a.z, b.z) }
}

/// Every component multiplied by `c`.
pub open spec fn triple_scale(a: Triple, c: int) -> Triple {
    Triple { x: fx_mul(a.x, c), y: fx_mul(a.y, c), z: fx_mul(a.z, c) }
}

/// Every component divided by `c`, for `c != 0`.
pub open spec fn triple_div(a: Triple, c: int) -> Triple {
    Triple { x: fx_div(a.x, c), y: fx_div(a.y, c), z: fx_div(a.z, c) }
}

/// Every component multiplied by the square of `t`, each product exact and
/// rounded once.
pub open spec fn triple_scale_square(a: Triple, t: int) -> Triple {
    Triple { x: fx_mul_square(a.x, t), y: fx_mul_square(a.y, t), z: fx_mul_square(a.z, t) }
}

/// Every component halved.
pub open spec fn triple_half(a: Triple) -> Triple {
    Triple { x: fx_half(a.x), y: fx_half(a.y), z: fx_half(a.z) }
}

impl Vector3 {
    /// The vector with the given components.
    pub fn new(x: Fixed, y: Fixed, z: Fixed) -> (r: Vector3)
        ensures
            r@ == (Triple { x: x@, y: y@, z: z@ }),
    {
        Vector3 { x, y, z }
    }

    /// The zero vector.
    pub fn zero() -> (r: Vector3)
        ensures
            r@ == (Triple { x: 0, y: 0, z: 0 }),
    {
        Vector3 { x: Fixed::zero(), y: Fixed::zero(), z: Fixed::zero() }
    }

    /// The componentwise sum.
    pub fn plus(self, rhs: Vector3) -> (r: Vector3)
        ensures
            r@ == triple_add(self@, rhs@),
    {
        Vector3 {
            x: self.x.sat_add(rhs.x),
            y: self.y.sat_add(rhs.y),
            z: self.z.sat_add(rhs.z),
        }
    }

    /// Every component multiplied by `c`.
    pub fn scaled(self, c: Fixed) -> (r: Vector3)
        ensures
            r@ == triple_scale(self@, c@),
    {
        Vector3 { x: self.x.sat_mul(c), y: self.y.sat_mul(c), z: self.z.sat_mul(c) }
    }

    /// Every component divided by `c`, or `None` when `c` is zero.
    pub fn divided(self, c: Fixed) -> (r: Option<Vector3>)
        ensures
            c@ == 0 <==> r is None,
            r matches Some(v) ==> v@ == triple_div(self@, c@),
    {
        match (self.x.checked_div(c), self.y.checked_div(c), self.z.checked_div(c)) {
            (Some(x), Some(y), Some(z)) => Some(Vector3 { x, y, z }),
            _ => None,
        }
    }

    /// Every component multiplied by the square of `t`, each product exact
    /// and rounded once.
    pub fn scaled_by_square(self, t: Fixed) -> (r: Vector3)
        ensures
            r@ == triple_scale_square(self@, t@),
    {
        Vector3 { x: self.x.times_square(t), y: self.y.times_square(t), z: self.z.times_square(t) }
    }

    /// Every component halved.
    pub fn halved(self) -> (r: Vector3)
        ensures
            r@ == triple_half(self@),
    {
        Vector3 { x: self.x.half(), y: self.y.half(), z: self.z.half() }
    }
}

/// What a body holds, in raw values.
pub struct BodyState {
    /// The center of gravity.
    pub center_of_gravity: Triple,
    /// The position.
    pub position: Triple,
    /// The velocity.
    pub velocity: Triple,
    /// The acceleration over the last step.
    pub acceleration: Triple,
    /// The sum of the forces applied since the last step.
    pub forces: Triple,
    /// The total mass.
    pub total_mass: int,
}

/// The state after a step of length `dt`: with `a = forces / mass`, the
/// position moves by `velocity * dt + a * dt^2 / 2`, the velocity grows by
/// `a * dt`, and the forces are cleared.
pub open spec fn body_step(s: BodyState, dt: int) -> BodyState {
    let a = triple_div(s.forces, s.total_mass);
    let travel = triple_add(triple_scale(s.velocity, dt), triple_half(triple_scale_square(a, dt)));
    BodyState {
        position: triple_add(s.position, travel),
        velocity: triple_add(s.velocity, triple_scale(a, dt)),
        acceleration: a,
        forces: Triple { x: 0, y: 0, z: 0 },
        ..s
    }
}

/// A body with six degrees of freedom, seen as a point mass in the local
/// frame.
#[derive(Clone, Copy, Debug)]
pub struct Body {
    center_of_gravity: Vector3,
    position: Vector3,
    velocity: Vector3,
    acceleration: Vector3,
    forces: Vector3,
    total_mass: Fixed,
}

impl View for Body {
    type V = BodyState;

    closed spec fn view(&self) -> BodyState {
        BodyState {
            center_of_gravity: self.center_of_gravity@,
            position: self.position@,
            velocity: self.velocity@,
            acceleration: self.acceleration@,
            forces: self.forces@,
            total_mass: self.total_mass@,
        }
    }
}

impl Body {
    /// Whether the mass is positive.
    pub open spec fn wf(&self) -> bool {
        self@.total_mass > 0
    }

    /// A body at rest under no force, or `None` when the mass is not
    /// positive.
    pub fn new(
        position: Vector3,
        velocity: Vector3,
        total_mass: Fixed,
        center_of_gravity: Vector3,
    ) -> (r: Option<Body>)
        ensures
            total_mass@ <= 0 <==> r is None,
            r matches Some(body) ==> body.wf() && body@ == (BodyState {
                center_of_gravity: center_of_gravity@,
                position: position@,
                velocity: velocity@,
                acceleration: Triple { x: 0, y: 0, z: 0 },
                forces: Triple { x: 0, y: 0, z: 0 },
                total_mass: total_mass@,
            }),
    {
        if total_mass.raw <= 0 {
            None
        } else {
            Some(
                Body {
                    center_of_gravity,
                    position,
                    velocity,
                    acceleration: Vector3::zero(),
                    forces: Vector3::zero(),
                    total_mass,
                },
            )
        }
    }

    /// The position.
    pub fn position(&self) -> (r: Vector3)
        ensures
            r@ == self@.position,
    {
        self.position
    }

    /// The velocity.
    pub fn velocity(&self) -> (r: Vector3)
        ensures
            r@ == self@.velocity,
    {
        self.velocity
    }

    /// The acceleration over the last step.
    pub fn acceleration(&self) -> (r: Vector3)
        ensures
            r@ == self@.acceleration,
    {
        self.acceleration
    }

    /// The sum of the forces applied since the last step.
    pub fn forces(&self) -> (r: Vector3)
        ensures
            r@ == self@.forces,
    {
        self.forces
    }

    /// The total mass.
    pub fn total_mass(&self) -> (r: Fixed)
        ensures
            r@ == self@.total_mass,
    {
        self.total_mass
    }

    /// The center of gravity.
    pub fn center_of_gravity(&self) -> (r: Vector3)
        ensures
            r@ == self@.center_of_gravity,
    {
        self.center_of_gravity
    }

    /// Adds a force to those that act over the next step.
    pub fn apply_force(&mut self, force: Vector3)
        requires
            old(self).wf(),
        ensures
            final(self).wf(),
            final(self)@ == (BodyState {
                forces: triple_add(old(self)@.forces, force@),
                ..old(self)@
            }),
    {
        self.forces = self.forces.plus(force);
    }

    /// Advances the body by a step of length `delta_time` under the forces
    /// applied since the last step, and clears them. A step that is zero or
    /// negative is an `InvalidStep` and leaves the body as it was.
    pub fn step(&mut self, delta_time: Fixed) -> (res: Result<(), IntegrationError>)
        requires
            old(self).wf(),
        ensures
            final(self).wf(),
            delta_time@ <= 0 ==> res == Err::<(), IntegrationError>(IntegrationError::InvalidStep)
                && final(self)@ == old(self)@,
            delta_time@ > 0 ==> res is Ok && final(self)@ == body_step(old(self)@, delta_time@),
    {
        if delta_time.raw <= 0 {
            return Err(IntegrationError::InvalidStep);
        }
        let a = match self.forces.divided(self.total_mass) {
            Some(a) => a,
            None => Vector3::zero(),
        };
        let travel = self.velocity.scaled(delta_time).plus(a.scaled_by_square(delta_time).halved());
        self.position = self.position.plus(travel);
        self.velocity = self.velocity.plus(a.scaled(delta_time));
        self.acceleration = a;
        self.forces = Vector3::zero();
        Ok(())
    }
}

} // verus!
