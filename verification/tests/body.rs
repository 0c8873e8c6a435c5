use flightctrl::body::{Body, Vector3};
use flightctrl::fixed::Fixed;
use flightctrl::math::IntegrationError;

fn fx(x: f64) -> Fixed {
    Fixed::from_raw((x * 1e9).round() as i64)
}

fn v(x: f64, y: f64, z: f64) -> Vector3 {
    Vector3::new(fx(x), fx(y), fx(z))
}

fn falling() -> Body {
    Body::new(v(0.0, 0.0, 100.0), v(1.0, 0.0, 0.0), fx(2.0), v(0.0, 0.0, 0.5)).unwrap()
}

#[test]
fn vectors_work_by_component() {
    assert_eq!(Vector3::zero(), v(0.0, 0.0, 0.0));
    assert_eq!(v(1.0, 2.0, 3.0).plus(v(0.5, -2.0, 1.0)), v(1.5, 0.0, 4.0));
    assert_eq!(v(1.0, 2.0, 3.0).scaled(fx(-2.0)), v(-2.0, -4.0, -6.0));
    assert_eq!(v(1.0, 2.0, 3.0).halved(), v(0.5, 1.0, 1.5));
    assert_eq!(
        v(1.0, 2.0, 3.0).divided(fx(3.0)),
        Some(Vector3::new(Fixed::from_raw(333_333_333), Fixed::from_raw(666_666_667), fx(1.0)))
    );
    assert_eq!(v(1.0, 2.0, 3.0).divided(fx(0.0)), None);
}

#[test]
fn new_body_is_at_rest_under_no_force() {
    let body = falling();
    assert_eq!(body.position(), v(0.0, 0.0, 100.0));
    assert_eq!(body.velocity(), v(1.0, 0.0, 0.0));
    assert_eq!(body.acceleration(), Vector3::zero());
    assert_eq!(body.forces(), Vector3::zero());
    assert_eq!(body.total_mass(), fx(2.0));
    assert_eq!(body.center_of_gravity(), v(0.0, 0.0, 0.5));
}

#[test]
fn mass_must_be_positive() {
    assert!(Body::new(Vector3::zero(), Vector3::zero(), fx(0.0), Vector3::zero()).is_none());
    assert!(Body::new(Vector3::zero(), Vector3::zero(), fx(-1.0), Vector3::zero()).is_none());
    assert!(Body::new(Vector3::zero(), Vector3::zero(), Fixed::from_raw(1), Vector3::zero()).is_some());
}

#[test]
fn forces_add_up() {
    let mut body = falling();
    body.apply_force(v(0.0, 1.0, -19.62));
    body.apply_force(v(0.0, 2.0, 0.0));
    assert_eq!(body.forces(), v(0.0, 3.0, -19.62));
    assert_eq!(body.position(), v(0.0, 0.0, 100.0));
}

#[test]
fn step_moves_the_body_and_clears_the_forces() {
    let mut body = falling();
    body.apply_force(v(0.0, 3.0, -19.62));
    assert_eq!(body.step(fx(0.1)), Ok(()));
    assert_eq!(body.acceleration(), v(0.0, 1.5, -9.81));
    assert_eq!(body.position(), v(0.1, 0.0075, 99.95095));
    assert_eq!(body.velocity(), v(1.0, 0.15, -0.981));
    assert_eq!(body.forces(), Vector3::zero());
    assert_eq!(body.total_mass(), fx(2.0));
    assert_eq!(body.center_of_gravity(), v(0.0, 0.0, 0.5));
}

#[test]
fn step_without_force_keeps_the_velocity() {
    let mut body = falling();
    body.apply_force(v(0.0, 3.0, -19.62));
    body.step(fx(0.1)).unwrap();
    body.step(fx(0.1)).unwrap();
    assert_eq!(body.acceleration(), Vector3::zero());
    assert_eq!(body.velocity(), v(1.0, 0.15, -0.981));
    assert_eq!(body.position(), v(0.2, 0.0225, 99.85285));
}

#[test]
fn step_that_is_not_positive_is_refused() {
    let mut body = falling();
    body.apply_force(v(0.0, 3.0, -19.62));
    assert_eq!(body.step(fx(0.0)), Err(IntegrationError::InvalidStep));
    assert_eq!(body.step(fx(-0.1)), Err(IntegrationError::InvalidStep));
    assert_eq!(body.position(), v(0.0, 0.0, 100.0));
    assert_eq!(body.velocity(), v(1.0, 0.0, 0.0));
    assert_eq!(body.forces(), v(0.0, 3.0, -19.62));
}

#[test]
fn small_step_keeps_the_acceleration() {
    let mut body = Body::new(v(0.0, 0.0, 1.0), Vector3::zero(), fx(1.0), Vector3::zero()).unwrap();
    body.apply_force(v(0.0, 0.0, -9.81));
    body.step(fx(0.00001)).unwrap();
    assert_eq!(body.position(), Vector3::new(fx(0.0), fx(0.0), Fixed::from_raw(999_999_999)));
    assert_eq!(body.velocity(), v(0.0, 0.0, -0.0000981));
    assert_eq!(v(1.5, -9.81, 0.0).scaled_by_square(fx(-2.0)), v(6.0, -39.24, 0.0));
}
