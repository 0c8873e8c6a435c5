use flightctrl::fixed::Fixed;
use flightctrl::math::{rk4, stormer_verlet, verlet, IntegrationError};

fn fx(x: f64) -> Fixed {
    Fixed::from_raw((x * 1e9).round() as i64)
}

fn growth(_x: Fixed, y: Fixed) -> Fixed {
    y
}

fn exp_error(step: f64) -> f64 {
    let y = rk4(growth, fx(0.0), fx(1.0), fx(1.0), fx(step)).unwrap();
    (std::f64::consts::E - y.raw as f64 / 1e9).abs()
}

#[test]
fn rk4_error_falls_with_the_fourth_power_of_the_step() {
    let coarse = exp_error(0.2);
    let medium = exp_error(0.1);
    let fine = exp_error(0.05);
    assert!(coarse < 1e-4);
    assert!(medium < 1e-5);
    assert!(fine < 1e-6);
    let first = coarse / medium;
    let second = medium / fine;
    assert!(first > 12.0 && first < 20.0, "ratio {}", first);
    assert!(second > 12.0 && second < 20.0, "ratio {}", second);
}

#[test]
fn rk4_growth_has_known_values() {
    assert_eq!(rk4(growth, fx(0.0), fx(1.0), fx(0.5), fx(0.5)).unwrap().raw, 1_648_437_500);
    assert_eq!(rk4(growth, fx(0.0), fx(1.0), fx(1.0), fx(0.5)).unwrap().raw, 2_717_346_192);
    assert_eq!(rk4(growth, fx(0.0), fx(1.0), fx(1.0), fx(0.1)).unwrap().raw, 2_718_279_745);
    assert_eq!(rk4(growth, fx(0.0), fx(1.0), fx(1.0), fx(0.05)).unwrap().raw, 2_718_281_698);
}

#[test]
fn rk4_hands_the_abscissa_to_the_equation() {
    let y = rk4(|x: Fixed, y: Fixed| x.sat_mul(y), fx(0.0), fx(1.0), fx(1.0), fx(0.25)).unwrap();
    assert_eq!(y.raw, 1_648_709_738);
    assert!((y.raw as f64 / 1e9 - 0.5f64.exp()).abs() < 1e-4);
}

#[test]
fn rk4_step_count_is_rounded_down() {
    let whole = rk4(growth, fx(0.0), fx(1.0), fx(0.9), fx(0.3)).unwrap();
    let partial = rk4(growth, fx(0.0), fx(1.0), fx(1.0), fx(0.3)).unwrap();
    assert_eq!(whole.raw, 2_459_486_639);
    assert_eq!(partial.raw, 2_459_486_639);
    assert_eq!(rk4(growth, fx(0.0), fx(1.0), fx(0.29), fx(0.3)).unwrap(), fx(1.0));
}

#[test]
fn rk4_without_distance_returns_the_start_for_any_step() {
    let steps = [1.0, 0.001, 0.0, -0.5, 1e9];
    for step in steps {
        assert_eq!(rk4(growth, fx(2.5), fx(-7.25), fx(2.5), fx(step)), Ok(fx(-7.25)));
    }
    assert_eq!(
        rk4(growth, fx(2.5), Fixed::from_raw(i64::MIN), fx(2.5), Fixed::from_raw(i64::MIN)),
        Ok(Fixed::from_raw(i64::MIN))
    );
}

#[test]
fn rk4_behind_the_start_takes_no_step() {
    assert_eq!(rk4(growth, fx(1.0), fx(3.0), fx(0.0), fx(0.1)), Ok(fx(3.0)));
}

#[test]
fn rk4_refuses_a_step_that_is_not_positive() {
    assert_eq!(rk4(growth, fx(0.0), fx(1.0), fx(1.0), fx(0.0)), Err(IntegrationError::InvalidStep));
    assert_eq!(rk4(growth, fx(0.0), fx(1.0), fx(1.0), fx(-0.1)), Err(IntegrationError::InvalidStep));
    assert_eq!(rk4(growth, fx(1.0), fx(1.0), fx(0.0), fx(-0.1)), Err(IntegrationError::InvalidStep));
}

#[test]
fn verlet_finds_the_time_of_impact() {
    assert_eq!(verlet(fx(10.0), fx(-9.81), fx(0.1), 1000), Ok(fx(1.4)));
    assert_eq!(verlet(fx(1.0), fx(-2.0), fx(0.5), 1000), Ok(fx(1.0)));
    assert_eq!(verlet(fx(10.0), fx(-9.81), fx(0.1), 14), Ok(fx(1.4)));
}

#[test]
fn verlet_on_the_ground_takes_no_time() {
    assert_eq!(verlet(fx(0.0), fx(-9.81), fx(0.1), 10), Ok(fx(0.0)));
    assert_eq!(verlet(fx(-3.0), fx(5.0), fx(0.1), 0), Ok(fx(0.0)));
    assert_eq!(verlet(fx(-3.0), fx(5.0), fx(0.0), 0), Ok(fx(0.0)));
    assert_eq!(stormer_verlet(fx(0.0), fx(-9.81), fx(0.1), 10), Ok((fx(0.0), fx(0.0))));
}

#[test]
fn verlet_cap_triggers_without_acceleration() {
    assert_eq!(verlet(fx(10.0), fx(0.0), fx(0.1), 1000), Err(IntegrationError::ConvergenceFailure));
    assert_eq!(verlet(fx(10.0), fx(0.0), fx(0.1), 0), Err(IntegrationError::ConvergenceFailure));
    assert_eq!(verlet(Fixed::from_raw(1), fx(0.0), fx(1e9), 100_000), Err(IntegrationError::ConvergenceFailure));
    assert_eq!(
        verlet(Fixed::from_raw(i64::MAX), fx(0.0), fx(0.1), 1000),
        Err(IntegrationError::ConvergenceFailure)
    );
    assert_eq!(stormer_verlet(fx(10.0), fx(0.0), fx(0.1), 1000), Err(IntegrationError::ConvergenceFailure));
    assert_eq!(
        stormer_verlet(Fixed::from_raw(i64::MAX), fx(0.0), fx(0.1), 1000),
        Err(IntegrationError::ConvergenceFailure)
    );
}

#[test]
fn verlet_cap_triggers_when_impact_is_too_far() {
    assert_eq!(verlet(fx(10.0), fx(-9.81), fx(0.1), 13), Err(IntegrationError::ConvergenceFailure));
    assert_eq!(verlet(fx(1.0), fx(1.0), fx(0.5), 20), Err(IntegrationError::ConvergenceFailure));
    assert_eq!(stormer_verlet(fx(10.0), fx(-9.81), fx(0.1), 13), Err(IntegrationError::ConvergenceFailure));
}

#[test]
fn verlet_refuses_a_step_that_is_not_positive() {
    assert_eq!(verlet(fx(10.0), fx(-9.81), fx(0.0), 1000), Err(IntegrationError::InvalidStep));
    assert_eq!(verlet(fx(10.0), fx(-9.81), fx(-0.1), 1000), Err(IntegrationError::InvalidStep));
    assert_eq!(stormer_verlet(fx(10.0), fx(-9.81), fx(0.0), 1000), Err(IntegrationError::InvalidStep));
    assert_eq!(stormer_verlet(fx(10.0), fx(0.0), fx(-1.0), 1000), Err(IntegrationError::InvalidStep));
}

#[test]
fn stormer_verlet_also_returns_the_velocity() {
    assert_eq!(stormer_verlet(fx(10.0), fx(-9.81), fx(0.1), 1000), Ok((fx(1.4), fx(-13.734))));
    assert_eq!(stormer_verlet(fx(1.0), fx(-2.0), fx(0.5), 2), Ok((fx(1.0), fx(-2.0))));
    assert_eq!(stormer_verlet(fx(1.0), fx(-2.0), fx(0.5), 1), Err(IntegrationError::ConvergenceFailure));
}

#[test]
fn verlet_with_a_small_step_keeps_the_acceleration() {
    assert_eq!(verlet(fx(1.0), fx(-9.81), fx(0.00001), 100_000), Ok(fx(0.44721)));
    assert_eq!(verlet(fx(1.0), fx(-9.81), fx(0.00001), 44_720), Err(IntegrationError::ConvergenceFailure));
    assert_eq!(verlet(fx(1.0), fx(-9.81), fx(0.001), 100_000), Ok(fx(0.452)));
    assert_eq!(stormer_verlet(fx(1.0), fx(-9.81), fx(0.00001), 100_000), Ok((fx(0.44721), fx(-4.3871301))));
}

#[test]
fn rk4_error_order_holds_while_the_error_is_above_the_resolution() {
    let quarter = exp_error(0.25);
    let eighth = exp_error(0.125);
    let sixteenth = exp_error(0.0625);
    let first = quarter / eighth;
    let second = eighth / sixteenth;
    assert!(first >= 12.0 && first <= 18.0, "ratio {}", first);
    assert!(second >= 12.0 && second <= 18.0, "ratio {}", second);
    assert_eq!(rk4(growth, fx(0.0), fx(1.0), fx(1.0), fx(0.125)).unwrap().raw, 2_718_276_845);
    assert_eq!(rk4(growth, fx(0.0), fx(1.0), fx(1.0), fx(0.0625)).unwrap().raw, 2_718_281_505);
    assert_eq!(rk4(growth, fx(0.0), fx(1.0), fx(1.0), fx(0.03125)).unwrap().raw, 2_718_281_816);
    assert!(exp_error(0.03125) < 2e-8);
}
