use flightctrl::control::ControlLaw;
use flightctrl::fixed::Fixed;
use flightctrl::lqr::{LqrController, LqrError};
use flightctrl::pid::Pid;

fn fx(x: f64) -> Fixed {
    Fixed::from_raw((x * 1e9).round() as i64)
}

fn run<L: ControlLaw>(law: &mut L, measurements: &[L::Measurement]) -> Vec<Result<L::Output, LqrError>> {
    measurements.iter().map(|m| law.compute(m)).collect()
}

#[test]
fn either_law_runs_behind_one_call() {
    let mut pid = Pid::new(fx(2.0), fx(0.5), fx(0.1), fx(10.0));
    let outputs = run(&mut pid, &[fx(4.0), fx(7.0), fx(7.0)]);
    let totals: Vec<i64> = outputs.iter().map(|o| o.as_ref().unwrap().output.raw).collect();
    assert_eq!(totals, vec![14_600_000_000, 10_200_000_000, 12_000_000_000]);
    assert_eq!(pid.previous, Some(fx(7.0)));

    let mut lqr: LqrController<2, 1> = LqrController::new();
    let states = [([fx(0.0), fx(0.0)], [fx(1.0), fx(2.0)])];
    assert_eq!(run(&mut lqr, &states), vec![Err(LqrError::GainNotComputed)]);
    let a = [[fx(0.0), fx(1.0)], [fx(0.0), fx(0.0)]];
    let b = [[fx(0.0)], [fx(1.0)]];
    let q = [[fx(1.0), fx(0.0)], [fx(0.0), fx(1.0)]];
    let r = [[fx(1.0)]];
    lqr.compute_gain(&a, &b, &q, &r, fx(1e-7)).unwrap();
    assert_eq!(run(&mut lqr, &states), vec![Ok([Fixed::from_raw(4_464_101_616)])]);
}
