use flightctrl::fixed::{Fixed, SCALE};

fn fx(x: f64) -> Fixed {
    Fixed::from_raw((x * 1e9).round() as i64)
}

fn raw(n: i64) -> Fixed {
    Fixed::from_raw(n)
}

#[test]
fn scale_is_a_billion() {
    assert_eq!(SCALE, 1_000_000_000);
    assert_eq!(Fixed::one().raw, 1_000_000_000);
    assert_eq!(Fixed::zero().raw, 0);
    assert_eq!(Fixed::from_int(-7).raw, -7_000_000_000);
    assert_eq!(Fixed::from_int(i32::MAX).raw, 2_147_483_647_000_000_000);
    assert_eq!(Fixed::from_int(i32::MIN).raw, -2_147_483_648_000_000_000);
}

#[test]
fn sums_and_differences_are_exact_in_range() {
    assert_eq!(fx(1.5).sat_add(fx(2.25)).raw, 3_750_000_000);
    assert_eq!(fx(1.5).sat_sub(fx(2.25)).raw, -750_000_000);
    assert_eq!(raw(-1).sat_add(raw(1)).raw, 0);
}

#[test]
fn sums_and_differences_saturate() {
    assert_eq!(raw(i64::MAX).sat_add(raw(1)).raw, i64::MAX);
    assert_eq!(raw(i64::MIN).sat_add(raw(-1)).raw, i64::MIN);
    assert_eq!(raw(i64::MIN).sat_sub(raw(1)).raw, i64::MIN);
    assert_eq!(raw(i64::MAX).sat_sub(raw(-1)).raw, i64::MAX);
    assert_eq!(raw(i64::MAX).sat_add(raw(i64::MAX)).raw, i64::MAX);
    assert_eq!(raw(0).sat_sub(raw(i64::MIN)).raw, i64::MAX);
}

#[test]
fn negation_and_absolute_value_saturate_at_the_least_value() {
    assert_eq!(raw(i64::MIN).neg().raw, i64::MAX);
    assert_eq!(raw(i64::MAX).neg().raw, -i64::MAX);
    assert_eq!(raw(i64::MIN).abs().raw, i64::MAX);
    assert_eq!(fx(-2.5).abs().raw, 2_500_000_000);
    assert_eq!(fx(2.5).abs().raw, 2_500_000_000);
    assert_eq!(fx(2.5).neg().raw, -2_500_000_000);
}

#[test]
fn products_round_to_nearest_with_ties_away_from_zero() {
    assert_eq!(fx(1.5).sat_mul(fx(2.5)).raw, 3_750_000_000);
    assert_eq!(raw(1).sat_mul(fx(0.5)).raw, 1);
    assert_eq!(raw(-1).sat_mul(fx(0.5)).raw, -1);
    assert_eq!(raw(1).sat_mul(raw(499_999_999)).raw, 0);
    assert_eq!(raw(3).sat_mul(fx(0.5)).raw, 2);
    assert_eq!(raw(-3).sat_mul(fx(0.5)).raw, -2);
    assert_eq!(fx(-1.5).sat_mul(fx(2.0)).raw, -3_000_000_000);
}

#[test]
fn products_saturate() {
    assert_eq!(raw(i64::MAX).sat_mul(fx(2.0)).raw, i64::MAX);
    assert_eq!(raw(i64::MIN).sat_mul(fx(2.0)).raw, i64::MIN);
    assert_eq!(raw(i64::MIN).sat_mul(fx(-1.0)).raw, i64::MAX);
    assert_eq!(raw(i64::MIN).sat_mul(raw(i64::MIN)).raw, i64::MAX);
}

#[test]
fn quotients_round_to_nearest() {
    assert_eq!(fx(1.0).checked_div(fx(3.0)).unwrap().raw, 333_333_333);
    assert_eq!(fx(-1.0).checked_div(fx(3.0)).unwrap().raw, -333_333_333);
    assert_eq!(fx(2.0).checked_div(fx(3.0)).unwrap().raw, 666_666_667);
    assert_eq!(fx(1.0).checked_div(fx(-3.0)).unwrap().raw, -333_333_333);
    assert_eq!(raw(1).checked_div(fx(2.0)).unwrap().raw, 1);
    assert_eq!(raw(-1).checked_div(fx(2.0)).unwrap().raw, -1);
    assert_eq!(fx(1.0).checked_div(raw(2)).unwrap().raw, 500_000_000_000_000_000);
}

#[test]
fn quotients_saturate_and_zero_divisor_is_refused() {
    assert_eq!(raw(i64::MAX).checked_div(raw(1)).unwrap().raw, i64::MAX);
    assert_eq!(raw(i64::MIN).checked_div(raw(1)).unwrap().raw, i64::MIN);
    assert_eq!(fx(1.0).checked_div(raw(0)), None);
    assert_eq!(raw(0).checked_div(raw(0)), None);
}

#[test]
fn halves_round_away_from_zero() {
    assert_eq!(raw(3).half().raw, 2);
    assert_eq!(raw(-3).half().raw, -2);
    assert_eq!(raw(4).half().raw, 2);
    assert_eq!(raw(1).half().raw, 1);
    assert_eq!(raw(-1).half().raw, -1);
    assert_eq!(raw(i64::MIN).half().raw, -4_611_686_018_427_387_904);
    assert_eq!(raw(i64::MAX).half().raw, 4_611_686_018_427_387_904);
}

#[test]
fn square_roots_round_down() {
    assert_eq!(fx(2.0).sqrt().unwrap().raw, 1_414_213_562);
    assert_eq!(fx(4.0).sqrt().unwrap().raw, 2_000_000_000);
    assert_eq!(raw(0).sqrt().unwrap().raw, 0);
    assert_eq!(raw(1).sqrt().unwrap().raw, 31_622);
    assert_eq!(raw(i64::MAX).sqrt().unwrap().raw, 96_038_388_349_944);
    assert_eq!(raw(-1).sqrt(), None);
}

#[test]
fn powers_multiply_in_turn() {
    assert_eq!(fx(1.5).pow(3).raw, 3_375_000_000);
    assert_eq!(fx(-2.0).pow(3).raw, -8_000_000_000);
    assert_eq!(fx(10.0).pow(10).raw, i64::MAX);
    assert_eq!(fx(7.0).pow(0).raw, 1_000_000_000);
    assert_eq!(fx(7.0).pow(1).raw, 7_000_000_000);
}

#[test]
fn roots_are_the_greatest_value_whose_power_fits() {
    assert_eq!(fx(8.0).root(3).unwrap().raw, 2_000_000_000);
    assert_eq!(fx(2.0).root(2).unwrap().raw, 1_414_213_562);
    assert_eq!(fx(16.0).root(4).unwrap().raw, 2_000_000_000);
    assert_eq!(fx(0.5).root(2).unwrap().raw, 707_106_781);
    assert_eq!(fx(2.0).root(1).unwrap().raw, 2_000_000_000);
    assert_eq!(raw(0).root(2).unwrap().raw, 22_360);
    assert_eq!(raw(i64::MAX).root(2).unwrap().raw, i64::MAX);
}

#[test]
fn roots_of_negative_numbers_and_zeroth_roots_are_refused() {
    assert_eq!(fx(-8.0).root(3), None);
    assert_eq!(fx(8.0).root(0), None);
}

#[test]
fn root_inverts_power_on_a_sample() {
    let mut n: usize = 1;
    while n <= 6 {
        let mut k: i64 = 1;
        while k <= 40 {
            let x = raw(k * 250_000_000);
            let r = x.pow(n).root(n).unwrap();
            assert!(r.pow(n).raw <= x.pow(n).raw);
            assert!(r.raw >= x.raw);
            assert!(raw(r.raw + 1).pow(n).raw > x.pow(n).raw);
            k += 1;
        }
        n += 1;
    }
}

#[test]
fn comparisons_follow_the_raw_values() {
    assert!(fx(1.0).lt(fx(1.5)));
    assert!(!fx(1.5).lt(fx(1.5)));
    assert!(fx(1.5).le(fx(1.5)));
    assert!(!fx(2.0).le(fx(1.5)));
    assert_eq!(fx(1.5), raw(1_500_000_000));
}

#[test]
fn one_is_neutral_and_zero_absorbs() {
    let samples = [i64::MIN, -1_500_000_000, -1, 0, 1, 999_999_999, i64::MAX];
    for x in samples {
        assert_eq!(raw(x).sat_mul(Fixed::one()).raw, x);
        assert_eq!(Fixed::one().sat_mul(raw(x)).raw, x);
        assert_eq!(raw(x).checked_div(Fixed::one()).unwrap().raw, x);
        assert_eq!(raw(x).sat_mul(Fixed::zero()).raw, 0);
        assert_eq!(raw(x).sat_add(Fixed::zero()).raw, x);
        assert_eq!(raw(x).sat_sub(Fixed::zero()).raw, x);
    }
}

#[test]
fn products_and_sums_commute() {
    let samples = [i64::MIN, -2_750_000_001, -3, 0, 7, 1_234_567_891, i64::MAX];
    for x in samples {
        for y in samples {
            assert_eq!(raw(x).sat_mul(raw(y)), raw(y).sat_mul(raw(x)));
            assert_eq!(raw(x).sat_add(raw(y)), raw(y).sat_add(raw(x)));
        }
    }
}

#[test]
fn rounded_quotients_are_nearest() {
    let numerators = [-7_000_000_001i64, -5, -1, 0, 1, 2, 3, 1_000_000_007];
    let divisors = [1i64, 2, 3, 7, 1_000_000_000, 2_999_999_999];
    for n in numerators {
        for d in divisors {
            let q = raw(n).checked_div(raw(d)).unwrap().raw as i128;
            let exact = n as i128 * 1_000_000_000;
            assert!((2 * (q * d as i128 - exact)).abs() <= d as i128, "{} / {}", n, d);
        }
    }
}

#[test]
fn product_with_a_square_is_rounded_once() {
    let cases: [(i64, i64, i64); 15] = [
        (-9_810_000_000, 10_000, -1),
        (1_500_000_000, -2_000_000_000, 6_000_000_000),
        (i64::MAX, 1_000_000_000, i64::MAX),
        (i64::MIN, 1_000_000_000, i64::MIN),
        (i64::MAX, i64::MAX, i64::MAX),
        (i64::MIN, i64::MIN, i64::MIN),
        (i64::MIN, 500_000_000, -2_305_843_009_213_693_952),
        (1, 750_000_000, 1),
        (-1, 707_106_780, 0),
        (-1, 707_106_790, -1),
        (3_000_000_000, 1, 0),
        (7, 31_622_776_602, 7_000),
        (2_000_000_000_000_000_000, 2_000_000_000, 8_000_000_000_000_000_000),
        (-2_500_000_000_000_000_000, 2_000_000_000, i64::MIN),
        (12_345_678_901_234, 98_765_432_101, 120_427_290_003_769_103),
    ];
    for (a, t, want) in cases {
        assert_eq!(raw(a).times_square(raw(t)).raw, want, "{} * {}^2", a, t);
    }
    assert_eq!(raw(0).times_square(raw(i64::MIN)).raw, 0);
    assert_eq!(raw(i64::MIN).times_square(raw(0)).raw, 0);
}
