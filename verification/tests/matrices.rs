use flightctrl::fixed::Fixed;
use flightctrl::matrix::{matrix_from_list, Matrix};
use flightctrl::vector::{
    add_rows, concat_rows, copy_range, div_row, dot_prefix, dot_prefix_in_range, eliminate_row,
    eliminate_row_in_range, row_is_in_range,
    halve_row, neg_row, scale_row, sub_rows, unit_row, with_entry,
};

fn fx(x: f64) -> Fixed {
    Fixed::from_raw((x * 1e9).round() as i64)
}

fn row(xs: &[f64]) -> Vec<Fixed> {
    xs.iter().map(|x| fx(*x)).collect()
}

fn matrix(rows: &[&[f64]]) -> Matrix {
    Matrix { rows: rows.iter().map(|r| row(r)).collect() }
}

fn raws(m: &Matrix) -> Vec<Vec<i64>> {
    m.rows.iter().map(|r| r.iter().map(|x| x.raw).collect()).collect()
}

fn raw_row(v: &[Fixed]) -> Vec<i64> {
    v.iter().map(|x| x.raw).collect()
}

fn to_nalgebra(m: &Matrix) -> nalgebra::DMatrix<f64> {
    nalgebra::DMatrix::from_fn(m.rows.len(), m.rows[0].len(), |i, j| m.rows[i][j].raw as f64 / 1e9)
}

fn close(m: &Matrix, want: &nalgebra::DMatrix<f64>, tolerance: f64) -> bool {
    let got = to_nalgebra(m);
    got.nrows() == want.nrows() && got.ncols() == want.ncols() && (got - want).abs().max() <= tolerance
}

#[test]
fn row_operations_work_entry_by_entry() {
    let a = row(&[1.0, 2.0, 3.0]);
    let b = row(&[4.0, 5.0, 6.0]);
    assert_eq!(dot_prefix(&a, &b, 3).raw, 32_000_000_000);
    assert_eq!(dot_prefix(&a, &b, 2).raw, 14_000_000_000);
    assert_eq!(dot_prefix(&a, &b, 0).raw, 0);
    assert_eq!(raw_row(&add_rows(&a, &b)), vec![5_000_000_000, 7_000_000_000, 9_000_000_000]);
    assert_eq!(raw_row(&sub_rows(&a, &b)), vec![-3_000_000_000, -3_000_000_000, -3_000_000_000]);
    assert_eq!(raw_row(&scale_row(&a, fx(0.5))), vec![500_000_000, 1_000_000_000, 1_500_000_000]);
    assert_eq!(raw_row(&div_row(&a, fx(3.0))), vec![333_333_333, 666_666_667, 1_000_000_000]);
    assert_eq!(raw_row(&eliminate_row(&a, fx(2.0), &b)), vec![-7_000_000_000, -8_000_000_000, -9_000_000_000]);
    assert_eq!(raw_row(&halve_row(&a)), vec![500_000_000, 1_000_000_000, 1_500_000_000]);
    assert_eq!(raw_row(&neg_row(&a)), vec![-1_000_000_000, -2_000_000_000, -3_000_000_000]);
}

#[test]
fn row_builders_place_entries() {
    let a = row(&[1.0, 2.0, 3.0]);
    let b = row(&[4.0]);
    assert_eq!(raw_row(&unit_row(3, 1)), vec![0, 1_000_000_000, 0]);
    assert_eq!(raw_row(&unit_row(2, 5)), vec![0, 0]);
    assert_eq!(raw_row(&copy_range(&a, 1, 3)), vec![2_000_000_000, 3_000_000_000]);
    assert_eq!(raw_row(&copy_range(&a, 2, 2)), Vec::<i64>::new());
    assert_eq!(raw_row(&concat_rows(&a, &b)), vec![1_000_000_000, 2_000_000_000, 3_000_000_000, 4_000_000_000]);
    assert_eq!(raw_row(&with_entry(&a, 0, fx(9.0))), vec![9_000_000_000, 2_000_000_000, 3_000_000_000]);
}

#[test]
fn well_formedness_needs_a_grid() {
    assert!(matrix(&[&[1.0, 2.0], &[3.0, 4.0]]).is_well_formed());
    assert!(matrix(&[&[1.0]]).is_well_formed());
    assert!(!matrix(&[&[1.0, 2.0], &[3.0]]).is_well_formed());
    assert!(!matrix(&[&[], &[]]).is_well_formed());
    assert!(!matrix(&[]).is_well_formed());
}

#[test]
fn shape_and_entries_are_read_back() {
    let m = matrix(&[&[1.0, 2.0, 3.0], &[4.0, 5.0, 6.0]]);
    assert_eq!(m.nrows(), 2);
    assert_eq!(m.ncols(), 3);
    assert_eq!(m.get(1, 2).raw, 6_000_000_000);
    assert_eq!(raws(&m.clone()), raws(&m));
}

#[test]
fn zeros_and_identity() {
    assert_eq!(raws(&Matrix::zeros(2, 3)), vec![vec![0, 0, 0], vec![0, 0, 0]]);
    assert_eq!(
        raws(&Matrix::identity(3)),
        vec![vec![1_000_000_000, 0, 0], vec![0, 1_000_000_000, 0], vec![0, 0, 1_000_000_000]]
    );
}

#[test]
fn transpose_swaps_rows_and_columns() {
    let m = matrix(&[&[1.0, 2.0, 3.0], &[4.0, 5.0, 6.0]]);
    assert_eq!(
        raws(&m.transpose()),
        vec![
            vec![1_000_000_000, 4_000_000_000],
            vec![2_000_000_000, 5_000_000_000],
            vec![3_000_000_000, 6_000_000_000]
        ]
    );
}

#[test]
fn product_is_rows_times_columns() {
    let a = matrix(&[&[1.0, 2.0], &[3.0, 4.0]]);
    let b = matrix(&[&[0.5, -1.0], &[2.0, 0.25]]);
    assert_eq!(
        raws(&a.product(&b)),
        vec![vec![4_500_000_000, -500_000_000], vec![9_500_000_000, -2_000_000_000]]
    );
    let c = matrix(&[&[1.0], &[2.0]]);
    assert_eq!(raws(&a.product(&c)), vec![vec![5_000_000_000], vec![11_000_000_000]]);
    assert!(close(&a.product(&b), &(to_nalgebra(&a) * to_nalgebra(&b)), 1e-9));
}

#[test]
fn entrywise_operations() {
    let a = matrix(&[&[1.0, 2.0], &[3.0, 4.0]]);
    let b = matrix(&[&[0.5, -1.0], &[2.0, 0.25]]);
    assert_eq!(raws(&a.sum(&b)), vec![vec![1_500_000_000, 1_000_000_000], vec![5_000_000_000, 4_250_000_000]]);
    assert_eq!(raws(&a.difference(&b)), vec![vec![500_000_000, 3_000_000_000], vec![1_000_000_000, 3_750_000_000]]);
    assert_eq!(raws(&a.scaled(fx(-2.0))), vec![vec![-2_000_000_000, -4_000_000_000], vec![-6_000_000_000, -8_000_000_000]]);
    assert_eq!(raws(&a.halved()), vec![vec![500_000_000, 1_000_000_000], vec![1_500_000_000, 2_000_000_000]]);
    assert_eq!(raws(&a.negated()), vec![vec![-1_000_000_000, -2_000_000_000], vec![-3_000_000_000, -4_000_000_000]]);
}

#[test]
fn blocks_are_cut_and_assembled() {
    let a = matrix(&[&[1.0, 2.0], &[3.0, 4.0]]);
    let b = matrix(&[&[5.0], &[6.0]]);
    let c = matrix(&[&[7.0, 8.0]]);
    let d = matrix(&[&[9.0]]);
    let m = matrix_from_list(&a, &b, &c, &d);
    assert_eq!(
        raws(&m),
        raws(&matrix(&[&[1.0, 2.0, 5.0], &[3.0, 4.0, 6.0], &[7.0, 8.0, 9.0]]))
    );
    assert_eq!(raws(&m.block(0, 0, 2, 2)), raws(&a));
    assert_eq!(raws(&m.block(0, 2, 2, 1)), raws(&b));
    assert_eq!(raws(&m.block(2, 0, 1, 2)), raws(&c));
    assert_eq!(raws(&m.block(2, 2, 1, 1)), raws(&d));
}

#[test]
fn frobenius_norm() {
    assert_eq!(matrix(&[&[3.0, 4.0]]).norm().raw, 5_000_000_000);
    assert_eq!(matrix(&[&[1.0, 2.0], &[3.0, 4.0]]).norm().raw, 5_477_225_575);
    assert_eq!(matrix(&[&[0.0]]).norm().raw, 0);
}

#[test]
fn norm_counts_the_smallest_entries() {
    let tiny = Matrix { rows: vec![vec![Fixed::from_raw(1), Fixed::from_raw(0)]] };
    assert_eq!(tiny.norm().raw, 1);
    let small = Matrix { rows: vec![vec![Fixed::from_raw(22_000), Fixed::from_raw(-22_000)]] };
    assert_eq!(small.norm().raw, 31_112);
    let change = Matrix { rows: vec![vec![Fixed::from_raw(0), Fixed::from_raw(-10_000)], vec![Fixed::from_raw(-10_000), Fixed::from_raw(0)]] };
    assert_eq!(change.norm().raw, 14_142);
}

#[test]
fn norm_saturates() {
    let big = Matrix { rows: vec![vec![Fixed::from_raw(i64::MAX), Fixed::from_raw(i64::MAX)]] };
    assert_eq!(big.norm().raw, i64::MAX);
    assert_eq!(Matrix { rows: vec![vec![Fixed::from_raw(i64::MIN)]] }.norm().raw, i64::MAX);
    assert_eq!(Matrix { rows: vec![vec![Fixed::from_raw(i64::MAX)]] }.norm().raw, i64::MAX);
    assert_eq!(Matrix { rows: vec![vec![Fixed::from_raw(-i64::MAX + 1)]] }.norm().raw, i64::MAX - 1);
    let many = Matrix { rows: vec![vec![Fixed::from_raw(i64::MIN); 40]; 40] };
    assert_eq!(many.norm().raw, i64::MAX);
}

#[test]
fn inverse_and_determinant_of_two_by_two() {
    let a = matrix(&[&[1.0, 2.0], &[3.0, 4.0]]);
    let found = a.invert().unwrap();
    let (inv, det) = (found.inverse, found.determinant.unwrap());
    assert_eq!(raws(&inv), vec![vec![-1_999_999_998, 999_999_998], vec![1_499_999_999, -499_999_999]]);
    assert_eq!(det.raw, -2_000_000_001);
    assert_eq!(found.gauge.raw, 1_414_213_562);
    let reference = to_nalgebra(&a);
    assert!(close(&inv, &reference.clone().try_inverse().unwrap(), 1e-8));
    assert!((det.raw as f64 / 1e9 - reference.determinant()).abs() <= 1e-8);
}

#[test]
fn inverse_and_determinant_of_three_by_three() {
    let a = matrix(&[&[2.0, 0.0, 1.0], &[1.0, 3.0, 2.0], &[1.0, 0.0, 1.0]]);
    let found = a.invert().unwrap();
    let (inv, det) = (found.inverse, found.determinant.unwrap());
    assert_eq!(found.gauge.raw, 1_442_249_570);
    assert_eq!(
        raws(&inv),
        vec![
            vec![1_000_000_000, 0, -1_000_000_000],
            vec![333_333_333, 333_333_333, -1_000_000_000],
            vec![-1_000_000_000, 0, 2_000_000_000]
        ]
    );
    assert_eq!(det.raw, 3_000_000_000);
    assert!(close(&inv, &to_nalgebra(&a).try_inverse().unwrap(), 1e-8));
}

#[test]
fn inverse_exchanges_rows_for_a_zero_pivot() {
    let a = matrix(&[&[0.0, 1.0], &[1.0, 0.0]]);
    let found = a.invert().unwrap();
    assert_eq!(raws(&found.inverse), vec![vec![0, 1_000_000_000], vec![1_000_000_000, 0]]);
    assert_eq!(found.determinant.unwrap().raw, -1_000_000_000);
    assert_eq!(found.gauge.raw, 1_000_000_000);
}

#[test]
fn singular_matrix_has_no_inverse() {
    assert!(matrix(&[&[1.0, 2.0], &[2.0, 4.0]]).invert().is_none());
    assert!(matrix(&[&[0.0]]).invert().is_none());
    assert!(matrix(&[&[2.0, 0.0, 1.0], &[1.0, 3.0, 2.0], &[1.0, 1.0, 1.0]]).invert().is_none());
}

#[test]
fn inverse_times_matrix_is_near_identity() {
    let a = matrix(&[&[4.0, -2.0, 1.0, 0.5], &[3.0, 6.0, -4.0, 1.0], &[2.0, 1.0, 8.0, -1.0], &[0.5, 0.25, -1.0, 5.0]]);
    let inv = a.invert().unwrap().inverse;
    let eye = nalgebra::DMatrix::<f64>::identity(4, 4);
    assert!(close(&a.product(&inv), &eye, 1e-8));
    assert!(close(&inv.product(&a), &eye, 1e-8));
}

#[test]
fn cholesky_factor_is_lower_triangular() {
    let l = matrix(&[&[4.0, 2.0], &[2.0, 3.0]]).cholesky().unwrap();
    assert_eq!(raws(&l), vec![vec![2_000_000_000, 0], vec![1_000_000_000, 1_414_213_562]]);
    let big = matrix(&[&[25.0, 15.0, -5.0], &[15.0, 18.0, 0.0], &[-5.0, 0.0, 11.0]]);
    let l = big.cholesky().unwrap();
    assert_eq!(
        raws(&l),
        vec![
            vec![5_000_000_000, 0, 0],
            vec![3_000_000_000, 3_000_000_000, 0],
            vec![-1_000_000_000, 1_000_000_000, 3_000_000_000]
        ]
    );
    let reference = nalgebra::linalg::Cholesky::new(to_nalgebra(&big)).unwrap();
    assert!(close(&l, &reference.l(), 1e-9));
}

#[test]
fn cholesky_refuses_what_is_not_positive_definite() {
    assert!(matrix(&[&[1.0, 2.0], &[2.0, 1.0]]).cholesky().is_none());
    assert!(matrix(&[&[0.0]]).cholesky().is_none());
    assert!(matrix(&[&[-1.0]]).cholesky().is_none());
    assert!(nalgebra::linalg::Cholesky::new(to_nalgebra(&matrix(&[&[1.0, 2.0], &[2.0, 1.0]]))).is_none());
}

#[test]
fn arrays_convert_to_matrices_and_back() {
    let a = [[fx(1.0), fx(2.0), fx(3.0)], [fx(4.0), fx(5.0), fx(6.0)]];
    let m = Matrix::from_array(&a);
    assert_eq!(raws(&m), raws(&matrix(&[&[1.0, 2.0, 3.0], &[4.0, 5.0, 6.0]])));
    assert!(m.is_well_formed());
    assert_eq!(m.to_array::<2, 3>(), Some(a));
    assert_eq!(m.to_array::<3, 2>(), None);
    assert_eq!(m.to_array::<2, 2>(), None);
    assert_eq!(m.to_array::<1, 3>(), None);
    assert_eq!(matrix(&[&[1.0, 2.0], &[3.0]]).to_array::<2, 2>(), None);
    let empty: [[Fixed; 0]; 2] = [[], []];
    assert!(!Matrix::from_array(&empty).is_well_formed());
    assert_eq!(Matrix::from_array(&empty).to_array::<2, 0>(), Some(empty));
    let none: [[Fixed; 2]; 0] = [];
    assert!(!Matrix::from_array(&none).is_well_formed());
}

#[test]
fn rows_are_accepted_only_as_a_grid() {
    let m = Matrix::from_rows(vec![row(&[1.0, 2.0]), row(&[3.0, 4.0])]).unwrap();
    assert_eq!(raws(&m), raws(&matrix(&[&[1.0, 2.0], &[3.0, 4.0]])));
    assert!(Matrix::from_rows(vec![row(&[1.0, 2.0]), row(&[3.0])]).is_none());
    assert!(Matrix::from_rows(vec![]).is_none());
    assert!(Matrix::from_rows(vec![vec![]]).is_none());
}

#[test]
fn determinant_is_the_signed_product_of_the_pivots() {
    assert_eq!(matrix(&[&[1.0, 2.0], &[3.0, 4.0]]).determinant().unwrap().raw, -2_000_000_001);
    assert_eq!(matrix(&[&[2.0, 0.0, 1.0], &[1.0, 3.0, 2.0], &[1.0, 0.0, 1.0]]).determinant().unwrap().raw, 3_000_000_000);
    assert_eq!(matrix(&[&[0.0, 1.0], &[1.0, 0.0]]).determinant().unwrap().raw, -1_000_000_000);
    assert_eq!(matrix(&[&[1.0, 2.0], &[2.0, 4.0]]).determinant(), None);
    assert_eq!(matrix(&[&[-3.0]]).determinant().unwrap().raw, -3_000_000_000);
    assert_eq!(matrix(&[&[1e5, 0.0], &[0.0, 1e5]]).determinant(), None);
}

#[test]
fn identity_is_neutral_and_its_own_inverse() {
    let m = matrix(&[&[1.5, -2.0, 0.25], &[4.0, 0.000000001, -9e9]]);
    assert_eq!(raws(&m.product(&Matrix::identity(3))), raws(&m));
    assert_eq!(raws(&Matrix::identity(2).product(&m)), raws(&m));
    assert_eq!(raws(&m.transpose().transpose()), raws(&m));
    let mut n: usize = 1;
    while n <= 5 {
        let found = Matrix::identity(n).invert().unwrap();
        assert_eq!(raws(&found.inverse), raws(&Matrix::identity(n)));
        assert_eq!(found.determinant.unwrap().raw, 1_000_000_000);
        assert_eq!(found.gauge.raw, 1_000_000_000);
        assert_eq!(raws(&Matrix::identity(n).cholesky().unwrap()), raws(&Matrix::identity(n)));
        n += 1;
    }
}

#[test]
fn clipped_values_are_found_where_the_result_hides_them() {
    let a = matrix(&[&[1e5, 1e5]]);
    let b = matrix(&[&[1e5], &[-1e5]]);
    assert_eq!(raws(&a.product(&b)), vec![vec![-1]]);
    assert!(!a.product_is_in_range(&b));
    let c = matrix(&[&[9e4, 1.0]]);
    assert!(c.product_is_in_range(&c.transpose()));
    assert_eq!(raws(&c.product(&c.transpose())), vec![vec![8_100_000_001_000_000_000]]);
    assert!(a.is_in_range());
    assert!(!Matrix { rows: vec![vec![Fixed::from_raw(0), Fixed::from_raw(i64::MAX)]] }.is_in_range());
    assert!(!Matrix { rows: vec![vec![Fixed::from_raw(i64::MIN)]] }.is_in_range());
    assert!(Matrix { rows: vec![vec![Fixed::from_raw(i64::MIN + 1), Fixed::from_raw(i64::MAX - 1)]] }.is_in_range());
    assert!(dot_prefix_in_range(&row(&[1e5, 1e5]), &row(&[1e5, -1e5]), 0));
    assert!(!dot_prefix_in_range(&row(&[1e5, 1e5]), &row(&[1e5, -1e5]), 1));
    assert!(row_is_in_range(&row(&[1.0, -9e9])));
    assert!(eliminate_row_in_range(&row(&[5.0]), fx(3e4), &row(&[3e4])));
    assert!(!eliminate_row_in_range(&row(&[5.0]), fx(1e5), &row(&[1e5])));
    assert!(!eliminate_row_in_range(&row(&[-9e9]), fx(1.0), &row(&[9e9])));
}

#[test]
fn inverse_fails_where_a_value_leaves_the_range() {
    assert!(Matrix { rows: vec![vec![Fixed::from_raw(i64::MAX)]] }.invert().is_none());
    assert!(Matrix { rows: vec![vec![Fixed::from_raw(i64::MIN)]] }.invert().is_none());
    assert!(matrix(&[&[1.0, 9e9], &[0.0, 1e-9]]).invert().is_none());
    assert_eq!(
        raws(&matrix(&[&[1.0, 9.0], &[0.0, 1e-9]]).invert().unwrap().inverse),
        vec![vec![1_000_000_000, -9_000_000_000_000_000_000], vec![0, 1_000_000_000_000_000_000]]
    );
    let tiny = Matrix { rows: vec![vec![Fixed::from_raw(1)]] }.invert().unwrap();
    assert_eq!(raws(&tiny.inverse), vec![vec![1_000_000_000_000_000_000]]);
    assert_eq!(tiny.determinant.unwrap().raw, 1);
    assert_eq!(tiny.gauge.raw, 1);
}

#[test]
fn inverse_survives_a_determinant_beyond_the_range() {
    let found = matrix(&[&[1e5, 0.0], &[0.0, 1e5]]).invert().unwrap();
    assert_eq!(raws(&found.inverse), vec![vec![10_000, 0], vec![0, 10_000]]);
    assert_eq!(found.determinant, None);
    assert_eq!(found.gauge.raw, 99_999_999_999_470);
    let scaled = matrix(&[&[0.5, 0.0], &[0.0, 8.0]]).invert().unwrap();
    assert_eq!(raws(&scaled.inverse), vec![vec![2_000_000_000, 0], vec![0, 125_000_000]]);
    assert_eq!(scaled.determinant.unwrap().raw, 4_000_000_000);
    assert_eq!(scaled.gauge.raw, 1_999_999_999);
}

#[test]
fn cholesky_fails_where_a_value_leaves_the_range() {
    assert!(Matrix { rows: vec![vec![Fixed::from_raw(i64::MAX)]] }.cholesky().is_none());
    assert!(matrix(&[&[4e9, 9e9], &[9e9, 9e9]]).cholesky().is_none());
    assert_eq!(
        raws(&matrix(&[&[1e9, 0.0], &[0.0, 1.0]]).cholesky().unwrap()),
        vec![vec![31_622_776_601_683, 0], vec![0, 1_000_000_000]]
    );
    assert_eq!(
        raws(&matrix(&[&[1e-8, 1.0], &[1.0, 4e9]]).cholesky().unwrap()),
        vec![vec![100_000, 0], vec![10_000_000_000_000, 62_449_979_983_983]]
    );
}
