use ray_tracer::matrices::Matrix;
use ray_tracer::scalar::Scalar;
use ray_tracer::tuples::{point, Tuple};

fn s(x: f64) -> Scalar {
    Scalar::from_raw((x * 1e9) as i64)
}

fn m2(a: [[f64; 2]; 2]) -> Matrix<2> {
    Matrix::new(a.map(|row| row.map(s)))
}

fn m3(a: [[f64; 3]; 3]) -> Matrix<3> {
    Matrix::new(a.map(|row| row.map(s)))
}

fn m4(a: [[f64; 4]; 4]) -> Matrix<4> {
    Matrix::new(a.map(|row| row.map(s)))
}

fn pt(x: f64, y: f64, z: f64) -> Tuple {
    point(s(x), s(y), s(z))
}

const IDENTITY: [[f64; 4]; 4] = [
    [1.0, 0.0, 0.0, 0.0],
    [0.0, 1.0, 0.0, 0.0],
    [0.0, 0.0, 1.0, 0.0],
    [0.0, 0.0, 0.0, 1.0],
];

#[test]
fn matrices_test_constructor() {
    let matrix = m4([
        [1.0, 2.0, 3.0, 4.0],
        [5.5, 6.5, 7.5, 8.5],
        [9.0, 10.0, 11.0, 12.0],
        [13.5, 14.5, 15.5, 16.5],
    ]);

    assert_eq!(s(1.0), matrix.index(0)[0]);
    assert_eq!(s(4.0), matrix.index(0)[3]);
    assert_eq!(s(5.5), matrix.index(1)[0]);
    assert_eq!(s(7.5), matrix.index(1)[2]);
    assert_eq!(s(11.0), matrix.index(2)[2]);
    assert_eq!(s(13.5), matrix.index(3)[0]);
    assert_eq!(s(15.5), matrix.index(3)[2]);

    let matrix = m2([[-3.0, 5.0], [1.0, -2.0]]);
    assert_eq!(s(-3.0), matrix.index(0)[0]);
    assert_eq!(s(5.0), matrix.index(0)[1]);
    assert_eq!(s(1.0), matrix.index(1)[0]);
    assert_eq!(s(-2.0), matrix.index(1)[1]);
}

#[test]
fn test_equal() {
    let a = m4([
        [1.0, 2.0, 3.0, 4.0],
        [5.0, 6.0, 7.0, 8.0],
        [9.0, 8.0, 7.0, 6.0],
        [5.0, 4.0, 3.0, 2.0],
    ]);
    let b = m4([
        [1.0, 2.0, 3.0, 4.0],
        [5.0, 6.0, 7.0, 8.0],
        [9.0, 8.0, 7.0, 6.0],
        [5.0, 4.0, 3.0, 2.0],
    ]);

    assert_eq!(a, b);

    let a = m4([
        [1.0, 2.0, 3.0, 4.0],
        [5.0, 6.0, 7.0, 8.0],
        [9.0, 8.0, 7.0, 6.0],
        [5.0, 4.0, 3.0, 2.0],
    ]);
    let b = m4([
        [5.0, 4.0, 3.0, 2.0],
        [9.0, 8.0, 7.0, 6.0],
        [5.0, 6.0, 7.0, 8.0],
        [1.0, 2.0, 3.0, 4.0],
    ]);

    assert_ne!(a, b);
}

#[test]
fn matrices_test_mul() {
    let a = m4([
        [1.0, 2.0, 3.0, 4.0],
        [5.0, 6.0, 7.0, 8.0],
        [9.0, 8.0, 7.0, 6.0],
        [5.0, 4.0, 3.0, 2.0],
    ]);

    let b = m4([
        [-2.0, 1.0, 2.0, 3.0],
        [3.0, 2.0, 1.0, -1.0],
        [4.0, 3.0, 6.0, 5.0],
        [1.0, 2.0, 7.0, 8.0],
    ]);

    let c = m4([
        [20.0, 22.0, 50.0, 48.0],
        [44.0, 54.0, 114.0, 108.0],
        [40.0, 58.0, 110.0, 102.0],
        [16.0, 26.0, 46.0, 42.0],
    ]);

    assert_eq!(c, a.mul(b));
}

#[test]
fn test_mul_tuple() {
    let matrix = m4([
        [1.0, 2.0, 3.0, 4.0],
        [2.0, 4.0, 4.0, 2.0],
        [8.0, 6.0, 4.0, 1.0],
        [0.0, 0.0, 0.0, 1.0],
    ]);
    let tuple = pt(1.0, 2.0, 3.0);

    assert_eq!(pt(18.0, 24.0, 33.0), matrix.mul_tuple(tuple))
}

#[test]
fn test_identity() {
    let matrix = m4([
        [0.0, 1.0, 2.0, 4.0],
        [1.0, 2.0, 4.0, 8.0],
        [2.0, 4.0, 8.0, 16.0],
        [4.0, 8.0, 16.0, 32.0],
    ]);

    assert_eq!(matrix.clone(), matrix.mul(m4(IDENTITY)));

    let tuple = Tuple::new(s(1.0), s(2.0), s(3.0), s(4.0));

    assert_eq!(tuple, m4(IDENTITY).mul_tuple(tuple));
}

#[test]
fn test_transpose() {
    let a = m4([
        [0.0, 9.0, 3.0, 0.0],
        [9.0, 8.0, 0.0, 8.0],
        [1.0, 8.0, 5.0, 3.0],
        [0.0, 0.0, 5.0, 8.0],
    ]);

    assert_eq!(
        m4([
            [0.0, 9.0, 1.0, 0.0],
            [9.0, 8.0, 8.0, 0.0],
            [3.0, 0.0, 5.0, 5.0],
            [0.0, 8.0, 3.0, 8.0]
        ]),
        a.transpose()
    );
}

#[test]
fn test_determinant_2() {
    let matrix = m2([[1.0, 5.0], [-3.0, 2.0]]);

    assert_eq!(s(17.0), matrix.determinant());
}

#[test]
fn test_determinant_3() {
    let matrix = m3([[1.0, 2.0, 6.0], [-5.0, 8.0, -4.0], [2.0, 6.0, 4.0]]);

    assert_eq!(s(-196.0), matrix.determinant());
}

#[test]
fn test_determinant_4() {
    let matrix = m4([
        [-2.0, -8.0, 3.0, 5.0],
        [-3.0, 1.0, 7.0, 3.0],
        [1.0, 2.0, -9.0, 6.0],
        [-6.0, 7.0, 7.0, -9.0],
    ]);

    assert_eq!(s(-4071.0), matrix.determinant());
}

#[test]
fn test_submatrix_3() {
    let matrix = m3([[1.0, 5.0, 0.0], [-3.0, 2.0, 7.0], [0.0, 6.0, -3.0]]);

    assert_eq!(m2([[-3.0, 2.0], [0.0, 6.0]]), matrix.submatrix(0, 2));
}

#[test]
fn test_submatrix_4() {
    let matrix = m4([
        [-6.0, 1.0, 1.0, 6.0],
        [-8.0, 5.0, 8.0, 6.0],
        [-1.0, 0.0, 8.0, 2.0],
        [-7.0, 1.0, -1.0, 1.0],
    ]);

    assert_eq!(
        m3([[-6.0, 1.0, 6.0], [-8.0, 8.0, 6.0], [-7.0, -1.0, 1.0]]),
        matrix.submatrix(2, 1)
    );
}

#[test]
fn test_minor_3() {
    let matrix = m3([[3.0, 5.0, 0.0], [2.0, -1.0, -7.0], [6.0, -1.0, 5.0]]);

    assert_eq!(s(25.0), matrix.minor(1, 0));
}

#[test]
fn test_cofactor_3() {
    let matrix = m3([[3.0, 5.0, 0.0], [2.0, -1.0, -7.0], [6.0, -1.0, 5.0]]);

    assert_eq!(s(-12.0), matrix.minor(0, 0));
    assert_eq!(s(-12.0), matrix.cofactor(0, 0));
    assert_eq!(s(25.0), matrix.minor(1, 0));
    assert_eq!(s(-25.0), matrix.cofactor(1, 0));
}

#[test]
fn test_inverse() {
    let matrix = m4([
        [8.0, -5.0, 9.0, 2.0],
        [7.0, 5.0, 6.0, 1.0],
        [-6.0, 0.0, 9.0, 6.0],
        [-3.0, 0.0, -9.0, -4.0],
    ]);

    assert_eq!(
        Some(m4([
            [-0.15385, -0.15385, -0.28205, -0.53846],
            [-0.07692, 0.12308, 0.02564, 0.03077],
            [0.35897, 0.35897, 0.43590, 0.92308],
            [-0.69231, -0.69231, -0.76923, -1.92308],
        ])),
        matrix.inverse()
    );

    let matrix = m4([
        [9.0, 3.0, 0.0, 9.0],
        [-5.0, -2.0, -6.0, -3.0],
        [-4.0, 9.0, 6.0, 4.0],
        [-7.0, 6.0, 6.0, 2.0],
    ]);

    assert_eq!(
        Some(m4([
            [-0.04074, -0.07778, 0.14444, -0.22222],
            [-0.07778, 0.03333, 0.36667, -0.33333],
            [-0.02901, -0.14630, -0.10926, 0.12963],
            [0.17778, 0.06667, -0.26667, 0.33333],
        ])),
        matrix.inverse()
    );

    let a = m4([
        [3.0, -9.0, 7.0, 3.0],
        [3.0, -8.0, 2.0, -9.0],
        [-4.0, 4.0, 4.0, 1.0],
        [-6.0, 5.0, -1.0, 1.0],
    ]);
    let b = m4([
        [8.0, 2.0, 2.0, 2.0],
        [3.0, -1.0, 7.0, 0.0],
        [7.0, 0.0, 5.0, 4.0],
        [6.0, -2.0, 0.0, 5.0],
    ]);
    let c = a.mul(b);
    assert_eq!(a, c.mul(b.inverse().unwrap()));
}

#[test]
fn identity_has_ones_on_the_diagonal() {
    assert_eq!(m4(IDENTITY), Matrix::<4>::identity());
    assert_eq!(s(1.0), Matrix::<3>::identity().index(2)[2]);
    assert_eq!(s(0.0), Matrix::<3>::identity().index(2)[1]);
    assert_eq!(s(1.0), Matrix::<4>::identity().determinant());
    assert_eq!(s(1.0), Matrix::<3>::identity().determinant());
    assert_eq!(s(1.0), Matrix::<2>::identity().determinant());
}

#[test]
fn a_singular_matrix_has_no_inverse() {
    let matrix = m4([
        [-4.0, 2.0, -2.0, -3.0],
        [9.0, 6.0, 2.0, 6.0],
        [0.0, -5.0, 1.0, -5.0],
        [0.0, 0.0, 0.0, 0.0],
    ]);
    assert_eq!(s(0.0), matrix.determinant());
    assert_eq!(None, matrix.inverse());
    let matrix = m3([[1.0, 2.0, 3.0], [2.0, 4.0, 6.0], [7.0, 8.0, 9.0]]);
    assert_eq!(None, matrix.inverse());
}

#[test]
fn an_invertible_matrix_has_an_inverse() {
    let matrix = m4([
        [6.0, 4.0, 4.0, 4.0],
        [5.0, 5.0, 7.0, 6.0],
        [4.0, -9.0, 3.0, -7.0],
        [9.0, 1.0, 7.0, -6.0],
    ]);
    assert_eq!(s(-2120.0), matrix.determinant());
    assert!(matrix.inverse().is_some());
}

#[test]
fn inverse_of_a_three_by_three() {
    let matrix = m3([[2.0, 0.0, 0.0], [0.0, 4.0, 0.0], [1.0, 0.0, 8.0]]);
    assert_eq!(
        Some(m3([[0.5, 0.0, 0.0], [0.0, 0.25, 0.0], [-0.0625, 0.0, 0.125]])),
        matrix.inverse()
    );
}

#[test]
fn inverse_places_cofactors_transposed() {
    let matrix = m4([
        [-5.0, 2.0, 6.0, -8.0],
        [1.0, -5.0, 1.0, 8.0],
        [7.0, 7.0, -6.0, -7.0],
        [1.0, -3.0, 7.0, 4.0],
    ]);
    let inverse = matrix.inverse().unwrap();
    assert_eq!(s(532.0), matrix.determinant());
    assert_eq!(s(-160.0), matrix.cofactor(2, 3));
    assert_eq!(s(-160.0).div(s(532.0)), inverse.index(3)[2]);
    assert_eq!(s(105.0), matrix.cofactor(3, 2));
    assert_eq!(s(105.0).div(s(532.0)), inverse.index(2)[3]);
}

#[test]
fn a_matrix_times_its_inverse_is_the_identity() {
    let matrices = [
        m4([
            [8.0, -5.0, 9.0, 2.0],
            [7.0, 5.0, 6.0, 1.0],
            [-6.0, 0.0, 9.0, 6.0],
            [-3.0, 0.0, -9.0, -4.0],
        ]),
        m4([
            [9.0, 3.0, 0.0, 9.0],
            [-5.0, -2.0, -6.0, -3.0],
            [-4.0, 9.0, 6.0, 4.0],
            [-7.0, 6.0, 6.0, 2.0],
        ]),
        m4([
            [0.5, 0.0, 0.0, 1.25],
            [0.0, 2.0, 0.0, -3.0],
            [0.0, 0.0, 4.0, 0.5],
            [0.0, 0.0, 0.0, 1.0],
        ]),
    ];
    for m in matrices {
        let inverse = m.inverse().unwrap();
        assert_eq!(Matrix::<4>::identity(), m.mul(inverse));
    }
}

#[test]
fn the_inverse_of_the_inverse_is_the_matrix() {
    let matrices = [
        m4([
            [8.0, -5.0, 9.0, 2.0],
            [7.0, 5.0, 6.0, 1.0],
            [-6.0, 0.0, 9.0, 6.0],
            [-3.0, 0.0, -9.0, -4.0],
        ]),
        m4([
            [0.5, 0.0, 0.0, 1.25],
            [0.0, 2.0, 0.0, -3.0],
            [0.0, 0.0, 4.0, 0.5],
            [0.0, 0.0, 0.0, 1.0],
        ]),
    ];
    for m in matrices {
        assert_eq!(m, m.inverse().unwrap().inverse().unwrap());
    }
}

#[test]
fn inverting_twice_gives_the_matrix_back() {
    let m = m4([
        [9.0, 3.0, 0.0, 9.0],
        [-5.0, -2.0, -6.0, -3.0],
        [-4.0, 9.0, 6.0, 4.0],
        [-7.0, 6.0, 6.0, 2.0],
    ]);
    assert_eq!(m, m.inverse().unwrap().inverse().unwrap());
}

#[test]
fn a_three_by_three_times_its_inverse_is_the_identity() {
    let matrices = [
        m3([[1.0, 2.0, 6.0], [-5.0, 8.0, -4.0], [2.0, 6.0, 4.0]]),
        m3([[0.6, -0.8, 0.0], [0.8, 0.6, 0.0], [0.25, -1.5, 1.0]]),
    ];
    for m in matrices {
        assert_eq!(Matrix::<3>::identity(), m.mul(m.inverse().unwrap()));
    }
}

#[test]
fn a_rotation_round_trips_and_inverts_twice() {
    let (c, n) = (s(0.8), s(0.6));
    let o = s(0.0);
    let i = s(1.0);
    let m = Matrix::new([[c, n.neg(), o, o], [n, c, o, o], [o, o, i, o], [o, o, o, i]]);
    let inverse = m.inverse().unwrap();
    assert_eq!(Matrix::<4>::identity(), m.mul(inverse));
    assert_eq!(m, inverse.inverse().unwrap());
    let p = pt(30.0, -20.0, 10.0);
    assert_eq!(p, inverse.mul_tuple(m.mul_tuple(p)));
}

#[test]
fn a_badly_scaled_matrix_keeps_the_identity() {
    let m = m4([
        [0.00007, 0.0, 0.0, 0.0],
        [0.0, 0.00007, 0.0, 0.0],
        [0.0, 0.0, 1.0, 0.0],
        [0.0, 0.0, 0.0, 1.0],
    ]);
    assert_eq!(Scalar::from_raw(4), m.determinant());
    let inverse = m.inverse().unwrap();
    assert_eq!(Scalar::from_raw(14_285_714_285_714), inverse.index(0)[0]);
    assert_eq!(Matrix::<4>::identity(), m.mul(inverse));
    assert_eq!(Matrix::<4>::identity(), inverse.mul(m));
    let p = pt(1.0, 0.0, 0.0);
    assert_eq!(p, inverse.mul_tuple(m.mul_tuple(p)));
}

#[test]
fn a_determinant_too_small_to_show_is_still_not_zero() {
    let m = m4([
        [0.00002, 0.0, 0.0, 0.0],
        [0.0, 0.00002, 0.0, 0.0],
        [0.0, 0.0, 0.00002, 0.0],
        [0.0, 0.0, 0.0, 1.0],
    ]);
    assert_eq!(Scalar::from_raw(1), m.determinant());
    let inverse = m.inverse().unwrap();
    assert_eq!(s(50000.0), inverse.index(0)[0]);
    assert_eq!(Matrix::<4>::identity(), m.mul(inverse));
    assert_eq!(Matrix::<4>::identity(), inverse.mul(m));
}

#[test]
fn determinants_are_rounded_once() {
    let m = m2([[0.00003, 0.0], [0.0, 0.00003]]);
    assert_eq!(Scalar::from_raw(1), m.determinant());
    let m = m2([[0.00007, 0.0], [0.0, 0.00007]]);
    assert_eq!(Scalar::from_raw(4), m.determinant());
    let m = m2([[0.00004, 0.00001], [0.00001, 0.00004]]);
    assert_eq!(Scalar::from_raw(1), m.determinant());
    let m = m3([[0.001, 0.0, 0.0], [0.0, 0.001, 0.0], [0.0, 0.0, 0.0015]]);
    assert_eq!(Scalar::from_raw(1), m.determinant());
    assert_eq!(Scalar::from_raw(1_500), m.cofactor(0, 0));
    assert_eq!(Scalar::from_raw(-1_500), m3([[0.0, 1.0, 0.0], [0.001, 0.0, 0.0], [0.0, 0.0, 0.0015]]).cofactor(0, 1));
}

#[test]
fn determinants_of_the_largest_entries_saturate() {
    let big = Scalar::from_raw(i64::MAX);
    let o = Scalar::zero();
    let m = Matrix::new([[big, o, o, o], [o, big, o, o], [o, o, big, o], [o, o, o, big]]);
    assert_eq!(big, m.determinant());
    let inverse = m.inverse().unwrap();
    assert_eq!(Scalar::from_raw(0), inverse.index(0)[0]);
    let n = Matrix::new([[big, o, o, o], [o, big.neg(), o, o], [o, o, big, o], [o, o, o, big]]);
    assert_eq!(Scalar::from_raw(i64::MIN), n.determinant());
}

#[test]
fn a_matrix_of_three_rows_is_undone_from_both_sides() {
    let m = m3([[1.0, 2.0, 6.0], [-5.0, 8.0, -4.0], [2.0, 6.0, 4.0]]);
    let inverse = m.inverse().unwrap();
    assert_eq!(Matrix::<3>::identity(), m.mul(inverse));
    assert_eq!(Matrix::<3>::identity(), inverse.mul(m));
    let thin = m3([[0.00007, 0.0, 0.0], [0.0, 0.00007, 0.0], [0.0, 0.0, 1.0]]);
    let inverse = thin.inverse().unwrap();
    assert_eq!(Matrix::<3>::identity(), thin.mul(inverse));
    assert_eq!(Matrix::<3>::identity(), inverse.mul(thin));
}

#[test]
fn a_determinant_is_zero_exactly_where_there_is_no_inverse() {
    let tiny = m3([[0.000001, 0.0, 0.0], [0.0, 0.000001, 0.0], [0.0, 0.0, 0.000001]]);
    assert_eq!(Scalar::from_raw(1), tiny.determinant());
    assert!(tiny.inverse().is_some());
    let turned = m3([[0.0, 0.000001, 0.0], [0.000001, 0.0, 0.0], [0.0, 0.0, 0.000001]]);
    assert_eq!(Scalar::from_raw(-1), turned.determinant());
    assert!(turned.inverse().is_some());
    assert_eq!(Scalar::from_raw(1), turned.minor(0, 1));
    assert_eq!(Scalar::from_raw(-1), turned.cofactor(0, 1));
    let flat = m3([[1.0, 2.0, 3.0], [2.0, 4.0, 6.0], [0.5, -1.0, 7.0]]);
    assert_eq!(Scalar::zero(), flat.determinant());
    assert!(flat.inverse().is_none());
    let least = Scalar::from_raw(1);
    let o = Scalar::zero();
    let faint = Matrix::new([[least, o, o, o], [o, least, o, o], [o, o, least, o], [o, o, o, least]]);
    assert_eq!(least, faint.determinant());
    assert!(faint.inverse().is_some());
    let none = Matrix::new([[least, o, o, o], [o, least, o, o], [o, o, o, o], [o, o, o, least]]);
    assert_eq!(o, none.determinant());
    assert!(none.inverse().is_none());
}

#[test]
fn the_inverse_holds_the_cofactors_over_the_determinant() {
    let m = m4([
        [9.0, 3.0, 0.0, 9.0],
        [-5.0, -2.0, -6.0, -3.0],
        [-4.0, 9.0, 6.0, 4.0],
        [-7.0, 6.0, 6.0, 2.0],
    ]);
    let determinant = m.determinant();
    assert_eq!(s(1620.0), determinant);
    let inverse = m.inverse().unwrap();
    for r in 0..4 {
        for c in 0..4 {
            let entry = m.cofactor(r, c).div(determinant);
            assert!(entry.approx_eq(inverse.index(c)[r]));
        }
    }
    let m = m3([[1.0, 2.0, 6.0], [-5.0, 8.0, -4.0], [2.0, 6.0, 4.0]]);
    let determinant = m.determinant();
    let inverse = m.inverse().unwrap();
    for r in 0..3 {
        for c in 0..3 {
            let entry = m.cofactor(r, c).div(determinant);
            assert!(entry.approx_eq(inverse.index(c)[r]));
        }
    }
}

#[test]
fn a_large_matrix_is_undone_as_far_as_a_billionth_reaches() {
    let m = m4([
        [300000.0, 0.0, 0.0, 0.0],
        [0.0, 1.0, 0.0, 0.0],
        [0.0, 0.0, 1.0, 0.0],
        [0.0, 0.0, 0.0, 1.0],
    ]);
    let inverse = m.inverse().unwrap();
    assert_eq!(Scalar::from_raw(3_333), inverse.index(0)[0]);
    let product = m.mul(inverse);
    assert_eq!(Scalar::from_raw(999_900_000), product.index(0)[0]);
    let off = Scalar::one().sub(product.index(0)[0]);
    assert!(off.le(Scalar::from_raw(300_004)));
    let product = inverse.mul(m);
    let off = Scalar::one().sub(product.index(0)[0]);
    assert!(off.le(Scalar::from_raw(300_004)));
}
