use ray_tracer::matrices::Matrix;
use ray_tracer::scalar::Scalar;
use ray_tracer::transformations::{rotation, scaling, shearing, translation, Axis};
use ray_tracer::tuples::{point, vector, Tuple};
use std::f64::consts::PI;

fn s(x: f64) -> Scalar {
    Scalar::from_raw((x * 1e9) as i64)
}

fn pt(x: f64, y: f64, z: f64) -> Tuple {
    point(s(x), s(y), s(z))
}

fn vc(x: f64, y: f64, z: f64) -> Tuple {
    vector(s(x), s(y), s(z))
}

fn translate(x: f64, y: f64, z: f64) -> Matrix<4> {
    translation(s(x), s(y), s(z))
}

fn scale(x: f64, y: f64, z: f64) -> Matrix<4> {
    scaling(s(x), s(y), s(z))
}

fn rotate(axis: Axis, radians: f64) -> Matrix<4> {
    rotation(axis, s(radians.cos()), s(radians.sin()))
}

// The couplings in the order x~y, x~z, y~x, y~z, z~x, z~y.
fn shear(xy: f64, xz: f64, yx: f64, yz: f64, zx: f64, zy: f64) -> Matrix<4> {
    shearing(s(xy), s(xz), s(yx), s(yz), s(zy), s(zx))
}

#[test]
fn transformations_test_translation() {
    let transform = translate(5.0, -3.0, 2.0);
    let point = pt(-3.0, 4.0, 5.0);

    assert_eq!(pt(2.0, 1.0, 7.0), transform.mul_tuple(point));

    assert_eq!(pt(-8.0, 7.0, 3.0), transform.inverse().unwrap().mul_tuple(point));

    let vector = vc(-3.0, 4.0, 5.0);
    assert_eq!(vector, transform.mul_tuple(vector));
}

#[test]
fn test_scaling() {
    let transform = scale(2.0, 3.0, 4.0);
    let point = pt(-4.0, 6.0, 8.0);

    assert_eq!(pt(-8.0, 18.0, 32.0), transform.mul_tuple(point));

    let vector = vc(-4.0, 6.0, 8.0);

    assert_eq!(vc(-8.0, 18.0, 32.0), transform.mul_tuple(vector));
    assert_eq!(vc(-2.0, 2.0, 2.0), transform.inverse().unwrap().mul_tuple(vector));

    let transform = scale(-1.0, 1.0, 1.0);
    let point = pt(2.0, 3.0, 4.0);
    assert_eq!(pt(-2.0, 3.0, 4.0), transform.mul_tuple(point));
}

#[test]
fn test_rotation_x() {
    let point = pt(0.0, 1.0, 0.0);
    let half_quarter = rotate(Axis::X, PI / 4.0);
    let full_quarter = rotate(Axis::X, PI / 2.0);

    assert_eq!(
        pt(0.0, 2f64.sqrt() / 2.0, 2f64.sqrt() / 2.0),
        half_quarter.mul_tuple(point)
    );
    assert_eq!(pt(0.0, 0.0, 1.0), full_quarter.mul_tuple(point));
    assert_eq!(
        pt(0.0, 2f64.sqrt() / 2.0, -2f64.sqrt() / 2.0),
        half_quarter.inverse().unwrap().mul_tuple(point)
    );
}

#[test]
fn test_rotation_y() {
    let point = pt(0.0, 0.0, 1.0);
    let half_quarter = rotate(Axis::Y, PI / 4.0);
    let full_quarter = rotate(Axis::Y, PI / 2.0);

    assert_eq!(
        pt(2f64.sqrt() / 2.0, 0.0, 2f64.sqrt() / 2.0),
        half_quarter.mul_tuple(point)
    );
    assert_eq!(pt(1.0, 0.0, 0.0), full_quarter.mul_tuple(point));
}

#[test]
fn test_rotation_z() {
    let point = pt(0.0, 1.0, 0.0);
    let half_quarter = rotate(Axis::Z, PI / 4.0);
    let full_quarter = rotate(Axis::Z, PI / 2.0);

    assert_eq!(
        pt(-2f64.sqrt() / 2.0, 2f64.sqrt() / 2.0, 0.0),
        half_quarter.mul_tuple(point)
    );
    assert_eq!(pt(-1.0, 0.0, 0.0), full_quarter.mul_tuple(point));
}

#[test]
fn test_shearing() {
    let point = pt(2.0, 3.0, 4.0);

    let transform = shear(1.0, 0.0, 0.0, 0.0, 0.0, 0.0);
    assert_eq!(pt(5.0, 3.0, 4.0), transform.mul_tuple(point));

    let transform = shear(0.0, 1.0, 0.0, 0.0, 0.0, 0.0);
    assert_eq!(pt(6.0, 3.0, 4.0), transform.mul_tuple(point));

    let transform = shear(0.0, 0.0, 1.0, 0.0, 0.0, 0.0);
    assert_eq!(pt(2.0, 5.0, 4.0), transform.mul_tuple(point));

    let transform = shear(0.0, 0.0, 0.0, 1.0, 0.0, 0.0);
    assert_eq!(pt(2.0, 7.0, 4.0), transform.mul_tuple(point));

    let transform = shear(0.0, 0.0, 0.0, 0.0, 1.0, 0.0);
    assert_eq!(pt(2.0, 3.0, 6.0), transform.mul_tuple(point));

    let transform = shear(0.0, 0.0, 0.0, 0.0, 0.0, 1.0);
    assert_eq!(pt(2.0, 3.0, 7.0), transform.mul_tuple(point));
}

#[test]
fn translation_fills_the_last_column() {
    let m = translate(5.0, -3.0, 2.0);
    assert_eq!([s(1.0), s(0.0), s(0.0), s(5.0)], *m.index(0));
    assert_eq!([s(0.0), s(1.0), s(0.0), s(-3.0)], *m.index(1));
    assert_eq!([s(0.0), s(0.0), s(1.0), s(2.0)], *m.index(2));
    assert_eq!([s(0.0), s(0.0), s(0.0), s(1.0)], *m.index(3));
}

#[test]
fn scaling_fills_the_diagonal() {
    let m = scale(2.0, 3.0, 4.0);
    assert_eq!([s(2.0), s(0.0), s(0.0), s(0.0)], *m.index(0));
    assert_eq!([s(0.0), s(3.0), s(0.0), s(0.0)], *m.index(1));
    assert_eq!([s(0.0), s(0.0), s(4.0), s(0.0)], *m.index(2));
    assert_eq!([s(0.0), s(0.0), s(0.0), s(1.0)], *m.index(3));
}

#[test]
fn rotation_layouts() {
    let (c, n) = (s(0.8), s(0.6));
    let o = s(0.0);
    let i = s(1.0);
    let m = rotation(Axis::X, c, n);
    assert_eq!([i, o, o, o], *m.index(0));
    assert_eq!([o, c, n.neg(), o], *m.index(1));
    assert_eq!([o, n, c, o], *m.index(2));
    assert_eq!([o, o, o, i], *m.index(3));
    let m = rotation(Axis::Y, c, n);
    assert_eq!([c, o, n, o], *m.index(0));
    assert_eq!([o, i, o, o], *m.index(1));
    assert_eq!([n.neg(), o, c, o], *m.index(2));
    assert_eq!([o, o, o, i], *m.index(3));
    let m = rotation(Axis::Z, c, n);
    assert_eq!([c, n.neg(), o, o], *m.index(0));
    assert_eq!([n, c, o, o], *m.index(1));
    assert_eq!([o, o, i, o], *m.index(2));
    assert_eq!([o, o, o, i], *m.index(3));
}

#[test]
fn rotation_about_x_leaves_x_alone() {
    let p = pt(3.0, 1.0, 0.0);
    assert_eq!(pt(3.0, 0.0, 1.0), rotate(Axis::X, PI / 2.0).mul_tuple(p));
}

#[test]
fn shearing_layout() {
    let m = shearing(s(2.0), s(3.0), s(4.0), s(5.0), s(6.0), s(7.0));
    assert_eq!([s(1.0), s(2.0), s(3.0), s(0.0)], *m.index(0));
    assert_eq!([s(4.0), s(1.0), s(5.0), s(0.0)], *m.index(1));
    assert_eq!([s(7.0), s(6.0), s(1.0), s(0.0)], *m.index(2));
    assert_eq!([s(0.0), s(0.0), s(0.0), s(1.0)], *m.index(3));
}

#[test]
fn chained_transforms_apply_right_to_left() {
    let p = pt(1.0, 0.0, 1.0);
    let a = rotate(Axis::X, PI / 2.0);
    let b = scale(5.0, 5.0, 5.0);
    let c = translate(10.0, 5.0, 7.0);

    let turned = a.mul_tuple(p);
    assert_eq!(pt(1.0, -1.0, 0.0), turned);
    let scaled = b.mul_tuple(turned);
    assert_eq!(pt(5.0, -5.0, 0.0), scaled);
    let moved = c.mul_tuple(scaled);
    assert_eq!(pt(15.0, 0.0, 7.0), moved);

    let t = c.mul(b).mul(a);
    assert_eq!(pt(15.0, 0.0, 7.0), t.mul_tuple(p));
}

#[test]
fn a_round_trip_through_a_transform_gives_the_tuple_back() {
    let transforms = [
        translate(5.0, -3.0, 2.0),
        scale(2.0, 3.0, 4.0),
        rotate(Axis::Y, PI / 3.0),
        shear(1.0, 0.0, 0.5, 0.0, 0.0, 0.25),
        translate(1.0, 2.0, 3.0).mul(rotate(Axis::Z, 0.7)).mul(scale(0.5, 2.0, 1.5)),
    ];
    let tuples = [pt(-3.0, 4.0, 5.0), vc(1.0, -2.0, 0.125), pt(0.0, 0.0, 0.0)];
    for t in transforms {
        let inverse = t.inverse().unwrap();
        for p in tuples {
            assert_eq!(p, inverse.mul_tuple(t.mul_tuple(p)));
        }
    }
}

#[test]
fn a_transform_and_its_inverse_keep_the_kind_of_a_tuple() {
    let transform = translation(s(5.0), s(-3.0), s(0.7))
        .mul(scaling(s(0.3), s(7.0), s(-1.1)))
        .mul(shearing(s(1.0), s(0.5), s(0.0), s(0.25), s(0.0), s(2.0)));
    let inverse = transform.inverse().unwrap();
    assert_eq!(Scalar::zero().raw, inverse.index(3)[0].raw);
    assert_eq!(Scalar::zero().raw, inverse.index(3)[1].raw);
    assert_eq!(Scalar::zero().raw, inverse.index(3)[2].raw);
    assert_eq!(Scalar::one().raw, inverse.index(3)[3].raw);
    let p = point(s(1.5), s(-2.0), s(3.0));
    let back = inverse.mul_tuple(transform.mul_tuple(p));
    assert_eq!(Scalar::one().raw, back.3.raw);
    assert!(back.is_point());
    assert_eq!(p, back);
    let v = vector(s(1.5), s(-2.0), s(3.0));
    let back = inverse.mul_tuple(transform.mul_tuple(v));
    assert_eq!(0, back.3.raw);
    assert!(back.is_vector());
    assert_eq!(v, back);
}
