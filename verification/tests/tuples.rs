use ray_tracer::scalar::Scalar;
use ray_tracer::tuples::{color, point, vector, Tuple};

fn s(x: f64) -> Scalar {
    Scalar::from_raw((x * 1e9) as i64)
}

fn pt(x: f64, y: f64, z: f64) -> Tuple {
    point(s(x), s(y), s(z))
}

fn vc(x: f64, y: f64, z: f64) -> Tuple {
    vector(s(x), s(y), s(z))
}

fn col(r: f64, g: f64, b: f64) -> Tuple {
    color(s(r), s(g), s(b))
}

#[test]
fn test_point() {
    let point = pt(4.3, -4.2, 3.1);
    assert_eq!(s(4.3), point.0);
    assert_eq!(s(-4.2), point.1);
    assert_eq!(s(3.1), point.2);
    assert_eq!(s(1.0), point.3);
    assert!(point.is_point());
    assert!(!point.is_vector());
}

#[test]
fn test_vector() {
    let point = vc(4.3, -4.2, 3.1);
    assert_eq!(s(4.3), point.0);
    assert_eq!(s(-4.2), point.1);
    assert_eq!(s(3.1), point.2);
    assert_eq!(s(0.0), point.3);
    assert!(!point.is_point());
    assert!(point.is_vector())
}

#[test]
fn test_add() {
    let a1 = vc(3.0, -2.0, 5.0);
    let a2 = vc(-2.0, 3.0, 1.0);

    assert_eq!(vc(1.0, 1.0, 6.0), a1.add(a2));
}

#[test]
fn test_sub() {
    let from = pt(3.0, 2.0, 1.0);
    let to = pt(5.0, 6.0, 7.0);

    assert_eq!(vc(-2.0, -4.0, -6.0), from.sub(to));

    let p = pt(3.0, 2.0, 1.0);
    let v = vc(5.0, 6.0, 7.0);
    assert_eq!(pt(-2.0, -4.0, -6.0), p.sub(v));

    let v1 = vc(3.0, 2.0, 1.0);
    let v2 = vc(5.0, 6.0, 7.0);
    assert_eq!(vc(-2.0, -4.0, -6.0), v1.sub(v2));
}

#[test]
fn test_neg() {
    assert_eq!(vc(-1.0, 2.0, -3.0), vc(1.0, -2.0, 3.0).neg())
}

#[test]
fn tuples_test_mul() {
    assert_eq!(vc(3.5, -7.0, 10.5), vc(1.0, -2.0, 3.0).mul(s(3.5)));
    assert_eq!(vc(0.5, -1.0, 1.5), vc(1.0, -2.0, 3.0).mul(s(0.5)));
}

#[test]
fn test_div() {
    assert_eq!(vc(0.5, -1.0, 1.5), vc(1.0, -2.0, 3.0).div(s(2.)));
}

#[test]
fn test_magnitude() {
    assert_eq!(s(1.0), vc(1.0, 0.0, 0.0).magnitude());
    assert_eq!(s(1.0), vc(0.0, 1.0, 0.0).magnitude());
    assert_eq!(s(1.0), vc(0.0, 0.0, 1.0).magnitude());
    assert_eq!(s(14f64.sqrt()), vc(1.0, 2.0, 3.0).magnitude());
    assert_eq!(s(14f64.sqrt()), vc(-1.0, -2.0, -3.0).magnitude());
}

#[test]
fn test_normalize() {
    assert_eq!(vc(1.0, 0.0, 0.0), vc(4.0, 0.0, 0.0).normalize());
    assert_eq!(
        vc(0.26726, 0.53452, 0.80178),
        vc(1.0, 2.0, 3.0).normalize()
    );
    assert!(s(1.0).approx_eq(vc(1.0, 2.0, 3.0).normalize().magnitude()));
}

#[test]
fn test_dot_product() {
    assert_eq!(s(20.0), vc(1.0, 2.0, 3.0).dot_product(vc(2.0, 3.0, 4.0)));
}

#[test]
fn test_cross_product() {
    assert_eq!(
        vc(-1.0, 2.0, -1.0),
        vc(1.0, 2.0, 3.0).cross_product(vc(2.0, 3.0, 4.0))
    );
    assert_eq!(
        vc(1.0, -2.0, 1.0),
        vc(2.0, 3.0, 4.0).cross_product(vc(1.0, 2.0, 3.0))
    );
}

#[test]
fn test_color_constructor() {
    let c = col(-0.5, 0.4, 1.7);
    assert_eq!(s(-0.5), c.0);
    assert_eq!(s(0.4), c.1);
    assert_eq!(s(1.7), c.2);
    assert_eq!(s(0.0), c.3);
}

#[test]
fn test_hadamard_product() {
    let c1 = col(1.0, 0.2, 0.4);
    let c2 = col(0.9, 1.0, 0.1);
    assert_eq!(col(0.9, 0.2, 0.04), c1.hadamard_product(c2));
}

#[test]
fn test_reflect() {
    let vector = vc(1.0, -1.0, 0.0);
    let normal = vc(0.0, 1.0, 0.0);
    assert_eq!(vc(1.0, 1.0, 0.0), vector.reflect(normal));

    let vector = vc(0.0, -1.0, 0.0);
    let normal = vc(2f64.sqrt() / 2.0, 2f64.sqrt() / 2.0, 0.0);
    assert_eq!(vc(1.0, 0.0, 0.0), vector.reflect(normal));
}

#[test]
fn tuple_from_array_keeps_the_order() {
    let t = Tuple::from([s(1.0), s(2.0), s(3.0), s(4.0)]);
    assert_eq!(s(1.0), t.0);
    assert_eq!(s(2.0), t.1);
    assert_eq!(s(3.0), t.2);
    assert_eq!(s(4.0), t.3);
    assert_eq!(Tuple::new(s(1.0), s(2.0), s(3.0), s(4.0)), t);
}

#[test]
fn as_color_gives_the_three_channels() {
    assert_eq!((s(0.25), s(0.5), s(0.75)), col(0.25, 0.5, 0.75).as_color());
}

#[test]
fn equality_is_within_the_tolerance() {
    let a = vc(1.0, 2.0, 3.0);
    assert_eq!(a, vc(1.000009, 2.0, 3.0));
    assert_ne!(a, vc(1.00001, 2.0, 3.0));
    assert_ne!(a, vc(1.0, 2.0, 2.9999));
    assert_ne!(a, pt(1.0, 2.0, 3.0));
}

#[test]
fn scaling_a_tuple_keeps_w() {
    let p = pt(1.0, -2.0, 3.0);
    assert_eq!(s(1.0), p.mul(s(3.0)).3);
    assert_eq!(s(1.0), p.div(s(3.0)).3);
    assert_eq!(s(1.0), p.neg().3);
    assert_eq!(pt(-1.0, 2.0, -3.0), p.neg());
}

#[test]
fn normalized_vectors_have_length_one() {
    let vectors = [
        vc(1.0, 2.0, 3.0),
        vc(-4.0, 0.5, 0.25),
        vc(0.001, 0.002, -0.003),
        vc(1000.0, -2000.0, 3000.0),
        vc(0.0, 0.0, 7.5),
    ];
    for v in vectors {
        assert!(s(1.0).approx_eq(v.normalize().magnitude()));
    }
}

#[test]
fn reflection_reverses_the_normal_component() {
    let normals = [vc(0.0, 1.0, 0.0), vc(0.6, 0.8, 0.0), vc(1.0, 2.0, 2.0).normalize()];
    let vectors = [vc(1.0, -1.0, 0.0), vc(3.0, 4.0, -5.0), vc(-0.25, 0.5, 100.0)];
    for n in normals {
        for v in vectors {
            let left = v.reflect(n).dot_product(n);
            let right = v.dot_product(n).neg();
            assert!(left.approx_eq(right));
        }
    }
}

#[test]
fn reflecting_twice_about_an_axis_gives_the_vector_back() {
    let n = vc(0.0, 1.0, 0.0);
    let v = vc(3.0, -4.0, 5.0);
    assert_eq!(v, v.reflect(n).reflect(n));
}

#[test]
fn tuple_transform_methods_apply_the_matrices() {
    let p = pt(2.0, 3.0, 4.0);
    assert_eq!(pt(7.0, 0.0, 6.0), p.translate(s(5.0), s(-3.0), s(2.0)));
    assert_eq!(pt(4.0, 9.0, 16.0), p.scale(s(2.0), s(3.0), s(4.0)));
    assert_eq!(pt(5.0, 3.0, 4.0), p.shear(s(1.0), s(0.0), s(0.0), s(0.0), s(0.0), s(0.0)));
    assert_eq!(pt(2.0, 3.0, 7.0), p.shear(s(0.0), s(0.0), s(0.0), s(0.0), s(1.0), s(0.0)));
    assert_eq!(pt(2.0, 3.0, 6.0), p.shear(s(0.0), s(0.0), s(0.0), s(0.0), s(0.0), s(1.0)));
    let q = pt(0.0, 1.0, 0.0);
    let (cos, sin) = (s(0.0), s(1.0));
    assert_eq!(pt(0.0, 0.0, 1.0), q.rotate_x(cos, sin));
    assert_eq!(pt(1.0, 0.0, 0.0), pt(0.0, 0.0, 1.0).rotate_y(cos, sin));
    assert_eq!(pt(-1.0, 0.0, 0.0), q.rotate_z(cos, sin));
}

#[test]
fn a_short_vector_normalizes_to_a_unit() {
    assert_eq!(vc(1.0, 0.0, 0.0), vc(0.00001, 0.0, 0.0).normalize());
    assert_eq!(vc(1.0, 0.0, 0.0), vc(0.00004, 0.0, 0.0).normalize());
    assert_eq!(s(0.00004), vc(0.00004, 0.0, 0.0).magnitude());
    let tiny = vector(Scalar::from_raw(3), Scalar::from_raw(-4), Scalar::from_raw(0));
    assert_eq!(Scalar::from_raw(5), tiny.magnitude());
    assert_eq!(vc(0.6, -0.8, 0.0), tiny.normalize());
    let least = vector(Scalar::from_raw(1), Scalar::from_raw(1), Scalar::from_raw(1));
    assert!(s(1.0).approx_eq(least.normalize().magnitude()));
}

#[test]
fn a_long_vector_normalizes_to_a_unit() {
    let far = vector(
        Scalar::from_raw(i64::MAX),
        Scalar::from_raw(i64::MIN),
        Scalar::from_raw(i64::MAX),
    );
    assert_eq!(Scalar::from_raw(i64::MAX), far.magnitude());
    assert!(s(1.0).approx_eq(far.normalize().magnitude()));
    assert_eq!(vc(6.0e9, 0.0, 0.0).normalize(), vc(1.0, 0.0, 0.0));
}

#[test]
fn the_zero_vector_is_left_as_it_is() {
    assert_eq!(Scalar::zero(), vc(0.0, 0.0, 0.0).magnitude());
    assert_eq!(vc(0.0, 0.0, 0.0), vc(0.0, 0.0, 0.0).normalize());
}

#[test]
fn reflection_about_a_normal_that_is_not_a_unit_is_no_mirror() {
    let v = vc(1.0, 1.0, 0.0);
    let n = vc(0.0, 2.0, 0.0);
    assert_eq!(vc(1.0, -7.0, 0.0), v.reflect(n));
    assert_eq!(s(-14.0), v.reflect(n).dot_product(n));
    assert_eq!(s(-2.0), v.dot_product(n).neg());
}

#[test]
fn a_normalized_vector_keeps_its_direction() {
    let v = vc(3.0, -4.0, 12.0);
    let length = v.magnitude();
    assert_eq!(s(13.0), length);
    assert_eq!(v, v.normalize().mul(length));
    let short = vc(0.00003, 0.00004, 0.0);
    assert_eq!(short, short.normalize().mul(short.magnitude()));
    assert_eq!(vc(0.6, 0.8, 0.0), short.normalize());
    let long = vc(4000.0, -3000.0, 1200.0);
    assert_eq!(long, long.normalize().mul(long.magnitude()));
}

#[test]
fn a_long_normalized_vector_keeps_its_direction_to_a_billionth_of_its_length() {
    let v = vc(1000000.0, 2000000.0, 3000000.0);
    let length = v.magnitude();
    assert_eq!(Scalar::from_raw(3_741_657_386_773_941), length);
    let back = v.normalize().mul(length);
    let slack = Scalar::from_raw(3_741_657 + 2);
    assert!(back.0.sub(v.0).abs().le(slack));
    assert!(back.1.sub(v.1).abs().le(slack));
    assert!(back.2.sub(v.2).abs().le(slack));
    assert!(back.is_vector());
}
