use ray_tracer::rays::Ray;
use ray_tracer::scalar::Scalar;
use ray_tracer::transformations::{scaling, translation};
use ray_tracer::tuples::{point, vector, Tuple};

fn s(x: f64) -> Scalar {
    Scalar::from_raw((x * 1e9) as i64)
}

fn pt(x: f64, y: f64, z: f64) -> Tuple {
    point(s(x), s(y), s(z))
}

fn vc(x: f64, y: f64, z: f64) -> Tuple {
    vector(s(x), s(y), s(z))
}

#[test]
fn rays_test_constructor() {
    let origin = pt(1.0, 2.0, 3.0);
    let direction = vc(4.0, 5.0, 6.0);

    let ray = Ray::new(origin, direction);
    assert_eq!(origin, ray.origin);
    assert_eq!(direction, ray.direction);
}

#[test]
fn test_position() {
    let ray = Ray::new(pt(2.0, 3.0, 4.0), vc(1.0, 0.0, 0.0));
    assert_eq!(pt(2.0, 3.0, 4.0), ray.position(s(0.0)));
    assert_eq!(pt(3.0, 3.0, 4.0), ray.position(s(1.0)));
    assert_eq!(pt(1.0, 3.0, 4.0), ray.position(s(-1.0)));
    assert_eq!(pt(4.5, 3.0, 4.0), ray.position(s(2.5)));
}

#[test]
fn rays_test_translation() {
    let ray = Ray::new(pt(1.0, 2.0, 3.0), vc(0.0, 1.0, 0.0));
    let moved = ray.translate(s(3.0), s(4.0), s(5.0));
    assert_eq!(pt(4.0, 6.0, 8.0), moved.origin);
    assert_eq!(vc(0.0, 1.0, 0.0), moved.direction);
}

#[test]
fn test_scale() {
    let ray = Ray::new(pt(1.0, 2.0, 3.0), vc(0.0, 1.0, 0.0));
    let moved = ray.scale(s(2.0), s(3.0), s(4.0));
    assert_eq!(pt(2.0, 6.0, 12.0), moved.origin);
    assert_eq!(vc(0.0, 3.0, 0.0), moved.direction);
}

#[test]
fn transform_moves_the_origin_and_not_the_direction() {
    let ray = Ray::new(pt(1.0, 2.0, 3.0), vc(0.0, 1.0, 0.0));
    let moved = ray.transform(&translation(s(3.0), s(4.0), s(5.0)));
    assert_eq!(pt(4.0, 6.0, 8.0), moved.origin);
    assert_eq!(vc(0.0, 1.0, 0.0), moved.direction);
    assert_eq!(pt(1.0, 2.0, 3.0), ray.origin);
}

#[test]
fn transform_scales_origin_and_direction() {
    let ray = Ray::new(pt(1.0, 2.0, 3.0), vc(0.0, 1.0, 0.0));
    let moved = ray.transform(&scaling(s(2.0), s(3.0), s(4.0)));
    assert_eq!(pt(2.0, 6.0, 12.0), moved.origin);
    assert_eq!(vc(0.0, 3.0, 0.0), moved.direction);
}
