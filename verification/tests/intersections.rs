use ray_tracer::intersections::{Intersection, Intersections};
use ray_tracer::scalar::Scalar;
use ray_tracer::spheres::Sphere;
use ray_tracer::transformations::translation;

fn s(x: f64) -> Scalar {
    Scalar::from_raw((x * 1e9) as i64)
}

fn from(ts: &[f64], object: Sphere) -> Intersections {
    let ts: Vec<Scalar> = ts.iter().map(|t| s(*t)).collect();
    Intersections::from(&ts, object)
}

#[test]
fn test_intersection_constructor() {
    let sphere = Sphere::new();
    let intersection = Intersection::new(s(3.5), sphere);

    assert_eq!(s(3.5), intersection.t);
    assert_eq!(sphere, intersection.object);
}

#[test]
fn test_hit() {
    let sphere = Sphere::new();

    let xs = from(&[2.0, 1.0], sphere);
    assert_eq!(Intersection::new(s(1.0), sphere), *xs.hit().unwrap());

    let xs = from(&[1.0, -1.0], sphere);
    assert_eq!(Intersection::new(s(1.0), sphere), *xs.hit().unwrap());

    let xs = from(&[-1.0, -2.0], sphere);
    assert_eq!(None, xs.hit());

    let xs = from(&[5.0, 7.0, -3.0, 2.0], sphere);
    assert_eq!(Intersection::new(s(2.0), sphere), *xs.hit().unwrap());
}

#[test]
fn hit_of_nothing_is_none() {
    assert_eq!(0, Intersections::empty().count());
    assert_eq!(None, Intersections::empty().hit());
}

#[test]
fn hit_skips_the_negative_one() {
    let sphere = Sphere::new();
    let xs = from(&[-1.0, 1.0], sphere);
    assert_eq!(2, xs.count());
    assert_eq!(s(1.0), xs.hit().unwrap().t);
}

#[test]
fn hit_takes_zero() {
    let sphere = Sphere::new();
    let xs = from(&[3.0, 0.0, -0.000000001], sphere);
    assert_eq!(s(0.0), xs.hit().unwrap().t);
}

#[test]
fn hit_takes_the_first_of_equals() {
    let first = Sphere::new();
    let mut second = Sphere::new();
    second.set_transform(translation(s(1.0), s(0.0), s(0.0)));
    let xs = Intersections(vec![
        Intersection::new(s(4.0), first),
        Intersection::new(s(2.0), second),
        Intersection::new(s(2.0), first),
    ]);
    let hit = xs.hit().unwrap();
    assert_eq!(s(2.0), hit.t);
    assert_eq!(s(1.0), hit.object.transform.index(0)[3]);
}

#[test]
fn from_keeps_the_order() {
    let sphere = Sphere::new();
    let xs = from(&[5.0, 7.0, -3.0], sphere);
    assert_eq!(3, xs.count());
    assert_eq!(s(5.0), xs.0[0].t);
    assert_eq!(s(7.0), xs.0[1].t);
    assert_eq!(s(-3.0), xs.0[2].t);
}

#[test]
fn intersections_compare_place_by_place() {
    let sphere = Sphere::new();
    assert_eq!(from(&[1.0, 2.0], sphere), from(&[1.000001, 2.0], sphere));
    assert_ne!(from(&[1.0, 2.0], sphere), from(&[2.0, 1.0], sphere));
    assert_ne!(from(&[1.0, 2.0], sphere), from(&[1.0], sphere));
    assert_ne!(Intersection::new(s(1.0), sphere), Intersection::new(s(1.1), sphere));
}
