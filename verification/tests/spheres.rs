use ray_tracer::intersections::{Intersection, Intersections};
use ray_tracer::materials::Material;
use ray_tracer::matrices::Matrix;
use ray_tracer::rays::Ray;
use ray_tracer::scalar::Scalar;
use ray_tracer::spheres::Sphere;
use ray_tracer::transformations::{rotation, scaling, translation, Axis};
use ray_tracer::tuples::{point, vector, Tuple};
use std::f64::consts::PI;

fn s(x: f64) -> Scalar {
    Scalar::from_raw((x * 1e9) as i64)
}

fn pt(x: f64, y: f64, z: f64) -> Tuple {
    point(s(x), s(y), s(z))
}

fn vc(x: f64, y: f64, z: f64) -> Tuple {
    vector(s(x), s(y), s(z))
}

#[test]
fn test_intersect() {
    let ray = Ray::new(pt(0.0, 0.0, -5.0), vc(0.0, 0.0, 1.0));
    let sphere = Sphere::new();
    assert_eq!(
        Intersections(vec![
            Intersection::new(s(4.0), sphere),
            Intersection::new(s(6.0), sphere),
        ]),
        sphere.intersect(&ray).unwrap()
    );

    let ray = Ray::new(pt(0.0, 1.0, -5.0), vc(0.0, 0.0, 1.0));
    let sphere = Sphere::new();
    assert_eq!(
        Intersections(vec![Intersection::new(s(5.0), sphere)]),
        sphere.intersect(&ray).unwrap()
    );

    let ray = Ray::new(pt(0.0, 2.0, -5.0), vc(0.0, 0.0, 1.0));
    let sphere = Sphere::new();
    assert_eq!(Intersections(vec![]), sphere.intersect(&ray).unwrap());

    let ray = Ray::new(pt(0.0, 0.0, 0.0), vc(0.0, 0.0, 1.0));
    let sphere = Sphere::new();
    assert_eq!(
        Intersections(vec![
            Intersection::new(s(-1.0), sphere),
            Intersection::new(s(1.0), sphere),
        ]),
        sphere.intersect(&ray).unwrap()
    );

    let ray = Ray::new(pt(0.0, 0.0, 5.0), vc(0.0, 0.0, 1.0));
    let sphere = Sphere::new();
    assert_eq!(
        Intersections(vec![
            Intersection::new(s(-6.0), sphere),
            Intersection::new(s(-4.0), sphere),
        ]),
        sphere.intersect(&ray).unwrap()
    );

    let ray = Ray::new(pt(0.0, 0.0, -5.0), vc(0.0, 0.0, 1.0));
    let mut sphere = Sphere::new();
    sphere.set_transform(scaling(s(2.0), s(2.0), s(2.0)));
    assert_eq!(
        Intersections(vec![
            Intersection::new(s(3.0), sphere),
            Intersection::new(s(7.0), sphere),
        ]),
        sphere.intersect(&ray).unwrap()
    );
}

#[test]
fn test_transform() {
    let mut sphere = Sphere::new();

    assert_eq!(Matrix::<4>::identity(), sphere.transform);

    sphere.set_transform(translation(s(2.0), s(3.0), s(4.0)));
    assert_eq!(translation(s(2.0), s(3.0), s(4.0)), sphere.transform);
}

#[test]
fn test_normal_at() {
    let mut sphere = Sphere::new();

    assert_eq!(vc(1.0, 0.0, 0.0), sphere.normal_at(&pt(1.0, 0.0, 0.0)).unwrap());
    assert_eq!(vc(0.0, 1.0, 0.0), sphere.normal_at(&pt(0.0, 1.0, 0.0)).unwrap());
    assert_eq!(vc(0.0, 0.0, 1.0), sphere.normal_at(&pt(0.0, 0.0, 1.0)).unwrap());
    assert_eq!(
        vc(3f64.sqrt() / 3.0, 3f64.sqrt() / 3.0, 3f64.sqrt() / 3.0),
        sphere
            .normal_at(&pt(3f64.sqrt() / 3.0, 3f64.sqrt() / 3.0, 3f64.sqrt() / 3.0))
            .unwrap()
    );

    sphere.set_transform(translation(s(0.0), s(1.0), s(0.0)));
    assert_eq!(
        vc(0.0, 0.70711, -0.70711),
        sphere.normal_at(&pt(0.0, 1.70711, -0.70711)).unwrap()
    );

    let angle = PI / 5.0;
    sphere.set_transform(
        scaling(s(1.0), s(0.5), s(1.0)).mul(rotation(Axis::Z, s(angle.cos()), s(angle.sin()))),
    );
    assert_eq!(
        vc(0.0, 0.97014, -0.24254),
        sphere
            .normal_at(&pt(0.0, 2f64.sqrt() / 2.0, -2f64.sqrt() / 2.0))
            .unwrap()
    );
}

#[test]
fn a_new_sphere_is_the_unit_sphere() {
    let sphere = Sphere::new();
    assert_eq!(pt(0.0, 0.0, 0.0), sphere.origin);
    assert_eq!(s(1.0), sphere.radius);
    assert_eq!(Material::new().color, sphere.material.color);
    assert_eq!(Material::new().shininess, sphere.material.shininess);
}

#[test]
fn a_singular_transform_gives_no_result() {
    let mut sphere = Sphere::new();
    sphere.set_transform(scaling(s(1.0), s(0.0), s(1.0)));
    let ray = Ray::new(pt(0.0, 0.0, -5.0), vc(0.0, 0.0, 1.0));
    assert!(sphere.intersect(&ray).is_none());
    assert!(sphere.normal_at(&pt(1.0, 0.0, 0.0)).is_none());
}

#[test]
fn a_translated_sphere_is_met_where_it_stands() {
    let ray = Ray::new(pt(0.0, 0.0, -5.0), vc(0.0, 0.0, 1.0));
    let mut sphere = Sphere::new();
    sphere.set_transform(translation(s(5.0), s(0.0), s(0.0)));
    assert_eq!(0, sphere.intersect(&ray).unwrap().count());
    sphere.set_transform(translation(s(0.0), s(0.0), s(2.0)));
    assert_eq!(
        Intersections(vec![
            Intersection::new(s(6.0), sphere),
            Intersection::new(s(8.0), sphere),
        ]),
        sphere.intersect(&ray).unwrap()
    );
}

#[test]
fn roots_come_out_ascending_whatever_the_direction() {
    let sphere = Sphere::new();
    let ray = Ray::new(pt(0.0, 0.0, 5.0), vc(0.0, 0.0, -1.0));
    let xs = sphere.intersect(&ray).unwrap();
    assert_eq!(2, xs.count());
    assert!(xs.0[0].t.lt(xs.0[1].t));
    assert_eq!(
        Intersections(vec![
            Intersection::new(s(4.0), sphere),
            Intersection::new(s(6.0), sphere),
        ]),
        xs
    );
}

#[test]
fn the_hit_of_a_ray_from_inside_is_ahead() {
    let sphere = Sphere::new();
    let ray = Ray::new(pt(0.0, 0.0, 0.0), vc(0.0, 0.0, 1.0));
    let xs = sphere.intersect(&ray).unwrap();
    assert_eq!(Intersection::new(s(1.0), sphere), *xs.hit().unwrap());
    let ray = Ray::new(pt(0.0, 0.0, 5.0), vc(0.0, 0.0, 1.0));
    assert_eq!(None, sphere.intersect(&ray).unwrap().hit());
}

#[test]
fn spheres_compare_by_origin_and_radius_only() {
    let plain = Sphere::new();
    let mut moved = Sphere::new();
    moved.set_transform(translation(s(2.0), s(3.0), s(4.0)));
    moved.material.ambient = s(1.0);
    assert_eq!(plain, moved);
    let mut bigger = Sphere::new();
    bigger.radius = s(2.0);
    assert_ne!(plain, bigger);
}

#[test]
fn the_normal_is_a_unit_vector() {
    let mut sphere = Sphere::new();
    sphere.set_transform(scaling(s(1.0), s(0.5), s(1.0)));
    let n = sphere
        .normal_at(&pt(0.0, 2f64.sqrt() / 4.0, -2f64.sqrt() / 2.0))
        .unwrap();
    assert!(n.is_vector());
    assert!(s(1.0).approx_eq(n.magnitude()));
}

#[test]
fn a_slow_ray_meets_the_sphere_late() {
    let sphere = Sphere::new();
    let ray = Ray::new(pt(-5.0, 0.0, 0.0), vc(0.00001, 0.0, 0.0));
    assert_eq!(
        Intersections(vec![
            Intersection::new(s(400000.0), sphere),
            Intersection::new(s(600000.0), sphere),
        ]),
        sphere.intersect(&ray).unwrap()
    );
    let ray = Ray::new(pt(0.0, 0.0, -5.0), vector(Scalar::zero(), Scalar::zero(), Scalar::from_raw(1)));
    let xs = sphere.intersect(&ray).unwrap();
    assert_eq!(s(4.0e9), xs.0[0].t);
    assert_eq!(s(6.0e9), xs.0[1].t);
}

#[test]
fn a_fast_ray_meets_the_sphere_early() {
    let sphere = Sphere::new();
    let ray = Ray::new(pt(0.0, 0.0, -5.0), vc(0.0, 0.0, 1000.0));
    assert_eq!(
        Intersections(vec![
            Intersection::new(s(0.004), sphere),
            Intersection::new(s(0.006), sphere),
        ]),
        sphere.intersect(&ray).unwrap()
    );
}

#[test]
fn the_intersections_lie_on_the_sphere() {
    let mut sphere = Sphere::new();
    sphere.set_transform(translation(s(1.0), s(-2.0), s(0.5)).mul(scaling(s(2.0), s(0.5), s(3.0))));
    let inverse = sphere.transform.inverse().unwrap();
    let rays = [
        Ray::new(pt(-5.0, -2.0, 0.5), vc(0.00001, 0.0, 0.0)),
        Ray::new(pt(-5.0, -1.9, 0.0), vc(3.0, 0.0, 0.25)),
        Ray::new(pt(1.0, -2.0, 0.5), vc(0.0, 0.001, 0.002)),
    ];
    for ray in rays {
        let xs = sphere.intersect(&ray).unwrap();
        assert_eq!(2, xs.count());
        for x in xs.0.iter() {
            let local = inverse.mul_tuple(ray.position(x.t));
            let from_centre = vector(local.0, local.1, local.2);
            assert!(s(1.0).approx_eq(from_centre.magnitude()));
        }
    }
}

#[test]
fn a_ray_without_direction_gives_no_result() {
    let sphere = Sphere::new();
    let ray = Ray::new(pt(0.0, 0.0, -5.0), vc(0.0, 0.0, 0.0));
    assert!(sphere.intersect(&ray).is_none());
}

#[test]
fn the_normal_of_a_large_sphere_is_a_unit_vector() {
    let mut sphere = Sphere::new();
    sphere.set_transform(scaling(s(1000.0), s(1000.0), s(1000.0)));
    let n = sphere.normal_at(&pt(577.350269, 577.350269, 577.350269)).unwrap();
    assert!(s(1.0).approx_eq(n.magnitude()));
    assert_eq!(vc(0.57735, 0.57735, 0.57735), n);
    sphere.set_transform(scaling(s(0.00002), s(0.00002), s(0.00002)));
    let n = sphere.normal_at(&pt(0.00002, 0.0, 0.0)).unwrap();
    assert_eq!(vc(1.0, 0.0, 0.0), n);
}

#[test]
fn a_far_ray_meets_the_sphere_where_it_should() {
    let sphere = Sphere::new();
    let ray = Ray::new(pt(-3000.0, 0.6, 0.0), vc(0.7, 0.0, 0.0));
    let xs = sphere.intersect(&ray).unwrap();
    assert_eq!(2, xs.count());
    for x in xs.0.iter() {
        let p = ray.position(x.t);
        let from_centre = vector(p.0, p.1, p.2);
        assert!(s(1.0).approx_eq(from_centre.magnitude()));
    }
    assert_eq!(s(2999.2 / 0.7), xs.0[0].t);
    let grazing = Ray::new(pt(-3000.0, 0.99999, 0.0), vc(0.7, 0.0, 0.0));
    let xs = sphere.intersect(&grazing).unwrap();
    for x in xs.0.iter() {
        let p = grazing.position(x.t);
        assert!(s(1.0).approx_eq(vector(p.0, p.1, p.2).magnitude()));
    }
}
