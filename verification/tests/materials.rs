use ray_tracer::lights::PointLight;
use ray_tracer::materials::Material;
use ray_tracer::scalar::Scalar;
use ray_tracer::tuples::{color, point, vector, Tuple};

fn s(x: f64) -> Scalar {
    Scalar::from_raw((x * 1e9) as i64)
}

fn pt(x: f64, y: f64, z: f64) -> Tuple {
    point(s(x), s(y), s(z))
}

fn vc(x: f64, y: f64, z: f64) -> Tuple {
    vector(s(x), s(y), s(z))
}

fn col(r: f64, g: f64, b: f64) -> Tuple {
    color(s(r), s(g), s(b))
}

#[test]
fn materials_test_constructor() {
    let material = Material::new();

    assert_eq!(col(1.0, 1.0, 1.0), material.color);
    assert_eq!(s(0.1), material.ambient);
    assert_eq!(s(0.9), material.diffuse);
    assert_eq!(s(0.9), material.specular);
    assert_eq!(s(200.0), material.shininess);
}

#[test]
fn test_lighting() {
    let material = Material::new();
    let position = pt(0.0, 0.0, 0.0);

    let eyev = vc(0.0, 0.0, -1.0);
    let normalv = vc(0.0, 0.0, -1.0);
    let light = PointLight::new(pt(0.0, 0.0, -10.0), col(1.0, 1.0, 1.0));
    assert_eq!(
        col(1.9, 1.9, 1.9),
        material.lighting(&light, &position, &eyev, &normalv)
    );

    let eyev = vc(0.0, 2f64.sqrt() / 2.0, -2f64.sqrt() / 2.0);
    let normalv = vc(0.0, 0.0, -1.0);
    let light = PointLight::new(pt(0.0, 0.0, -10.0), col(1.0, 1.0, 1.0));
    assert_eq!(
        col(1.0, 1.0, 1.0),
        material.lighting(&light, &position, &eyev, &normalv)
    );

    let eyev = vc(0.0, 0.0, -1.0);
    let normalv = vc(0.0, 0.0, -1.0);
    let light = PointLight::new(pt(0.0, 10.0, -10.0), col(1.0, 1.0, 1.0));
    assert_eq!(
        col(0.7364, 0.7364, 0.7364),
        material.lighting(&light, &position, &eyev, &normalv)
    );

    let eyev = vc(0.0, -2f64.sqrt() / 2.0, -2f64.sqrt() / 2.0);
    let normalv = vc(0.0, 0.0, -1.0);
    let light = PointLight::new(pt(0.0, 10.0, -10.0), col(1.0, 1.0, 1.0));
    assert_eq!(
        col(1.6364, 1.6364, 1.6364),
        material.lighting(&light, &position, &eyev, &normalv)
    );

    let eyev = vc(0.0, 0.0, -1.0);
    let normalv = vc(0.0, 0.0, -1.0);
    let light = PointLight::new(pt(0.0, 0.0, 10.0), col(1.0, 1.0, 1.0));
    assert_eq!(
        col(0.1, 0.1, 0.1),
        material.lighting(&light, &position, &eyev, &normalv)
    );
}

#[test]
fn a_point_light_keeps_position_and_intensity() {
    let light = PointLight::new(pt(0.0, 0.0, -10.0), col(1.0, 0.5, 0.25));
    assert_eq!(pt(0.0, 0.0, -10.0), light.position);
    assert_eq!(col(1.0, 0.5, 0.25), light.intensity);
}

#[test]
fn light_head_on_is_exactly_the_sum_of_the_three_terms() {
    let material = Material::new();
    let light = PointLight::new(pt(0.0, 0.0, -10.0), col(1.0, 1.0, 1.0));
    let shade = material.lighting(
        &light,
        &pt(0.0, 0.0, 0.0),
        &vc(0.0, 0.0, -1.0),
        &vc(0.0, 0.0, -1.0),
    );
    assert_eq!(s(1.9), shade.0);
    assert_eq!(s(1.9), shade.1);
    assert_eq!(s(1.9), shade.2);
    assert_eq!(s(0.0), shade.3);
}

#[test]
fn light_behind_the_surface_leaves_the_ambient_term() {
    let material = Material::new();
    let light = PointLight::new(pt(0.0, 0.0, 10.0), col(1.0, 1.0, 1.0));
    let shade = material.lighting(
        &light,
        &pt(0.0, 0.0, 0.0),
        &vc(0.0, 0.0, -1.0),
        &vc(0.0, 0.0, -1.0),
    );
    assert_eq!(s(0.1), shade.0);
    assert_eq!(s(0.1), shade.1);
    assert_eq!(s(0.1), shade.2);
}

#[test]
fn the_result_is_not_clamped() {
    let material = Material::new();
    let light = PointLight::new(pt(0.0, 0.0, -10.0), col(3.0, 2.0, 1.0));
    let shade = material.lighting(
        &light,
        &pt(0.0, 0.0, 0.0),
        &vc(0.0, 0.0, -1.0),
        &vc(0.0, 0.0, -1.0),
    );
    assert_eq!(col(5.7, 3.8, 1.9), shade);
}

#[test]
fn the_surface_colour_tints_the_light() {
    let mut material = Material::new();
    material.color = col(0.1, 1.0, 0.1);
    material.specular = s(0.0);
    let light = PointLight::new(pt(0.0, 0.0, -10.0), col(1.0, 1.0, 1.0));
    let shade = material.lighting(
        &light,
        &pt(0.0, 0.0, 0.0),
        &vc(0.0, 0.0, -1.0),
        &vc(0.0, 0.0, -1.0),
    );
    assert_eq!(col(0.1, 1.0, 0.1), shade);
}

#[test]
fn materials_compare_by_all_their_parts() {
    let plain = Material::new();
    let mut other = Material::new();
    assert!(plain == other);
    other.shininess = s(10.0);
    assert!(plain != other);
    let mut tinted = Material::new();
    tinted.color = col(1.0, 0.5, 1.0);
    assert!(plain != tinted);
    let mut dull = Material::new();
    dull.specular = s(0.0);
    assert!(plain != dull);
}

#[test]
fn a_fractional_shininess_widens_the_highlight() {
    let half = 2.0_f64.sqrt() / 2.0;
    let light = PointLight::new(pt(0.0, 0.0, -10.0), col(1.0, 1.0, 1.0));
    let mut material = Material::new();
    material.shininess = s(2.0);
    let shade = material.lighting(
        &light,
        &pt(0.0, 0.0, 0.0),
        &vc(0.0, half, -half),
        &vc(0.0, 0.0, -1.0),
    );
    assert_eq!(col(1.45, 1.45, 1.45), shade);
    material.shininess = s(0.5);
    let shade = material.lighting(
        &light,
        &pt(0.0, 0.0, 0.0),
        &vc(0.0, half, -half),
        &vc(0.0, 0.0, -1.0),
    );
    let expected = 1.0 + 0.9 * half.sqrt();
    assert_eq!(col(expected, expected, expected), shade);
}
