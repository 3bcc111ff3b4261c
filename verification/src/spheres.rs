//! The unit sphere, placed in the world by a transform.
use crate::intersections::{spec_from, Intersections};
use crate::materials::Material;
use crate::matrices::{
    grid_apply, grid_identity, grid_inverse, grid_transpose, is_invertible, Matrix,
};
use crate::rays::Ray;
use crate::scalar::{magnitude_of, quot, root_of, Scalar};
use crate::wide::Wide;
use crate::tuples::{point, spec_point, Tuple};
use vstd::prelude::*;
use vstd::std_specs::cmp::PartialEqSpecImpl;

verus! {

/// A sphere of radius one about the origin of its own space. `transform`
/// takes that space to the world.
#[derive(Clone, Copy, Debug)]
pub struct Sphere {
    pub origin: Tuple,
    pub radius: Scalar,
    pub transform: Matrix<4>,
    pub material: Material,
}

/// The largest magnitude among `x`, `y` and `z` of a tuple, in raw units.
pub open spec fn largest(t: Tuple) -> int {
    let x = magnitude_of(t.0@);
    let y = magnitude_of(t.1@);
    let z = magnitude_of(t.2@);
    if x >= y && x >= z {
        x
    } else if y >= z {
        y
    } else {
        z
    }
}

/// The product of `x`, `y` and `z` of two tuples, unrounded: the dot
/// product times `SCALE` squared.
pub open spec fn exact_dot(a: Tuple, b: Tuple) -> int {
    a.0@ * b.0@ + a.1@ * b.1@ + a.2@ * b.2@
}

/// The discriminant of the quadratic for the ray `local` and the unit sphere
/// about `center`, unrounded: with `d` the direction and `s` the origin less
/// the centre, `dot(d, s)^2 - dot(d, d) * (dot(s, s) - 1)`, a quarter of
/// `b^2 - 4ac`, times `SCALE` to the fourth.
pub open spec fn exact_discriminant(local: Ray, center: Tuple) -> int {
    let s = local.origin.spec_sub(center);
    let d = local.direction;
    exact_dot(d, s) * exact_dot(d, s) - exact_dot(d, d) * (exact_dot(s, s)
        - 1_000_000_000_000_000_000)
}

/// A root of the quadratic: `(-dot(d, s) + sign * root) / dot(d, d)`, the
/// three computed without rounding and the quotient rounded once.
pub open spec fn exact_root(local: Ray, center: Tuple, sign: int) -> Scalar {
    let s = local.origin.spec_sub(center);
    let d = local.direction;
    let root = root_of(exact_discriminant(local, center));
    Scalar::of(quot((-exact_dot(d, s) + sign * root) * 1_000_000_000, exact_dot(d, d)))
}

/// The parameters at which `local`, a ray in the sphere's own space with a
/// direction that is not zero, meets the unit sphere about `center`: none
/// where the discriminant of the quadratic is negative; one where the two
/// roots are within the tolerance of each other; else both, the smaller
/// first.
pub open spec fn spec_roots(local: Ray, center: Tuple) -> Seq<Scalar> {
    if exact_discriminant(local, center) < 0 {
        Seq::empty()
    } else {
        let t1 = exact_root(local, center, -1);
        let t2 = exact_root(local, center, 1);
        if t1.spec_approx_eq(t2) {
            seq![t1]
        } else if t1@ < t2@ {
            seq![t1, t2]
        } else {
            seq![t2, t1]
        }
    }
}

impl Sphere {
    /// The transform has an inverse.
    pub open spec fn spec_invertible(self) -> bool {
        is_invertible(self.transform@)
    }

    /// `ray` taken from the world into the sphere's own space.
    pub open spec fn spec_local_ray(self, ray: Ray) -> Ray {
        Ray {
            origin: grid_apply(grid_inverse(self.transform@), ray.origin),
            direction: grid_apply(grid_inverse(self.transform@), ray.direction),
        }
    }

    /// The direction of the surface normal at the world point `p`, before
    /// it is brought to length one: the point is taken into the sphere's
    /// space, the sphere's origin subtracted, the result taken back by the
    /// transpose of the inverse transform, and its `w` set to zero.
    pub open spec fn spec_world_normal(self, p: Tuple) -> Tuple {
        let inverse = grid_inverse(self.transform@);
        let object_normal = grid_apply(inverse, p).spec_sub(self.origin);
        let world_normal = grid_apply(grid_transpose(inverse), object_normal);
        Tuple(world_normal.0, world_normal.1, world_normal.2, Scalar::spec_zero())
    }

    /// The surface normal at the world point `p`: the direction of
    /// `spec_world_normal`, normalized.
    pub open spec fn spec_normal_at(self, p: Tuple) -> Tuple {
        self.spec_world_normal(p).spec_normalize()
    }

    /// The same primitive: origins and radii within the tolerance. Transform
    /// and material are not compared.
    pub open spec fn spec_approx_eq(self, other: Sphere) -> bool {
        self.origin.spec_approx_eq(other.origin) && self.radius.spec_approx_eq(other.radius)
    }

    /// The unit sphere at the origin, untransformed, of the default
    /// material.
    pub fn new() -> (s: Sphere)
        ensures
            s.origin == spec_point(Scalar::spec_zero(), Scalar::spec_zero(), Scalar::spec_zero()),
            s.radius == Scalar::spec_one(),
            s.transform@ == grid_identity(4),
            s.material == Material::spec_new(),
    {
        Sphere {
            origin: point(Scalar::zero(), Scalar::zero(), Scalar::zero()),
            radius: Scalar::one(),
            transform: Matrix::identity(),
            material: Material::new(),
        }
    }

    /// `ray` has a direction in the sphere's own space: some component of it
    /// is not zero there.
    pub open spec fn spec_has_direction(self, ray: Ray) -> bool {
        largest(self.spec_local_ray(ray).direction) != 0
    }

    /// Where `ray` meets the sphere. `None` where the sphere's transform has
    /// no inverse, or where the ray has no direction in the sphere's space;
    /// a ray that misses gives an empty result.
    pub fn intersect(&self, ray: &Ray) -> (found: Option<Intersections>)
        ensures
            match found {
                Some(xs) => self.spec_invertible() && self.spec_has_direction(*ray) && xs@
                    == spec_from(spec_roots(self.spec_local_ray(*ray), self.origin), *self),
                None => !self.spec_invertible() || !self.spec_has_direction(*ray),
            },
    {
        let inverse = match self.transform.inverse() {
            Some(m) => m,
            None => {
                return None;
            },
        };
        let local = ray.transform(&inverse);
        let reach = largest_of(&local.direction);
        if reach == 0 {
            return None;
        }
        let ts = roots(&local, self.origin);
        let xs = Intersections::from(ts.as_slice(), *self);
        Some(xs)
    }

    /// Replaces the transform that takes the sphere's space to the world.
    pub fn set_transform(&mut self, transform: Matrix<4>)
        ensures
            final(self).transform == transform,
            final(self).origin == old(self).origin,
            final(self).radius == old(self).radius,
            final(self).material == old(self).material,
    {
        self.transform = transform;
    }

    /// The unit surface normal at the world point `p`, or `None` where the
    /// sphere's transform has no inverse.
    pub fn normal_at(&self, p: &Tuple) -> (normal: Option<Tuple>)
        ensures
            match normal {
                Some(n) => self.spec_invertible() && n == self.spec_normal_at(*p),
                None => !self.spec_invertible(),
            },
    {
        let inverse = match self.transform.inverse() {
            Some(m) => m,
            None => {
                return None;
            },
        };
        let object_point = inverse.mul_tuple(*p);
        let object_normal = object_point.sub(self.origin);
        let mut world_normal = inverse.transpose().mul_tuple(object_normal);
        world_normal.3 = Scalar::zero();
        Some(world_normal.normalize())
    }
}

impl PartialEq for Sphere {
    fn eq(&self, other: &Self) -> (b: bool) {
        self.origin == other.origin && self.radius.approx_eq(other.radius)
    }
}

impl PartialEqSpecImpl for Sphere {
    open spec fn obeys_eq_spec() -> bool {
        true
    }

    open spec fn eq_spec(&self, other: &Self) -> bool {
        self.spec_approx_eq(*other)
    }
}

/// The largest magnitude among `x`, `y` and `z`, in raw units.
fn largest_of(t: &Tuple) -> (m: u64)
    ensures
        m == largest(*t),
{
    let x = size_of(t.0.raw);
    let y = size_of(t.1.raw);
    let z = size_of(t.2.raw);
    if x >= y && x >= z {
        x
    } else if y >= z {
        y
    } else {
        z
    }
}

/// The magnitude of a raw count.
fn size_of(x: i64) -> (m: u64)
    ensures
        m == magnitude_of(x as int),
{
    if x < 0 {
        let wide: i128 = -(x as i128);
        wide as u64
    } else {
        x as u64
    }
}

/// The product of `x`, `y` and `z` of two tuples, unrounded.
fn wide_dot(a: &Tuple, b: &Tuple) -> (w: Wide)
    ensures
        w@ == exact_dot(*a, *b),
        w.small(),
        magnitude_of(w@) <= 3 * 0x4000_0000_0000_0000_0000_0000_0000_0000,
{
    let x = Wide::from_product(a.0.raw, b.0.raw);
    let y = Wide::from_product(a.1.raw, b.1.raw);
    let z = Wide::from_product(a.2.raw, b.2.raw);
    x.add(&y).add(&z)
}

/// The discriminant of the quadratic, unrounded.
fn wide_discriminant(speed: &Wide, drift: &Wide, reach: &Wide) -> (w: Wide)
    requires
        speed.small(),
        drift.small(),
        reach.small(),
        0 <= speed@ <= 3 * 0x4000_0000_0000_0000_0000_0000_0000_0000,
        magnitude_of(drift@) <= 3 * 0x4000_0000_0000_0000_0000_0000_0000_0000,
        0 <= reach@ <= 3 * 0x4000_0000_0000_0000_0000_0000_0000_0000,
    ensures
        w@ == drift@ * drift@ - speed@ * (reach@ - 1_000_000_000_000_000_000),
        w.small(),
        w@
            <= 100_000_000_000_000_000_000_000_000_000_000_000_000_000_000_000_000_000_000_000_000_000_000_000_000_000,
{
    let gap = reach.sub(&Wide::from_i128(1_000_000_000_000_000_000));
    let squared = drift.product(drift);
    let spread = speed.product(&gap);
    proof {
        lemma_discriminant(speed@, drift@, reach@);
    }
    squared.sub(&spread)
}

/// A root of the quadratic: `(-drift + sign * root) * SCALE / speed`,
/// rounded toward zero.
fn parameter(speed: &Wide, drift: &Wide, root: u128, forward: bool) -> (t: Scalar)
    requires
        speed.small(),
        drift.small(),
        0 < speed@ <= 3 * 0x4000_0000_0000_0000_0000_0000_0000_0000,
        magnitude_of(drift@) <= 3 * 0x4000_0000_0000_0000_0000_0000_0000_0000,
    ensures
        t == Scalar::of(
            quot(
                (-drift@ + (if forward {
                    1int
                } else {
                    -1int
                }) * root) * 1_000_000_000,
                speed@,
            ),
        ),
{
    let wide_root = Wide::from_u128(root);
    let opposite = Wide::from_i128(0).sub(drift);
    let sum = if forward {
        opposite.add(&wide_root)
    } else {
        opposite.sub(&wide_root)
    };
    assert(1 * (root as int) == root && -1 * (root as int) == -root) by (nonlinear_arith);
    let scaled = sum.mul_small(1_000_000_000);
    Scalar::from_raw(scaled.div(speed))
}

/// The parameters at which `local` meets the unit sphere about `center`.
fn roots(local: &Ray, center: Tuple) -> (ts: Vec<Scalar>)
    requires
        largest(local.direction) != 0,
    ensures
        ts@ == spec_roots(*local, center),
{
    let s = local.origin.sub(center);
    let d = local.direction;
    let speed = wide_dot(&d, &d);
    let drift = wide_dot(&d, &s);
    let reach = wide_dot(&s, &s);
    proof {
        lemma_speed(d);
        lemma_speed_or_zero(s);
    }
    let discriminant = wide_discriminant(&speed, &drift, &reach);
    assert(discriminant@ == exact_discriminant(*local, center));
    let mut ts: Vec<Scalar> = Vec::new();
    if discriminant.is_negative() {
        assert(ts@ =~= Seq::<Scalar>::empty());
        return ts;
    }
    let root = discriminant.root();
    let t1 = parameter(&speed, &drift, root, false);
    let t2 = parameter(&speed, &drift, root, true);
    assert(t1 == exact_root(*local, center, -1));
    assert(t2 == exact_root(*local, center, 1));
    if t1.approx_eq(t2) {
        ts.push(t1);
        assert(ts@ =~= seq![t1]);
    } else if t1.lt(t2) {
        ts.push(t1);
        ts.push(t2);
        assert(ts@ =~= seq![t1, t2]);
    } else {
        ts.push(t2);
        ts.push(t1);
        assert(ts@ =~= seq![t2, t1]);
    }
    ts
}

/// A sum of squares is not negative.
proof fn lemma_speed_or_zero(d: Tuple)
    ensures
        exact_dot(d, d) >= 0,
{
    assert(d.0@ * d.0@ >= 0 && d.1@ * d.1@ >= 0 && d.2@ * d.2@ >= 0) by (nonlinear_arith);
}

/// A direction that is not zero has a square that is not zero.
proof fn lemma_speed(d: Tuple)
    requires
        largest(d) != 0,
    ensures
        exact_dot(d, d) > 0,
{
    assert(d.0@ * d.0@ >= 0 && d.1@ * d.1@ >= 0 && d.2@ * d.2@ >= 0 && (d.0@ != 0 ==> d.0@ * d.0@
        > 0) && (d.1@ != 0 ==> d.1@ * d.1@ > 0) && (d.2@ != 0 ==> d.2@ * d.2@ > 0))
        by (nonlinear_arith);
}

/// The discriminant has at most 77 digits.
proof fn lemma_discriminant(speed: int, drift: int, reach: int)
    requires
        0 <= speed <= 3 * 0x4000_0000_0000_0000_0000_0000_0000_0000,
        magnitude_of(drift) <= 3 * 0x4000_0000_0000_0000_0000_0000_0000_0000,
        0 <= reach <= 3 * 0x4000_0000_0000_0000_0000_0000_0000_0000,
    ensures
        drift * drift - speed * (reach - 1_000_000_000_000_000_000)
            <= 100_000_000_000_000_000_000_000_000_000_000_000_000_000_000_000_000_000_000_000_000_000_000_000_000_000,
{
    assert(drift * drift <= 260_000_000_000_000_000_000_000_000_000_000_000_000
        * 260_000_000_000_000_000_000_000_000_000_000_000_000) by (nonlinear_arith)
        requires
            -260_000_000_000_000_000_000_000_000_000_000_000_000 <= drift
                <= 260_000_000_000_000_000_000_000_000_000_000_000_000,
    ;
    assert(speed * (reach - 1_000_000_000_000_000_000) >= -(
    260_000_000_000_000_000_000_000_000_000_000_000_000 * 1_000_000_000_000_000_000))
        by (nonlinear_arith)
        requires
            0 <= speed <= 260_000_000_000_000_000_000_000_000_000_000_000_000,
            reach >= 0,
    ;
    assert(260_000_000_000_000_000_000_000_000_000_000_000_000
        * 260_000_000_000_000_000_000_000_000_000_000_000_000
        + 260_000_000_000_000_000_000_000_000_000_000_000_000 * 1_000_000_000_000_000_000
        <= 100_000_000_000_000_000_000_000_000_000_000_000_000_000_000_000_000_000_000_000_000_000_000_000_000_000)
        by (nonlinear_arith);
}

} // verus!
