//! Laws of the sphere: its normals are unit vectors, and the parameters of
//! its intersections put the ray on its surface.
use crate::laws::inverses::lemma_quotient;
use crate::laws::rounding::{lemma_product_within, within};
use crate::laws::vectors::law_normalize;
use crate::rays::Ray;
use crate::scalar::{is_root, lemma_root_exists, magnitude_of, root_of, Scalar};
use crate::spheres::{exact_discriminant, exact_dot, exact_root, Sphere};
use crate::tuples::Tuple;
use vstd::prelude::*;

verus! {

/// The surface normal is a vector of length one, within the tolerance: this
/// holds wherever the direction of the normal is not zero, as it is not for
/// any point but the image of the sphere's centre.
pub proof fn law_normal_unit(s: Sphere, p: Tuple)
    requires
        s.spec_world_normal(p).0@ != 0 || s.spec_world_normal(p).1@ != 0 || s.spec_world_normal(
            p,
        ).2@ != 0,
    ensures
        s.spec_normal_at(p).spec_magnitude().spec_approx_eq(Scalar::spec_one()),
        s.spec_normal_at(p).spec_is_vector(),
{
    law_normalize(s.spec_world_normal(p));
}

/// How far off the unit sphere about `center` the ray `local` is at the
/// parameter `t`, unrounded: the square of the distance less one, times
/// `SCALE` to the fourth.
pub open spec fn exact_offset(local: Ray, center: Tuple, t: Scalar) -> int {
    let s = local.origin.spec_sub(center);
    let d = local.direction;
    exact_dot(d, d) * (t@ * t@) + 2_000_000_000 * (exact_dot(d, s) * t@)
        + 1_000_000_000_000_000_000 * (exact_dot(s, s) - 1_000_000_000_000_000_000)
}

/// The ray is slow and near enough for a parameter rounded to a billionth
/// to put it on the sphere within the tolerance: with `speed` the square
/// of the direction and `root` the root of the discriminant, both
/// unrounded,
/// `(2 root SCALE^2 + 2 root SCALE speed + speed^2) * 100000 < speed SCALE^4`.
///
/// In units, with `v` the length of the direction and `u` the root over
/// `v`: `2 u / v` billionths of a billionth, `2 u v` billionths and the
/// square of `v` in billionths of a billionth stay under a
/// hundred-thousandth together.
pub open spec fn is_within_reach(speed: int, root: int) -> bool {
    (2_000_000_000_000_000_000 * root + 2_000_000_000 * (root * speed) + speed * speed) * 100_000
        < 1_000_000_000_000_000_000_000_000_000_000_000_000 * speed
}

/// The parameters of the intersections put the ray on the sphere: at each
/// root of the quadratic, the square of the distance of the ray from the
/// centre is within a hundred-thousandth of one.
///
/// This holds where the ray has a direction and meets the sphere, the
/// root has not saturated, and the ray is within reach (see
/// `is_within_reach`).
pub proof fn law_roots_on_sphere(local: Ray, center: Tuple, sign: int)
    requires
        sign == 1 || sign == -1,
        exact_dot(local.direction, local.direction) > 0,
        exact_discriminant(local, center) >= 0,
        within(exact_root(local, center, sign)@, 0x7fff_ffff_ffff_fffe),
        is_within_reach(
            exact_dot(local.direction, local.direction),
            root_of(exact_discriminant(local, center)),
        ),
    ensures
        magnitude_of(exact_offset(local, center, exact_root(local, center, sign))) * 100_000
            < 1_000_000_000_000_000_000_000_000_000_000_000_000,
{
    let s = local.origin.spec_sub(center);
    let d = local.direction;
    let speed = exact_dot(d, d);
    let drift = exact_dot(d, s);
    let gap = exact_dot(s, s) - 1_000_000_000_000_000_000;
    let disc = exact_discriminant(local, center);
    lemma_root_exists(disc as nat);
    let root = root_of(disc);
    let t = exact_root(local, center, sign)@;
    let top = (-drift + sign * root) * 1_000_000_000;
    lemma_quotient(top, speed);
    let rho = top - speed * t;
    lemma_on_sphere(speed, drift, gap, root, t, sign, rho, disc);
}

/// The arithmetic of a root: `t` is `(-drift + sign * root) * SCALE` over
/// `speed`, short by `rho`.
proof fn lemma_on_sphere(
    speed: int,
    drift: int,
    gap: int,
    root: int,
    t: int,
    sign: int,
    rho: int,
    disc: int,
)
    requires
        sign == 1 || sign == -1,
        speed > 0,
        disc == drift * drift - speed * gap,
        is_root(root, disc),
        rho == (-drift + sign * root) * 1_000_000_000 - speed * t,
        within(rho, speed - 1),
        is_within_reach(speed, root),
    ensures
        magnitude_of(
            speed * (t * t) + 2_000_000_000 * (drift * t) + 1_000_000_000_000_000_000 * gap,
        ) * 100_000 < 1_000_000_000_000_000_000_000_000_000_000_000_000,
{
    let offset = speed * (t * t) + 2_000_000_000 * (drift * t) + 1_000_000_000_000_000_000 * gap;
    let u = speed * t + 1_000_000_000 * drift;
    let sr = sign * root;
    assert(u == 1_000_000_000 * sr - rho) by (nonlinear_arith)
        requires
            u == speed * t + 1_000_000_000 * drift,
            rho == (-drift + sr) * 1_000_000_000 - speed * t,
    ;
    assert(speed * offset == u * u - 1_000_000_000_000_000_000 * disc) by (nonlinear_arith)
        requires
            offset == speed * (t * t) + 2_000_000_000 * (drift * t) + 1_000_000_000_000_000_000
                * gap,
            u == speed * t + 1_000_000_000 * drift,
            disc == drift * drift - speed * gap,
    ;
    let rr = root * root;
    assert(sr * sr == rr) by (nonlinear_arith)
        requires
            sr == sign * root,
            sign == 1 || sign == -1,
            rr == root * root,
    ;
    let cross = sr * rho;
    assert(u * u == 1_000_000_000_000_000_000 * rr - 2_000_000_000 * cross + rho * rho)
        by (nonlinear_arith)
        requires
            u == 1_000_000_000 * sr - rho,
            sr * sr == rr,
            cross == sr * rho,
    ;
    assert((root + 1) * (root + 1) == rr + 2 * root + 1) by (nonlinear_arith)
        requires
            rr == root * root,
    ;
    assert(within(sr, root)) by (nonlinear_arith)
        requires
            sr == sign * root,
            sign == 1 || sign == -1,
            root >= 0,
    ;
    lemma_product_within(sr, rho, root, speed - 1);
    lemma_product_within(rho, rho, speed - 1, speed - 1);
    assert(root * (speed - 1) <= root * speed && (speed - 1) * (speed - 1) <= speed * speed)
        by (nonlinear_arith)
        requires
            root >= 0,
            speed > 0,
    ;
    let bound = 2_000_000_000_000_000_000 * root + 2_000_000_000 * (root * speed) + speed * speed;
    assert(within(speed * offset, bound));
    assert(magnitude_of(offset) * 100_000 < 1_000_000_000_000_000_000_000_000_000_000_000_000)
        by (nonlinear_arith)
        requires
            speed > 0,
            within(speed * offset, bound),
            bound * 100_000 < 1_000_000_000_000_000_000_000_000_000_000_000_000 * speed,
    ;
}

} // verus!
