//! Homogeneous four-component tuples: points (`w` is one), vectors and
//! colours (`w` is zero), and their algebra.
use crate::matrices::grid_apply;
use crate::scalar::{
    integer_root, magnitude_of, quot, quotient, root_of, saturate, square, Scalar, SCALE,
};
use crate::transformations::{
    rotation, scaling, shearing, spec_rotation, spec_scaling, spec_shearing, spec_translation,
    translation, Axis,
};
use vstd::prelude::*;
use vstd::std_specs::cmp::PartialEqSpecImpl;

verus! {

/// The components `(x, y, z, w)`. A colour keeps red, green and blue in the
/// first three.
#[derive(Clone, Copy, Debug)]
pub struct Tuple(pub Scalar, pub Scalar, pub Scalar, pub Scalar);

/// The point `(x, y, z)`.
pub open spec fn spec_point(x: Scalar, y: Scalar, z: Scalar) -> Tuple {
    Tuple(x, y, z, Scalar::spec_one())
}

/// The vector `(x, y, z)`.
pub open spec fn spec_vector(x: Scalar, y: Scalar, z: Scalar) -> Tuple {
    Tuple(x, y, z, Scalar::spec_zero())
}

/// The point `(x, y, z)`.
pub fn point(x: Scalar, y: Scalar, z: Scalar) -> (p: Tuple)
    ensures
        p == spec_point(x, y, z),
{
    Tuple(x, y, z, Scalar::one())
}

/// The vector `(x, y, z)`.
pub fn vector(x: Scalar, y: Scalar, z: Scalar) -> (v: Tuple)
    ensures
        v == spec_vector(x, y, z),
{
    Tuple(x, y, z, Scalar::zero())
}

/// The colour with the given red, green and blue. A colour is laid out as a
/// vector is.
pub fn color(red: Scalar, green: Scalar, blue: Scalar) -> (c: Tuple)
    ensures
        c == spec_vector(red, green, blue),
{
    Tuple(red, green, blue, Scalar::zero())
}

impl Tuple {
    /// `w` is zero.
    pub open spec fn spec_is_vector(self) -> bool {
        self.3@ == 0
    }

    /// `w` is one.
    pub open spec fn spec_is_point(self) -> bool {
        self.3 == Scalar::spec_one()
    }

    /// Component-wise sum, `w` included.
    pub open spec fn spec_add(self, rhs: Tuple) -> Tuple {
        Tuple(
            self.0.spec_add(rhs.0),
            self.1.spec_add(rhs.1),
            self.2.spec_add(rhs.2),
            self.3.spec_add(rhs.3),
        )
    }

    /// Component-wise difference, `w` included.
    pub open spec fn spec_sub(self, rhs: Tuple) -> Tuple {
        Tuple(
            self.0.spec_sub(rhs.0),
            self.1.spec_sub(rhs.1),
            self.2.spec_sub(rhs.2),
            self.3.spec_sub(rhs.3),
        )
    }

    /// The opposite direction: `x`, `y` and `z` negated, `w` kept.
    pub open spec fn spec_neg(self) -> Tuple {
        Tuple(self.0.spec_neg(), self.1.spec_neg(), self.2.spec_neg(), self.3)
    }

    /// `x`, `y` and `z` multiplied by `k`, `w` kept.
    pub open spec fn spec_mul(self, k: Scalar) -> Tuple {
        Tuple(self.0.spec_mul(k), self.1.spec_mul(k), self.2.spec_mul(k), self.3)
    }

    /// `x`, `y` and `z` divided by `k`, `w` kept.
    pub open spec fn spec_div(self, k: Scalar) -> Tuple {
        Tuple(self.0.spec_div(k), self.1.spec_div(k), self.2.spec_div(k), self.3)
    }

    /// The sum of the squares of all four raw counts, unrounded.
    pub open spec fn spec_square_norm(self) -> int {
        self.0@ * self.0@ + self.1@ * self.1@ + self.2@ * self.2@ + self.3@ * self.3@
    }

    /// The Euclidean norm over all four components: the root of the
    /// unrounded sum of squares, rounded down.
    pub open spec fn spec_magnitude(self) -> Scalar {
        Scalar::of(root_of(self.spec_square_norm()))
    }

    /// The factor by which a vector is enlarged before it is normalized, so
    /// that a short one keeps its digits: two to the 31 where every
    /// component is below that, else one.
    pub open spec fn spec_boost(self) -> int {
        if magnitude_of(self.0@) < 0x8000_0000 && magnitude_of(self.1@) < 0x8000_0000
            && magnitude_of(self.2@) < 0x8000_0000 {
            0x8000_0000
        } else {
            1
        }
    }

    /// The length of the enlarged vector, rounded down.
    pub open spec fn spec_boosted_length(self) -> int {
        let k = self.spec_boost();
        root_of((self.0@ * k) * (self.0@ * k) + (self.1@ * k) * (self.1@ * k) + (self.2@ * k) * (
        self.2@ * k))
    }

    /// One component of the normalized vector: the enlarged component over
    /// the enlarged length, rounded toward zero.
    pub open spec fn spec_unit_part(self, x: Scalar) -> Scalar {
        Scalar::of(quot((x@ * self.spec_boost()) * SCALE, self.spec_boosted_length()))
    }

    /// The vector of the same direction and length one. The zero vector,
    /// which has no direction, is left as it is.
    pub open spec fn spec_normalize(self) -> Tuple {
        if self.spec_boosted_length() == 0 {
            spec_vector(Scalar::spec_zero(), Scalar::spec_zero(), Scalar::spec_zero())
        } else {
            spec_vector(
                self.spec_unit_part(self.0),
                self.spec_unit_part(self.1),
                self.spec_unit_part(self.2),
            )
        }
    }

    /// The dot product over `x`, `y` and `z`.
    pub open spec fn spec_dot(self, rhs: Tuple) -> Scalar {
        self.0.spec_mul(rhs.0).spec_add(self.1.spec_mul(rhs.1)).spec_add(self.2.spec_mul(rhs.2))
    }

    /// The cross product of two vectors.
    pub open spec fn spec_cross(self, rhs: Tuple) -> Tuple {
        spec_vector(
            self.1.spec_mul(rhs.2).spec_sub(self.2.spec_mul(rhs.1)),
            self.2.spec_mul(rhs.0).spec_sub(self.0.spec_mul(rhs.2)),
            self.0.spec_mul(rhs.1).spec_sub(self.1.spec_mul(rhs.0)),
        )
    }

    /// The channel-wise product of two colours.
    pub open spec fn spec_hadamard(self, rhs: Tuple) -> Tuple {
        spec_vector(self.0.spec_mul(rhs.0), self.1.spec_mul(rhs.1), self.2.spec_mul(rhs.2))
    }

    /// The mirror image of `self` about `normal`:
    /// `self - normal * 2 * dot(self, normal)`.
    pub open spec fn spec_reflect(self, normal: Tuple) -> Tuple {
        self.spec_sub(normal.spec_mul(Scalar::of(2 * SCALE)).spec_mul(self.spec_dot(normal)))
    }

    /// Every component of one is within the tolerance of the other's.
    pub open spec fn spec_approx_eq(self, rhs: Tuple) -> bool {
        &&& self.0.spec_approx_eq(rhs.0)
        &&& self.1.spec_approx_eq(rhs.1)
        &&& self.2.spec_approx_eq(rhs.2)
        &&& self.3.spec_approx_eq(rhs.3)
    }

    /// The tuple `(x, y, z, w)`.
    pub fn new(x: Scalar, y: Scalar, z: Scalar, w: Scalar) -> (t: Tuple)
        ensures
            t == Tuple(x, y, z, w),
    {
        Tuple(x, y, z, w)
    }

    /// The tuple of the four parts, in order.
    pub fn from(parts: [Scalar; 4]) -> (t: Tuple)
        ensures
            t == Tuple(parts[0], parts[1], parts[2], parts[3]),
    {
        Tuple(parts[0], parts[1], parts[2], parts[3])
    }

    /// Red, green and blue of a colour.
    pub fn as_color(self) -> (rgb: (Scalar, Scalar, Scalar))
        requires
            self.spec_is_vector(),
        ensures
            rgb == (self.0, self.1, self.2),
    {
        (self.0, self.1, self.2)
    }

    /// Whether `w` is zero.
    pub fn is_vector(&self) -> (b: bool)
        ensures
            b == self.spec_is_vector(),
    {
        self.3.is_zero()
    }

    /// Whether `w` is one.
    pub fn is_point(&self) -> (b: bool)
        ensures
            b == self.spec_is_point(),
    {
        self.3.raw == SCALE
    }

    /// The component-wise sum, `w` included.
    pub fn add(self, rhs: Tuple) -> (t: Tuple)
        ensures
            t == self.spec_add(rhs),
    {
        Tuple(self.0.add(rhs.0), self.1.add(rhs.1), self.2.add(rhs.2), self.3.add(rhs.3))
    }

    /// The component-wise difference, `w` included.
    pub fn sub(self, rhs: Tuple) -> (t: Tuple)
        ensures
            t == self.spec_sub(rhs),
    {
        Tuple(self.0.sub(rhs.0), self.1.sub(rhs.1), self.2.sub(rhs.2), self.3.sub(rhs.3))
    }

    /// The opposite: `x`, `y` and `z` negated, `w` kept.
    pub fn neg(self) -> (t: Tuple)
        ensures
            t == self.spec_neg(),
    {
        Tuple(self.0.neg(), self.1.neg(), self.2.neg(), self.3)
    }

    /// `x`, `y` and `z` multiplied by `k`, `w` kept.
    pub fn mul(self, k: Scalar) -> (t: Tuple)
        ensures
            t == self.spec_mul(k),
    {
        Tuple(self.0.mul(k), self.1.mul(k), self.2.mul(k), self.3)
    }

    /// `x`, `y` and `z` divided by `k`, `w` kept.
    pub fn div(self, k: Scalar) -> (t: Tuple)
        ensures
            t == self.spec_div(k),
    {
        Tuple(self.0.div(k), self.1.div(k), self.2.div(k), self.3)
    }

    /// The Euclidean norm over all four components.
    pub fn magnitude(self) -> (m: Scalar)
        ensures
            m == self.spec_magnitude(),
    {
        let three: u128 = square(self.0.raw) + square(self.1.raw) + square(self.2.raw);
        let last: u128 = square(self.3.raw);
        if three > u128::MAX - last {
            // The root is at least two to the 64, and saturates.
            proof {
                let n = self.spec_square_norm();
                let r = root_of(n);
                crate::scalar::lemma_root_exists(n as nat);
                if r < 0x1_0000_0000_0000_0000 {
                    assert((r + 1) * (r + 1) <= 0x1_0000_0000_0000_0000_0000_0000_0000_0000)
                        by (nonlinear_arith)
                        requires
                            0 <= r < 0x1_0000_0000_0000_0000,
                    ;
                }
            }
            return Scalar::from_raw(i64::MAX);
        }
        let root = integer_root(three + last);
        if root > i64::MAX as u128 {
            Scalar::from_raw(i64::MAX)
        } else {
            Scalar::from_raw(root as i64)
        }
    }

    /// The vector of the same direction and length one. The zero vector is
    /// left as it is.
    pub fn normalize(self) -> (t: Tuple)
        requires
            self.spec_is_vector(),
        ensures
            t == self.spec_normalize(),
    {
        let limit: i64 = 0x8000_0000;
        let short = -limit < self.0.raw && self.0.raw < limit && -limit < self.1.raw && self.1.raw
            < limit && -limit < self.2.raw && self.2.raw < limit;
        let k: i64 = if short {
            limit
        } else {
            1
        };
        assert(k == self.spec_boost());
        let x = boosted(self.0.raw, k);
        let y = boosted(self.1.raw, k);
        let z = boosted(self.2.raw, k);
        let length = integer_root(square(x) + square(y) + square(z));
        if length == 0 {
            return vector(Scalar::zero(), Scalar::zero(), Scalar::zero());
        }
        let by: i128 = length as i128;
        let nx = saturate(quotient(x as i128 * 1_000_000_000, by));
        let ny = saturate(quotient(y as i128 * 1_000_000_000, by));
        let nz = saturate(quotient(z as i128 * 1_000_000_000, by));
        vector(nx, ny, nz)
    }

    /// The dot product of two vectors.
    pub fn dot_product(self, rhs: Tuple) -> (d: Scalar)
        requires
            self.spec_is_vector(),
            rhs.spec_is_vector(),
        ensures
            d == self.spec_dot(rhs),
    {
        self.0.mul(rhs.0).add(self.1.mul(rhs.1)).add(self.2.mul(rhs.2))
    }

    /// The cross product of two vectors.
    pub fn cross_product(self, rhs: Tuple) -> (t: Tuple)
        requires
            self.spec_is_vector(),
            rhs.spec_is_vector(),
        ensures
            t == self.spec_cross(rhs),
    {
        vector(
            self.1.mul(rhs.2).sub(self.2.mul(rhs.1)),
            self.2.mul(rhs.0).sub(self.0.mul(rhs.2)),
            self.0.mul(rhs.1).sub(self.1.mul(rhs.0)),
        )
    }

    /// The channel-wise product of two colours.
    pub fn hadamard_product(self, rhs: Tuple) -> (t: Tuple)
        requires
            self.spec_is_vector(),
            rhs.spec_is_vector(),
        ensures
            t == self.spec_hadamard(rhs),
    {
        color(self.0.mul(rhs.0), self.1.mul(rhs.1), self.2.mul(rhs.2))
    }

    /// The mirror image of `self` about the surface normal `normal`.
    pub fn reflect(&self, normal: Tuple) -> (t: Tuple)
        requires
            self.spec_is_vector(),
            normal.spec_is_vector(),
        ensures
            t == self.spec_reflect(normal),
    {
        let two = Scalar::from_int(2);
        self.sub(normal.mul(two).mul(self.dot_product(normal)))
    }

    /// `self` moved by `(x, y, z)`.
    pub fn translate(self, x: Scalar, y: Scalar, z: Scalar) -> (t: Tuple)
        ensures
            t == grid_apply(spec_translation(x, y, z), self),
    {
        translation(x, y, z).mul_tuple(self)
    }

    /// `self` turned about the x axis by the angle whose cosine and sine are
    /// given.
    pub fn rotate_x(self, cos: Scalar, sin: Scalar) -> (t: Tuple)
        ensures
            t == grid_apply(spec_rotation(Axis::X, cos, sin), self),
    {
        rotation(Axis::X, cos, sin).mul_tuple(self)
    }

    /// `self` turned about the y axis by the angle whose cosine and sine are
    /// given.
    pub fn rotate_y(self, cos: Scalar, sin: Scalar) -> (t: Tuple)
        ensures
            t == grid_apply(spec_rotation(Axis::Y, cos, sin), self),
    {
        rotation(Axis::Y, cos, sin).mul_tuple(self)
    }

    /// `self` turned about the z axis by the angle whose cosine and sine are
    /// given.
    pub fn rotate_z(self, cos: Scalar, sin: Scalar) -> (t: Tuple)
        ensures
            t == grid_apply(spec_rotation(Axis::Z, cos, sin), self),
    {
        rotation(Axis::Z, cos, sin).mul_tuple(self)
    }

    /// `self` scaled by `x`, `y` and `z` along the axes.
    pub fn scale(self, x: Scalar, y: Scalar, z: Scalar) -> (t: Tuple)
        ensures
            t == grid_apply(spec_scaling(x, y, z), self),
    {
        scaling(x, y, z).mul_tuple(self)
    }

    /// `self` sheared: `x_to_y` is how much of `y` is added to `x`, and so on.
    pub fn shear(
        self,
        x_to_y: Scalar,
        x_to_z: Scalar,
        y_to_x: Scalar,
        y_to_z: Scalar,
        z_to_y: Scalar,
        z_to_x: Scalar,
    ) -> (t: Tuple)
        ensures
            t == grid_apply(spec_shearing(
                x_to_y,
                x_to_z,
                y_to_x,
                y_to_z,
                z_to_y,
                z_to_x,
            ), self),
    {
        shearing(x_to_y, x_to_z, y_to_x, y_to_z, z_to_y, z_to_x).mul_tuple(self)
    }
}

impl PartialEq for Tuple {
    fn eq(&self, other: &Self) -> (b: bool) {
        self.0.approx_eq(other.0) && self.1.approx_eq(other.1) && self.2.approx_eq(other.2)
            && self.3.approx_eq(other.3)
    }
}

impl PartialEqSpecImpl for Tuple {
    open spec fn obeys_eq_spec() -> bool {
        true
    }

    open spec fn eq_spec(&self, other: &Self) -> bool {
        self.spec_approx_eq(*other)
    }
}

/// A raw count enlarged by `k`.
fn boosted(x: i64, k: i64) -> (y: i64)
    requires
        k == 1 || (k == 0x8000_0000 && -0x8000_0000 < x < 0x8000_0000),
    ensures
        y == x * k,
{
    if k == 1 {
        x
    } else {
        x * 0x8000_0000
    }
}

} // verus!
