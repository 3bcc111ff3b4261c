//! Rays: a point of origin and a direction.
use crate::matrices::{grid_apply, Matrix};
use crate::scalar::Scalar;
use crate::transformations::{spec_scaling, spec_translation};
use crate::tuples::Tuple;
use vstd::prelude::*;

verus! {

#[derive(Clone, Copy, Debug)]
/// A half-line from `origin` along `direction`, and its backward extension.
pub struct Ray {
    pub origin: Tuple,
    pub direction: Tuple,
}

impl Ray {
    /// The point reached from the origin after `time` along the direction.
    /// A negative `time` lies behind the origin.
    pub open spec fn spec_position(self, time: Scalar) -> Tuple {
        self.origin.spec_add(self.direction.spec_mul(time))
    }

    /// The ray with origin and direction both multiplied by `transform`.
    pub open spec fn spec_transform(self, transform: Matrix<4>) -> Ray {
        Ray {
            origin: grid_apply(transform@, self.origin),
            direction: grid_apply(transform@, self.direction),
        }
    }

    /// The ray from `origin` along `direction`.
    pub fn new(origin: Tuple, direction: Tuple) -> (ray: Ray)
        ensures
            ray == (Ray { origin, direction }),
    {
        Ray { origin, direction }
    }

    /// The point on the ray at the parameter `time`.
    pub fn position(&self, time: Scalar) -> (p: Tuple)
        ensures
            p == self.spec_position(time),
    {
        self.origin.add(self.direction.mul(time))
    }

    /// The ray with its origin moved by `(x, y, z)` and its direction kept.
    pub fn translate(&self, x: Scalar, y: Scalar, z: Scalar) -> (ray: Ray)
        ensures
            ray.origin == grid_apply(spec_translation(x, y, z), self.origin),
            ray.direction == self.direction,
    {
        Ray { origin: self.origin.translate(x, y, z), direction: self.direction }
    }

    /// The ray with origin and direction both scaled by `(x, y, z)`.
    pub fn scale(&self, x: Scalar, y: Scalar, z: Scalar) -> (ray: Ray)
        ensures
            ray.origin == grid_apply(spec_scaling(x, y, z), self.origin),
            ray.direction == grid_apply(spec_scaling(x, y, z), self.direction),
    {
        Ray { origin: self.origin.scale(x, y, z), direction: self.direction.scale(x, y, z) }
    }

    /// A new ray, with origin and direction both multiplied by `transform`.
    /// A direction, whose `w` is zero, is not moved by a translation.
    pub fn transform(&self, transform: &Matrix<4>) -> (ray: Ray)
        ensures
            ray == self.spec_transform(*transform),
    {
        Ray {
            origin: transform.mul_tuple(self.origin),
            direction: transform.mul_tuple(self.direction),
        }
    }
}

} // verus!
