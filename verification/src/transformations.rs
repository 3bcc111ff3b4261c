//! The affine transformations, each a four-by-four matrix. A product of
//! transformations applies its rightmost factor first.
use crate::matrices::{Grid, Matrix};
use crate::scalar::Scalar;
use vstd::prelude::*;

verus! {

/// The axis of a rotation.
#[derive(Clone, Copy, Debug, PartialEq, Eq)]
pub enum Axis {
    X,
    Y,
    Z,
}

/// The identity with `x`, `y`, `z` in the last column.
pub open spec fn spec_translation(x: Scalar, y: Scalar, z: Scalar) -> Grid {
    let o = Scalar::spec_zero();
    let i = Scalar::spec_one();
    seq![seq![i, o, o, x], seq![o, i, o, y], seq![o, o, i, z], seq![o, o, o, i]]
}

/// The diagonal matrix of `x`, `y`, `z` and one.
pub open spec fn spec_scaling(x: Scalar, y: Scalar, z: Scalar) -> Grid {
    let o = Scalar::spec_zero();
    let i = Scalar::spec_one();
    seq![seq![x, o, o, o], seq![o, y, o, o], seq![o, o, z, o], seq![o, o, o, i]]
}

/// The right-handed rotation about `axis` by the angle whose cosine is `cos`
/// and whose sine is `sin`.
pub open spec fn spec_rotation(axis: Axis, cos: Scalar, sin: Scalar) -> Grid {
    let o = Scalar::spec_zero();
    let i = Scalar::spec_one();
    let n = sin.spec_neg();
    match axis {
        Axis::X => seq![seq![i, o, o, o], seq![o, cos, n, o], seq![o, sin, cos, o], seq![o, o, o, i]],
        Axis::Y => seq![seq![cos, o, sin, o], seq![o, i, o, o], seq![n, o, cos, o], seq![o, o, o, i]],
        Axis::Z => seq![seq![cos, n, o, o], seq![sin, cos, o, o], seq![o, o, i, o], seq![o, o, o, i]],
    }
}

/// The identity with the six couplings off the diagonal: `x_to_y` is how
/// much of `y` is added to `x`, and so on.
pub open spec fn spec_shearing(
    x_to_y: Scalar,
    x_to_z: Scalar,
    y_to_x: Scalar,
    y_to_z: Scalar,
    z_to_y: Scalar,
    z_to_x: Scalar,
) -> Grid {
    let o = Scalar::spec_zero();
    let i = Scalar::spec_one();
    seq![
        seq![i, x_to_y, x_to_z, o],
        seq![y_to_x, i, y_to_z, o],
        seq![z_to_x, z_to_y, i, o],
        seq![o, o, o, i],
    ]
}

/// The transform that moves a point by `(x, y, z)`.
pub fn translation(x: Scalar, y: Scalar, z: Scalar) -> (m: Matrix<4>)
    ensures
        m@ == spec_translation(x, y, z),
{
    let o = Scalar::zero();
    let i = Scalar::one();
    let m = Matrix::new([[i, o, o, x], [o, i, o, y], [o, o, i, z], [o, o, o, i]]);
    assert(m@ =~~= spec_translation(x, y, z));
    m
}

/// The transform that scales by `x`, `y` and `z` along the axes.
pub fn scaling(x: Scalar, y: Scalar, z: Scalar) -> (m: Matrix<4>)
    ensures
        m@ == spec_scaling(x, y, z),
{
    let o = Scalar::zero();
    let i = Scalar::one();
    let m = Matrix::new([[x, o, o, o], [o, y, o, o], [o, o, z, o], [o, o, o, i]]);
    assert(m@ =~~= spec_scaling(x, y, z));
    m
}

/// The rotation about `axis` by an angle given by its cosine and sine.
pub fn rotation(axis: Axis, cos: Scalar, sin: Scalar) -> (m: Matrix<4>)
    ensures
        m@ == spec_rotation(axis, cos, sin),
{
    let o = Scalar::zero();
    let i = Scalar::one();
    let n = sin.neg();
    let m = match axis {
        Axis::X => Matrix::new([[i, o, o, o], [o, cos, n, o], [o, sin, cos, o], [o, o, o, i]]),
        Axis::Y => Matrix::new([[cos, o, sin, o], [o, i, o, o], [n, o, cos, o], [o, o, o, i]]),
        Axis::Z => Matrix::new([[cos, n, o, o], [sin, cos, o, o], [o, o, i, o], [o, o, o, i]]),
    };
    assert(m@ =~~= spec_rotation(axis, cos, sin));
    m
}

/// The transform that adds to each coordinate a share of the two others:
/// `x_to_y` is how much of `y` is added to `x`, and so on.
pub fn shearing(
    x_to_y: Scalar,
    x_to_z: Scalar,
    y_to_x: Scalar,
    y_to_z: Scalar,
    z_to_y: Scalar,
    z_to_x: Scalar,
) -> (m: Matrix<4>)
    ensures
        m@ == spec_shearing(x_to_y, x_to_z, y_to_x, y_to_z, z_to_y, z_to_x),
{
    let o = Scalar::zero();
    let i = Scalar::one();
    let m = Matrix::new(
        [[i, x_to_y, x_to_z, o], [y_to_x, i, y_to_z, o], [z_to_x, z_to_y, i, o], [o, o, o, i]],
    );
    assert(m@ =~~= spec_shearing(x_to_y, x_to_z, y_to_x, y_to_z, z_to_y, z_to_x));
    m
}

} // verus!
