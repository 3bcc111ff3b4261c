//! Laws of the transformations that hold without rounding.
use crate::determinants::{cofactor4, det2, det3, row_by_cofactors, skip};
use crate::laws::determinants::lemma_adjugate;
use crate::laws::inverses::{lemma_exact_cofactor, lemma_quotient};
use crate::laws::rounding::{lemma_quot_scale, within};
use crate::matrices::{
    exact_cofactor, exact_det, grid_apply, grid_identity, grid_inverse, is_invertible, is_square,
    raw_rows, Grid, Matrix,
};
use crate::scalar::{magnitude_of, quot, Scalar, SCALE};
use crate::transformations::spec_translation;
use crate::tuples::Tuple;
use vstd::prelude::*;

verus! {

/// A translation leaves a vector as it is: the `w` of a vector is zero, and
/// takes the last column of the matrix out of the product.
pub proof fn law_translation_spares_vectors(x: Scalar, y: Scalar, z: Scalar, v: Tuple)
    requires
        v.spec_is_vector(),
    ensures
        grid_apply(spec_translation(x, y, z), v) == v,
{
    lemma_times_one(v.0);
    lemma_times_one(v.1);
    lemma_times_one(v.2);
    lemma_times_zero(v.0);
    lemma_times_zero(v.1);
    lemma_times_zero(v.2);
    lemma_zero_times(x);
    lemma_zero_times(y);
    lemma_zero_times(z);
    lemma_zero_times(Scalar::spec_one());
    lemma_zero_times(Scalar::spec_zero());
}

/// The identity leaves every tuple as it is.
pub proof fn law_identity_spares_tuples(p: Tuple)
    ensures
        grid_apply(grid_identity(4), p) == p,
{
    lemma_times_one(p.0);
    lemma_times_one(p.1);
    lemma_times_one(p.2);
    lemma_times_one(p.3);
    lemma_times_zero(p.0);
    lemma_times_zero(p.1);
    lemma_times_zero(p.2);
    lemma_times_zero(p.3);
}

/// The last row of the grid is that of a transform of space: three zeros
/// and a one.
pub open spec fn is_affine(g: Grid) -> bool {
    &&& is_square(g, 4)
    &&& g[3][0] == Scalar::spec_zero()
    &&& g[3][1] == Scalar::spec_zero()
    &&& g[3][2] == Scalar::spec_zero()
    &&& g[3][3] == Scalar::spec_one()
}

/// A transform of space keeps the kind of a tuple: a point stays a point
/// and a vector a vector, with the very same `w`.
pub proof fn law_affine_keeps_kind(t: Matrix<4>, p: Tuple)
    requires
        is_affine(t@),
    ensures
        grid_apply(t@, p).3 == p.3,
{
    lemma_times_zero(p.0);
    lemma_times_zero(p.1);
    lemma_times_zero(p.2);
    lemma_times_one(p.3);
}

/// The inverse of a transform of space is a transform of space: its last
/// row is three zeros and a one, with nothing lost to rounding.
pub proof fn law_affine_inverse(t: Matrix<4>)
    requires
        is_affine(t@),
        is_invertible(t@),
    ensures
        is_affine(grid_inverse(t@)),
{
    assert(SCALE == 1_000_000_000);
    let g = t@;
    let w = raw_rows(g);
    let d = exact_det(g);
    assert(w[3][0] == g[3][0]@ && w[3][1] == g[3][1]@ && w[3][2] == g[3][2]@ && w[3][3]
        == g[3][3]@);
    lemma_exact_cofactor(g, 0, 3);
    lemma_exact_cofactor(g, 1, 3);
    lemma_exact_cofactor(g, 2, 3);
    lemma_exact_cofactor(g, 3, 3);
    lemma_last_row_out(w, 0);
    lemma_last_row_out(w, 1);
    lemma_last_row_out(w, 2);
    assert(0 * 1_000_000_000_000_000_000 == 0);
    assert(quot(0, d) == 0) by (nonlinear_arith)
        requires
            d != 0,
            quot(0, d) == 0int / magnitude_of(d),
            magnitude_of(d) > 0,
    ;
    // The determinant is the last cofactor times one.
    let c = cofactor4(w, 3, 3);
    lemma_adjugate(w, 3, 3);
    assert(row_by_cofactors(w, 3, 3) == 1_000_000_000 * c) by (nonlinear_arith)
        requires
            row_by_cofactors(w, 3, 3) == w[3][0] * cofactor4(w, 3, 0) + w[3][1] * cofactor4(
                w,
                3,
                1,
            ) + w[3][2] * cofactor4(w, 3, 2) + w[3][3] * c,
            w[3][0] == 0,
            w[3][1] == 0,
            w[3][2] == 0,
            w[3][3] == 1_000_000_000,
    ;
    assert(d == 1_000_000_000 * c);
    let n = c * 1_000_000_000_000_000_000;
    let q = quot(n, d);
    lemma_quotient(n, d);
    let gap = 1_000_000_000 - q;
    assert(n - d * q == d * gap) by (nonlinear_arith)
        requires
            d == 1_000_000_000 * c,
            n == c * 1_000_000_000_000_000_000,
            gap == 1_000_000_000 - q,
    ;
    assert(gap == 0) by (nonlinear_arith)
        requires
            d != 0,
            within(d * gap, magnitude_of(d) - 1),
    ;
    let inv = grid_inverse(g);
    assert(inv[3][0] == Scalar::of(quot(exact_cofactor(g, 0, 3) * 1_000_000_000_000_000_000, d)));
    assert(inv[3][1] == Scalar::of(quot(exact_cofactor(g, 1, 3) * 1_000_000_000_000_000_000, d)));
    assert(inv[3][2] == Scalar::of(quot(exact_cofactor(g, 2, 3) * 1_000_000_000_000_000_000, d)));
    assert(inv[3][3] == Scalar::of(quot(exact_cofactor(g, 3, 3) * 1_000_000_000_000_000_000, d)));
}

/// Taking a tuple through a transform of space and back through its
/// inverse keeps its kind: the `w` that comes back is the very same.
pub proof fn law_round_trip_keeps_kind(t: Matrix<4>, p: Tuple)
    requires
        is_affine(t@),
        is_invertible(t@),
    ensures
        grid_apply(grid_inverse(t@), grid_apply(t@, p)).3 == p.3,
{
    law_affine_inverse(t);
    let q = grid_apply(t@, p);
    lemma_times_zero(p.0);
    lemma_times_zero(p.1);
    lemma_times_zero(p.2);
    lemma_times_one(p.3);
    lemma_times_zero(q.0);
    lemma_times_zero(q.1);
    lemma_times_zero(q.2);
    lemma_times_one(q.3);
}

/// A cofactor of the last column, but the last, is zero where the last row
/// holds zeros before its last entry.
proof fn lemma_last_row_out(w: Seq<Seq<int>>, j: int)
    requires
        0 <= j < 3,
        w[3][0] == 0,
        w[3][1] == 0,
        w[3][2] == 0,
    ensures
        cofactor4(w, j, 3) == 0,
{
    let x = w[skip(j, 0)];
    let y = w[skip(j, 1)];
    let z = w[3];
    assert(det2(y, z, 1, 2) == 0 && det2(y, z, 0, 2) == 0 && det2(y, z, 0, 1) == 0)
        by (nonlinear_arith)
        requires
            z[0] == 0,
            z[1] == 0,
            z[2] == 0,
            det2(y, z, 1, 2) == y[1] * z[2] - y[2] * z[1],
            det2(y, z, 0, 2) == y[0] * z[2] - y[2] * z[0],
            det2(y, z, 0, 1) == y[0] * z[1] - y[1] * z[0],
    ;
    assert(det3(x, y, z, 0, 1, 2) == 0) by (nonlinear_arith)
        requires
            det3(x, y, z, 0, 1, 2) == x[0] * det2(y, z, 1, 2) - x[1] * det2(y, z, 0, 2) + x[2]
                * det2(y, z, 0, 1),
            det2(y, z, 1, 2) == 0,
            det2(y, z, 0, 2) == 0,
            det2(y, z, 0, 1) == 0,
    ;
    assert(1 * 0 == 0 && -1 * 0 == 0);
}

/// One times a scalar is the scalar.
proof fn lemma_times_one(a: Scalar)
    ensures
        Scalar::spec_one().spec_mul(a) == a,
{
    assert(SCALE == 1_000_000_000);
    assert(Scalar::spec_one()@ * a@ == 1_000_000_000 * a@) by (nonlinear_arith)
        requires
            Scalar::spec_one()@ == 1_000_000_000,
    ;
    lemma_quot_scale(1_000_000_000 * a@);
}

/// Zero times a scalar is zero.
proof fn lemma_times_zero(a: Scalar)
    ensures
        Scalar::spec_zero().spec_mul(a) == Scalar::spec_zero(),
{
    assert(Scalar::spec_zero()@ * a@ == 0) by (nonlinear_arith)
        requires
            Scalar::spec_zero()@ == 0,
    ;
    lemma_quot_scale(0);
}

/// A scalar times zero is zero.
proof fn lemma_zero_times(a: Scalar)
    ensures
        a.spec_mul(Scalar::spec_zero()) == Scalar::spec_zero(),
{
    assert(a@ * Scalar::spec_zero()@ == 0) by (nonlinear_arith)
        requires
            Scalar::spec_zero()@ == 0,
    ;
    lemma_quot_scale(0);
}

} // verus!
