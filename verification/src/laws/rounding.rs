//! What one rounding does: the facts about rounded products, quotients and
//! square roots that the laws are proved from.
use crate::scalar::{magnitude_of, quot, Scalar, SCALE};
use vstd::prelude::*;

verus! {

/// `x` lies between `-bound` and `bound`.
pub open spec fn within(x: int, bound: int) -> bool {
    -bound <= x <= bound
}

/// A product differs from `SCALE` times its rounded quotient by less than
/// `SCALE`, and the quotient is no larger than the product.
pub proof fn lemma_quot_scale(x: int)
    ensures
        within(x - SCALE * quot(x, SCALE as int), SCALE - 1),
        magnitude_of(quot(x, SCALE as int)) * SCALE <= magnitude_of(x),
{
    let m = magnitude_of(x);
    assert(magnitude_of(SCALE as int) == 1_000_000_000);
    let q = m / 1_000_000_000;
    assert(0 <= m - 1_000_000_000 * q < 1_000_000_000);
    assert(quot(x, SCALE as int) == if x < 0 {
        -q
    } else {
        q
    });
}

/// The product of two bounded numbers is bounded by the product of the
/// bounds.
pub proof fn lemma_product_within(a: int, b: int, bound_a: int, bound_b: int)
    requires
        within(a, bound_a),
        within(b, bound_b),
    ensures
        within(a * b, bound_a * bound_b),
{
    assert(within(a * b, bound_a * bound_b)) by (nonlinear_arith)
        requires
            within(a, bound_a),
            within(b, bound_b),
    ;
}

/// The rounded product of two scalars, where it does not saturate.
pub proof fn lemma_mul_exact(a: Scalar, b: Scalar, bound_a: int, bound_b: int)
    requires
        within(a@, bound_a),
        within(b@, bound_b),
        0 <= bound_a,
        0 <= bound_b,
        bound_a * bound_b <= SCALE * 0x7fff_ffff_ffff_ffff,
    ensures
        a.spec_mul(b)@ == quot(a@ * b@, SCALE as int),
        within(a.spec_mul(b)@ * SCALE - a@ * b@, SCALE - 1),
        within(a.spec_mul(b)@ * SCALE, bound_a * bound_b),
{
    lemma_product_within(a@, b@, bound_a, bound_b);
    lemma_quot_scale(a@ * b@);
}

/// A square is the square of the magnitude, and is not negative.
pub proof fn lemma_square_magnitude(x: int)
    ensures
        x * x == magnitude_of(x) * magnitude_of(x),
        x * x >= 0,
{
    assert(x * x == magnitude_of(x) * magnitude_of(x) && x * x >= 0) by (nonlinear_arith);
}

/// A product with a negated factor is the negated product.
pub proof fn lemma_times_negated(x: int, m: int, n: int)
    requires
        n == -m,
    ensures
        x * n == -(x * m),
{
    assert(x * n == -(x * m)) by (nonlinear_arith)
        requires
            n == -m,
    ;
}

/// `x` times a sum of four products, as a sum of triple products, with
/// `x` as the first factor of each or as the second.
pub proof fn lemma_four_terms(
    x: int,
    w0: int,
    y0: int,
    w1: int,
    y1: int,
    w2: int,
    y2: int,
    w3: int,
    y3: int,
)
    ensures
        x * (w0 * y0 + w1 * y1 + w2 * y2 + w3 * y3) == (x * w0) * y0 + (x * w1) * y1 + (x * w2) * y2
            + (x * w3) * y3,
        x * (w0 * y0 + w1 * y1 + w2 * y2 + w3 * y3) == (w0 * x) * y0 + (w1 * x) * y1 + (w2 * x) * y2
            + (w3 * x) * y3,
{
    let s0 = w0 * y0;
    let s1 = w1 * y1;
    let s2 = w2 * y2;
    let s3 = w3 * y3;
    assert(x * (s0 + s1 + s2 + s3) == x * s0 + x * s1 + x * s2 + x * s3) by (nonlinear_arith);
    assert(x * s0 == (x * w0) * y0 && x * w0 == w0 * x) by (nonlinear_arith)
        requires
            s0 == w0 * y0,
    ;
    assert(x * s1 == (x * w1) * y1 && x * w1 == w1 * x) by (nonlinear_arith)
        requires
            s1 == w1 * y1,
    ;
    assert(x * s2 == (x * w2) * y2 && x * w2 == w2 * x) by (nonlinear_arith)
        requires
            s2 == w2 * y2,
    ;
    assert(x * s3 == (x * w3) * y3 && x * w3 == w3 * x) by (nonlinear_arith)
        requires
            s3 == w3 * y3,
    ;
}

/// A sum of four products times `p`, as a sum of triple products.
pub proof fn lemma_four_factors(
    p: int,
    x0: int,
    w0: int,
    x1: int,
    w1: int,
    x2: int,
    w2: int,
    x3: int,
    w3: int,
)
    ensures
        (x0 * w0 + x1 * w1 + x2 * w2 + x3 * w3) * p == (x0 * w0) * p + (x1 * w1) * p + (x2 * w2) * p
            + (x3 * w3) * p,
{
    assert((x0 * w0 + x1 * w1 + x2 * w2 + x3 * w3) * p == (x0 * w0) * p + (x1 * w1) * p + (x2
        * w2) * p + (x3 * w3) * p) by (nonlinear_arith);
}

} // verus!
