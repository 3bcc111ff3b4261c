//! Laws of the vector algebra: normalizing gives a unit vector, and
//! reflecting reverses the component along the normal.
use crate::laws::rounding::{
    lemma_mul_exact, lemma_product_within, lemma_quot_scale, lemma_square_magnitude, within,
};
use crate::scalar::{
    is_root, lemma_root_exists, magnitude_of, quot, root_of, Scalar, EPSILON, SCALE,
};
use crate::tuples::Tuple;
use vstd::prelude::*;

verus! {

/// A normalized vector has length one, within the tolerance: this holds
/// for every vector that is not zero.
pub proof fn law_normalize(v: Tuple)
    requires
        v.spec_is_vector(),
        v.0@ != 0 || v.1@ != 0 || v.2@ != 0,
    ensures
        v.spec_normalize().spec_magnitude().spec_approx_eq(Scalar::spec_one()),
        v.spec_normalize().spec_is_vector(),
{
    assert(SCALE == 1_000_000_000 && EPSILON == 10_000);
    let k = v.spec_boost();
    let y0 = magnitude_of(v.0@ * k);
    let y1 = magnitude_of(v.1@ * k);
    let y2 = magnitude_of(v.2@ * k);
    lemma_boosted(v.0@, k);
    lemma_boosted(v.1@, k);
    lemma_boosted(v.2@, k);
    let total = (v.0@ * k) * (v.0@ * k) + (v.1@ * k) * (v.1@ * k) + (v.2@ * k) * (v.2@ * k);
    lemma_square_magnitude(v.0@ * k);
    lemma_square_magnitude(v.1@ * k);
    lemma_square_magnitude(v.2@ * k);
    assert(total == y0 * y0 + y1 * y1 + y2 * y2);
    // The enlarged length is at least two to the 31.
    let m = v.spec_boosted_length();
    lemma_root_exists(total as nat);
    assert(y0 >= 0x8000_0000 || y1 >= 0x8000_0000 || y2 >= 0x8000_0000);
    lemma_square_at_least(y0, 0x8000_0000);
    lemma_square_at_least(y1, 0x8000_0000);
    lemma_square_at_least(y2, 0x8000_0000);
    assert(total >= 0x4000_0000_0000_0000);
    if m < 0x8000_0000 {
        assert((m + 1) * (m + 1) <= 0x4000_0000_0000_0000) by (nonlinear_arith)
            requires
                0 <= m < 0x8000_0000,
        ;
    }
    let mm = m * m;
    assert((m + 1) * (m + 1) == mm + 2 * m + 1) by (nonlinear_arith)
        requires
            mm == m * m,
    ;
    lemma_shorter(y0, y0 * y0, m + 1);
    lemma_shorter(y1, y1 * y1, m + 1);
    lemma_shorter(y2, y2 * y2, m + 1);
    // The parts of the normalized vector.
    let n = v.spec_normalize();
    lemma_unit_part(v.0@ * k, m);
    lemma_unit_part(v.1@ * k, m);
    lemma_unit_part(v.2@ * k, m);
    let n0 = magnitude_of(n.0@);
    let n1 = magnitude_of(n.1@);
    let n2 = magnitude_of(n.2@);
    lemma_quotient_square(m, y0, n0, mm, y0 * y0, n0 * n0, m * y0);
    lemma_quotient_square(m, y1, n1, mm, y1 * y1, n1 * n1, m * y1);
    lemma_quotient_square(m, y2, n2, mm, y2 * y2, n2 * n2, m * y2);
    let sum_nn = n0 * n0 + n1 * n1 + n2 * n2;
    let product = mm * sum_nn;
    assert(product == mm * (n0 * n0) + mm * (n1 * n1) + mm * (n2 * n2)) by (nonlinear_arith)
        requires
            product == mm * sum_nn,
            sum_nn == n0 * n0 + n1 * n1 + n2 * n2,
    ;
    let sum_my = m * y0 + m * y1 + m * y2;
    assert(sum_my <= 3 * mm + 3 * m) by (nonlinear_arith)
        requires
            sum_my == m * y0 + m * y1 + m * y2,
            mm == m * m,
            0 <= y0 <= m,
            0 <= y1 <= m,
            0 <= y2 <= m,
            m > 0,
    ;
    // The length of the normalized vector.
    lemma_square_magnitude(n.0@);
    lemma_square_magnitude(n.1@);
    lemma_square_magnitude(n.2@);
    assert(n.3@ * n.3@ == 0) by (nonlinear_arith)
        requires
            n.3@ == 0,
    ;
    assert(n.spec_square_norm() == sum_nn);
    lemma_root_exists(sum_nn as nat);
    let r = root_of(sum_nn);
    lemma_unit_length(m, total, sum_nn, product, r);
}

/// Every component of `back` is within a billionth of `length`, and two
/// counts more, of that of `v`; the two have the same `w`.
pub open spec fn is_near_by_length(back: Tuple, v: Tuple, length: int) -> bool {
    &&& magnitude_of(back.0@ - v.0@) * SCALE <= length + 2 * SCALE
    &&& magnitude_of(back.1@ - v.1@) * SCALE <= length + 2 * SCALE
    &&& magnitude_of(back.2@ - v.2@) * SCALE <= length + 2 * SCALE
    &&& back.3 == v.3
}

/// A normalized vector points where the vector points: multiplied by the
/// length of the vector it gives the vector back, to within a billionth of
/// the length and two counts more. This holds for every vector whose
/// length is within the range of a scalar.
pub proof fn law_normalize_direction_within(v: Tuple)
    requires
        v.spec_is_vector(),
        root_of(v.spec_square_norm()) <= 0x7fff_ffff_ffff_ffff,
    ensures
        is_near_by_length(
            v.spec_normalize().spec_mul(v.spec_magnitude()),
            v,
            v.spec_magnitude()@,
        ),
{
    assert(SCALE == 1_000_000_000);
    let k = v.spec_boost();
    lemma_boosted(v.0@, k);
    lemma_boosted(v.1@, k);
    lemma_boosted(v.2@, k);
    let y0 = v.0@ * k;
    let y1 = v.1@ * k;
    let y2 = v.2@ * k;
    let total = y0 * y0 + y1 * y1 + y2 * y2;
    let norm = v.spec_square_norm();
    lemma_square_magnitude(v.0@);
    lemma_square_magnitude(v.1@);
    lemma_square_magnitude(v.2@);
    lemma_square_magnitude(y0);
    lemma_square_magnitude(y1);
    lemma_square_magnitude(y2);
    assert(v.3@ * v.3@ == 0) by (nonlinear_arith)
        requires
            v.3@ == 0,
    ;
    assert(total == (k * k) * norm) by (nonlinear_arith)
        requires
            total == (v.0@ * k) * (v.0@ * k) + (v.1@ * k) * (v.1@ * k) + (v.2@ * k) * (v.2@ * k),
            norm == v.0@ * v.0@ + v.1@ * v.1@ + v.2@ * v.2@,
    ;
    lemma_root_exists(total as nat);
    lemma_root_exists(norm as nat);
    let m = v.spec_boosted_length();
    let g = root_of(norm);
    lemma_lengths(g, m, k, norm, total);
    assert(v.spec_magnitude()@ == g);
    let mm = m * m;
    assert((m + 1) * (m + 1) == mm + 2 * m + 1) by (nonlinear_arith)
        requires
            mm == m * m,
    ;
    lemma_shorter(magnitude_of(y0), y0 * y0, m + 1);
    lemma_shorter(magnitude_of(y1), y1 * y1, m + 1);
    lemma_shorter(magnitude_of(y2), y2 * y2, m + 1);
    if m == 0 {
        lemma_no_length(v.0@, k);
        lemma_no_length(v.1@, k);
        lemma_no_length(v.2@, k);
        assert(0 * g == 0);
        lemma_quot_scale(0);
    } else {
        lemma_direction_part(v.0@, k, m, g);
        lemma_direction_part(v.1@, k, m, g);
        lemma_direction_part(v.2@, k, m, g);
    }
}

/// A normalized vector times the length of the vector gives the vector
/// back, within the tolerance.
///
/// This holds for every vector with components of magnitude at most five
/// thousand. (The parts of the normalized vector are rounded to a
/// billionth, and that billionth is multiplied by the length.)
pub proof fn law_normalize_direction(v: Tuple)
    requires
        v.spec_is_vector(),
        magnitude_of(v.0@) <= 5_000 * SCALE,
        magnitude_of(v.1@) <= 5_000 * SCALE,
        magnitude_of(v.2@) <= 5_000 * SCALE,
    ensures
        v.spec_normalize().spec_mul(v.spec_magnitude()).spec_approx_eq(v),
{
    assert(SCALE == 1_000_000_000 && EPSILON == 10_000);
    let norm = v.spec_square_norm();
    lemma_bounded_square(v.0@);
    lemma_bounded_square(v.1@);
    lemma_bounded_square(v.2@);
    assert(v.3@ * v.3@ == 0) by (nonlinear_arith)
        requires
            v.3@ == 0,
    ;
    lemma_root_exists(norm as nat);
    let g = root_of(norm);
    assert(g <= 8_661_000_000_000) by (nonlinear_arith)
        requires
            g >= 0,
            g * g <= 75_000_000_000_000_000_000_000_000,
    ;
    law_normalize_direction_within(v);
}

/// The square of a count of magnitude at most five thousand units.
proof fn lemma_bounded_square(x: int)
    requires
        magnitude_of(x) <= 5_000_000_000_000,
    ensures
        0 <= x * x <= 25_000_000_000_000_000_000_000_000,
{
    assert(0 <= x * x <= 25_000_000_000_000_000_000_000_000) by (nonlinear_arith)
        requires
            -5_000_000_000_000 <= x <= 5_000_000_000_000,
    ;
}

/// A count whose enlargement is zero is zero.
proof fn lemma_no_length(x: int, k: int)
    requires
        k >= 1,
        magnitude_of(x * k) == magnitude_of(x) * k,
        magnitude_of(x * k) <= 0,
    ensures
        x == 0,
{
    assert(magnitude_of(x) == 0) by (nonlinear_arith)
        requires
            k >= 1,
            magnitude_of(x) >= 0,
            magnitude_of(x) * k <= 0,
    ;
}

/// The length `g` of a vector and the length `m` of the vector enlarged by
/// `k`: `m` lies between `g k` and `(g + 1) k`.
proof fn lemma_lengths(g: int, m: int, k: int, norm: int, total: int)
    requires
        k >= 1,
        is_root(g, norm),
        is_root(m, total),
        total == (k * k) * norm,
    ensures
        g * k <= m,
        m < (g + 1) * k,
{
    let a = g * k;
    let c = (g + 1) * k;
    assert(a * a <= total && a >= 0) by (nonlinear_arith)
        requires
            a == g * k,
            k >= 1,
            g >= 0,
            g * g <= norm,
            total == (k * k) * norm,
    ;
    lemma_shorter(a, a * a, m + 1);
    assert(c * c > total && c > 0) by (nonlinear_arith)
        requires
            c == (g + 1) * k,
            k >= 1,
            g >= 0,
            norm < (g + 1) * (g + 1),
            total == (k * k) * norm,
    ;
    lemma_shorter(m, m * m, c);
}

/// One part of a normalized vector times the length of the vector: it is
/// within a billionth of the length, and two counts more, of the component
/// `x` it was made from. Here `k` is the boost, `m` the enlarged length and
/// `g` the length.
proof fn lemma_direction_part(x: int, k: int, m: int, g: int)
    requires
        k >= 1,
        m > 0,
        0 <= g <= 0x7fff_ffff_ffff_ffff,
        g * k <= m,
        m < (g + 1) * k,
        magnitude_of(x * k) == magnitude_of(x) * k,
        magnitude_of(x * k) <= m,
        -0x8000_0000_0000_0000 <= x <= 0x7fff_ffff_ffff_ffff,
    ensures
        ({
            let q = Scalar::of(quot((x * k) * SCALE, m));
            magnitude_of(q.spec_mul(Scalar::of(g))@ - x) * 1_000_000_000 <= g + 2_000_000_000
        }),
{
    assert(SCALE == 1_000_000_000);
    let y = x * k;
    let q = Scalar::of(quot(y * SCALE, m))@;
    lemma_unit_part(y, m);
    let a = magnitude_of(x);
    let b = magnitude_of(q);
    let s = 1_000_000_000int;
    assert(b <= s) by (nonlinear_arith)
        requires
            m > 0,
            b >= 0,
            m * b <= (a * k) * 1_000_000_000,
            a * k <= m,
            s == 1_000_000_000,
    ;
    assert(g * b <= a * s) by (nonlinear_arith)
        requires
            k >= 1,
            b >= 0,
            g >= 0,
            g * k <= m,
            m * b <= (a * k) * 1_000_000_000,
            s == 1_000_000_000,
    ;
    assert(a * s < g * b + g + b + 1) by (nonlinear_arith)
        requires
            k >= 1,
            b >= 0,
            g >= 0,
            m < (g + 1) * k,
            (a * k) * 1_000_000_000 < m * b + m,
            s == 1_000_000_000,
    ;
    // The part has the sign of the component.
    assert((x >= 0 ==> y * SCALE >= 0) && (x <= 0 ==> y * SCALE <= 0)) by (nonlinear_arith)
        requires
            y == x * k,
            k >= 1,
            SCALE == 1_000_000_000,
    ;
    assert((x >= 0 ==> q >= 0) && (x <= 0 ==> q <= 0));
    let product = q * g;
    assert(magnitude_of(product) == g * b && (q >= 0 ==> product >= 0) && (q <= 0 ==> product
        <= 0)) by (nonlinear_arith)
        requires
            product == q * g,
            g >= 0,
            b == magnitude_of(q),
    ;
    let f = (g * b) / s;
    assert(f * s <= g * b < f * s + s && f >= 0) by (nonlinear_arith)
        requires
            f == (g * b) / s,
            s == 1_000_000_000,
            g * b >= 0,
    ;
    assert(magnitude_of(quot(product, SCALE as int)) == f);
    assert(Scalar::of(g)@ == g);
}

/// A raw count enlarged by the boost keeps within 63 bits, and is at least
/// two to the 31 where the count is not zero and the boost is not one.
proof fn lemma_boosted(x: int, k: int)
    requires
        -0x8000_0000_0000_0000 <= x <= 0x7fff_ffff_ffff_ffff,
        k == 1 || (k == 0x8000_0000 && magnitude_of(x) < 0x8000_0000),
    ensures
        magnitude_of(x * k) == magnitude_of(x) * k,
        magnitude_of(x * k) <= 0x8000_0000_0000_0000,
        k == 0x8000_0000 && x != 0 ==> magnitude_of(x * k) >= 0x8000_0000,
        x == 0 ==> x * k == 0,
{
    assert(magnitude_of(x * k) == magnitude_of(x) * k && (x == 0 ==> x * k == 0))
        by (nonlinear_arith)
        requires
            k > 0,
    ;
    if k != 1 {
        assert(magnitude_of(x) * k == 0x8000_0000 * magnitude_of(x)) by (nonlinear_arith)
            requires
                k == 0x8000_0000,
        ;
    } else {
        assert(magnitude_of(x) * k == magnitude_of(x)) by (nonlinear_arith)
            requires
                k == 1,
        ;
    }
}

/// The square of a number that is at least `bound`.
proof fn lemma_square_at_least(x: int, bound: int)
    requires
        0 <= x,
        0 <= bound,
    ensures
        x * x >= 0,
        x >= bound ==> x * x >= bound * bound,
{
    assert(x * x >= 0 && (x >= bound ==> x * x >= bound * bound)) by (nonlinear_arith)
        requires
            0 <= x,
            0 <= bound,
    ;
}

/// One part of a normalized vector: the enlarged component `y` times
/// `SCALE` over the enlarged length `m`, rounded toward zero.
proof fn lemma_unit_part(y: int, m: int)
    requires
        m > 0,
        magnitude_of(y) <= m,
    ensures
        ({
            let q = Scalar::of(quot(y * SCALE, m))@;
            &&& m * magnitude_of(q) <= magnitude_of(y) * 1_000_000_000
            &&& magnitude_of(y) * 1_000_000_000 < m * magnitude_of(q) + m
        }),
{
    assert(SCALE == 1_000_000_000);
    let a = magnitude_of(y) * 1_000_000_000;
    assert(magnitude_of(y * SCALE) == a);
    let k = a / m;
    assert(m * k <= a < m * k + m && k >= 0) by (nonlinear_arith)
        requires
            m > 0,
            a >= 0,
            k == a / m,
    ;
    assert(k <= 1_000_000_000) by (nonlinear_arith)
        requires
            m > 0,
            m * k <= a,
            a <= m * 1_000_000_000,
            k >= 0,
    ;
    assert(magnitude_of(quot(y * SCALE, m)) == k);
}

/// The arithmetic of normalizing: `m` is the enlarged length, at least two
/// to the 31, `total` the sum of the squares of the enlarged components,
/// `sum_nn` the sum of the squares of the parts, and `r` its root.
proof fn lemma_unit_length(m: int, total: int, sum_nn: int, product: int, r: int)
    requires
        m >= 0x8000_0000,
        m * m <= total < (m + 1) * (m + 1),
        product == (m * m) * sum_nn,
        product <= 1_000_000_000 * (1_000_000_000 * total),
        product >= 1_000_000_000 * (1_000_000_000 * total) - 2_000_000_000 * (3 * (m * m) + 3 * m),
        is_root(r, sum_nn),
    ensures
        999_990_000 < r < 1_000_010_000,
{
    let mm = m * m;
    assert(mm >= 0x8000_0000 * m) by (nonlinear_arith)
        requires
            m >= 0x8000_0000,
            mm == m * m,
    ;
    assert((m + 1) * (m + 1) == mm + 2 * m + 1) by (nonlinear_arith)
        requires
            mm == m * m,
    ;
    let rr = r * r;
    assert((r + 1) * (r + 1) == rr + 2 * r + 1) by (nonlinear_arith)
        requires
            rr == r * r,
    ;
    if r >= 1_000_010_000 {
        assert(rr >= 1_000_020_000_100_000_000) by (nonlinear_arith)
            requires
                r >= 1_000_010_000,
                rr == r * r,
        ;
        assert(mm * sum_nn >= mm * 1_000_020_000_100_000_000) by (nonlinear_arith)
            requires
                sum_nn >= 1_000_020_000_100_000_000,
                mm >= 0,
        ;
        assert(false);
    }
    if r <= 999_990_000 {
        assert(rr + 2 * r + 1 <= 999_980_002_099_980_001) by (nonlinear_arith)
            requires
                0 <= r <= 999_990_000,
                rr == r * r,
        ;
        assert(mm * sum_nn <= mm * 999_980_002_099_980_001) by (nonlinear_arith)
            requires
                sum_nn <= 999_980_002_099_980_001,
                mm >= 0,
        ;
        assert(false);
    }
}

/// A number whose square is below the square of `bound` is below `bound`.
proof fn lemma_shorter(x: int, xx: int, bound: int)
    requires
        0 <= x,
        0 < bound,
        xx == x * x,
        xx < bound * bound,
    ensures
        x < bound,
{
    if x >= bound {
        assert(x * x >= bound * bound) by (nonlinear_arith)
            requires
                x >= bound,
                bound > 0,
        ;
    }
}

/// The square of a rounded quotient: where `n` is `x * s / m` rounded down,
/// `m^2 n^2` is at most `s^2 x^2`, and short of it by at most `2 s m x`.
proof fn lemma_quotient_square(m: int, x: int, n: int, mm: int, xx: int, nn: int, mx: int)
    requires
        m > 0,
        x >= 0,
        n >= 0,
        m * n <= x * 1_000_000_000 < m * n + m,
        mm == m * m,
        xx == x * x,
        nn == n * n,
        mx == m * x,
    ensures
        mm * nn <= 1_000_000_000 * (1_000_000_000 * xx),
        mm * nn >= 1_000_000_000 * (1_000_000_000 * xx) - 2_000_000_000 * mx,
{
    let a = m * n;
    let b = x * 1_000_000_000;
    assert(a >= 0) by (nonlinear_arith)
        requires
            a == m * n,
            m > 0,
            n >= 0,
    ;
    assert(a * a <= b * b) by (nonlinear_arith)
        requires
            0 <= a <= b,
    ;
    assert(a * a == mm * nn) by (nonlinear_arith)
        requires
            a == m * n,
            mm == m * m,
            nn == n * n,
    ;
    assert(b * b == 1_000_000_000 * (1_000_000_000 * xx)) by (nonlinear_arith)
        requires
            b == x * 1_000_000_000,
            xx == x * x,
    ;
    let bm = b * m;
    assert(bm == 1_000_000_000 * mx) by (nonlinear_arith)
        requires
            bm == b * m,
            b == x * 1_000_000_000,
            mx == m * x,
    ;
    if b >= m {
        assert(a * a >= b * b - 2 * bm) by (nonlinear_arith)
            requires
                a > b - m,
                b - m >= 0,
                bm == b * m,
        ;
    } else {
        assert(b * b <= bm && bm >= 0) by (nonlinear_arith)
            requires
                0 <= b < m,
                bm == b * m,
        ;
        assert(a * a >= 0) by (nonlinear_arith);
    }
}

/// How far the square of the length of `n` is from one, in raw units
/// squared.
pub open spec fn unit_slack(n: Tuple) -> int {
    n.0@ * n.0@ + n.1@ * n.1@ + n.2@ * n.2@ - SCALE * SCALE
}

/// The largest component of a vector that `law_reflect` speaks of: fifty
/// million.
pub open spec fn reflect_range() -> int {
    50_000_000 * SCALE
}

/// Reflection reverses the component of a vector along the normal: the dot
/// product of the reflected vector with the normal is the negated dot
/// product of the vector with the normal, within the tolerance.
///
/// This holds for a vector `v` with components of magnitude at most fifty
/// million, which keeps every step within the range of a scalar, and a
/// normal `n` whose length is one, or near enough to one that twice the
/// magnitude of `dot(v, n)` times the slack of `n` stays under 9988 (in
/// units of `SCALE` squared). For a normal of length exactly one the slack
/// is zero, and the law holds of every such `v`.
pub proof fn law_reflect(v: Tuple, n: Tuple)
    requires
        within(v.0@, reflect_range()),
        within(v.1@, reflect_range()),
        within(v.2@, reflect_range()),
        within(n.0@, 2 * SCALE),
        within(n.1@, 2 * SCALE),
        within(n.2@, 2 * SCALE),
        2 * (magnitude_of(v.spec_dot(n)@) * magnitude_of(unit_slack(n))) < (EPSILON - 12) * (SCALE
            * SCALE),
    ensures
        v.spec_reflect(n).spec_dot(n).spec_approx_eq(v.spec_dot(n).spec_neg()),
{
    assert((EPSILON - 12) * (SCALE * SCALE) == 1_000_000_000_000_000_000 * 9_988)
        by (nonlinear_arith)
        requires
            SCALE == 1_000_000_000,
            EPSILON == 10_000,
    ;
    lemma_reflect_gap(v, n, 9_988);
}

/// Reflecting twice about the same normal gives the vector back, within the
/// tolerance.
///
/// This holds for a vector `v` with components of magnitude at most
/// twenty-five million and a normal `n` whose length is one, or near enough
/// to one that twice the magnitude of `dot(v, n)` times the slack of `n`
/// stays under 2000 (in units of `SCALE` squared).
pub proof fn law_reflect_twice(v: Tuple, n: Tuple)
    requires
        n.spec_is_vector(),
        within(v.0@, 25_000_000 * SCALE),
        within(v.1@, 25_000_000 * SCALE),
        within(v.2@, 25_000_000 * SCALE),
        within(n.0@, 2 * SCALE),
        within(n.1@, 2 * SCALE),
        within(n.2@, 2 * SCALE),
        2 * (magnitude_of(v.spec_dot(n)@) * magnitude_of(unit_slack(n))) < 2_000 * (SCALE * SCALE),
    ensures
        v.spec_reflect(n).spec_reflect(n).spec_approx_eq(v),
{
    assert(SCALE == 1_000_000_000 && EPSILON == 10_000);
    assert(2_000 * (SCALE * SCALE) == 1_000_000_000_000_000_000 * 2_000) by (nonlinear_arith)
        requires
            SCALE == 1_000_000_000,
    ;
    lemma_reflect_gap(v, n, 2_000);
    let range = reflect_range();
    lemma_dot_exact(v, n, range / 2);
    let dot = v.spec_dot(n);
    let d = dot@;
    lemma_twice_times(n, dot);
    let back = n.spec_mul(Scalar::of(2 * SCALE)).spec_mul(dot);
    let r = v.spec_reflect(n);
    assert(r == v.spec_sub(back));
    assert(r.0@ == v.0@ - back.0@ && r.1@ == v.1@ - back.1@ && r.2@ == v.2@ - back.2@);
    let again = r.spec_dot(n);
    let e = again@;
    assert(within(e + d, 2_011));
    lemma_twice_times(n, again);
    let forth = n.spec_mul(Scalar::of(2 * SCALE)).spec_mul(again);
    let twice = r.spec_reflect(n);
    assert(twice == r.spec_sub(forth));
    lemma_reflect_back(n.0@, d, e, back.0@, forth.0@);
    lemma_reflect_back(n.1@, d, e, back.1@, forth.1@);
    lemma_reflect_back(n.2@, d, e, back.2@, forth.2@);
    assert(back.3 == n.3 && forth.3 == n.3);
}

/// One component of reflecting twice: what the two reflections take away
/// cancels, within 8046 billionths.
proof fn lemma_reflect_back(n: int, d: int, e: int, p: int, q: int)
    requires
        within(n, 2_000_000_000),
        within(e + d, 2_011),
        within(p * 1_000_000_000 - 2 * n * d, 999_999_999),
        within(q * 1_000_000_000 - 2 * n * e, 999_999_999),
    ensures
        within(p + q, 8_046),
{
    assert(2 * n * d + 2 * n * e == 2 * (n * (e + d))) by (nonlinear_arith);
    lemma_product_within(n, e + d, 2_000_000_000, 2_011);
}

/// The dot product of the reflected vector with the normal and the dot
/// product of the vector with the normal cancel within `room` plus eleven
/// billionths, where twice the magnitude of `dot(v, n)` times the slack of
/// `n` stays under `room` (in units of `SCALE` squared).
proof fn lemma_reflect_gap(v: Tuple, n: Tuple, room: int)
    requires
        0 <= room <= 10_000,
        within(v.0@, reflect_range()),
        within(v.1@, reflect_range()),
        within(v.2@, reflect_range()),
        within(n.0@, 2 * SCALE),
        within(n.1@, 2 * SCALE),
        within(n.2@, 2 * SCALE),
        2 * (magnitude_of(v.spec_dot(n)@) * magnitude_of(unit_slack(n))) < 1_000_000_000_000_000_000
            * room,
    ensures
        within(v.spec_reflect(n).spec_dot(n)@ + v.spec_dot(n)@, room + 11),
        v.spec_dot(n).spec_neg()@ == -v.spec_dot(n)@,
{
    let s: int = 1_000_000_000;
    assert(SCALE == s && EPSILON == 10_000);
    assert(SCALE * SCALE == s * s);
    let range = reflect_range();
    lemma_dot_exact(v, n, range);
    let a0 = v.0.spec_mul(n.0)@;
    let a1 = v.1.spec_mul(n.1)@;
    let a2 = v.2.spec_mul(n.2)@;
    let dot = v.spec_dot(n);
    let d = dot@;
    lemma_twice_times(n, dot);
    let back = n.spec_mul(Scalar::of(2 * SCALE)).spec_mul(dot);
    let r = v.spec_reflect(n);
    assert(r == v.spec_sub(back));
    assert(r.0@ == v.0@ - back.0@ && r.1@ == v.1@ - back.1@ && r.2@ == v.2@ - back.2@);
    lemma_dot_exact(r, n, 25 * range);
    let b0 = r.0.spec_mul(n.0)@;
    let b1 = r.1.spec_mul(n.1)@;
    let b2 = r.2.spec_mul(n.2)@;
    let e = r.spec_dot(n)@;
    let alpha0 = v.0@ * n.0@ - s * a0;
    let alpha1 = v.1@ * n.1@ - s * a1;
    let alpha2 = v.2@ * n.2@ - s * a2;
    let pi0 = 2 * n.0@ * d - s * back.0@;
    let pi1 = 2 * n.1@ * d - s * back.1@;
    let pi2 = 2 * n.2@ * d - s * back.2@;
    let beta0 = (v.0@ - back.0@) * n.0@ - s * b0;
    let beta1 = (v.1@ - back.1@) * n.1@ - s * b1;
    let beta2 = (v.2@ - back.2@) * n.2@ - s * b2;
    lemma_reflect_component(v.0@, n.0@, a0, back.0@, b0, d, alpha0, pi0, beta0);
    lemma_reflect_component(v.1@, n.1@, a1, back.1@, b1, d, alpha1, pi1, beta1);
    lemma_reflect_component(v.2@, n.2@, a2, back.2@, b2, d, alpha2, pi2, beta2);
    lemma_product_within(pi0, n.0@, 999_999_999, 2_000_000_000);
    lemma_product_within(pi1, n.1@, 999_999_999, 2_000_000_000);
    lemma_product_within(pi2, n.2@, 999_999_999, 2_000_000_000);
    let residue = s * alpha0 + s * alpha1 + s * alpha2 - s * beta0 - s * beta1 - s * beta2;
    let total = s * (s * e);
    lemma_reflect_sum(
        d,
        unit_slack(n),
        n.0@ * n.0@,
        n.1@ * n.1@,
        n.2@ * n.2@,
        pi0 * n.0@,
        pi1 * n.1@,
        pi2 * n.2@,
        residue,
        total,
        room,
    );
}

/// One component of the reflected dot product, with every rounding error
/// named: `a`, `p` and `b` are the rounded quotients by `SCALE` of `v * n`,
/// `2 * n * d` and `(v - p) * n`, and `alpha`, `pi` and `beta` what the
/// rounding took away.
proof fn lemma_reflect_component(
    v: int,
    n: int,
    a: int,
    p: int,
    b: int,
    d: int,
    alpha: int,
    pi: int,
    beta: int,
)
    requires
        alpha == v * n - 1_000_000_000 * a,
        pi == 2 * n * d - 1_000_000_000 * p,
        beta == (v - p) * n - 1_000_000_000 * b,
    ensures
        1_000_000_000 * (1_000_000_000 * b) == 1_000_000_000 * (1_000_000_000 * a) + 1_000_000_000
            * alpha - 2 * (d * (n * n)) + pi * n - 1_000_000_000 * beta,
{
    let vn = v * n;
    let pn = p * n;
    assert((v - p) * n == vn - pn) by (nonlinear_arith)
        requires
            vn == v * n,
            pn == p * n,
    ;
    assert((2 * n * d) * n == 2 * (d * (n * n))) by (nonlinear_arith);
    assert((1_000_000_000 * p) * n == 1_000_000_000 * pn) by (nonlinear_arith)
        requires
            pn == p * n,
    ;
    assert(pi * n == (2 * n * d) * n - (1_000_000_000 * p) * n) by (nonlinear_arith)
        requires
            pi == 2 * n * d - 1_000_000_000 * p,
    ;
}

/// The three components together: the reflected dot product `b0 + b1 + b2`
/// and the dot product `d` cancel but for the rounding and for the slack of
/// the normal.
proof fn lemma_reflect_sum(
    d: int,
    slack: int,
    nn0: int,
    nn1: int,
    nn2: int,
    pn0: int,
    pn1: int,
    pn2: int,
    residue: int,
    total: int,
    room: int,
)
    requires
        0 <= room,
        slack == nn0 + nn1 + nn2 - 1_000_000_000_000_000_000,
        within(pn0, 1_999_999_998_000_000_000),
        within(pn1, 1_999_999_998_000_000_000),
        within(pn2, 1_999_999_998_000_000_000),
        within(residue, 5_999_999_994_000_000_000),
        total == 1_000_000_000 * (1_000_000_000 * d) - 2 * (d * nn0) - 2 * (d * nn1) - 2 * (d
            * nn2) + pn0 + pn1 + pn2 + residue,
        2 * (magnitude_of(d) * magnitude_of(slack)) < 1_000_000_000_000_000_000 * room,
    ensures
        within(total + 1_000_000_000 * (1_000_000_000 * d), 1_000_000_000_000_000_000 * (room
            + 12) - 1),
{
    assert(d * nn0 + d * nn1 + d * nn2 == 1_000_000_000_000_000_000 * d + d * slack)
        by (nonlinear_arith)
        requires
            slack == nn0 + nn1 + nn2 - 1_000_000_000_000_000_000,
    ;
    assert(magnitude_of(d * slack) == magnitude_of(d) * magnitude_of(slack))
        by (nonlinear_arith);
}

/// The dot product of two vectors whose roundings do not saturate is the
/// plain sum of the three rounded products.
proof fn lemma_dot_exact(u: Tuple, n: Tuple, bound: int)
    requires
        0 <= bound <= 25 * reflect_range(),
        within(u.0@, bound),
        within(u.1@, bound),
        within(u.2@, bound),
        within(n.0@, 2 * SCALE),
        within(n.1@, 2 * SCALE),
        within(n.2@, 2 * SCALE),
    ensures
        u.spec_dot(n)@ == u.0.spec_mul(n.0)@ + u.1.spec_mul(n.1)@ + u.2.spec_mul(n.2)@,
        within(u.spec_dot(n)@, 6 * bound),
        within(u.0.spec_mul(n.0)@ * SCALE - u.0@ * n.0@, SCALE - 1),
        within(u.1.spec_mul(n.1)@ * SCALE - u.1@ * n.1@, SCALE - 1),
        within(u.2.spec_mul(n.2)@ * SCALE - u.2@ * n.2@, SCALE - 1),
{
    assert(SCALE == 1_000_000_000);
    lemma_mul_exact(u.0, n.0, bound, 2_000_000_000);
    lemma_mul_exact(u.1, n.1, bound, 2_000_000_000);
    lemma_mul_exact(u.2, n.2, bound, 2_000_000_000);
}

/// A scalar times two is doubled exactly, where the result is in range.
proof fn lemma_twice(x: Scalar)
    requires
        within(x@, 2 * SCALE),
    ensures
        x.spec_mul(Scalar::of(2 * SCALE))@ == 2 * x@,
{
    let two = Scalar::of(2 * SCALE);
    assert(two@ == 2_000_000_000);
    assert(x@ * two@ == 2_000_000_000 * x@);
    lemma_quot_scale(x@ * two@);
}

/// The normal doubled and multiplied by the dot product `d`: each component
/// is `2 * n * d / SCALE`, rounded.
proof fn lemma_twice_times(n: Tuple, d: Scalar)
    requires
        within(n.0@, 2 * SCALE),
        within(n.1@, 2 * SCALE),
        within(n.2@, 2 * SCALE),
        within(d@, 6 * reflect_range()),
    ensures
        ({
            let back = n.spec_mul(Scalar::of(2 * SCALE)).spec_mul(d);
            &&& within(back.0@ * SCALE - 2 * n.0@ * d@, SCALE - 1)
            &&& within(back.1@ * SCALE - 2 * n.1@ * d@, SCALE - 1)
            &&& within(back.2@ * SCALE - 2 * n.2@ * d@, SCALE - 1)
            &&& within(back.0@, 24 * reflect_range())
            &&& within(back.1@, 24 * reflect_range())
            &&& within(back.2@, 24 * reflect_range())
        }),
{
    assert(SCALE == 1_000_000_000);
    let twice = n.spec_mul(Scalar::of(2 * SCALE));
    lemma_twice(n.0);
    lemma_twice(n.1);
    lemma_twice(n.2);
    lemma_mul_exact(twice.0, d, 4_000_000_000, 6 * reflect_range());
    lemma_mul_exact(twice.1, d, 4_000_000_000, 6 * reflect_range());
    lemma_mul_exact(twice.2, d, 4_000_000_000, 6 * reflect_range());
    assert(twice.0@ * d@ == 2 * n.0@ * d@) by (nonlinear_arith)
        requires
            twice.0@ == 2 * n.0@,
    ;
    assert(twice.1@ * d@ == 2 * n.1@ * d@) by (nonlinear_arith)
        requires
            twice.1@ == 2 * n.1@,
    ;
    assert(twice.2@ * d@ == 2 * n.2@ * d@) by (nonlinear_arith)
        requires
            twice.2@ == 2 * n.2@,
    ;
}

} // verus!
