//! Laws of the inverse: a matrix times its inverse, either way round, is
//! the identity; a tuple taken through a transform and back is the tuple;
//! and the inverse of the inverse is the matrix. Each holds within the
//! tolerance, for matrices whose entries leave room for it in the digits of
//! a scalar.
use crate::determinants::{cofactor3, cofactor4, det_rows, row_by_cofactors};
use crate::laws::determinants::{
    lemma_adjugate, lemma_adjugate3, lemma_adjugate_columns, lemma_adjugate_columns3,
};
use crate::laws::rounding::{
    lemma_four_factors, lemma_four_terms, lemma_mul_exact, lemma_product_within, within,
};
use crate::matrices::{
    exact_cofactor, exact_det, grid_apply, grid_approx_eq, grid_cofactor, grid_det, grid_dot,
    grid_identity, grid_inverse, grid_mul, is_invertible, is_square, quot_kept, raw_rows,
    row_apply, scale_to, Grid, Matrix,
};
use crate::scalar::{magnitude_of, quot, Scalar, EPSILON, SCALE};
use crate::tuples::Tuple;
use vstd::prelude::*;

verus! {

/// `g` is an `n` by `n` grid of scalars of raw magnitude at most `a`.
pub open spec fn is_bounded_grid(g: Grid, n: nat, a: int) -> bool {
    &&& is_square(g, n)
    &&& forall|i: int, j: int| 0 <= i < n && 0 <= j < n ==> within((#[trigger] g[i][j])@, a)
}

/// Every entry of the matrix is of raw magnitude at most `a`.
pub open spec fn is_bounded_matrix<const N: usize>(m: Matrix<N>, a: int) -> bool {
    forall|i: int, j: int| 0 <= i < N && 0 <= j < N ==> within((#[trigger] m@[i][j])@, a)
}

/// Every component of the tuple is of raw magnitude at most `c`.
pub open spec fn is_bounded_tuple(p: Tuple, c: int) -> bool {
    within(p.0@, c) && within(p.1@, c) && within(p.2@, c) && within(p.3@, c)
}

/// Component `i` of a tuple.
pub open spec fn component(t: Tuple, i: int) -> Scalar {
    if i == 0 {
        t.0
    } else if i == 1 {
        t.1
    } else if i == 2 {
        t.2
    } else {
        t.3
    }
}

/// Row `i` of `x` times column `j` of `y`, unrounded.
pub open spec fn exact_entry(x: Seq<Seq<int>>, y: Seq<Seq<int>>, i: int, j: int) -> int {
    x[i][0] * y[0][j] + x[i][1] * y[1][j] + x[i][2] * y[2][j] + x[i][3] * y[3][j]
}

/// The entry of the identity at `(i, j)`, as an unrounded product holds it:
/// `SCALE` squared on the diagonal, zero off it.
pub open spec fn exact_identity(i: int, j: int) -> int {
    if i == j {
        1_000_000_000_000_000_000
    } else {
        0
    }
}

/// A matrix times its inverse, and the inverse times the matrix, are the
/// identity, to within what the rounding of the inverse leaves: an entry
/// of the first product is within a billionth of the size of its row of
/// the matrix, and four counts more, of the identity's; an entry of the
/// second, of the size of its column. (The size of a row or a column is the
/// sum of the magnitudes of its entries.)
///
/// This holds for every invertible four-by-four matrix whose products
/// with its inverse keep within the range of a scalar: the entries of the
/// matrix are of magnitude at most `a`, those of the inverse at most `b`,
/// and `a` times `b` is at most two billion.
pub proof fn law_inverse_within(m: Matrix<4>, a: int, b: int)
    requires
        is_invertible(m@),
        0 <= a,
        0 <= b <= 0x7fff_ffff_ffff_fffe,
        a * b <= 2_000_000_000 * (SCALE * SCALE),
        is_bounded_matrix(m, a),
        is_bounded_grid(grid_inverse(m@), 4, b),
    ensures
        forall|i: int, j: int|
            0 <= i < 4 && 0 <= j < 4 ==> magnitude_of(
                (#[trigger] grid_mul(m@, grid_inverse(m@))[i][j])@ - grid_identity(4)[i][j]@,
            ) * SCALE <= row_size(raw_rows(m@), i) + 4 * SCALE,
        forall|i: int, j: int|
            0 <= i < 4 && 0 <= j < 4 ==> magnitude_of(
                (#[trigger] grid_mul(grid_inverse(m@), m@)[i][j])@ - grid_identity(4)[i][j]@,
            ) * SCALE <= column_size(raw_rows(m@), j) + 4 * SCALE,
{
    assert(SCALE == 1_000_000_000);
    assert(2_000_000_000 * (SCALE * SCALE) == 2_000_000_000_000_000_000_000_000_000)
        by (nonlinear_arith)
        requires
            SCALE == 1_000_000_000,
    ;
    assert(b * a == a * b) by (nonlinear_arith);
    let g = m@;
    let inv = grid_inverse(g);
    let right = grid_mul(g, inv);
    let left = grid_mul(inv, g);
    assert forall|i: int, j: int| 0 <= i < 4 && 0 <= j < 4 implies magnitude_of(
        (#[trigger] right[i][j])@ - grid_identity(4)[i][j]@,
    ) * SCALE <= row_size(raw_rows(g), i) + 4 * SCALE by {
        lemma_exact_right(g, i, j);
        lemma_rounded_entry(g, inv, i, j, a, b, row_size(raw_rows(g), i));
    }
    assert forall|i: int, j: int| 0 <= i < 4 && 0 <= j < 4 implies magnitude_of(
        (#[trigger] left[i][j])@ - grid_identity(4)[i][j]@,
    ) * SCALE <= column_size(raw_rows(g), j) + 4 * SCALE by {
        lemma_exact_left(g, i, j);
        lemma_rounded_entry(inv, g, i, j, b, a, column_size(raw_rows(g), j));
    }
}

/// A matrix times its inverse, and the inverse times the matrix, are the
/// identity, within the tolerance.
///
/// This holds for every invertible four-by-four matrix with entries of
/// magnitude at most two thousand whose inverse has entries of magnitude at
/// most a million. (An entry of the inverse is rounded to a billionth, and
/// that billionth is multiplied by the entries of the matrix; and a
/// product of the two must fit in a scalar.)
pub proof fn law_inverse(m: Matrix<4>)
    requires
        is_invertible(m@),
        is_bounded_matrix(m, 2_000 * SCALE),
        is_bounded_grid(grid_inverse(m@), 4, 1_000_000 * SCALE),
    ensures
        grid_approx_eq(grid_mul(m@, grid_inverse(m@)), grid_identity(4)),
        grid_approx_eq(grid_mul(grid_inverse(m@), m@), grid_identity(4)),
{
    assert(SCALE == 1_000_000_000 && EPSILON == 10_000);
    assert(2_000_000_000_000 * 1_000_000_000_000_000 <= 2_000_000_000 * (SCALE * SCALE))
        by (nonlinear_arith)
        requires
            SCALE == 1_000_000_000,
    ;
    law_inverse_within(m, 2_000_000_000_000, 1_000_000_000_000_000);
    let g = m@;
    let w = raw_rows(g);
    let inv = grid_inverse(g);
    let right = grid_mul(g, inv);
    let left = grid_mul(inv, g);
    assert forall|i: int, j: int| 0 <= i < right.len() && 0 <= j < right.len() implies (
    #[trigger] right[i][j]).spec_approx_eq(grid_identity(4)[i][j]) by {
        assert(w[i][0] == g[i][0]@ && w[i][1] == g[i][1]@ && w[i][2] == g[i][2]@ && w[i][3]
            == g[i][3]@);
        assert(row_size(w, i) <= 8_000_000_000_000);
    }
    assert forall|i: int, j: int| 0 <= i < left.len() && 0 <= j < left.len() implies (
    #[trigger] left[i][j]).spec_approx_eq(grid_identity(4)[i][j]) by {
        assert(w[0][j] == g[0][j]@ && w[1][j] == g[1][j]@ && w[2][j] == g[2][j]@ && w[3][j]
            == g[3][j]@);
        assert(column_size(w, j) <= 8_000_000_000_000);
    }
}

/// The transform and the tuple are small enough for the round trip to come
/// within the tolerance: with `a`, `b` and `c` the largest magnitudes of
/// an entry of the transform, of an entry of its inverse and of a component
/// of the tuple, as raw counts,
/// `16 a c + 16 b SCALE + 4 SCALE^2 < EPSILON SCALE^2`.
///
/// In units: sixteen times `a` times `c`, and sixteen times `b`, together
/// stay under 9996 billionths. A transform with entries up to ten, whose
/// inverse has entries up to ten, takes tuples up to sixty-one.
pub open spec fn is_round_trip_safe(a: int, b: int, c: int) -> bool {
    16 * (a * c) + 16_000_000_000 * b + 4_000_000_000_000_000_000
        < 10_000_000_000_000_000_000_000
}

/// Taking a tuple through a transform and back through its inverse gives
/// the tuple, within the tolerance.
///
/// This holds for every invertible transform and every tuple that leave
/// room for it: the entries of the transform are of magnitude at most `a`,
/// those of its inverse at most `b`, and the components of the tuple at
/// most `c`, with `a`, `b` and `c` as `is_round_trip_safe` asks. (The
/// entries of the inverse are rounded to a billionth, and that billionth
/// is multiplied by what the transform makes of the tuple.)
pub proof fn law_round_trip(t: Matrix<4>, p: Tuple, a: int, b: int, c: int)
    requires
        is_invertible(t@),
        0 <= a <= 10_000 * SCALE,
        0 <= b <= 10_000 * SCALE,
        0 <= c <= 10_000 * SCALE,
        is_bounded_matrix(t, a),
        is_bounded_grid(grid_inverse(t@), 4, b),
        is_bounded_tuple(p, c),
        is_round_trip_safe(a, b, c),
    ensures
        grid_apply(grid_inverse(t@), grid_apply(t@, p)).spec_approx_eq(p),
{
    assert(SCALE == 1_000_000_000);
    let g = t@;
    lemma_round_trip_component(g, p, a, b, c, 0);
    lemma_round_trip_component(g, p, a, b, c, 1);
    lemma_round_trip_component(g, p, a, b, c, 2);
    lemma_round_trip_component(g, p, a, b, c, 3);
}

/// The inverse of the inverse of a matrix is the matrix, within the
/// tolerance.
///
/// This holds for every invertible four-by-four matrix with entries of
/// magnitude at most ten whose inverse is invertible and has entries of
/// magnitude at most ten. (The entries of the inverse are rounded to a
/// billionth, and inverting multiplies that billionth by the square of the
/// entries.)
pub proof fn law_inverse_twice(m: Matrix<4>)
    requires
        is_invertible(m@),
        is_invertible(grid_inverse(m@)),
        is_bounded_matrix(m, 10 * SCALE),
        is_bounded_grid(grid_inverse(m@), 4, 10 * SCALE),
    ensures
        grid_approx_eq(grid_inverse(grid_inverse(m@)), m@),
{
    assert(SCALE == 1_000_000_000);
    let g = m@;
    let n = grid_inverse(g);
    let twice = grid_inverse(n);
    assert forall|i: int, l: int| 0 <= i < twice.len() && 0 <= l < twice.len() implies (
    #[trigger] twice[i][l]).spec_approx_eq(g[i][l]) by {
        lemma_twice_column(g, l);
        let free = free_inverse(n)[i][l];
        assert(within(free - raw_rows(g)[i][l], 3_300));
        assert(within(raw_rows(g)[i][l], 10_000_000_000));
        assert(raw_rows(g)[i][l] == g[i][l]@);
        assert(twice[i][l] == Scalar::of(free));
    }
}

/// The determinant is large enough for an entry of the inverse to be told
/// from the rounded cofactor and the rounded determinant: with `det` the
/// determinant and `b` the largest magnitude of the entry, as raw counts,
/// `b + SCALE <= 9997 |det|`.
///
/// In units: the determinant is at least a ten-thousandth of one more than
/// the entry. (Cofactor and determinant are each rounded to a billionth,
/// and the quotient divides those billionths by the determinant.)
pub open spec fn is_well_scaled(det: int, b: int) -> bool {
    b + SCALE <= 9_997 * magnitude_of(det)
}

/// An entry of the inverse is the cofactor at the transposed place over
/// the determinant, as `cofactor` and `determinant` give them, within the
/// tolerance.
///
/// This holds for a matrix of three or four rows that has an inverse,
/// where cofactor, determinant and entry have not saturated and the
/// determinant is large enough (see `is_well_scaled`).
pub proof fn law_inverse_entry<const N: usize>(m: Matrix<N>, r: int, c: int, b: int)
    requires
        N == 3 || N == 4,
        is_invertible(m@),
        0 <= r < N,
        0 <= c < N,
        0 <= b <= 0x7fff_ffff_ffff_fffe,
        within(grid_inverse(m@)[c][r]@, b),
        within(grid_cofactor(m@, r, c)@, 0x7fff_ffff_ffff_fffe),
        within(grid_det(m@)@, 0x7fff_ffff_ffff_fffe),
        is_well_scaled(grid_det(m@)@, b),
    ensures
        grid_inverse(m@)[c][r].spec_approx_eq(grid_cofactor(m@, r, c).spec_div(grid_det(m@))),
{
    assert(SCALE == 1_000_000_000 && EPSILON == 10_000);
    let g = m@;
    let k2 = scale_to(g.len() - 2);
    let k = scale_to(g.len() - 1);
    let cof = exact_cofactor(g, r, c);
    let det = exact_det(g);
    let cr = quot_kept(cof, k2);
    let dr = quot_kept(det, k);
    lemma_kept(cof, k2);
    lemma_kept(det, k);
    assert(grid_cofactor(g, r, c)@ == cr);
    assert(grid_det(g)@ == dr);
    let q = quot(cof * 1_000_000_000_000_000_000, det);
    lemma_quotient(cof * 1_000_000_000_000_000_000, det);
    assert(grid_inverse(g)[c][r] == Scalar::of(q));
    let p = quot(cr * SCALE, dr);
    lemma_quotient(cr * SCALE, dr);
    assert(k == k2 * 1_000_000_000) by (nonlinear_arith)
        requires
            (k == 1_000_000_000_000_000_000 && k2 == 1_000_000_000) || (k
                == 1_000_000_000_000_000_000_000_000_000 && k2 == 1_000_000_000_000_000_000),
    ;
    lemma_entry_ratio(cof, det, cr, dr, q, p, k2, k, b);
}

/// A quotient that is kept from zero: the divisor times it is within less
/// than the divisor of the dividend.
proof fn lemma_kept(x: int, k: int)
    requires
        k > 0,
    ensures
        within(x - k * quot_kept(x, k), k - 1),
        (quot_kept(x, k) == 0) == (x == 0),
{
    lemma_quotient(x, k);
    let q = quot(x, k);
    assert(k * 0 == 0 && k * 1 == k && k * -1 == -k);
    if x == 0 {
        assert(q == 0);
    }
}

/// The rounded cofactor `cr` over the rounded determinant `dr` against
/// the unrounded cofactor `cof` over the unrounded determinant `det`: the
/// two quotients `p` and `q` differ by less than ten thousand counts.
proof fn lemma_entry_ratio(
    cof: int,
    det: int,
    cr: int,
    dr: int,
    q: int,
    p: int,
    k2: int,
    k: int,
    b: int,
)
    requires
        k2 > 0,
        k == k2 * 1_000_000_000,
        within(cof - k2 * cr, k2 - 1),
        within(det - k * dr, k - 1),
        dr != 0,
        det != 0,
        within(cof * 1_000_000_000_000_000_000 - det * q, magnitude_of(det) - 1),
        within(cr * 1_000_000_000 - dr * p, magnitude_of(dr) - 1),
        within(q, b),
        b + 1_000_000_000 <= 9_997 * magnitude_of(dr),
    ensures
        within(p - q, 9_999),
{
    let e1 = cof - k2 * cr;
    let e2 = det - k * dr;
    let rq = cof * 1_000_000_000_000_000_000 - det * q;
    let rp = cr * 1_000_000_000 - dr * p;
    let gap = p - q;
    let size = magnitude_of(dr);
    // The determinant times the gap, in four parts.
    let a1 = k * rp;
    let a2 = e2 * q;
    let a3 = e1 * 1_000_000_000_000_000_000;
    let main = (k * dr) * gap;
    assert(main == -a1 + a2 - a3 + rq) by (nonlinear_arith)
        requires
            main == (k * dr) * (p - q),
            a1 == k * (cr * 1_000_000_000 - dr * p),
            a2 == (det - k * dr) * q,
            a3 == (cof - k2 * cr) * 1_000_000_000_000_000_000,
            rq == cof * 1_000_000_000_000_000_000 - det * q,
            k == k2 * 1_000_000_000,
    ;
    lemma_product_within(k, rp, k, size - 1);
    lemma_product_within(e2, q, k - 1, b);
    lemma_product_within(e1, 1_000_000_000_000_000_000, k2 - 1, 1_000_000_000_000_000_000);
    let ks = k * size;
    assert(k * (size - 1) == ks - k && (k - 1) * b <= k * b && (k2 - 1)
        * 1_000_000_000_000_000_000 <= k * 1_000_000_000 && magnitude_of(det) <= ks + k - 1)
        by (nonlinear_arith)
        requires
            ks == k * size,
            k == k2 * 1_000_000_000,
            k2 > 0,
            b >= 0,
            size == magnitude_of(dr),
            within(det - k * dr, k - 1),
    ;
    assert(within(main, 2 * ks + k * b + k * 1_000_000_000));
    assert(2 * ks + k * b + k * 1_000_000_000 <= 9_999 * ks) by (nonlinear_arith)
        requires
            ks == k * size,
            k > 0,
            b + 1_000_000_000 <= 9_997 * size,
    ;
    assert(within(gap, 9_999)) by (nonlinear_arith)
        requires
            within(main, 9_999 * ks),
            main == (k * dr) * gap,
            ks == k * size,
            size == magnitude_of(dr),
            k > 0,
            dr != 0,
    ;
}

/// The quotient of `n` by `d`, rounded toward zero: `d` times it falls
/// short of `n` by less than `d`.
pub proof fn lemma_quotient(n: int, d: int)
    requires
        d != 0,
    ensures
        within(n - d * quot(n, d), magnitude_of(d) - 1),
        magnitude_of(quot(n, d)) <= magnitude_of(n),
{
    let a = magnitude_of(n);
    let b = magnitude_of(d);
    let k = a / b;
    assert(b * k <= a < b * k + b && k >= 0) by (nonlinear_arith)
        requires
            b > 0,
            a >= 0,
            k == a / b,
    ;
    assert(b * k >= k) by (nonlinear_arith)
        requires
            b >= 1,
            k >= 0,
    ;
    let q = quot(n, d);
    if n >= 0 {
        assert(d * q == b * k) by (nonlinear_arith)
            requires
                (d == b && q == k) || (d == -b && q == -k),
        ;
    } else {
        assert(d * q == -(b * k)) by (nonlinear_arith)
            requires
                (d == b && q == -k) || (d == -b && q == k),
        ;
    }
}

/// An unrounded cofactor of a grid of four rows is the cofactor of its raw
/// rows.
pub proof fn lemma_exact_cofactor(g: Grid, j: int, k: int)
    requires
        is_square(g, 4),
        0 <= j < 4,
        0 <= k < 4,
    ensures
        exact_cofactor(g, j, k) == cofactor4(raw_rows(g), j, k),
        exact_det(g) == det_rows(raw_rows(g)),
{
    let m = crate::matrices::exact_minor(g, j, k);
    assert(1 * m == m && -1 * m == -m);
}

/// An entry of the inverse that has not saturated: the determinant times
/// it falls short of the cofactor times `SCALE` squared by less than the
/// determinant.
proof fn lemma_inverse_part(g: Grid, j: int, k: int, bound: int)
    requires
        is_square(g, 4),
        is_invertible(g),
        0 <= j < 4,
        0 <= k < 4,
        bound < 0x7fff_ffff_ffff_ffff,
        within(grid_inverse(g)[k][j]@, bound),
    ensures
        within(
            1_000_000_000_000_000_000 * cofactor4(raw_rows(g), j, k) - det_rows(raw_rows(g))
                * grid_inverse(g)[k][j]@,
            magnitude_of(det_rows(raw_rows(g))) - 1,
        ),
{
    lemma_exact_cofactor(g, j, k);
    let x = cofactor4(raw_rows(g), j, k);
    assert(x * 1_000_000_000_000_000_000 == 1_000_000_000_000_000_000 * x) by (nonlinear_arith);
    lemma_quotient(1_000_000_000_000_000_000 * x, det_rows(raw_rows(g)));
}

/// One term of the determinant times an unrounded entry of a product with
/// the inverse.
proof fn lemma_exact_term(d: int, y: int, q: int, x: int, rho: int)
    requires
        rho == 1_000_000_000_000_000_000 * x - d * q,
        within(rho, magnitude_of(d) - 1),
        d != 0,
    ensures
        d * (y * q) == 1_000_000_000_000_000_000 * (y * x) - y * rho,
        y * q == q * y,
        within(y * rho, magnitude_of(y) * (magnitude_of(d) - 1)),
{
    assert(d * (y * q) == y * (d * q) && y * q == q * y) by (nonlinear_arith);
    assert(y * (1_000_000_000_000_000_000 * x - rho) == 1_000_000_000_000_000_000 * (y * x) - y
        * rho) by (nonlinear_arith);
    lemma_product_within(y, rho, magnitude_of(y), magnitude_of(d) - 1);
}

/// The four terms together: the unrounded entry is as far from the
/// identity's as the four entries are large, at most.
proof fn lemma_exact_sum(
    d: int,
    total: int,
    target: int,
    main: int,
    rest: int,
    size: int,
)
    requires
        d != 0,
        size >= 0,
        d * total == 1_000_000_000_000_000_000 * main - rest,
        (target == 1_000_000_000_000_000_000 && main == d) || (target == 0 && main == 0),
        within(rest, size * (magnitude_of(d) - 1)),
    ensures
        within(total - target, size),
{
    assert(d * (total - target) == d * total - d * target) by (nonlinear_arith);
    if target == 0 {
        assert(d * target == 0) by (nonlinear_arith)
            requires
                target == 0,
        ;
    } else {
        assert(d * target == 1_000_000_000_000_000_000 * d) by (nonlinear_arith)
            requires
                target == 1_000_000_000_000_000_000,
        ;
    }
    assert(within(total - target, size)) by (nonlinear_arith)
        requires
            d != 0,
            size >= 0,
            within(d * (total - target), size * (magnitude_of(d) - 1)),
    ;
}

/// The sum of the magnitudes of row `i` of `w`.
pub open spec fn row_size(w: Seq<Seq<int>>, i: int) -> int {
    magnitude_of(w[i][0]) + magnitude_of(w[i][1]) + magnitude_of(w[i][2]) + magnitude_of(w[i][3])
}

/// The sum of the magnitudes of column `j` of `w`.
pub open spec fn column_size(w: Seq<Seq<int>>, j: int) -> int {
    magnitude_of(w[0][j]) + magnitude_of(w[1][j]) + magnitude_of(w[2][j]) + magnitude_of(w[3][j])
}

/// The inverse has not saturated.
pub open spec fn is_unsaturated(g: Grid) -> bool {
    is_bounded_grid(g, 4, 0x7fff_ffff_ffff_fffe)
}

/// A matrix times its inverse, unrounded: an entry is as far from the
/// identity's as its row of the matrix is large, at most.
pub proof fn lemma_exact_right(g: Grid, i: int, j: int)
    requires
        is_square(g, 4),
        is_invertible(g),
        is_unsaturated(grid_inverse(g)),
        0 <= i < 4,
        0 <= j < 4,
    ensures
        within(
            exact_entry(raw_rows(g), raw_rows(grid_inverse(g)), i, j) - exact_identity(i, j),
            row_size(raw_rows(g), i),
        ),
{
    let w = raw_rows(g);
    let inv = grid_inverse(g);
    let d = det_rows(w);
    lemma_exact_cofactor(g, 0, 0);
    lemma_inverse_part(g, j, 0, 0x7fff_ffff_ffff_fffe);
    lemma_inverse_part(g, j, 1, 0x7fff_ffff_ffff_fffe);
    lemma_inverse_part(g, j, 2, 0x7fff_ffff_ffff_fffe);
    lemma_inverse_part(g, j, 3, 0x7fff_ffff_ffff_fffe);
    let x0 = cofactor4(w, j, 0);
    let x1 = cofactor4(w, j, 1);
    let x2 = cofactor4(w, j, 2);
    let x3 = cofactor4(w, j, 3);
    let q0 = inv[0][j]@;
    let q1 = inv[1][j]@;
    let q2 = inv[2][j]@;
    let q3 = inv[3][j]@;
    let rho0 = 1_000_000_000_000_000_000 * x0 - d * q0;
    let rho1 = 1_000_000_000_000_000_000 * x1 - d * q1;
    let rho2 = 1_000_000_000_000_000_000 * x2 - d * q2;
    let rho3 = 1_000_000_000_000_000_000 * x3 - d * q3;
    lemma_exact_term(d, w[i][0], q0, x0, rho0);
    lemma_exact_term(d, w[i][1], q1, x1, rho1);
    lemma_exact_term(d, w[i][2], q2, x2, rho2);
    lemma_exact_term(d, w[i][3], q3, x3, rho3);
    let total = exact_entry(w, raw_rows(inv), i, j);
    assert(total == w[i][0] * q0 + w[i][1] * q1 + w[i][2] * q2 + w[i][3] * q3);
    assert(d * total == d * (w[i][0] * q0) + d * (w[i][1] * q1) + d * (w[i][2] * q2) + d * (
    w[i][3] * q3)) by (nonlinear_arith)
        requires
            total == w[i][0] * q0 + w[i][1] * q1 + w[i][2] * q2 + w[i][3] * q3,
    ;
    lemma_adjugate(w, i, j);
    let main = row_by_cofactors(w, i, j);
    assert(main == w[i][0] * x0 + w[i][1] * x1 + w[i][2] * x2 + w[i][3] * x3);
    let size = row_size(w, i);
    let less = magnitude_of(d) - 1;
    assert(size * less == magnitude_of(w[i][0]) * less + magnitude_of(w[i][1]) * less
        + magnitude_of(w[i][2]) * less + magnitude_of(w[i][3]) * less) by (nonlinear_arith)
        requires
            size == magnitude_of(w[i][0]) + magnitude_of(w[i][1]) + magnitude_of(w[i][2])
                + magnitude_of(w[i][3]),
    ;
    lemma_exact_sum(
        d,
        total,
        exact_identity(i, j),
        main,
        w[i][0] * rho0 + w[i][1] * rho1 + w[i][2] * rho2 + w[i][3] * rho3,
        size,
    );
}

/// The inverse times the matrix, unrounded: an entry is as far from the
/// identity's as its column of the matrix is large, at most.
pub proof fn lemma_exact_left(g: Grid, i: int, j: int)
    requires
        is_square(g, 4),
        is_invertible(g),
        is_unsaturated(grid_inverse(g)),
        0 <= i < 4,
        0 <= j < 4,
    ensures
        within(
            exact_entry(raw_rows(grid_inverse(g)), raw_rows(g), i, j) - exact_identity(i, j),
            column_size(raw_rows(g), j),
        ),
{
    let w = raw_rows(g);
    let inv = grid_inverse(g);
    let d = det_rows(w);
    lemma_exact_cofactor(g, 0, 0);
    lemma_inverse_part(g, 0, i, 0x7fff_ffff_ffff_fffe);
    lemma_inverse_part(g, 1, i, 0x7fff_ffff_ffff_fffe);
    lemma_inverse_part(g, 2, i, 0x7fff_ffff_ffff_fffe);
    lemma_inverse_part(g, 3, i, 0x7fff_ffff_ffff_fffe);
    let x0 = cofactor4(w, 0, i);
    let x1 = cofactor4(w, 1, i);
    let x2 = cofactor4(w, 2, i);
    let x3 = cofactor4(w, 3, i);
    let q0 = inv[i][0]@;
    let q1 = inv[i][1]@;
    let q2 = inv[i][2]@;
    let q3 = inv[i][3]@;
    let rho0 = 1_000_000_000_000_000_000 * x0 - d * q0;
    let rho1 = 1_000_000_000_000_000_000 * x1 - d * q1;
    let rho2 = 1_000_000_000_000_000_000 * x2 - d * q2;
    let rho3 = 1_000_000_000_000_000_000 * x3 - d * q3;
    lemma_exact_term(d, w[0][j], q0, x0, rho0);
    lemma_exact_term(d, w[1][j], q1, x1, rho1);
    lemma_exact_term(d, w[2][j], q2, x2, rho2);
    lemma_exact_term(d, w[3][j], q3, x3, rho3);
    let total = exact_entry(raw_rows(inv), w, i, j);
    assert(total == q0 * w[0][j] + q1 * w[1][j] + q2 * w[2][j] + q3 * w[3][j]);
    assert(d * total == d * (w[0][j] * q0) + d * (w[1][j] * q1) + d * (w[2][j] * q2) + d * (
    w[3][j] * q3)) by (nonlinear_arith)
        requires
            total == w[0][j] * q0 + w[1][j] * q1 + w[2][j] * q2 + w[3][j] * q3,
    ;
    lemma_adjugate_columns(w, j, i);
    let main = w[0][j] * x0 + w[1][j] * x1 + w[2][j] * x2 + w[3][j] * x3;
    let size = column_size(w, j);
    let less = magnitude_of(d) - 1;
    assert(size * less == magnitude_of(w[0][j]) * less + magnitude_of(w[1][j]) * less
        + magnitude_of(w[2][j]) * less + magnitude_of(w[3][j]) * less) by (nonlinear_arith)
        requires
            size == magnitude_of(w[0][j]) + magnitude_of(w[1][j]) + magnitude_of(w[2][j])
                + magnitude_of(w[3][j]),
    ;
    lemma_exact_sum(
        d,
        total,
        exact_identity(i, j),
        main,
        w[0][j] * rho0 + w[1][j] * rho1 + w[2][j] * rho2 + w[3][j] * rho3,
        size,
    );
}

/// An entry of the rounded product of two bounded grids is the unrounded
/// entry over `SCALE`, less four roundings; so where the unrounded entry is
/// within `e` of the identity's, the rounded one is within a billionth of
/// `e`, and four counts more.
proof fn lemma_rounded_entry(x: Grid, y: Grid, i: int, j: int, a: int, b: int, e: int)
    requires
        is_bounded_grid(x, 4, a),
        is_bounded_grid(y, 4, b),
        0 <= a,
        0 <= b,
        a * b <= 2_000_000_000_000_000_000_000_000_000,
        0 <= i < 4,
        0 <= j < 4,
        within(exact_entry(raw_rows(x), raw_rows(y), i, j) - exact_identity(i, j), e),
    ensures
        magnitude_of(grid_mul(x, y)[i][j]@ - grid_identity(4)[i][j]@) * 1_000_000_000 <= e + 4
            * 1_000_000_000,
{
    assert(SCALE == 1_000_000_000);
    lemma_mul_bounded(x[i][0], y[0][j], a, b);
    lemma_mul_bounded(x[i][1], y[1][j], a, b);
    lemma_mul_bounded(x[i][2], y[2][j], a, b);
    lemma_mul_bounded(x[i][3], y[3][j], a, b);
    let t0 = x[i][0].spec_mul(y[0][j]);
    let t1 = x[i][1].spec_mul(y[1][j]);
    let t2 = x[i][2].spec_mul(y[2][j]);
    let t3 = x[i][3].spec_mul(y[3][j]);
    assert(grid_dot(x, y, i, j, 0) == Scalar::spec_zero());
    assert(grid_dot(x, y, i, j, 1) == grid_dot(x, y, i, j, 0).spec_add(t0));
    assert(grid_dot(x, y, i, j, 2) == grid_dot(x, y, i, j, 1).spec_add(t1));
    assert(grid_dot(x, y, i, j, 3) == grid_dot(x, y, i, j, 2).spec_add(t2));
    assert(grid_dot(x, y, i, j, 4) == grid_dot(x, y, i, j, 3).spec_add(t3));
    assert(grid_mul(x, y)[i][j]@ == t0@ + t1@ + t2@ + t3@);
}

/// The rounded product of two scalars whose product keeps within two
/// billion units.
proof fn lemma_mul_bounded(x: Scalar, y: Scalar, a: int, b: int)
    requires
        within(x@, a),
        within(y@, b),
        0 <= a,
        0 <= b,
        a * b <= 2_000_000_000_000_000_000_000_000_000,
    ensures
        within(x.spec_mul(y)@ * 1_000_000_000 - x@ * y@, 999_999_999),
        within(x.spec_mul(y)@, 2_000_000_000_000_000_000),
{
    assert(SCALE == 1_000_000_000);
    lemma_mul_exact(x, y, a, b);
}

/// A row of a bounded grid times a bounded tuple: `SCALE` times the result
/// is the unrounded sum of products, less four roundings.
proof fn lemma_row_product(g: Grid, a: int, k: int, p: Tuple, c: int)
    requires
        is_bounded_grid(g, 4, a),
        0 <= k < 4,
        0 <= a,
        0 <= c,
        a * c <= 625_000_000_000_000_000_000,
        is_bounded_tuple(p, c),
    ensures
        within(
            raw_rows(g)[k][0] * p.0@ + raw_rows(g)[k][1] * p.1@ + raw_rows(g)[k][2] * p.2@
                + raw_rows(g)[k][3] * p.3@ - 1_000_000_000 * row_apply(g[k], p)@,
            3_999_999_996,
        ),
        within(row_apply(g[k], p)@, 2_500_000_000_000),
{
    assert(SCALE == 1_000_000_000);
    lemma_mul_exact(g[k][0], p.0, a, c);
    lemma_mul_exact(g[k][1], p.1, a, c);
    lemma_mul_exact(g[k][2], p.2, a, c);
    lemma_mul_exact(g[k][3], p.3, a, c);
}

/// One term of the way back: the entry `q` of the inverse times the
/// component `y` of the moved tuple, rounded to `z`.
proof fn lemma_round_trip_term(q: int, y: int, z: int, exact: int, b: int)
    requires
        0 <= b,
        within(q, b),
        within(q * y - 1_000_000_000 * z, 999_999_999),
        within(exact - 1_000_000_000 * y, 3_999_999_996),
    ensures
        within(q * exact - 1_000_000_000 * (1_000_000_000 * z), 3_999_999_996 * b
            + 999_999_999_000_000_000),
{
    let tau = exact - 1_000_000_000 * y;
    assert(q * exact == 1_000_000_000 * (q * y) + q * tau) by (nonlinear_arith)
        requires
            tau == exact - 1_000_000_000 * y,
    ;
    lemma_product_within(q, tau, b, 3_999_999_996);
    assert(b * 3_999_999_996 == 3_999_999_996 * b) by (nonlinear_arith);
}

/// What one column of the inverse times the matrix, unrounded, adds to the
/// round trip.
proof fn lemma_round_trip_column(p: int, u: int, target: int, c: int, f: int)
    requires
        0 <= c,
        0 <= f,
        within(p, c),
        within(u - target, f),
    ensures
        within(u * p - target * p, f * c),
{
    assert(u * p - target * p == (u - target) * p) by (nonlinear_arith);
    lemma_product_within(u - target, p, f, c);
}

/// A component of the round trip is within the tolerance of the tuple's.
proof fn lemma_round_trip_component(g: Grid, p: Tuple, a: int, b: int, c: int, i: int)
    requires
        is_invertible(g),
        0 <= a <= 10_000_000_000_000,
        0 <= b <= 10_000_000_000_000,
        0 <= c <= 10_000_000_000_000,
        is_bounded_grid(g, 4, a),
        is_bounded_grid(grid_inverse(g), 4, b),
        is_bounded_tuple(p, c),
        is_round_trip_safe(a, b, c),
        0 <= i < 4,
    ensures
        within(row_apply(grid_inverse(g)[i], grid_apply(g, p))@ - component(p, i)@, 9_999),
{
    assert(SCALE == 1_000_000_000);
    assert(a * c >= 0) by (nonlinear_arith)
        requires
            a >= 0,
            c >= 0,
    ;
    let w = raw_rows(g);
    let inv = grid_inverse(g);
    let v = raw_rows(inv);
    let moved = grid_apply(g, p);
    lemma_row_product(g, a, 0, p, c);
    lemma_row_product(g, a, 1, p, c);
    lemma_row_product(g, a, 2, p, c);
    lemma_row_product(g, a, 3, p, c);
    let n0 = w[0][0] * p.0@ + w[0][1] * p.1@ + w[0][2] * p.2@ + w[0][3] * p.3@;
    let n1 = w[1][0] * p.0@ + w[1][1] * p.1@ + w[1][2] * p.2@ + w[1][3] * p.3@;
    let n2 = w[2][0] * p.0@ + w[2][1] * p.1@ + w[2][2] * p.2@ + w[2][3] * p.3@;
    let n3 = w[3][0] * p.0@ + w[3][1] * p.1@ + w[3][2] * p.2@ + w[3][3] * p.3@;
    let q0 = v[i][0];
    let q1 = v[i][1];
    let q2 = v[i][2];
    let q3 = v[i][3];
    assert(q0 == inv[i][0]@ && q1 == inv[i][1]@ && q2 == inv[i][2]@ && q3 == inv[i][3]@);
    lemma_mul_exact(inv[i][0], moved.0, 625_000_000_000, 2_500_000_000_000);
    lemma_mul_exact(inv[i][1], moved.1, 625_000_000_000, 2_500_000_000_000);
    lemma_mul_exact(inv[i][2], moved.2, 625_000_000_000, 2_500_000_000_000);
    lemma_mul_exact(inv[i][3], moved.3, 625_000_000_000, 2_500_000_000_000);
    let z0 = inv[i][0].spec_mul(moved.0)@;
    let z1 = inv[i][1].spec_mul(moved.1)@;
    let z2 = inv[i][2].spec_mul(moved.2)@;
    let z3 = inv[i][3].spec_mul(moved.3)@;
    let e = row_apply(inv[i], moved)@;
    assert(e == z0 + z1 + z2 + z3);
    lemma_round_trip_term(q0, moved.0@, z0, n0, b);
    lemma_round_trip_term(q1, moved.1@, z1, n1, b);
    lemma_round_trip_term(q2, moved.2@, z2, n2, b);
    lemma_round_trip_term(q3, moved.3@, z3, n3, b);
    lemma_four_terms(q0, w[0][0], p.0@, w[0][1], p.1@, w[0][2], p.2@, w[0][3], p.3@);
    lemma_four_terms(q1, w[1][0], p.0@, w[1][1], p.1@, w[1][2], p.2@, w[1][3], p.3@);
    lemma_four_terms(q2, w[2][0], p.0@, w[2][1], p.1@, w[2][2], p.2@, w[2][3], p.3@);
    lemma_four_terms(q3, w[3][0], p.0@, w[3][1], p.1@, w[3][2], p.2@, w[3][3], p.3@);
    let u0 = exact_entry(v, w, i, 0);
    let u1 = exact_entry(v, w, i, 1);
    let u2 = exact_entry(v, w, i, 2);
    let u3 = exact_entry(v, w, i, 3);
    lemma_four_factors(p.0@, q0, w[0][0], q1, w[1][0], q2, w[2][0], q3, w[3][0]);
    lemma_four_factors(p.1@, q0, w[0][1], q1, w[1][1], q2, w[2][1], q3, w[3][1]);
    lemma_four_factors(p.2@, q0, w[0][2], q1, w[1][2], q2, w[2][2], q3, w[3][2]);
    lemma_four_factors(p.3@, q0, w[0][3], q1, w[1][3], q2, w[2][3], q3, w[3][3]);
    let through = q0 * n0 + q1 * n1 + q2 * n2 + q3 * n3;
    assert(through == u0 * p.0@ + u1 * p.1@ + u2 * p.2@ + u3 * p.3@);
    lemma_exact_left(g, i, 0);
    lemma_exact_left(g, i, 1);
    lemma_exact_left(g, i, 2);
    lemma_exact_left(g, i, 3);
    let f = 4 * a;
    lemma_round_trip_column(p.0@, u0, exact_identity(i, 0), c, f);
    lemma_round_trip_column(p.1@, u1, exact_identity(i, 1), c, f);
    lemma_round_trip_column(p.2@, u2, exact_identity(i, 2), c, f);
    lemma_round_trip_column(p.3@, u3, exact_identity(i, 3), c, f);
    assert(f * c == 4 * (a * c)) by (nonlinear_arith)
        requires
            f == 4 * a,
    ;
    let target = component(p, i)@;
    let kept = exact_identity(i, 0) * p.0@ + exact_identity(i, 1) * p.1@ + exact_identity(i, 2)
        * p.2@ + exact_identity(i, 3) * p.3@;
    assert(kept == 1_000_000_000_000_000_000 * target) by (nonlinear_arith)
        requires
            0 <= i < 4,
            kept == exact_identity(i, 0) * p.0@ + exact_identity(i, 1) * p.1@ + exact_identity(
                i,
                2,
            ) * p.2@ + exact_identity(i, 3) * p.3@,
            target == component(p, i)@,
    ;
    assert(within(through - kept, 16 * (a * c)));
    assert(within(through - 1_000_000_000_000_000_000 * e, 15_999_999_984 * b
        + 3_999_999_996_000_000_000));
}

/// The unrounded quotient behind an entry of the inverse.
pub open spec fn exact_quotient(g: Grid, i: int, j: int) -> int {
    quot(exact_cofactor(g, j, i) * 1_000_000_000_000_000_000, exact_det(g))
}

/// The inverse before its entries are brought into the range of a scalar.
pub open spec fn free_inverse(g: Grid) -> Seq<Seq<int>> {
    Seq::new(4, |i: int| Seq::new(4, |j: int| exact_quotient(g, i, j)))
}

/// The column `l` of the inverse of the inverse, before it is brought into
/// range, is within 3300 billionths of the matrix's.
proof fn lemma_twice_column(g: Grid, l: int)
    requires
        is_invertible(g),
        is_invertible(grid_inverse(g)),
        is_bounded_grid(g, 4, 10_000_000_000),
        is_bounded_grid(grid_inverse(g), 4, 10_000_000_000),
        0 <= l < 4,
    ensures
        forall|i: int|
            0 <= i < 4 ==> within(
                #[trigger] free_inverse(grid_inverse(g))[i][l] - raw_rows(g)[i][l],
                3_300,
            ),
        forall|i: int| 0 <= i < 4 ==> within(#[trigger] raw_rows(g)[i][l], 10_000_000_000),
{
    let n = grid_inverse(g);
    let m = raw_rows(g);
    let k = free_inverse(n);
    lemma_twice_entry(g, 0, l);
    lemma_twice_entry(g, 1, l);
    lemma_twice_entry(g, 2, l);
    lemma_twice_entry(g, 3, l);
    assert(m[0][l] == g[0][l]@ && m[1][l] == g[1][l]@ && m[2][l] == g[2][l]@ && m[3][l]
        == g[3][l]@);
    lemma_twice_sum(
        k[0][l],
        k[1][l],
        k[2][l],
        k[3][l],
        m[0][l],
        m[1][l],
        m[2][l],
        m[3][l],
    );
}

/// Four entries, each within a bound that holds the four together, are
/// each within 3300 of their counterparts.
proof fn lemma_twice_sum(k0: int, k1: int, k2: int, k3: int, m0: int, m1: int, m2: int, m3: int)
    requires
        within(m0, 10_000_000_000),
        within(m1, 10_000_000_000),
        within(m2, 10_000_000_000),
        within(m3, 10_000_000_000),
        1_000_000_000_000_000_000 * magnitude_of(k0 - m0) <= 1_600_000_000_000_000_000_000
            + 40_000_000_000 * (magnitude_of(k0) + magnitude_of(k1) + magnitude_of(k2)
            + magnitude_of(k3)),
        1_000_000_000_000_000_000 * magnitude_of(k1 - m1) <= 1_600_000_000_000_000_000_000
            + 40_000_000_000 * (magnitude_of(k0) + magnitude_of(k1) + magnitude_of(k2)
            + magnitude_of(k3)),
        1_000_000_000_000_000_000 * magnitude_of(k2 - m2) <= 1_600_000_000_000_000_000_000
            + 40_000_000_000 * (magnitude_of(k0) + magnitude_of(k1) + magnitude_of(k2)
            + magnitude_of(k3)),
        1_000_000_000_000_000_000 * magnitude_of(k3 - m3) <= 1_600_000_000_000_000_000_000
            + 40_000_000_000 * (magnitude_of(k0) + magnitude_of(k1) + magnitude_of(k2)
            + magnitude_of(k3)),
    ensures
        within(k0 - m0, 3_300),
        within(k1 - m1, 3_300),
        within(k2 - m2, 3_300),
        within(k3 - m3, 3_300),
{
}

/// One entry of the inverse of the inverse, before it is brought into
/// range, against the matrix's: `SCALE` squared times their difference is
/// at most `16 * 10^20` and four times ten to the tenth for each unit of
/// the column of the inverse of the inverse.
proof fn lemma_twice_entry(g: Grid, i: int, l: int)
    requires
        is_invertible(g),
        is_invertible(grid_inverse(g)),
        is_bounded_grid(g, 4, 10_000_000_000),
        is_bounded_grid(grid_inverse(g), 4, 10_000_000_000),
        0 <= i < 4,
        0 <= l < 4,
    ensures
        ({
            let k = free_inverse(grid_inverse(g));
            1_000_000_000_000_000_000 * magnitude_of(k[i][l] - raw_rows(g)[i][l])
                <= 1_600_000_000_000_000_000_000 + 40_000_000_000 * (magnitude_of(k[0][l])
                + magnitude_of(k[1][l]) + magnitude_of(k[2][l]) + magnitude_of(k[3][l]))
        }),
{
    let n = grid_inverse(g);
    let k = free_inverse(n);
    let m = raw_rows(g);
    let v = raw_rows(n);
    assert(is_unsaturated(n));
    lemma_exact_right(g, i, 0);
    lemma_exact_right(g, i, 1);
    lemma_exact_right(g, i, 2);
    lemma_exact_right(g, i, 3);
    assert(row_size(m, i) <= 40_000_000_000) by {
        assert(m[i][0] == g[i][0]@ && m[i][1] == g[i][1]@ && m[i][2] == g[i][2]@ && m[i][3]
            == g[i][3]@);
    }
    lemma_exact_right_free(n, 0, l);
    lemma_exact_right_free(n, 1, l);
    lemma_exact_right_free(n, 2, l);
    lemma_exact_right_free(n, 3, l);
    lemma_associative(m, v, k, i, l);
    let f0 = exact_entry(m, v, i, 0) - exact_identity(i, 0);
    let f1 = exact_entry(m, v, i, 1) - exact_identity(i, 1);
    let f2 = exact_entry(m, v, i, 2) - exact_identity(i, 2);
    let f3 = exact_entry(m, v, i, 3) - exact_identity(i, 3);
    lemma_near(exact_entry(m, v, i, 0), exact_identity(i, 0), k[0][l], 40_000_000_000);
    lemma_near(exact_entry(m, v, i, 1), exact_identity(i, 1), k[1][l], 40_000_000_000);
    lemma_near(exact_entry(m, v, i, 2), exact_identity(i, 2), k[2][l], 40_000_000_000);
    lemma_near(exact_entry(m, v, i, 3), exact_identity(i, 3), k[3][l], 40_000_000_000);
    let left_kept = exact_identity(i, 0) * k[0][l] + exact_identity(i, 1) * k[1][l]
        + exact_identity(i, 2) * k[2][l] + exact_identity(i, 3) * k[3][l];
    assert(left_kept == 1_000_000_000_000_000_000 * k[i][l]) by (nonlinear_arith)
        requires
            0 <= i < 4,
            left_kept == exact_identity(i, 0) * k[0][l] + exact_identity(i, 1) * k[1][l]
                + exact_identity(i, 2) * k[2][l] + exact_identity(i, 3) * k[3][l],
    ;
    assert(within(m[i][0], 10_000_000_000) && within(m[i][1], 10_000_000_000) && within(
        m[i][2],
        10_000_000_000,
    ) && within(m[i][3], 10_000_000_000));
    lemma_near_left(m[i][0], exact_entry(v, k, 0, l), exact_identity(0, l));
    lemma_near_left(m[i][1], exact_entry(v, k, 1, l), exact_identity(1, l));
    lemma_near_left(m[i][2], exact_entry(v, k, 2, l), exact_identity(2, l));
    lemma_near_left(m[i][3], exact_entry(v, k, 3, l), exact_identity(3, l));
    let right_kept = m[i][0] * exact_identity(0, l) + m[i][1] * exact_identity(1, l) + m[i][2]
        * exact_identity(2, l) + m[i][3] * exact_identity(3, l);
    assert(right_kept == 1_000_000_000_000_000_000 * m[i][l]) by (nonlinear_arith)
        requires
            0 <= l < 4,
            right_kept == m[i][0] * exact_identity(0, l) + m[i][1] * exact_identity(1, l)
                + m[i][2] * exact_identity(2, l) + m[i][3] * exact_identity(3, l),
    ;
}

/// An entry near the identity's, times a number: the identity's part and a
/// rest no larger than the number times the distance.
proof fn lemma_near(u: int, target: int, k: int, f: int)
    requires
        0 <= f,
        within(u - target, f),
    ensures
        u * k == target * k + (u - target) * k,
        within((u - target) * k, f * magnitude_of(k)),
{
    assert(u * k == target * k + (u - target) * k) by (nonlinear_arith);
    lemma_product_within(u - target, k, f, magnitude_of(k));
}

/// An entry of at most ten units times an entry within forty units of the
/// identity's.
proof fn lemma_near_left(y: int, u: int, target: int)
    requires
        within(y, 10_000_000_000),
        within(u - target, 40_000_000_000),
    ensures
        y * u == y * target + y * (u - target),
        within(y * (u - target), 400_000_000_000_000_000_000),
{
    assert(y * u == y * target + y * (u - target)) by (nonlinear_arith);
    lemma_product_within(y, u - target, 10_000_000_000, 40_000_000_000);
}

/// The product of three matrices, unrounded, taken either way: row `i` of
/// `x * y` times column `l` of `z` is row `i` of `x` times column `l` of
/// `y * z`.
pub proof fn lemma_associative(
    x: Seq<Seq<int>>,
    y: Seq<Seq<int>>,
    z: Seq<Seq<int>>,
    i: int,
    l: int,
)
    ensures
        exact_entry(x, y, i, 0) * z[0][l] + exact_entry(x, y, i, 1) * z[1][l] + exact_entry(
            x,
            y,
            i,
            2,
        ) * z[2][l] + exact_entry(x, y, i, 3) * z[3][l] == x[i][0] * exact_entry(y, z, 0, l)
            + x[i][1] * exact_entry(y, z, 1, l) + x[i][2] * exact_entry(y, z, 2, l) + x[i][3]
            * exact_entry(y, z, 3, l),
{
    lemma_four_factors(z[0][l], x[i][0], y[0][0], x[i][1], y[1][0], x[i][2], y[2][0], x[i][3], y[3][0]);
    lemma_four_factors(z[1][l], x[i][0], y[0][1], x[i][1], y[1][1], x[i][2], y[2][1], x[i][3], y[3][1]);
    lemma_four_factors(z[2][l], x[i][0], y[0][2], x[i][1], y[1][2], x[i][2], y[2][2], x[i][3], y[3][2]);
    lemma_four_factors(z[3][l], x[i][0], y[0][3], x[i][1], y[1][3], x[i][2], y[2][3], x[i][3], y[3][3]);
    lemma_four_terms(x[i][0], y[0][0], z[0][l], y[0][1], z[1][l], y[0][2], z[2][l], y[0][3], z[3][l]);
    lemma_four_terms(x[i][1], y[1][0], z[0][l], y[1][1], z[1][l], y[1][2], z[2][l], y[1][3], z[3][l]);
    lemma_four_terms(x[i][2], y[2][0], z[0][l], y[2][1], z[1][l], y[2][2], z[2][l], y[2][3], z[3][l]);
    lemma_four_terms(x[i][3], y[3][0], z[0][l], y[3][1], z[1][l], y[3][2], z[2][l], y[3][3], z[3][l]);
}

/// A matrix times the unrounded quotients of its inverse, before they are
/// brought into range: an entry is as far from the identity's as its row of
/// the matrix is large, at most.
proof fn lemma_exact_right_free(g: Grid, i: int, j: int)
    requires
        is_bounded_grid(g, 4, 10_000_000_000),
        is_invertible(g),
        0 <= i < 4,
        0 <= j < 4,
    ensures
        within(
            exact_entry(raw_rows(g), free_inverse(g), i, j) - exact_identity(i, j),
            40_000_000_000,
        ),
{
    let k = free_inverse(g);
    let w = raw_rows(g);
    let d = det_rows(w);
    lemma_exact_cofactor(g, j, 0);
    lemma_exact_cofactor(g, j, 1);
    lemma_exact_cofactor(g, j, 2);
    lemma_exact_cofactor(g, j, 3);
    let x0 = cofactor4(w, j, 0);
    let x1 = cofactor4(w, j, 1);
    let x2 = cofactor4(w, j, 2);
    let x3 = cofactor4(w, j, 3);
    assert(x0 * 1_000_000_000_000_000_000 == 1_000_000_000_000_000_000 * x0 && x1
        * 1_000_000_000_000_000_000 == 1_000_000_000_000_000_000 * x1 && x2
        * 1_000_000_000_000_000_000 == 1_000_000_000_000_000_000 * x2 && x3
        * 1_000_000_000_000_000_000 == 1_000_000_000_000_000_000 * x3) by (nonlinear_arith);
    lemma_quotient(1_000_000_000_000_000_000 * x0, d);
    lemma_quotient(1_000_000_000_000_000_000 * x1, d);
    lemma_quotient(1_000_000_000_000_000_000 * x2, d);
    lemma_quotient(1_000_000_000_000_000_000 * x3, d);
    let q0 = k[0][j];
    let q1 = k[1][j];
    let q2 = k[2][j];
    let q3 = k[3][j];
    lemma_exact_term(d, w[i][0], q0, x0, 1_000_000_000_000_000_000 * x0 - d * q0);
    lemma_exact_term(d, w[i][1], q1, x1, 1_000_000_000_000_000_000 * x1 - d * q1);
    lemma_exact_term(d, w[i][2], q2, x2, 1_000_000_000_000_000_000 * x2 - d * q2);
    lemma_exact_term(d, w[i][3], q3, x3, 1_000_000_000_000_000_000 * x3 - d * q3);
    let total = exact_entry(w, k, i, j);
    assert(d * total == d * (w[i][0] * q0) + d * (w[i][1] * q1) + d * (w[i][2] * q2) + d * (
    w[i][3] * q3)) by (nonlinear_arith)
        requires
            total == w[i][0] * q0 + w[i][1] * q1 + w[i][2] * q2 + w[i][3] * q3,
    ;
    lemma_adjugate(w, i, j);
    let main = row_by_cofactors(w, i, j);
    assert(main == w[i][0] * x0 + w[i][1] * x1 + w[i][2] * x2 + w[i][3] * x3);
    let size = row_size(w, i);
    assert(size <= 40_000_000_000) by {
        assert(w[i][0] == g[i][0]@ && w[i][1] == g[i][1]@ && w[i][2] == g[i][2]@ && w[i][3]
            == g[i][3]@);
    }
    let less = magnitude_of(d) - 1;
    assert(size * less == magnitude_of(w[i][0]) * less + magnitude_of(w[i][1]) * less
        + magnitude_of(w[i][2]) * less + magnitude_of(w[i][3]) * less) by (nonlinear_arith)
        requires
            size == magnitude_of(w[i][0]) + magnitude_of(w[i][1]) + magnitude_of(w[i][2])
                + magnitude_of(w[i][3]),
    ;
    lemma_exact_sum(
        d,
        total,
        exact_identity(i, j),
        main,
        w[i][0] * (1_000_000_000_000_000_000 * x0 - d * q0) + w[i][1] * (1_000_000_000_000_000_000
            * x1 - d * q1) + w[i][2] * (1_000_000_000_000_000_000 * x2 - d * q2) + w[i][3] * (
        1_000_000_000_000_000_000 * x3 - d * q3),
        size,
    );
}

/// A matrix of three rows times its inverse, and the inverse times the
/// matrix, are the identity, within the tolerance.
///
/// This holds for every invertible three-by-three matrix with entries of
/// magnitude at most two thousand whose inverse has entries of magnitude
/// at most a million.
pub proof fn law_inverse3(m: Matrix<3>)
    requires
        is_invertible(m@),
        is_bounded_matrix(m, 2_000 * SCALE),
        is_bounded_grid(grid_inverse(m@), 3, 1_000_000 * SCALE),
    ensures
        grid_approx_eq(grid_mul(m@, grid_inverse(m@)), grid_identity(3)),
        grid_approx_eq(grid_mul(grid_inverse(m@), m@), grid_identity(3)),
{
    assert(SCALE == 1_000_000_000);
    let g = m@;
    let inv = grid_inverse(g);
    let right = grid_mul(g, inv);
    assert forall|i: int, j: int| 0 <= i < right.len() && 0 <= j < right.len() implies (
    #[trigger] right[i][j]).spec_approx_eq(grid_identity(3)[i][j]) by {
        lemma_right3(g, i, j);
    }
    let left = grid_mul(inv, g);
    assert forall|i: int, j: int| 0 <= i < left.len() && 0 <= j < left.len() implies (
    #[trigger] left[i][j]).spec_approx_eq(grid_identity(3)[i][j]) by {
        lemma_left3(g, i, j);
    }
}

/// An entry of the product of a grid of three rows with its inverse is
/// within 6003 billionths of the identity's.
proof fn lemma_right3(g: Grid, i: int, j: int)
    requires
        is_invertible(g),
        is_bounded_grid(g, 3, 2_000_000_000_000),
        is_bounded_grid(grid_inverse(g), 3, 1_000_000_000_000_000),
        0 <= i < 3,
        0 <= j < 3,
    ensures
        within(grid_mul(g, grid_inverse(g))[i][j]@ - grid_identity(3)[i][j]@, 6_003),
{
    assert(SCALE == 1_000_000_000);
    let w = raw_rows(g);
    let inv = grid_inverse(g);
    let d = exact_det(g);
    let x0 = cofactor3(w, j, 0);
    let x1 = cofactor3(w, j, 1);
    let x2 = cofactor3(w, j, 2);
    lemma_exact_cofactor3(g, j, 0);
    lemma_exact_cofactor3(g, j, 1);
    lemma_exact_cofactor3(g, j, 2);
    assert(x0 * 1_000_000_000_000_000_000 == 1_000_000_000_000_000_000 * x0 && x1
        * 1_000_000_000_000_000_000 == 1_000_000_000_000_000_000 * x1 && x2
        * 1_000_000_000_000_000_000 == 1_000_000_000_000_000_000 * x2) by (nonlinear_arith);
    lemma_quotient(1_000_000_000_000_000_000 * x0, d);
    lemma_quotient(1_000_000_000_000_000_000 * x1, d);
    lemma_quotient(1_000_000_000_000_000_000 * x2, d);
    let q0 = inv[0][j]@;
    let q1 = inv[1][j]@;
    let q2 = inv[2][j]@;
    let rho0 = 1_000_000_000_000_000_000 * x0 - d * q0;
    let rho1 = 1_000_000_000_000_000_000 * x1 - d * q1;
    let rho2 = 1_000_000_000_000_000_000 * x2 - d * q2;
    lemma_exact_term(d, w[i][0], q0, x0, rho0);
    lemma_exact_term(d, w[i][1], q1, x1, rho1);
    lemma_exact_term(d, w[i][2], q2, x2, rho2);
    let total = w[i][0] * q0 + w[i][1] * q1 + w[i][2] * q2;
    assert(d * total == d * (w[i][0] * q0) + d * (w[i][1] * q1) + d * (w[i][2] * q2))
        by (nonlinear_arith)
        requires
            total == w[i][0] * q0 + w[i][1] * q1 + w[i][2] * q2,
    ;
    lemma_adjugate3(w, i, j);
    let main = w[i][0] * x0 + w[i][1] * x1 + w[i][2] * x2;
    let size = magnitude_of(w[i][0]) + magnitude_of(w[i][1]) + magnitude_of(w[i][2]);
    let less = magnitude_of(d) - 1;
    assert(size * less == magnitude_of(w[i][0]) * less + magnitude_of(w[i][1]) * less
        + magnitude_of(w[i][2]) * less) by (nonlinear_arith)
        requires
            size == magnitude_of(w[i][0]) + magnitude_of(w[i][1]) + magnitude_of(w[i][2]),
    ;
    let target = if i == j {
        1_000_000_000_000_000_000int
    } else {
        0
    };
    lemma_exact_sum(
        d,
        total,
        target,
        main,
        w[i][0] * rho0 + w[i][1] * rho1 + w[i][2] * rho2,
        size,
    );
    lemma_mul_bounded(g[i][0], inv[0][j], 2_000_000_000_000, 1_000_000_000_000_000);
    lemma_mul_bounded(g[i][1], inv[1][j], 2_000_000_000_000, 1_000_000_000_000_000);
    lemma_mul_bounded(g[i][2], inv[2][j], 2_000_000_000_000, 1_000_000_000_000_000);
    let t0 = g[i][0].spec_mul(inv[0][j]);
    let t1 = g[i][1].spec_mul(inv[1][j]);
    let t2 = g[i][2].spec_mul(inv[2][j]);
    assert(grid_dot(g, inv, i, j, 0) == Scalar::spec_zero());
    assert(grid_dot(g, inv, i, j, 1) == grid_dot(g, inv, i, j, 0).spec_add(t0));
    assert(grid_dot(g, inv, i, j, 2) == grid_dot(g, inv, i, j, 1).spec_add(t1));
    assert(grid_dot(g, inv, i, j, 3) == grid_dot(g, inv, i, j, 2).spec_add(t2));
    assert(grid_mul(g, inv)[i][j]@ == t0@ + t1@ + t2@);
}

/// An entry of the product of the inverse of a grid of three rows with the
/// grid is within 6003 billionths of the identity's.
proof fn lemma_left3(g: Grid, i: int, j: int)
    requires
        is_invertible(g),
        is_bounded_grid(g, 3, 2_000_000_000_000),
        is_bounded_grid(grid_inverse(g), 3, 1_000_000_000_000_000),
        0 <= i < 3,
        0 <= j < 3,
    ensures
        within(grid_mul(grid_inverse(g), g)[i][j]@ - grid_identity(3)[i][j]@, 6_003),
{
    assert(SCALE == 1_000_000_000);
    let w = raw_rows(g);
    let inv = grid_inverse(g);
    let d = exact_det(g);
    let x0 = cofactor3(w, 0, i);
    let x1 = cofactor3(w, 1, i);
    let x2 = cofactor3(w, 2, i);
    lemma_exact_cofactor3(g, 0, i);
    lemma_exact_cofactor3(g, 1, i);
    lemma_exact_cofactor3(g, 2, i);
    assert(x0 * 1_000_000_000_000_000_000 == 1_000_000_000_000_000_000 * x0 && x1
        * 1_000_000_000_000_000_000 == 1_000_000_000_000_000_000 * x1 && x2
        * 1_000_000_000_000_000_000 == 1_000_000_000_000_000_000 * x2) by (nonlinear_arith);
    lemma_quotient(1_000_000_000_000_000_000 * x0, d);
    lemma_quotient(1_000_000_000_000_000_000 * x1, d);
    lemma_quotient(1_000_000_000_000_000_000 * x2, d);
    let q0 = inv[i][0]@;
    let q1 = inv[i][1]@;
    let q2 = inv[i][2]@;
    let rho0 = 1_000_000_000_000_000_000 * x0 - d * q0;
    let rho1 = 1_000_000_000_000_000_000 * x1 - d * q1;
    let rho2 = 1_000_000_000_000_000_000 * x2 - d * q2;
    lemma_exact_term(d, w[0][j], q0, x0, rho0);
    lemma_exact_term(d, w[1][j], q1, x1, rho1);
    lemma_exact_term(d, w[2][j], q2, x2, rho2);
    let total = w[0][j] * q0 + w[1][j] * q1 + w[2][j] * q2;
    assert(d * total == d * (w[0][j] * q0) + d * (w[1][j] * q1) + d * (w[2][j] * q2))
        by (nonlinear_arith)
        requires
            total == w[0][j] * q0 + w[1][j] * q1 + w[2][j] * q2,
    ;
    lemma_adjugate_columns3(w, j, i);
    let main = w[0][j] * x0 + w[1][j] * x1 + w[2][j] * x2;
    let size = magnitude_of(w[0][j]) + magnitude_of(w[1][j]) + magnitude_of(w[2][j]);
    let less = magnitude_of(d) - 1;
    assert(size * less == magnitude_of(w[0][j]) * less + magnitude_of(w[1][j]) * less
        + magnitude_of(w[2][j]) * less) by (nonlinear_arith)
        requires
            size == magnitude_of(w[0][j]) + magnitude_of(w[1][j]) + magnitude_of(w[2][j]),
    ;
    let target = if i == j {
        1_000_000_000_000_000_000int
    } else {
        0
    };
    lemma_exact_sum(
        d,
        total,
        target,
        main,
        w[0][j] * rho0 + w[1][j] * rho1 + w[2][j] * rho2,
        size,
    );
    lemma_mul_bounded(inv[i][0], g[0][j], 1_000_000_000_000_000, 2_000_000_000_000);
    lemma_mul_bounded(inv[i][1], g[1][j], 1_000_000_000_000_000, 2_000_000_000_000);
    lemma_mul_bounded(inv[i][2], g[2][j], 1_000_000_000_000_000, 2_000_000_000_000);
    let t0 = inv[i][0].spec_mul(g[0][j]);
    let t1 = inv[i][1].spec_mul(g[1][j]);
    let t2 = inv[i][2].spec_mul(g[2][j]);
    assert(grid_dot(inv, g, i, j, 0) == Scalar::spec_zero());
    assert(grid_dot(inv, g, i, j, 1) == grid_dot(inv, g, i, j, 0).spec_add(t0));
    assert(grid_dot(inv, g, i, j, 2) == grid_dot(inv, g, i, j, 1).spec_add(t1));
    assert(grid_dot(inv, g, i, j, 3) == grid_dot(inv, g, i, j, 2).spec_add(t2));
    assert(grid_mul(inv, g)[i][j]@ == t0@ + t1@ + t2@);
}

/// An unrounded cofactor of a grid of three rows is the cofactor of its raw
/// rows.
proof fn lemma_exact_cofactor3(g: Grid, j: int, k: int)
    requires
        is_square(g, 3),
        0 <= j < 3,
        0 <= k < 3,
    ensures
        exact_cofactor(g, j, k) == cofactor3(raw_rows(g), j, k),
{
    let m = crate::matrices::exact_minor(g, j, k);
    assert(1 * m == m && -1 * m == -m);
}

} // verus!
