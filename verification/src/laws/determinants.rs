//! What holds of the determinants of integer matrices of up to four rows:
//! a determinant changes sign when two rows change places, it is the same
//! for the rows as for the columns, and a row multiplied by the cofactors
//! of another row gives zero.
use crate::determinants::{
    cofactor3, cofactor4, det2, det3, det4, det_rows, row_by_cofactors, sign, skip, transposed,
};
use crate::laws::rounding::lemma_times_negated;
use vstd::prelude::*;

verus! {

/// The rows of a matrix multiplied by the cofactors of its rows: a row by
/// its own cofactors gives the determinant, and by those of another row,
/// zero.
pub proof fn lemma_adjugate(w: Seq<Seq<int>>, i: int, j: int)
    requires
        0 <= i < 4,
        0 <= j < 4,
    ensures
        row_by_cofactors(w, i, j) == if i == j {
            det_rows(w)
        } else {
            0
        },
{
    lemma_row_on_top(w, w[i], j);
    let a = w[skip(j, 0)];
    let b = w[skip(j, 1)];
    let c = w[skip(j, 2)];
    lemma_det4_repeated(a, b, c);
    lemma_det4_repeated(b, a, c);
    lemma_det4_repeated(c, a, b);
    assert(1 * det4(w[i], a, b, c) == det4(w[i], a, b, c));
    assert(-1 * det4(w[i], a, b, c) == -det4(w[i], a, b, c));
    if i == j {
        if j == 1 {
            lemma_det4_swap_01(w[0], w[1], w[2], w[3]);
        } else if j == 2 {
            lemma_det4_swap_01(w[0], w[2], w[1], w[3]);
            lemma_det4_swap_12(w[0], w[1], w[2], w[3]);
        } else if j == 3 {
            lemma_det4_swap_01(w[0], w[3], w[1], w[2]);
            lemma_det4_swap_12(w[0], w[1], w[3], w[2]);
            lemma_det4_swap_23(w[0], w[1], w[2], w[3]);
        }
    }
}

/// The columns of a matrix multiplied by the cofactors of its columns: a
/// column by its own cofactors gives the determinant, and by those of
/// another column, zero.
pub proof fn lemma_adjugate_columns(w: Seq<Seq<int>>, i: int, j: int)
    requires
        0 <= i < 4,
        0 <= j < 4,
    ensures
        w[0][i] * cofactor4(w, 0, j) + w[1][i] * cofactor4(w, 1, j) + w[2][i] * cofactor4(w, 2, j)
            + w[3][i] * cofactor4(w, 3, j) == if i == j {
            det_rows(w)
        } else {
            0
        },
{
    let t = transposed(w);
    lemma_adjugate(t, i, j);
    lemma_det4_transposed(w);
    lemma_cofactor_transposed(w, j, 0);
    lemma_cofactor_transposed(w, j, 1);
    lemma_cofactor_transposed(w, j, 2);
    lemma_cofactor_transposed(w, j, 3);
}

/// The rows of a matrix of three rows multiplied by the cofactors of its
/// rows: a row by its own cofactors gives the determinant, and by those of
/// another row, zero.
pub proof fn lemma_adjugate3(w: Seq<Seq<int>>, i: int, j: int)
    requires
        0 <= i < 3,
        0 <= j < 3,
    ensures
        w[i][0] * cofactor3(w, j, 0) + w[i][1] * cofactor3(w, j, 1) + w[i][2] * cofactor3(w, j, 2)
            == if i == j {
            det3(w[0], w[1], w[2], 0, 1, 2)
        } else {
            0
        },
{
    let x = w[i];
    let a = w[skip(j, 0)];
    let b = w[skip(j, 1)];
    let m0 = det2(a, b, 1, 2);
    let m1 = det2(a, b, 0, 2);
    let m2 = det2(a, b, 0, 1);
    assert(1 * m0 == m0 && 1 * m1 == m1 && 1 * m2 == m2);
    assert(-1 * m0 == -m0 && -1 * m1 == -m1 && -1 * m2 == -m2);
    lemma_times_negated(x[0], m0, -m0);
    lemma_times_negated(x[1], m1, -m1);
    lemma_times_negated(x[2], m2, -m2);
    // A determinant with its first row repeated is zero.
    lemma_det3_swap_first(a, a, b, 0, 1, 2);
    lemma_det3_swap_last(b, a, b, 0, 1, 2);
    lemma_det3_swap_first(b, b, a, 0, 1, 2);
    if i == j {
        if j == 1 {
            lemma_det3_swap_first(w[0], w[1], w[2], 0, 1, 2);
        } else if j == 2 {
            lemma_det3_swap_first(w[0], w[2], w[1], 0, 1, 2);
            lemma_det3_swap_last(w[0], w[1], w[2], 0, 1, 2);
        }
    }
}

/// Three rows as columns.
pub open spec fn transposed3(w: Seq<Seq<int>>) -> Seq<Seq<int>> {
    Seq::new(3, |i: int| Seq::new(3, |j: int| w[j][i]))
}

/// The columns of a matrix of three rows multiplied by the cofactors of
/// its columns: a column by its own cofactors gives the determinant, and by
/// those of another column, zero.
pub proof fn lemma_adjugate_columns3(w: Seq<Seq<int>>, i: int, j: int)
    requires
        0 <= i < 3,
        0 <= j < 3,
    ensures
        w[0][i] * cofactor3(w, 0, j) + w[1][i] * cofactor3(w, 1, j) + w[2][i] * cofactor3(w, 2, j)
            == if i == j {
            det3(w[0], w[1], w[2], 0, 1, 2)
        } else {
            0
        },
{
    let t = transposed3(w);
    lemma_adjugate3(t, i, j);
    lemma_det3_transposed(w[0], w[1], w[2], 0, 1, 2, t[0], t[1], t[2], 0, 1, 2);
    lemma_cofactor3_transposed(w, j, 0);
    lemma_cofactor3_transposed(w, j, 1);
    lemma_cofactor3_transposed(w, j, 2);
}

/// A cofactor of the transposed matrix of three rows is the cofactor at
/// the transposed place.
proof fn lemma_cofactor3_transposed(w: Seq<Seq<int>>, j: int, k: int)
    requires
        0 <= j < 3,
        0 <= k < 3,
    ensures
        cofactor3(transposed3(w), j, k) == cofactor3(w, k, j),
{
    let t = transposed3(w);
    let a = w[skip(k, 0)][skip(j, 0)];
    let b = w[skip(k, 0)][skip(j, 1)];
    let c = w[skip(k, 1)][skip(j, 0)];
    let d = w[skip(k, 1)][skip(j, 1)];
    assert(t[skip(j, 0)][skip(k, 0)] == a && t[skip(j, 0)][skip(k, 1)] == c && t[skip(j, 1)][skip(
        k,
        0,
    )] == b && t[skip(j, 1)][skip(k, 1)] == d);
    assert(c * b == b * c) by (nonlinear_arith);
    assert(det2(t[skip(j, 0)], t[skip(j, 1)], skip(k, 0), skip(k, 1)) == a * d - c * b);
    assert(det2(w[skip(k, 0)], w[skip(k, 1)], skip(j, 0), skip(j, 1)) == a * d - b * c);
}

/// `x` times a difference of two products, as a difference of triple
/// products.
pub proof fn lemma_two_terms(x: int, y1: int, z1: int, y2: int, z2: int)
    ensures
        x * (y1 * z1 - y2 * z2) == (x * y1) * z1 - (x * y2) * z2,
        x * (y1 * z1 - y2 * z2) == (y1 * x) * z1 - (y2 * x) * z2,
{
    assert(x * (y1 * z1 - y2 * z2) == x * (y1 * z1) - x * (y2 * z2)) by (nonlinear_arith);
    assert(x * (y1 * z1) == (x * y1) * z1) by (nonlinear_arith);
    assert(x * (y2 * z2) == (x * y2) * z2) by (nonlinear_arith);
    assert(x * y1 == y1 * x) by (nonlinear_arith);
    assert(x * y2 == y2 * x) by (nonlinear_arith);
}

/// `x` times an alternating sum of three products, as an alternating sum of
/// triple products.
pub proof fn lemma_three_terms(x: int, y1: int, m1: int, y2: int, m2: int, y3: int, m3: int)
    ensures
        x * (y1 * m1 - y2 * m2 + y3 * m3) == (x * y1) * m1 - (x * y2) * m2 + (x * y3) * m3,
        x * (y1 * m1 - y2 * m2 + y3 * m3) == (y1 * x) * m1 - (y2 * x) * m2 + (y3 * x) * m3,
{
    let s1 = y1 * m1;
    let s2 = y2 * m2;
    let s3 = y3 * m3;
    assert(x * (s1 - s2 + s3) == x * s1 - x * s2 + x * s3) by (nonlinear_arith);
    assert(x * s1 == (x * y1) * m1) by (nonlinear_arith)
        requires
            s1 == y1 * m1,
    ;
    assert(x * s2 == (x * y2) * m2) by (nonlinear_arith)
        requires
            s2 == y2 * m2,
    ;
    assert(x * s3 == (x * y3) * m3) by (nonlinear_arith)
        requires
            s3 == y3 * m3,
    ;
    assert(x * y1 == y1 * x) by (nonlinear_arith);
    assert(x * y2 == y2 * x) by (nonlinear_arith);
    assert(x * y3 == y3 * x) by (nonlinear_arith);
}

/// `x` times a difference of two products, with `x` as the last factor.
pub proof fn lemma_last_factor(x: int, y1: int, z1: int, y2: int, z2: int)
    ensures
        x * (y1 * z1 - y2 * z2) == (y1 * z1) * x - (y2 * z2) * x,
{
    assert(x * (y1 * z1 - y2 * z2) == (y1 * z1) * x - (y2 * z2) * x) by (nonlinear_arith);
}

/// Exchanging the two rows negates the determinant.
pub proof fn lemma_det2_swap(y: Seq<int>, z: Seq<int>, p: int, q: int)
    ensures
        det2(z, y, p, q) == -det2(y, z, p, q),
{
    assert(z[p] * y[q] == y[q] * z[p]) by (nonlinear_arith);
    assert(z[q] * y[p] == y[p] * z[q]) by (nonlinear_arith);
}

/// Exchanging the last two rows negates the determinant.
pub proof fn lemma_det3_swap_last(x: Seq<int>, y: Seq<int>, z: Seq<int>, p: int, q: int, r: int)
    ensures
        det3(x, z, y, p, q, r) == -det3(x, y, z, p, q, r),
{
    lemma_det2_swap(y, z, q, r);
    lemma_det2_swap(y, z, p, r);
    lemma_det2_swap(y, z, p, q);
    lemma_times_negated(x[p], det2(y, z, q, r), det2(z, y, q, r));
    lemma_times_negated(x[q], det2(y, z, p, r), det2(z, y, p, r));
    lemma_times_negated(x[r], det2(y, z, p, q), det2(z, y, p, q));
}

/// Exchanging the first two rows negates the determinant.
pub proof fn lemma_det3_swap_first(x: Seq<int>, y: Seq<int>, z: Seq<int>, p: int, q: int, r: int)
    ensures
        det3(y, x, z, p, q, r) == -det3(x, y, z, p, q, r),
{
    lemma_two_terms(x[p], y[q], z[r], y[r], z[q]);
    lemma_two_terms(x[q], y[p], z[r], y[r], z[p]);
    lemma_two_terms(x[r], y[p], z[q], y[q], z[p]);
    lemma_two_terms(y[p], x[q], z[r], x[r], z[q]);
    lemma_two_terms(y[q], x[p], z[r], x[r], z[p]);
    lemma_two_terms(y[r], x[p], z[q], x[q], z[p]);
}

/// Exchanging the first two of four rows negates the determinant.
pub proof fn lemma_det4_swap_01(a: Seq<int>, b: Seq<int>, c: Seq<int>, d: Seq<int>)
    ensures
        det4(b, a, c, d) == -det4(a, b, c, d),
{
    let m01 = det2(c, d, 0, 1);
    let m02 = det2(c, d, 0, 2);
    let m03 = det2(c, d, 0, 3);
    let m12 = det2(c, d, 1, 2);
    let m13 = det2(c, d, 1, 3);
    let m23 = det2(c, d, 2, 3);
    lemma_three_terms(a[0], b[1], m23, b[2], m13, b[3], m12);
    lemma_three_terms(a[1], b[0], m23, b[2], m03, b[3], m02);
    lemma_three_terms(a[2], b[0], m13, b[1], m03, b[3], m01);
    lemma_three_terms(a[3], b[0], m12, b[1], m02, b[2], m01);
    lemma_three_terms(b[0], a[1], m23, a[2], m13, a[3], m12);
    lemma_three_terms(b[1], a[0], m23, a[2], m03, a[3], m02);
    lemma_three_terms(b[2], a[0], m13, a[1], m03, a[3], m01);
    lemma_three_terms(b[3], a[0], m12, a[1], m02, a[2], m01);
}

/// Exchanging the middle two of four rows negates the determinant.
pub proof fn lemma_det4_swap_12(a: Seq<int>, b: Seq<int>, c: Seq<int>, d: Seq<int>)
    ensures
        det4(a, c, b, d) == -det4(a, b, c, d),
{
    lemma_det3_swap_first(b, c, d, 1, 2, 3);
    lemma_det3_swap_first(b, c, d, 0, 2, 3);
    lemma_det3_swap_first(b, c, d, 0, 1, 3);
    lemma_det3_swap_first(b, c, d, 0, 1, 2);
    lemma_times_negated(a[0], det3(b, c, d, 1, 2, 3), det3(c, b, d, 1, 2, 3));
    lemma_times_negated(a[1], det3(b, c, d, 0, 2, 3), det3(c, b, d, 0, 2, 3));
    lemma_times_negated(a[2], det3(b, c, d, 0, 1, 3), det3(c, b, d, 0, 1, 3));
    lemma_times_negated(a[3], det3(b, c, d, 0, 1, 2), det3(c, b, d, 0, 1, 2));
}

/// Exchanging the last two of four rows negates the determinant.
pub proof fn lemma_det4_swap_23(a: Seq<int>, b: Seq<int>, c: Seq<int>, d: Seq<int>)
    ensures
        det4(a, b, d, c) == -det4(a, b, c, d),
{
    lemma_det3_swap_last(b, c, d, 1, 2, 3);
    lemma_det3_swap_last(b, c, d, 0, 2, 3);
    lemma_det3_swap_last(b, c, d, 0, 1, 3);
    lemma_det3_swap_last(b, c, d, 0, 1, 2);
    lemma_times_negated(a[0], det3(b, c, d, 1, 2, 3), det3(b, d, c, 1, 2, 3));
    lemma_times_negated(a[1], det3(b, c, d, 0, 2, 3), det3(b, d, c, 0, 2, 3));
    lemma_times_negated(a[2], det3(b, c, d, 0, 1, 3), det3(b, d, c, 0, 1, 3));
    lemma_times_negated(a[3], det3(b, c, d, 0, 1, 2), det3(b, d, c, 0, 1, 2));
}

/// A determinant with its first row repeated further down is zero.
pub proof fn lemma_det4_repeated(a: Seq<int>, b: Seq<int>, c: Seq<int>)
    ensures
        det4(a, a, b, c) == 0,
        det4(a, b, a, c) == 0,
        det4(a, b, c, a) == 0,
{
    lemma_det4_swap_01(a, a, b, c);
    lemma_det4_swap_12(a, a, b, c);
    lemma_det4_swap_12(a, b, c, a);
    lemma_det4_swap_23(a, b, a, c);
}

/// A row multiplied by the cofactors of row `j` is, up to the sign of `j`,
/// the determinant with that row put on top of the other three.
proof fn lemma_row_on_top(w: Seq<Seq<int>>, x: Seq<int>, j: int)
    requires
        0 <= j < 4,
    ensures
        x[0] * cofactor4(w, j, 0) + x[1] * cofactor4(w, j, 1) + x[2] * cofactor4(w, j, 2) + x[3]
            * cofactor4(w, j, 3) == sign(j) * det4(x, w[skip(j, 0)], w[skip(j, 1)], w[skip(j, 2)]),
{
    let a = w[skip(j, 0)];
    let b = w[skip(j, 1)];
    let c = w[skip(j, 2)];
    let m0 = det3(a, b, c, 1, 2, 3);
    let m1 = det3(a, b, c, 0, 2, 3);
    let m2 = det3(a, b, c, 0, 1, 3);
    let m3 = det3(a, b, c, 0, 1, 2);
    assert(1 * m0 == m0 && 1 * m1 == m1 && 1 * m2 == m2 && 1 * m3 == m3);
    assert(-1 * m0 == -m0 && -1 * m1 == -m1 && -1 * m2 == -m2 && -1 * m3 == -m3);
    lemma_times_negated(x[0], m0, -m0);
    lemma_times_negated(x[1], m1, -m1);
    lemma_times_negated(x[2], m2, -m2);
    lemma_times_negated(x[3], m3, -m3);
    let d = det4(x, a, b, c);
    assert(1 * d == d && -1 * d == -d);
}

/// The determinant of three rows, expanded along its first column.
pub proof fn lemma_det3_first_column(
    x: Seq<int>,
    y: Seq<int>,
    z: Seq<int>,
    p: int,
    q: int,
    r: int,
)
    ensures
        det3(x, y, z, p, q, r) == x[p] * det2(y, z, q, r) - y[p] * det2(x, z, q, r) + z[p] * det2(
            x,
            y,
            q,
            r,
        ),
{
    lemma_two_terms(x[q], y[p], z[r], y[r], z[p]);
    lemma_two_terms(x[r], y[p], z[q], y[q], z[p]);
    lemma_two_terms(y[p], x[q], z[r], x[r], z[q]);
    lemma_last_factor(z[p], x[q], y[r], x[r], y[q]);
}

/// The determinant of three rows is that of their three columns: the
/// determinant with entries `a` to `i`, read by rows, is the determinant
/// with the same entries read by columns.
pub proof fn lemma_det3_transposed(
    x: Seq<int>,
    y: Seq<int>,
    z: Seq<int>,
    p: int,
    q: int,
    r: int,
    u: Seq<int>,
    v: Seq<int>,
    w: Seq<int>,
    s: int,
    t: int,
    o: int,
)
    requires
        u[s] == x[p],
        u[t] == y[p],
        u[o] == z[p],
        v[s] == x[q],
        v[t] == y[q],
        v[o] == z[q],
        w[s] == x[r],
        w[t] == y[r],
        w[o] == z[r],
    ensures
        det3(u, v, w, s, t, o) == det3(x, y, z, p, q, r),
{
    lemma_det3_first_column(x, y, z, p, q, r);
    // det3(u, v, w) along its first row is det3(x, y, z) along its first
    // column, once each small determinant is turned round.
    assert(v[t] * w[o] == y[q] * z[r] && v[o] * w[t] == y[r] * z[q]) by (nonlinear_arith)
        requires
            v[t] == y[q],
            w[o] == z[r],
            v[o] == z[q],
            w[t] == y[r],
    ;
    assert(v[s] * w[o] == x[q] * z[r] && v[o] * w[s] == x[r] * z[q]) by (nonlinear_arith)
        requires
            v[s] == x[q],
            w[o] == z[r],
            v[o] == z[q],
            w[s] == x[r],
    ;
    assert(v[s] * w[t] == x[q] * y[r] && v[t] * w[s] == x[r] * y[q]) by (nonlinear_arith)
        requires
            v[s] == x[q],
            w[t] == y[r],
            v[t] == y[q],
            w[s] == x[r],
    ;
    assert(det2(v, w, t, o) == det2(y, z, q, r));
    assert(det2(v, w, s, o) == det2(x, z, q, r));
    assert(det2(v, w, s, t) == det2(x, y, q, r));
}

/// A cofactor of the transposed matrix is the cofactor at the transposed
/// place.
pub proof fn lemma_cofactor_transposed(w: Seq<Seq<int>>, j: int, k: int)
    requires
        0 <= j < 4,
        0 <= k < 4,
    ensures
        cofactor4(transposed(w), j, k) == cofactor4(w, k, j),
{
    let t = transposed(w);
    lemma_det3_transposed(
        w[skip(k, 0)],
        w[skip(k, 1)],
        w[skip(k, 2)],
        skip(j, 0),
        skip(j, 1),
        skip(j, 2),
        t[skip(j, 0)],
        t[skip(j, 1)],
        t[skip(j, 2)],
        skip(k, 0),
        skip(k, 1),
        skip(k, 2),
    );
}

/// The determinant of four rows, expanded along the first column.
pub proof fn lemma_det4_first_column(w: Seq<Seq<int>>)
    ensures
        det_rows(w) == w[0][0] * cofactor4(w, 0, 0) + w[1][0] * cofactor4(w, 1, 0) + w[2][0]
            * cofactor4(w, 2, 0) + w[3][0] * cofactor4(w, 3, 0),
{
    let a = w[0];
    let b = w[1];
    let c = w[2];
    let d = w[3];
    // The small determinants of columns 1 to 3, by the two rows they take.
    let cd12 = det2(c, d, 1, 2);
    let cd13 = det2(c, d, 1, 3);
    let cd23 = det2(c, d, 2, 3);
    let bd12 = det2(b, d, 1, 2);
    let bd13 = det2(b, d, 1, 3);
    let bd23 = det2(b, d, 2, 3);
    let bc12 = det2(b, c, 1, 2);
    let bc13 = det2(b, c, 1, 3);
    let bc23 = det2(b, c, 2, 3);
    // Along the first row: the cofactors of a[1], a[2], a[3], each along its
    // first column.
    lemma_det3_first_column(b, c, d, 0, 2, 3);
    lemma_det3_first_column(b, c, d, 0, 1, 3);
    lemma_det3_first_column(b, c, d, 0, 1, 2);
    lemma_three_terms(a[1], b[0], cd23, c[0], bd23, d[0], bc23);
    lemma_three_terms(a[2], b[0], cd13, c[0], bd13, d[0], bc13);
    lemma_three_terms(a[3], b[0], cd12, c[0], bd12, d[0], bc12);
    // Along the first column: the cofactors of b[0], c[0], d[0], each along
    // its first row, which is a.
    lemma_three_terms(b[0], a[1], cd23, a[2], cd13, a[3], cd12);
    lemma_three_terms(c[0], a[1], bd23, a[2], bd13, a[3], bd12);
    lemma_three_terms(d[0], a[1], bc23, a[2], bc13, a[3], bc12);
    let m0 = det3(b, c, d, 1, 2, 3);
    let mb = det3(a, c, d, 1, 2, 3);
    let mc = det3(a, b, d, 1, 2, 3);
    let md = det3(a, b, c, 1, 2, 3);
    assert(1 * m0 == m0 && -1 * mb == -mb && 1 * mc == mc && -1 * md == -md);
    lemma_times_negated(b[0], mb, -mb);
    lemma_times_negated(d[0], md, -md);
}

/// The determinant of the transposed matrix is the determinant.
pub proof fn lemma_det4_transposed(w: Seq<Seq<int>>)
    ensures
        det_rows(transposed(w)) == det_rows(w),
{
    let t = transposed(w);
    lemma_det4_first_column(w);
    lemma_cofactor_transposed(w, 0, 0);
    lemma_cofactor_transposed(w, 0, 1);
    lemma_cofactor_transposed(w, 0, 2);
    lemma_cofactor_transposed(w, 0, 3);
    lemma_row_on_top(t, t[0], 0);
    assert(1 * det_rows(t) == det_rows(t));
}

} // verus!
