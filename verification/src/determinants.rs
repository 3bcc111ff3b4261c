//! Determinants of integer matrices of up to four rows, given by their
//! rows: the models of the determinants that the matrices compute.
use vstd::prelude::*;

verus! {

/// The determinant of columns `p` and `q` of the rows `y` and `z`.
pub open spec fn det2(y: Seq<int>, z: Seq<int>, p: int, q: int) -> int {
    y[p] * z[q] - y[q] * z[p]
}

/// The determinant of columns `p`, `q` and `r` of the rows `x`, `y` and
/// `z`, expanded along `x`.
pub open spec fn det3(x: Seq<int>, y: Seq<int>, z: Seq<int>, p: int, q: int, r: int) -> int {
    x[p] * det2(y, z, q, r) - x[q] * det2(y, z, p, r) + x[r] * det2(y, z, p, q)
}

/// The determinant of the four rows, expanded along `a`.
pub open spec fn det4(a: Seq<int>, b: Seq<int>, c: Seq<int>, d: Seq<int>) -> int {
    a[0] * det3(b, c, d, 1, 2, 3) - a[1] * det3(b, c, d, 0, 2, 3) + a[2] * det3(b, c, d, 0, 1, 3)
        - a[3] * det3(b, c, d, 0, 1, 2)
}

/// The `i`-th index when `k` is left out.
pub open spec fn skip(k: int, i: int) -> int {
    if i < k {
        i
    } else {
        i + 1
    }
}

/// One where `n` is even, minus one where it is odd.
pub open spec fn sign(n: int) -> int {
    if n % 2 == 0 {
        1
    } else {
        -1
    }
}

/// The determinant of four rows.
pub open spec fn det_rows(w: Seq<Seq<int>>) -> int {
    det4(w[0], w[1], w[2], w[3])
}

/// The cofactor at `(j, k)` of three rows: the determinant without row `j`
/// and column `k`, negated where `j + k` is odd.
pub open spec fn cofactor3(w: Seq<Seq<int>>, j: int, k: int) -> int {
    sign(j + k) * det2(w[skip(j, 0)], w[skip(j, 1)], skip(k, 0), skip(k, 1))
}

/// The cofactor at `(j, k)` of four rows: the determinant without row `j`
/// and column `k`, negated where `j + k` is odd.
pub open spec fn cofactor4(w: Seq<Seq<int>>, j: int, k: int) -> int {
    sign(j + k) * det3(
        w[skip(j, 0)],
        w[skip(j, 1)],
        w[skip(j, 2)],
        skip(k, 0),
        skip(k, 1),
        skip(k, 2),
    )
}

/// Row `i` multiplied by the cofactors of row `j`.
pub open spec fn row_by_cofactors(w: Seq<Seq<int>>, i: int, j: int) -> int {
    w[i][0] * cofactor4(w, j, 0) + w[i][1] * cofactor4(w, j, 1) + w[i][2] * cofactor4(w, j, 2)
        + w[i][3] * cofactor4(w, j, 3)
}

/// The rows of `w` as columns.
pub open spec fn transposed(w: Seq<Seq<int>>) -> Seq<Seq<int>> {
    Seq::new(4, |i: int| Seq::new(4, |j: int| w[j][i]))
}

} // verus!
