//! Square matrices of a size fixed by their type, with multiplication,
//! transpose, determinant by cofactor expansion, and inverse by the
//! adjugate over the determinant.
//!
//! The model of a matrix is its grid: the sequence of its rows, each a
//! sequence of scalars. What an operation computes is stated over grids, so
//! that one definition serves every size.
use crate::determinants::{det2, det3, det_rows};
use crate::scalar::{magnitude_of, quot, Scalar};
use crate::tuples::Tuple;
use crate::wide::Wide;
use vstd::prelude::*;
use vstd::std_specs::cmp::PartialEqSpecImpl;

verus! {

/// The rows of a matrix.
pub type Grid = Seq<Seq<Scalar>>;

/// `m` has `n` rows of `n` entries each.
pub open spec fn is_square(m: Grid, n: nat) -> bool {
    &&& m.len() == n
    &&& forall|i: int| 0 <= i < n ==> (#[trigger] m[i]).len() == n
}

/// The identity grid of size `n`.
pub open spec fn grid_identity(n: nat) -> Grid {
    Seq::new(
        n,
        |i: int|
            Seq::new(
                n,
                |j: int|
                    if i == j {
                        Scalar::spec_one()
                    } else {
                        Scalar::spec_zero()
                    },
            ),
    )
}

/// `m` with rows and columns exchanged.
pub open spec fn grid_transpose(m: Grid) -> Grid {
    Seq::new(m.len(), |i: int| Seq::new(m.len(), |j: int| m[j][i]))
}

/// The sum of the first `k` products of row `i` of `a` with column `j` of
/// `b`, accumulated from the left.
pub open spec fn grid_dot(a: Grid, b: Grid, i: int, j: int, k: nat) -> Scalar
    decreases k,
{
    if k == 0 {
        Scalar::spec_zero()
    } else {
        grid_dot(a, b, i, j, (k - 1) as nat).spec_add(a[i][k - 1].spec_mul(b[k - 1][j]))
    }
}

/// The row-by-column product of two grids.
pub open spec fn grid_mul(a: Grid, b: Grid) -> Grid {
    Seq::new(a.len(), |i: int| Seq::new(a.len(), |j: int| grid_dot(a, b, i, j, a.len())))
}

/// The product of one row with a tuple read as a column.
pub open spec fn row_apply(row: Seq<Scalar>, t: Tuple) -> Scalar {
    row[0].spec_mul(t.0).spec_add(row[1].spec_mul(t.1)).spec_add(row[2].spec_mul(t.2)).spec_add(
        row[3].spec_mul(t.3),
    )
}

/// The product of a grid of four rows with a tuple read as a column.
pub open spec fn grid_apply(m: Grid, t: Tuple) -> Tuple {
    Tuple(row_apply(m[0], t), row_apply(m[1], t), row_apply(m[2], t), row_apply(m[3], t))
}

/// `m` without row `r` and column `c`.
pub open spec fn grid_without(m: Grid, r: int, c: int) -> Grid {
    Seq::new(
        (m.len() - 1) as nat,
        |i: int|
            Seq::new(
                (m.len() - 1) as nat,
                |j: int|
                    m[if i < r {
                        i
                    } else {
                        i + 1
                    }][if j < c {
                        j
                    } else {
                        j + 1
                    }],
            ),
    )
}

/// The rows of `m` as raw counts.
pub open spec fn raw_rows(m: Grid) -> Seq<Seq<int>> {
    Seq::new(m.len(), |i: int| Seq::new(m[i].len(), |j: int| m[i][j]@))
}

/// `SCALE` to the power `k`, for `k` up to three.
pub open spec fn scale_to(k: int) -> int {
    if k <= 0 {
        1
    } else if k == 1 {
        1_000_000_000
    } else if k == 2 {
        1_000_000_000_000_000_000
    } else {
        1_000_000_000_000_000_000_000_000_000
    }
}

/// The determinant of the raw counts, unrounded: `ad - bc` for two rows,
/// the cofactor expansion along the first row for three and four. For `n`
/// rows it is the determinant times `SCALE` to the power `n`.
pub open spec fn exact_det(m: Grid) -> int {
    let w = raw_rows(m);
    if m.len() == 2 {
        det2(w[0], w[1], 0, 1)
    } else if m.len() == 3 {
        det3(w[0], w[1], w[2], 0, 1, 2)
    } else if m.len() == 4 {
        det_rows(w)
    } else {
        0
    }
}

/// The unrounded determinant of the grid left when row `r` and column `c`
/// are removed.
pub open spec fn exact_minor(m: Grid, r: int, c: int) -> int {
    exact_det(grid_without(m, r, c))
}

/// The unrounded minor at `(r, c)`, negated where `r + c` is odd.
pub open spec fn exact_cofactor(m: Grid, r: int, c: int) -> int {
    if (r + c) % 2 == 1 {
        -exact_minor(m, r, c)
    } else {
        exact_minor(m, r, c)
    }
}

/// `x` over `scale`, rounded toward zero but never to zero: where `x` is
/// not zero and the quotient is less than one count, the result is one
/// count of the sign of `x`. So a determinant reads as zero only where it
/// is zero.
pub open spec fn quot_kept(x: int, scale: int) -> int {
    let q = quot(x, scale);
    if q != 0 || x == 0 {
        q
    } else if x < 0 {
        -1
    } else {
        1
    }
}

/// The determinant of the grid left when row `r` and column `c` are
/// removed, rounded once, and zero only where it is zero.
pub open spec fn grid_minor(m: Grid, r: int, c: int) -> Scalar {
    Scalar::of(quot_kept(exact_minor(m, r, c), scale_to(m.len() - 2)))
}

/// The minor at `(r, c)`, negated where `r + c` is odd.
pub open spec fn grid_cofactor(m: Grid, r: int, c: int) -> Scalar {
    Scalar::of(quot_kept(exact_cofactor(m, r, c), scale_to(m.len() - 2)))
}

/// The determinant, computed without rounding and rounded once, and zero
/// only where it is zero.
pub open spec fn grid_det(m: Grid) -> Scalar {
    Scalar::of(quot_kept(exact_det(m), scale_to(m.len() - 1)))
}

/// The matrix has an inverse: its determinant is not zero.
pub open spec fn is_invertible(m: Grid) -> bool {
    exact_det(m) != 0
}

/// The determinant reads as zero exactly where the matrix has no inverse.
pub proof fn lemma_det_zero(m: Grid)
    ensures
        (grid_det(m)@ == 0) == !is_invertible(m),
{
    let x = exact_det(m);
    let scale = scale_to(m.len() - 1);
    let q = quot(x, scale);
    if x == 0 {
        assert(q == 0) by (nonlinear_arith)
            requires
                q == 0int / magnitude_of(scale) || q == -(0int / magnitude_of(scale)),
                magnitude_of(scale) > 0,
        ;
    }
}

/// The adjugate over the determinant: at `(c, r)` stands the cofactor at
/// `(r, c)` divided by the determinant, both unrounded, the quotient
/// rounded once.
pub open spec fn grid_inverse(m: Grid) -> Grid {
    Seq::new(
        m.len(),
        |i: int|
            Seq::new(
                m.len(),
                |j: int|
                    Scalar::of(
                        quot(exact_cofactor(m, j, i) * 1_000_000_000_000_000_000, exact_det(m)),
                    ),
            ),
    )
}

/// Every entry of one grid is within the tolerance of the other's.
pub open spec fn grid_approx_eq(a: Grid, b: Grid) -> bool {
    forall|i: int, j: int|
        0 <= i < a.len() && 0 <= j < a.len() ==> (#[trigger] a[i][j]).spec_approx_eq(b[i][j])
}

/// An `N` by `N` matrix.
#[derive(Clone, Copy, Debug)]
pub struct Matrix<const N: usize>(pub [[Scalar; N]; N]);

impl<const N: usize> View for Matrix<N> {
    type V = Grid;

    open spec fn view(&self) -> Grid {
        Seq::new(N as nat, |i: int| self.0[i]@)
    }
}

impl<const N: usize> Matrix<N> {
    /// The matrix with the given rows.
    pub fn new(input: [[Scalar; N]; N]) -> (m: Self)
        ensures
            m.0 == input,
    {
        Matrix(input)
    }

    /// The matrix with ones on the diagonal and zeros elsewhere.
    pub fn identity() -> (m: Self)
        ensures
            m@ == grid_identity(N as nat),
    {
        let zero = Scalar::zero();
        let mut output: [[Scalar; N]; N] = [[zero; N]; N];
        let mut i: usize = 0;
        while i < N
            invariant
                i <= N,
                forall|a: int, b: int|
                    0 <= a < N && 0 <= b < N ==> output[a][b] == if a == b && a < i {
                        Scalar::spec_one()
                    } else {
                        Scalar::spec_zero()
                    },
            decreases N - i,
        {
            output[i][i] = Scalar::one();
            i += 1;
        }
        let m = Matrix(output);
        assert(m@ =~~= grid_identity(N as nat));
        m
    }

    /// Row `index`.
    pub fn index(&self, index: usize) -> (row: &[Scalar; N])
        requires
            index < N,
        ensures
            row@ == self@[index as int],
    {
        &self.0[index]
    }

    /// The matrix with rows and columns exchanged.
    pub fn transpose(&self) -> (t: Self)
        ensures
            t@ == grid_transpose(self@),
    {
        let zero = Scalar::zero();
        let mut output: [[Scalar; N]; N] = [[zero; N]; N];
        let mut i: usize = 0;
        while i < N
            invariant
                i <= N,
                forall|a: int, b: int| 0 <= a < i && 0 <= b < N ==> output[b][a] == self.0[a][b],
            decreases N - i,
        {
            let mut j: usize = 0;
            while j < N
                invariant
                    i < N,
                    j <= N,
                    forall|a: int, b: int|
                        0 <= a < i && 0 <= b < N ==> output[b][a] == self.0[a][b],
                    forall|b: int| 0 <= b < j ==> output[b][i as int] == self.0[i as int][b],
                decreases N - j,
            {
                output[j][i] = self.0[i][j];
                j += 1;
            }
            i += 1;
        }
        let t = Matrix(output);
        assert(t@ =~~= grid_transpose(self@));
        t
    }

    /// The row-by-column product `self * other`: applied to a tuple, it
    /// applies `other` first.
    pub fn mul(self, other: Self) -> (p: Self)
        ensures
            p@ == grid_mul(self@, other@),
    {
        let zero = Scalar::zero();
        let mut output: [[Scalar; N]; N] = [[zero; N]; N];
        let mut row: usize = 0;
        while row < N
            invariant
                row <= N,
                forall|a: int, b: int|
                    0 <= a < row && 0 <= b < N ==> output[a][b] == grid_dot(
                        self@,
                        other@,
                        a,
                        b,
                        N as nat,
                    ),
            decreases N - row,
        {
            let mut col: usize = 0;
            while col < N
                invariant
                    row < N,
                    col <= N,
                    forall|a: int, b: int|
                        0 <= a < row && 0 <= b < N ==> output[a][b] == grid_dot(
                            self@,
                            other@,
                            a,
                            b,
                            N as nat,
                        ),
                    forall|b: int|
                        0 <= b < col ==> output[row as int][b] == grid_dot(
                            self@,
                            other@,
                            row as int,
                            b,
                            N as nat,
                        ),
                decreases N - col,
            {
                let mut acc = Scalar::zero();
                let mut n: usize = 0;
                while n < N
                    invariant
                        row < N,
                        col < N,
                        n <= N,
                        acc == grid_dot(self@, other@, row as int, col as int, n as nat),
                    decreases N - n,
                {
                    acc = acc.add(self.0[row][n].mul(other.0[n][col]));
                    n += 1;
                }
                output[row][col] = acc;
                col += 1;
            }
            row += 1;
        }
        let p = Matrix(output);
        assert(p@ =~~= grid_mul(self@, other@));
        p
    }
}

impl<const N: usize> PartialEq for Matrix<N> {
    fn eq(&self, other: &Self) -> (b: bool) {
        let mut i: usize = 0;
        while i < N
            invariant
                i <= N,
                forall|a: int, b: int|
                    0 <= a < i && 0 <= b < N ==> self.0[a][b].spec_approx_eq(other.0[a][b]),
            decreases N - i,
        {
            let mut j: usize = 0;
            while j < N
                invariant
                    i < N,
                    j <= N,
                    forall|a: int, b: int|
                        0 <= a < i && 0 <= b < N ==> self.0[a][b].spec_approx_eq(other.0[a][b]),
                    forall|b: int|
                        0 <= b < j ==> self.0[i as int][b].spec_approx_eq(other.0[i as int][b]),
                decreases N - j,
            {
                if !self.0[i][j].approx_eq(other.0[i][j]) {
                    assert(!(self@[i as int][j as int]).spec_approx_eq(other@[i as int][j as int]));
                    return false;
                }
                j += 1;
            }
            i += 1;
        }
        assert forall|a: int, b: int| 0 <= a < self@.len() && 0 <= b < self@.len() implies (
        #[trigger] self@[a][b]).spec_approx_eq(other@[a][b]) by {
            assert(self@[a][b] == self.0[a][b]);
        }
        true
    }
}

impl<const N: usize> PartialEqSpecImpl for Matrix<N> {
    open spec fn obeys_eq_spec() -> bool {
        true
    }

    open spec fn eq_spec(&self, other: &Self) -> bool {
        grid_approx_eq(self@, other@)
    }
}

/// `a * d - b * c`, unrounded.
fn wide_det2(a: Scalar, b: Scalar, c: Scalar, d: Scalar) -> (w: Wide)
    ensures
        w@ == a@ * d@ - b@ * c@,
        w.small(),
        magnitude_of(w@) <= 0x8000_0000_0000_0000_0000_0000_0000_0000,
{
    Wide::from_product(a.raw, d.raw).sub(&Wide::from_product(b.raw, c.raw))
}

/// `x0 * m0 - x1 * m1 + x2 * m2`, unrounded, for entries `x` and small
/// determinants `m`.
fn wide_expand3(x0: Scalar, m0: &Wide, x1: Scalar, m1: &Wide, x2: Scalar, m2: &Wide) -> (w: Wide)
    requires
        m0.small(),
        m1.small(),
        m2.small(),
        magnitude_of(m0@) <= 0x8000_0000_0000_0000_0000_0000_0000_0000,
        magnitude_of(m1@) <= 0x8000_0000_0000_0000_0000_0000_0000_0000,
        magnitude_of(m2@) <= 0x8000_0000_0000_0000_0000_0000_0000_0000,
    ensures
        w@ == x0@ * m0@ - x1@ * m1@ + x2@ * m2@,
        w.small(),
        magnitude_of(w@) <= 3 * 0x4000_0000_0000_0000_0000_0000_0000_0000_0000_0000_0000_0000,
{
    proof {
        lemma_term_bound(x0@, m0@);
        lemma_term_bound(x1@, m1@);
        lemma_term_bound(x2@, m2@);
    }
    let t0 = m0.mul_small(x0.raw as i128);
    let t1 = m1.mul_small(x1.raw as i128);
    let t2 = m2.mul_small(x2.raw as i128);
    let partial = t0.sub(&t1);
    partial.add(&t2)
}

/// The product of an entry with a determinant of two rows.
proof fn lemma_term_bound(x: int, m: int)
    requires
        -0x8000_0000_0000_0000 <= x <= 0x8000_0000_0000_0000,
        magnitude_of(m) <= 0x8000_0000_0000_0000_0000_0000_0000_0000,
    ensures
        magnitude_of(m * x) <= 0x4000_0000_0000_0000_0000_0000_0000_0000_0000_0000_0000_0000,
        m * x == x * m,
{
    assert(magnitude_of(m * x) <= 0x4000_0000_0000_0000_0000_0000_0000_0000_0000_0000_0000_0000
        && m * x == x * m) by (nonlinear_arith)
        requires
            -0x8000_0000_0000_0000 <= x <= 0x8000_0000_0000_0000,
            -0x8000_0000_0000_0000_0000_0000_0000_0000 <= m
                <= 0x8000_0000_0000_0000_0000_0000_0000_0000,
    ;
}

/// The product of an entry with a determinant of three rows.
proof fn lemma_term_bound4(x: int, m: int)
    requires
        -0x8000_0000_0000_0000 <= x <= 0x8000_0000_0000_0000,
        magnitude_of(m) <= 3 * 0x4000_0000_0000_0000_0000_0000_0000_0000_0000_0000_0000_0000,
    ensures
        magnitude_of(m * x) <= 3
            * 0x2000_0000_0000_0000_0000_0000_0000_0000_0000_0000_0000_0000_0000_0000_0000_0000,
        m * x == x * m,
{
    assert(magnitude_of(m * x) <= 3
        * 0x2000_0000_0000_0000_0000_0000_0000_0000_0000_0000_0000_0000_0000_0000_0000_0000 && m
        * x == x * m) by (nonlinear_arith)
        requires
            -0x8000_0000_0000_0000 <= x <= 0x8000_0000_0000_0000,
            -3 * 0x4000_0000_0000_0000_0000_0000_0000_0000_0000_0000_0000_0000 <= m <= 3
                * 0x4000_0000_0000_0000_0000_0000_0000_0000_0000_0000_0000_0000,
    ;
}

/// A wide integer over a power of `SCALE`, rounded toward zero but never
/// to zero.
fn wide_over(w: &Wide, k: u8) -> (s: Scalar)
    requires
        w.fits(1_000_000_000_000_000),
        1 <= k <= 3,
    ensures
        s == Scalar::of(quot_kept(w@, scale_to(k as int))),
{
    let by: i128 = if k == 1 {
        1_000_000_000
    } else if k == 2 {
        1_000_000_000_000_000_000
    } else {
        1_000_000_000_000_000_000_000_000_000
    };
    let q = w.div(&Wide::from_i128(by));
    if q != 0 || w.is_zero() {
        Scalar::from_raw(q)
    } else if w.is_negative() {
        Scalar::from_raw(-1)
    } else {
        Scalar::from_raw(1)
    }
}

impl Matrix<2> {
    /// The determinant `ad - bc`, unrounded: the determinant times `SCALE`
    /// squared.
    pub fn wide_determinant(&self) -> (w: Wide)
        ensures
            w@ == exact_det(self@),
            w.small(),
            magnitude_of(w@) <= 0x8000_0000_0000_0000_0000_0000_0000_0000,
    {
        wide_det2(self.0[0][0], self.0[0][1], self.0[1][0], self.0[1][1])
    }

    /// The determinant `ad - bc`.
    pub fn determinant(&self) -> (d: Scalar)
        ensures
            d == grid_det(self@),
            (d@ == 0) == !is_invertible(self@),
    {
        proof {
            lemma_det_zero(self@);
        }
        wide_over(&self.wide_determinant(), 1)
    }
}

impl Matrix<3> {
    /// The matrix without row `exclude_row` and column `exclude_column`.
    pub fn submatrix(&self, exclude_row: usize, exclude_column: usize) -> (m: Matrix<2>)
        requires
            exclude_row < 3,
            exclude_column < 3,
        ensures
            m@ == grid_without(self@, exclude_row as int, exclude_column as int),
    {
        let zero = Scalar::zero();
        let mut output: [[Scalar; 2]; 2] = [[zero; 2]; 2];
        let mut i: usize = 0;
        while i < 2
            invariant
                i <= 2,
                exclude_row < 3,
                exclude_column < 3,
                forall|a: int, b: int|
                    0 <= a < i && 0 <= b < 2 ==> output[a][b] == grid_without(
                        self@,
                        exclude_row as int,
                        exclude_column as int,
                    )[a][b],
            decreases 2 - i,
        {
            let from_row: usize = if i < exclude_row {
                i
            } else {
                i + 1
            };
            let mut j: usize = 0;
            while j < 2
                invariant
                    i < 2,
                    j <= 2,
                    exclude_row < 3,
                    exclude_column < 3,
                    from_row == if i < exclude_row {
                        i as int
                    } else {
                        i + 1
                    },
                    forall|a: int, b: int|
                        0 <= a < i && 0 <= b < 2 ==> output[a][b] == grid_without(
                            self@,
                            exclude_row as int,
                            exclude_column as int,
                        )[a][b],
                    forall|b: int|
                        0 <= b < j ==> output[i as int][b] == grid_without(
                            self@,
                            exclude_row as int,
                            exclude_column as int,
                        )[i as int][b],
                decreases 2 - j,
            {
                let from_column: usize = if j < exclude_column {
                    j
                } else {
                    j + 1
                };
                output[i][j] = self.0[from_row][from_column];
                j += 1;
            }
            i += 1;
        }
        let m = Matrix(output);
        assert(m@ =~~= grid_without(self@, exclude_row as int, exclude_column as int));
        m
    }

    /// The determinant of the submatrix at `(exclude_row, exclude_column)`,
    /// unrounded.
    pub fn wide_minor(&self, exclude_row: usize, exclude_column: usize) -> (w: Wide)
        requires
            exclude_row < 3,
            exclude_column < 3,
        ensures
            w@ == exact_minor(self@, exclude_row as int, exclude_column as int),
            w.small(),
            magnitude_of(w@) <= 0x8000_0000_0000_0000_0000_0000_0000_0000,
    {
        self.submatrix(exclude_row, exclude_column).wide_determinant()
    }

    /// The minor at `(exclude_row, exclude_column)`, negated where the sum of
    /// the two is odd, unrounded.
    pub fn wide_cofactor(&self, exclude_row: usize, exclude_column: usize) -> (w: Wide)
        requires
            exclude_row < 3,
            exclude_column < 3,
        ensures
            w@ == exact_cofactor(self@, exclude_row as int, exclude_column as int),
            w.small(),
            magnitude_of(w@) <= 0x8000_0000_0000_0000_0000_0000_0000_0000,
    {
        let minor = self.wide_minor(exclude_row, exclude_column);
        if (exclude_row + exclude_column) % 2 == 1 {
            Wide::from_i128(0).sub(&minor)
        } else {
            minor
        }
    }

    /// The determinant of the submatrix at `(exclude_row, exclude_column)`.
    pub fn minor(&self, exclude_row: usize, exclude_column: usize) -> (d: Scalar)
        requires
            exclude_row < 3,
            exclude_column < 3,
        ensures
            d == grid_minor(self@, exclude_row as int, exclude_column as int),
    {
        wide_over(&self.wide_minor(exclude_row, exclude_column), 1)
    }

    /// The minor at `(exclude_row, exclude_column)`, negated where the sum of
    /// the two is odd.
    pub fn cofactor(&self, exclude_row: usize, exclude_column: usize) -> (d: Scalar)
        requires
            exclude_row < 3,
            exclude_column < 3,
        ensures
            d == grid_cofactor(self@, exclude_row as int, exclude_column as int),
    {
        wide_over(&self.wide_cofactor(exclude_row, exclude_column), 1)
    }

    /// The determinant, by cofactor expansion along the first row,
    /// unrounded.
    pub fn wide_determinant(&self) -> (w: Wide)
        ensures
            w@ == exact_det(self@),
            w.small(),
            magnitude_of(w@) <= 3 * 0x4000_0000_0000_0000_0000_0000_0000_0000_0000_0000_0000_0000,
    {
        let m0 = self.wide_minor(0, 0);
        let m1 = self.wide_minor(0, 1);
        let m2 = self.wide_minor(0, 2);
        proof {
            let w = raw_rows(self@);
            assert(m0@ == det2(w[1], w[2], 1, 2));
            assert(m1@ == det2(w[1], w[2], 0, 2));
            assert(m2@ == det2(w[1], w[2], 0, 1));
        }
        wide_expand3(self.0[0][0], &m0, self.0[0][1], &m1, self.0[0][2], &m2)
    }

    /// The determinant, by cofactor expansion along the first row.
    pub fn determinant(&self) -> (d: Scalar)
        ensures
            d == grid_det(self@),
            (d@ == 0) == !is_invertible(self@),
    {
        proof {
            lemma_det_zero(self@);
        }
        wide_over(&self.wide_determinant(), 2)
    }

    /// The inverse, or `None` where the determinant is zero.
    pub fn inverse(&self) -> (inv: Option<Self>)
        ensures
            match inv {
                Some(m) => is_invertible(self@) && m@ == grid_inverse(self@),
                None => !is_invertible(self@),
            },
            inv.is_none() == (grid_det(self@)@ == 0),
    {
        proof {
            lemma_det_zero(self@);
        }
        let determinant = self.wide_determinant();
        if determinant.is_zero() {
            return None;
        }
        let zero = Scalar::zero();
        let mut output: [[Scalar; 3]; 3] = [[zero; 3]; 3];
        let mut row: usize = 0;
        while row < 3
            invariant
                row <= 3,
                determinant@ == exact_det(self@),
                determinant@ != 0,
                determinant.small(),
                magnitude_of(determinant@) <= 3 * 0x4000_0000_0000_0000_0000_0000_0000_0000_0000_0000_0000_0000,
                forall|a: int, b: int|
                    0 <= a < row && 0 <= b < 3 ==> output[b][a] == grid_inverse(self@)[b][a],
            decreases 3 - row,
        {
            let mut col: usize = 0;
            while col < 3
                invariant
                    row < 3,
                    col <= 3,
                    determinant@ == exact_det(self@),
                    determinant@ != 0,
                    determinant.small(),
                    magnitude_of(determinant@) <= 3 * 0x4000_0000_0000_0000_0000_0000_0000_0000_0000_0000_0000_0000,
                    forall|a: int, b: int|
                        0 <= a < row && 0 <= b < 3 ==> output[b][a] == grid_inverse(self@)[b][a],
                    forall|b: int|
                        0 <= b < col ==> output[b][row as int] == grid_inverse(
                            self@,
                        )[b][row as int],
                decreases 3 - col,
            {
                let cofactor = self.wide_cofactor(row, col);
                let scaled = cofactor.shift();
                output[col][row] = Scalar::from_raw(scaled.div(&determinant));
                col += 1;
            }
            row += 1;
        }
        let m = Matrix(output);
        assert(m@ =~~= grid_inverse(self@));
        Some(m)
    }
}

impl Matrix<4> {
    /// The matrix without row `exclude_row` and column `exclude_column`.
    pub fn submatrix(&self, exclude_row: usize, exclude_column: usize) -> (m: Matrix<3>)
        requires
            exclude_row < 4,
            exclude_column < 4,
        ensures
            m@ == grid_without(self@, exclude_row as int, exclude_column as int),
    {
        let zero = Scalar::zero();
        let mut output: [[Scalar; 3]; 3] = [[zero; 3]; 3];
        let mut i: usize = 0;
        while i < 3
            invariant
                i <= 3,
                exclude_row < 4,
                exclude_column < 4,
                forall|a: int, b: int|
                    0 <= a < i && 0 <= b < 3 ==> output[a][b] == grid_without(
                        self@,
                        exclude_row as int,
                        exclude_column as int,
                    )[a][b],
            decreases 3 - i,
        {
            let from_row: usize = if i < exclude_row {
                i
            } else {
                i + 1
            };
            let mut j: usize = 0;
            while j < 3
                invariant
                    i < 3,
                    j <= 3,
                    exclude_row < 4,
                    exclude_column < 4,
                    from_row == if i < exclude_row {
                        i as int
                    } else {
                        i + 1
                    },
                    forall|a: int, b: int|
                        0 <= a < i && 0 <= b < 3 ==> output[a][b] == grid_without(
                            self@,
                            exclude_row as int,
                            exclude_column as int,
                        )[a][b],
                    forall|b: int|
                        0 <= b < j ==> output[i as int][b] == grid_without(
                            self@,
                            exclude_row as int,
                            exclude_column as int,
                        )[i as int][b],
                decreases 3 - j,
            {
                let from_column: usize = if j < exclude_column {
                    j
                } else {
                    j + 1
                };
                output[i][j] = self.0[from_row][from_column];
                j += 1;
            }
            i += 1;
        }
        let m = Matrix(output);
        assert(m@ =~~= grid_without(self@, exclude_row as int, exclude_column as int));
        m
    }

    /// The determinant of the submatrix at `(exclude_row, exclude_column)`,
    /// unrounded.
    pub fn wide_minor(&self, exclude_row: usize, exclude_column: usize) -> (w: Wide)
        requires
            exclude_row < 4,
            exclude_column < 4,
        ensures
            w@ == exact_minor(self@, exclude_row as int, exclude_column as int),
            w.small(),
            magnitude_of(w@) <= 3 * 0x4000_0000_0000_0000_0000_0000_0000_0000_0000_0000_0000_0000,
    {
        self.submatrix(exclude_row, exclude_column).wide_determinant()
    }

    /// The minor at `(exclude_row, exclude_column)`, negated where the sum of
    /// the two is odd, unrounded.
    pub fn wide_cofactor(&self, exclude_row: usize, exclude_column: usize) -> (w: Wide)
        requires
            exclude_row < 4,
            exclude_column < 4,
        ensures
            w@ == exact_cofactor(self@, exclude_row as int, exclude_column as int),
            w.small(),
            magnitude_of(w@) <= 3 * 0x4000_0000_0000_0000_0000_0000_0000_0000_0000_0000_0000_0000,
    {
        let minor = self.wide_minor(exclude_row, exclude_column);
        if (exclude_row + exclude_column) % 2 == 1 {
            Wide::from_i128(0).sub(&minor)
        } else {
            minor
        }
    }

    /// The determinant of the submatrix at `(exclude_row, exclude_column)`.
    pub fn minor(&self, exclude_row: usize, exclude_column: usize) -> (d: Scalar)
        requires
            exclude_row < 4,
            exclude_column < 4,
        ensures
            d == grid_minor(self@, exclude_row as int, exclude_column as int),
    {
        wide_over(&self.wide_minor(exclude_row, exclude_column), 2)
    }

    /// The minor at `(exclude_row, exclude_column)`, negated where the sum of
    /// the two is odd.
    pub fn cofactor(&self, exclude_row: usize, exclude_column: usize) -> (d: Scalar)
        requires
            exclude_row < 4,
            exclude_column < 4,
        ensures
            d == grid_cofactor(self@, exclude_row as int, exclude_column as int),
    {
        wide_over(&self.wide_cofactor(exclude_row, exclude_column), 2)
    }

    /// The determinant, by cofactor expansion along the first row,
    /// unrounded.
    pub fn wide_determinant(&self) -> (w: Wide)
        ensures
            w@ == exact_det(self@),
            w.small(),
            magnitude_of(w@) <= 12
                * 0x2000_0000_0000_0000_0000_0000_0000_0000_0000_0000_0000_0000_0000_0000_0000_0000,
    {
        let m0 = self.wide_minor(0, 0);
        let m1 = self.wide_minor(0, 1);
        let m2 = self.wide_minor(0, 2);
        let m3 = self.wide_minor(0, 3);
        proof {
            let w = raw_rows(self@);
            assert(m0@ == det3(w[1], w[2], w[3], 1, 2, 3));
            assert(m1@ == det3(w[1], w[2], w[3], 0, 2, 3));
            assert(m2@ == det3(w[1], w[2], w[3], 0, 1, 3));
            assert(m3@ == det3(w[1], w[2], w[3], 0, 1, 2));
            lemma_term_bound4(self.0[0][0]@, m0@);
            lemma_term_bound4(self.0[0][1]@, m1@);
            lemma_term_bound4(self.0[0][2]@, m2@);
            lemma_term_bound4(self.0[0][3]@, m3@);
        }
        let t0 = m0.mul_small(self.0[0][0].raw as i128);
        let t1 = m1.mul_small(self.0[0][1].raw as i128);
        let t2 = m2.mul_small(self.0[0][2].raw as i128);
        let t3 = m3.mul_small(self.0[0][3].raw as i128);
        let first = t0.sub(&t1);
        let second = first.add(&t2);
        second.sub(&t3)
    }

    /// The determinant, by cofactor expansion along the first row.
    pub fn determinant(&self) -> (d: Scalar)
        ensures
            d == grid_det(self@),
            (d@ == 0) == !is_invertible(self@),
    {
        proof {
            lemma_det_zero(self@);
        }
        wide_over(&self.wide_determinant(), 3)
    }

    /// The inverse, or `None` where the determinant is zero.
    pub fn inverse(&self) -> (inv: Option<Self>)
        ensures
            match inv {
                Some(m) => is_invertible(self@) && m@ == grid_inverse(self@),
                None => !is_invertible(self@),
            },
            inv.is_none() == (grid_det(self@)@ == 0),
    {
        proof {
            lemma_det_zero(self@);
        }
        let determinant = self.wide_determinant();
        if determinant.is_zero() {
            return None;
        }
        let zero = Scalar::zero();
        let mut output: [[Scalar; 4]; 4] = [[zero; 4]; 4];
        let mut row: usize = 0;
        while row < 4
            invariant
                row <= 4,
                determinant@ == exact_det(self@),
                determinant@ != 0,
                determinant.small(),
                magnitude_of(determinant@) <= 12
                * 0x2000_0000_0000_0000_0000_0000_0000_0000_0000_0000_0000_0000_0000_0000_0000_0000,
                forall|a: int, b: int|
                    0 <= a < row && 0 <= b < 4 ==> output[b][a] == grid_inverse(self@)[b][a],
            decreases 4 - row,
        {
            let mut col: usize = 0;
            while col < 4
                invariant
                    row < 4,
                    col <= 4,
                    determinant@ == exact_det(self@),
                    determinant@ != 0,
                    determinant.small(),
                    magnitude_of(determinant@) <= 12
                * 0x2000_0000_0000_0000_0000_0000_0000_0000_0000_0000_0000_0000_0000_0000_0000_0000,
                    forall|a: int, b: int|
                        0 <= a < row && 0 <= b < 4 ==> output[b][a] == grid_inverse(self@)[b][a],
                    forall|b: int|
                        0 <= b < col ==> output[b][row as int] == grid_inverse(
                            self@,
                        )[b][row as int],
                decreases 4 - col,
            {
                let cofactor = self.wide_cofactor(row, col);
                let scaled = cofactor.shift();
                output[col][row] = Scalar::from_raw(scaled.div(&determinant));
                col += 1;
            }
            row += 1;
        }
        let m = Matrix(output);
        assert(m@ =~~= grid_inverse(self@));
        Some(m)
    }
}

impl Matrix<4> {
    /// The product of the matrix with `t` read as a column.
    pub fn mul_tuple(self, t: Tuple) -> (p: Tuple)
        ensures
            p == grid_apply(self@, t),
    {
        let mut results: [Scalar; 4] = [Scalar::zero(); 4];
        let mut i: usize = 0;
        while i < 4
            invariant
                i <= 4,
                forall|a: int| 0 <= a < i ==> results[a] == row_apply(self@[a], t),
            decreases 4 - i,
        {
            let row = &self.0[i];
            results[i] = row[0].mul(t.0).add(row[1].mul(t.1)).add(row[2].mul(t.2)).add(
                row[3].mul(t.3),
            );
            i += 1;
        }
        Tuple::from(results)
    }
}

} // verus!
