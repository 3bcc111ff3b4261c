//! Integers wide enough to hold a determinant of four rows of scalars
//! without rounding: five digits to the base of a billion billions, the
//! lower four between zero and the base, the top one signed.
use crate::scalar::{clip, is_root, magnitude_of, quot, root_of};
use vstd::prelude::*;

verus! {

/// The base of the digits: `SCALE` squared.
pub const BASE: i128 = 1_000_000_000_000_000_000;

/// A wide integer.
#[derive(Clone, Copy, Debug)]
pub struct Wide {
    pub d0: i128,
    pub d1: i128,
    pub d2: i128,
    pub d3: i128,
    pub d4: i128,
}

impl View for Wide {
    type V = int;

    /// The integer that the digits stand for.
    open spec fn view(&self) -> int {
        self.d0 + 1_000_000_000_000_000_000 * self.d1 + 1_000_000_000_000_000_000_000_000_000_000_000_000
            * self.d2 + 1_000_000_000_000_000_000_000_000_000_000_000_000_000_000_000_000_000_000
            * self.d3
            + 1_000_000_000_000_000_000_000_000_000_000_000_000_000_000_000_000_000_000_000_000_000_000_000_000
            * self.d4
    }
}

impl Wide {
    /// The lower digits are between zero and the base, and the top digit is
    /// of magnitude at most `top`.
    pub open spec fn fits(self, top: int) -> bool {
        &&& 0 <= self.d0 < 1_000_000_000_000_000_000
        &&& 0 <= self.d1 < 1_000_000_000_000_000_000
        &&& 0 <= self.d2 < 1_000_000_000_000_000_000
        &&& 0 <= self.d3 < 1_000_000_000_000_000_000
        &&& -top <= self.d4 <= top
    }

    /// The digits are in order, with room to add and subtract.
    pub open spec fn wf(self) -> bool {
        self.fits(400_000_000_000_000_000_000_000_000_000_000_000)
    }

    /// The digits are in order, with room to multiply by a number of 64
    /// bits.
    pub open spec fn small(self) -> bool {
        self.fits(10_000_000_000_000_000)
    }

    /// `v` as a wide integer.
    pub fn from_i128(v: i128) -> (w: Wide)
        requires
            v > -170_000_000_000_000_000_000_000_000_000_000_000_000,
        ensures
            w@ == v,
            w.small(),
    {
        let (c0, r0) = split(v);
        let (c1, r1) = split(c0);
        let (c2, r2) = split(c1);
        let (c3, r3) = split(c2);
        Wide { d0: r0, d1: r1, d2: r2, d3: r3, d4: c3 }
    }

    /// The product of two raw counts, unrounded.
    pub fn from_product(a: i64, b: i64) -> (w: Wide)
        ensures
            w@ == a * b,
            w.small(),
            magnitude_of(w@) <= 0x4000_0000_0000_0000_0000_0000_0000_0000,
    {
        let x: i128 = a as i128;
        let y: i128 = b as i128;
        assert(-0x4000_0000_0000_0000_0000_0000_0000_0000 <= x * y
            <= 0x4000_0000_0000_0000_0000_0000_0000_0000) by (nonlinear_arith)
            requires
                -0x8000_0000_0000_0000 <= x <= 0x8000_0000_0000_0000,
                -0x8000_0000_0000_0000 <= y <= 0x8000_0000_0000_0000,
        ;
        Wide::from_i128(x * y)
    }

    /// The integer square root of an integer that is not negative and has
    /// at most 77 digits.
    pub fn root(&self) -> (r: u128)
        requires
            self.small(),
            0 <= self@
                <= 100_000_000_000_000_000_000_000_000_000_000_000_000_000_000_000_000_000_000_000_000_000_000_000_000_000,
        ensures
            is_root(r as int, self@),
            r == root_of(self@),
    {
        let mut lo: u128 = 0;
        let mut hi: u128 = 0xffff_ffff_ffff_ffff_ffff_ffff_ffff_ffff;
        assert(hi * hi
            > 100_000_000_000_000_000_000_000_000_000_000_000_000_000_000_000_000_000_000_000_000_000_000_000_000_000)
            by (nonlinear_arith)
            requires
                hi >= 340_000_000_000_000_000_000_000_000_000_000_000_000,
        ;
        assert(lo * lo == 0) by (nonlinear_arith)
            requires
                lo == 0,
        ;
        while hi - lo > 1
            invariant
                lo < hi,
                lo * lo <= self@ < hi * hi,
                self.small(),
            decreases hi - lo,
        {
            let mid: u128 = lo + (hi - lo) / 2;
            let candidate = Wide::from_u128(mid);
            let squared = candidate.product(&candidate);
            if !self.sub(&squared).is_negative() {
                lo = mid;
            } else {
                hi = mid;
            }
        }
        proof {
            crate::scalar::lemma_root_is(lo as int, self@);
        }
        lo
    }

    /// `v` as a wide integer.
    pub fn from_u128(v: u128) -> (w: Wide)
        ensures
            w@ == v,
            w.small(),
            w.d3 == 0,
            w.d4 == 0,
    {
        let d0: u128 = v % 1_000_000_000_000_000_000;
        let c: u128 = v / 1_000_000_000_000_000_000;
        let d1: u128 = c % 1_000_000_000_000_000_000;
        let d2: u128 = c / 1_000_000_000_000_000_000;
        Wide { d0: d0 as i128, d1: d1 as i128, d2: d2 as i128, d3: 0, d4: 0 }
    }

    /// The product of two integers of magnitude at most ten to the 40.
    pub fn product(&self, rhs: &Wide) -> (w: Wide)
        requires
            self.wf(),
            rhs.wf(),
            magnitude_of(self@) <= 10_000_000_000_000_000_000_000_000_000_000_000_000_000,
            magnitude_of(rhs@) <= 10_000_000_000_000_000_000_000_000_000_000_000_000_000,
        ensures
            w@ == self@ * rhs@,
            w.small(),
            magnitude_of(w@) <= 100_000_000_000_000_000_000_000_000_000_000_000_000_000_000_000_000_000_000_000_000_000_000_000_000_000_000,
    {
        let negative = self.is_negative() != rhs.is_negative();
        let a = self.abs();
        let b = rhs.abs();
        proof {
            lemma_magnitude_product(self@, rhs@);
        }
        let sum = narrow_product(&a, &b);
        if negative {
            Wide::from_i128(0).sub(&sum)
        } else {
            sum
        }
    }

    /// The sum.
    pub fn add(&self, rhs: &Wide) -> (w: Wide)
        requires
            self.wf(),
            rhs.wf(),
        ensures
            w@ == self@ + rhs@,
            w.fits(800_000_000_000_000_000_000_000_000_000_000_001),
    {
        let (c0, r0) = split(self.d0 + rhs.d0);
        let (c1, r1) = split(self.d1 + rhs.d1 + c0);
        let (c2, r2) = split(self.d2 + rhs.d2 + c1);
        let (c3, r3) = split(self.d3 + rhs.d3 + c2);
        Wide { d0: r0, d1: r1, d2: r2, d3: r3, d4: self.d4 + rhs.d4 + c3 }
    }

    /// The difference.
    pub fn sub(&self, rhs: &Wide) -> (w: Wide)
        requires
            self.wf(),
            rhs.wf(),
        ensures
            w@ == self@ - rhs@,
            w.fits(800_000_000_000_000_000_000_000_000_000_000_001),
    {
        let (c0, r0) = split(self.d0 - rhs.d0);
        let (c1, r1) = split(self.d1 - rhs.d1 + c0);
        let (c2, r2) = split(self.d2 - rhs.d2 + c1);
        let (c3, r3) = split(self.d3 - rhs.d3 + c2);
        Wide { d0: r0, d1: r1, d2: r2, d3: r3, d4: self.d4 - rhs.d4 + c3 }
    }

    /// The product with a number of at most 64 bits.
    pub fn mul_small(&self, m: i128) -> (w: Wide)
        requires
            self.small(),
            -0x1_0000_0000_0000_0000 <= m <= 0x1_0000_0000_0000_0000,
        ensures
            w@ == self@ * m,
            w.fits(200_000_000_000_000_000_000_000_000_000_000_000),
    {
        proof {
            lemma_digit_product(self.d0 as int, m as int);
            lemma_digit_product(self.d1 as int, m as int);
            lemma_digit_product(self.d2 as int, m as int);
            lemma_digit_product(self.d3 as int, m as int);
            lemma_digit_product(self.d4 as int, m as int);
            lemma_times_digits(
                self.d0 as int,
                self.d1 as int,
                self.d2 as int,
                self.d3 as int,
                self.d4 as int,
                m as int,
            );
        }
        let (c0, r0) = split(self.d0 * m);
        let (c1, r1) = split(self.d1 * m + c0);
        let (c2, r2) = split(self.d2 * m + c1);
        let (c3, r3) = split(self.d3 * m + c2);
        Wide { d0: r0, d1: r1, d2: r2, d3: r3, d4: self.d4 * m + c3 }
    }

    /// The product with the base.
    pub fn shift(&self) -> (w: Wide)
        requires
            self.small(),
        ensures
            w@ == self@ * 1_000_000_000_000_000_000,
            w.fits(10_000_000_000_000_001_000_000_000_000_000_000),
    {
        Wide { d0: 0, d1: self.d0, d2: self.d1, d3: self.d2, d4: self.d3 + self.d4 * 1_000_000_000_000_000_000 }
    }

    /// Whether the integer is below zero.
    pub fn is_negative(&self) -> (b: bool)
        requires
            self.fits(800_000_000_000_000_000_000_000_000_000_000_001),
        ensures
            b == (self@ < 0),
    {
        self.d4 < 0
    }

    /// Whether the integer is zero.
    pub fn is_zero(&self) -> (b: bool)
        requires
            self.fits(800_000_000_000_000_000_000_000_000_000_000_001),
        ensures
            b == (self@ == 0),
    {
        self.d0 == 0 && self.d1 == 0 && self.d2 == 0 && self.d3 == 0 && self.d4 == 0
    }

    /// The magnitude.
    pub fn abs(&self) -> (w: Wide)
        requires
            self.wf(),
        ensures
            w@ == magnitude_of(self@),
            w.fits(400_000_000_000_000_000_000_000_000_000_000_001),
            self.small() ==> w.fits(10_000_000_000_000_001),
    {
        if self.d4 < 0 {
            let zero = Wide { d0: 0, d1: 0, d2: 0, d3: 0, d4: 0 };
            zero.sub(self)
        } else {
            *self
        }
    }

    /// The quotient by `rhs`, rounded toward zero and brought into the range
    /// of an `i64`.
    pub fn div(&self, rhs: &Wide) -> (q: i64)
        requires
            self.fits(1_000_000_000_000_000),
            rhs.fits(1_000_000_000_000_000),
            rhs@ != 0,
        ensures
            q == clip(quot(self@, rhs@)),
    {
        let negative = self.is_negative() != rhs.is_negative();
        let n = self.abs();
        let d = rhs.abs();
        let limit: i128 = 0x8000_0000_0000_0000;
        let top = d.mul_small(limit);
        let ghost total = n@;
        let ghost by = d@;
        if !n.sub(&top).is_negative() {
            // The quotient is at least two to the 63, and saturates.
            proof {
                lemma_quotient_at_least(total, by, limit as int);
            }
            return if negative {
                i64::MIN
            } else {
                i64::MAX
            };
        }
        let mut lo: i128 = 0;
        let mut hi: i128 = limit;
        assert(lo * by == 0) by (nonlinear_arith)
            requires
                lo == 0,
        ;
        while hi - lo > 1
            invariant
                0 <= lo < hi <= 0x8000_0000_0000_0000,
                lo * by <= total < hi * by,
                n@ == total,
                d@ == by,
                by > 0,
                n.fits(400_000_000_000_000_000_000_000_000_000_000_000),
                d.fits(10_000_000_000_000_000),
            decreases hi - lo,
        {
            let mid: i128 = lo + (hi - lo) / 2;
            let product = d.mul_small(mid);
            if !n.sub(&product).is_negative() {
                lo = mid;
            } else {
                hi = mid;
            }
        }
        proof {
            lemma_quotient_is(total, by, lo as int);
        }
        if negative {
            (-lo) as i64
        } else {
            lo as i64
        }
    }
}

/// The product of two numbers of at most forty digits, neither below zero.
fn narrow_product(a: &Wide, b: &Wide) -> (w: Wide)
    requires
        a.small(),
        b.small(),
        0 <= a@ <= 10_000_000_000_000_000_000_000_000_000_000_000_000_000,
        0 <= b@ <= 10_000_000_000_000_000_000_000_000_000_000_000_000_000,
    ensures
        w@ == a@ * b@,
        w.small(),
        0 <= w@ <= 100_000_000_000_000_000_000_000_000_000_000_000_000_000_000_000_000_000_000_000_000_000_000_000_000_000_000,
{
    assert(b.d3 == 0 && b.d4 == 0);
    assert(b@ == b.d0 + 1_000_000_000_000_000_000 * b.d1
        + 1_000_000_000_000_000_000_000_000_000_000_000_000 * b.d2);
    proof {
        lemma_narrow_product(a@, b.d0 as int, b.d1 as int, b.d2 as int);
    }
    let low = a.mul_small(b.d0);
    let first = a.mul_small(b.d1);
    assert(first.small());
    let mid = first.shift();
    let second = a.mul_small(b.d2);
    assert(second.small());
    let third = second.shift();
    assert(third@ == 1_000_000_000_000_000_000 * (a@ * b.d2));
    assert(third.small());
    let high = third.shift();
    assert(high@ == 1_000_000_000_000_000_000_000_000_000_000_000_000 * (a@ * b.d2));
    assert(0 <= a@ * b@ <= 100_000_000_000_000_000_000_000_000_000_000_000_000_000_000_000_000_000_000_000_000_000_000_000_000_000_000) by (nonlinear_arith)
        requires
            0 <= a@ <= 10_000_000_000_000_000_000_000_000_000_000_000_000_000,
            0 <= b@ <= 10_000_000_000_000_000_000_000_000_000_000_000_000_000,
    ;
    let partial = low.add(&mid);
    assert(partial.wf());
    partial.add(&high)
}

/// A number of forty digits times the three digits of another.
proof fn lemma_narrow_product(a: int, b0: int, b1: int, b2: int)
    requires
        0 <= a <= 10_000_000_000_000_000_000_000_000_000_000_000_000_000,
        0 <= b0 < 1_000_000_000_000_000_000,
        0 <= b1 < 1_000_000_000_000_000_000,
        0 <= b2 < 1_000_000_000_000_000_000,
    ensures
        a * (b0 + 1_000_000_000_000_000_000 * b1 + 1_000_000_000_000_000_000_000_000_000_000_000_000
            * b2) == a * b0 + 1_000_000_000_000_000_000 * (a * b1)
            + 1_000_000_000_000_000_000_000_000_000_000_000_000 * (a * b2),
        0 <= a * b0 <= 10_000_000_000_000_000_000_000_000_000_000_000_000_000_000_000_000_000_000_000_000,
        0 <= a * b1 <= 10_000_000_000_000_000_000_000_000_000_000_000_000_000_000_000_000_000_000_000_000,
        0 <= a * b2 <= 10_000_000_000_000_000_000_000_000_000_000_000_000_000_000_000_000_000_000_000_000,
{
    assert(a * (b0 + 1_000_000_000_000_000_000 * b1
        + 1_000_000_000_000_000_000_000_000_000_000_000_000 * b2) == a * b0
        + 1_000_000_000_000_000_000 * (a * b1) + 1_000_000_000_000_000_000_000_000_000_000_000_000
        * (a * b2)) by (nonlinear_arith);
    assert(0 <= a * b0 <= 10_000_000_000_000_000_000_000_000_000_000_000_000_000
        * 1_000_000_000_000_000_000 && 0 <= a * b1 <= 10_000_000_000_000_000_000_000_000_000_000_000_000_000
        * 1_000_000_000_000_000_000 && 0 <= a * b2 <= 10_000_000_000_000_000_000_000_000_000_000_000_000_000
        * 1_000_000_000_000_000_000) by (nonlinear_arith)
        requires
            0 <= a <= 10_000_000_000_000_000_000_000_000_000_000_000_000_000,
            0 <= b0 < 1_000_000_000_000_000_000,
            0 <= b1 < 1_000_000_000_000_000_000,
            0 <= b2 < 1_000_000_000_000_000_000,
    ;
}

/// The product of two magnitudes is the magnitude of the product.
pub proof fn lemma_magnitude_product(x: int, y: int)
    ensures
        magnitude_of(x) * magnitude_of(y) == magnitude_of(x * y),
        (x < 0) != (y < 0) ==> x * y == -(magnitude_of(x) * magnitude_of(y)),
        (x < 0) == (y < 0) ==> x * y == magnitude_of(x) * magnitude_of(y),
{
    assert(magnitude_of(x) * magnitude_of(y) == magnitude_of(x * y) && ((x < 0) != (y < 0) ==> x
        * y == -(magnitude_of(x) * magnitude_of(y))) && ((x < 0) == (y < 0) ==> x * y
        == magnitude_of(x) * magnitude_of(y))) by (nonlinear_arith);
}

/// `x` as a multiple of the base and a digit.
fn split(x: i128) -> (parts: (i128, i128))
    requires
        x > -170_000_000_000_000_000_000_000_000_000_000_000_000,
    ensures
        x == parts.0 * 1_000_000_000_000_000_000 + parts.1,
        0 <= parts.1 < 1_000_000_000_000_000_000,
{
    if x >= 0 {
        (x / 1_000_000_000_000_000_000, x % 1_000_000_000_000_000_000)
    } else {
        let y: i128 = -x;
        let q: i128 = y / 1_000_000_000_000_000_000;
        let r: i128 = y % 1_000_000_000_000_000_000;
        if r == 0 {
            (-q, 0)
        } else {
            (-q - 1, 1_000_000_000_000_000_000 - r)
        }
    }
}

/// The product of a digit with a number of at most 64 bits.
proof fn lemma_digit_product(d: int, m: int)
    requires
        -1_000_000_000_000_000_000 <= d <= 1_000_000_000_000_000_000,
        -0x1_0000_0000_0000_0000 <= m <= 0x1_0000_0000_0000_0000,
    ensures
        magnitude_of(d * m) <= 18_446_744_073_709_551_616_000_000_000_000_000_000,
        magnitude_of(d) <= 10_000_000_000_000_000 ==> magnitude_of(d * m)
            <= 184_467_440_737_095_516_160_000_000_000_000_000,
{
    assert(magnitude_of(d * m) <= 18_446_744_073_709_551_616_000_000_000_000_000_000)
        by (nonlinear_arith)
        requires
            -1_000_000_000_000_000_000 <= d <= 1_000_000_000_000_000_000,
            -18_446_744_073_709_551_616 <= m <= 18_446_744_073_709_551_616,
    ;
    if magnitude_of(d) <= 10_000_000_000_000_000 {
        assert(magnitude_of(d * m) <= 184_467_440_737_095_516_160_000_000_000_000_000)
            by (nonlinear_arith)
            requires
                -10_000_000_000_000_000 <= d <= 10_000_000_000_000_000,
                -18_446_744_073_709_551_616 <= m <= 18_446_744_073_709_551_616,
        ;
    }
}

/// A sum of digits times `m`, digit by digit.
proof fn lemma_times_digits(d0: int, d1: int, d2: int, d3: int, d4: int, m: int)
    ensures
        (d0 + 1_000_000_000_000_000_000 * d1 + 1_000_000_000_000_000_000_000_000_000_000_000_000
            * d2 + 1_000_000_000_000_000_000_000_000_000_000_000_000_000_000_000_000_000_000 * d3
            + 1_000_000_000_000_000_000_000_000_000_000_000_000_000_000_000_000_000_000_000_000_000_000_000_000
            * d4) * m == d0 * m + 1_000_000_000_000_000_000 * (d1 * m)
            + 1_000_000_000_000_000_000_000_000_000_000_000_000 * (d2 * m)
            + 1_000_000_000_000_000_000_000_000_000_000_000_000_000_000_000_000_000_000 * (d3 * m)
            + 1_000_000_000_000_000_000_000_000_000_000_000_000_000_000_000_000_000_000_000_000_000_000_000_000
            * (d4 * m),
{
    assert((d0 + 1_000_000_000_000_000_000 * d1 + 1_000_000_000_000_000_000_000_000_000_000_000_000
        * d2 + 1_000_000_000_000_000_000_000_000_000_000_000_000_000_000_000_000_000_000 * d3
        + 1_000_000_000_000_000_000_000_000_000_000_000_000_000_000_000_000_000_000_000_000_000_000_000_000
        * d4) * m == d0 * m + 1_000_000_000_000_000_000 * (d1 * m)
        + 1_000_000_000_000_000_000_000_000_000_000_000_000 * (d2 * m)
        + 1_000_000_000_000_000_000_000_000_000_000_000_000_000_000_000_000_000_000 * (d3 * m)
        + 1_000_000_000_000_000_000_000_000_000_000_000_000_000_000_000_000_000_000_000_000_000_000_000_000
        * (d4 * m)) by (nonlinear_arith);
}

/// Where `k * by <= total`, the quotient is at least `k`.
pub proof fn lemma_quotient_at_least(total: int, by: int, k: int)
    requires
        by > 0,
        k >= 0,
        by * k <= total,
    ensures
        total / by >= k,
{
    let q = total / by;
    assert(by * q <= total < by * q + by) by (nonlinear_arith)
        requires
            by > 0,
            total >= 0,
            q == total / by,
    ;
    if q < k {
        assert(by * (q + 1) <= by * k) by (nonlinear_arith)
            requires
                q + 1 <= k,
                by > 0,
        ;
        assert(by * (q + 1) == by * q + by) by (nonlinear_arith);
    }
}

/// Where `k * by <= total < (k + 1) * by`, the quotient is `k`.
pub proof fn lemma_quotient_is(total: int, by: int, k: int)
    requires
        by > 0,
        k >= 0,
        k * by <= total < (k + 1) * by,
    ensures
        total / by == k,
{
    let q = total / by;
    assert(by * q <= total < by * q + by) by (nonlinear_arith)
        requires
            by > 0,
            total >= 0,
            q == total / by,
    ;
    assert(k * by == by * k && (k + 1) * by == by * k + by) by (nonlinear_arith);
    if q < k {
        assert(by * (q + 1) <= by * k) by (nonlinear_arith)
            requires
                q + 1 <= k,
                by > 0,
        ;
        assert(by * (q + 1) == by * q + by) by (nonlinear_arith);
    } else if q > k {
        assert(by * (k + 1) <= by * q) by (nonlinear_arith)
            requires
                k + 1 <= q,
                by > 0,
        ;
        assert(by * (k + 1) == by * k + by) by (nonlinear_arith);
    }
}

} // verus!
