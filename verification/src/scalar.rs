//! Fixed-point real numbers.
//!
//! A [`Scalar`] holds a signed count of billionths: the number it stands for
//! is `raw / SCALE`. Sums and differences are exact unless they leave the
//! range of an `i64`, in which case they saturate at the nearest bound.
//! Products, quotients and square roots are rounded toward zero to the
//! nearest billionth and saturate in the same way. Every operation is total:
//! nothing here can panic.
use vstd::prelude::*;

verus! {

/// Raw units per whole: one is `Scalar { raw: SCALE }`.
pub const SCALE: i64 = 1_000_000_000;

/// The tolerance of every approximate comparison, in raw units (a
/// hundred-thousandth).
pub const EPSILON: i64 = 10_000;

/// A fixed-point number: `raw` billionths.
#[derive(Clone, Copy, Debug, PartialEq, Eq, Structural)]
pub struct Scalar {
    pub raw: i64,
}

/// `x` brought into the range of an `i64`.
pub open spec fn clip(x: int) -> int {
    if x < i64::MIN as int {
        i64::MIN as int
    } else if x > i64::MAX as int {
        i64::MAX as int
    } else {
        x
    }
}

/// The magnitude of `x`.
pub open spec fn magnitude_of(x: int) -> int {
    if x < 0 {
        -x
    } else {
        x
    }
}

/// The quotient of `a` by `b` rounded toward zero (`b` is not zero).
pub open spec fn quot(a: int, b: int) -> int {
    let q = magnitude_of(a) / magnitude_of(b);
    if (a < 0) != (b < 0) {
        -q
    } else {
        q
    }
}

/// `r` is the integer square root of `n`: the largest integer whose square
/// does not exceed `n`.
pub open spec fn is_root(r: int, n: int) -> bool {
    0 <= r && r * r <= n && n < (r + 1) * (r + 1)
}

/// The integer square root of `n` (for `n >= 0`).
pub open spec fn root_of(n: int) -> int {
    choose|r: int| is_root(r, n)
}

/// A number has at most one integer square root.
pub proof fn lemma_root_unique(r1: int, r2: int, n: int)
    requires
        is_root(r1, n),
        is_root(r2, n),
    ensures
        r1 == r2,
{
    if r1 < r2 {
        assert((r1 + 1) * (r1 + 1) <= r2 * r2) by (nonlinear_arith)
            requires
                0 <= r1,
                r1 + 1 <= r2,
        ;
    } else if r2 < r1 {
        assert((r2 + 1) * (r2 + 1) <= r1 * r1) by (nonlinear_arith)
            requires
                0 <= r2,
                r2 + 1 <= r1,
        ;
    }
}

/// Every number that is not negative has an integer square root.
pub proof fn lemma_root_exists(n: nat)
    ensures
        is_root(root_of(n as int), n as int),
    decreases n,
{
    if n == 0 {
        assert(is_root(0, 0));
    } else {
        lemma_root_exists((n - 1) as nat);
        let r = root_of(n - 1);
        assert((r + 2) * (r + 2) > (r + 1) * (r + 1)) by (nonlinear_arith)
            requires
                r >= 0,
        ;
        if n < (r + 1) * (r + 1) {
            assert(is_root(r, n as int));
        } else {
            assert(is_root(r + 1, n as int));
        }
    }
}

/// Any witness of `is_root` is the integer square root.
pub proof fn lemma_root_is(r: int, n: int)
    requires
        is_root(r, n),
    ensures
        root_of(n) == r,
{
    lemma_root_unique(r, root_of(n), n);
}

impl View for Scalar {
    type V = int;

    open spec fn view(&self) -> int {
        self.raw as int
    }
}

impl Scalar {
    /// The scalar whose raw count is `x`, saturated.
    pub open spec fn of(x: int) -> Scalar {
        Scalar { raw: clip(x) as i64 }
    }

    /// Zero.
    pub open spec fn spec_zero() -> Scalar {
        Scalar { raw: 0 }
    }

    /// One.
    pub open spec fn spec_one() -> Scalar {
        Scalar { raw: SCALE }
    }

    /// Saturating sum.
    pub open spec fn spec_add(self, rhs: Scalar) -> Scalar {
        Scalar::of(self@ + rhs@)
    }

    /// Saturating difference.
    pub open spec fn spec_sub(self, rhs: Scalar) -> Scalar {
        Scalar::of(self@ - rhs@)
    }

    /// Saturating negation.
    pub open spec fn spec_neg(self) -> Scalar {
        Scalar::of(-self@)
    }

    /// Saturating magnitude.
    pub open spec fn spec_abs(self) -> Scalar {
        Scalar::of(magnitude_of(self@))
    }

    /// Product, rounded toward zero, saturating.
    pub open spec fn spec_mul(self, rhs: Scalar) -> Scalar {
        Scalar::of(quot(self@ * rhs@, SCALE as int))
    }

    /// Quotient, rounded toward zero, saturating. Division by zero
    /// saturates in the direction of the dividend's sign, and zero divided by
    /// zero is zero.
    pub open spec fn spec_div(self, rhs: Scalar) -> Scalar {
        if rhs@ == 0 {
            if self@ > 0 {
                Scalar { raw: i64::MAX }
            } else if self@ < 0 {
                Scalar { raw: i64::MIN }
            } else {
                Scalar { raw: 0 }
            }
        } else {
            Scalar::of(quot(self@ * SCALE, rhs@))
        }
    }

    /// Square root, rounded down. The root of a negative number is zero.
    pub open spec fn spec_sqrt(self) -> Scalar {
        if self@ <= 0 {
            Scalar { raw: 0 }
        } else {
            Scalar::of(root_of(self@ * SCALE))
        }
    }

    /// `self` raised to the whole power `n` by repeated squaring, each
    /// product rounded as `spec_mul` rounds.
    pub open spec fn spec_pow(self, n: nat) -> Scalar
        decreases n,
    {
        if n == 0 {
            Scalar::spec_one()
        } else if n % 2 == 0 {
            let half = self.spec_pow(n / 2);
            half.spec_mul(half)
        } else {
            self.spec_mul(self.spec_pow((n - 1) as nat))
        }
    }

    /// `self` raised to a fraction below one, given as `m` parts of twice
    /// `half`: the product of the repeated square roots of `self` that the
    /// binary digits of the fraction pick, the first root for the half, the
    /// second for the quarter, and so on down to `half` of one.
    pub open spec fn spec_root_power(self, m: int, half: int) -> Scalar
        decreases half,
    {
        if half <= 0 {
            Scalar::spec_one()
        } else {
            let root = self.spec_sqrt();
            if m >= half {
                root.spec_mul(root.spec_root_power(m - half, half / 2))
            } else {
                root.spec_root_power(m, half / 2)
            }
        }
    }

    /// `self` raised to the power `y`, which is not negative: the whole
    /// part of the power by repeated squaring, times the fractional part by
    /// repeated square roots, the fraction taken to thirty binary digits.
    pub open spec fn spec_powf_up(self, y: int) -> Scalar {
        let whole = y / (SCALE as int);
        let part = ((y % (SCALE as int)) * 0x4000_0000) / (SCALE as int);
        self.spec_pow(whole as nat).spec_mul(self.spec_root_power(part, 0x2000_0000))
    }

    /// `self` raised to the power `y`. A negative power is one over the
    /// positive power.
    pub open spec fn spec_powf(self, y: Scalar) -> Scalar {
        if y@ < 0 {
            Scalar::spec_one().spec_div(self.spec_powf_up(clip(-y@)))
        } else {
            self.spec_powf_up(y@)
        }
    }

    /// The two numbers differ by less than `EPSILON`.
    pub open spec fn spec_approx_eq(self, rhs: Scalar) -> bool {
        magnitude_of(self@ - rhs@) < EPSILON
    }

    /// Channel intensity on a scale of 0 to 255: `self * 255` rounded to the
    /// nearest whole, halves upward, after clamping `self` to `[0, 1]`.
    pub open spec fn spec_channel(self) -> int {
        if self@ < 0 {
            0
        } else if self@ > SCALE {
            255
        } else {
            (self@ * 255 + SCALE / 2) / (SCALE as int)
        }
    }

    /// The scalar of `raw` billionths.
    pub fn from_raw(raw: i64) -> (s: Scalar)
        ensures
            s@ == raw,
    {
        Scalar { raw }
    }

    /// Zero.
    pub fn zero() -> (s: Scalar)
        ensures
            s == Scalar::spec_zero(),
    {
        Scalar { raw: 0 }
    }

    /// One.
    pub fn one() -> (s: Scalar)
        ensures
            s == Scalar::spec_one(),
    {
        Scalar { raw: SCALE }
    }

    /// The whole number `n`, saturated.
    pub fn from_int(n: i64) -> (s: Scalar)
        ensures
            s == Scalar::of(n * SCALE),
    {
        let whole: i128 = n as i128;
        saturate(whole * 1_000_000_000)
    }

    /// The sum, saturating.
    pub fn add(self, rhs: Scalar) -> (s: Scalar)
        ensures
            s == self.spec_add(rhs),
    {
        saturate(self.raw as i128 + rhs.raw as i128)
    }

    /// The difference, saturating.
    pub fn sub(self, rhs: Scalar) -> (s: Scalar)
        ensures
            s == self.spec_sub(rhs),
    {
        saturate(self.raw as i128 - rhs.raw as i128)
    }

    /// The negation, saturating.
    pub fn neg(self) -> (s: Scalar)
        ensures
            s == self.spec_neg(),
    {
        saturate(-(self.raw as i128))
    }

    /// The magnitude, saturating.
    pub fn abs(self) -> (s: Scalar)
        ensures
            s == self.spec_abs(),
    {
        if self.raw < 0 {
            saturate(-(self.raw as i128))
        } else {
            self
        }
    }

    /// The product, rounded toward zero, saturating.
    pub fn mul(self, rhs: Scalar) -> (s: Scalar)
        ensures
            s == self.spec_mul(rhs),
    {
        let a: i128 = self.raw as i128;
        let b: i128 = rhs.raw as i128;
        assert(-0x4000_0000_0000_0000_0000_0000_0000_0000 <= a * b
            <= 0x4000_0000_0000_0000_0000_0000_0000_0000) by (nonlinear_arith)
            requires
                -0x8000_0000_0000_0000 <= a <= 0x8000_0000_0000_0000,
                -0x8000_0000_0000_0000 <= b <= 0x8000_0000_0000_0000,
        ;
        saturate(quotient(a * b, SCALE as i128))
    }

    /// The quotient, rounded toward zero, saturating. Division by zero
    /// saturates in the direction of the dividend's sign, and zero divided by
    /// zero is zero.
    pub fn div(self, rhs: Scalar) -> (s: Scalar)
        ensures
            s == self.spec_div(rhs),
    {
        if rhs.raw == 0 {
            if self.raw > 0 {
                Scalar { raw: i64::MAX }
            } else if self.raw < 0 {
                Scalar { raw: i64::MIN }
            } else {
                Scalar { raw: 0 }
            }
        } else {
            let a: i128 = self.raw as i128;
            saturate(quotient(a * 1_000_000_000, rhs.raw as i128))
        }
    }

    /// The square root, rounded down. The root of a negative number is zero.
    pub fn sqrt(self) -> (s: Scalar)
        ensures
            s == self.spec_sqrt(),
            self@ > 0 ==> is_root(s@, self@ * SCALE),
    {
        if self.raw <= 0 {
            return Scalar { raw: 0 };
        }
        let n: u128 = self.raw as u128 * 1_000_000_000;
        let mut lo: u128 = 0;
        let mut hi: u128 = 0x8000_0000_0000;
        assert(n < hi * hi) by (nonlinear_arith)
            requires
                n < 0x8000_0000_0000_0000 * 1_000_000_000,
                hi == 0x8000_0000_0000,
        ;
        while hi - lo > 1
            invariant
                lo < hi <= 0x8000_0000_0000,
                lo * lo <= n < hi * hi,
            decreases hi - lo,
        {
            let mid: u128 = lo + (hi - lo) / 2;
            assert(mid * mid <= 0x8000_0000_0000 * 0x8000_0000_0000) by (nonlinear_arith)
                requires
                    mid <= 0x8000_0000_0000,
            ;
            if mid * mid <= n {
                lo = mid;
            } else {
                hi = mid;
            }
        }
        proof {
            lemma_root_is(lo as int, n as int);
        }
        Scalar { raw: lo as i64 }
    }

    /// `self` raised to the power `y`: the whole part of the power by
    /// repeated squaring, the fractional part by repeated square roots. A
    /// negative power is one over the positive power.
    pub fn powf(self, y: Scalar) -> (s: Scalar)
        ensures
            s == self.spec_powf(y),
    {
        let up: i64 = if y.raw < 0 {
            y.neg().raw
        } else {
            y.raw
        };
        let whole: u64 = (up / 1_000_000_000) as u64;
        let part: i64 = ((up % 1_000_000_000) * 0x4000_0000) / 1_000_000_000;
        let power = self.pow(whole).mul(self.root_power(part, 0x2000_0000));
        if y.raw < 0 {
            Scalar::one().div(power)
        } else {
            power
        }
    }

    /// `self` raised to `m` parts of twice `half`, by repeated square roots.
    fn root_power(self, m: i64, half: i64) -> (s: Scalar)
        requires
            0 <= half <= 0x2000_0000,
        ensures
            s == self.spec_root_power(m as int, half as int),
        decreases half,
    {
        if half <= 0 {
            Scalar::one()
        } else {
            let root = self.sqrt();
            if m >= half {
                root.mul(root.root_power(m - half, half / 2))
            } else {
                root.root_power(m, half / 2)
            }
        }
    }

    /// `self` raised to the whole power `n` by repeated squaring.
    pub fn pow(self, n: u64) -> (s: Scalar)
        ensures
            s == self.spec_pow(n as nat),
        decreases n,
    {
        if n == 0 {
            Scalar { raw: SCALE }
        } else if n % 2 == 0 {
            let half = self.pow(n / 2);
            half.mul(half)
        } else {
            let rest = self.pow(n - 1);
            self.mul(rest)
        }
    }

    /// Whether the two numbers differ by less than `EPSILON`.
    pub fn approx_eq(self, rhs: Scalar) -> (b: bool)
        ensures
            b == self.spec_approx_eq(rhs),
    {
        let d: i128 = self.raw as i128 - rhs.raw as i128;
        -(EPSILON as i128) < d && d < EPSILON as i128
    }

    /// Whether `self` is less than `rhs`.
    pub fn lt(self, rhs: Scalar) -> (b: bool)
        ensures
            b == (self@ < rhs@),
    {
        self.raw < rhs.raw
    }

    /// Whether `self` is at most `rhs`.
    pub fn le(self, rhs: Scalar) -> (b: bool)
        ensures
            b == (self@ <= rhs@),
    {
        self.raw <= rhs.raw
    }

    /// Whether `self` is zero.
    pub fn is_zero(self) -> (b: bool)
        ensures
            b == (self@ == 0),
    {
        self.raw == 0
    }

    /// Whether `self` is below zero.
    pub fn is_negative(self) -> (b: bool)
        ensures
            b == (self@ < 0),
    {
        self.raw < 0
    }

    /// The channel intensity that a display shows for this amount of light.
    pub fn channel(self) -> (c: u8)
        ensures
            c == self.spec_channel(),
    {
        if self.raw < 0 {
            0
        } else if self.raw > SCALE {
            255
        } else {
            let scaled: i64 = (self.raw * 255 + 500_000_000) / 1_000_000_000;
            scaled as u8
        }
    }
}

/// The scalar of `x` raw units, saturated.
pub fn saturate(x: i128) -> (s: Scalar)
    ensures
        s == Scalar::of(x as int),
{
    if x < i64::MIN as i128 {
        Scalar { raw: i64::MIN }
    } else if x > i64::MAX as i128 {
        Scalar { raw: i64::MAX }
    } else {
        Scalar { raw: x as i64 }
    }
}

/// The quotient of `a` by `b`, rounded toward zero.
pub fn quotient(a: i128, b: i128) -> (q: i128)
    requires
        b != 0,
        a > i128::MIN,
        b > i128::MIN,
    ensures
        q == quot(a as int, b as int),
{
    let ua: u128 = if a < 0 {
        (-a) as u128
    } else {
        a as u128
    };
    let ub: u128 = if b < 0 {
        (-b) as u128
    } else {
        b as u128
    };
    let uq: u128 = ua / ub;
    assert(uq <= ua) by (nonlinear_arith)
        requires
            uq == ua / ub,
            ub >= 1,
    ;
    if (a < 0) != (b < 0) {
        -(uq as i128)
    } else {
        uq as i128
    }
}

/// The integer square root of `n`.
pub fn integer_root(n: u128) -> (r: u128)
    ensures
        is_root(r as int, n as int),
        r == root_of(n as int),
        r < 0x1_0000_0000_0000_0000,
{
    let mut lo: u128 = 0;
    let mut hi: u128 = 0x1_0000_0000_0000_0000;
    assert(n < hi * hi) by (nonlinear_arith)
        requires
            n < 0x1_0000_0000_0000_0000_0000_0000_0000_0000,
            hi == 0x1_0000_0000_0000_0000,
    ;
    while hi - lo > 1
        invariant
            lo < hi <= 0x1_0000_0000_0000_0000,
            lo * lo <= n < hi * hi,
        decreases hi - lo,
    {
        let mid: u128 = lo + (hi - lo) / 2;
        assert(mid * mid < 0x1_0000_0000_0000_0000_0000_0000_0000_0000) by (nonlinear_arith)
            requires
                mid < 0x1_0000_0000_0000_0000,
        ;
        if mid * mid <= n {
            lo = mid;
        } else {
            hi = mid;
        }
    }
    proof {
        lemma_root_is(lo as int, n as int);
    }
    lo
}

/// The square of a raw count, as an unsigned number.
pub fn square(x: i64) -> (q: u128)
    ensures
        q == x * x,
        q <= 0x4000_0000_0000_0000_0000_0000_0000_0000,
{
    let a: i128 = x as i128;
    let m: u128 = if a < 0 {
        (-a) as u128
    } else {
        a as u128
    };
    assert(m * m == x * x && m * m <= 0x4000_0000_0000_0000_0000_0000_0000_0000)
        by (nonlinear_arith)
        requires
            m == x || m == -x,
            m <= 0x8000_0000_0000_0000,
    ;
    m * m
}

} // verus!
