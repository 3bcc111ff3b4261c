//! Laws of the power: what it gives at the exponents zero, one, two and
//! one half and at the base one, that it is the repeated product at a
//! whole exponent, and that a power of a fraction is a fraction.
use crate::laws::rounding::lemma_quot_scale;
use crate::scalar::{
    clip, is_root, lemma_root_exists, lemma_root_is, quot, root_of, Scalar, SCALE,
};
use vstd::prelude::*;

verus! {

/// `x` lies between zero and one, both included.
pub open spec fn is_fraction(x: Scalar) -> bool {
    0 <= x@ <= SCALE
}

/// Any number to the power zero is one.
pub proof fn law_power_zero(x: Scalar)
    ensures
        x.spec_powf(Scalar::spec_zero()) == Scalar::spec_one(),
{
    assert(SCALE == 1_000_000_000);
    assert(x.spec_pow(0) == Scalar::spec_one());
    lemma_no_fraction(x, 0x2000_0000);
    lemma_times_one(Scalar::spec_one());
}

/// Any number to the power one is the number.
pub proof fn law_power_one(x: Scalar)
    ensures
        x.spec_powf(Scalar::spec_one()) == x,
{
    assert(SCALE == 1_000_000_000);
    let one = Scalar::spec_one();
    assert(x.spec_pow(0) == one);
    assert(x.spec_pow(1) == x.spec_mul(x.spec_pow(0)));
    lemma_no_fraction(x, 0x2000_0000);
    lemma_times_one(x);
}

/// At a whole exponent the power is the repeated product.
pub proof fn law_power_whole(x: Scalar, n: nat)
    requires
        n <= 9_223_372_036,
    ensures
        x.spec_powf(Scalar::of(n * SCALE)) == x.spec_pow(n),
{
    assert(SCALE == 1_000_000_000);
    let y: int = n as int * 1_000_000_000;
    assert(n * SCALE == y) by (nonlinear_arith)
        requires
            SCALE == 1_000_000_000,
            y == n as int * 1_000_000_000,
    ;
    assert(Scalar::of(y)@ == y);
    assert(y / 1_000_000_000 == n && y % 1_000_000_000 == 0);
    lemma_no_fraction(x, 0x2000_0000);
    lemma_times_one(x.spec_pow(n));
}

/// The power two is the square.
pub proof fn law_power_two(x: Scalar)
    ensures
        x.spec_powf(Scalar::of(2 * SCALE)) == x.spec_mul(x),
{
    assert(SCALE == 1_000_000_000);
    law_power_whole(x, 2);
    let one = Scalar::spec_one();
    assert(x.spec_pow(0) == one);
    assert(x.spec_pow(1) == x.spec_mul(x.spec_pow(0)));
    assert(x.spec_pow(2) == x.spec_pow(1).spec_mul(x.spec_pow(1)));
    lemma_times_one(x);
}

/// The power one half is the square root.
pub proof fn law_power_half(x: Scalar)
    ensures
        x.spec_powf(Scalar::of(SCALE / 2)) == x.spec_sqrt(),
{
    assert(SCALE == 1_000_000_000);
    let one = Scalar::spec_one();
    let root = x.spec_sqrt();
    assert(Scalar::of(SCALE / 2)@ == 500_000_000);
    assert((500_000_000int * 0x4000_0000) / 1_000_000_000 == 0x2000_0000);
    assert(x.spec_pow(0) == one);
    lemma_no_fraction(root, 0x1000_0000);
    assert(x.spec_root_power(0x2000_0000, 0x2000_0000) == root.spec_mul(
        root.spec_root_power(0, 0x1000_0000),
    ));
    lemma_times_one(root);
    lemma_one_times(root);
}

/// One to any power is one.
pub proof fn law_power_of_one(y: Scalar)
    ensures
        Scalar::spec_one().spec_powf(y) == Scalar::spec_one(),
{
    assert(SCALE == 1_000_000_000);
    let one = Scalar::spec_one();
    let up = if y@ < 0 {
        clip(-y@)
    } else {
        y@
    };
    let whole = up / 1_000_000_000;
    let part = ((up % 1_000_000_000) * 0x4000_0000) / 1_000_000_000;
    lemma_whole_power_of_one(whole as nat);
    lemma_fraction_power_of_one(part, 0x2000_0000);
    lemma_times_one(one);
    assert(one.spec_powf_up(up) == one);
    assert(one@ * SCALE == 1_000_000_000 * one@) by (nonlinear_arith)
        requires
            SCALE == 1_000_000_000,
    ;
    lemma_quot_scale(1_000_000_000 * one@);
}

/// A power of a fraction is a fraction: for a base from zero to one and an
/// exponent that is not negative, the power lies from zero to one.
pub proof fn law_power_of_fraction(x: Scalar, y: Scalar)
    requires
        is_fraction(x),
        y@ >= 0,
    ensures
        is_fraction(x.spec_powf(y)),
{
    assert(SCALE == 1_000_000_000);
    let whole = y@ / 1_000_000_000;
    let part = ((y@ % 1_000_000_000) * 0x4000_0000) / 1_000_000_000;
    lemma_whole_power_of_fraction(x, whole as nat);
    lemma_fraction_power_of_fraction(x, part, 0x2000_0000);
    lemma_fractions_multiply(x.spec_pow(whole as nat), x.spec_root_power(part, 0x2000_0000));
}

/// A scalar times one is the scalar.
proof fn lemma_times_one(a: Scalar)
    ensures
        a.spec_mul(Scalar::spec_one()) == a,
{
    assert(SCALE == 1_000_000_000);
    assert(a@ * Scalar::spec_one()@ == 1_000_000_000 * a@) by (nonlinear_arith)
        requires
            Scalar::spec_one()@ == 1_000_000_000,
    ;
    lemma_quot_scale(1_000_000_000 * a@);
}

/// One times a scalar is the scalar.
proof fn lemma_one_times(a: Scalar)
    ensures
        Scalar::spec_one().spec_mul(a) == a,
{
    assert(SCALE == 1_000_000_000);
    assert(Scalar::spec_one()@ * a@ == 1_000_000_000 * a@) by (nonlinear_arith)
        requires
            Scalar::spec_one()@ == 1_000_000_000,
    ;
    lemma_quot_scale(1_000_000_000 * a@);
}

/// The product of two fractions is a fraction.
proof fn lemma_fractions_multiply(a: Scalar, b: Scalar)
    requires
        is_fraction(a),
        is_fraction(b),
    ensures
        is_fraction(a.spec_mul(b)),
{
    assert(SCALE == 1_000_000_000);
    let p = a@ * b@;
    assert(0 <= p <= 1_000_000_000 * 1_000_000_000) by (nonlinear_arith)
        requires
            p == a@ * b@,
            0 <= a@ <= 1_000_000_000,
            0 <= b@ <= 1_000_000_000,
    ;
    lemma_quot_scale(p);
    let q = quot(p, SCALE as int);
    assert(q <= 1_000_000_000) by (nonlinear_arith)
        requires
            q * 1_000_000_000 <= p,
            p <= 1_000_000_000 * 1_000_000_000,
    ;
}

/// The square root of a fraction is a fraction, and the root of one is
/// one.
proof fn lemma_fraction_root(a: Scalar)
    requires
        is_fraction(a),
    ensures
        is_fraction(a.spec_sqrt()),
        a == Scalar::spec_one() ==> a.spec_sqrt() == a,
{
    assert(SCALE == 1_000_000_000);
    if a@ > 0 {
        let n = a@ * SCALE;
        assert(0 <= n <= 1_000_000_000 * 1_000_000_000 && (a@ == 1_000_000_000 ==> n
            == 1_000_000_000 * 1_000_000_000)) by (nonlinear_arith)
            requires
                n == a@ * SCALE,
                SCALE == 1_000_000_000,
                0 <= a@ <= 1_000_000_000,
        ;
        lemma_root_exists(n as nat);
        let r = root_of(n);
        if r > 1_000_000_000 {
            assert(r * r > 1_000_000_000 * 1_000_000_000) by (nonlinear_arith)
                requires
                    r > 1_000_000_000,
            ;
        }
        if a@ == 1_000_000_000 {
            assert(is_root(1_000_000_000, n)) by (nonlinear_arith)
                requires
                    n == 1_000_000_000 * 1_000_000_000,
            ;
            lemma_root_is(1_000_000_000, n);
        }
    }
}

/// A whole power of one is one.
proof fn lemma_whole_power_of_one(n: nat)
    ensures
        Scalar::spec_one().spec_pow(n) == Scalar::spec_one(),
    decreases n,
{
    let one = Scalar::spec_one();
    lemma_times_one(one);
    if n == 0 {
    } else if n % 2 == 0 {
        lemma_whole_power_of_one(n / 2);
    } else {
        lemma_whole_power_of_one((n - 1) as nat);
    }
}

/// A whole power of a fraction is a fraction.
proof fn lemma_whole_power_of_fraction(x: Scalar, n: nat)
    requires
        is_fraction(x),
    ensures
        is_fraction(x.spec_pow(n)),
    decreases n,
{
    assert(SCALE == 1_000_000_000);
    if n == 0 {
    } else if n % 2 == 0 {
        lemma_whole_power_of_fraction(x, n / 2);
        lemma_fractions_multiply(x.spec_pow(n / 2), x.spec_pow(n / 2));
    } else {
        lemma_whole_power_of_fraction(x, (n - 1) as nat);
        lemma_fractions_multiply(x, x.spec_pow((n - 1) as nat));
    }
}

/// With no parts of the fraction picked, the power is one.
proof fn lemma_no_fraction(x: Scalar, half: int)
    ensures
        x.spec_root_power(0, half) == Scalar::spec_one(),
    decreases half,
{
    if half > 0 {
        lemma_no_fraction(x.spec_sqrt(), half / 2);
    }
}

/// A fractional power of one is one.
proof fn lemma_fraction_power_of_one(m: int, half: int)
    ensures
        Scalar::spec_one().spec_root_power(m, half) == Scalar::spec_one(),
    decreases half,
{
    assert(SCALE == 1_000_000_000);
    let one = Scalar::spec_one();
    if half > 0 {
        lemma_fraction_root(one);
        lemma_times_one(one);
        lemma_fraction_power_of_one(m - half, half / 2);
        lemma_fraction_power_of_one(m, half / 2);
    }
}

/// A fractional power of a fraction is a fraction.
proof fn lemma_fraction_power_of_fraction(x: Scalar, m: int, half: int)
    requires
        is_fraction(x),
    ensures
        is_fraction(x.spec_root_power(m, half)),
    decreases half,
{
    assert(SCALE == 1_000_000_000);
    if half > 0 {
        let root = x.spec_sqrt();
        lemma_fraction_root(x);
        lemma_fraction_power_of_fraction(root, m - half, half / 2);
        lemma_fraction_power_of_fraction(root, m, half / 2);
        lemma_fractions_multiply(root, root.spec_root_power(m - half, half / 2));
    }
}

} // verus!
