//! Bit patterns of binary floating-point numbers, read as exact quantities.
//!
//! A pattern has a sign bit, a biased exponent of `exponent_bits` bits and a
//! fraction of `fraction_bits` bits. Every pattern that is not a NaN stands for
//! a whole number of *units*, one unit being the smallest positive value of the
//! format; an infinity is read as the first value beyond the largest finite
//! one.

use vstd::arithmetic::div_mod::{lemma_div_is_ordered, lemma_fundamental_div_mod, lemma_mod_bound};
use vstd::arithmetic::mul::{lemma_mul_inequality, lemma_mul_strict_inequality};
use vstd::arithmetic::power2::{
    lemma_pow2_pos, lemma_pow2_strictly_increases, lemma_pow2_unfold, pow2,
};
use vstd::prelude::*;

verus! {

/// The number of units that a pattern without its sign bit stands for.
///
/// With a biased exponent of zero the fraction counts units one by one; above
/// that the fraction gains its hidden leading bit and each step of the
/// exponent doubles the unit.
pub open spec fn magnitude_value(fraction_bits: nat, magnitude: nat) -> nat {
    let biased = magnitude / pow2(fraction_bits);
    let fraction = magnitude % pow2(fraction_bits);
    if biased == 0 {
        fraction
    } else {
        (pow2(fraction_bits) + fraction) * pow2((biased - 1) as nat)
    }
}

/// The distance, in units, from a magnitude to the next one above it.
pub open spec fn magnitude_spacing(fraction_bits: nat, magnitude: nat) -> nat {
    let biased = magnitude / pow2(fraction_bits);
    if biased == 0 {
        1
    } else {
        pow2((biased - 1) as nat)
    }
}

/// A larger magnitude stands for a larger value.
pub proof fn lemma_value_increases(fraction_bits: nat, low: nat, high: nat)
    requires
        low < high,
    ensures
        magnitude_value(fraction_bits, low) < magnitude_value(fraction_bits, high),
{
    let p = pow2(fraction_bits);
    let (b1, r1) = (low / p, low % p);
    let (b2, r2) = (high / p, high % p);
    lemma_pow2_pos(fraction_bits);
    lemma_fundamental_div_mod(low as int, p as int);
    lemma_fundamental_div_mod(high as int, p as int);
    lemma_mod_bound(low as int, p as int);
    lemma_mod_bound(high as int, p as int);
    lemma_div_is_ordered(low as int, high as int, p as int);
    if b1 == b2 {
        assert(r1 < r2);
        if b1 != 0 {
            let q = pow2((b1 - 1) as nat);
            lemma_pow2_pos((b1 - 1) as nat);
            lemma_mul_strict_inequality((p + r1) as int, (p + r2) as int, q as int);
        }
    } else {
        let q2 = pow2((b2 - 1) as nat);
        lemma_pow2_pos((b2 - 1) as nat);
        // The higher value is at least its hidden bit.
        lemma_mul_inequality(p as int, (p + r2) as int, q2 as int);
        if b1 == 0 {
            lemma_mul_inequality(1, q2 as int, p as int);
        } else {
            let q1 = pow2((b1 - 1) as nat);
            lemma_pow2_pos((b1 - 1) as nat);
            lemma_mul_strict_inequality((p + r1) as int, (2 * p) as int, q1 as int);
            lemma_pow2_unfold(b1);
            assert(2 * p * q1 == p * pow2(b1)) by (nonlinear_arith)
                requires
                    pow2(b1) == 2 * q1,
            ;
            if b1 < b2 - 1 {
                lemma_pow2_strictly_increases(b1, (b2 - 1) as nat);
            }
            lemma_mul_inequality(pow2(b1) as int, q2 as int, p as int);
            assert(p * pow2(b1) == pow2(b1) * p) by (nonlinear_arith);
            assert(p * q2 == q2 * p) by (nonlinear_arith);
        }
    }
}

/// What a bit pattern is made of: the widths of its fields and the bits
/// themselves.
pub trait Pattern {
    /// Width of the biased exponent.
    spec fn exponent_bits() -> nat;

    /// Width of the fraction.
    spec fn fraction_bits() -> nat;

    /// The pattern read as an unsigned number.
    spec fn raw(self) -> nat;
}

/// Whether the sign bit of `p` is set.
pub open spec fn sign_negative<P: Pattern>(p: P) -> bool {
    p.raw() >= pow2(P::exponent_bits() + P::fraction_bits())
}

/// The pattern `p` without its sign bit.
pub open spec fn magnitude<P: Pattern>(p: P) -> nat {
    p.raw() % pow2(P::exponent_bits() + P::fraction_bits())
}

/// The magnitude of the two infinities: every exponent bit set, no fraction
/// bit set.
pub open spec fn infinity_magnitude<P: Pattern>() -> nat {
    ((pow2(P::exponent_bits()) - 1) * pow2(P::fraction_bits())) as nat
}

/// Whether `p` is one of the two zeros.
pub open spec fn is_zero<P: Pattern>(p: P) -> bool {
    magnitude(p) == 0
}

/// Whether `p` is not a number: every exponent bit set and some fraction bit
/// set.
pub open spec fn is_nan<P: Pattern>(p: P) -> bool {
    magnitude(p) > infinity_magnitude::<P>()
}

/// Whether `p` is a number other than an infinity.
pub open spec fn is_finite<P: Pattern>(p: P) -> bool {
    magnitude(p) < infinity_magnitude::<P>()
}

/// The number of units that `p` stands for, with its sign.
pub open spec fn units<P: Pattern>(p: P) -> int {
    let size = magnitude_value(P::fraction_bits(), magnitude(p)) as int;
    if sign_negative(p) {
        -size
    } else {
        size
    }
}

/// The distance, in units, from `p` to its neighbour away from zero.
pub open spec fn spacing<P: Pattern>(p: P) -> nat {
    magnitude_spacing(P::fraction_bits(), magnitude(p))
}

/// The number of units that make up the value one. A unit is two to the
/// power of `2 - 2^(exponent_bits - 1) - fraction_bits`, so this is two to the
/// power of `2^(exponent_bits - 1) - 2 + fraction_bits`.
pub open spec fn units_per_one<P: Pattern>() -> nat {
    pow2((pow2((P::exponent_bits() - 1) as nat) - 2 + P::fraction_bits()) as nat)
}

/// The comparison `a < b` of the two numbers: false when either is a NaN, and
/// the two zeros are equal.
pub open spec fn below<P: Pattern>(a: P, b: P) -> bool {
    !is_nan(a) && !is_nan(b) && units(a) < units(b)
}

/// The comparison `|a| <= bound` of the two numbers: false when either is a
/// NaN.
pub open spec fn within<P: Pattern>(a: P, bound: P) -> bool {
    !is_nan(a) && !is_nan(bound) && units(a) <= units(bound) && -units(a) <= units(bound)
}

/// Whether `p` is a finite number at most half a spacing away from the ratio
/// `numerator / denominator`.
pub open spec fn approximates<P: Pattern>(p: P, numerator: nat, denominator: nat) -> bool {
    let exact = numerator * units_per_one::<P>();
    let held = units(p) * denominator;
    &&& is_finite(p)
    &&& 2 * (held - exact) <= spacing(p) * denominator
    &&& 2 * (exact - held) <= spacing(p) * denominator
}

/// Magnitudes are ordered as the values they stand for, and only the zero
/// magnitude stands for zero.
pub proof fn lemma_value_order(fraction_bits: nat, x: nat, y: nat)
    ensures
        x < y <==> magnitude_value(fraction_bits, x) < magnitude_value(fraction_bits, y),
        x == y <==> magnitude_value(fraction_bits, x) == magnitude_value(fraction_bits, y),
        x == 0 <==> magnitude_value(fraction_bits, x) == 0,
{
    if x < y {
        lemma_value_increases(fraction_bits, x, y);
    }
    if y < x {
        lemma_value_increases(fraction_bits, y, x);
    }
    if 0 < x {
        lemma_value_increases(fraction_bits, 0, x);
    }
    lemma_pow2_pos(fraction_bits);
    assert(magnitude_value(fraction_bits, 0) == 0);
}

/// The magnitude of `p` with its sign: an integer that is easy to compute
/// from the bits and that orders the numbers as [`units`] does.
pub open spec fn ordinal<P: Pattern>(p: P) -> int {
    if sign_negative(p) {
        -(magnitude(p) as int)
    } else {
        magnitude(p) as int
    }
}

/// Patterns are ordered as the numbers they stand for: comparing the signed
/// magnitudes of two patterns compares their values.
pub proof fn lemma_order_by_ordinal<P: Pattern>(a: P, b: P)
    ensures
        units(a) < units(b) <==> ordinal(a) < ordinal(b),
        units(a) == units(b) <==> ordinal(a) == ordinal(b),
        below(a, b) <==> !is_nan(a) && !is_nan(b) && ordinal(a) < ordinal(b),
        within(a, b) <==> !is_nan(a) && !is_nan(b) && ordinal(a) <= ordinal(b) && -ordinal(a)
            <= ordinal(b),
{
    lemma_value_order(P::fraction_bits(), magnitude(a), magnitude(b));
    lemma_value_order(P::fraction_bits(), magnitude(b), magnitude(a));
}

/// A zero is within every bound that is a positive number.
pub proof fn lemma_zero_within<P: Pattern>(zero: P, bound: P)
    requires
        is_zero(zero),
        !is_nan(bound),
        0 < units(bound),
    ensures
        within(zero, bound),
{
    lemma_value_order(P::fraction_bits(), 0, infinity_magnitude::<P>());
}

/// A floating-point width in which the kernel can run.
///
/// A value of the type is one bit pattern of that width. The associated
/// constants are the patterns that the solver compares against and hands to
/// the arithmetic.
pub trait Precision: Pattern + Copy {
    /// The pattern of the ratio of a circle's circumference to its diameter.
    spec fn pi_pattern() -> Self;

    /// The pattern of the residual below which an estimate is accepted, one
    /// part in a million million.
    spec fn tolerance_pattern() -> Self;

    /// The pattern of the factor, 0.85, by which the eccentricity is scaled
    /// in the starting estimate.
    spec fn damping_pattern() -> Self;

    /// The pattern of the number one.
    spec fn one_pattern() -> Self;

    /// Whether the sign bit is set.
    fn sign(self) -> (n: bool)
        ensures
            n == sign_negative(self),
    ;

    /// The pattern without its sign bit.
    fn magnitude_bits(self) -> (m: u64)
        ensures
            m == magnitude(self),
    ;

    /// Whether the pattern is not a number.
    fn nan(self) -> (n: bool)
        ensures
            n == is_nan(self),
    ;

    /// The pattern of the ratio of a circle's circumference to its diameter.
    fn pi() -> (c: Self)
        ensures
            c == Self::pi_pattern(),
    ;

    /// The pattern of the convergence tolerance.
    fn tolerance() -> (c: Self)
        ensures
            c == Self::tolerance_pattern(),
    ;

    /// The pattern of the damping factor of the starting estimate.
    fn damping() -> (c: Self)
        ensures
            c == Self::damping_pattern(),
    ;

    /// The pattern of the number one.
    fn one() -> (c: Self)
        ensures
            c == Self::one_pattern(),
    ;

    /// Each constant is a positive number within half a spacing of the
    /// number it is named after, and the number one is held exactly. For the
    /// circle constant the distance is taken from both ends of an interval of
    /// width 1e-20 that holds it.
    proof fn lemma_constants()
        ensures
            approximates(Self::pi_pattern(), 314159265358979323846, 100000000000000000000),
            approximates(Self::pi_pattern(), 314159265358979323847, 100000000000000000000),
            0 < units(Self::pi_pattern()),
            approximates(Self::tolerance_pattern(), 1, 1000000000000),
            0 < units(Self::tolerance_pattern()),
            approximates(Self::damping_pattern(), 85, 100),
            0 < units(Self::damping_pattern()),
            is_finite(Self::one_pattern()),
            units(Self::one_pattern()) == units_per_one::<Self>(),
    ;
}

/// The comparison `a < b` of two numbers by their patterns.
pub fn less_than<P: Precision>(a: P, b: P) -> (r: bool)
    ensures
        r == below(a, b),
{
    if a.nan() || b.nan() {
        return false;
    }
    let size_a = a.magnitude_bits();
    let size_b = b.magnitude_bits();
    proof {
        lemma_order_by_ordinal(a, b);
    }
    if a.sign() {
        if b.sign() {
            size_b < size_a
        } else {
            size_a != 0 || size_b != 0
        }
    } else {
        !b.sign() && size_a < size_b
    }
}

/// The comparison `|a| <= bound` of two numbers by their patterns.
pub fn magnitude_within<P: Precision>(a: P, bound: P) -> (r: bool)
    ensures
        r == within(a, bound),
{
    if a.nan() || bound.nan() {
        return false;
    }
    let size_a = a.magnitude_bits();
    let size_b = bound.magnitude_bits();
    proof {
        lemma_order_by_ordinal(a, bound);
    }
    if bound.sign() {
        size_a == 0 && size_b == 0
    } else {
        size_a <= size_b
    }
}

} // verus!
