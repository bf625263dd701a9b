//! The two widths the kernel is offered in: double and single precision.

use crate::precision::{
    infinity_magnitude, is_finite, magnitude, sign_negative, spacing, units, units_per_one,
    Pattern, Precision,
};
use vstd::arithmetic::mul::lemma_mul_strictly_positive;
use vstd::arithmetic::power2::{
    lemma2_to64, lemma2_to64_rest, lemma_pow2_adds, lemma_pow2_pos, pow2,
};
use vstd::prelude::*;

verus! {

/// Half a spacing, proved on the significand and carried up to units.
///
/// A number whose `significand`, counted in spacings of `pow2(shift)` units,
/// is within half of `numerator * pow2(rest) / denominator` is, counted in
/// units, within half a spacing of `numerator * pow2(shift + rest) /
/// denominator`.
proof fn lemma_nearest_scales(
    significand: nat,
    shift: nat,
    rest: nat,
    numerator: nat,
    denominator: nat,
)
    requires
        2 * (significand * denominator - numerator * pow2(rest)) <= denominator,
        2 * (numerator * pow2(rest) - significand * denominator) <= denominator,
    ensures
        2 * (significand * pow2(shift) * denominator - numerator * pow2(shift + rest)) <= pow2(
            shift,
        ) * denominator,
        2 * (numerator * pow2(shift + rest) - significand * pow2(shift) * denominator) <= pow2(
            shift,
        ) * denominator,
{
    let q = pow2(shift) as int;
    let r = pow2(rest) as int;
    let m = significand as int;
    let n = numerator as int;
    let d = denominator as int;
    lemma_pow2_adds(shift, rest);
    lemma_pow2_pos(shift);
    assert(2 * (m * q * d - n * (q * r)) <= q * d && 2 * (n * (q * r) - m * q * d) <= q * d)
        by (nonlinear_arith)
        requires
            q > 0,
            2 * (m * d - n * r) <= d,
            2 * (n * r - m * d) <= d,
    ;
}

/// A double-precision bit pattern: one sign bit, eleven exponent bits and
/// fifty-two fraction bits.
#[derive(Clone, Copy, Debug, PartialEq, Eq)]
pub struct Binary64 {
    pub bits: u64,
}

impl Pattern for Binary64 {
    open spec fn exponent_bits() -> nat {
        11
    }

    open spec fn fraction_bits() -> nat {
        52
    }

    open spec fn raw(self) -> nat {
        self.bits as nat
    }
}

impl Binary64 {
    /// The sign, the magnitude and the infinity threshold in plain numbers.
    proof fn lemma_fields(self)
        ensures
            sign_negative(self) == (self.bits >= 0x8000_0000_0000_0000),
            magnitude(self) == if self.bits >= 0x8000_0000_0000_0000 {
                self.bits - 0x8000_0000_0000_0000
            } else {
                self.bits as int
            },
            infinity_magnitude::<Self>() == 0x7FF0_0000_0000_0000,
            pow2(Self::fraction_bits()) == 0x10_0000_0000_0000,
    {
        lemma2_to64();
        lemma2_to64_rest();
        assert(Self::exponent_bits() + Self::fraction_bits() == 63);
        assert(pow2(63) == 0x8000_0000_0000_0000);
    }

    /// What the fields of a positive normal pattern amount to.
    proof fn lemma_normal(self, biased: nat, fraction: nat)
        requires
            1 <= biased < 2047,
            fraction < 0x10_0000_0000_0000,
            self.bits == biased * 0x10_0000_0000_0000 + fraction,
        ensures
            is_finite(self),
            !sign_negative(self),
            units(self) == (0x10_0000_0000_0000 + fraction) * pow2((biased - 1) as nat),
            units(self) > 0,
            spacing(self) == pow2((biased - 1) as nat),
    {
        self.lemma_fields();
        lemma_pow2_pos((biased - 1) as nat);
        lemma_mul_strictly_positive(
            (0x10_0000_0000_0000 + fraction) as int,
            pow2((biased - 1) as nat) as int,
        );
        let p: nat = 0x10_0000_0000_0000;
        assert(self.bits < 0x7FF0_0000_0000_0000) by (nonlinear_arith)
            requires
                biased < 2047,
                fraction < 0x10_0000_0000_0000,
                self.bits == biased * 0x10_0000_0000_0000 + fraction,
        ;
        assert(self.bits as nat / p == biased && self.bits as nat % p == fraction)
            by (nonlinear_arith)
            requires
                fraction < p,
                self.bits == biased * p + fraction,
                p > 0,
        ;
    }
}

impl Precision for Binary64 {
    open spec fn pi_pattern() -> Self {
        Binary64 { bits: 0x4009_21FB_5444_2D18 }
    }

    open spec fn tolerance_pattern() -> Self {
        Binary64 { bits: 0x3D71_9799_812D_EA11 }
    }

    open spec fn damping_pattern() -> Self {
        Binary64 { bits: 0x3FEB_3333_3333_3333 }
    }

    open spec fn one_pattern() -> Self {
        Binary64 { bits: 0x3FF0_0000_0000_0000 }
    }

    fn sign(self) -> (n: bool) {
        proof {
            self.lemma_fields();
        }
        self.bits >= 0x8000_0000_0000_0000
    }

    fn magnitude_bits(self) -> (m: u64) {
        proof {
            self.lemma_fields();
        }
        if self.bits >= 0x8000_0000_0000_0000 {
            self.bits - 0x8000_0000_0000_0000
        } else {
            self.bits
        }
    }

    fn nan(self) -> (n: bool) {
        proof {
            self.lemma_fields();
        }
        self.magnitude_bits() > 0x7FF0_0000_0000_0000
    }

    fn pi() -> (c: Self) {
        Binary64 { bits: 0x4009_21FB_5444_2D18 }
    }

    fn tolerance() -> (c: Self) {
        Binary64 { bits: 0x3D71_9799_812D_EA11 }
    }

    fn damping() -> (c: Self) {
        Binary64 { bits: 0x3FEB_3333_3333_3333 }
    }

    fn one() -> (c: Self) {
        Binary64 { bits: 0x3FF0_0000_0000_0000 }
    }

    proof fn lemma_constants() {
        lemma2_to64();
        lemma2_to64_rest();
        assert(units_per_one::<Self>() == pow2(1074));
        // 3.14159...: significand 0x19_21FB_5444_2D18, in spacings of 2^-51.
        Self::pi_pattern().lemma_normal(1024, 0x9_21FB_5444_2D18);
        lemma_nearest_scales(
            0x19_21FB_5444_2D18,
            1023,
            51,
            314159265358979323846,
            100000000000000000000,
        );
        lemma_nearest_scales(
            0x19_21FB_5444_2D18,
            1023,
            51,
            314159265358979323847,
            100000000000000000000,
        );
        // 1e-12: significand 0x11_9799_812D_EA11, in spacings of 2^-92.
        Self::tolerance_pattern().lemma_normal(983, 0x1_9799_812D_EA11);
        lemma_pow2_adds(64, 28);
        assert(pow2(92) == 0x1000_0000_0000_0000_0000_0000);
        lemma_nearest_scales(0x11_9799_812D_EA11, 982, 92, 1, 1000000000000);
        // 0.85: significand 0x1B_3333_3333_3333, in spacings of 2^-53.
        Self::damping_pattern().lemma_normal(1022, 0xB_3333_3333_3333);
        lemma_nearest_scales(0x1B_3333_3333_3333, 1021, 53, 85, 100);
        // 1: significand 2^52, in spacings of 2^-52.
        Self::one_pattern().lemma_normal(1023, 0);
        lemma_pow2_adds(52, 1022);
    }
}

/// A single-precision bit pattern: one sign bit, eight exponent bits and
/// twenty-three fraction bits.
#[derive(Clone, Copy, Debug, PartialEq, Eq)]
pub struct Binary32 {
    pub bits: u32,
}

impl Pattern for Binary32 {
    open spec fn exponent_bits() -> nat {
        8
    }

    open spec fn fraction_bits() -> nat {
        23
    }

    open spec fn raw(self) -> nat {
        self.bits as nat
    }
}

impl Binary32 {
    /// The sign, the magnitude and the infinity threshold in plain numbers.
    proof fn lemma_fields(self)
        ensures
            sign_negative(self) == (self.bits >= 0x8000_0000),
            magnitude(self) == if self.bits >= 0x8000_0000 {
                self.bits - 0x8000_0000
            } else {
                self.bits as int
            },
            infinity_magnitude::<Self>() == 0x7F80_0000,
            pow2(Self::fraction_bits()) == 0x80_0000,
    {
        lemma2_to64();
        assert(Self::exponent_bits() + Self::fraction_bits() == 31);
        assert(pow2(31) == 0x8000_0000);
    }

    /// What the fields of a positive normal pattern amount to.
    proof fn lemma_normal(self, biased: nat, fraction: nat)
        requires
            1 <= biased < 255,
            fraction < 0x80_0000,
            self.bits == biased * 0x80_0000 + fraction,
        ensures
            is_finite(self),
            !sign_negative(self),
            units(self) == (0x80_0000 + fraction) * pow2((biased - 1) as nat),
            units(self) > 0,
            spacing(self) == pow2((biased - 1) as nat),
    {
        self.lemma_fields();
        lemma_pow2_pos((biased - 1) as nat);
        lemma_mul_strictly_positive(
            (0x80_0000 + fraction) as int,
            pow2((biased - 1) as nat) as int,
        );
        let p: nat = 0x80_0000;
        assert(self.bits < 0x7F80_0000) by (nonlinear_arith)
            requires
                biased < 255,
                fraction < 0x80_0000,
                self.bits == biased * 0x80_0000 + fraction,
        ;
        assert(self.bits as nat / p == biased && self.bits as nat % p == fraction)
            by (nonlinear_arith)
            requires
                fraction < p,
                self.bits == biased * p + fraction,
                p > 0,
        ;
    }
}

impl Precision for Binary32 {
    open spec fn pi_pattern() -> Self {
        Binary32 { bits: 0x4049_0FDB }
    }

    open spec fn tolerance_pattern() -> Self {
        Binary32 { bits: 0x2B8C_BCCC }
    }

    open spec fn damping_pattern() -> Self {
        Binary32 { bits: 0x3F59_999A }
    }

    open spec fn one_pattern() -> Self {
        Binary32 { bits: 0x3F80_0000 }
    }

    fn sign(self) -> (n: bool) {
        proof {
            self.lemma_fields();
        }
        self.bits >= 0x8000_0000
    }

    fn magnitude_bits(self) -> (m: u64) {
        proof {
            self.lemma_fields();
        }
        if self.bits >= 0x8000_0000 {
            (self.bits - 0x8000_0000) as u64
        } else {
            self.bits as u64
        }
    }

    fn nan(self) -> (n: bool) {
        proof {
            self.lemma_fields();
        }
        self.magnitude_bits() > 0x7F80_0000
    }

    fn pi() -> (c: Self) {
        Binary32 { bits: 0x4049_0FDB }
    }

    fn tolerance() -> (c: Self) {
        Binary32 { bits: 0x2B8C_BCCC }
    }

    fn damping() -> (c: Self) {
        Binary32 { bits: 0x3F59_999A }
    }

    fn one() -> (c: Self) {
        Binary32 { bits: 0x3F80_0000 }
    }

    proof fn lemma_constants() {
        lemma2_to64();
        lemma2_to64_rest();
        assert(units_per_one::<Self>() == pow2(149));
        // 3.14159...: significand 0xC9_0FDB, in spacings of 2^-22.
        Self::pi_pattern().lemma_normal(128, 0x49_0FDB);
        lemma_nearest_scales(0xC9_0FDB, 127, 22, 314159265358979323846, 100000000000000000000);
        lemma_nearest_scales(0xC9_0FDB, 127, 22, 314159265358979323847, 100000000000000000000);
        // 1e-12: significand 0x8C_BCCC, in spacings of 2^-63.
        Self::tolerance_pattern().lemma_normal(87, 0xC_BCCC);
        lemma_nearest_scales(0x8C_BCCC, 86, 63, 1, 1000000000000);
        // 0.85: significand 0xD9_999A, in spacings of 2^-24.
        Self::damping_pattern().lemma_normal(126, 0x59_999A);
        lemma_nearest_scales(0xD9_999A, 125, 24, 85, 100);
        // 1: significand 2^23, in spacings of 2^-23.
        Self::one_pattern().lemma_normal(127, 0);
        lemma_pow2_adds(23, 126);
    }
}

} // verus!
