//! Numbers of the two IEEE 754 binary interchange formats, held by their bit
//! patterns, and the operations that the breaker needs of them.
use vstd::arithmetic::div_mod::*;
use vstd::arithmetic::mul::*;
use vstd::arithmetic::power2::*;
use vstd::bits::*;
use vstd::prelude::*;

use crate::rounding;

verus! {

/// A 32-bit floating-point number. `bits` is its interchange encoding, as given
/// by `to_bits` and taken by `from_bits` of the primitive type.
#[derive(Debug, Clone, Copy, PartialEq, Eq, Structural)]
pub struct Binary32 {
    /// The encoding: sign, exponent and fraction, from the top bit down.
    pub bits: u32,
}

/// A 64-bit floating-point number. `bits` is its interchange encoding, as given
/// by `to_bits` and taken by `from_bits` of the primitive type.
#[derive(Debug, Clone, Copy, PartialEq, Eq, Structural)]
pub struct Binary64 {
    /// The encoding: sign, exponent and fraction, from the top bit down.
    pub bits: u64,
}

/// Significant bits of a 32-bit number.
pub const PRECISION_32: u32 = 24;

/// The smallest positive 32-bit number is 2 to minus this.
pub const SCALE_32: u32 = 149;

/// Significant bits of a 64-bit number.
pub const PRECISION_64: u32 = 53;

/// The smallest positive 64-bit number is 2 to minus this.
pub const SCALE_64: u32 = 1074;

/// The encoding of one as a 32-bit number.
pub const ONE_32: u32 = 0x3f80_0000;

/// The encoding of one as a 64-bit number.
pub const ONE_64: u64 = 0x3ff0_0000_0000_0000;

impl Binary32 {
    /// The place of this number in the order of the format, `None` for a NaN.
    /// Both zeros have place zero.
    pub open spec fn rank(self) -> Option<int> {
        let magnitude = self.bits as int % 0x8000_0000;
        if magnitude > 0x7f80_0000 {
            None
        } else if self.bits < 0x8000_0000 {
            Some(magnitude)
        } else {
            Some(-magnitude)
        }
    }

    /// `self >= other`. False where either is a NaN.
    pub open spec fn at_least_spec(self, other: Binary32) -> bool {
        match (self.rank(), other.rank()) {
            (Some(a), Some(b)) => a >= b,
            _ => false,
        }
    }

    /// `self > 0`. False for a NaN and for both zeros.
    pub open spec fn positive_spec(self) -> bool {
        match self.rank() {
            Some(a) => a > 0,
            None => false,
        }
    }

    /// `self` moved into the interval from zero to one. A NaN becomes zero.
    pub open spec fn clamp_unit_spec(self) -> Binary32 {
        match self.rank() {
            Some(a) => if a < 0 {
                Binary32 { bits: 0 }
            } else if a > ONE_32 {
                Binary32 { bits: ONE_32 }
            } else {
                self
            },
            None => Binary32 { bits: 0 },
        }
    }

    /// The encoding of the quotient of two integers, each converted to the
    /// format first.
    pub open spec fn ratio_spec(n: nat, d: nat) -> nat {
        rounding::quotient(PRECISION_32 as nat, SCALE_32 as nat, n, d)
    }

    fn place(self) -> (r: Option<i64>)
        ensures
            match (r, self.rank()) {
                (Some(a), Some(b)) => a == b,
                (None, None) => true,
                _ => false,
            },
    {
        let magnitude: u32 = self.bits % 0x8000_0000;
        if magnitude > 0x7f80_0000 {
            None
        } else if self.bits < 0x8000_0000 {
            Some(magnitude as i64)
        } else {
            Some(-(magnitude as i64))
        }
    }

    /// Whether this number is at least `other`.
    pub fn at_least(self, other: Binary32) -> (r: bool)
        ensures
            r == self.at_least_spec(other),
    {
        match (self.place(), other.place()) {
            (Some(a), Some(b)) => a >= b,
            _ => false,
        }
    }

    /// Whether this number is above zero.
    pub fn is_positive(self) -> (r: bool)
        ensures
            r == self.positive_spec(),
    {
        match self.place() {
            Some(a) => a > 0,
            None => false,
        }
    }

    /// This number, moved into the interval from zero to one.
    pub fn clamp_unit(self) -> (r: Binary32)
        ensures
            r == self.clamp_unit_spec(),
    {
        match self.place() {
            Some(a) => {
                if a < 0 {
                    Binary32 { bits: 0 }
                } else if a > ONE_32 as i64 {
                    Binary32 { bits: ONE_32 }
                } else {
                    self
                }
            },
            None => Binary32 { bits: 0 },
        }
    }

    /// The fraction `n / d` as a 32-bit number: both are converted, then
    /// divided, each step rounded to nearest with ties to even.
    pub fn ratio(n: u32, d: u32) -> (r: Binary32)
        requires
            n <= d,
            d > 0,
        ensures
            r.bits == Binary32::ratio_spec(n as nat, d as nat),
            r.bits <= ONE_32,
    {
        proof {
            lemma2_to64();
            lemma_one_32();
            rounding::lemma_quotient_at_most_one(24, 149, n as nat, d as nat);
        }
        let bits: u128 = rounding::divide(
            PRECISION_32,
            SCALE_32,
            0x80_0000,
            n as u128,
            d as u128,
        );
        Binary32 { bits: bits as u32 }
    }
}

impl Binary64 {
    /// The place of this number in the order of the format, `None` for a NaN.
    /// Both zeros have place zero.
    pub open spec fn rank(self) -> Option<int> {
        let magnitude = self.bits as int % 0x8000_0000_0000_0000;
        if magnitude > 0x7ff0_0000_0000_0000 {
            None
        } else if self.bits < 0x8000_0000_0000_0000 {
            Some(magnitude)
        } else {
            Some(-magnitude)
        }
    }

    /// `self == other` as numbers: both zeros are equal, and a NaN equals nothing.
    pub open spec fn equals_spec(self, other: Binary64) -> bool {
        self.rank() is Some && self.rank() == other.rank()
    }

    /// This number is one or more. False for a NaN.
    pub open spec fn at_least_one_spec(self) -> bool {
        self.rank() is Some && self.rank()->0 >= ONE_64
    }

    /// This number is zero, of either sign.
    pub open spec fn zero_spec(self) -> bool {
        self.rank() == Some(0int)
    }

    /// `self` moved into the interval from zero to one. A NaN becomes zero.
    pub open spec fn clamp_unit_spec(self) -> Binary64 {
        match self.rank() {
            Some(a) => if a < 0 {
                Binary64 { bits: 0 }
            } else if a > ONE_64 {
                Binary64 { bits: ONE_64 }
            } else {
                self
            },
            None => Binary64 { bits: 0 },
        }
    }

    /// The encoding of the quotient of two integers, each converted to the
    /// format first.
    pub open spec fn ratio_spec(n: nat, d: nat) -> nat {
        rounding::quotient(PRECISION_64 as nat, SCALE_64 as nat, n, d)
    }

    /// Whether the two are equal as numbers.
    pub fn equals(self, other: Binary64) -> (r: bool)
        ensures
            r == self.equals_spec(other),
    {
        let magnitude: u64 = self.bits % 0x8000_0000_0000_0000;
        if magnitude > 0x7ff0_0000_0000_0000 {
            false
        } else {
            self.bits == other.bits || magnitude == 0 && other.is_zero()
        }
    }

    /// Whether this number is one or more.
    pub fn is_at_least_one(self) -> (r: bool)
        ensures
            r == self.at_least_one_spec(),
    {
        ONE_64 <= self.bits && self.bits <= 0x7ff0_0000_0000_0000
    }

    /// Whether this number is zero, of either sign.
    pub fn is_zero(self) -> (r: bool)
        ensures
            r == self.zero_spec(),
    {
        self.bits % 0x8000_0000_0000_0000 == 0
    }

    /// This number, moved into the interval from zero to one.
    pub fn clamp_unit(self) -> (r: Binary64)
        ensures
            r == self.clamp_unit_spec(),
    {
        let magnitude: u64 = self.bits % 0x8000_0000_0000_0000;
        if magnitude > 0x7ff0_0000_0000_0000 {
            Binary64 { bits: 0 }
        } else if self.bits >= 0x8000_0000_0000_0000 {
            if magnitude > 0 {
                Binary64 { bits: 0 }
            } else {
                self
            }
        } else if magnitude > ONE_64 {
            Binary64 { bits: ONE_64 }
        } else {
            self
        }
    }

    /// The fraction `n / d` as a 64-bit number: both are converted, then
    /// divided, each step rounded to nearest with ties to even.
    pub fn ratio(n: u64, d: u128) -> (r: Binary64)
        requires
            n <= d,
            0 < d <= 0x2_0000_0000_0000_0000,
        ensures
            r.bits == Binary64::ratio_spec(n as nat, d as nat),
            r.bits <= ONE_64,
    {
        proof {
            lemma2_to64();
            lemma2_to64_rest();
            lemma_one_64();
            rounding::lemma_quotient_at_most_one(53, 1074, n as nat, d as nat);
        }
        let bits: u128 = rounding::divide(
            PRECISION_64,
            SCALE_64,
            0x10_0000_0000_0000,
            n as u128,
            d,
        );
        Binary64 { bits: bits as u64 }
    }
}

impl Binary64 {
    /// The product of this number, from zero to one, and an integer, rounded down.
    pub open spec fn share_spec(self, whole: u128) -> nat {
        (whole as nat * rounding::scaled(53, self.bits as nat)) / pow2(1074)
    }

    /// The product of this number, from zero to one, and an integer, rounded down.
    pub fn share_of(self, whole: u128) -> (r: u128)
        requires
            self.bits <= ONE_64,
        ensures
            r == self.share_spec(whole),
            r <= whole,
    {
        proof {
            lemma2_to64();
            lemma2_to64_rest();
        }
        if self.bits == ONE_64 {
            proof {
                lemma_scaled_one_64();
                lemma_pow2_pos(1074);
                lemma_div_by_multiple(whole as int, pow2(1074) as int);
            }
            return whole;
        }
        let field: u64 = self.bits / 0x10_0000_0000_0000;
        let fraction: u64 = self.bits % 0x10_0000_0000_0000;
        let significand: u128 = if field == 0 {
            fraction as u128
        } else {
            0x10_0000_0000_0000 + fraction as u128
        };
        let up: u32 = if field == 0 {
            0
        } else {
            (field - 1) as u32
        };
        let down: u32 = 1074 - up;
        proof {
            assert(self.bits < 0x3ff0_0000_0000_0000);
            assert(field <= 1022);
            lemma_share(whole as nat, significand as nat, up as nat, down as nat);
            if field == 0 {
                lemma_pow2_pos(0);
                assert(significand * pow2(0) == significand) by (nonlinear_arith)
                    requires
                        pow2(0) == 1,
                ;
            }
            assert(rounding::scaled(53, self.bits as nat) == significand * pow2(up as nat));
        }
        let high: u128 = whole / 0x1_0000_0000_0000_0000;
        let low: u128 = whole % 0x1_0000_0000_0000_0000;
        proof {
            assert(high * significand <= 0xffff_ffff_ffff_ffff * 0x1f_ffff_ffff_ffff)
                by (nonlinear_arith)
                requires
                    high <= 0xffff_ffff_ffff_ffff,
                    significand <= 0x1f_ffff_ffff_ffff,
            ;
            assert(low * significand <= 0xffff_ffff_ffff_ffff * 0x1f_ffff_ffff_ffff)
                by (nonlinear_arith)
                requires
                    low <= 0xffff_ffff_ffff_ffff,
                    significand <= 0x1f_ffff_ffff_ffff,
            ;
        }
        let lower: u128 = low * significand;
        let top: u128 = high * significand + lower / 0x1_0000_0000_0000_0000;
        let rest: u128 = lower % 0x1_0000_0000_0000_0000;
        let ghost product = whole as nat * significand as nat;
        proof {
            assert(product == top * 0x1_0000_0000_0000_0000 + rest) by (nonlinear_arith)
                requires
                    product == whole * significand,
                    whole == high * 0x1_0000_0000_0000_0000 + low,
                    lower == low * significand,
                    top == high * significand + lower / 0x1_0000_0000_0000_0000,
                    rest == lower % 0x1_0000_0000_0000_0000,
            ;
            lemma_share_at_most(whole as nat, significand as nat, down as nat);
        }
        if down >= 64 {
            let by: u32 = down - 64;
            proof {
                lemma_pow2_pos(64);
                lemma_pow2_pos(by as nat);
                lemma_pow2_adds(64, by as nat);
                lemma_div_denominator(product as int, pow2(64) as int, pow2(by as nat) as int);
                lemma_fundamental_div_mod_converse(
                    product as int,
                    pow2(64) as int,
                    top as int,
                    rest as int,
                );
            }
            if by >= 128 {
                proof {
                    lemma_pow2_adds(64, 64);
                    if by > 128 {
                        lemma_pow2_strictly_increases(128, by as nat);
                    }
                    lemma_basic_div(top as int, pow2(by as nat) as int);
                }
                0
            } else {
                proof {
                    lemma_u128_shr_is_div(top, by as u128);
                }
                top >> (by as u128)
            }
        } else {
            let units: u128 = 0x1_0000_0000_0000_0000u128 >> (down as u128);
            proof {
                let ones = pow2(down as nat);
                lemma_pow2_pos(down as nat);
                lemma_u128_shr_is_div(0x1_0000_0000_0000_0000u128, down as u128);
                lemma_u128_shr_is_div(rest, down as u128);
                lemma_pow2_adds((64 - down) as nat, down as nat);
                lemma_div_by_multiple(pow2((64 - down) as nat) as int, ones as int);
                assert(units == pow2((64 - down) as nat));
                lemma_hoist_over_denominator(rest as int, top * units, ones);
                assert(rest + (top * units) * ones == product) by (nonlinear_arith)
                    requires
                        product == top * 0x1_0000_0000_0000_0000 + rest,
                        units * ones == 0x1_0000_0000_0000_0000,
                ;
                assert(rest as int / ones as int >= 0) by {
                    lemma_div_pos_is_pos(rest as int, ones as int);
                }
            }
            top * units + (rest >> (down as u128))
        }
    }
}

/// A product with a number of the format takes no more than its significand.
proof fn lemma_share(whole: nat, significand: nat, up: nat, down: nat)
    requires
        up + down == 1074,
    ensures
        (whole * (significand * pow2(up))) / pow2(1074) == (whole * significand) / pow2(down),
{
    lemma_pow2_pos(up);
    lemma_pow2_pos(down);
    lemma_pow2_adds(up, down);
    let product = (whole * significand) as int;
    lemma_mul_is_associative(whole as int, significand as int, pow2(up) as int);
    lemma_mul_nonnegative(whole as int, significand as int);
    lemma_mul_nonnegative(product, pow2(up) as int);
    lemma_div_denominator(product * pow2(up), pow2(up) as int, pow2(down) as int);
    lemma_div_by_multiple(product, pow2(up) as int);
}

/// A product with a number below one is no larger than the other factor.
proof fn lemma_share_at_most(whole: nat, significand: nat, down: nat)
    requires
        significand < 0x20_0000_0000_0000,
        down >= 53,
    ensures
        (whole * significand) / pow2(down) <= whole,
{
    lemma2_to64_rest();
    if down > 53 {
        lemma_pow2_strictly_increases(53, down);
    }
    lemma_pow2_pos(down);
    assert(whole * significand <= whole * pow2(down)) by (nonlinear_arith)
        requires
            significand <= pow2(down),
    ;
    lemma_div_is_ordered(
        (whole * significand) as int,
        (whole * pow2(down)) as int,
        pow2(down) as int,
    );
    lemma_div_by_multiple(whole as int, pow2(down) as int);
}

/// Pattern `ONE_64` stands for one.
pub proof fn lemma_scaled_one_64()
    ensures
        rounding::scaled(53, ONE_64 as nat) == pow2(1074),
{
    lemma2_to64();
    lemma2_to64_rest();
    lemma_pow2_adds(52, 1022);
    assert(0x10_0000_0000_0000 * pow2(1022) == pow2(1074));
    assert(ONE_64 as nat % 0x10_0000_0000_0000 == 0 && ONE_64 as nat / 0x10_0000_0000_0000 == 1023);
}

/// One is encoded as `ONE_32`.
pub proof fn lemma_one_32()
    ensures
        rounding::nearest(24, 149, 1, 1) == ONE_32,
{
    lemma2_to64();
    lemma_pow2_adds(23, 126);
    assert(0x80_0000 * pow2(126) == pow2(149));
    assert(ONE_32 as nat % 0x80_0000 == 0 && ONE_32 as nat / 0x80_0000 == 127);
    rounding::lemma_nearest_exact(24, 149, 1, 1, ONE_32 as nat);
    rounding::lemma_nearest_is(24, 149, 1, 1, ONE_32 as nat);
}

/// One is encoded as `ONE_64`.
pub proof fn lemma_one_64()
    ensures
        rounding::nearest(53, 1074, 1, 1) == ONE_64,
{
    lemma_scaled_one_64();
    rounding::lemma_nearest_exact(53, 1074, 1, 1, ONE_64 as nat);
    rounding::lemma_nearest_is(53, 1074, 1, 1, ONE_64 as nat);
}

}
