//! IEEE 754 binary64 numbers held as bit patterns, with arithmetic in integers, and the
//! passage between the two precisions.
//!
//! A finite number is `(-1)^s * significand * 2^exponent`, with the significand below
//! `2^53` and the exponent from -1074 to 971. Every operation rounds the exact result to
//! the nearest representable number, ties to the even significand. An operation whose
//! result is not a number returns the one quiet pattern `0x7ff8_0000_0000_0000`.

use crate::bits::{
    bit_len, bit_length, lemma_bit_length_bounds, lemma_bit_length_unique, lemma_pow2_increases,
    lemma_pow2_zero, lemma_u128_limit, pow2_u128,
};
use crate::single::{
    integer_sqrt, integer_sqrt_u128, lemma_recompose, pack_magnitude, round_magnitude, round_to_magnitude,
    rounding_exponent, F32, NAN_BITS,
};
use crate::rounding_laws::{distance, lemma_round_bound, lemma_round_is_nearest, units};
use vstd::arithmetic::power2::{lemma2_to64, lemma2_to64_rest, lemma_pow2_adds, lemma_pow2_pos, lemma_pow2_unfold, pow2};
use vstd::prelude::*;
use vstd::std_specs::cmp::PartialEqSpecImpl;

verus! {

/// The magnitude bits of infinity.
pub const DOUBLE_INFINITY_BITS: u64 = 0x7ff0_0000_0000_0000;

/// The quiet pattern that stands for every result that is not a number.
pub const DOUBLE_NAN_BITS: u64 = 0x7ff8_0000_0000_0000;

/// The sign bit.
pub const DOUBLE_SIGN_BIT: u64 = 0x8000_0000_0000_0000;

/// The implicit leading bit of a normal significand, `2^52`.
pub const DOUBLE_HIDDEN_BIT: u64 = 0x10_0000_0000_0000;

/// A binary64 number, held as its bit pattern.
#[derive(Clone, Copy, Debug)]
pub struct F64 {
    pub bits: u64,
}

/// Bits of the magnitude `m * 2^q`, for `m <= 2^53` and `q >= -1074`. A significand of
/// `2^53` carries into the exponent; what lies above the largest finite number is
/// infinity.
pub open spec fn pack_double(m: nat, q: int) -> nat {
    if q > 971 {
        0x7ff0_0000_0000_0000
    } else {
        ((q + 1074) * 0x10_0000_0000_0000 + m) as nat
    }
}

/// Exponent of the last place that is kept when `n * 2^e` is rounded to 53 digits.
pub open spec fn double_rounding_exponent(n: nat, e: int) -> int {
    if e + bit_length(n) - 53 > -1074 {
        e + bit_length(n) - 53
    } else {
        -1074
    }
}

/// Magnitude bits of the binary64 number nearest to `n * 2^e`, ties to even. With
/// `sticky`, the exact value lies strictly between `n * 2^e` and `(n + 1) * 2^e`; `n`
/// then has more digits than a significand, or `e` lies below every exponent.
pub open spec fn round_double(n: nat, e: int, sticky: bool) -> nat {
    if n == 0 {
        0
    } else {
        let q = double_rounding_exponent(n, e);
        if q <= e {
            pack_double(n * pow2((e - q) as nat), q)
        } else {
            let p = pow2((q - e) as nat);
            let m0 = n / p;
            let rem = n % p;
            let up = 2 * rem > p || (2 * rem == p && (sticky || m0 % 2 == 1));
            pack_double(
                if up {
                    m0 + 1
                } else {
                    m0
                },
                q,
            )
        }
    }
}

impl F64 {
    /// Whether the sign bit is set.
    pub open spec fn negative(self) -> bool {
        self.bits >= 0x8000_0000_0000_0000u64
    }

    /// The bits without the sign.
    pub open spec fn magnitude(self) -> nat {
        if self.bits >= 0x8000_0000_0000_0000u64 {
            (self.bits - 0x8000_0000_0000_0000) as nat
        } else {
            self.bits as nat
        }
    }

    /// Whether the pattern is not a number.
    pub open spec fn nan(self) -> bool {
        self.magnitude() > 0x7ff0_0000_0000_0000
    }

    /// Whether the number is an infinity.
    pub open spec fn infinite(self) -> bool {
        self.magnitude() == 0x7ff0_0000_0000_0000
    }

    /// Whether the number is neither an infinity nor a NaN.
    pub open spec fn finite(self) -> bool {
        self.magnitude() < 0x7ff0_0000_0000_0000
    }

    /// Whether the number is one of the two zeros.
    pub open spec fn zero(self) -> bool {
        self.magnitude() == 0
    }

    /// Significand of a finite number.
    pub open spec fn significand(self) -> nat {
        let m = self.magnitude();
        if m < 0x10_0000_0000_0000 {
            m
        } else {
            (m % 0x10_0000_0000_0000 + 0x10_0000_0000_0000) as nat
        }
    }

    /// Exponent of a finite number: its value is `significand * 2^exponent`.
    pub open spec fn exponent(self) -> int {
        let m = self.magnitude();
        if m < 0x10_0000_0000_0000 {
            -1074
        } else {
            m / 0x10_0000_0000_0000 - 1075
        }
    }

    /// By how many places the significand of a finite number that is not zero falls
    /// short of 53 digits.
    pub open spec fn slack(self) -> nat {
        (53 - bit_length(self.significand())) as nat
    }

    /// The significand moved up to 53 digits.
    pub open spec fn full_significand(self) -> nat {
        self.significand() * pow2(self.slack())
    }

    /// The exponent that goes with the full significand: the value is
    /// `full_significand * 2^full_exponent`.
    pub open spec fn full_exponent(self) -> int {
        self.exponent() - self.slack()
    }

    /// The number with the given sign and magnitude bits.
    pub open spec fn from_parts(negative: bool, magnitude: nat) -> F64 {
        F64 {
            bits: (if negative {
                magnitude + 0x8000_0000_0000_0000
            } else {
                magnitude
            }) as u64,
        }
    }

    /// The result that is not a number.
    pub open spec fn nan_value() -> F64 {
        F64 { bits: 0x7ff8_0000_0000_0000 }
    }

    /// The number with the sign flipped.
    pub open spec fn neg_spec(self) -> F64 {
        F64 {
            bits: if self.bits >= 0x8000_0000_0000_0000u64 {
                (self.bits - 0x8000_0000_0000_0000) as u64
            } else {
                (self.bits + 0x8000_0000_0000_0000) as u64
            },
        }
    }

    /// Product: the exact product of the two numbers, rounded.
    #[verifier::opaque]
    pub open spec fn mul_spec(self, rhs: F64) -> F64 {
        let negative = self.negative() != rhs.negative();
        if self.nan() || rhs.nan() {
            F64::nan_value()
        } else if self.infinite() || rhs.infinite() {
            if self.zero() || rhs.zero() {
                F64::nan_value()
            } else {
                F64::from_parts(negative, 0x7ff0_0000_0000_0000)
            }
        } else {
            F64::from_parts(
                negative,
                round_double(
                    self.significand() * rhs.significand(),
                    self.exponent() + rhs.exponent(),
                    false,
                ),
            )
        }
    }

    /// The integer `v` with the number equal to `v * 2^e`, for a finite number and an
    /// `e` that is at most its exponent.
    pub open spec fn aligned(self, e: int) -> int {
        let v = self.significand() * pow2((self.exponent() - e) as nat);
        if self.negative() {
            -v
        } else {
            v as int
        }
    }

    /// Sum: the exact sum of the two numbers, rounded. An exact zero is positive unless
    /// both numbers are negative.
    #[verifier::opaque]
    pub open spec fn add_spec(self, rhs: F64) -> F64 {
        if self.nan() || rhs.nan() {
            F64::nan_value()
        } else if self.infinite() {
            if rhs.infinite() && self.negative() != rhs.negative() {
                F64::nan_value()
            } else {
                self
            }
        } else if rhs.infinite() {
            rhs
        } else {
            let e = if self.exponent() <= rhs.exponent() {
                self.exponent()
            } else {
                rhs.exponent()
            };
            let s = self.aligned(e) + rhs.aligned(e);
            if s == 0 {
                F64::from_parts(self.negative() && rhs.negative(), 0)
            } else if s < 0 {
                F64::from_parts(true, round_double((-s) as nat, e, false))
            } else {
                F64::from_parts(false, round_double(s as nat, e, false))
            }
        }
    }

    /// Difference: the sum with the second number's sign flipped.
    pub open spec fn sub_spec(self, rhs: F64) -> F64 {
        self.add_spec(rhs.neg_spec())
    }

    /// Quotient: the exact quotient of the two numbers, rounded. The full significand
    /// of the first is divided by the significand of the second to 74 binary places, and
    /// what is left of the division decides a tie.
    #[verifier::opaque]
    pub open spec fn div_spec(self, rhs: F64) -> F64 {
        let negative = self.negative() != rhs.negative();
        if self.nan() || rhs.nan() {
            F64::nan_value()
        } else if self.infinite() {
            if rhs.infinite() {
                F64::nan_value()
            } else {
                F64::from_parts(negative, 0x7ff0_0000_0000_0000)
            }
        } else if rhs.infinite() {
            F64::from_parts(negative, 0)
        } else if rhs.zero() {
            if self.zero() {
                F64::nan_value()
            } else {
                F64::from_parts(negative, 0x7ff0_0000_0000_0000)
            }
        } else if self.zero() {
            F64::from_parts(negative, 0)
        } else {
            let scaled = self.full_significand() * 0x400_0000_0000_0000_0000;
            F64::from_parts(
                negative,
                round_double(
                    scaled / rhs.significand(),
                    self.full_exponent() - rhs.exponent() - 74,
                    scaled % rhs.significand() != 0,
                ),
            )
        }
    }

    /// Square root: the exact root, rounded. The root of the full significand is taken
    /// to 36 binary places, and whether it is exact decides a tie.
    #[verifier::opaque]
    pub open spec fn sqrt_spec(self) -> F64 {
        if self.nan() {
            F64::nan_value()
        } else if self.zero() {
            self
        } else if self.negative() {
            F64::nan_value()
        } else if self.infinite() {
            self
        } else {
            let e = self.full_exponent();
            let m = self.full_significand();
            let even = e % 2 == 0;
            let m2 = if even {
                m
            } else {
                2 * m
            };
            let e2 = if even {
                e
            } else {
                e - 1
            };
            let x = m2 * 0x100_0000_0000_0000_0000;
            let r = integer_sqrt(x);
            F64::from_parts(false, round_double(r, e2 / 2 - 36, r * r != x))
        }
    }

    /// The place of a number that is not a NaN on the number line, as an integer that
    /// grows with the number: both zeros have place 0.
    pub open spec fn place(self) -> int {
        if self.negative() {
            -(self.magnitude() as int)
        } else {
            self.magnitude() as int
        }
    }

    /// Equality of numbers: a NaN equals nothing, and the two zeros are equal.
    pub open spec fn equal(self, rhs: F64) -> bool {
        !self.nan() && !rhs.nan() && self.place() == rhs.place()
    }

    /// Less than: false where one side is a NaN.
    pub open spec fn lt_spec(self, rhs: F64) -> bool {
        !self.nan() && !rhs.nan() && self.place() < rhs.place()
    }

    /// Less than or equal: false where one side is a NaN.
    pub open spec fn le_spec(self, rhs: F64) -> bool {
        !self.nan() && !rhs.nan() && self.place() <= rhs.place()
    }

    /// The binary32 number nearest to this one: the exact value, rounded.
    #[verifier::opaque]
    pub open spec fn to_single_spec(self) -> F32 {
        if self.nan() {
            F32::nan_value()
        } else if self.infinite() {
            F32::from_parts(self.negative(), 0x7f80_0000)
        } else {
            F32::from_parts(
                self.negative(),
                round_magnitude(self.significand(), self.exponent(), false),
            )
        }
    }

    /// The number with the given bits.
    pub fn from_bits(bits: u64) -> (r: F64)
        ensures
            r.bits == bits,
    {
        F64 { bits }
    }

    /// The bits of the number.
    pub fn to_bits(self) -> (r: u64)
        ensures
            r == self.bits,
    {
        self.bits
    }

    /// Whether the sign bit is set.
    pub fn is_sign_negative(self) -> (r: bool)
        ensures
            r == self.negative(),
    {
        self.bits >= DOUBLE_SIGN_BIT
    }

    fn magnitude_bits(self) -> (r: u64)
        ensures
            r == self.magnitude(),
            r < 0x8000_0000_0000_0000,
    {
        if self.bits >= DOUBLE_SIGN_BIT {
            self.bits - DOUBLE_SIGN_BIT
        } else {
            self.bits
        }
    }

    /// Whether the pattern is not a number.
    pub fn is_nan(self) -> (r: bool)
        ensures
            r == self.nan(),
    {
        self.magnitude_bits() > DOUBLE_INFINITY_BITS
    }

    /// Whether the number is an infinity.
    pub fn is_infinite(self) -> (r: bool)
        ensures
            r == self.infinite(),
    {
        self.magnitude_bits() == DOUBLE_INFINITY_BITS
    }

    /// Whether the number is neither an infinity nor a NaN.
    pub fn is_finite(self) -> (r: bool)
        ensures
            r == self.finite(),
    {
        self.magnitude_bits() < DOUBLE_INFINITY_BITS
    }

    /// Whether the number is one of the two zeros.
    pub fn is_zero(self) -> (r: bool)
        ensures
            r == self.zero(),
    {
        self.magnitude_bits() == 0
    }

    fn significand_bits(self) -> (r: u64)
        ensures
            r == self.significand(),
            r < 0x20_0000_0000_0000,
    {
        let m = self.magnitude_bits();
        if m < DOUBLE_HIDDEN_BIT {
            m
        } else {
            m % DOUBLE_HIDDEN_BIT + DOUBLE_HIDDEN_BIT
        }
    }

    fn exponent_value(self) -> (r: i32)
        ensures
            r == self.exponent(),
            -1074 <= r <= 972,
            self.finite() ==> r <= 971,
    {
        let m = self.magnitude_bits();
        if m < DOUBLE_HIDDEN_BIT {
            -1074
        } else {
            (m / DOUBLE_HIDDEN_BIT) as i32 - 1075
        }
    }

    fn with_sign(negative: bool, magnitude: u64) -> (r: F64)
        requires
            magnitude < 0x8000_0000_0000_0000,
        ensures
            r == F64::from_parts(negative, magnitude as nat),
    {
        if negative {
            F64 { bits: magnitude + DOUBLE_SIGN_BIT }
        } else {
            F64 { bits: magnitude }
        }
    }

    /// The full significand and the full exponent of a finite number that is not zero.
    fn full_parts(self) -> (r: (u128, i32))
        requires
            self.finite(),
            !self.zero(),
        ensures
            r.0 == self.full_significand(),
            r.1 == self.full_exponent(),
            0x10_0000_0000_0000 <= r.0 < 0x20_0000_0000_0000,
            -1126 <= r.1 <= 971,
    {
        let m: u64 = self.significand_bits();
        let e: i32 = self.exponent_value();
        let bl: u32 = bit_len(m as u128);
        proof {
            lemma2_to64();
            lemma2_to64_rest();
            if bl > 53 {
                lemma_pow2_increases(53, (bl - 1) as nat);
            }
        }
        let shift: u32 = 53 - bl;
        let p: u128 = pow2_u128(shift);
        proof {
            lemma_pow2_adds(bl as nat, shift as nat);
            lemma_pow2_adds((bl - 1) as nat, shift as nat);
            assert(0x10_0000_0000_0000 <= m * p < 0x20_0000_0000_0000) by (nonlinear_arith)
                requires
                    pow2((bl - 1) as nat) <= m < pow2(bl as nat),
                    p == pow2(shift as nat),
                    pow2(bl as nat) * pow2(shift as nat) == 0x20_0000_0000_0000,
                    pow2((bl - 1) as nat) * pow2(shift as nat) == 0x10_0000_0000_0000,
            ;
        }
        ((m as u128) * p, e - shift as i32)
    }

    /// The number with the sign flipped.
    pub fn neg(self) -> (r: F64)
        ensures
            r == self.neg_spec(),
    {
        if self.bits >= DOUBLE_SIGN_BIT {
            F64 { bits: self.bits - DOUBLE_SIGN_BIT }
        } else {
            F64 { bits: self.bits + DOUBLE_SIGN_BIT }
        }
    }

    /// The product of two numbers.
    pub fn mul(self, rhs: F64) -> (r: F64)
        ensures
            r == self.mul_spec(rhs),
    {
        reveal(F64::mul_spec);
        let negative = self.is_sign_negative() != rhs.is_sign_negative();
        if self.is_nan() || rhs.is_nan() {
            F64 { bits: DOUBLE_NAN_BITS }
        } else if self.is_infinite() || rhs.is_infinite() {
            if self.is_zero() || rhs.is_zero() {
                F64 { bits: DOUBLE_NAN_BITS }
            } else {
                F64::with_sign(negative, DOUBLE_INFINITY_BITS)
            }
        } else {
            let a: u128 = self.significand_bits() as u128;
            let b: u128 = rhs.significand_bits() as u128;
            assert(a * b < 0x400_0000_0000_0000_0000_0000_0000) by (nonlinear_arith)
                requires
                    a < 0x20_0000_0000_0000,
                    b < 0x20_0000_0000_0000,
            ;
            let e: i32 = self.exponent_value() + rhs.exponent_value();
            F64::with_sign(negative, round_to_double(a * b, e, false))
        }
    }

    /// The sum of two numbers.
    pub fn add(self, rhs: F64) -> (r: F64)
        ensures
            r == self.add_spec(rhs),
    {
        reveal(F64::add_spec);
        if self.is_nan() || rhs.is_nan() {
            F64 { bits: DOUBLE_NAN_BITS }
        } else if self.is_infinite() {
            if rhs.is_infinite() && self.is_sign_negative() != rhs.is_sign_negative() {
                F64 { bits: DOUBLE_NAN_BITS }
            } else {
                self
            }
        } else if rhs.is_infinite() {
            rhs
        } else if self.exponent_value() >= rhs.exponent_value() {
            F64::add_finite(self, rhs)
        } else {
            F64::add_finite(rhs, self)
        }
    }

    /// The sum of two finite numbers, the first with the larger exponent.
    fn add_finite(hi: F64, lo: F64) -> (r: F64)
        requires
            hi.finite(),
            lo.finite(),
            hi.exponent() >= lo.exponent(),
        ensures
            r == hi.add_spec(lo),
            r == lo.add_spec(hi),
    {
        reveal(F64::add_spec);
        let a: u128 = hi.significand_bits() as u128;
        let b: u128 = lo.significand_bits() as u128;
        let ea: i32 = hi.exponent_value();
        let eb: i32 = lo.exponent_value();
        let na: bool = hi.is_sign_negative();
        let nb: bool = lo.is_sign_negative();
        let d: u32 = (ea - eb) as u32;
        proof {
            lemma_pow2_zero();
            assert(b * pow2(0) == b) by (nonlinear_arith)
                requires
                    pow2(0) == 1,
            ;
        }
        if d > 64 {
            proof {
                lemma_double_recompose(hi);
                lemma_double_sum_far(a as nat, ea as int, b as nat, d as nat);
                lemma2_to64();
                lemma_pow2_increases(1, d as nat);
                assert(a * pow2(d as nat) > b) by (nonlinear_arith)
                    requires
                        a >= 0x10_0000_0000_0000,
                        b < 0x20_0000_0000_0000,
                        pow2(d as nat) >= 2,
                {
                }
            }
            return hi;
        }
        let p: u128 = pow2_u128(d);
        proof {
            lemma_pow2_increases(d as nat, 64);
            lemma2_to64();
            assert(a * p < 0x20_0000_0000_0000_0000_0000_0000_0000) by (nonlinear_arith)
                requires
                    a < 0x20_0000_0000_0000,
                    p <= 0x1_0000_0000_0000_0000,
            ;
        }
        let va: u128 = a * p;
        if na == nb {
            let n: u128 = va + b;
            if n == 0 {
                F64::with_sign(na, 0)
            } else {
                F64::with_sign(na, round_to_double(n, eb, false))
            }
        } else if va > b {
            F64::with_sign(na, round_to_double(va - b, eb, false))
        } else if va < b {
            F64::with_sign(nb, round_to_double(b - va, eb, false))
        } else {
            F64::with_sign(false, 0)
        }
    }

    /// The difference of two numbers.
    pub fn sub(self, rhs: F64) -> (r: F64)
        ensures
            r == self.sub_spec(rhs),
    {
        self.add(rhs.neg())
    }

    /// The quotient of two numbers.
    pub fn div(self, rhs: F64) -> (r: F64)
        ensures
            r == self.div_spec(rhs),
    {
        reveal(F64::div_spec);
        let negative = self.is_sign_negative() != rhs.is_sign_negative();
        if self.is_nan() || rhs.is_nan() {
            F64 { bits: DOUBLE_NAN_BITS }
        } else if self.is_infinite() {
            if rhs.is_infinite() {
                F64 { bits: DOUBLE_NAN_BITS }
            } else {
                F64::with_sign(negative, DOUBLE_INFINITY_BITS)
            }
        } else if rhs.is_infinite() {
            F64::with_sign(negative, 0)
        } else if rhs.is_zero() {
            if self.is_zero() {
                F64 { bits: DOUBLE_NAN_BITS }
            } else {
                F64::with_sign(negative, DOUBLE_INFINITY_BITS)
            }
        } else if self.is_zero() {
            F64::with_sign(negative, 0)
        } else {
            let (a, ea) = self.full_parts();
            let b: u128 = rhs.significand_bits() as u128;
            let scaled: u128 = a * 0x400_0000_0000_0000_0000;
            let e: i32 = ea - rhs.exponent_value() - 74;
            F64::with_sign(negative, round_to_double(scaled / b, e, scaled % b != 0))
        }
    }

    /// The square root of a number.
    pub fn sqrt(self) -> (r: F64)
        ensures
            r == self.sqrt_spec(),
    {
        reveal(F64::sqrt_spec);
        if self.is_nan() {
            F64 { bits: DOUBLE_NAN_BITS }
        } else if self.is_zero() {
            self
        } else if self.is_sign_negative() {
            F64 { bits: DOUBLE_NAN_BITS }
        } else if self.is_infinite() {
            self
        } else {
            let (m, e) = self.full_parts();
            let even: bool = (e + 1200) % 2 == 0;
            let m2: u128 = if even {
                m
            } else {
                2 * m
            };
            let e2: i32 = if even {
                e
            } else {
                e - 1
            };
            let x: u128 = m2 * 0x100_0000_0000_0000_0000;
            let r: u128 = integer_sqrt_u128(x);
            assert(r * r <= x);
            let half: i32 = (e2 + 1200) / 2 - 600;
            F64::with_sign(false, round_to_double(r, half - 36, r * r != x))
        }
    }

    /// Whether the first number is below the second.
    pub fn lt(self, rhs: F64) -> (r: bool)
        ensures
            r == self.lt_spec(rhs),
    {
        if self.is_nan() || rhs.is_nan() {
            false
        } else {
            let a = self.magnitude_bits();
            let b = rhs.magnitude_bits();
            if self.is_sign_negative() {
                if rhs.is_sign_negative() {
                    a > b
                } else {
                    a > 0 || b > 0
                }
            } else {
                if rhs.is_sign_negative() {
                    false
                } else {
                    a < b
                }
            }
        }
    }

    /// Whether the first number is at most the second.
    pub fn le(self, rhs: F64) -> (r: bool)
        ensures
            r == self.le_spec(rhs),
    {
        self.lt(rhs) || self == rhs
    }

    /// Whether the first number is above the second.
    pub fn gt(self, rhs: F64) -> (r: bool)
        ensures
            r == rhs.lt_spec(self),
    {
        rhs.lt(self)
    }

    /// Whether the first number is at least the second.
    pub fn ge(self, rhs: F64) -> (r: bool)
        ensures
            r == rhs.le_spec(self),
    {
        rhs.le(self)
    }

    /// Narrows to binary32, rounding to nearest, ties to even.
    pub fn to_single(self) -> (r: F32)
        ensures
            r == self.to_single_spec(),
    {
        reveal(F64::to_single_spec);
        let negative = self.is_sign_negative();
        let m = self.magnitude_bits();
        if m > DOUBLE_INFINITY_BITS {
            F32 { bits: NAN_BITS }
        } else if m == DOUBLE_INFINITY_BITS {
            if negative {
                F32 { bits: 0xff80_0000 }
            } else {
                F32 { bits: 0x7f80_0000 }
            }
        } else {
            let sig: u64 = self.significand_bits();
            let e: i32 = self.exponent_value();
            let mag: u32 = round_to_magnitude(sig as u128, e, false);
            if negative {
                F32 { bits: mag + 0x8000_0000 }
            } else {
                F32 { bits: mag }
            }
        }
    }
}

impl PartialEq for F64 {
    fn eq(&self, other: &F64) -> (r: bool) {
        !self.is_nan() && !other.is_nan() && (self.bits == other.bits || (self.is_zero()
            && other.is_zero()))
    }
}

impl PartialEqSpecImpl for F64 {
    open spec fn obeys_eq_spec() -> bool {
        true
    }

    open spec fn eq_spec(&self, other: &F64) -> bool {
        self.equal(*other)
    }
}

impl core::ops::Add for F64 {
    type Output = F64;

    fn add(self, rhs: F64) -> (r: F64) {
        F64::add(self, rhs)
    }
}

impl vstd::std_specs::ops::AddSpecImpl for F64 {
    open spec fn obeys_add_spec() -> bool {
        true
    }

    open spec fn add_req(self, rhs: F64) -> bool {
        true
    }

    open spec fn add_spec(self, rhs: F64) -> F64 {
        F64::add_spec(self, rhs)
    }
}

impl core::ops::Sub for F64 {
    type Output = F64;

    fn sub(self, rhs: F64) -> (r: F64) {
        F64::sub(self, rhs)
    }
}

impl vstd::std_specs::ops::SubSpecImpl for F64 {
    open spec fn obeys_sub_spec() -> bool {
        true
    }

    open spec fn sub_req(self, rhs: F64) -> bool {
        true
    }

    open spec fn sub_spec(self, rhs: F64) -> F64 {
        F64::sub_spec(self, rhs)
    }
}

impl core::ops::Mul for F64 {
    type Output = F64;

    fn mul(self, rhs: F64) -> (r: F64) {
        F64::mul(self, rhs)
    }
}

impl vstd::std_specs::ops::MulSpecImpl for F64 {
    open spec fn obeys_mul_spec() -> bool {
        true
    }

    open spec fn mul_req(self, rhs: F64) -> bool {
        true
    }

    open spec fn mul_spec(self, rhs: F64) -> F64 {
        F64::mul_spec(self, rhs)
    }
}

impl core::ops::Div for F64 {
    type Output = F64;

    fn div(self, rhs: F64) -> (r: F64) {
        F64::div(self, rhs)
    }
}

impl vstd::std_specs::ops::DivSpecImpl for F64 {
    open spec fn obeys_div_spec() -> bool {
        true
    }

    open spec fn div_req(self, rhs: F64) -> bool {
        true
    }

    open spec fn div_spec(self, rhs: F64) -> F64 {
        F64::div_spec(self, rhs)
    }
}

impl core::ops::Neg for F64 {
    type Output = F64;

    fn neg(self) -> (r: F64) {
        F64::neg(self)
    }
}

impl vstd::std_specs::ops::NegSpecImpl for F64 {
    open spec fn obeys_neg_spec() -> bool {
        true
    }

    open spec fn neg_req(self) -> bool {
        true
    }

    open spec fn neg_spec(self) -> F64 {
        F64::neg_spec(self)
    }
}

impl core::ops::AddAssign for F64 {
    fn add_assign(&mut self, rhs: F64)
        ensures
            *final(self) == old(self).add_spec(rhs),
    {
        *self = F64::add(*self, rhs);
    }
}

impl core::ops::SubAssign for F64 {
    fn sub_assign(&mut self, rhs: F64)
        ensures
            *final(self) == old(self).sub_spec(rhs),
    {
        *self = F64::sub(*self, rhs);
    }
}

impl core::ops::MulAssign for F64 {
    fn mul_assign(&mut self, rhs: F64)
        ensures
            *final(self) == old(self).mul_spec(rhs),
    {
        *self = F64::mul(*self, rhs);
    }
}

impl core::ops::DivAssign for F64 {
    fn div_assign(&mut self, rhs: F64)
        ensures
            *final(self) == old(self).div_spec(rhs),
    {
        *self = F64::div(*self, rhs);
    }
}

impl Default for F64 {
    fn default() -> (r: F64)
        ensures
            r.bits == 0,
    {
        F64 { bits: 0 }
    }
}

impl F32 {
    /// The same number in binary64: every binary32 number is one exactly.
    #[verifier::opaque]
    pub open spec fn to_double_spec(self) -> F64 {
        if self.nan() {
            F64::nan_value()
        } else if self.infinite() {
            F64::from_parts(self.negative(), 0x7ff0_0000_0000_0000)
        } else if self.zero() {
            F64::from_parts(self.negative(), 0)
        } else {
            let shift = (53 - bit_length(self.significand())) as nat;
            F64::from_parts(
                self.negative(),
                ((self.exponent() - shift + 1074) * 0x10_0000_0000_0000 + self.significand() * pow2(
                    shift,
                )) as nat,
            )
        }
    }

    /// Widens to binary64.
    pub fn to_double(self) -> (r: F64)
        ensures
            r == self.to_double_spec(),
    {
        reveal(F32::to_double_spec);
        let negative = self.is_sign_negative();
        let sign: u64 = if negative {
            DOUBLE_SIGN_BIT
        } else {
            0
        };
        if self.is_nan() {
            F64 { bits: DOUBLE_NAN_BITS }
        } else if self.is_infinite() {
            F64 { bits: sign + DOUBLE_INFINITY_BITS }
        } else if self.is_zero() {
            F64 { bits: sign }
        } else {
            let m: u32 = self.significand_bits();
            let e: i32 = self.exponent_value();
            let bl: u32 = bit_len(m as u128);
            proof {
                lemma2_to64();
                if bl > 24 {
                    lemma_pow2_increases(24, (bl - 1) as nat);
                }
            }
            let shift: u32 = 53 - bl;
            let p: u128 = pow2_u128(shift);
            proof {
                lemma_pow2_adds(bl as nat, shift as nat);
                lemma_pow2_adds((bl - 1) as nat, shift as nat);
                lemma2_to64_rest();
                assert(0x10_0000_0000_0000 <= m * p < 0x20_0000_0000_0000) by (nonlinear_arith)
                    requires
                        pow2((bl - 1) as nat) <= m < pow2(bl as nat),
                        p == pow2(shift as nat),
                        pow2(bl as nat) * pow2(shift as nat) == 0x20_0000_0000_0000,
                        pow2((bl - 1) as nat) * pow2(shift as nat) == 0x10_0000_0000_0000,
                ;
            }
            let sig: u64 = ((m as u128) * p) as u64;
            let biased: u64 = (e - shift as i32 + 1074) as u64;
            F64 { bits: sign + biased * DOUBLE_HIDDEN_BIT + sig }
        }
    }
}

/// The bits of a finite number are its significand and exponent packed.
pub proof fn lemma_double_recompose(x: F64)
    requires
        x.finite(),
    ensures
        pack_double(x.significand(), x.exponent()) == x.magnitude(),
        x.significand() < 0x20_0000_0000_0000,
        -1074 <= x.exponent() <= 971,
        x.exponent() > -1074 ==> x.significand() >= 0x10_0000_0000_0000,
{
}

/// A number far below the last place of another does not change it: with `a` a normal
/// significand and `b` at least 55 places below, `a * 2^d + b` and `a * 2^d - b` both
/// round to `a`.
proof fn lemma_double_sum_far(a: nat, ea: int, b: nat, d: nat)
    requires
        0x10_0000_0000_0000 <= a < 0x20_0000_0000_0000,
        b < 0x20_0000_0000_0000,
        d >= 55,
        -1074 <= ea - d,
        ea <= 971,
    ensures
        round_double(a * pow2(d) + b, ea - d, false) == pack_double(a, ea),
        round_double((a * pow2(d) - b) as nat, ea - d, false) == pack_double(a, ea),
{
    let p = pow2(d);
    let e = ea - d;
    lemma2_to64();
    lemma2_to64_rest();
    lemma_pow2_increases(55, d);
    lemma_pow2_adds(52, d);
    lemma_pow2_adds(53, d);
    assert(p >= 0x80_0000_0000_0000);
    assert(pow2(52 + d) == 0x10_0000_0000_0000 * p);
    assert(pow2(53 + d) == 0x20_0000_0000_0000 * p);
    // the sum
    {
        let n = a * p + b;
        assert(0x10_0000_0000_0000 * p <= a * p && (a + 1) * p <= 0x20_0000_0000_0000 * p && (a + 1) * p == a
            * p + p) by (nonlinear_arith)
            requires
                0x10_0000_0000_0000 <= a < 0x20_0000_0000_0000,
                p >= 0,
        ;
        lemma_bit_length_unique(n, 52 + d);
        assert(bit_length(n) == 53 + d);
        assert(double_rounding_exponent(n, e) == ea);
        vstd::arithmetic::div_mod::lemma_fundamental_div_mod_converse(
            n as int,
            p as int,
            a as int,
            b as int,
        );
        assert(n / p == a);
        assert(n % p == b);
    }
    // the difference
    if b > 0 {
        let n = (a * p - b) as nat;
        if a > 0x10_0000_0000_0000 {
            assert(0x10_0000_0000_0000 * p <= (a - 1) * p && a * p <= 0x20_0000_0000_0000 * p && (a - 1) * p
                == a * p - p) by (nonlinear_arith)
                requires
                    0x10_0000_0000_0000 < a < 0x20_0000_0000_0000,
                    p >= 0,
            ;
            lemma_bit_length_unique(n, 52 + d);
            assert(double_rounding_exponent(n, e) == ea);
            vstd::arithmetic::div_mod::lemma_fundamental_div_mod_converse(
                n as int,
                p as int,
                a - 1,
                p - b,
            );
            assert(n / p == a - 1);
            assert(n % p == p - b);
        } else {
            let h = pow2((d - 1) as nat);
            lemma_pow2_unfold(d);
            lemma_pow2_adds(51, (d - 1) as nat);
            lemma_pow2_adds(52, (d - 1) as nat);
            lemma_pow2_increases(54, (d - 1) as nat);
            assert(p == 2 * h);
            assert(h >= 0x40_0000_0000_0000);
            assert(a * p == 0x20_0000_0000_0000 * h) by (nonlinear_arith)
                requires
                    a == 0x10_0000_0000_0000,
                    p == 2 * h,
            ;
            assert(0x8_0000_0000_0000 * h <= 0x1f_ffff_ffff_ffff * h && 0x1f_ffff_ffff_ffff * h + h
                == 0x20_0000_0000_0000 * h && 0x10_0000_0000_0000 * h == 0x8_0000_0000_0000 * h
                + 0x8_0000_0000_0000 * h) by (nonlinear_arith)
                requires
                    h >= 0,
            ;
            assert(pow2((51 + (d - 1)) as nat) == 0x8_0000_0000_0000 * h);
            assert(pow2((52 + (d - 1)) as nat) == 0x10_0000_0000_0000 * h);
            assert(n == 0x1f_ffff_ffff_ffff * h + (h - b));
            lemma_bit_length_unique(n, (51 + d) as nat);
            assert(bit_length(n) == 52 + d);
            assert(double_rounding_exponent(n, e) == ea - 1);
            vstd::arithmetic::div_mod::lemma_fundamental_div_mod_converse(
                n as int,
                h as int,
                0x1f_ffff_ffff_ffff,
                h - b,
            );
            assert(n / h == 0x1f_ffff_ffff_ffff);
            assert(n % h == h - b);
        }
    }
}

/// Rounds `n * 2^e` to the nearest binary64 magnitude, ties to even.
pub fn round_to_double(n: u128, e: i32, sticky: bool) -> (r: u64)
    requires
        -16384 <= e <= 16384,
    ensures
        r == round_double(n as nat, e as int, sticky),
        r <= 0x7ff0_0000_0000_0000,
{
    if n == 0 {
        return 0;
    }
    let bl: u32 = bit_len(n);
    let q0: i32 = e + bl as i32 - 53;
    let q: i32 = if q0 > -1074 {
        q0
    } else {
        -1074
    };
    if q > 971 {
        return DOUBLE_INFINITY_BITS;
    }
    let m: u128;
    if q <= e {
        let s: u32 = (e - q) as u32;
        let p: u128 = pow2_u128(s);
        proof {
            lemma_pow2_adds(bl as nat, s as nat);
            lemma_pow2_increases((bl + s) as nat, 53);
            lemma2_to64();
            lemma2_to64_rest();
            assert(n * p < 0x20_0000_0000_0000) by (nonlinear_arith)
                requires
                    n < pow2(bl as nat),
                    p == pow2(s as nat),
                    pow2(bl as nat) * pow2(s as nat) <= 0x20_0000_0000_0000,
                    p >= 1,
            ;
        }
        m = n * p;
    } else {
        let k: u32 = (q - e) as u32;
        let m0: u128;
        let up: bool;
        proof {
            lemma_u128_limit();
            lemma_pow2_pos(k as nat);
        }
        if k > 128 {
            proof {
                lemma_pow2_increases(129, k as nat);
                lemma_pow2_unfold(129);
                vstd::arithmetic::div_mod::lemma_basic_div(n as int, pow2(k as nat) as int);
                vstd::arithmetic::div_mod::lemma_small_mod(n as nat, pow2(k as nat));
            }
            m0 = 0;
            up = false;
        } else if k == 128 {
            proof {
                vstd::arithmetic::div_mod::lemma_basic_div(n as int, pow2(k as nat) as int);
                vstd::arithmetic::div_mod::lemma_small_mod(n as nat, pow2(k as nat));
            }
            m0 = 0;
            up = n > 0x8000_0000_0000_0000_0000_0000_0000_0000 || (n
                == 0x8000_0000_0000_0000_0000_0000_0000_0000 && sticky);
        } else {
            let p: u128 = pow2_u128(k);
            proof {
                lemma_pow2_unfold(k as nat);
            }
            let half: u128 = p / 2;
            m0 = n / p;
            let rem: u128 = n % p;
            up = rem > half || (rem == half && (sticky || m0 % 2 == 1));
        }
        proof {
            // the kept digits are fewer than 2^53
            let p = pow2(k as nat);
            lemma_pow2_adds(k as nat, 53);
            lemma_pow2_increases(bl as nat, (k + 53) as nat);
            lemma2_to64();
            lemma2_to64_rest();
            assert(n < p * 0x20_0000_0000_0000);
            vstd::arithmetic::div_mod::lemma_multiply_divide_lt(n as int, p as int, 0x20_0000_0000_0000);
        }
        m = if up {
            m0 + 1
        } else {
            m0
        };
    }
    ((q + 1074) as u64) * DOUBLE_HIDDEN_BIT + (m as u64)
}

/// Widening keeps the value: the binary64 number has the binary32 number's significand,
/// moved up to 53 digits, and the exponent lowered by as much.
pub proof fn lemma_widen_exact(x: F32)
    requires
        x.finite(),
        !x.zero(),
    ensures
        x.to_double_spec().finite(),
        x.to_double_spec().negative() == x.negative(),
        x.to_double_spec().significand() == x.significand() * pow2(
            (53 - bit_length(x.significand())) as nat,
        ),
        x.to_double_spec().exponent() == x.exponent() - (53 - bit_length(x.significand())),
{
    reveal(F32::to_double_spec);
    let m = x.significand();
    let bl = bit_length(m);
    lemma_bit_length_bounds(m);
    lemma2_to64();
    lemma2_to64_rest();
    if bl > 24 {
        lemma_pow2_increases(24, (bl - 1) as nat);
    }
    let shift = (53 - bl) as nat;
    let p = pow2(shift);
    lemma_pow2_adds(bl, shift);
    lemma_pow2_adds((bl - 1) as nat, shift);
    assert(0x10_0000_0000_0000 <= m * p < 0x20_0000_0000_0000) by (nonlinear_arith)
        requires
            pow2((bl - 1) as nat) <= m < pow2(bl),
            p == pow2(shift),
            pow2(bl) * pow2(shift) == 0x20_0000_0000_0000,
            pow2((bl - 1) as nat) * pow2(shift) == 0x10_0000_0000_0000,
    ;
}

/// Widening and narrowing again gives back the same bits, for every number that is not
/// a NaN.
pub proof fn lemma_widen_narrow(x: F32)
    requires
        !x.nan(),
    ensures
        x.to_double_spec().to_single_spec() == x,
{
    reveal(F32::to_double_spec);
    reveal(F64::to_single_spec);
    if x.finite() && !x.zero() {
        lemma_widen_exact(x);
        lemma_recompose(x);
        let m = x.significand();
        let e = x.exponent();
        let bl = bit_length(m);
        let shift = (53 - bl) as nat;
        let p = pow2(shift);
        let n = m * p;
        lemma_bit_length_bounds(m);
        lemma2_to64();
        lemma2_to64_rest();
        lemma_pow2_pos(shift);
        if bl > 24 {
            lemma_pow2_increases(24, (bl - 1) as nat);
        }
        if e > -149 {
            lemma_bit_length_unique(m, 23);
        }
        lemma_pow2_adds(bl, shift);
        lemma_pow2_adds((bl - 1) as nat, shift);
        assert(0x10_0000_0000_0000 <= n < 0x20_0000_0000_0000) by (nonlinear_arith)
            requires
                n == m * p,
                pow2((bl - 1) as nat) <= m < pow2(bl),
                p == pow2(shift),
                pow2(bl) * pow2(shift) == 0x20_0000_0000_0000,
                pow2((bl - 1) as nat) * pow2(shift) == 0x10_0000_0000_0000,
        ;
        lemma_bit_length_unique(n, 52);
        assert(bit_length(n) == 53);
        assert(rounding_exponent(n, e - shift) == e);
        vstd::arithmetic::div_mod::lemma_fundamental_div_mod_converse(
            n as int,
            p as int,
            m as int,
            0,
        );
        assert(round_magnitude(n, e - shift, false) == pack_magnitude(m, e));
    }
}

/// Narrowing gives the nearest number: where a finite binary64 number that is not zero
/// narrows to a finite binary32 number, no finite binary32 number is nearer to it, and
/// of two that are as near it is the one with the even significand. Values are counted
/// in units of `2^unit`.
pub proof fn lemma_narrow_is_nearest(x: F64, f: F32, unit: int)
    requires
        x.finite() && !x.zero(),
        f.finite(),
        x.to_single_spec().finite(),
        unit <= x.exponent(),
        unit <= -149,
    ensures
        ({
            let r = x.to_single_spec();
            let exact = (x.significand() * pow2((x.exponent() - unit) as nat)) as int;
            &&& r.negative() == x.negative()
            &&& distance(units(r, unit), exact) <= distance(units(f, unit), exact)
            &&& (distance(units(r, unit), exact) == distance(units(f, unit), exact) && units(f, unit) != units(
                r,
                unit,
            ) ==> r.significand() % 2 == 0)
        }),
{
    reveal(F64::to_single_spec);
    lemma_round_bound(x.significand(), x.exponent(), false);
    lemma_round_is_nearest(x.significand(), x.exponent(), f, unit);
}

} // verus!
