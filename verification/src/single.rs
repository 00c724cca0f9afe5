//! IEEE 754 binary32 numbers held as bit patterns, with arithmetic in integers.
//!
//! A finite number is `(-1)^s * significand * 2^exponent`, with the significand below
//! `2^24` and the exponent from -149 to 104. Every operation rounds the exact result to
//! the nearest representable number, ties to the even significand. An operation whose
//! result is not a number returns the one quiet pattern `0x7fc0_0000`.

use crate::bits::{bit_len, bit_length, lemma_pow2_increases, lemma_u128_limit, pow2_u128};
use vstd::arithmetic::power2::{lemma2_to64, lemma_pow2_adds, lemma_pow2_pos, lemma_pow2_unfold, pow2};
use vstd::prelude::*;
use vstd::std_specs::cmp::PartialEqSpecImpl;

verus! {

/// The magnitude bits of infinity.
pub const INFINITY_BITS: u32 = 0x7f80_0000;

/// The quiet pattern that stands for every result that is not a number.
pub const NAN_BITS: u32 = 0x7fc0_0000;

/// The sign bit.
pub const SIGN_BIT: u32 = 0x8000_0000;

/// The implicit leading bit of a normal significand, `2^23`.
pub const HIDDEN_BIT: u32 = 0x80_0000;

/// A binary32 number, held as its bit pattern.
#[derive(Clone, Copy, Debug)]
pub struct F32 {
    pub bits: u32,
}

/// The bits of 1.
pub const ONE_BITS: u32 = 0x3f80_0000;

/// The bits of 2.
pub const TWO_BITS: u32 = 0x4000_0000;

/// The bits of one half.
pub const HALF_BITS: u32 = 0x3f00_0000;

/// The bits of -1.
pub const NEG_ONE_BITS: u32 = 0xbf80_0000;

/// Bits of the magnitude `m * 2^q`, for `m <= 2^24` and `q >= -149`. A significand of
/// `2^24` carries into the exponent; what lies above the largest finite number is
/// infinity.
pub open spec fn pack_magnitude(m: nat, q: int) -> nat {
    if q > 104 {
        0x7f80_0000
    } else {
        ((q + 149) * 0x80_0000 + m) as nat
    }
}

/// Exponent of the last place that is kept when `n * 2^e` is rounded to 24 digits.
pub open spec fn rounding_exponent(n: nat, e: int) -> int {
    if e + bit_length(n) - 24 > -149 {
        e + bit_length(n) - 24
    } else {
        -149
    }
}

/// Magnitude bits of the binary32 number nearest to `n * 2^e`, ties to even. With
/// `sticky`, the exact value lies strictly between `n * 2^e` and `(n + 1) * 2^e`; `n`
/// then has more digits than a significand, or `e` lies below every exponent.
pub open spec fn round_magnitude(n: nat, e: int, sticky: bool) -> nat {
    if n == 0 {
        0
    } else {
        let q = rounding_exponent(n, e);
        if q <= e {
            pack_magnitude(n * pow2((e - q) as nat), q)
        } else {
            let p = pow2((q - e) as nat);
            let m0 = n / p;
            let rem = n % p;
            let up = 2 * rem > p || (2 * rem == p && (sticky || m0 % 2 == 1));
            pack_magnitude(
                if up {
                    m0 + 1
                } else {
                    m0
                },
                q,
            )
        }
    }
}

impl F32 {
    /// Whether the sign bit is set.
    pub open spec fn negative(self) -> bool {
        self.bits >= 0x8000_0000u32
    }

    /// The bits without the sign.
    pub open spec fn magnitude(self) -> nat {
        if self.bits >= 0x8000_0000u32 {
            (self.bits - 0x8000_0000) as nat
        } else {
            self.bits as nat
        }
    }

    /// Whether the pattern is not a number.
    pub open spec fn nan(self) -> bool {
        self.magnitude() > 0x7f80_0000
    }

    /// Whether the number is an infinity.
    pub open spec fn infinite(self) -> bool {
        self.magnitude() == 0x7f80_0000
    }

    /// Whether the number is neither an infinity nor a NaN.
    pub open spec fn finite(self) -> bool {
        self.magnitude() < 0x7f80_0000
    }

    /// Whether the number is one of the two zeros.
    pub open spec fn zero(self) -> bool {
        self.magnitude() == 0
    }

    /// Significand of a finite number.
    pub open spec fn significand(self) -> nat {
        let m = self.magnitude();
        if m < 0x80_0000 {
            m
        } else {
            (m % 0x80_0000 + 0x80_0000) as nat
        }
    }

    /// Exponent of a finite number: its value is `significand * 2^exponent`.
    pub open spec fn exponent(self) -> int {
        let m = self.magnitude();
        if m < 0x80_0000 {
            -149
        } else {
            m / 0x80_0000 - 150
        }
    }

    /// The number with the given sign and magnitude bits.
    pub open spec fn from_parts(negative: bool, magnitude: nat) -> F32 {
        F32 {
            bits: (if negative {
                magnitude + 0x8000_0000
            } else {
                magnitude
            }) as u32,
        }
    }

    /// The result that is not a number.
    pub open spec fn nan_value() -> F32 {
        F32 { bits: 0x7fc0_0000 }
    }

    /// Product: the exact product of the two numbers, rounded.
    #[verifier::opaque]
    pub open spec fn mul_spec(self, rhs: F32) -> F32 {
        let negative = self.negative() != rhs.negative();
        if self.nan() || rhs.nan() {
            F32::nan_value()
        } else if self.infinite() || rhs.infinite() {
            if self.zero() || rhs.zero() {
                F32::nan_value()
            } else {
                F32::from_parts(negative, 0x7f80_0000)
            }
        } else {
            F32::from_parts(
                negative,
                round_magnitude(
                    self.significand() * rhs.significand(),
                    self.exponent() + rhs.exponent(),
                    false,
                ),
            )
        }
    }

    /// The number with the sign flipped.
    pub open spec fn neg_spec(self) -> F32 {
        F32 {
            bits: if self.bits >= 0x8000_0000u32 {
                (self.bits - 0x8000_0000) as u32
            } else {
                (self.bits + 0x8000_0000) as u32
            },
        }
    }

    /// The integer `v` with the number equal to `v * 2^e`, for a finite number and an
    /// `e` that is at most its exponent.
    pub open spec fn aligned(self, e: int) -> int {
        let v = self.significand() * pow2((self.exponent() - e) as nat);
        if self.negative() {
            -v
        } else {
            v as int
        }
    }

    /// Sum: the exact sum of the two numbers, rounded. An exact zero is positive unless
    /// both numbers are negative.
    #[verifier::opaque]
    pub open spec fn add_spec(self, rhs: F32) -> F32 {
        if self.nan() || rhs.nan() {
            F32::nan_value()
        } else if self.infinite() {
            if rhs.infinite() && self.negative() != rhs.negative() {
                F32::nan_value()
            } else {
                self
            }
        } else if rhs.infinite() {
            rhs
        } else {
            let e = if self.exponent() <= rhs.exponent() {
                self.exponent()
            } else {
                rhs.exponent()
            };
            let s = self.aligned(e) + rhs.aligned(e);
            if s == 0 {
                F32::from_parts(self.negative() && rhs.negative(), 0)
            } else if s < 0 {
                F32::from_parts(true, round_magnitude((-s) as nat, e, false))
            } else {
                F32::from_parts(false, round_magnitude(s as nat, e, false))
            }
        }
    }

    /// Difference: the sum with the second number's sign flipped.
    pub open spec fn sub_spec(self, rhs: F32) -> F32 {
        self.add_spec(rhs.neg_spec())
    }

    /// Quotient: the exact quotient of the two numbers, rounded. The quotient of the
    /// significands is taken to 64 binary places, and what is left of the division
    /// decides a tie.
    #[verifier::opaque]
    pub open spec fn div_spec(self, rhs: F32) -> F32 {
        let negative = self.negative() != rhs.negative();
        if self.nan() || rhs.nan() {
            F32::nan_value()
        } else if self.infinite() {
            if rhs.infinite() {
                F32::nan_value()
            } else {
                F32::from_parts(negative, 0x7f80_0000)
            }
        } else if rhs.infinite() {
            F32::from_parts(negative, 0)
        } else if rhs.zero() {
            if self.zero() {
                F32::nan_value()
            } else {
                F32::from_parts(negative, 0x7f80_0000)
            }
        } else {
            let scaled = self.significand() * 0x1_0000_0000_0000_0000;
            F32::from_parts(
                negative,
                round_magnitude(
                    scaled / rhs.significand(),
                    self.exponent() - rhs.exponent() - 64,
                    scaled % rhs.significand() != 0,
                ),
            )
        }
    }

    /// The place of a number that is not a NaN on the number line, as an integer that
    /// grows with the number: both zeros have place 0.
    pub open spec fn place(self) -> int {
        if self.negative() {
            -(self.magnitude() as int)
        } else {
            self.magnitude() as int
        }
    }

    /// Equality of numbers: a NaN equals nothing, and the two zeros are equal.
    pub open spec fn equal(self, rhs: F32) -> bool {
        !self.nan() && !rhs.nan() && self.place() == rhs.place()
    }

    /// Less than: false where one side is a NaN.
    pub open spec fn lt_spec(self, rhs: F32) -> bool {
        !self.nan() && !rhs.nan() && self.place() < rhs.place()
    }

    /// Less than or equal: false where one side is a NaN.
    pub open spec fn le_spec(self, rhs: F32) -> bool {
        !self.nan() && !rhs.nan() && self.place() <= rhs.place()
    }

    /// The place of any bit pattern in the total order of IEEE 754: negative patterns
    /// below positive ones, a larger magnitude further from the middle, and the
    /// negative zero just below the positive one.
    pub open spec fn total_place(self) -> int {
        if self.negative() {
            -(self.magnitude() as int) - 1
        } else {
            self.magnitude() as int
        }
    }

    /// Square root: the exact root, rounded. The root of the significand is taken to 40
    /// binary places, and whether it is exact decides a tie.
    #[verifier::opaque]
    pub open spec fn sqrt_spec(self) -> F32 {
        if self.nan() {
            F32::nan_value()
        } else if self.zero() {
            self
        } else if self.negative() {
            F32::nan_value()
        } else if self.infinite() {
            self
        } else {
            let e = self.exponent();
            let m = self.significand();
            let even = e % 2 == 0;
            let m2 = if even {
                m
            } else {
                2 * m
            };
            let e2 = if even {
                e
            } else {
                e - 1
            };
            let x = m2 * 0x1_0000_0000_0000_0000_0000;
            let r = integer_sqrt(x);
            F32::from_parts(false, round_magnitude(r, e2 / 2 - 40, r * r != x))
        }
    }

    /// The largest integer that is not above a finite number.
    pub open spec fn floor_spec(self) -> int {
        let v = if self.negative() {
            -(self.significand() as int)
        } else {
            self.significand() as int
        };
        if self.exponent() >= 0 {
            v * pow2(self.exponent() as nat)
        } else {
            v / (pow2((-self.exponent()) as nat) as int)
        }
    }

    /// The floor as an `i32`: 0 for a NaN, and the nearest end of the range for what
    /// lies outside it.
    #[verifier::opaque]
    pub open spec fn floor_to_i32_spec(self) -> i32 {
        if self.nan() {
            0
        } else if self.infinite() {
            if self.negative() {
                i32::MIN
            } else {
                i32::MAX
            }
        } else if self.floor_spec() < i32::MIN {
            i32::MIN
        } else if self.floor_spec() > i32::MAX {
            i32::MAX
        } else {
            self.floor_spec() as i32
        }
    }

    /// The number nearest to an unsigned integer.
    #[verifier::opaque]
    pub open spec fn from_nat_spec(n: nat) -> F32 {
        F32::from_parts(false, round_magnitude(n, 0, false))
    }

    /// Remainder: what is left of the first number when the second is taken from it a
    /// whole number of times, towards zero; it is exact, and has the sign of the first.
    /// There is none of an infinity, and none by a zero.
    #[verifier::opaque]
    pub open spec fn rem_spec(self, rhs: F32) -> F32 {
        if self.nan() || rhs.nan() || self.infinite() || rhs.zero() {
            F32::nan_value()
        } else if rhs.infinite() || self.exponent() < rhs.exponent() {
            self
        } else {
            F32::from_parts(
                self.negative(),
                round_magnitude(
                    (self.significand() * pow2((self.exponent() - rhs.exponent()) as nat)) % rhs.significand(),
                    rhs.exponent(),
                    false,
                ),
            )
        }
    }

    /// The number that is a whole number of at most 16 bits.
    pub open spec fn from_int_spec(n: int) -> F32 {
        if n < 0 {
            F32::from_parts(true, round_magnitude((-n) as nat, 0, false))
        } else {
            F32::from_parts(false, round_magnitude(n as nat, 0, false))
        }
    }

    /// The whole part of a number as a byte: 0 for a NaN and for what is below zero, 255
    /// for what is above.
    pub open spec fn to_u8_spec(self) -> u8 {
        if self.nan() || self.negative() {
            0
        } else if self.infinite() || self.floor_spec() > 255 {
            255
        } else {
            self.floor_spec() as u8
        }
    }

    /// The number with the given bits.
    pub fn from_bits(bits: u32) -> (r: F32)
        ensures
            r.bits == bits,
    {
        F32 { bits }
    }

    /// The bits of the number.
    pub fn to_bits(self) -> (r: u32)
        ensures
            r == self.bits,
    {
        self.bits
    }

    /// Whether the sign bit is set.
    pub fn is_sign_negative(self) -> (r: bool)
        ensures
            r == self.negative(),
    {
        self.bits >= SIGN_BIT
    }

    pub(crate) fn magnitude_bits(self) -> (r: u32)
        ensures
            r == self.magnitude(),
            r < 0x8000_0000,
    {
        if self.bits >= SIGN_BIT {
            self.bits - SIGN_BIT
        } else {
            self.bits
        }
    }

    /// Whether the pattern is not a number.
    pub fn is_nan(self) -> (r: bool)
        ensures
            r == self.nan(),
    {
        self.magnitude_bits() > INFINITY_BITS
    }

    /// Whether the number is an infinity.
    pub fn is_infinite(self) -> (r: bool)
        ensures
            r == self.infinite(),
    {
        self.magnitude_bits() == INFINITY_BITS
    }

    /// Whether the number is neither an infinity nor a NaN.
    pub fn is_finite(self) -> (r: bool)
        ensures
            r == self.finite(),
    {
        self.magnitude_bits() < INFINITY_BITS
    }

    /// Whether the number is one of the two zeros.
    pub fn is_zero(self) -> (r: bool)
        ensures
            r == self.zero(),
    {
        self.magnitude_bits() == 0
    }

    pub(crate) fn significand_bits(self) -> (r: u32)
        ensures
            r == self.significand(),
            r < 0x100_0000,
    {
        let m = self.magnitude_bits();
        if m < HIDDEN_BIT {
            m
        } else {
            m % HIDDEN_BIT + HIDDEN_BIT
        }
    }

    pub(crate) fn exponent_value(self) -> (r: i32)
        ensures
            r == self.exponent(),
            -149 <= r <= 105,
            self.finite() ==> r <= 104,
    {
        let m = self.magnitude_bits();
        if m < HIDDEN_BIT {
            -149
        } else {
            (m / HIDDEN_BIT) as i32 - 150
        }
    }

    pub(crate) fn with_sign(negative: bool, magnitude: u32) -> (r: F32)
        requires
            magnitude < 0x8000_0000,
        ensures
            r == F32::from_parts(negative, magnitude as nat),
    {
        if negative {
            F32 { bits: magnitude + SIGN_BIT }
        } else {
            F32 { bits: magnitude }
        }
    }

    /// The number with the sign flipped.
    pub fn neg(self) -> (r: F32)
        ensures
            r == self.neg_spec(),
    {
        if self.bits >= SIGN_BIT {
            F32 { bits: self.bits - SIGN_BIT }
        } else {
            F32 { bits: self.bits + SIGN_BIT }
        }
    }

    /// The sum of two numbers.
    pub fn add(self, rhs: F32) -> (r: F32)
        ensures
            r == self.add_spec(rhs),
    {
        reveal(F32::add_spec);
        if self.is_nan() || rhs.is_nan() {
            F32 { bits: NAN_BITS }
        } else if self.is_infinite() {
            if rhs.is_infinite() && self.is_sign_negative() != rhs.is_sign_negative() {
                F32 { bits: NAN_BITS }
            } else {
                self
            }
        } else if rhs.is_infinite() {
            rhs
        } else if self.exponent_value() >= rhs.exponent_value() {
            F32::add_finite(self, rhs)
        } else {
            F32::add_finite(rhs, self)
        }
    }

    /// The sum of two finite numbers, the first with the larger exponent.
    fn add_finite(hi: F32, lo: F32) -> (r: F32)
        requires
            hi.finite(),
            lo.finite(),
            hi.exponent() >= lo.exponent(),
        ensures
            r == hi.add_spec(lo),
            r == lo.add_spec(hi),
    {
        reveal(F32::add_spec);
        let a: u128 = hi.significand_bits() as u128;
        let b: u128 = lo.significand_bits() as u128;
        let ea: i32 = hi.exponent_value();
        let eb: i32 = lo.exponent_value();
        let na: bool = hi.is_sign_negative();
        let nb: bool = lo.is_sign_negative();
        let d: u32 = (ea - eb) as u32;
        proof {
            lemma_pow2_zero_shift(b as nat);
        }
        if d > 100 {
            proof {
                lemma_recompose(hi);
                lemma_sum_far(a as nat, ea as int, b as nat, d as nat);
                lemma2_to64();
                lemma_pow2_increases(1, d as nat);
                assert(a * pow2(d as nat) > b) by (nonlinear_arith)
                    requires
                        a >= 0x80_0000,
                        b < 0x100_0000,
                        pow2(d as nat) >= 2,
                {
                }
            }
            return hi;
        }
        let p: u128 = pow2_u128(d);
        proof {
            lemma_pow2_increases(d as nat, 100);
            lemma_pow2_adds(64, 32);
            lemma_pow2_adds(96, 4);
            lemma2_to64();
            assert(pow2(100) == 0x10_0000_0000_0000_0000_0000_0000);
            assert(a * p < 0x1000_0000_0000_0000_0000_0000_0000_0000) by (nonlinear_arith)
                requires
                    a < 0x100_0000,
                    p <= 0x10_0000_0000_0000_0000_0000_0000,
            ;
        }
        let va: u128 = a * p;
        if na == nb {
            let n: u128 = va + b;
            if n == 0 {
                F32::with_sign(na, 0)
            } else {
                F32::with_sign(na, round_to_magnitude(n, eb, false))
            }
        } else if va > b {
            F32::with_sign(na, round_to_magnitude(va - b, eb, false))
        } else if va < b {
            F32::with_sign(nb, round_to_magnitude(b - va, eb, false))
        } else {
            F32::with_sign(false, 0)
        }
    }

    /// The difference of two numbers.
    pub fn sub(self, rhs: F32) -> (r: F32)
        ensures
            r == self.sub_spec(rhs),
    {
        self.add(rhs.neg())
    }

    /// The quotient of two numbers.
    pub fn div(self, rhs: F32) -> (r: F32)
        ensures
            r == self.div_spec(rhs),
    {
        reveal(F32::div_spec);
        let negative = self.is_sign_negative() != rhs.is_sign_negative();
        if self.is_nan() || rhs.is_nan() {
            F32 { bits: NAN_BITS }
        } else if self.is_infinite() {
            if rhs.is_infinite() {
                F32 { bits: NAN_BITS }
            } else {
                F32::with_sign(negative, INFINITY_BITS)
            }
        } else if rhs.is_infinite() {
            F32::with_sign(negative, 0)
        } else if rhs.is_zero() {
            if self.is_zero() {
                F32 { bits: NAN_BITS }
            } else {
                F32::with_sign(negative, INFINITY_BITS)
            }
        } else {
            let a: u128 = self.significand_bits() as u128;
            let b: u128 = rhs.significand_bits() as u128;
            let scaled: u128 = a * 0x1_0000_0000_0000_0000;
            let e: i32 = self.exponent_value() - rhs.exponent_value() - 64;
            F32::with_sign(negative, round_to_magnitude(scaled / b, e, scaled % b != 0))
        }
    }

    /// Whether the first number is below the second.
    pub fn lt(self, rhs: F32) -> (r: bool)
        ensures
            r == self.lt_spec(rhs),
    {
        if self.is_nan() || rhs.is_nan() {
            false
        } else {
            let a = self.magnitude_bits();
            let b = rhs.magnitude_bits();
            if self.is_sign_negative() {
                if rhs.is_sign_negative() {
                    a > b
                } else {
                    a > 0 || b > 0
                }
            } else {
                if rhs.is_sign_negative() {
                    false
                } else {
                    a < b
                }
            }
        }
    }

    /// Whether the first number is at most the second.
    pub fn le(self, rhs: F32) -> (r: bool)
        ensures
            r == self.le_spec(rhs),
    {
        self.lt(rhs) || self == rhs
    }

    /// Whether the first number is above the second.
    pub fn gt(self, rhs: F32) -> (r: bool)
        ensures
            r == rhs.lt_spec(self),
    {
        rhs.lt(self)
    }

    /// Whether the first number is at least the second.
    pub fn ge(self, rhs: F32) -> (r: bool)
        ensures
            r == rhs.le_spec(self),
    {
        rhs.le(self)
    }

    /// Whether the first pattern stands before the second in the total order.
    pub fn total_lt(self, rhs: F32) -> (r: bool)
        ensures
            r == (self.total_place() < rhs.total_place()),
    {
        let a = self.magnitude_bits();
        let b = rhs.magnitude_bits();
        if self.is_sign_negative() {
            if rhs.is_sign_negative() {
                a > b
            } else {
                true
            }
        } else {
            if rhs.is_sign_negative() {
                false
            } else {
                a < b
            }
        }
    }

    /// The square root of a number.
    pub fn sqrt(self) -> (r: F32)
        ensures
            r == self.sqrt_spec(),
    {
        reveal(F32::sqrt_spec);
        if self.is_nan() {
            F32 { bits: NAN_BITS }
        } else if self.is_zero() {
            self
        } else if self.is_sign_negative() {
            F32 { bits: NAN_BITS }
        } else if self.is_infinite() {
            self
        } else {
            let e: i32 = self.exponent_value();
            let m: u128 = self.significand_bits() as u128;
            let even: bool = (e + 150) % 2 == 0;
            let m2: u128 = if even {
                m
            } else {
                2 * m
            };
            let e2: i32 = if even {
                e
            } else {
                e - 1
            };
            let x: u128 = m2 * 0x1_0000_0000_0000_0000_0000;
            let r: u128 = integer_sqrt_u128(x);
            assert(r * r <= x);
            let half: i32 = (e2 + 150) / 2 - 75;
            F32::with_sign(false, round_to_magnitude(r, half - 40, r * r != x))
        }
    }

    /// The number nearest to a size or an index.
    pub fn from_usize(n: usize) -> (r: F32)
        ensures
            r == F32::from_nat_spec(n as nat),
    {
        reveal(F32::from_nat_spec);
        F32::with_sign(false, round_to_magnitude(n as u128, 0, false))
    }

    /// The floor of a number as an `i32`, 0 for a NaN, held to the range of `i32`.
    pub fn floor_to_i32(self) -> (r: i32)
        ensures
            r == self.floor_to_i32_spec(),
    {
        reveal(F32::floor_to_i32_spec);
        let negative = self.is_sign_negative();
        if self.is_nan() {
            return 0;
        }
        if self.is_infinite() {
            return if negative {
                i32::MIN
            } else {
                i32::MAX
            };
        }
        let m: u32 = self.significand_bits();
        let e: i32 = self.exponent_value();
        proof {
            lemma_recompose(self);
            lemma2_to64();
        }
        if m == 0 {
            proof {
                if e < 0 {
                    lemma_pow2_pos((-e) as nat);
                }
            }
            return 0;
        }
        if e >= 8 {
            proof {
                lemma_pow2_increases(8, e as nat);
                assert(m * pow2(e as nat) >= 0x8000_0000) by (nonlinear_arith)
                    requires
                        m >= 0x80_0000,
                        pow2(e as nat) >= 0x100,
                ;
                assert((-(m as int)) * pow2(e as nat) == -(m * pow2(e as nat)))
                    by (nonlinear_arith);
            }
            return if negative {
                i32::MIN
            } else {
                i32::MAX
            };
        }
        if e >= 0 {
            let p: u128 = pow2_u128(e as u32);
            proof {
                lemma_pow2_increases(e as nat, 7);
                assert(m * p < 0x8000_0000) by (nonlinear_arith)
                    requires
                        m < 0x100_0000,
                        p <= 0x80,
                ;
                assert((-(m as int)) * pow2(e as nat) == -(m * pow2(e as nat)))
                    by (nonlinear_arith);
            }
            let v: i64 = ((m as u128) * p) as i64;
            return if negative {
                (-v) as i32
            } else {
                v as i32
            };
        }
        let k: u32 = (-e) as u32;
        if k >= 24 {
            proof {
                let p = pow2(k as nat);
                lemma_pow2_increases(24, k as nat);
                if negative {
                    vstd::arithmetic::div_mod::lemma_fundamental_div_mod_converse(
                        -(m as int),
                        p as int,
                        -1,
                        p - m,
                    );
                } else {
                    vstd::arithmetic::div_mod::lemma_basic_div(m as int, p as int);
                }
            }
            return if negative {
                -1
            } else {
                0
            };
        }
        let p: u32 = pow2_u128(k) as u32;
        proof {
            lemma_pow2_increases(k as nat, 23);
        }
        let quot: u32 = m / p;
        let rem: u32 = m % p;
        proof {
            vstd::arithmetic::div_mod::lemma_fundamental_div_mod(m as int, p as int);
            assert((-(quot as int)) * p == -(p * quot) && (-(quot as int) - 1) * p == -(p * quot)
                - p) by (nonlinear_arith);
            if negative {
                if rem == 0 {
                    vstd::arithmetic::div_mod::lemma_fundamental_div_mod_converse(
                        -(m as int),
                        p as int,
                        -(quot as int),
                        0,
                    );
                } else {
                    vstd::arithmetic::div_mod::lemma_fundamental_div_mod_converse(
                        -(m as int),
                        p as int,
                        -(quot as int) - 1,
                        p - rem,
                    );
                }
            }
        }
        if negative {
            if rem == 0 {
                -(quot as i32)
            } else {
                -(quot as i32) - 1
            }
        } else {
            quot as i32
        }
    }

    /// The remainder of a division.
    pub fn rem(self, rhs: F32) -> (r: F32)
        ensures
            r == self.rem_spec(rhs),
    {
        reveal(F32::rem_spec);
        if self.is_nan() || rhs.is_nan() || self.is_infinite() || rhs.is_zero() {
            return F32 { bits: NAN_BITS };
        }
        if rhs.is_infinite() || self.exponent_value() < rhs.exponent_value() {
            return self;
        }
        let m: u64 = rhs.significand_bits() as u64;
        let steps: u32 = (self.exponent_value() - rhs.exponent_value()) as u32;
        let ghost a = self.significand();
        let mut left: u64 = (self.significand_bits() as u64) % m;
        let mut i: u32 = 0;
        proof {
            crate::bits::lemma_pow2_zero();
            assert(a * pow2(0) == a) by (nonlinear_arith)
                requires
                    pow2(0) == 1,
            ;
        }
        while i < steps
            invariant
                i <= steps,
                0 < m < 0x100_0000,
                left == (a * pow2(i as nat)) % (m as nat),
            decreases steps - i,
        {
            proof {
                let x = a * pow2(i as nat);
                lemma_pow2_unfold((i + 1) as nat);
                assert(a * pow2((i + 1) as nat) == 2 * x) by (nonlinear_arith)
                    requires
                        pow2((i + 1) as nat) == 2 * pow2(i as nat),
                        x == a * pow2(i as nat),
                ;
                vstd::arithmetic::div_mod::lemma_mul_mod_noop_right(2, x as int, m as int);
            }
            left = (2 * left) % m;
            i = i + 1;
        }
        F32::with_sign(self.is_sign_negative(), round_to_magnitude(left as u128, rhs.exponent_value(), false))
    }

    /// The number that is a whole number of 16 bits.
    pub fn from_i16(n: i16) -> (r: F32)
        ensures
            r == F32::from_int_spec(n as int),
    {
        if n < 0 {
            F32::with_sign(true, round_to_magnitude((-(n as i32)) as u128, 0, false))
        } else {
            F32::with_sign(false, round_to_magnitude(n as u128, 0, false))
        }
    }

    /// The whole part of a number as a byte, 0 for a NaN, held to the range of a byte.
    pub fn to_u8(self) -> (r: u8)
        ensures
            r == self.to_u8_spec(),
    {
        if self.is_nan() || self.is_sign_negative() {
            return 0;
        }
        if self.is_infinite() {
            return 255;
        }
        let whole: i32 = self.floor_to_i32();
        proof {
            reveal(F32::floor_to_i32_spec);
            lemma_floor_is_not_negative(self);
        }
        if whole > 255 {
            255
        } else {
            whole as u8
        }
    }

    /// The product of two numbers.
    pub fn mul(self, rhs: F32) -> (r: F32)
        ensures
            r == self.mul_spec(rhs),
    {
        reveal(F32::mul_spec);
        let negative = self.is_sign_negative() != rhs.is_sign_negative();
        if self.is_nan() || rhs.is_nan() {
            F32 { bits: NAN_BITS }
        } else if self.is_infinite() || rhs.is_infinite() {
            if self.is_zero() || rhs.is_zero() {
                F32 { bits: NAN_BITS }
            } else {
                F32::with_sign(negative, INFINITY_BITS)
            }
        } else {
            let a: u128 = self.significand_bits() as u128;
            let b: u128 = rhs.significand_bits() as u128;
            assert(a * b < 0x1_0000_0000_0000) by (nonlinear_arith)
                requires
                    a < 0x100_0000,
                    b < 0x100_0000,
            ;
            let e: i32 = self.exponent_value() + rhs.exponent_value();
            F32::with_sign(negative, round_to_magnitude(a * b, e, false))
        }
    }
}

impl PartialEq for F32 {
    fn eq(&self, other: &F32) -> (r: bool) {
        !self.is_nan() && !other.is_nan() && (self.bits == other.bits || (self.is_zero()
            && other.is_zero()))
    }
}

impl PartialEqSpecImpl for F32 {
    open spec fn obeys_eq_spec() -> bool {
        true
    }

    open spec fn eq_spec(&self, other: &F32) -> bool {
        self.equal(*other)
    }
}

impl core::ops::Add for F32 {
    type Output = F32;

    fn add(self, rhs: F32) -> (r: F32) {
        F32::add(self, rhs)
    }
}

impl vstd::std_specs::ops::AddSpecImpl for F32 {
    open spec fn obeys_add_spec() -> bool {
        true
    }

    open spec fn add_req(self, rhs: F32) -> bool {
        true
    }

    open spec fn add_spec(self, rhs: F32) -> F32 {
        F32::add_spec(self, rhs)
    }
}

impl core::ops::Sub for F32 {
    type Output = F32;

    fn sub(self, rhs: F32) -> (r: F32) {
        F32::sub(self, rhs)
    }
}

impl vstd::std_specs::ops::SubSpecImpl for F32 {
    open spec fn obeys_sub_spec() -> bool {
        true
    }

    open spec fn sub_req(self, rhs: F32) -> bool {
        true
    }

    open spec fn sub_spec(self, rhs: F32) -> F32 {
        F32::sub_spec(self, rhs)
    }
}

impl core::ops::Mul for F32 {
    type Output = F32;

    fn mul(self, rhs: F32) -> (r: F32) {
        F32::mul(self, rhs)
    }
}

impl vstd::std_specs::ops::MulSpecImpl for F32 {
    open spec fn obeys_mul_spec() -> bool {
        true
    }

    open spec fn mul_req(self, rhs: F32) -> bool {
        true
    }

    open spec fn mul_spec(self, rhs: F32) -> F32 {
        F32::mul_spec(self, rhs)
    }
}

impl core::ops::Div for F32 {
    type Output = F32;

    fn div(self, rhs: F32) -> (r: F32) {
        F32::div(self, rhs)
    }
}

impl vstd::std_specs::ops::DivSpecImpl for F32 {
    open spec fn obeys_div_spec() -> bool {
        true
    }

    open spec fn div_req(self, rhs: F32) -> bool {
        true
    }

    open spec fn div_spec(self, rhs: F32) -> F32 {
        F32::div_spec(self, rhs)
    }
}

impl core::ops::Rem for F32 {
    type Output = F32;

    fn rem(self, rhs: F32) -> (r: F32) {
        F32::rem(self, rhs)
    }
}

impl vstd::std_specs::ops::RemSpecImpl for F32 {
    open spec fn obeys_rem_spec() -> bool {
        true
    }

    open spec fn rem_req(self, rhs: F32) -> bool {
        true
    }

    open spec fn rem_spec(self, rhs: F32) -> F32 {
        F32::rem_spec(self, rhs)
    }
}

impl core::ops::Neg for F32 {
    type Output = F32;

    fn neg(self) -> (r: F32) {
        F32::neg(self)
    }
}

impl vstd::std_specs::ops::NegSpecImpl for F32 {
    open spec fn obeys_neg_spec() -> bool {
        true
    }

    open spec fn neg_req(self) -> bool {
        true
    }

    open spec fn neg_spec(self) -> F32 {
        F32::neg_spec(self)
    }
}

impl core::ops::AddAssign for F32 {
    fn add_assign(&mut self, rhs: F32)
        ensures
            *final(self) == old(self).add_spec(rhs),
    {
        *self = F32::add(*self, rhs);
    }
}

impl core::ops::SubAssign for F32 {
    fn sub_assign(&mut self, rhs: F32)
        ensures
            *final(self) == old(self).sub_spec(rhs),
    {
        *self = F32::sub(*self, rhs);
    }
}

impl core::ops::MulAssign for F32 {
    fn mul_assign(&mut self, rhs: F32)
        ensures
            *final(self) == old(self).mul_spec(rhs),
    {
        *self = F32::mul(*self, rhs);
    }
}

impl core::ops::DivAssign for F32 {
    fn div_assign(&mut self, rhs: F32)
        ensures
            *final(self) == old(self).div_spec(rhs),
    {
        *self = F32::div(*self, rhs);
    }
}

impl core::ops::RemAssign for F32 {
    fn rem_assign(&mut self, rhs: F32)
        ensures
            *final(self) == old(self).rem_spec(rhs),
    {
        *self = F32::rem(*self, rhs);
    }
}

impl Default for F32 {
    fn default() -> (r: F32)
        ensures
            r.bits == 0,
    {
        F32 { bits: 0 }
    }
}

/// Rounds `n * 2^e` to the nearest binary32 magnitude, ties to even.
pub fn round_to_magnitude(n: u128, e: i32, sticky: bool) -> (r: u32)
    requires
        -4096 <= e <= 4096,
    ensures
        r == round_magnitude(n as nat, e as int, sticky),
        r <= 0x7f80_0000,
{
    if n == 0 {
        return 0;
    }
    let bl: u32 = bit_len(n);
    let q0: i32 = e + bl as i32 - 24;
    let q: i32 = if q0 > -149 {
        q0
    } else {
        -149
    };
    if q > 104 {
        return INFINITY_BITS;
    }
    let m: u128;
    if q <= e {
        let s: u32 = (e - q) as u32;
        let p: u128 = pow2_u128(s);
        proof {
            lemma_pow2_adds(bl as nat, s as nat);
            lemma_pow2_increases((bl + s) as nat, 24);
            lemma2_to64();
            assert(n * p < 0x100_0000) by (nonlinear_arith)
                requires
                    n < pow2(bl as nat),
                    p == pow2(s as nat),
                    pow2(bl as nat) * pow2(s as nat) <= 0x100_0000,
                    p >= 1,
            ;
        }
        m = n * p;
    } else {
        let k: u32 = (q - e) as u32;
        let m0: u128;
        let up: bool;
        proof {
            lemma_u128_limit();
            lemma_pow2_pos(k as nat);
        }
        if k > 128 {
            proof {
                lemma_pow2_increases(129, k as nat);
                lemma_pow2_unfold(129);
                vstd::arithmetic::div_mod::lemma_basic_div(n as int, pow2(k as nat) as int);
                vstd::arithmetic::div_mod::lemma_small_mod(n as nat, pow2(k as nat));
            }
            m0 = 0;
            up = false;
        } else if k == 128 {
            proof {
                vstd::arithmetic::div_mod::lemma_basic_div(n as int, pow2(k as nat) as int);
                vstd::arithmetic::div_mod::lemma_small_mod(n as nat, pow2(k as nat));
            }
            m0 = 0;
            up = n > 0x8000_0000_0000_0000_0000_0000_0000_0000 || (n
                == 0x8000_0000_0000_0000_0000_0000_0000_0000 && sticky);
        } else {
            let p: u128 = pow2_u128(k);
            proof {
                lemma_pow2_unfold(k as nat);
            }
            let half: u128 = p / 2;
            m0 = n / p;
            let rem: u128 = n % p;
            up = rem > half || (rem == half && (sticky || m0 % 2 == 1));
        }
        proof {
            // the kept digits are fewer than 2^24
            let p = pow2(k as nat);
            lemma_pow2_adds(k as nat, 24);
            lemma_pow2_increases(bl as nat, (k + 24) as nat);
            lemma2_to64();
            assert(n < p * 0x100_0000);
            vstd::arithmetic::div_mod::lemma_multiply_divide_lt(n as int, p as int, 0x100_0000);
        }
        m = if up {
            m0 + 1
        } else {
            m0
        };
    }
    ((q + 149) as u32) * HIDDEN_BIT + (m as u32)
}

/// Whether `r` is the integer square root of `x`: `r^2 <= x < (r + 1)^2`.
pub open spec fn is_integer_sqrt(x: nat, r: nat) -> bool {
    r * r <= x < (r + 1) * (r + 1)
}

/// The integer square root: the one `r` with `r^2 <= x < (r + 1)^2`.
pub open spec fn integer_sqrt(x: nat) -> nat {
    choose|r: nat| is_integer_sqrt(x, r)
}

/// There is one integer square root.
pub proof fn lemma_integer_sqrt_unique(x: nat, r: nat)
    requires
        r * r <= x < (r + 1) * (r + 1),
    ensures
        integer_sqrt(x) == r,
{
    let s = integer_sqrt(x);
    assert(is_integer_sqrt(x, r));
    assert(is_integer_sqrt(x, s));
    assert(s == r) by (nonlinear_arith)
        requires
            r * r <= x < (r + 1) * (r + 1),
            s * s <= x < (s + 1) * (s + 1),
    ;
}

/// The integer square root by bisection, of a number below `2^126`.
pub fn integer_sqrt_u128(x: u128) -> (r: u128)
    requires
        x < 0x4000_0000_0000_0000_0000_0000_0000_0000,
    ensures
        r == integer_sqrt(x as nat),
        r * r <= x < (r + 1) * (r + 1),
        r < 0x8000_0000_0000_0000,
{
    let mut lo: u128 = 0;
    let mut hi: u128 = 0x8000_0000_0000_0000;
    assert(0x8000_0000_0000_0000u128 * 0x8000_0000_0000_0000u128
        == 0x4000_0000_0000_0000_0000_0000_0000_0000u128) by (nonlinear_arith);
    while hi - lo > 1
        invariant
            lo < hi <= 0x8000_0000_0000_0000,
            lo * lo <= x < hi * hi,
        decreases hi - lo,
    {
        let mid: u128 = lo + (hi - lo) / 2;
        assert(mid * mid < 0x4000_0000_0000_0000_0000_0000_0000_0000) by (nonlinear_arith)
            requires
                mid < 0x8000_0000_0000_0000,
        ;
        if mid * mid <= x {
            lo = mid;
        } else {
            hi = mid;
        }
    }
    proof {
        lemma_integer_sqrt_unique(x as nat, lo as nat);
    }
    lo
}

/// The floor of a number that is not negative is not negative.
proof fn lemma_floor_is_not_negative(x: F32)
    requires
        x.finite(),
        !x.negative(),
    ensures
        x.floor_spec() >= 0,
{
    if x.exponent() >= 0 {
        lemma_pow2_pos(x.exponent() as nat);
        assert(x.significand() * pow2(x.exponent() as nat) >= 0) by (nonlinear_arith)
            requires
                pow2(x.exponent() as nat) > 0,
        ;
    } else {
        lemma_pow2_pos((-x.exponent()) as nat);
        vstd::arithmetic::div_mod::lemma_div_pos_is_pos(
            x.significand() as int,
            pow2((-x.exponent()) as nat) as int,
        );
    }
}

/// A significand times `2^0` is itself.
proof fn lemma_pow2_zero_shift(b: nat)
    ensures
        b * pow2(0) == b,
{
    crate::bits::lemma_pow2_zero();
}

/// The bits of a finite number are its significand and exponent packed.
pub proof fn lemma_recompose(x: F32)
    requires
        x.finite(),
    ensures
        pack_magnitude(x.significand(), x.exponent()) == x.magnitude(),
        x.significand() < 0x100_0000,
        -149 <= x.exponent() <= 104,
        x.exponent() > -149 ==> x.significand() >= 0x80_0000,
{
}

/// A number far below the last place of another does not change it: with `a` a normal
/// significand and `b` at least 26 places below, `a * 2^d + b` and `a * 2^d - b` both
/// round to `a`.
proof fn lemma_sum_far(a: nat, ea: int, b: nat, d: nat)
    requires
        0x80_0000 <= a < 0x100_0000,
        b < 0x100_0000,
        d >= 26,
        -149 <= ea - d,
        ea <= 104,
    ensures
        round_magnitude(a * pow2(d) + b, ea - d, false) == pack_magnitude(a, ea),
        round_magnitude((a * pow2(d) - b) as nat, ea - d, false) == pack_magnitude(a, ea),
{
    let p = pow2(d);
    let e = ea - d;
    lemma2_to64();
    lemma_pow2_increases(26, d);
    lemma_pow2_adds(23, d);
    lemma_pow2_adds(24, d);
    assert(p >= 0x400_0000);
    assert(pow2(23 + d) == 0x80_0000 * p);
    assert(pow2(24 + d) == 0x100_0000 * p);
    // the sum
    {
        let n = a * p + b;
        assert(0x80_0000 * p <= a * p && (a + 1) * p <= 0x100_0000 * p && (a + 1) * p == a * p + p)
            by (nonlinear_arith)
            requires
                0x80_0000 <= a < 0x100_0000,
                p >= 0,
        ;
        crate::bits::lemma_bit_length_unique(n, 23 + d);
        assert(bit_length(n) == 24 + d);
        assert(rounding_exponent(n, e) == ea);
        vstd::arithmetic::div_mod::lemma_fundamental_div_mod_converse(
            n as int,
            p as int,
            a as int,
            b as int,
        );
        assert(n / p == a);
        assert(n % p == b);
    }
    // the difference
    if b > 0 {
        let n = (a * p - b) as nat;
        if a > 0x80_0000 {
            assert(0x80_0000 * p <= (a - 1) * p && a * p <= 0x100_0000 * p && (a - 1) * p == a * p
                - p) by (nonlinear_arith)
                requires
                    0x80_0000 < a < 0x100_0000,
                    p >= 0,
            ;
            crate::bits::lemma_bit_length_unique(n, 23 + d);
            assert(rounding_exponent(n, e) == ea);
            vstd::arithmetic::div_mod::lemma_fundamental_div_mod_converse(
                n as int,
                p as int,
                a - 1,
                p - b,
            );
            assert(n / p == a - 1);
            assert(n % p == p - b);
        } else {
            let h = pow2((d - 1) as nat);
            lemma_pow2_unfold(d);
            lemma_pow2_adds(22, (d - 1) as nat);
            lemma_pow2_adds(23, (d - 1) as nat);
            lemma_pow2_increases(25, (d - 1) as nat);
            assert(p == 2 * h);
            assert(h >= 0x200_0000);
            assert(a * p == 0x100_0000 * h) by (nonlinear_arith)
                requires
                    a == 0x80_0000,
                    p == 2 * h,
            ;
            assert(0x40_0000 * h <= 0xff_ffff * h && 0xff_ffff * h + h == 0x100_0000 * h && 0x80_0000
                * h == 0x40_0000 * h + 0x40_0000 * h) by (nonlinear_arith)
                requires
                    h >= 0,
            ;
            assert(pow2((22 + (d - 1)) as nat) == 0x40_0000 * h);
            assert(pow2((23 + (d - 1)) as nat) == 0x80_0000 * h);
            assert(n == 0xff_ffff * h + (h - b));
            crate::bits::lemma_bit_length_unique(n, (22 + d) as nat);
            assert(bit_length(n) == 23 + d);
            assert(rounding_exponent(n, e) == ea - 1);
            vstd::arithmetic::div_mod::lemma_fundamental_div_mod_converse(
                n as int,
                h as int,
                0xff_ffff,
                h - b,
            );
            assert(n / h == 0xff_ffff);
            assert(n % h == h - b);
        }
    }
}

} // verus!
