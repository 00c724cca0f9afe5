//! Decimal numbers in text, read as the binary32 number nearest to them.
//!
//! A number is an optional sign, then `inf`, `infinity` or `nan` in any case, or
//! digits with at most one point among them and an optional exponent: `e` or `E`, an
//! optional sign, and digits. There is at least one digit before the exponent and at
//! least one in it. Nothing else may stand before, in or after the number.

use crate::big::{big_bit_len, big_from, big_value, is_zero, mul_add, quotient_small, shift_left};
use crate::bits::{bit_length, lemma_bit_length_bounds, lemma_bit_length_shift, lemma_pow2_increases, lemma_pow2_zero};
use crate::single::{round_magnitude, round_to_magnitude, rounding_exponent, F32, INFINITY_BITS, NAN_BITS};
use crate::rounding_laws::{distance, lemma_round_coarser, lemma_round_ratio_is_nearest, units};
use vstd::arithmetic::power2::{lemma2_to64, lemma_pow2_adds, lemma_pow2_pos, pow2};
use vstd::prelude::*;

verus! {

/// `10^k`.
pub open spec fn pow10(k: nat) -> nat
    decreases k,
{
    if k == 0 {
        1
    } else {
        10 * pow10((k - 1) as nat)
    }
}

/// Magnitude bits of the binary32 number nearest to `t / d`: the quotient is taken to
/// 160 binary places, and what is left of the division decides a tie.
#[verifier::opaque]
pub open spec fn ratio_magnitude(t: nat, d: nat) -> nat {
    round_magnitude((t * pow2(160)) / d, -160, (t * pow2(160)) % d != 0)
}

/// Whether a byte is a decimal digit.
pub open spec fn is_digit(b: u8) -> bool {
    0x30 <= b && b <= 0x39
}

/// Where the digits that start at `from` end: at the first byte that is no digit, or
/// at `to`.
pub open spec fn digits_end(s: Seq<u8>, from: int, to: int) -> int
    decreases to - from,
{
    if from >= to {
        from
    } else if is_digit(s[from]) {
        digits_end(s, from + 1, to)
    } else {
        from
    }
}

/// The value of the digits from `from` up to `to`, read in order; bytes that are no
/// digits are passed over.
pub open spec fn digits_of(s: Seq<u8>, from: int, to: int) -> nat
    decreases to - from,
{
    if from >= to {
        0
    } else if is_digit(s[to - 1]) {
        digits_of(s, from, to - 1) * 10 + (s[to - 1] - 0x30) as nat
    } else {
        digits_of(s, from, to - 1)
    }
}

/// A letter in lower case, and any other byte as it is.
pub open spec fn lower(b: u8) -> u8 {
    if 0x41 <= b && b <= 0x5a {
        (b + 0x20) as u8
    } else {
        b
    }
}

/// Whether the three bytes from `from` on are the letters `a`, `b` and `c`, in any case.
pub open spec fn spells(s: Seq<u8>, from: int, a: u8, b: u8, c: u8) -> bool {
    lower(s[from]) == a && lower(s[from + 1]) == b && lower(s[from + 2]) == c
}

/// Whether the bytes from `from` up to `to` are `inf` or `infinity`, in any case.
pub open spec fn says_infinity(s: Seq<u8>, from: int, to: int) -> bool {
    ||| to - from == 3 && spells(s, from, 0x69, 0x6e, 0x66)
    ||| to - from == 8 && spells(s, from, 0x69, 0x6e, 0x66) && spells(s, from + 3, 0x69, 0x6e, 0x69) && lower(
        s[from + 6],
    ) == 0x74 && lower(s[from + 7]) == 0x79
}

/// Whether the bytes from `from` up to `to` are `nan`, in any case.
pub open spec fn says_nan(s: Seq<u8>, from: int, to: int) -> bool {
    to - from == 3 && spells(s, from, 0x6e, 0x61, 0x6e)
}

/// What a number without its sign says.
pub enum Decimal {
    /// Not a number.
    Nan,
    /// Infinity.
    Infinite,
    /// `digits * 10^scale`.
    Number { digits: nat, scale: int },
}

/// What the bytes from `from` up to `to` say as a number without a sign, or nothing
/// where they are no number.
pub open spec fn unsigned_decimal(s: Seq<u8>, from: int, to: int) -> Option<Decimal> {
    if says_infinity(s, from, to) {
        Some(Decimal::Infinite)
    } else if says_nan(s, from, to) {
        Some(Decimal::Nan)
    } else {
        let int_end = digits_end(s, from, to);
        let has_point = int_end < to && s[int_end] == 0x2e;
        let frac_start = if has_point {
            int_end + 1
        } else {
            int_end
        };
        let frac_end = digits_end(s, frac_start, to);
        let count = (int_end - from) + (frac_end - frac_start);
        let has_exp = frac_end < to && (s[frac_end] == 0x65 || s[frac_end] == 0x45);
        let sign_at = frac_end + 1;
        let exp_signed = sign_at < to && (s[sign_at] == 0x2b || s[sign_at] == 0x2d);
        let exp_start = if exp_signed {
            sign_at + 1
        } else {
            sign_at
        };
        let exp_end = digits_end(s, exp_start, to);
        let exp_value = digits_of(s, exp_start, exp_end) as int;
        let exponent = if !has_exp {
            0
        } else if exp_signed && s[sign_at] == 0x2d {
            -exp_value
        } else {
            exp_value
        };
        let complete = if has_exp {
            exp_start < exp_end && exp_end == to
        } else {
            frac_end == to
        };
        if count >= 1 && complete {
            Some(Decimal::Number { digits: digits_of(s, from, frac_end), scale: exponent - (frac_end - frac_start) })
        } else {
            None
        }
    }
}

/// The binary32 number nearest to what a number says.
pub open spec fn decimal_bits(negative: bool, d: Decimal) -> F32 {
    match d {
        Decimal::Nan => F32::nan_value(),
        Decimal::Infinite => F32::from_parts(negative, 0x7f80_0000),
        Decimal::Number { digits, scale } => if digits == 0 {
            F32::from_parts(negative, 0)
        } else if scale >= 0 {
            F32::from_parts(negative, ratio_magnitude(digits * pow10(scale as nat), 1))
        } else {
            F32::from_parts(negative, ratio_magnitude(digits, pow10((-scale) as nat)))
        },
    }
}

/// The number that the bytes from `from` up to `to` say, or nothing where they are no
/// number.
pub open spec fn parse_decimal_spec(s: Seq<u8>, from: int, to: int) -> Option<F32> {
    let signed = from < to && (s[from] == 0x2b || s[from] == 0x2d);
    let negative = signed && s[from] == 0x2d;
    let start = if signed {
        from + 1
    } else {
        from
    };
    match unsigned_decimal(s, start, to) {
        Some(d) => Some(decimal_bits(negative, d)),
        None => None,
    }
}

/// Powers of ten grow at least as fast as powers of eight.
pub proof fn lemma_pow10_above(k: nat)
    ensures
        pow10(k) >= pow2(3 * k),
        pow10(k) > 0,
    decreases k,
{
    if k == 0 {
        lemma_pow2_zero();
    } else {
        lemma_pow10_above((k - 1) as nat);
        lemma_pow2_adds(3, (3 * (k - 1)) as nat);
        lemma2_to64();
    }
}

/// Powers of ten grow with the exponent.
pub proof fn lemma_pow10_grows(a: nat, b: nat)
    requires
        a <= b,
    ensures
        pow10(a) <= pow10(b),
    decreases b - a,
{
    if a < b {
        lemma_pow10_grows(a, (b - 1) as nat);
    }
}

/// A quotient read off at another scale: where `y / d` and `a / b` are the same ratio
/// but for `j` binary places, the one is the other cut by `j` digits, and it is exact
/// where nothing is cut off and nothing is left.
pub proof fn lemma_quotient_scaled(y: nat, d: nat, a: nat, b: nat, j: nat)
    requires
        d > 0,
        b > 0,
        y * b == a * (d * pow2(j)),
    ensures
        (y / d) / pow2(j) == a / b,
        (a % b != 0) == (y % d != 0 || (y / d) % pow2(j) != 0),
{
    let w = d * pow2(j);
    let n = a / b;
    let r = a % b;
    lemma_pow2_pos(j);
    assert(w > 0) by (nonlinear_arith)
        requires
            w == d * pow2(j),
            d > 0,
            pow2(j) > 0,
    ;
    vstd::arithmetic::div_mod::lemma_fundamental_div_mod(a as int, b as int);
    vstd::arithmetic::div_mod::lemma_mod_bound(a as int, b as int);
    let z = y - w * n;
    assert(b * z == r * w && 0 <= z < w && (z == 0 <==> r == 0)) by (nonlinear_arith)
        requires
            y * b == a * w,
            a == b * n + r,
            0 <= r < b,
            z == y - w * n,
            w > 0,
    ;
    vstd::arithmetic::div_mod::lemma_fundamental_div_mod_converse(y as int, w as int, n as int, z);
    vstd::arithmetic::div_mod::lemma_div_denominator(y as int, d as int, pow2(j) as int);
    vstd::arithmetic::div_mod::lemma_breakdown(y as int, d as int, pow2(j) as int);
    vstd::arithmetic::div_mod::lemma_mod_bound(y as int, d as int);
    vstd::arithmetic::div_mod::lemma_mod_bound((y / d) as int, pow2(j) as int);
    let low = (y / d) % pow2(j);
    let left = y % d;
    assert(d * low + left == 0 <==> low == 0 && left == 0) by (nonlinear_arith)
        requires
            0 <= low,
            0 <= left,
            d > 0,
    ;
}

/// Reading gives the nearest number: where `t / d` is at least `2^-160` and is read as a
/// finite number, no finite number is nearer to `t / d`. Values are counted in units of
/// `2^-160` and compared after multiplying by `d`.
pub proof fn lemma_ratio_is_nearest(t: nat, d: nat, f: F32)
    requires
        d > 0,
        t * pow2(160) >= d,
        f.finite(),
        ratio_magnitude(t, d) < 0x7f80_0000,
    ensures
        ({
            let r = F32 { bits: ratio_magnitude(t, d) as u32 };
            let x = (t * pow2(160)) as int;
            &&& r.finite()
            &&& distance(units(r, -160) * d, x) <= distance(units(f, -160) * d, x)
            &&& (distance(units(r, -160) * d, x) == distance(units(f, -160) * d, x) && units(f, -160) != units(
                r,
                -160,
            ) ==> r.significand() % 2 == 0)
        }),
{
    reveal(ratio_magnitude);
    lemma_pow2_zero();
    assert((t * pow2(160)) * pow2(0) == t * pow2(160)) by (nonlinear_arith)
        requires
            pow2(0) == 1,
    ;
    lemma_round_ratio_is_nearest(t * pow2(160), d, -160, f, -160);
}

/// The magnitude bits of the binary32 number nearest to `t / d`.
fn round_ratio(t: &Vec<u32>, d: &Vec<u32>) -> (r: u32)
    requires
        big_value(t@) > 0,
        big_value(d@) > 0,
    ensures
        r == ratio_magnitude(big_value(t@), big_value(d@)),
        r <= 0x7f80_0000,
{
    reveal(ratio_magnitude);
    let ghost tv = big_value(t@);
    let ghost dv = big_value(d@);
    let ghost y = tv * pow2(160);
    let blt: u128 = big_bit_len(t);
    let bld: u128 = big_bit_len(d);
    proof {
        lemma_bit_length_bounds(tv);
        lemma_bit_length_bounds(dv);
        lemma_pow2_pos(160);
        lemma_bit_length_shift(tv, 160);
        lemma_bit_length_bounds(y);
    }
    if blt >= bld + 130 {
        proof {
            // the quotient has 290 digits or more
            let n = y / dv;
            lemma_pow2_adds((blt - 1) as nat, 160);
            lemma_pow2_adds(289, bld as nat);
            lemma_pow2_increases((289 + bld) as nat, (blt - 1 + 160) as nat);
            lemma_pow2_pos(289);
            assert(y >= pow2(289) * dv) by (nonlinear_arith)
                requires
                    y == tv * pow2(160),
                    tv >= pow2((blt - 1) as nat),
                    pow2((blt - 1) as nat) * pow2(160) >= pow2(289) * pow2(bld as nat),
                    dv < pow2(bld as nat),
                    pow2(289) > 0,
                    pow2(160) > 0,
            ;
            vstd::arithmetic::div_mod::lemma_div_is_ordered((pow2(289) * dv) as int, y as int, dv as int);
            vstd::arithmetic::div_mod::lemma_div_multiples_vanish(pow2(289) as int, dv as int);
            assert(n >= pow2(289));
            lemma_bit_length_bounds(n);
            if bit_length(n) <= 289 {
                lemma_pow2_increases(bit_length(n), 289);
            }
            assert(rounding_exponent(n, -160) > 104);
        }
        return INFINITY_BITS;
    }
    let need: i128 = 27 + bld as i128 - blt as i128;
    if need >= 160 {
        let a = shift_left(t, 160);
        proof {
            lemma2_to64();
            lemma_pow2_increases((blt + 160) as nat, (bld + 27) as nat);
            lemma_pow2_adds(28, (bld - 1) as nat);
            assert(y < dv * 0x1000_0000) by (nonlinear_arith)
                requires
                    y < pow2((blt + 160) as nat),
                    pow2((blt + 160) as nat) <= pow2((bld + 27) as nat),
                    pow2((bld + 27) as nat) == 0x1000_0000 * pow2((bld - 1) as nat),
                    pow2((bld - 1) as nat) <= dv,
            ;
        }
        let (n, sticky) = quotient_small(&a, d);
        return round_to_magnitude(n as u128, -160, sticky);
    }
    let a: Vec<u32>;
    let b: Vec<u32>;
    if need >= 0 {
        a = shift_left(t, need as usize);
        b = mul_add(d, 1, 0);
        proof {
            lemma_bit_length_shift(tv, need as nat);
            lemma_pow2_adds(need as nat, (160 - need) as nat);
            assert(y * big_value(b@) == big_value(a@) * (dv * pow2((160 - need) as nat))) by (nonlinear_arith)
                requires
                    y == tv * pow2(160),
                    big_value(b@) == dv * 1 + 0,
                    big_value(a@) == tv * pow2(need as nat),
                    pow2(160) == pow2(need as nat) * pow2((160 - need) as nat),
            ;
        }
    } else {
        a = mul_add(t, 1, 0);
        b = shift_left(d, (-need) as usize);
        proof {
            lemma_bit_length_shift(dv, (-need) as nat);
            lemma_pow2_adds(160, (-need) as nat);
            assert(y * big_value(b@) == big_value(a@) * (dv * pow2((160 - need) as nat))) by (nonlinear_arith)
                requires
                    y == tv * pow2(160),
                    big_value(a@) == tv * 1 + 0,
                    big_value(b@) == dv * pow2((-need) as nat),
                    pow2((160 - need) as nat) == pow2(160) * pow2((-need) as nat),
            ;
        }
    }
    let ghost av = big_value(a@);
    let ghost bv = big_value(b@);
    let ghost j = (160 - need) as nat;
    proof {
        // the quotient has 27 or 28 digits
        let bla = bit_length(av);
        let blb = bit_length(bv);
        assert(bla == blb + 27);
        lemma_bit_length_bounds(av);
        lemma_bit_length_bounds(bv);
        lemma2_to64();
        lemma_pow2_adds(28, (blb - 1) as nat);
        lemma_pow2_adds(26, blb);
        assert(av < bv * 0x1000_0000 && av >= 0x400_0000 * bv) by (nonlinear_arith)
            requires
                pow2((bla - 1) as nat) <= av < pow2(bla),
                pow2((blb - 1) as nat) <= bv < pow2(blb),
                pow2(bla) == 0x1000_0000 * pow2((blb - 1) as nat),
                pow2((bla - 1) as nat) == 0x400_0000 * pow2(blb),
        ;
        vstd::arithmetic::div_mod::lemma_div_is_ordered((0x400_0000 * bv) as int, av as int, bv as int);
        vstd::arithmetic::div_mod::lemma_div_multiples_vanish(0x400_0000, bv as int);
        lemma_quotient_scaled(y, dv, av, bv, j);
        lemma_round_coarser(y / dv, -160, y % dv != 0, j);
    }
    let (n, sticky) = quotient_small(&a, &b);
    round_to_magnitude(n as u128, (-need) as i32, sticky)
}

/// Where the quotient is at least `2^129`, it rounds to infinity.
proof fn lemma_large_ratio(t: nat, d: nat)
    requires
        d > 0,
        t >= pow2(129) * d,
    ensures
        ratio_magnitude(t, d) == 0x7f80_0000,
{
    reveal(ratio_magnitude);
    let y = t * pow2(160);
    let n = y / d;
    lemma_pow2_adds(129, 160);
    lemma_pow2_pos(160);
    lemma_pow2_pos(289);
    assert(y >= pow2(289) * d) by (nonlinear_arith)
        requires
            y == t * pow2(160),
            t >= pow2(129) * d,
            pow2(289) == pow2(129) * pow2(160),
            pow2(160) > 0,
    ;
    vstd::arithmetic::div_mod::lemma_div_is_ordered((pow2(289) * d) as int, y as int, d as int);
    vstd::arithmetic::div_mod::lemma_div_multiples_vanish(pow2(289) as int, d as int);
    lemma_bit_length_bounds(n);
    if bit_length(n) <= 289 {
        lemma_pow2_increases(bit_length(n), 289);
    }
    assert(rounding_exponent(n, -160) > 104);
}

/// Where the quotient is below `2^-160`, it rounds to zero.
proof fn lemma_small_ratio(t: nat, d: nat)
    requires
        t * pow2(160) < d,
    ensures
        ratio_magnitude(t, d) == 0,
{
    reveal(ratio_magnitude);
    vstd::arithmetic::div_mod::lemma_basic_div((t * pow2(160)) as int, d as int);
}

fn lower_byte(b: u8) -> (r: u8)
    ensures
        r == lower(b),
{
    if 0x41 <= b && b <= 0x5a {
        b + 0x20
    } else {
        b
    }
}

fn spells_at(text: &[u8], from: usize, a: u8, b: u8, c: u8) -> (r: bool)
    requires
        from + 3 <= text@.len(),
    ensures
        r == spells(text@, from as int, a, b, c),
{
    lower_byte(text[from]) == a && lower_byte(text[from + 1]) == b && lower_byte(text[from + 2]) == c
}

fn scan_digits(text: &[u8], from: usize, to: usize) -> (r: usize)
    requires
        from <= to <= text@.len(),
    ensures
        r == digits_end(text@, from as int, to as int),
        from <= r <= to,
{
    let mut i: usize = from;
    while i < to && 0x30 <= text[i] && text[i] <= 0x39
        invariant
            from <= i <= to,
            to <= text@.len(),
            digits_end(text@, from as int, to as int) == digits_end(text@, i as int, to as int),
        decreases to - i,
    {
        i = i + 1;
    }
    i
}

/// The digits from `from` up to `to` as one number, whatever stands between them.
fn read_digits(text: &[u8], from: usize, to: usize) -> (r: Vec<u32>)
    requires
        from <= to <= text@.len(),
    ensures
        big_value(r@) == digits_of(text@, from as int, to as int),
{
    let mut value = big_from(0);
    let mut i: usize = from;
    while i < to
        invariant
            from <= i <= to,
            to <= text@.len(),
            big_value(value@) == digits_of(text@, from as int, i as int),
        decreases to - i,
    {
        let b = text[i];
        if 0x30 <= b && b <= 0x39 {
            value = mul_add(&value, 10, (b - 0x30) as u32);
        }
        i = i + 1;
    }
    value
}

/// The digits from `from` up to `to` as a number that stops growing at `2^70`.
fn read_capped(text: &[u8], from: usize, to: usize) -> (r: i128)
    requires
        from <= to <= text@.len(),
    ensures
        r == if digits_of(text@, from as int, to as int) < 0x40_0000_0000_0000_0000 {
            digits_of(text@, from as int, to as int) as int
        } else {
            0x40_0000_0000_0000_0000
        },
{
    let cap: i128 = 0x40_0000_0000_0000_0000;
    let mut value: i128 = 0;
    let mut i: usize = from;
    while i < to
        invariant
            from <= i <= to,
            to <= text@.len(),
            cap == 0x40_0000_0000_0000_0000,
            value == if digits_of(text@, from as int, i as int) < 0x40_0000_0000_0000_0000 {
                digits_of(text@, from as int, i as int) as int
            } else {
                0x40_0000_0000_0000_0000
            },
        decreases to - i,
    {
        let b = text[i];
        if 0x30 <= b && b <= 0x39 {
            let next: i128 = value * 10 + (b - 0x30) as i128;
            value = if next < cap {
                next
            } else {
                cap
            };
        }
        i = i + 1;
    }
    value
}

/// The number `v * 10^k`.
fn times_pow10(v: Vec<u32>, k: u128) -> (r: Vec<u32>)
    ensures
        big_value(r@) == big_value(v@) * pow10(k as nat),
{
    let ghost start = big_value(v@);
    let mut value = v;
    let mut i: u128 = 0;
    proof {
        assert(start * pow10(0) == start) by (nonlinear_arith)
            requires
                pow10(0) == 1,
        ;
    }
    while i < k
        invariant
            i <= k,
            big_value(value@) == start * pow10(i as nat),
        decreases k - i,
    {
        proof {
            assert(start * pow10(i as nat) * 10 + 0 == start * pow10((i + 1) as nat)) by (nonlinear_arith)
                requires
                    pow10((i + 1) as nat) == 10 * pow10(i as nat),
            ;
        }
        value = mul_add(&value, 10, 0);
        i = i + 1;
    }
    value
}

/// Reads a decimal number: the binary32 number nearest to what the bytes from `from` up
/// to `to` say, or nothing where they are no number.
#[verifier::rlimit(80)]
pub fn parse_decimal(text: &[u8], from: usize, to: usize) -> (r: Option<F32>)
    requires
        from <= to <= text@.len(),
    ensures
        r == parse_decimal_spec(text@, from as int, to as int),
{
    let ghost s = text@;
    let signed: bool = from < to && (text[from] == 0x2b || text[from] == 0x2d);
    let negative: bool = signed && text[from] == 0x2d;
    let start: usize = if signed {
        from + 1
    } else {
        from
    };
    let length: usize = to - start;
    if length == 3 && spells_at(text, start, 0x69, 0x6e, 0x66) {
        return Some(F32::with_sign(negative, INFINITY_BITS));
    }
    if length == 8 && spells_at(text, start, 0x69, 0x6e, 0x66) && spells_at(text, start + 3, 0x69, 0x6e, 0x69)
        && lower_byte(text[start + 6]) == 0x74 && lower_byte(text[start + 7]) == 0x79 {
        return Some(F32::with_sign(negative, INFINITY_BITS));
    }
    if length == 3 && spells_at(text, start, 0x6e, 0x61, 0x6e) {
        return Some(F32 { bits: NAN_BITS });
    }
    let int_end: usize = scan_digits(text, start, to);
    let has_point: bool = int_end < to && text[int_end] == 0x2e;
    let frac_start: usize = if has_point {
        int_end + 1
    } else {
        int_end
    };
    let frac_end: usize = scan_digits(text, frac_start, to);
    if (int_end - start) + (frac_end - frac_start) == 0 {
        return None;
    }
    let has_exp: bool = frac_end < to && (text[frac_end] == 0x65 || text[frac_end] == 0x45);
    let mut exponent: i128 = 0;
    let ghost mut exact: int = 0;
    if has_exp {
        let sign_at: usize = frac_end + 1;
        let exp_signed: bool = sign_at < to && (text[sign_at] == 0x2b || text[sign_at] == 0x2d);
        let exp_start: usize = if exp_signed {
            sign_at + 1
        } else {
            sign_at
        };
        let exp_end: usize = scan_digits(text, exp_start, to);
        if exp_end == exp_start || exp_end != to {
            return None;
        }
        let size: i128 = read_capped(text, exp_start, exp_end);
        if exp_signed && text[sign_at] == 0x2d {
            exponent = -size;
            proof {
                exact = -(digits_of(s, exp_start as int, exp_end as int) as int);
            }
        } else {
            exponent = size;
            proof {
                exact = digits_of(s, exp_start as int, exp_end as int) as int;
            }
        }
    } else if frac_end != to {
        return None;
    }
    let digits = read_digits(text, start, frac_end);
    let scale: i128 = exponent - (frac_end - frac_start) as i128;
    Some(evaluate(negative, digits, scale, Ghost(exact - (frac_end - frac_start))))
}

/// The binary32 number nearest to `digits * 10^scale`. The scale is the true one, or
/// both are beyond `2^69` on the same side.
fn evaluate(negative: bool, digits: Vec<u32>, scale: i128, true_scale: Ghost<int>) -> (r: F32)
    requires
        -0x80_0000_0000_0000_0000 <= scale <= 0x80_0000_0000_0000_0000,
        scale == true_scale@ || (scale >= 0x20_0000_0000_0000_0000 && true_scale@ >= scale) || (scale
            <= -0x20_0000_0000_0000_0000 && true_scale@ <= scale),
    ensures
        r == decimal_bits(negative, Decimal::Number { digits: big_value(digits@), scale: true_scale@ }),
{
    let ghost dv = big_value(digits@);
    let ghost true_scale = true_scale@;
    if is_zero(&digits) {
        return F32::with_sign(negative, 0);
    }
    if scale >= 43 {
        proof {
            lemma_pow10_above(43);
            lemma_pow10_grows(43, true_scale as nat);
            assert(dv * pow10(true_scale as nat) >= pow2(129) * 1) by (nonlinear_arith)
                requires
                    dv >= 1,
                    pow10(true_scale as nat) >= pow10(43),
                    pow10(43) >= pow2(129),
            ;
            lemma_large_ratio(dv * pow10(true_scale as nat), 1);
        }
        return F32::with_sign(negative, INFINITY_BITS);
    }
    if scale >= 0 {
        let t = times_pow10(digits, scale as u128);
        let one = big_from(1);
        proof {
            lemma_pow10_above(scale as nat);
            assert(dv * pow10(scale as nat) > 0) by (nonlinear_arith)
                requires
                    dv > 0,
                    pow10(scale as nat) > 0,
            ;
        }
        return F32::with_sign(negative, round_ratio(&t, &one));
    }
    let places: u128 = (-scale) as u128;
    let bl: u128 = big_bit_len(&digits);
    if 3 * places >= bl + 160 {
        proof {
            let true_places = (-true_scale) as nat;
            lemma_bit_length_bounds(dv);
            lemma_pow10_above(true_places);
            lemma_pow2_adds(bl as nat, 160);
            lemma_pow2_increases((bl + 160) as nat, 3 * true_places);
            lemma_pow2_pos(160);
            assert(dv * pow2(160) < pow10(true_places)) by (nonlinear_arith)
                requires
                    dv < pow2(bl as nat),
                    pow2(bl as nat) * pow2(160) <= pow10(true_places),
                    pow2(160) > 0,
            ;
            lemma_small_ratio(dv, pow10(true_places));
        }
        return F32::with_sign(negative, 0);
    }
    let d = times_pow10(big_from(1), places);
    proof {
        lemma_pow10_above(places as nat);
        assert(1 * pow10(places as nat) == pow10(places as nat)) by (nonlinear_arith);
    }
    F32::with_sign(negative, round_ratio(&digits, &d))
}

} // verus!
