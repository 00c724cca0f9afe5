//! How far the results of binary32 arithmetic lie from the exact ones: a sum errs by at
//! most `2^-24` of itself, a product and a quotient by a little more and half of the
//! least place, and the square of a root by `6 * 2^-24` of the number. Values are counted
//! as whole numbers of units of `2^-149`.

use crate::bits::{bit_length, lemma_bit_length_bounds, lemma_pow2_increases, lemma_pow2_zero};
use crate::rounding_laws::{
    distance, lemma_integer_sqrt_exists, lemma_magnitudes_order, lemma_round_bound, lemma_round_coarser,
    lemma_round_error, lemma_round_is_monotone, lemma_round_representable, lemma_square_order, units,
};
use crate::single::{integer_sqrt, is_integer_sqrt, lemma_recompose, round_magnitude, rounding_exponent, F32};
use crate::single_laws::{
    even_exponent, even_significand, lemma_mul_zero, lemma_sqrt_is_nearest, lemma_zero_div,
};
use vstd::arithmetic::power2::{lemma2_to64, lemma_pow2_adds, lemma_pow2_pos, pow2};
use vstd::prelude::*;

verus! {

/// The size of an integer without its sign.
pub open spec fn size(x: int) -> int {
    if x < 0 {
        -x
    } else {
        x
    }
}

/// The value of a finite number as a whole number of units of `2^-149`, with its sign.
pub open spec fn whole(x: F32) -> int {
    x.aligned(-149)
}

/// The whole number of a finite number is zero for the zeros alone, has the sign of the
/// number, and flips with it; its size is the value without the sign.
pub proof fn lemma_whole(x: F32)
    requires
        x.finite(),
    ensures
        size(whole(x)) == units(x, -149),
        whole(x) == 0 <==> x.zero(),
        x.negative() ==> whole(x) <= 0,
        !x.negative() ==> whole(x) >= 0,
        whole(x.neg_spec()) == -whole(x),
{
    lemma_recompose(x);
    lemma_pow2_pos((x.exponent() + 149) as nat);
    let m = x.significand();
    let p = pow2((x.exponent() + 149) as nat);
    assert(m * p >= 0 && (m * p == 0 <==> m == 0)) by (nonlinear_arith)
        requires
            m >= 0,
            p > 0,
    ;
    assert(x.neg_spec().magnitude() == x.magnitude());
}

/// Of two finite numbers, the one with the lesser bits without the sign has the lesser
/// size.
pub proof fn lemma_sizes_order(a: F32, b: F32)
    requires
        b.finite(),
        a.magnitude() <= b.magnitude(),
    ensures
        size(whole(a)) <= size(whole(b)),
{
    let plain_a = F32 { bits: a.magnitude() as u32 };
    let plain_b = F32 { bits: b.magnitude() as u32 };
    assert(plain_a.significand() == a.significand() && plain_a.exponent() == a.exponent());
    assert(plain_b.significand() == b.significand() && plain_b.exponent() == b.exponent());
    if plain_a.bits < plain_b.bits {
        lemma_magnitudes_order(plain_a, plain_b, -149);
    }
    lemma_whole(a);
    lemma_whole(b);
}

/// The whole number of a finite number from the number aligned to an exponent `e`: the
/// one is the other times `2^(e + 149)`.
pub proof fn lemma_aligned_scales(x: F32, e: int)
    requires
        x.finite(),
        -149 <= e <= x.exponent(),
    ensures
        whole(x) == x.aligned(e) * pow2((e + 149) as nat),
{
    let m = x.significand() as int;
    let fine = pow2((x.exponent() + 149) as nat) as int;
    let coarse = pow2((x.exponent() - e) as nat) as int;
    let step = pow2((e + 149) as nat) as int;
    lemma_pow2_adds((x.exponent() - e) as nat, (e + 149) as nat);
    assert(m * fine == (m * coarse) * step && -(m * fine) == (-(m * coarse)) * step) by (nonlinear_arith)
        requires
            fine == coarse * step,
    ;
}

/// A sum errs by at most `2^-24` of itself: the whole number of a finite sum of two
/// finite numbers, less the sum of their whole numbers, times `2^24`, is no larger than
/// that sum.
pub proof fn lemma_sum_error(a: F32, b: F32)
    requires
        a.finite(),
        b.finite(),
        a.add_spec(b).finite(),
    ensures
        0x100_0000 * size(whole(a.add_spec(b)) - (whole(a) + whole(b))) <= size(whole(a) + whole(b)),
{
    reveal(F32::add_spec);
    lemma_recompose(a);
    lemma_recompose(b);
    let e = if a.exponent() <= b.exponent() {
        a.exponent()
    } else {
        b.exponent()
    };
    let s = a.aligned(e) + b.aligned(e);
    let step = pow2((e + 149) as nat);
    lemma_pow2_pos((e + 149) as nat);
    lemma_aligned_scales(a, e);
    lemma_aligned_scales(b, e);
    assert(whole(a) + whole(b) == s * step) by (nonlinear_arith)
        requires
            whole(a) == a.aligned(e) * step,
            whole(b) == b.aligned(e) * step,
            s == a.aligned(e) + b.aligned(e),
    ;
    let r = a.add_spec(b);
    lemma_whole(r);
    if s == 0 {
        assert(r.zero());
        assert(whole(a) + whole(b) == 0) by (nonlinear_arith)
            requires
                whole(a) + whole(b) == s * step,
                s == 0,
        ;
        assert(whole(r) == 0);
    } else {
        let n = (if s < 0 {
            -s
        } else {
            s
        }) as nat;
        lemma_round_bound(n, e, false);
        assert(r.magnitude() == round_magnitude(n, e, false));
        lemma_round_error(n, e, -149);
        let plain = F32 { bits: round_magnitude(n, e, false) as u32 };
        assert(plain.significand() == r.significand() && plain.exponent() == r.exponent());
        let x = n * step;
        let total = whole(a) + whole(b);
        assert(total == if s < 0 {
            -x
        } else {
            x as int
        }) by (nonlinear_arith)
            requires
                total == s * step,
                n == if s < 0 {
                    -s
                } else {
                    s
                },
                x == n * step,
        ;
        assert(x > 0) by (nonlinear_arith)
            requires
                x == n * step,
                n > 0,
                step > 0,
        ;
        assert(r.negative() == (s < 0));
        let gap = distance(units(r, -149), x as int);
        assert(whole(r) == if s < 0 {
            -units(r, -149)
        } else {
            units(r, -149)
        });
        assert(size(whole(r) - total) == gap);
        assert(size(total) == x);
        assert(0x100_0000 * gap <= x);
    }
}

/// A product errs by at most `2^-24` of itself and half of the least place: the whole
/// number of a finite product of two finite numbers, times `2^149`, less the product of
/// their whole numbers, times `2^24`, is no larger than that product and `2^172`.
pub proof fn lemma_product_error(a: F32, b: F32)
    requires
        a.finite(),
        b.finite(),
        a.mul_spec(b).finite(),
    ensures
        0x100_0000 * size(whole(a.mul_spec(b)) * pow2(149) - whole(a) * whole(b)) <= size(whole(a) * whole(b))
            + pow2(172),
{
    reveal(F32::mul_spec);
    lemma_recompose(a);
    lemma_recompose(b);
    lemma_whole(a);
    lemma_whole(b);
    lemma_pow2_pos(172);
    lemma_pow2_pos(149);
    let r = a.mul_spec(b);
    lemma_whole(r);
    let sa = a.significand();
    let sb = b.significand();
    let n = sa * sb;
    let e = a.exponent() + b.exponent();
    let one = pow2(149);
    let ua = units(a, -149);
    let ub = units(b, -149);
    let ur = units(r, -149);
    assert(size(whole(a) * whole(b)) == ua * ub) by (nonlinear_arith)
        requires
            size(whole(a)) == ua,
            size(whole(b)) == ub,
    ;
    if a.zero() || b.zero() {
        if a.zero() {
            lemma_mul_zero(b, a);
        } else {
            lemma_mul_zero(a, b);
        }
        assert(whole(r) * one - whole(a) * whole(b) == 0) by (nonlinear_arith)
            requires
                whole(r) == 0,
                whole(a) == 0 || whole(b) == 0,
        ;
    } else {
        assert(n > 0) by (nonlinear_arith)
            requires
                n == sa * sb,
                sa > 0,
                sb > 0,
        ;
        lemma_round_bound(n, e, false);
        assert(r.magnitude() == round_magnitude(n, e, false));
        lemma_round_error(n, e, -298);
        let plain = F32 { bits: round_magnitude(n, e, false) as u32 };
        assert(plain.significand() == r.significand() && plain.exponent() == r.exponent());
        let q = rounding_exponent(n, e);
        let x = n * pow2((e + 298) as nat);
        lemma_pow2_adds((a.exponent() + 149) as nat, (b.exponent() + 149) as nat);
        assert(x == ua * ub) by (nonlinear_arith)
            requires
                x == n * pow2((e + 298) as nat),
                n == sa * sb,
                pow2((e + 298) as nat) == pow2((a.exponent() + 149) as nat) * pow2((b.exponent() + 149) as nat),
                ua == sa * pow2((a.exponent() + 149) as nat),
                ub == sb * pow2((b.exponent() + 149) as nat),
        ;
        lemma_pow2_adds((r.exponent() + 149) as nat, 149);
        assert(units(r, -298) == ur * one) by (nonlinear_arith)
            requires
                units(r, -298) == r.significand() * pow2((r.exponent() + 298) as nat),
                ur == r.significand() * pow2((r.exponent() + 149) as nat),
                pow2((r.exponent() + 298) as nat) == pow2((r.exponent() + 149) as nat) * one,
        ;
        let gap = distance(ur * one, x as int);
        if q == -149 {
            lemma_pow2_adds(23, 149);
            lemma2_to64();
            assert(0x100_0000 * gap <= pow2(172)) by (nonlinear_arith)
                requires
                    2 * gap <= pow2(149),
                    pow2(172) == 0x80_0000 * pow2(149),
            ;
        }
        assert(0x100_0000 * gap <= x + pow2(172));
        // the signs
        let negative = a.negative() != b.negative();
        assert(r.negative() == negative);
        assert(whole(a) * whole(b) == if negative {
            -(ua * ub)
        } else {
            ua * ub
        }) by (nonlinear_arith)
            requires
                whole(a) == if a.negative() {
                    -ua
                } else {
                    ua
                },
                whole(b) == if b.negative() {
                    -ub
                } else {
                    ub
                },
                negative == (a.negative() != b.negative()),
        ;
        assert(whole(r) * one == if negative {
            -(ur * one)
        } else {
            ur * one
        }) by (nonlinear_arith)
            requires
                whole(r) == if negative {
                    -ur
                } else {
                    ur
                },
        ;
    }
}

/// A factor from -1 to 1 does not make a number larger: where the bits of `c` without
/// the sign are at most those of one, the product of a finite number and `c` is no
/// larger than the number.
pub proof fn lemma_product_does_not_grow(a: F32, c: F32)
    requires
        a.finite(),
        c.magnitude() <= 0x3f80_0000,
    ensures
        a.mul_spec(c).magnitude() <= a.magnitude(),
        size(whole(a.mul_spec(c))) <= size(whole(a)),
{
    if a.zero() {
        lemma_mul_zero(c, a);
    } else if c.zero() {
        lemma_mul_zero(a, c);
    } else {
        reveal(F32::mul_spec);
        lemma_recompose(a);
        lemma_recompose(c);
        let sa = a.significand();
        let sc = c.significand();
        let n = sa * sc;
        let e = a.exponent() + c.exponent();
        let one = F32 { bits: 0x3f80_0000 };
        lemma_sizes_order(c, one);
        lemma_whole(c);
        lemma_whole(one);
        assert(one.significand() == 0x80_0000 && one.exponent() == -23);
        lemma2_to64();
        lemma_pow2_adds(23, 126);
        let pa = pow2((a.exponent() + 149) as nat);
        let pc = pow2((c.exponent() + 149) as nat);
        lemma_pow2_pos((a.exponent() + 149) as nat);
        lemma_pow2_adds((a.exponent() + 149) as nat, (c.exponent() + 149) as nat);
        lemma_pow2_adds((a.exponent() + 149) as nat, 149);
        assert(n > 0) by (nonlinear_arith)
            requires
                n == sa * sc,
                sa > 0,
                sc > 0,
        ;
        assert(n * pow2((e + 298) as nat) <= sa * pow2((a.exponent() + 298) as nat)) by (nonlinear_arith)
            requires
                n == sa * sc,
                pow2((e + 298) as nat) == pa * pc,
                pow2((a.exponent() + 298) as nat) == pa * pow2(149),
                sc * pc <= pow2(149),
                sa >= 0,
                pa >= 0,
        ;
        lemma_round_is_monotone(n, e, sa, a.exponent(), -298);
        lemma_pow2_zero();
        lemma_round_representable(sa, a.exponent(), 0);
        assert(sa * pow2(0) == sa) by (nonlinear_arith)
            requires
                pow2(0) == 1,
        ;
    }
    lemma_sizes_order(a.mul_spec(c), a);
}

/// The size of a product is at most the product of bounds on the sizes.
pub proof fn lemma_size_of_product(a: int, b: int, bound_a: int, bound_b: int)
    requires
        size(a) <= bound_a,
        size(b) <= bound_b,
    ensures
        size(a * b) <= bound_a * bound_b,
        size(a * b) == size(a) * size(b),
{
    assert(size(a * b) == size(a) * size(b)) by (nonlinear_arith);
    assert(size(a) * size(b) <= bound_a * bound_b) by (nonlinear_arith)
        requires
            0 <= size(a) <= bound_a,
            0 <= size(b) <= bound_b,
    ;
}

/// An error that is small against a bound stays so when both are scaled.
pub proof fn lemma_scaled_error(t: int, d: int, k: int, bound: int)
    requires
        t * size(d) <= bound,
        k >= 0,
        t >= 0,
    ensures
        t * size(d * k) <= bound * k,
        size(d * k) == size(d) * k,
{
    assert(size(d * k) == size(d) * k) by (nonlinear_arith)
        requires
            k >= 0,
    ;
    assert(t * (size(d) * k) <= bound * k) by (nonlinear_arith)
        requires
            t * size(d) <= bound,
            k >= 0,
    ;
}

/// Whether `a` lies within `c * 2^-24` of `b`, counted against `b`; neither is negative.
pub open spec fn close(a: int, b: int, c: int) -> bool {
    a >= 0 && b >= 0 && c >= 0 && 0x100_0000 * size(a - b) <= c * b
}

/// What is close to a number that is close to a third is close to the third: the two
/// bounds add, and one more covers their product.
pub proof fn lemma_close_twice(a: int, b: int, d: int, c1: int, c2: int)
    requires
        close(a, b, c1),
        close(b, d, c2),
        c1 * c2 <= 0x100_0000,
    ensures
        close(a, d, c1 + c2 + 1),
{
    let t = 0x100_0000int;
    let e1 = size(a - b);
    let e2 = size(b - d);
    assert(size(a - d) <= e1 + e2);
    // b <= d + e2, so c1 b <= c1 d + c1 e2, and t c1 e2 <= c1 c2 d <= t d
    assert(t * (c1 * b) <= t * (c1 * d) + t * d) by (nonlinear_arith)
        requires
            b <= d + e2,
            t * e2 <= c2 * d,
            c1 * c2 <= t,
            c1 >= 0,
            c2 >= 0,
            d >= 0,
            e2 >= 0,
            t == 0x100_0000,
    ;
    assert(t * size(a - d) <= (c1 + c2 + 1) * d) by (nonlinear_arith)
        requires
            size(a - d) <= e1 + e2,
            t * e1 <= c1 * b,
            t * e2 <= c2 * d,
            t * (c1 * b) <= t * (c1 * d) + t * d,
            t == 0x100_0000,
            d >= 0,
    ;
}

/// Closeness can be read the other way at the cost of one.
pub proof fn lemma_close_turned(a: int, b: int, c: int)
    requires
        close(a, b, c),
        c * (c + 1) <= 0x100_0000,
    ensures
        close(b, a, c + 1),
{
    let t = 0x100_0000int;
    let e = size(a - b);
    // b <= a + e and t e <= c b, so (t - c) b <= t a, and c b (t - c) <= c t a
    assert(t * (c * b) <= t * ((c + 1) * a)) by (nonlinear_arith)
        requires
            b <= a + e,
            t * e <= c * b,
            c * (c + 1) <= t,
            c >= 0,
            a >= 0,
            b >= 0,
            e >= 0,
            t == 0x100_0000,
    ;
    assert(t * e <= (c + 1) * a) by (nonlinear_arith)
        requires
            t * e <= c * b,
            t * (c * b) <= t * ((c + 1) * a),
            t == 0x100_0000,
    ;
}

/// Closeness is kept when both numbers are scaled.
pub proof fn lemma_close_scaled(a: int, b: int, c: int, k: int)
    requires
        close(a, b, c),
        k >= 0,
    ensures
        close(a * k, b * k, c),
{
    assert(a * k - b * k == (a - b) * k) by (nonlinear_arith);
    lemma_scaled_error(0x100_0000, a - b, k, c * b);
    assert((c * b) * k == c * (b * k)) by (nonlinear_arith);
    assert(a * k >= 0 && b * k >= 0) by (nonlinear_arith)
        requires
            a >= 0,
            b >= 0,
            k >= 0,
    ;
}

/// A common factor that is not zero can be taken out of two numbers that are close.
pub proof fn lemma_close_unscaled(a: int, b: int, c: int, k: int)
    requires
        close(a * k, b * k, c),
        a >= 0,
        b >= 0,
        k > 0,
    ensures
        close(a, b, c),
{
    assert(a * k - b * k == (a - b) * k) by (nonlinear_arith);
    lemma_scaled_error(0x100_0000, a - b, k, 0x100_0000 * size(a - b));
    assert(0x100_0000 * size(a - b) <= c * b) by (nonlinear_arith)
        requires
            0x100_0000 * (size(a - b) * k) <= c * (b * k),
            k > 0,
    ;
}

/// Numbers whose squares are close are close.
pub proof fn lemma_close_roots(a: int, b: int, c: int)
    requires
        close(a * a, b * b, c),
        a >= 0,
        b >= 0,
    ensures
        close(a, b, c),
{
    let e = size(a - b);
    assert(size(a * a - b * b) == e * (a + b)) by (nonlinear_arith)
        requires
            e == size(a - b),
            a >= 0,
            b >= 0,
    ;
    if b == 0 {
        assert(a * a == 0 ==> a == 0) by (nonlinear_arith);
    } else {
        let te = 0x100_0000 * e;
        assert(te * b <= (c * b) * b) by (nonlinear_arith)
            requires
                0x100_0000 * (e * (a + b)) <= c * (b * b),
                te == 0x100_0000 * e,
                a >= 0,
                b > 0,
                e >= 0,
        ;
        assert(te <= c * b) by (nonlinear_arith)
            requires
                te * b <= (c * b) * b,
                b > 0,
        ;
    }
}

/// A quotient errs by at most `3 * 2^-24` of itself and the least place: with the sizes
/// of the whole numbers of a finite quotient, of the divisor and of the dividend, the
/// quotient times the divisor, less the dividend times `2^149`, times `2^24`, is no
/// larger than three times the dividend times `2^149`, and `2^24` times the divisor.
pub proof fn lemma_quotient_error(a: F32, b: F32)
    requires
        a.finite(),
        b.finite(),
        !b.zero(),
        a.div_spec(b).finite(),
    ensures
        0x100_0000 * size(size(whole(a.div_spec(b))) * size(whole(b)) - size(whole(a)) * pow2(149)) <= 3 * (size(
            whole(a),
        ) * pow2(149)) + 0x100_0000 * size(whole(b)),
{
    let r = a.div_spec(b);
    lemma_whole(a);
    lemma_whole(b);
    lemma_whole(r);
    lemma_pow2_pos(149);
    let big = size(whole(r));
    let lam = size(whole(b));
    let x = size(whole(a));
    let k = pow2(149) as int;
    if a.zero() {
        lemma_zero_div(a, b);
        assert(big * lam - x * k == 0) by (nonlinear_arith)
            requires
                big == 0,
                x == 0,
        ;
    } else {
        reveal(F32::div_spec);
        lemma_recompose(a);
        lemma_recompose(b);
        lemma_recompose(r);
        lemma2_to64();
        let sa = a.significand() as int;
        let d = b.significand() as int;
        let ea = a.exponent();
        let eb = b.exponent();
        let t = sa * 0x1_0000_0000_0000_0000;
        let e = ea - eb - 64;
        let q = t / d;
        let sticky = t % d != 0;
        vstd::arithmetic::div_mod::lemma_fundamental_div_mod(t, d);
        vstd::arithmetic::div_mod::lemma_mod_bound(t, d);
        assert(t >= 0x1_0000_0000_0000_0000 && t >= d);
        vstd::arithmetic::div_mod::lemma_div_is_ordered(0x1_0000_0000_0000_0000, t, d);
        vstd::arithmetic::div_mod::lemma_div_is_ordered_by_denominator(0x1_0000_0000_0000_0000, d, 0x100_0000);
        assert(0x1_0000_0000_0000_0000int / 0x100_0000 == 0x100_0000_0000) by (nonlinear_arith);
        assert(q >= 0x100_0000_0000);
        lemma_round_bound(q as nat, e, sticky);
        assert(r.magnitude() == round_magnitude(q as nat, e, sticky));
        // the value that is rounded, doubled where a rest is left, in units of 2^-320
        let n = if sticky {
            2 * q + 1
        } else {
            2 * q
        };
        let fine = pow2((e + 319) as nat) as int;
        let y = n * fine;
        let g = pow2(171) as int;
        lemma_pow2_pos((e + 319) as nat);
        lemma_pow2_pos(171);
        let plain = F32 { bits: r.magnitude() as u32 };
        assert(plain.significand() == r.significand() && plain.exponent() == r.exponent());
        let ru = units(plain, -320);
        lemma_pow2_adds((r.exponent() + 149) as nat, 171);
        assert(ru == big * g) by (nonlinear_arith)
            requires
                ru == r.significand() * pow2((r.exponent() + 320) as nat),
                big == r.significand() * pow2((r.exponent() + 149) as nat),
                pow2((r.exponent() + 320) as nat) == pow2((r.exponent() + 149) as nat) * g,
        ;
        if sticky {
            lemma_round_coarser((2 * q + 1) as nat, e - 1, false, 1);
            assert(pow2(1) == 2);
            assert((2 * q + 1) / 2 == q && (2 * q + 1) % 2 == 1);
            lemma_round_error((2 * q + 1) as nat, e - 1, -320);
            assert(0x100_0000 * distance(ru, y) <= y + 0x80_0000 * g);
        } else {
            lemma_round_error(q as nat, e, -320);
            lemma_pow2_adds(1, (e + 319) as nat);
            assert(q * pow2((e + 320) as nat) == y) by (nonlinear_arith)
                requires
                    y == (2 * q) * fine,
                    pow2((e + 320) as nat) == 2 * fine,
            ;
            assert(0x100_0000 * distance(ru, y) <= y + 0x80_0000 * g);
        }
        let gap = distance(ru, y);
        // the doubled quotient against the dividend
        let goal = 2 * (t * fine);
        let yd = y * d;
        let fd = fine * d;
        assert(size(yd - goal) <= fd && yd >= 0 && fd >= 0) by (nonlinear_arith)
            requires
                yd == (n * fine) * d,
                goal == 2 * (t * fine),
                fd == fine * d,
                n == if sticky {
                    2 * q + 1
                } else {
                    2 * q
                },
                t == d * q + t % d,
                0 <= t % d < d,
                sticky == (t % d != 0),
                fine > 0,
                d > 0,
                q >= 0,
        ;
        assert(0x100_0000 * fd <= yd) by (nonlinear_arith)
            requires
                yd == (n * fine) * d,
                fd == fine * d,
                n >= 0x100_0000,
                fine > 0,
                d > 0,
        ;
        let rd = ru * d;
        let gd = g * d;
        assert(size(rd - yd) == gap * d && gd >= 0) by (nonlinear_arith)
            requires
                rd == ru * d,
                yd == y * d,
                gap == distance(ru, y),
                gd == g * d,
                g > 0,
                d > 0,
        ;
        assert(0x100_0000 * (gap * d) <= yd + 0x80_0000 * gd) by (nonlinear_arith)
            requires
                0x100_0000 * gap <= y + 0x80_0000 * g,
                yd == y * d,
                gd == g * d,
                d > 0,
        ;
        assert(size(rd - goal) <= size(rd - yd) + size(yd - goal));
        assert(0x100_0000 * size(rd - goal) <= 3 * goal + 0x80_0000 * gd);
        // in whole numbers
        let step = pow2((eb + 149) as nat) as int;
        lemma_pow2_pos((eb + 149) as nat);
        assert(lam == d * step);
        lemma_pow2_adds((e + 319) as nat, (eb + 149) as nat);
        lemma_pow2_adds(64, (ea + 404) as nat);
        lemma_pow2_adds((ea + 149) as nat, 149);
        lemma_pow2_adds((ea + 298) as nat, 171);
        lemma_pow2_adds(1, (ea + 468) as nat);
        assert(goal * step == (x * k) * g) by (nonlinear_arith)
            requires
                goal == 2 * (t * fine),
                t == sa * 0x1_0000_0000_0000_0000,
                fine * step == pow2((ea + 404) as nat),
                x == sa * pow2((ea + 149) as nat),
                pow2((ea + 149) as nat) * k == pow2((ea + 298) as nat),
                pow2((ea + 298) as nat) * g == pow2((ea + 469) as nat),
                2 * (0x1_0000_0000_0000_0000 * pow2((ea + 404) as nat)) == pow2((ea + 469) as nat),
        ;
        assert(rd * step == (big * lam) * g && gd * step == lam * g) by (nonlinear_arith)
            requires
                rd == ru * d,
                ru == big * g,
                lam == d * step,
                gd == g * d,
        ;
        let left = big * lam - x * k;
        assert((rd - goal) * step == left * g) by (nonlinear_arith)
            requires
                rd * step == (big * lam) * g,
                goal * step == (x * k) * g,
                left == big * lam - x * k,
        ;
        lemma_scaled_error(0x100_0000, rd - goal, step, 3 * goal + 0x80_0000 * gd);
        lemma_size_of_product(left, g, size(left), g);
        assert((3 * goal + 0x80_0000 * gd) * step == 3 * ((x * k) * g) + 0x80_0000 * (lam * g)) by (nonlinear_arith)
            requires
                goal * step == (x * k) * g,
                gd * step == lam * g,
        ;
        assert(0x100_0000 * size(left) <= 3 * (x * k) + 0x80_0000 * lam) by (nonlinear_arith)
            requires
                0x100_0000 * (size(left) * g) <= 3 * ((x * k) * g) + 0x80_0000 * (lam * g),
                g > 0,
        ;
    }
}

/// A square root errs by at most `2^-24` of itself, so that its square is within
/// `6 * 2^-24` of the number: the whole number of the root of a positive finite number,
/// squared, against the whole number of the number times `2^149`.
pub proof fn lemma_root_error(a: F32)
    requires
        a.finite(),
        !a.zero(),
        !a.negative(),
    ensures
        a.sqrt_spec().finite(),
        !a.sqrt_spec().negative(),
        !a.sqrt_spec().zero(),
        close(whole(a.sqrt_spec()) * whole(a.sqrt_spec()), whole(a) * pow2(149), 6),
{
    let r = a.sqrt_spec();
    lemma_sqrt_is_nearest(a, a, -149);
    reveal(F32::sqrt_spec);
    lemma_recompose(a);
    lemma_recompose(r);
    lemma_whole(a);
    lemma_whole(r);
    lemma2_to64();
    lemma_pow2_pos(149);
    let m2 = even_significand(a) as int;
    let e2 = even_exponent(a);
    let x = m2 * 0x1_0000_0000_0000_0000_0000;
    let root = integer_sqrt(x as nat) as int;
    let e = e2 / 2 - 40;
    let sticky = root * root != x;
    lemma_integer_sqrt_exists(x as nat);
    assert(is_integer_sqrt(x as nat, root as nat));
    assert(root >= 0x100_0000_0000) by {
        assert(0x100_0000_0000int * 0x100_0000_0000 == 0x1_0000_0000_0000_0000_0000) by (nonlinear_arith);
        lemma_square_order(root + 1, 0x100_0000_0000);
    }
    lemma_round_bound(root as nat, e, sticky);
    assert(r.magnitude() == round_magnitude(root as nat, e, sticky));
    let plain = F32 { bits: r.magnitude() as u32 };
    assert(plain.significand() == r.significand() && plain.exponent() == r.exponent());
    let big = whole(r);
    assert(big == units(plain, -149));
    // the value that is rounded, doubled where the root is not exact
    let n = if sticky {
        2 * root + 1
    } else {
        2 * root
    };
    let fine = pow2((e + 148) as nat) as int;
    lemma_pow2_pos((e + 148) as nat);
    let y = n * fine;
    if sticky {
        lemma_round_coarser((2 * root + 1) as nat, e - 1, false, 1);
        assert(pow2(1) == 2);
        assert((2 * root + 1) / 2 == root && (2 * root + 1) % 2 == 1);
        lemma_round_error((2 * root + 1) as nat, e - 1, -149);
        lemma_bit_length_bounds((2 * root + 1) as nat);
        if bit_length((2 * root + 1) as nat) < 41 {
            lemma_pow2_increases(bit_length((2 * root + 1) as nat), 40);
        }
    } else {
        lemma_round_error(root as nat, e, -149);
        lemma_pow2_adds(1, (e + 148) as nat);
        assert(root * pow2((e + 149) as nat) == y) by (nonlinear_arith)
            requires
                y == (2 * root) * fine,
                pow2((e + 149) as nat) == 2 * fine,
        ;
        lemma_bit_length_bounds(root as nat);
        if bit_length(root as nat) < 41 {
            lemma_pow2_increases(bit_length(root as nat), 40);
        }
    }
    assert(0x100_0000 * distance(big, y) <= y);
    assert(y > 0) by (nonlinear_arith)
        requires
            y == n * fine,
            n > 0,
            fine > 0,
    ;
    // the squares
    let gap = distance(big, y);
    let yy = y * y;
    assert(size(big * big - yy) <= gap * (2 * y + gap) && big * big >= 0 && yy > 0) by (nonlinear_arith)
        requires
            gap == distance(big, y),
            yy == y * y,
            big >= 0,
            y > 0,
    ;
    assert(0x100_0000 * (gap * (2 * y + gap)) <= 3 * yy) by (nonlinear_arith)
        requires
            0x100_0000 * gap <= y,
            yy == y * y,
            gap >= 0,
            y > 0,
    ;
    assert(close(big * big, yy, 3));
    // the doubled root, squared, against four times the number
    let goal = 4 * x * (fine * fine);
    let nn = n * n;
    assert(size(nn - 4 * x) <= 3 * n) by (nonlinear_arith)
        requires
            nn == n * n,
            n == if sticky {
                2 * root + 1
            } else {
                2 * root
            },
            root * root <= x < (root + 1) * (root + 1),
            sticky == (root * root != x),
            root >= 0,
    ;
    let ff = fine * fine;
    assert(yy == nn * ff && goal == (4 * x) * ff && ff > 0) by (nonlinear_arith)
        requires
            yy == (n * fine) * (n * fine),
            nn == n * n,
            ff == fine * fine,
            goal == 4 * x * (fine * fine),
            fine > 0,
    ;
    lemma_scaled_error(1, nn - 4 * x, ff, 3 * n);
    assert(yy - goal == (nn - 4 * x) * ff) by (nonlinear_arith)
        requires
            yy == nn * ff,
            goal == (4 * x) * ff,
    ;
    assert(0x100_0000 * ((3 * n) * ff) <= yy) by (nonlinear_arith)
        requires
            yy == nn * ff,
            nn == n * n,
            n >= 0x100_0000_0000,
            ff > 0,
    ;
    assert(goal > 0) by (nonlinear_arith)
        requires
            goal == (4 * x) * ff,
            x > 0,
            ff > 0,
    ;
    assert(close(goal, yy, 1));
    lemma_close_turned(goal, yy, 1);
    lemma_close_twice(big * big, yy, goal, 3, 2);
    // four times the number, in whole numbers
    lemma_pow2_adds((e + 148) as nat, (e + 148) as nat);
    lemma_pow2_adds(80, (2 * e + 296) as nat);
    lemma_pow2_adds(64, 16);
    lemma_pow2_adds(2, (e2 + 296) as nat);
    lemma_pow2_adds((e2 + 150) as nat, 149);
    lemma_pow2_adds(1, (e2 + 298) as nat);
    assert(pow2(2) == 4 && pow2(1) == 2);
    assert(2 * e + 80 == e2);
    let wa = whole(a);
    assert(2 * wa == m2 * pow2((e2 + 150) as nat)) by {
        let sa = a.significand() as int;
        if a.exponent() % 2 != 0 {
            assert(wa == sa * pow2((e2 + 150) as nat));
            assert(2 * (sa * pow2((e2 + 150) as nat)) == (2 * sa) * pow2((e2 + 150) as nat)) by (nonlinear_arith);
        } else {
            lemma_pow2_adds(1, (e2 + 149) as nat);
            assert(2 * (sa * pow2((e2 + 149) as nat)) == sa * (2 * pow2((e2 + 149) as nat))) by (nonlinear_arith);
        }
    }
    assert(2 * goal == 2 * (wa * pow2(149))) by (nonlinear_arith)
        requires
            goal == 4 * x * ff,
            x == m2 * 0x1_0000_0000_0000_0000_0000,
            ff == pow2((2 * e + 296) as nat),
            0x1_0000_0000_0000_0000_0000 * pow2((2 * e + 296) as nat) == pow2((e2 + 296) as nat),
            4 * pow2((e2 + 296) as nat) == pow2((e2 + 298) as nat),
            2 * pow2((e2 + 298) as nat) == pow2((e2 + 299) as nat),
            pow2((e2 + 299) as nat) == pow2((e2 + 150) as nat) * pow2(149),
            2 * wa == m2 * pow2((e2 + 150) as nat),
    ;
}

/// What is at most a power of two rounds to at most that power: where `n * 2^e` is no
/// more than `2^23 * 2^j`, with `j` an exponent of a normal number, it rounds to a finite
/// number whose whole number is at most `2^(j + 172)`.
pub proof fn lemma_rounds_below_power(n: nat, e: int, j: int, unit: int, negative: bool)
    requires
        n > 0,
        -126 <= j <= 104,
        unit <= e,
        unit <= -149,
        n * pow2((e - unit) as nat) <= 0x80_0000 * pow2((j - unit) as nat),
    ensures
        round_magnitude(n, e, false) < 0x7f80_0000,
        F32::from_parts(negative, round_magnitude(n, e, false)).finite(),
        size(whole(F32::from_parts(negative, round_magnitude(n, e, false)))) <= pow2((j + 172) as nat),
{
    lemma_round_is_monotone(n, e, 0x80_0000, j, unit);
    lemma_pow2_zero();
    lemma_round_representable(0x80_0000, j, 0);
    assert(0x80_0000 * pow2(0) == 0x80_0000) by (nonlinear_arith)
        requires
            pow2(0) == 1,
    ;
    let top = F32 { bits: ((j + 149) * 0x80_0000 + 0x80_0000) as u32 };
    let r = F32::from_parts(negative, round_magnitude(n, e, false));
    assert(top.magnitude() == (j + 150) * 0x80_0000);
    assert(top.significand() == 0x80_0000 && top.exponent() == j) by {
        assert(((j + 150) * 0x80_0000) % 0x80_0000 == 0 && ((j + 150) * 0x80_0000) / 0x80_0000 == j + 150)
            by (nonlinear_arith)
            requires
                0 <= j + 150,
        ;
    }
    assert(r.magnitude() == round_magnitude(n, e, false));
    lemma_sizes_order(r, top);
    lemma_whole(top);
    lemma2_to64();
    lemma_pow2_adds(23, (j + 149) as nat);
}

/// A quotient of a number by one at least half as large is at most two: where the size
/// of the whole number of `a` is at most twice that of `b`, the quotient is finite, and
/// the size of its whole number is at most `2^150`.
pub proof fn lemma_quotient_is_bounded(a: F32, b: F32)
    requires
        a.finite(),
        b.finite(),
        !b.zero(),
        size(whole(a)) <= 2 * size(whole(b)),
    ensures
        a.div_spec(b).finite(),
        size(whole(a.div_spec(b))) <= pow2(150),
{
    lemma_pow2_pos(150);
    if a.zero() {
        lemma_zero_div(a, b);
        lemma_whole(a.div_spec(b));
    } else {
        reveal(F32::div_spec);
        lemma_recompose(a);
        lemma_recompose(b);
        lemma_whole(a);
        lemma_whole(b);
        lemma2_to64();
        let sa = a.significand() as int;
        let sb = b.significand() as int;
        let ea = a.exponent();
        let eb = b.exponent();
        let t = sa * 0x1_0000_0000_0000_0000;
        let e = ea - eb - 64;
        let q = t / sb;
        let ua = pow2((ea + 149) as nat) as int;
        let ub = pow2((eb + 149) as nat) as int;
        lemma_pow2_pos((ea + 149) as nat);
        lemma_pow2_pos((eb + 149) as nat);
        assert(sa * ua <= 2 * (sb * ub));
        // the dividend has no more than 25 digits above the divisor
        if ea >= eb + 25 {
            lemma_pow2_adds(25, (eb + 149) as nat);
            lemma_pow2_increases((eb + 174) as nat, (ea + 149) as nat);
            assert(false) by (nonlinear_arith)
                requires
                    sa * ua <= 2 * (sb * ub),
                    sa >= 1,
                    sb < 0x100_0000,
                    ua >= 0x200_0000 * ub,
                    ub > 0,
            ;
        }
        let places = (eb - ea + 64) as nat;
        let one = pow2(places) as int;
        lemma_pow2_pos(places);
        lemma_pow2_adds((ea + 149) as nat, places);
        lemma_pow2_adds((eb + 149) as nat, 64);
        assert(t <= (2 * one) * sb) by (nonlinear_arith)
            requires
                t == sa * 0x1_0000_0000_0000_0000,
                sa * ua <= 2 * (sb * ub),
                ua * one == ub * 0x1_0000_0000_0000_0000,
                ua > 0,
                ub > 0,
                one >= 0,
                sa >= 0,
                sb >= 0,
        ;
        vstd::arithmetic::div_mod::lemma_fundamental_div_mod(t, sb);
        vstd::arithmetic::div_mod::lemma_mod_bound(t, sb);
        assert(t >= 0x1_0000_0000_0000_0000 && t >= sb);
        vstd::arithmetic::div_mod::lemma_div_is_ordered(0x1_0000_0000_0000_0000, t, sb);
        vstd::arithmetic::div_mod::lemma_div_is_ordered_by_denominator(0x1_0000_0000_0000_0000, sb, 0x100_0000);
        assert(0x1_0000_0000_0000_0000int / 0x100_0000 == 0x100_0000_0000) by (nonlinear_arith);
        assert(q >= 0x100_0000_0000);
        let negative = a.negative() != b.negative();
        lemma_pow2_adds(places, 149);
        lemma_pow2_adds(1, places + 149);
        lemma_pow2_adds(1, places + 150);
        lemma_pow2_adds(23, places + 127);
        lemma_pow2_adds(23, places + 128);
        if t % sb == 0 {
            assert(q <= 2 * one) by (nonlinear_arith)
                requires
                    t == sb * q,
                    t <= (2 * one) * sb,
                    sb > 0,
            ;
            assert(q * pow2(149) <= 0x80_0000 * pow2(places + 127)) by (nonlinear_arith)
                requires
                    q <= 2 * one,
                    2 * (one * pow2(149)) == 0x80_0000 * pow2(places + 127),
                    pow2(149) >= 0,
            ;
            lemma_rounds_below_power(q as nat, e, -22, e - 149, negative);
        } else {
            assert(q < 2 * one) by (nonlinear_arith)
                requires
                    t == sb * q + t % sb,
                    t % sb > 0,
                    t <= (2 * one) * sb,
                    sb > 0,
            ;
            lemma_round_coarser((2 * q + 1) as nat, e - 1, false, 1);
            assert(pow2(1) == 2);
            assert((2 * q + 1) / 2 == q && (2 * q + 1) % 2 == 1);
            assert((2 * q + 1) * pow2(149) <= 0x80_0000 * pow2(places + 128)) by (nonlinear_arith)
                requires
                    q < 2 * one,
                    4 * (one * pow2(149)) == 0x80_0000 * pow2(places + 128),
                    pow2(149) >= 0,
            ;
            lemma_rounds_below_power((2 * q + 1) as nat, e - 1, -22, e - 150, negative);
        }
    }
}

/// The product of two numbers of at most `2^i` and `2^j` is at most `2^(i + j)`: where
/// the sizes of the whole numbers of both are at most `2^(i + 149)` and `2^(j + 149)`, the
/// product is finite, and the size of its whole number is at most `2^(i + j + 149)`.
pub proof fn lemma_product_is_bounded(a: F32, b: F32, i: nat, j: nat)
    requires
        a.finite(),
        b.finite(),
        i + j <= 100,
        size(whole(a)) <= pow2(i + 149),
        size(whole(b)) <= pow2(j + 149),
    ensures
        a.mul_spec(b).finite(),
        size(whole(a.mul_spec(b))) <= pow2(i + j + 149),
{
    lemma_pow2_pos(i + j + 149);
    if a.zero() {
        lemma_mul_zero(b, a);
        lemma_whole(a.mul_spec(b));
    } else if b.zero() {
        lemma_mul_zero(a, b);
        lemma_whole(a.mul_spec(b));
    } else {
        reveal(F32::mul_spec);
        lemma_recompose(a);
        lemma_recompose(b);
        lemma_whole(a);
        lemma_whole(b);
        lemma2_to64();
        let sa = a.significand() as int;
        let sb = b.significand() as int;
        let ea = a.exponent();
        let eb = b.exponent();
        let n = sa * sb;
        let pa = pow2((ea + 149) as nat) as int;
        let pb = pow2((eb + 149) as nat) as int;
        lemma_pow2_adds((ea + 149) as nat, (eb + 149) as nat);
        lemma_pow2_adds(i + 149, j + 149);
        lemma_pow2_adds(23, i + j + 275);
        assert(n > 0 && n * pow2((ea + eb + 298) as nat) <= 0x80_0000 * pow2(i + j + 275)) by (nonlinear_arith)
            requires
                n == sa * sb,
                sa > 0,
                sb > 0,
                pow2((ea + eb + 298) as nat) == pa * pb,
                sa * pa <= pow2(i + 149),
                sb * pb <= pow2(j + 149),
                pow2(i + 149) * pow2(j + 149) == 0x80_0000 * pow2(i + j + 275),
                pa >= 0,
                pb >= 0,
        ;
        lemma_rounds_below_power(n as nat, ea + eb, (i + j) as int - 23, -298, a.negative() != b.negative());
    }
}

/// The sum of two numbers of at most `2^j` is at most `2^(j + 1)`: where the sizes of the
/// whole numbers of both are at most `2^(j + 149)`, the sum is finite, and the size of its
/// whole number is at most `2^(j + 150)`. The sum of two numbers that are not negative is
/// not negative.
pub proof fn lemma_sum_is_bounded(a: F32, b: F32, j: nat)
    requires
        a.finite(),
        b.finite(),
        j <= 100,
        size(whole(a)) <= pow2(j + 149),
        size(whole(b)) <= pow2(j + 149),
    ensures
        a.add_spec(b).finite(),
        size(whole(a.add_spec(b))) <= pow2(j + 150),
        !a.negative() && !b.negative() ==> !a.add_spec(b).negative() && whole(a.add_spec(b)) >= 0,
{
    reveal(F32::add_spec);
    lemma_recompose(a);
    lemma_recompose(b);
    lemma_whole(a);
    lemma_whole(b);
    lemma_pow2_pos(j + 150);
    let e = if a.exponent() <= b.exponent() {
        a.exponent()
    } else {
        b.exponent()
    };
    let s = a.aligned(e) + b.aligned(e);
    let step = pow2((e + 149) as nat) as int;
    lemma_pow2_pos((e + 149) as nat);
    lemma_aligned_scales(a, e);
    lemma_aligned_scales(b, e);
    assert(whole(a) + whole(b) == s * step) by (nonlinear_arith)
        requires
            whole(a) == a.aligned(e) * step,
            whole(b) == b.aligned(e) * step,
            s == a.aligned(e) + b.aligned(e),
    ;
    let n = size(s);
    assert(n * step == size(s * step) && (s * step >= 0 ==> s >= 0)) by (nonlinear_arith)
        requires
            n == size(s),
            step > 0,
    ;
    if s != 0 {
        lemma2_to64();
        lemma_pow2_adds(1, j + 149);
        lemma_pow2_adds(23, j + 127);
        lemma_rounds_below_power(n as nat, e, j as int - 22, -149, s < 0);
    }
    lemma_whole(a.add_spec(b));
}

/// The sign of a finite product or quotient: it is negative where one of the two numbers
/// is and the other is not.
pub proof fn lemma_signs(a: F32, b: F32)
    ensures
        a.mul_spec(b).finite() ==> a.mul_spec(b).negative() == (a.negative() != b.negative()),
        a.div_spec(b).finite() ==> a.div_spec(b).negative() == (a.negative() != b.negative()),
{
    reveal(F32::mul_spec);
    reveal(F32::div_spec);
    if a.finite() && b.finite() {
        lemma_round_bound(a.significand() * b.significand(), a.exponent() + b.exponent(), false);
        if !b.zero() {
            let t = a.significand() * 0x1_0000_0000_0000_0000;
            lemma_round_bound(t / b.significand(), a.exponent() - b.exponent() - 64, t % b.significand() != 0);
        }
    }
}

/// A whole number below `2^64` and above zero gives a finite number that is not
/// negative and at least one, with a whole number of at most `2^213`.
pub proof fn lemma_from_nat_is_bounded(n: nat)
    requires
        0 < n < 0x1_0000_0000_0000_0000,
    ensures
        F32::from_nat_spec(n).finite(),
        !F32::from_nat_spec(n).negative(),
        pow2(149) <= whole(F32::from_nat_spec(n)) <= pow2(213),
{
    reveal(F32::from_nat_spec);
    lemma2_to64();
    lemma_pow2_pos(149);
    lemma_pow2_adds(64, 149);
    lemma_pow2_adds(23, 190);
    lemma_pow2_adds(23, 126);
    assert(n * pow2(149) <= 0x80_0000 * pow2(190)) by (nonlinear_arith)
        requires
            n < 0x1_0000_0000_0000_0000,
            0x1_0000_0000_0000_0000 * pow2(149) == 0x80_0000 * pow2(190),
            pow2(149) > 0,
    ;
    lemma_rounds_below_power(n, 0, 41, -149, false);
    let r = F32::from_nat_spec(n);
    lemma_whole(r);
    // at least one
    assert(1 * pow2(149) <= n * pow2(149)) by (nonlinear_arith)
        requires
            n >= 1,
            pow2(149) > 0,
    ;
    lemma_pow2_zero();
    lemma_round_is_monotone(1, 0, n, 0, -149);
    lemma_round_is_monotone(0x80_0000, -23, 1, 0, -149);
    assert(0x80_0000 * pow2(126) <= 1 * pow2(149));
    let one = F32 { bits: 0x3f80_0000 };
    assert(one.significand() == 0x80_0000 && one.exponent() == -23);
    lemma_whole(one);
    lemma_round_bound(n, 0, false);
    assert(r.magnitude() == round_magnitude(n, 0, false));
    assert(round_magnitude(0x80_0000, -23, false) == 0x3f80_0000) by {
        lemma_round_representable(0x80_0000, -23, 0);
        assert(0x80_0000 * pow2(0) == 0x80_0000) by (nonlinear_arith)
            requires
                pow2(0) == 1,
        ;
    }
    lemma_sizes_order(one, r);
}

/// Where a sum is finite, so are its two numbers; where a square is finite, so is its
/// number. A square is not negative, and neither is the sum of two numbers that are not.
pub proof fn lemma_finite_parts(a: F32, b: F32)
    ensures
        a.add_spec(b).finite() ==> a.finite() && b.finite(),
        a.mul_spec(a).finite() ==> a.finite() && !a.mul_spec(a).negative(),
        a.add_spec(b).finite() && !a.negative() && !b.negative() ==> !a.add_spec(b).negative(),
{
    reveal(F32::add_spec);
    reveal(F32::mul_spec);
    if a.finite() {
        lemma_round_bound(a.significand() * a.significand(), a.exponent() + a.exponent(), false);
    }
    if a.finite() && b.finite() && !a.negative() && !b.negative() {
        let e = if a.exponent() <= b.exponent() {
            a.exponent()
        } else {
            b.exponent()
        };
        lemma_recompose(a);
        lemma_recompose(b);
        lemma_pow2_pos((a.exponent() - e) as nat);
        lemma_pow2_pos((b.exponent() - e) as nat);
        let s = a.aligned(e) + b.aligned(e);
        assert(a.aligned(e) >= 0 && b.aligned(e) >= 0) by (nonlinear_arith)
            requires
                a.aligned(e) == a.significand() * pow2((a.exponent() - e) as nat),
                b.aligned(e) == b.significand() * pow2((b.exponent() - e) as nat),
        ;
        if s > 0 {
            lemma_round_bound(s as nat, e, false);
        }
    }
}

/// The whole numbers keep the order of the numbers: of two finite numbers, the lesser has
/// the lesser whole number.
pub proof fn lemma_whole_order(a: F32, b: F32)
    requires
        a.finite(),
        b.finite(),
        a.le_spec(b),
    ensures
        whole(a) <= whole(b),
{
    lemma_whole(a);
    lemma_whole(b);
    if !a.negative() && !b.negative() {
        lemma_sizes_order(a, b);
    } else if a.negative() && b.negative() {
        lemma_sizes_order(b, a);
    }
}

/// The whole number of a rounded value grows with the value: where `n1 * 2^e1` is at
/// most `n2 * 2^e2` and both round to finite numbers, the whole number of the first
/// result is at most that of the second.
proof fn lemma_rounded_wholes_order(n1: nat, e1: int, n2: nat, e2: int)
    requires
        -149 <= e1,
        -149 <= e2,
        n1 * pow2((e1 + 149) as nat) <= n2 * pow2((e2 + 149) as nat),
        round_magnitude(n2, e2, false) < 0x7f80_0000,
    ensures
        round_magnitude(n1, e1, false) <= round_magnitude(n2, e2, false),
        whole(F32 { bits: round_magnitude(n1, e1, false) as u32 }) <= whole(
            F32 { bits: round_magnitude(n2, e2, false) as u32 },
        ),
{
    let r1 = F32 { bits: round_magnitude(n1, e1, false) as u32 };
    let r2 = F32 { bits: round_magnitude(n2, e2, false) as u32 };
    lemma_pow2_pos((e1 + 149) as nat);
    lemma_pow2_pos((e2 + 149) as nat);
    if n1 > 0 {
        assert(n2 > 0) by (nonlinear_arith)
            requires
                n1 * pow2((e1 + 149) as nat) <= n2 * pow2((e2 + 149) as nat),
                n1 > 0,
                pow2((e1 + 149) as nat) > 0,
                pow2((e2 + 149) as nat) > 0,
        ;
        lemma_round_is_monotone(n1, e1, n2, e2, -149);
    }
    lemma_sizes_order(r1, r2);
    lemma_whole(r1);
    lemma_whole(r2);
}

/// Sums keep the order: where the whole numbers of two finite numbers together are at
/// most those of two others together, and both sums are finite, the whole number of the
/// first sum is at most that of the second.
pub proof fn lemma_sum_is_monotone(a: F32, b: F32, a2: F32, b2: F32)
    requires
        a.finite() && b.finite() && a2.finite() && b2.finite(),
        a.add_spec(b).finite(),
        a2.add_spec(b2).finite(),
        whole(a) + whole(b) <= whole(a2) + whole(b2),
    ensures
        whole(a.add_spec(b)) <= whole(a2.add_spec(b2)),
{
    reveal(F32::add_spec);
    lemma_recompose(a);
    lemma_recompose(b);
    lemma_recompose(a2);
    lemma_recompose(b2);
    let e = if a.exponent() <= b.exponent() {
        a.exponent()
    } else {
        b.exponent()
    };
    let e2 = if a2.exponent() <= b2.exponent() {
        a2.exponent()
    } else {
        b2.exponent()
    };
    let s = a.aligned(e) + b.aligned(e);
    let s2 = a2.aligned(e2) + b2.aligned(e2);
    let step = pow2((e + 149) as nat) as int;
    let step2 = pow2((e2 + 149) as nat) as int;
    lemma_pow2_pos((e + 149) as nat);
    lemma_pow2_pos((e2 + 149) as nat);
    lemma_aligned_scales(a, e);
    lemma_aligned_scales(b, e);
    lemma_aligned_scales(a2, e2);
    lemma_aligned_scales(b2, e2);
    assert(whole(a) + whole(b) == s * step && whole(a2) + whole(b2) == s2 * step2) by (nonlinear_arith)
        requires
            whole(a) == a.aligned(e) * step,
            whole(b) == b.aligned(e) * step,
            s == a.aligned(e) + b.aligned(e),
            whole(a2) == a2.aligned(e2) * step2,
            whole(b2) == b2.aligned(e2) * step2,
            s2 == a2.aligned(e2) + b2.aligned(e2),
    ;
    let n = size(s);
    let n2 = size(s2);
    assert(n * step == size(s * step) && n2 * step2 == size(s2 * step2) && (s < 0 <==> s * step < 0) && (s2 < 0
        <==> s2 * step2 < 0) && (s == 0 <==> s * step == 0) && (s2 == 0 <==> s2 * step2 == 0)) by (nonlinear_arith)
        requires
            n == size(s),
            n2 == size(s2),
            step > 0,
            step2 > 0,
    ;
    let r = a.add_spec(b);
    let r2 = a2.add_spec(b2);
    lemma_whole(r);
    lemma_whole(r2);
    lemma_round_bound(n as nat, e, false);
    lemma_round_bound(n2 as nat, e2, false);
    let plain = F32 { bits: round_magnitude(n as nat, e, false) as u32 };
    let plain2 = F32 { bits: round_magnitude(n2 as nat, e2, false) as u32 };
    lemma_whole(plain);
    lemma_whole(plain2);
    if s != 0 {
        assert(r.magnitude() == round_magnitude(n as nat, e, false));
        assert(plain.significand() == r.significand() && plain.exponent() == r.exponent());
        assert(r.negative() == (s < 0));
    }
    if s2 != 0 {
        assert(r2.magnitude() == round_magnitude(n2 as nat, e2, false));
        assert(plain2.significand() == r2.significand() && plain2.exponent() == r2.exponent());
        assert(r2.negative() == (s2 < 0));
    }
    if s >= 0 && s2 >= 0 {
        if s2 > 0 {
            lemma_rounded_wholes_order(n as nat, e, n2 as nat, e2);
        }
    } else if s < 0 && s2 < 0 {
        lemma_rounded_wholes_order(n2 as nat, e2, n as nat, e);
    }
}

/// Products with a number that is not negative keep the order: where `a`, `x` and `y` are
/// finite and not negative, `x` is at most `y`, and the product of `a` and `y` is finite,
/// the product of `a` and `x` is finite, and its whole number is at most that of the
/// other and not below zero.
pub proof fn lemma_product_is_monotone(a: F32, x: F32, y: F32)
    requires
        a.finite() && x.finite() && y.finite(),
        !a.negative() && !x.negative() && !y.negative(),
        x.le_spec(y),
        a.mul_spec(y).finite(),
    ensures
        a.mul_spec(x).finite(),
        0 <= whole(a.mul_spec(x)) <= whole(a.mul_spec(y)),
        !a.mul_spec(x).negative() && !a.mul_spec(y).negative(),
{
    reveal(F32::mul_spec);
    lemma_recompose(a);
    lemma_recompose(x);
    lemma_recompose(y);
    lemma_whole(a);
    lemma_whole(x);
    lemma_whole(y);
    lemma_whole_order(x, y);
    let sa = a.significand() as int;
    let sx = x.significand() as int;
    let sy = y.significand() as int;
    let n1 = sa * sx;
    let n2 = sa * sy;
    let e1 = a.exponent() + x.exponent();
    let e2 = a.exponent() + y.exponent();
    let pa = pow2((a.exponent() + 149) as nat) as int;
    let px = pow2((x.exponent() + 149) as nat) as int;
    let py = pow2((y.exponent() + 149) as nat) as int;
    lemma_pow2_pos((a.exponent() + 149) as nat);
    lemma_pow2_adds((a.exponent() + 149) as nat, (x.exponent() + 149) as nat);
    lemma_pow2_adds((a.exponent() + 149) as nat, (y.exponent() + 149) as nat);
    assert(n1 >= 0 && n2 >= 0 && n1 * pow2((e1 + 298) as nat) <= n2 * pow2((e2 + 298) as nat)) by (nonlinear_arith)
        requires
            n1 == sa * sx,
            n2 == sa * sy,
            pow2((e1 + 298) as nat) == pa * px,
            pow2((e2 + 298) as nat) == pa * py,
            sx * px <= sy * py,
            sa >= 0,
            sx >= 0,
            sy >= 0,
            pa > 0,
    ;
    lemma_round_bound(n1 as nat, e1, false);
    lemma_round_bound(n2 as nat, e2, false);
    if n1 > 0 {
        lemma_pow2_pos((e1 + 298) as nat);
        lemma_pow2_pos((e2 + 298) as nat);
        assert(n2 > 0) by (nonlinear_arith)
            requires
                n1 * pow2((e1 + 298) as nat) <= n2 * pow2((e2 + 298) as nat),
                n1 > 0,
                n2 >= 0,
                pow2((e1 + 298) as nat) > 0,
                pow2((e2 + 298) as nat) > 0,
        ;
        lemma_round_is_monotone(n1 as nat, e1, n2 as nat, e2, -298);
    }
    assert(a.mul_spec(x).magnitude() == round_magnitude(n1 as nat, e1, false));
    assert(a.mul_spec(y).magnitude() == round_magnitude(n2 as nat, e2, false));
    lemma_sizes_order(a.mul_spec(x), a.mul_spec(y));
    lemma_whole(a.mul_spec(x));
    lemma_whole(a.mul_spec(y));
}

/// Numbers that are equal have the same whole number.
pub proof fn lemma_equal_wholes(a: F32, b: F32)
    requires
        a.equal(b),
        b.finite(),
    ensures
        whole(a) == whole(b),
        a.finite(),
{
    crate::single_laws::lemma_order(a, b, b);
    lemma_whole(a);
    lemma_whole(b);
}

/// The numbers keep the order of their whole numbers: of two finite numbers, the one with
/// the lesser whole number is the lesser.
pub proof fn lemma_order_of_wholes(a: F32, b: F32)
    requires
        a.finite(),
        b.finite(),
        whole(a) <= whole(b),
    ensures
        a.le_spec(b),
{
    crate::single_laws::lemma_order(a, b, b);
    if b.le_spec(a) {
        lemma_whole_order(b, a);
        lemma_whole(a);
        lemma_whole(b);
        let plain_a = F32 { bits: a.magnitude() as u32 };
        let plain_b = F32 { bits: b.magnitude() as u32 };
        assert(plain_a.significand() == a.significand() && plain_a.exponent() == a.exponent());
        assert(plain_b.significand() == b.significand() && plain_b.exponent() == b.exponent());
        if plain_a.bits < plain_b.bits {
            lemma_magnitudes_order(plain_a, plain_b, -149);
        }
        if plain_b.bits < plain_a.bits {
            lemma_magnitudes_order(plain_b, plain_a, -149);
        }
    }
}

} // verus!
