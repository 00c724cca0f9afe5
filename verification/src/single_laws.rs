//! What holds of binary32 arithmetic: every operation gives the number nearest to the
//! exact result, sums and products do not depend on the order, and one and zero are
//! neutral.

use crate::bits::{bit_length, lemma_bit_length_bounds, lemma_bit_length_unique, lemma_pow2_increases, lemma_pow2_zero};
use crate::rounding_laws::{
    distance, lemma_integer_sqrt_exists, lemma_magnitudes_order, lemma_round_bound, lemma_round_coarser,
    lemma_round_is_monotone, lemma_round_is_nearest, lemma_round_is_not_zero, lemma_round_overflows,
    lemma_round_ratio_is_nearest, lemma_round_representable, lemma_round_root_is_nearest, lemma_square_order,
    units,
};
use crate::single::{integer_sqrt, is_integer_sqrt, lemma_recompose, round_magnitude, rounding_exponent, F32};
use vstd::arithmetic::power2::{lemma2_to64, lemma_pow2_adds, lemma_pow2_pos, pow2};
use vstd::prelude::*;

verus! {

/// The sum of two finite numbers is the number nearest to their exact sum.
pub proof fn lemma_add_is_nearest(a: F32, b: F32, f: F32)
    requires
        a.finite(),
        b.finite(),
        f.finite(),
        a.add_spec(b).finite(),
        a.aligned(-149) + b.aligned(-149) != 0,
    ensures
        ({
            let r = a.add_spec(b);
            let sum = a.aligned(-149) + b.aligned(-149);
            let x = if sum < 0 {
                -sum
            } else {
                sum
            };
            &&& r.negative() == (sum < 0)
            &&& distance(units(r, -149), x) <= distance(units(f, -149), x)
            &&& (distance(units(r, -149), x) == distance(units(f, -149), x) && units(f, -149) != units(r, -149)
                ==> r.significand() % 2 == 0)
        }),
{
    reveal(F32::add_spec);
    let e = if a.exponent() <= b.exponent() {
        a.exponent()
    } else {
        b.exponent()
    };
    lemma_recompose(a);
    lemma_recompose(b);
    let j = (e + 149) as nat;
    let s = a.aligned(e) + b.aligned(e);
    lemma_pow2_pos(j);
    lemma_pow2_adds((a.exponent() - e) as nat, j);
    lemma_pow2_adds((b.exponent() - e) as nat, j);
    assert(a.aligned(-149) == a.aligned(e) * pow2(j) && b.aligned(-149) == b.aligned(e) * pow2(j))
        by (nonlinear_arith)
        requires
            pow2((a.exponent() + 149) as nat) == pow2((a.exponent() - e) as nat) * pow2(j),
            pow2((b.exponent() + 149) as nat) == pow2((b.exponent() - e) as nat) * pow2(j),
            a.aligned(-149) == if a.negative() {
                -(a.significand() * pow2((a.exponent() + 149) as nat))
            } else {
                (a.significand() * pow2((a.exponent() + 149) as nat)) as int
            },
            b.aligned(-149) == if b.negative() {
                -(b.significand() * pow2((b.exponent() + 149) as nat))
            } else {
                (b.significand() * pow2((b.exponent() + 149) as nat)) as int
            },
            a.aligned(e) == if a.negative() {
                -(a.significand() * pow2((a.exponent() - e) as nat))
            } else {
                (a.significand() * pow2((a.exponent() - e) as nat)) as int
            },
            b.aligned(e) == if b.negative() {
                -(b.significand() * pow2((b.exponent() - e) as nat))
            } else {
                (b.significand() * pow2((b.exponent() - e) as nat)) as int
            },
    ;
    let sum = a.aligned(-149) + b.aligned(-149);
    assert(sum == s * pow2(j) && (s > 0 <==> sum > 0) && (s < 0 <==> sum < 0)) by (nonlinear_arith)
        requires
            sum == a.aligned(e) * pow2(j) + b.aligned(e) * pow2(j),
            s == a.aligned(e) + b.aligned(e),
            pow2(j) > 0,
    ;
    let n = if s < 0 {
        (-s) as nat
    } else {
        s as nat
    };
    lemma_round_bound(n, e, false);
    lemma_round_is_nearest(n, e, f, -149);
    assert(n * pow2(j) == if sum < 0 {
        -sum
    } else {
        sum
    }) by (nonlinear_arith)
        requires
            sum == s * pow2(j),
            n == if s < 0 {
                -s
            } else {
                s
            },
            pow2(j) > 0,
    ;
}

/// The product of two finite numbers is the number nearest to their exact product.
pub proof fn lemma_mul_is_nearest(a: F32, b: F32, f: F32, unit: int)
    requires
        a.finite() && !a.zero(),
        b.finite() && !b.zero(),
        f.finite(),
        a.mul_spec(b).finite(),
        unit <= a.exponent() + b.exponent(),
        unit <= -149,
    ensures
        ({
            let r = a.mul_spec(b);
            let x = (a.significand() * b.significand() * pow2((a.exponent() + b.exponent() - unit) as nat)) as int;
            &&& r.negative() == (a.negative() != b.negative())
            &&& distance(units(r, unit), x) <= distance(units(f, unit), x)
            &&& (distance(units(r, unit), x) == distance(units(f, unit), x) && units(f, unit) != units(r, unit)
                ==> r.significand() % 2 == 0)
        }),
{
    reveal(F32::mul_spec);
    let n = a.significand() * b.significand();
    lemma_recompose(a);
    lemma_recompose(b);
    assert(n > 0) by (nonlinear_arith)
        requires
            n == a.significand() * b.significand(),
            a.significand() > 0,
            b.significand() > 0,
    ;
    lemma_round_bound(n, a.exponent() + b.exponent(), false);
    lemma_round_is_nearest(n, a.exponent() + b.exponent(), f, unit);
}

/// The quotient of two finite numbers is the number nearest to their exact quotient:
/// values are counted in units of `2^unit` and compared after multiplying by the
/// significand of the divisor.
pub proof fn lemma_div_is_nearest(a: F32, b: F32, f: F32, unit: int)
    requires
        a.finite() && !a.zero(),
        b.finite() && !b.zero(),
        f.finite(),
        a.div_spec(b).finite(),
        unit <= a.exponent() - b.exponent() - 64,
        unit <= -149,
    ensures
        ({
            let r = a.div_spec(b);
            let d = b.significand();
            let x = (a.significand() * pow2((a.exponent() - b.exponent() - unit) as nat)) as int;
            &&& r.negative() == (a.negative() != b.negative())
            &&& distance(units(r, unit) * d, x) <= distance(units(f, unit) * d, x)
            &&& (distance(units(r, unit) * d, x) == distance(units(f, unit) * d, x) && units(f, unit) != units(
                r,
                unit,
            ) ==> r.significand() % 2 == 0)
        }),
{
    reveal(F32::div_spec);
    lemma_recompose(a);
    lemma_recompose(b);
    lemma2_to64();
    let d = b.significand();
    let t = a.significand() * 0x1_0000_0000_0000_0000;
    let e = a.exponent() - b.exponent() - 64;
    assert(t >= 0x1_0000_0000_0000_0000 && t >= d);
    vstd::arithmetic::div_mod::lemma_div_is_ordered(0x1_0000_0000_0000_0000, t as int, d as int);
    vstd::arithmetic::div_mod::lemma_div_is_ordered_by_denominator(
        0x1_0000_0000_0000_0000,
        d as int,
        0x100_0000,
    );
    assert(0x1_0000_0000_0000_0000int / 0x100_0000 == 0x100_0000_0000) by (nonlinear_arith);
    assert(t / d >= 0x100_0000);
    lemma_round_bound(t / d, e, t % d != 0);
    lemma_round_ratio_is_nearest(t, d, e, f, unit);
    lemma_pow2_adds(64, (e - unit) as nat);
    assert(t * pow2((e - unit) as nat) == a.significand() * pow2((a.exponent() - b.exponent() - unit) as nat))
        by (nonlinear_arith)
        requires
            t == a.significand() * 0x1_0000_0000_0000_0000,
            pow2((a.exponent() - b.exponent() - unit) as nat) == 0x1_0000_0000_0000_0000 * pow2(
                (e - unit) as nat,
            ),
    ;
}

/// The significand of a finite number with the exponent made even: the value is
/// `even_significand * 2^even_exponent`.
pub open spec fn even_significand(a: F32) -> nat {
    if a.exponent() % 2 == 0 {
        a.significand()
    } else {
        2 * a.significand()
    }
}

/// The exponent that goes with the even significand.
pub open spec fn even_exponent(a: F32) -> int {
    if a.exponent() % 2 == 0 {
        a.exponent()
    } else {
        a.exponent() - 1
    }
}

/// The square root of a positive finite number is the number nearest to its exact root:
/// for any finite `f`, the middle between the result and `f` lies beyond the exact root,
/// seen from the result. Values are counted in units of `2^unit` and compared by their
/// squares, the square of the exact root being the number itself.
pub proof fn lemma_sqrt_is_nearest(a: F32, f: F32, unit: int)
    requires
        a.finite() && !a.zero() && !a.negative(),
        f.finite(),
        unit <= -149,
    ensures
        ({
            let r = a.sqrt_spec();
            let square = even_significand(a) * pow2((even_exponent(a) - 2 * unit) as nat);
            let both = units(r, unit) + units(f, unit);
            &&& r.finite() && !r.negative()
            &&& (units(f, unit) > units(r, unit) ==> both * both >= 4 * square)
            &&& (units(f, unit) < units(r, unit) ==> both * both <= 4 * square)
            &&& (units(f, unit) != units(r, unit) && both * both == 4 * square ==> r.significand() % 2 == 0)
        }),
{
    reveal(F32::sqrt_spec);
    lemma_recompose(a);
    lemma2_to64();
    let m2 = even_significand(a);
    let e2 = even_exponent(a);
    let x = m2 * 0x1_0000_0000_0000_0000_0000;
    let n = integer_sqrt(x);
    let e = e2 / 2 - 40;
    lemma_integer_sqrt_exists(x);
    assert(is_integer_sqrt(x, n));
    // the root has at least 41 digits
    assert(n >= 0x100_0000_0000) by {
        assert(0x100_0000_0000int * 0x100_0000_0000 == 0x1_0000_0000_0000_0000_0000) by (nonlinear_arith);
        lemma_square_order(n as int + 1, 0x100_0000_0000);
    }
    // and at most 53, so that the result is far from infinity
    assert(n < 0x20_0000_0000_0000) by {
        assert(0x20_0000_0000_0000int * 0x20_0000_0000_0000 == 0x400_0000_0000_0000_0000_0000_0000)
            by (nonlinear_arith);
        lemma_square_order(0x20_0000_0000_0000, n as int);
    }
    lemma_round_bound(n, e, n * n != x);
    lemma_root_is_finite(n, e, n * n != x);
    lemma_round_root_is_nearest(x, e, f, unit);
    let pe = pow2((e - unit) as nat);
    lemma_pow2_adds((e - unit) as nat, (e - unit) as nat);
    lemma_pow2_adds(80, (2 * (e - unit)) as nat);
    lemma_pow2_adds(64, 16);
    assert(pow2(80) == 0x1_0000_0000_0000_0000_0000);
    assert(x * (pe * pe) == m2 * pow2((e2 - 2 * unit) as nat)) by (nonlinear_arith)
        requires
            x == m2 * 0x1_0000_0000_0000_0000_0000,
            pow2((e2 - 2 * unit) as nat) == 0x1_0000_0000_0000_0000_0000 * (pe * pe),
    ;
}

/// A number of at most 53 digits with an exponent of at most 12 rounds to a finite
/// number.
proof fn lemma_root_is_finite(n: nat, e: int, sticky: bool)
    requires
        0 < n < 0x20_0000_0000_0000,
        e <= 12,
    ensures
        round_magnitude(n, e, sticky) < 0x7f80_0000,
{
    let bl = bit_length(n);
    let q = rounding_exponent(n, e);
    lemma2_to64();
    vstd::arithmetic::power2::lemma2_to64_rest();
    lemma_bit_length_bounds(n);
    if bl > 53 {
        lemma_pow2_increases(53, (bl - 1) as nat);
    }
    assert(q <= 41);
    if q <= e {
        let j = (e - q) as nat;
        lemma_pow2_pos(j);
        lemma_pow2_adds(bl, j);
        lemma_pow2_increases(bl + j, 24);
        assert(n * pow2(j) < pow2(bl) * pow2(j)) by (nonlinear_arith)
            requires
                n < pow2(bl),
                pow2(j) > 0,
        ;
    } else {
        let k = (q - e) as nat;
        let p = pow2(k);
        lemma_pow2_pos(k);
        lemma_pow2_adds(k, 24);
        lemma_pow2_increases(bl, k + 24);
        assert(n < p * 0x100_0000);
        vstd::arithmetic::div_mod::lemma_multiply_divide_lt(n as int, p as int, 0x100_0000);
    }
}

/// A sum does not depend on the order of its two numbers.
pub proof fn lemma_add_commutes(a: F32, b: F32)
    ensures
        a.add_spec(b) == b.add_spec(a),
{
    reveal(F32::add_spec);
}

/// A product does not depend on the order of its two numbers.
pub proof fn lemma_mul_commutes(a: F32, b: F32)
    ensures
        a.mul_spec(b) == b.mul_spec(a),
{
    reveal(F32::mul_spec);
    assert(a.significand() * b.significand() == b.significand() * a.significand()) by (nonlinear_arith);
}

/// Flipping the sign twice gives the number back, and a difference is the sum with the
/// second number flipped.
pub proof fn lemma_neg(a: F32, b: F32)
    ensures
        a.neg_spec().neg_spec() == a,
        a.sub_spec(b) == a.add_spec(b.neg_spec()),
        a.sub_spec(b.neg_spec()) == a.add_spec(b),
{
}

/// The order of numbers is a total order on what is not a NaN, and a NaN stands in no
/// order to anything.
pub proof fn lemma_order(a: F32, b: F32, c: F32)
    ensures
        a.nan() || b.nan() ==> !a.lt_spec(b) && !a.le_spec(b) && !a.equal(b),
        !a.nan() ==> a.le_spec(a) && a.equal(a),
        !a.nan() && !b.nan() ==> a.le_spec(b) || b.le_spec(a),
        a.le_spec(b) && b.le_spec(a) <==> a.equal(b),
        a.le_spec(b) && b.le_spec(c) ==> a.le_spec(c),
        a.lt_spec(b) <==> a.le_spec(b) && !a.equal(b),
        a.equal(b) ==> a == b || (a.zero() && b.zero()),
{
}

/// The total order refines the order of numbers: of two patterns that are not NaNs, the
/// one that stands first is not the greater number.
pub proof fn lemma_total_order_refines(a: F32, b: F32)
    requires
        !a.nan(),
        !b.nan(),
        a.total_place() <= b.total_place(),
    ensures
        a.le_spec(b),
{
}

/// Multiplying by one changes nothing, for every number that is not a NaN.
pub proof fn lemma_mul_one(x: F32)
    requires
        !x.nan(),
    ensures
        (F32 { bits: 0x3f80_0000 }).mul_spec(x) == x,
        x.mul_spec(F32 { bits: 0x3f80_0000 }) == x,
{
    reveal(F32::mul_spec);
    let one = F32 { bits: 0x3f80_0000 };
    assert(one.significand() == 0x80_0000 && one.exponent() == -23 && !one.negative());
    if x.finite() {
        let m = x.significand();
        lemma_recompose(x);
        lemma2_to64();
        assert(m * 0x80_0000 == 0x80_0000 * m) by (nonlinear_arith);
        if m > 0 {
            lemma_round_representable(m, x.exponent(), 23);
        } else {
            assert(m * 0x80_0000 == 0) by (nonlinear_arith)
                requires
                    m == 0,
            ;
        }
    }
}

/// A finite number times zero is a zero.
pub proof fn lemma_mul_zero(x: F32, z: F32)
    requires
        x.finite(),
        z.zero(),
    ensures
        x.mul_spec(z).zero(),
        z.mul_spec(x).zero(),
{
    reveal(F32::mul_spec);
    let m = x.significand();
    assert(z.significand() == 0);
    assert(m * 0 == 0 && 0 * m == 0) by (nonlinear_arith);
}

/// Adding a zero changes no number: the sum has the same bits, or is the other zero.
pub proof fn lemma_add_zero(x: F32, z: F32)
    requires
        !x.nan(),
        z.zero(),
    ensures
        x.add_spec(z).equal(x),
        z.add_spec(x).equal(x),
        !x.zero() ==> x.add_spec(z) == x && z.add_spec(x) == x,
{
    reveal(F32::add_spec);
    if x.finite() {
        let m = x.significand();
        let e = x.exponent();
        lemma_recompose(x);
        lemma_pow2_zero();
        assert(z.significand() == 0 && z.exponent() == -149);
        assert(z.aligned(-149) == 0) by {
            assert(0 * pow2(0) == 0) by (nonlinear_arith);
        }
        if m > 0 {
            let j = (e + 149) as nat;
            lemma_pow2_pos(j);
            lemma_round_representable(m, e, j);
            assert(m * pow2(j) > 0) by (nonlinear_arith)
                requires
                    m > 0,
                    pow2(j) > 0,
            ;
        } else {
            assert(x.aligned(-149) == 0) by {
                assert(0 * pow2((e + 149) as nat) == 0) by (nonlinear_arith);
            }
        }
    }
}

/// Taking a zero away changes no number.
pub proof fn lemma_sub_zero(x: F32, z: F32)
    requires
        !x.nan(),
        z.zero(),
    ensures
        x.sub_spec(z).equal(x),
        !x.zero() ==> x.sub_spec(z) == x,
{
    lemma_add_zero(x, z.neg_spec());
}

/// A zero added to or taken from a number that equals `x` gives a number that equals `x`.
pub proof fn lemma_zero_keeps(a: F32, x: F32, z: F32)
    requires
        a.equal(x),
        z.zero(),
    ensures
        a.add_spec(z).equal(x),
        z.add_spec(a).equal(x),
        a.sub_spec(z).equal(x),
{
    lemma_add_zero(a, z);
    lemma_sub_zero(a, z);
}

/// A zero divided by a number that is neither a zero nor a NaN is a zero.
pub proof fn lemma_zero_div(z: F32, x: F32)
    requires
        z.zero(),
        !x.nan(),
        !x.zero(),
    ensures
        z.div_spec(x).zero(),
{
    reveal(F32::div_spec);
    assert(z.significand() == 0);
    assert(0 * 0x1_0000_0000_0000_0000 == 0) by (nonlinear_arith);
    if x.finite() {
        lemma_recompose(x);
        vstd::arithmetic::div_mod::lemma_div_basics_1(x.significand() as int);
    }
}

/// One half of one is one half, and one less one half is one half.
pub proof fn lemma_halves()
    ensures
        (F32 { bits: 0x3f80_0000 }).div_spec(F32 { bits: 0x4000_0000 }) == (F32 { bits: 0x3f00_0000 }),
        (F32 { bits: 0x3f80_0000 }).sub_spec(F32 { bits: 0x3f00_0000 }) == (F32 { bits: 0x3f00_0000 }),
{
    reveal(F32::div_spec);
    reveal(F32::add_spec);
    lemma2_to64();
    vstd::arithmetic::power2::lemma2_to64_rest();
    lemma_pow2_zero();
    let one = F32 { bits: 0x3f80_0000 };
    let two = F32 { bits: 0x4000_0000 };
    let half = F32 { bits: 0x3f00_0000 };
    assert(one.significand() == 0x80_0000 && one.exponent() == -23);
    assert(two.significand() == 0x80_0000 && two.exponent() == -22);
    assert(half.significand() == 0x80_0000 && half.exponent() == -24);
    // the quotient is 2^64 at exponent -65
    let n: nat = 0x1_0000_0000_0000_0000;
    assert(0x80_0000 * 0x1_0000_0000_0000_0000 == 0x80_0000_0000_0000_0000_0000) by (nonlinear_arith);
    vstd::arithmetic::div_mod::lemma_fundamental_div_mod_converse(
        0x80_0000_0000_0000_0000_0000,
        0x80_0000,
        n as int,
        0,
    );
    lemma_pow2_adds(64, 1);
    lemma_bit_length_unique(n, 64);
    assert(rounding_exponent(n, -65) == -24);
    assert(0x80_0000 * 0x200_0000_0000 == 0x1_0000_0000_0000_0000) by (nonlinear_arith);
    vstd::arithmetic::div_mod::lemma_fundamental_div_mod_converse(n as int, pow2(41) as int, 0x80_0000, 0);
    // the difference is 2^23 at exponent -24
    let m: nat = 0x80_0000;
    lemma_bit_length_unique(m, 23);
    assert(one.aligned(-24) == 0x100_0000) by {
        assert(pow2(1) == 2);
        assert(0x80_0000 * 2 == 0x100_0000) by (nonlinear_arith);
    }
    assert(half.neg_spec().aligned(-24) == -0x80_0000) by {
        assert(half.neg_spec().significand() == 0x80_0000 && half.neg_spec().exponent() == -24);
        assert(0x80_0000 * pow2(0) == 0x80_0000) by (nonlinear_arith)
            requires
                pow2(0) == 1,
        ;
    }
    assert(rounding_exponent(m, -24) == -24);
    assert(m * pow2(0) == m) by (nonlinear_arith)
        requires
            pow2(0) == 1,
    ;
}

/// Sums do not tell apart numbers that are equal: where the two numbers of one sum equal
/// those of another, the sums are equal, unless they are no numbers.
pub proof fn lemma_add_respects_equal(a: F32, a2: F32, b: F32, b2: F32)
    requires
        a.equal(a2),
        b.equal(b2),
        !a2.add_spec(b2).nan(),
    ensures
        a.add_spec(b).equal(a2.add_spec(b2)),
{
    reveal(F32::add_spec);
    if a.finite() && b.finite() {
        lemma_recompose(a);
        lemma_recompose(b);
        let e = if a.exponent() <= b.exponent() {
            a.exponent()
        } else {
            b.exponent()
        };
        assert(a.significand() == a2.significand() && a.exponent() == a2.exponent());
        assert(b.significand() == b2.significand() && b.exponent() == b2.exponent());
        if a.zero() {
            assert(a.aligned(e) == 0 && a2.aligned(e) == 0) by {
                assert(0 * pow2((a.exponent() - e) as nat) == 0) by (nonlinear_arith);
            }
        }
        if b.zero() {
            assert(b.aligned(e) == 0 && b2.aligned(e) == 0) by {
                assert(0 * pow2((b.exponent() - e) as nat) == 0) by (nonlinear_arith);
            }
        }
        assert(a.aligned(e) == a2.aligned(e));
        assert(b.aligned(e) == b2.aligned(e));
        let s = a.aligned(e) + b.aligned(e);
        if s != 0 {
            let n = if s < 0 {
                (-s) as nat
            } else {
                s as nat
            };
            lemma_round_bound(n, e, false);
        }
    }
}

/// Flipping the sign does not tell apart numbers that are equal.
pub proof fn lemma_neg_respects_equal(a: F32, b: F32)
    requires
        a.equal(b),
    ensures
        a.neg_spec().equal(b.neg_spec()),
{
}

/// Flipping the sign of one number of a product flips the sign of the product, unless
/// the product is no number.
pub proof fn lemma_mul_neg(a: F32, b: F32)
    requires
        !a.mul_spec(b).nan(),
    ensures
        a.mul_spec(b.neg_spec()) == a.mul_spec(b).neg_spec(),
        a.neg_spec().mul_spec(b) == a.mul_spec(b).neg_spec(),
{
    reveal(F32::mul_spec);
    lemma_round_bound(a.significand() * b.significand(), a.exponent() + b.exponent(), false);
}

/// A finite number and the same number with the sign flipped sum to zero.
pub proof fn lemma_add_cancels(a: F32, b: F32)
    requires
        a.finite(),
        b.equal(a.neg_spec()),
    ensures
        a.add_spec(b).zero(),
        b.add_spec(a).zero(),
{
    reveal(F32::add_spec);
    lemma_recompose(a);
    lemma_recompose(b);
    assert(a.significand() == b.significand() && a.exponent() == b.exponent());
    assert(a.negative() != b.negative() || a.zero());
    if a.zero() {
        assert(a.aligned(a.exponent()) == 0 && b.aligned(a.exponent()) == 0) by {
            assert(0 * pow2(0) == 0) by (nonlinear_arith);
        }
    }
}

/// The difference of two finite numbers that are not equal is not zero.
pub proof fn lemma_difference_is_not_zero(x: F32, y: F32)
    requires
        x.finite(),
        y.finite(),
        !x.equal(y),
    ensures
        !x.sub_spec(y).zero(),
        !x.sub_spec(y).nan(),
{
    reveal(F32::add_spec);
    let z = y.neg_spec();
    lemma_recompose(x);
    lemma_recompose(z);
    let e = if x.exponent() <= z.exponent() {
        x.exponent()
    } else {
        z.exponent()
    };
    let s = x.aligned(e) + z.aligned(e);
    // the same value has the same bits
    let mx = F32 { bits: x.magnitude() as u32 };
    let mz = F32 { bits: z.magnitude() as u32 };
    if mx.bits < mz.bits {
        lemma_magnitudes_order(mx, mz, -149);
    }
    if mz.bits < mx.bits {
        lemma_magnitudes_order(mz, mx, -149);
    }
    let up = pow2((e + 149) as nat);
    lemma_pow2_pos((e + 149) as nat);
    lemma_pow2_adds((x.exponent() - e) as nat, (e + 149) as nat);
    lemma_pow2_adds((z.exponent() - e) as nat, (e + 149) as nat);
    let ax = x.significand() * pow2((x.exponent() - e) as nat);
    let az = z.significand() * pow2((z.exponent() - e) as nat);
    assert(ax * up == x.significand() * pow2((x.exponent() + 149) as nat) && az * up == z.significand() * pow2(
        (z.exponent() + 149) as nat,
    ) && (ax == az ==> ax * up == az * up)) by (nonlinear_arith)
        requires
            ax == x.significand() * pow2((x.exponent() - e) as nat),
            az == z.significand() * pow2((z.exponent() - e) as nat),
            pow2((x.exponent() + 149) as nat) == pow2((x.exponent() - e) as nat) * up,
            pow2((z.exponent() + 149) as nat) == pow2((z.exponent() - e) as nat) * up,
    ;
    assert(mx.significand() == x.significand() && mx.exponent() == x.exponent());
    assert(mz.significand() == z.significand() && mz.exponent() == z.exponent());
    assert(crate::rounding_laws::units(mx, -149) == ax * up);
    assert(crate::rounding_laws::units(mz, -149) == az * up);
    assert(x.aligned(e) == if x.negative() {
        -(ax as int)
    } else {
        ax as int
    });
    assert(z.aligned(e) == if z.negative() {
        -(az as int)
    } else {
        az as int
    });
    if s == 0 {
        assert(ax == az);
        assert(mx.bits == mz.bits);
        assert(x.magnitude() == y.magnitude());
        if ax != 0 {
            assert(x.negative() != z.negative());
            assert(z.negative() != y.negative());
        } else {
            lemma_pow2_pos((x.exponent() - e) as nat);
            assert(x.significand() == 0) by (nonlinear_arith)
                requires
                    ax == 0,
                    ax == x.significand() * pow2((x.exponent() - e) as nat),
                    pow2((x.exponent() - e) as nat) > 0,
            ;
            assert(x.magnitude() == 0);
        }
        assert(x.place() == y.place());
        assert(x.equal(y));
    }
    let n = if s < 0 {
        (-s) as nat
    } else {
        s as nat
    };
    lemma_round_is_not_zero(n, e);
    crate::rounding_laws::lemma_round_bound(n, e, false);
}

/// Sums, differences and products of finite numbers are numbers: none is a NaN.
pub proof fn lemma_finite_gives_numbers(a: F32, b: F32)
    requires
        a.finite(),
        b.finite(),
    ensures
        !a.add_spec(b).nan(),
        !a.sub_spec(b).nan(),
        !a.mul_spec(b).nan(),
{
    reveal(F32::add_spec);
    reveal(F32::mul_spec);
    lemma_sum_is_a_number(a, b);
    lemma_sum_is_a_number(a, b.neg_spec());
    lemma_round_bound(a.significand() * b.significand(), a.exponent() + b.exponent(), false);
}

/// The sum of two finite numbers is no NaN.
proof fn lemma_sum_is_a_number(a: F32, b: F32)
    requires
        a.finite(),
        b.finite(),
    ensures
        !a.add_spec(b).nan(),
{
    reveal(F32::add_spec);
    let e = if a.exponent() <= b.exponent() {
        a.exponent()
    } else {
        b.exponent()
    };
    let s = a.aligned(e) + b.aligned(e);
    if s < 0 {
        lemma_round_bound((-s) as nat, e, false);
    } else if s > 0 {
        lemma_round_bound(s as nat, e, false);
    }
}

/// Products do not tell apart numbers that are equal: where the two finite numbers of
/// one product equal those of another, the products are equal.
pub proof fn lemma_mul_respects_equal(a: F32, a2: F32, b: F32, b2: F32)
    requires
        a.equal(a2),
        b.equal(b2),
        a2.finite(),
        b2.finite(),
    ensures
        a.mul_spec(b).equal(a2.mul_spec(b2)),
{
    lemma_finite_gives_numbers(a2, b2);
    lemma_order(a, a2, a2);
    lemma_order(b, b2, b2);
    if a.zero() || b.zero() {
        if a.zero() {
            lemma_mul_zero(b, a);
            lemma_mul_zero(b2, a2);
        } else {
            lemma_mul_zero(a, b);
            lemma_mul_zero(a2, b2);
        }
    }
}

/// One rounds to itself.
proof fn lemma_round_one()
    ensures
        round_magnitude(0x80_0000, -23, false) == 0x3f80_0000,
{
    lemma_pow2_zero();
    lemma_round_representable(0x80_0000, -23, 0);
    assert(0x80_0000 * pow2(0) == 0x80_0000) by (nonlinear_arith)
        requires
            pow2(0) == 1,
    ;
}

/// A finite number whose bits without the sign are at most those of one has a value of
/// at most one, counted in units of `2^unit`.
proof fn lemma_within_one(a: F32, unit: int)
    requires
        a.finite(),
        a.magnitude() <= 0x3f80_0000,
        unit <= -149,
    ensures
        units(a, unit) <= pow2((-unit) as nat),
{
    let plain = F32 { bits: a.magnitude() as u32 };
    let one = F32 { bits: 0x3f80_0000 };
    assert(plain.magnitude() == a.magnitude());
    assert(plain.significand() == a.significand() && plain.exponent() == a.exponent());
    assert(one.significand() == 0x80_0000 && one.exponent() == -23);
    if plain.bits < one.bits {
        lemma_magnitudes_order(plain, one, unit);
    }
    lemma_pow2_adds(23, (-23 - unit) as nat);
    lemma2_to64();
}

/// The product of two numbers from -1 to 1 lies from -1 to 1: where the bits of both
/// without the sign are at most those of one, so are those of the product.
pub proof fn lemma_product_within_one(a: F32, b: F32)
    requires
        a.magnitude() <= 0x3f80_0000,
        b.magnitude() <= 0x3f80_0000,
    ensures
        a.mul_spec(b).magnitude() <= 0x3f80_0000,
{
    if a.zero() {
        lemma_mul_zero(b, a);
    } else if b.zero() {
        lemma_mul_zero(a, b);
    } else {
        reveal(F32::mul_spec);
        lemma_recompose(a);
        lemma_recompose(b);
        let sa = a.significand();
        let sb = b.significand();
        let ea = a.exponent();
        let eb = b.exponent();
        let n = sa * sb;
        let e = ea + eb;
        lemma_within_one(a, -149);
        lemma_within_one(b, -149);
        let pa = pow2((ea + 149) as nat);
        let pb = pow2((eb + 149) as nat);
        lemma_pow2_adds((ea + 149) as nat, (eb + 149) as nat);
        lemma_pow2_adds(149, 149);
        lemma_pow2_adds(23, 275);
        lemma2_to64();
        assert(n > 0) by (nonlinear_arith)
            requires
                n == sa * sb,
                sa > 0,
                sb > 0,
        ;
        assert(n * pow2((e + 298) as nat) <= 0x80_0000 * pow2(275)) by (nonlinear_arith)
            requires
                n == sa * sb,
                pow2((e + 298) as nat) == pa * pb,
                sa * pa <= pow2(149),
                sb * pb <= pow2(149),
                pow2(149) * pow2(149) == pow2(298),
                0x80_0000 * pow2(275) == pow2(298),
                sa >= 0,
                sb >= 0,
                pa >= 0,
                pb >= 0,
        ;
        lemma_round_is_monotone(n, e, 0x80_0000, -23, -298);
        lemma_round_one();
    }
}

/// A number divided by one that is at least as far from zero lies from -1 to 1: the
/// bits of the quotient without the sign are at most those of one.
pub proof fn lemma_quotient_within_one(a: F32, b: F32)
    requires
        b.finite(),
        !b.zero(),
        a.magnitude() <= b.magnitude(),
    ensures
        a.div_spec(b).magnitude() <= 0x3f80_0000,
{
    if a.zero() {
        lemma_zero_div(a, b);
    } else {
        reveal(F32::div_spec);
        lemma_recompose(a);
        lemma_recompose(b);
        lemma2_to64();
        let sa = a.significand();
        let sb = b.significand();
        let ea = a.exponent();
        let eb = b.exponent();
        let t = sa * 0x1_0000_0000_0000_0000;
        let e = ea - eb - 64;
        let q = t / sb;
        // the order of the two values
        let unit = if ea <= eb {
            ea
        } else {
            eb
        };
        let plain_a = F32 { bits: a.magnitude() as u32 };
        let plain_b = F32 { bits: b.magnitude() as u32 };
        assert(plain_a.significand() == sa && plain_a.exponent() == ea);
        assert(plain_b.significand() == sb && plain_b.exponent() == eb);
        if plain_a.bits < plain_b.bits {
            lemma_magnitudes_order(plain_a, plain_b, -149);
        }
        let ua = pow2((ea + 149) as nat);
        let ub = pow2((eb + 149) as nat);
        assert(sa * ua <= sb * ub);
        // the exponent of the quotient is below zero: the dividend has no more than 24
        // digits above the divisor
        lemma_pow2_pos((ea + 149) as nat);
        lemma_pow2_pos((eb + 149) as nat);
        if ea >= eb + 24 {
            lemma_pow2_adds(24, (eb + 149) as nat);
            lemma_pow2_increases((eb + 173) as nat, (ea + 149) as nat);
            assert(false) by (nonlinear_arith)
                requires
                    sa * ua <= sb * ub,
                    sa >= 1,
                    sb < 0x100_0000,
                    ua >= 0x100_0000 * ub,
                    ub > 0,
            ;
        }
        let places = (eb - ea + 64) as nat;
        let whole = pow2(places);
        // the dividend, scaled, is at most the divisor times one counted in last places
        lemma_pow2_adds((ea + 149) as nat, places);
        lemma_pow2_adds((eb + 149) as nat, 64);
        assert(t <= whole * sb) by (nonlinear_arith)
            requires
                t == sa * 0x1_0000_0000_0000_0000,
                sa * ua <= sb * ub,
                ua * whole == ub * 0x1_0000_0000_0000_0000,
                ua > 0,
                ub > 0,
                whole >= 0,
                sa >= 0,
                sb >= 0,
        ;
        vstd::arithmetic::div_mod::lemma_fundamental_div_mod(t as int, sb as int);
        assert(t >= 0x1_0000_0000_0000_0000 && t >= sb);
        vstd::arithmetic::div_mod::lemma_div_is_ordered(0x1_0000_0000_0000_0000, t as int, sb as int);
        vstd::arithmetic::div_mod::lemma_div_is_ordered_by_denominator(
            0x1_0000_0000_0000_0000,
            sb as int,
            0x100_0000,
        );
        assert(0x1_0000_0000_0000_0000int / 0x100_0000 == 0x100_0000_0000) by (nonlinear_arith);
        assert(q >= 0x100_0000_0000);
        if t % sb == 0 {
            assert(q <= whole) by (nonlinear_arith)
                requires
                    t == sb * q,
                    t <= whole * sb,
                    sb > 0,
            ;
            lemma_pow2_adds(places, 149);
            lemma_pow2_adds(23, places + 126);
            assert(q * pow2(149) <= 0x80_0000 * pow2(places + 126)) by (nonlinear_arith)
                requires
                    q <= whole,
                    whole * pow2(149) == 0x80_0000 * pow2(places + 126),
                    pow2(149) >= 0,
            ;
            lemma_round_is_monotone(q, e, 0x80_0000, -23, e - 149);
        } else {
            assert(q < whole) by (nonlinear_arith)
                requires
                    t == sb * q + t % sb,
                    t % sb > 0,
                    t <= whole * sb,
                    sb > 0,
            ;
            lemma_round_coarser(2 * q + 1, e - 1, false, 1);
            assert(pow2(1) == 2);
            assert((2 * q + 1) / 2 == q && (2 * q + 1) % 2 == 1);
            lemma_pow2_adds(places, 149);
            lemma_pow2_adds(1, places + 149);
            lemma_pow2_adds(23, places + 127);
            assert((2 * q + 1) * pow2(149) <= 0x80_0000 * pow2(places + 127)) by (nonlinear_arith)
                requires
                    q < whole,
                    2 * (whole * pow2(149)) == 0x80_0000 * pow2(places + 127),
                    pow2(149) >= 0,
            ;
            lemma_round_is_monotone(2 * q + 1, e - 1, 0x80_0000, -23, e - 150);
        }
        lemma_round_one();
    }
}

/// Whole numbers keep their order as binary32 numbers: of two, the lesser does not give
/// the greater number. Those below `2^64` give finite numbers that are not negative, and
/// zero alone gives a zero.
pub proof fn lemma_from_nat_order(m: nat, n: nat)
    requires
        m <= n,
        n < 0x1_0000_0000_0000_0000,
    ensures
        F32::from_nat_spec(m).magnitude() <= F32::from_nat_spec(n).magnitude(),
        F32::from_nat_spec(n).finite(),
        !F32::from_nat_spec(n).negative(),
        n > 0 ==> !F32::from_nat_spec(n).zero(),
{
    reveal(F32::from_nat_spec);
    lemma_round_bound(m, 0, false);
    lemma_round_bound(n, 0, false);
    if n > 0 {
        lemma2_to64();
        vstd::arithmetic::power2::lemma2_to64_rest();
        lemma_pow2_pos(149);
        lemma_pow2_increases(64, 103);
        lemma_pow2_adds(103, 149);
        lemma_round_overflows(n, 0, -149);
        assert(n * pow2(149) < 0x1ff_ffff * pow2(252)) by (nonlinear_arith)
            requires
                n < 0x1_0000_0000_0000_0000,
                0x1_0000_0000_0000_0000 <= pow2(103),
                pow2(252) == pow2(103) * pow2(149),
                pow2(149) > 0,
        ;
        lemma_round_is_not_zero(n, 0);
        if m > 0 {
            assert(m * pow2(149) <= n * pow2(149)) by (nonlinear_arith)
                requires
                    m <= n,
                    pow2(149) > 0,
            ;
            lemma_round_is_monotone(m, 0, n, 0, -149);
        }
    }
}

/// Flipping the signs of both numbers of a sum flips the sign of the sum: the two results
/// are equal, for finite numbers.
pub proof fn lemma_add_neg(a: F32, b: F32)
    requires
        a.finite(),
        b.finite(),
    ensures
        a.neg_spec().add_spec(b.neg_spec()).equal(a.add_spec(b).neg_spec()),
        b.sub_spec(a).equal(a.sub_spec(b).neg_spec()),
{
    lemma_add_neg_once(a, b);
    lemma_add_commutes(b, a.neg_spec());
    lemma_neg(b, b);
    lemma_add_neg_once(a, b.neg_spec());
}

/// As `lemma_add_neg`, its first half alone.
proof fn lemma_add_neg_once(a: F32, b: F32)
    requires
        a.finite(),
        b.finite(),
    ensures
        a.neg_spec().add_spec(b.neg_spec()).equal(a.add_spec(b).neg_spec()),
{
    reveal(F32::add_spec);
    lemma_finite_gives_numbers(a, b);
    lemma_finite_gives_numbers(a.neg_spec(), b.neg_spec());
    lemma_recompose(a);
    lemma_recompose(b);
    let e = if a.exponent() <= b.exponent() {
        a.exponent()
    } else {
        b.exponent()
    };
    let na = a.neg_spec();
    let nb = b.neg_spec();
    assert(na.significand() == a.significand() && na.exponent() == a.exponent());
    assert(nb.significand() == b.significand() && nb.exponent() == b.exponent());
    assert(na.negative() != a.negative() && nb.negative() != b.negative());
    let s = a.aligned(e) + b.aligned(e);
    assert(na.aligned(e) + nb.aligned(e) == -s);
    if s > 0 {
        lemma_round_bound(s as nat, e, false);
    } else if s < 0 {
        lemma_round_bound((-s) as nat, e, false);
    }
}

/// Dividing by one changes no finite number: the quotient is equal to the number.
pub proof fn lemma_div_one(x: F32)
    requires
        x.finite(),
    ensures
        x.div_spec(F32 { bits: 0x3f80_0000 }).equal(x),
        !x.zero() ==> x.div_spec(F32 { bits: 0x3f80_0000 }) == x,
{
    let one = F32 { bits: 0x3f80_0000 };
    assert(one.significand() == 0x80_0000 && one.exponent() == -23 && !one.negative());
    if x.zero() {
        lemma_zero_div(x, one);
    } else {
        reveal(F32::div_spec);
        lemma_recompose(x);
        lemma2_to64();
        vstd::arithmetic::power2::lemma2_to64_rest();
        let m = x.significand();
        let t = m * 0x1_0000_0000_0000_0000;
        let q = m * pow2(41);
        lemma_pow2_adds(23, 41);
        assert(t == 0x80_0000 * q) by (nonlinear_arith)
            requires
                t == m * 0x1_0000_0000_0000_0000,
                q == m * pow2(41),
                0x1_0000_0000_0000_0000 == 0x80_0000 * pow2(41),
        ;
        vstd::arithmetic::div_mod::lemma_fundamental_div_mod_converse(t as int, 0x80_0000, q as int, 0);
        lemma_round_representable(m, x.exponent(), 41);
    }
}

/// The number one, from the whole number one.
pub proof fn lemma_from_nat_one()
    ensures
        F32::from_nat_spec(1) == (F32 { bits: 0x3f80_0000 }),
{
    reveal(F32::from_nat_spec);
    lemma2_to64();
    lemma_pow2_zero();
    lemma_pow2_adds(23, 126);
    lemma_round_is_monotone(0x80_0000, -23, 1, 0, -149);
    lemma_round_is_monotone(1, 0, 0x80_0000, -23, -149);
    lemma_round_one();
}

} // verus!
