//! What holds of rounding to binary32: the result is finite or infinity, it is the nearest
//! number with ties to the even significand, it keeps the order, and it does not
//! depend on how the digits below the last place are told.

use crate::bits::{bit_length, lemma_bit_length_bounds, lemma_bit_length_unique, lemma_pow2_increases, lemma_pow2_zero};
use crate::single::{
    integer_sqrt, is_integer_sqrt, lemma_recompose, pack_magnitude, round_magnitude, rounding_exponent, F32,
};
use vstd::arithmetic::power2::{lemma2_to64, lemma_pow2_adds, lemma_pow2_pos, lemma_pow2_unfold, pow2};
use vstd::prelude::*;

verus! {

/// How far two integers are apart.
pub open spec fn distance(a: int, b: int) -> int {
    if a >= b {
        a - b
    } else {
        b - a
    }
}

/// The value of a finite number without its sign, counted in units of `2^unit`, for a
/// `unit` that is at most its exponent.
pub open spec fn units(x: F32, unit: int) -> int {
    (x.significand() * pow2((x.exponent() - unit) as nat)) as int
}

/// The number that a packed significand and exponent stand for: a significand of `2^24`
/// is `2^23` one exponent higher.
pub proof fn lemma_unpack(m: nat, q: int, unit: int)
    requires
        m <= 0x100_0000,
        -149 <= q <= 104,
        q == -149 || m >= 0x80_0000,
        pack_magnitude(m, q) < 0x7f80_0000,
        unit <= -149,
    ensures
        ({
            let r = F32 { bits: pack_magnitude(m, q) as u32 };
            &&& r.finite()
            &&& !r.negative()
            &&& units(r, unit) == m * pow2((q - unit) as nat)
            &&& (m < 0x100_0000 ==> r.significand() == m)
            &&& (m == 0x100_0000 ==> r.significand() == 0x80_0000)
        }),
{
    let r = F32 { bits: pack_magnitude(m, q) as u32 };
    if m == 0x100_0000 {
        assert(r.significand() == 0x80_0000 && r.exponent() == q + 1);
        lemma_pow2_unfold((q + 1 - unit) as nat);
        assert(0x80_0000 * (2 * pow2((q - unit) as nat)) == 0x100_0000 * pow2((q - unit) as nat))
            by (nonlinear_arith);
    } else {
        assert(r.significand() == m && r.exponent() == q);
    }
}

/// Of two finite numbers that are not negative, the one with the greater bits is the
/// greater number.
pub proof fn lemma_magnitudes_order(a: F32, b: F32, unit: int)
    requires
        a.finite() && !a.negative(),
        b.finite() && !b.negative(),
        unit <= -149,
        a.bits < b.bits,
    ensures
        units(a, unit) < units(b, unit),
{
    lemma_recompose(a);
    lemma_recompose(b);
    let ea = a.exponent();
    let eb = b.exponent();
    let pa = pow2((ea - unit) as nat);
    let pb = pow2((eb - unit) as nat);
    lemma_pow2_pos((ea - unit) as nat);
    assert(ea <= eb);
    if ea == eb {
        assert(a.significand() < b.significand());
        assert(a.significand() * pa < b.significand() * pa) by (nonlinear_arith)
            requires
                a.significand() < b.significand(),
                pa > 0,
        ;
    } else {
        lemma_pow2_increases((ea + 1 - unit) as nat, (eb - unit) as nat);
        lemma_pow2_unfold((ea + 1 - unit) as nat);
        assert(a.significand() * pa < b.significand() * pb) by (nonlinear_arith)
            requires
                a.significand() < 0x100_0000,
                b.significand() >= 0x80_0000,
                pb >= 2 * pa,
                pa > 0,
        ;
    }
}

/// Of a finite number and the next one above it, one has an odd significand.
pub proof fn lemma_neighbours_differ(b: F32)
    requires
        b.finite(),
        !b.negative(),
        b.bits + 1 < 0x7f80_0000,
    ensures
        (F32 { bits: (b.bits + 1) as u32 }).significand() % 2 != b.significand() % 2,
{
}

/// Rounding never passes infinity.
pub proof fn lemma_round_bound(n: nat, e: int, sticky: bool)
    ensures
        round_magnitude(n, e, sticky) <= 0x7f80_0000,
{
    if n > 0 {
        let bl = bit_length(n);
        let q = rounding_exponent(n, e);
        lemma2_to64();
        lemma_bit_length_bounds(n);
        if q > 104 {
        } else if q <= e {
            let j = (e - q) as nat;
            lemma_pow2_pos(j);
            lemma_pow2_adds(bl, j);
            lemma_pow2_increases(bl + j, 24);
            assert(n * pow2(j) < pow2(bl) * pow2(j)) by (nonlinear_arith)
                requires
                    n < pow2(bl),
                    pow2(j) > 0,
            ;
        } else {
            let k = (q - e) as nat;
            let p = pow2(k);
            lemma_pow2_pos(k);
            lemma_pow2_adds(k, 24);
            lemma_pow2_increases(bl, k + 24);
            assert(n < p * 0x100_0000);
            vstd::arithmetic::div_mod::lemma_multiply_divide_lt(n as int, p as int, 0x100_0000);
        }
    }
}

/// Rounding leaves a representable number as it is: a significand `m` with exponent `e`,
/// written with `j` more binary places, rounds to the bits of `m` and `e`.
pub proof fn lemma_round_representable(m: nat, e: int, j: nat)
    requires
        0 < m < 0x100_0000,
        -149 <= e <= 104,
        e > -149 ==> m >= 0x80_0000,
    ensures
        round_magnitude(m * pow2(j), e - j, false) == pack_magnitude(m, e),
{
    let p = pow2(j);
    let n = m * p;
    let bl = bit_length(m);
    lemma_pow2_pos(j);
    lemma2_to64();
    lemma_bit_length_bounds(m);
    if bl > 24 {
        lemma_pow2_increases(24, (bl - 1) as nat);
    }
    if e > -149 {
        lemma_bit_length_unique(m, 23);
    }
    lemma_pow2_adds((bl - 1) as nat, j);
    lemma_pow2_adds(bl, j);
    assert(pow2((bl - 1) as nat) * p <= n < pow2(bl) * p) by (nonlinear_arith)
        requires
            n == m * p,
            pow2((bl - 1) as nat) <= m < pow2(bl),
            p > 0,
    ;
    lemma_bit_length_unique(n, (bl - 1 + j) as nat);
    assert(bit_length(n) == bl + j);
    assert(rounding_exponent(n, e - j) == e);
    assert(n > 0);
    if j == 0 {
        lemma_pow2_zero();
        assert(n * pow2(0) == m) by (nonlinear_arith)
            requires
                n == m * p,
                p == 1,
                pow2(0) == 1,
        ;
    } else {
        vstd::arithmetic::div_mod::lemma_fundamental_div_mod_converse(n as int, p as int, m as int, 0);
    }
}

/// Rounding gives the nearest number, and of two that are as near the one with the even
/// significand: where `n * 2^e` rounds to a finite number, no finite number is nearer to
/// it. All three values are counted in units of `2^unit`.
pub proof fn lemma_round_is_nearest(n: nat, e: int, f: F32, unit: int)
    requires
        n > 0,
        unit <= e,
        unit <= -149,
        f.finite(),
        round_magnitude(n, e, false) < 0x7f80_0000,
    ensures
        ({
            let r = F32 { bits: round_magnitude(n, e, false) as u32 };
            let x = (n * pow2((e - unit) as nat)) as int;
            &&& r.finite()
            &&& distance(units(r, unit), x) <= distance(units(f, unit), x)
            &&& (distance(units(r, unit), x) == distance(units(f, unit), x) && units(f, unit) != units(r, unit)
                ==> r.significand() % 2 == 0)
        }),
{
    let r = F32 { bits: round_magnitude(n, e, false) as u32 };
    let pe = pow2((e - unit) as nat);
    let x = (n * pe) as int;
    let bl = bit_length(n);
    let q = rounding_exponent(n, e);
    lemma2_to64();
    lemma_bit_length_bounds(n);
    lemma_pow2_pos((e - unit) as nat);
    if q <= e {
        // nothing is cut off: the result is the value itself
        let j = (e - q) as nat;
        let m = n * pow2(j);
        lemma_pow2_pos(j);
        lemma_pow2_adds(bl, j);
        lemma_pow2_adds((bl - 1) as nat, j);
        lemma_pow2_increases(bl + j, 24);
        assert(pow2((bl - 1) as nat) * pow2(j) <= m < pow2(bl) * pow2(j)) by (nonlinear_arith)
            requires
                m == n * pow2(j),
                pow2((bl - 1) as nat) <= n < pow2(bl),
                pow2(j) > 0,
        ;
        if q > -149 {
            assert(bl - 1 + j == 23);
        }
        lemma_unpack(m, q, unit);
        lemma_pow2_adds(j, (q - unit) as nat);
        assert(m * pow2((q - unit) as nat) == x) by (nonlinear_arith)
            requires
                m == n * pow2(j),
                x == n * pe,
                pe == pow2(j) * pow2((q - unit) as nat),
        ;
    } else {
        let k = (q - e) as nat;
        let p = pow2(k);
        let m0 = n / p;
        let rem = n % p;
        let u = pow2((q - unit) as nat);
        lemma_pow2_pos(k);
        lemma_pow2_pos((q - unit) as nat);
        lemma_pow2_adds(k, (e - unit) as nat);
        assert(u == p * pe);
        vstd::arithmetic::div_mod::lemma_fundamental_div_mod(n as int, p as int);
        vstd::arithmetic::div_mod::lemma_mod_bound(n as int, p as int);
        let t = rem * pe;
        let base = m0 * u;
        assert(x == base + t && 0 <= t < u && (2 * rem > p <==> 2 * t > u) && (2 * rem == p <==> 2 * t == u))
            by (nonlinear_arith)
            requires
                x == n * pe,
                n == p * m0 + rem,
                0 <= rem < p,
                t == rem * pe,
                base == m0 * u,
                u == p * pe,
                pe > 0,
        ;
        // the kept digits are fewer than 2^24, and at least 2^23 for a normal result
        lemma_pow2_adds(k, 24);
        lemma_pow2_increases(bl, k + 24);
        assert(n < p * 0x100_0000);
        vstd::arithmetic::div_mod::lemma_multiply_divide_lt(n as int, p as int, 0x100_0000);
        if q > -149 {
            assert(k == bl - 24);
            lemma_pow2_adds(k, 23);
            assert(n >= 0x80_0000 * p);
            vstd::arithmetic::div_mod::lemma_div_is_ordered((0x80_0000 * p) as int, n as int, p as int);
            vstd::arithmetic::div_mod::lemma_div_multiples_vanish(0x80_0000, p as int);
            assert(m0 >= 0x80_0000);
        }
        let up = 2 * rem > p || (2 * rem == p && m0 % 2 == 1);
        let m = if up {
            m0 + 1
        } else {
            m0
        };
        lemma_unpack(m, q, unit);
        assert(units(r, unit) == m * u);
        assert(m * u == if up {
            base + u
        } else {
            base
        }) by (nonlinear_arith)
            requires
                base == m0 * u,
                m == if up {
                    m0 + 1
                } else {
                    m0
                },
        ;
        // no finite number lies between the two neighbours
        let sf = f.significand();
        let ef = f.exponent();
        let vf = units(f, unit);
        lemma_recompose(f);
        if ef >= q {
            let c = sf * pow2((ef - q) as nat);
            lemma_pow2_adds((ef - q) as nat, (q - unit) as nat);
            assert(vf == c * u) by (nonlinear_arith)
                requires
                    vf == sf * pow2((ef - unit) as nat),
                    pow2((ef - unit) as nat) == pow2((ef - q) as nat) * u,
                    c == sf * pow2((ef - q) as nat),
            ;
            assert(vf <= base || vf >= base + u) by (nonlinear_arith)
                requires
                    vf == c * u,
                    base == m0 * u,
                    u > 0,
            ;
        } else {
            let w = pow2((ef - unit) as nat);
            lemma_pow2_increases((ef - unit) as nat, (q - 1 - unit) as nat);
            lemma_pow2_unfold((q - unit) as nat);
            assert(vf <= base) by (nonlinear_arith)
                requires
                    vf == sf * w,
                    sf < 0x100_0000,
                    0 <= w,
                    2 * w <= u,
                    base == m0 * u,
                    m0 >= 0x80_0000,
            ;
        }
        if m == 0x100_0000 {
            assert(r.significand() % 2 == 0);
        }
    }
}

/// Rounding errs by half a last place at most: where `n * 2^e` rounds to a finite number,
/// the two differ by no more than half of `2^q`, with `q` the exponent of the last place
/// that is kept. Above the least exponent that is no more than `2^-24` of the value; where
/// nothing is cut off, the two are the same. Values are counted in units of `2^unit`.
pub proof fn lemma_round_error(n: nat, e: int, unit: int)
    requires
        n > 0,
        unit <= e,
        unit <= -149,
        round_magnitude(n, e, false) < 0x7f80_0000,
    ensures
        ({
            let r = F32 { bits: round_magnitude(n, e, false) as u32 };
            let x = (n * pow2((e - unit) as nat)) as int;
            let q = rounding_exponent(n, e);
            &&& r.finite()
            &&& unit <= q
            &&& 2 * distance(units(r, unit), x) <= pow2((q - unit) as nat)
            &&& (q > -149 ==> 0x100_0000 * distance(units(r, unit), x) <= x)
            &&& (q <= e ==> units(r, unit) == x)
        }),
{
    let r = F32 { bits: round_magnitude(n, e, false) as u32 };
    let pe = pow2((e - unit) as nat);
    let x = (n * pe) as int;
    let bl = bit_length(n);
    let q = rounding_exponent(n, e);
    lemma2_to64();
    lemma_bit_length_bounds(n);
    lemma_pow2_pos((e - unit) as nat);
    lemma_pow2_pos((q - unit) as nat);
    if q <= e {
        let j = (e - q) as nat;
        let m = n * pow2(j);
        lemma_pow2_pos(j);
        lemma_pow2_adds(bl, j);
        lemma_pow2_adds((bl - 1) as nat, j);
        lemma_pow2_increases(bl + j, 24);
        assert(pow2((bl - 1) as nat) * pow2(j) <= m < pow2(bl) * pow2(j)) by (nonlinear_arith)
            requires
                m == n * pow2(j),
                pow2((bl - 1) as nat) <= n < pow2(bl),
                pow2(j) > 0,
        ;
        if q > -149 {
            assert(bl - 1 + j == 23);
        }
        lemma_unpack(m, q, unit);
        lemma_pow2_adds(j, (q - unit) as nat);
        assert(m * pow2((q - unit) as nat) == x) by (nonlinear_arith)
            requires
                m == n * pow2(j),
                x == n * pe,
                pe == pow2(j) * pow2((q - unit) as nat),
        ;
    } else {
        let k = (q - e) as nat;
        let p = pow2(k);
        let m0 = n / p;
        let rem = n % p;
        let u = pow2((q - unit) as nat);
        lemma_pow2_pos(k);
        lemma_pow2_adds(k, (e - unit) as nat);
        assert(u == p * pe);
        vstd::arithmetic::div_mod::lemma_fundamental_div_mod(n as int, p as int);
        vstd::arithmetic::div_mod::lemma_mod_bound(n as int, p as int);
        let t = rem * pe;
        let base = m0 * u;
        assert(x == base + t && 0 <= t < u && (2 * rem > p <==> 2 * t > u) && (2 * rem == p <==> 2 * t == u))
            by (nonlinear_arith)
            requires
                x == n * pe,
                n == p * m0 + rem,
                0 <= rem < p,
                t == rem * pe,
                base == m0 * u,
                u == p * pe,
                pe > 0,
        ;
        lemma_pow2_adds(k, 24);
        lemma_pow2_increases(bl, k + 24);
        assert(n < p * 0x100_0000);
        vstd::arithmetic::div_mod::lemma_multiply_divide_lt(n as int, p as int, 0x100_0000);
        if q > -149 {
            assert(k == bl - 24);
            lemma_pow2_adds(k, 23);
            assert(n >= 0x80_0000 * p);
            vstd::arithmetic::div_mod::lemma_div_is_ordered((0x80_0000 * p) as int, n as int, p as int);
            vstd::arithmetic::div_mod::lemma_div_multiples_vanish(0x80_0000, p as int);
            assert(m0 >= 0x80_0000);
            assert(x >= 0x80_0000 * u) by (nonlinear_arith)
                requires
                    x == base + t,
                    t >= 0,
                    base == m0 * u,
                    m0 >= 0x80_0000,
                    u > 0,
            ;
        }
        let up = 2 * rem > p || (2 * rem == p && m0 % 2 == 1);
        let m = if up {
            m0 + 1
        } else {
            m0
        };
        lemma_unpack(m, q, unit);
        assert(units(r, unit) == m * u);
        assert(m * u == if up {
            base + u
        } else {
            base
        }) by (nonlinear_arith)
            requires
                base == m0 * u,
                m == if up {
                    m0 + 1
                } else {
                    m0
                },
        ;
    }
}

/// What a number can hold it holds: where some finite number has the value `n * 2^e`,
/// rounding gives that value.
pub proof fn lemma_round_is_exact(n: nat, e: int, f: F32, unit: int)
    requires
        n > 0,
        unit <= e,
        unit <= -149,
        f.finite(),
        units(f, unit) == n * pow2((e - unit) as nat),
    ensures
        round_magnitude(n, e, false) < 0x7f80_0000,
        units(F32 { bits: round_magnitude(n, e, false) as u32 }, unit) == n * pow2((e - unit) as nat),
{
    lemma_round_bound(n, e, false);
    // a number that a finite number holds lies below the middle between the largest and infinity
    lemma_round_overflows(n, e, unit);
    lemma_recompose(f);
    lemma2_to64();
    let w = pow2((103 - unit) as nat);
    let top = pow2((f.exponent() - unit) as nat);
    lemma_pow2_pos((103 - unit) as nat);
    lemma_pow2_increases((f.exponent() - unit) as nat, (104 - unit) as nat);
    lemma_pow2_unfold((104 - unit) as nat);
    assert(units(f, unit) < 0x1ff_ffff * w) by (nonlinear_arith)
        requires
            units(f, unit) == f.significand() * top,
            f.significand() < 0x100_0000,
            0 <= top <= 2 * w,
            w > 0,
    ;
    lemma_round_is_nearest(n, e, f, unit);
}

/// Rounding gives infinity exactly from half a last place above the largest finite
/// number on: `n * 2^e` rounds to infinity where it is at least `(2^25 - 1) * 2^103`.
pub proof fn lemma_round_overflows(n: nat, e: int, unit: int)
    requires
        n > 0,
        unit <= e,
        unit <= -149,
    ensures
        round_magnitude(n, e, false) == 0x7f80_0000 <==> n * pow2((e - unit) as nat) >= 0x1ff_ffff * pow2(
            (103 - unit) as nat,
        ),
{
    let pe = pow2((e - unit) as nat);
    let x = n * pe;
    let w = pow2((103 - unit) as nat);
    let bl = bit_length(n);
    let q = rounding_exponent(n, e);
    lemma2_to64();
    lemma_bit_length_bounds(n);
    lemma_pow2_pos((e - unit) as nat);
    lemma_pow2_pos((103 - unit) as nat);
    if q > 104 {
        // at least 2^128
        lemma_pow2_adds((bl - 1) as nat, (e - unit) as nat);
        lemma_pow2_increases((128 - unit) as nat, (bl - 1 + e - unit) as nat);
        lemma_pow2_adds(25, (103 - unit) as nat);
        assert(x >= pow2((bl - 1) as nat) * pe) by (nonlinear_arith)
            requires
                x == n * pe,
                n >= pow2((bl - 1) as nat),
                pe > 0,
        ;
        assert(0x1ff_ffff * w <= 0x200_0000 * w) by (nonlinear_arith)
            requires
                w > 0,
        ;
    } else if q <= e {
        let j = (e - q) as nat;
        let m = n * pow2(j);
        let u = pow2((q - unit) as nat);
        lemma_pow2_pos(j);
        lemma_pow2_pos((q - unit) as nat);
        lemma_pow2_adds(bl, j);
        lemma_pow2_increases(bl + j, 24);
        lemma_pow2_adds(j, (q - unit) as nat);
        lemma_pow2_increases((q - unit) as nat, (104 - unit) as nat);
        lemma_pow2_unfold((104 - unit) as nat);
        assert(m < 0x100_0000) by (nonlinear_arith)
            requires
                m == n * pow2(j),
                n < pow2(bl),
                pow2(bl) * pow2(j) <= 0x100_0000,
                pow2(j) > 0,
        ;
        assert(x == m * u && x < 0x1ff_ffff * w) by (nonlinear_arith)
            requires
                x == n * pe,
                m == n * pow2(j),
                pe == pow2(j) * u,
                m < 0x100_0000,
                0 < u <= 2 * w,
        ;
    } else {
        let k = (q - e) as nat;
        let p = pow2(k);
        let m0 = n / p;
        let rem = n % p;
        let u = pow2((q - unit) as nat);
        lemma_pow2_pos(k);
        lemma_pow2_pos((q - unit) as nat);
        lemma_pow2_adds(k, (e - unit) as nat);
        vstd::arithmetic::div_mod::lemma_fundamental_div_mod(n as int, p as int);
        vstd::arithmetic::div_mod::lemma_mod_bound(n as int, p as int);
        lemma_pow2_adds(k, 24);
        lemma_pow2_increases(bl, k + 24);
        assert(n < p * 0x100_0000);
        vstd::arithmetic::div_mod::lemma_multiply_divide_lt(n as int, p as int, 0x100_0000);
        let t = rem * pe;
        assert(x == m0 * u + t && 0 <= t < u && (2 * rem > p <==> 2 * t > u) && (2 * rem == p <==> 2 * t == u))
            by (nonlinear_arith)
            requires
                x == n * pe,
                n == p * m0 + rem,
                0 <= rem < p,
                t == rem * pe,
                u == p * pe,
                pe > 0,
        ;
        lemma_pow2_unfold((104 - unit) as nat);
        if q < 104 {
            lemma_pow2_increases((q - unit) as nat, (103 - unit) as nat);
            assert(m0 * u + t < 0x1ff_ffff * w) by (nonlinear_arith)
                requires
                    m0 < 0x100_0000,
                    0 <= t < u,
                    0 < u <= w,
            ;
        } else {
            assert(u == 2 * w);
            assert(m0 * u == 2 * (m0 * w) && 0xff_ffff * u == 2 * (0xff_ffff * w) && (m0 < 0xff_ffff ==> m0 * w
                + w <= 0xff_ffff * w)) by (nonlinear_arith)
                requires
                    u == 2 * w,
                    w > 0,
                    0 <= m0,
            ;
            assert(0x1ff_ffff * w == 2 * (0xff_ffff * w) + w) by (nonlinear_arith);
            if m0 == 0xff_ffff {
                assert(m0 % 2 == 1);
            }
        }
    }
}

/// Rounding keeps the order: of two values, the lesser does not round to the greater
/// number.
pub proof fn lemma_round_is_monotone(n1: nat, e1: int, n2: nat, e2: int, unit: int)
    requires
        n1 > 0,
        n2 > 0,
        unit <= e1,
        unit <= e2,
        unit <= -149,
        n1 * pow2((e1 - unit) as nat) <= n2 * pow2((e2 - unit) as nat),
    ensures
        round_magnitude(n1, e1, false) <= round_magnitude(n2, e2, false),
{
    let x = (n1 * pow2((e1 - unit) as nat)) as int;
    let y = (n2 * pow2((e2 - unit) as nat)) as int;
    let a = round_magnitude(n1, e1, false);
    let b = round_magnitude(n2, e2, false);
    lemma_round_bound(n1, e1, false);
    lemma_round_bound(n2, e2, false);
    lemma_round_overflows(n1, e1, unit);
    lemma_round_overflows(n2, e2, unit);
    if b < 0x7f80_0000 && a > b {
        // the greater value does not overflow, so the lesser does not
        assert(a < 0x7f80_0000);
        let ra = F32 { bits: a as u32 };
        let rb = F32 { bits: b as u32 };
        // the number just above the lower result
        let rc = F32 { bits: (b + 1) as u32 };
        lemma_round_is_nearest(n1, e1, rb, unit);
        lemma_round_is_nearest(n2, e2, ra, unit);
        lemma_round_is_nearest(n1, e1, rc, unit);
        lemma_magnitudes_order(rb, ra, unit);
        lemma_magnitudes_order(rb, rc, unit);
        if rc.bits < ra.bits {
            lemma_magnitudes_order(rc, ra, unit);
        }
        // both results lie as near to both values, so both have even significands; but
        // they are neighbours, and of two neighbours one is odd
        lemma_neighbours_differ(rb);
    }
}

/// Rounding does not need the lowest digits one by one: where at least 26 digits are
/// kept, the `j` lowest digits of `n` can be cut off and told by the sticky bit alone.
pub proof fn lemma_round_coarser(n: nat, e: int, sticky: bool, j: nat)
    requires
        n / pow2(j) >= 0x200_0000,
    ensures
        round_magnitude(n, e, sticky) == round_magnitude(n / pow2(j), e + j, sticky || n % pow2(j) != 0),
{
    let big = pow2(j);
    let n1 = n / big;
    let low = n % big;
    lemma_pow2_pos(j);
    lemma2_to64();
    vstd::arithmetic::div_mod::lemma_fundamental_div_mod(n as int, big as int);
    vstd::arithmetic::div_mod::lemma_mod_bound(n as int, big as int);
    let bl1 = bit_length(n1);
    lemma_bit_length_bounds(n1);
    if bl1 < 26 {
        lemma_pow2_increases(bl1, 25);
    }
    lemma_pow2_adds((bl1 - 1) as nat, j);
    lemma_pow2_adds(bl1, j);
    assert(pow2((bl1 - 1) as nat) * big <= n < pow2(bl1) * big) by (nonlinear_arith)
        requires
            n == big * n1 + low,
            0 <= low < big,
            pow2((bl1 - 1) as nat) <= n1 < pow2(bl1),
    ;
    lemma_bit_length_unique(n, (bl1 - 1 + j) as nat);
    let q = rounding_exponent(n, e);
    assert(q == rounding_exponent(n1, e + j));
    assert(q >= e + j + 2);
    let k1 = (q - e - j) as nat;
    let k = (q - e) as nat;
    let p1 = pow2(k1);
    let p = pow2(k);
    lemma_pow2_pos(k1);
    lemma_pow2_adds(j, k1);
    assert(p == big * p1);
    lemma_pow2_unfold(k1);
    let h1 = pow2((k1 - 1) as nat);
    assert(p1 == 2 * h1);
    vstd::arithmetic::div_mod::lemma_div_denominator(n as int, big as int, p1 as int);
    vstd::arithmetic::div_mod::lemma_breakdown(n as int, big as int, p1 as int);
    let m0 = n / p;
    let rem = n % p;
    let rem1 = n1 % p1;
    assert(m0 == n1 / p1);
    assert(rem == big * rem1 + low);
    vstd::arithmetic::div_mod::lemma_mod_bound(n1 as int, p1 as int);
    assert((2 * rem > p <==> (2 * rem1 > p1 || (2 * rem1 == p1 && low > 0))) && (2 * rem == p <==> (2 * rem1
        == p1 && low == 0))) by (nonlinear_arith)
        requires
            rem == big * rem1 + low,
            p == big * p1,
            p1 == 2 * h1,
            0 <= low < big,
            0 <= rem1,
    ;
}

/// Rounding a quotient gives the number nearest to the quotient itself: where `t / d`,
/// cut to a whole number with what is left as the sticky bit, rounds to a finite number,
/// no finite number is nearer to `(t / d) * 2^e` than the result. Values are counted in
/// units of `2^unit` and compared after multiplying by `d`. A quotient that is cut must
/// keep at least 25 digits, or be counted in places below the last place of any number.
pub proof fn lemma_round_ratio_is_nearest(t: nat, d: nat, e: int, f: F32, unit: int)
    requires
        d > 0,
        t >= d,
        t % d == 0 || t / d >= 0x100_0000 || e < -149,
        unit <= e,
        unit <= -149,
        f.finite(),
        round_magnitude(t / d, e, t % d != 0) < 0x7f80_0000,
    ensures
        ({
            let r = F32 { bits: round_magnitude(t / d, e, t % d != 0) as u32 };
            let x = (t * pow2((e - unit) as nat)) as int;
            &&& r.finite()
            &&& distance(units(r, unit) * d, x) <= distance(units(f, unit) * d, x)
            &&& (distance(units(r, unit) * d, x) == distance(units(f, unit) * d, x) && units(f, unit) != units(
                r,
                unit,
            ) ==> r.significand() % 2 == 0)
        }),
{
    let n = t / d;
    let s = t % d;
    let sticky = s != 0;
    let r = F32 { bits: round_magnitude(n, e, sticky) as u32 };
    let pe = pow2((e - unit) as nat);
    let x = (t * pe) as int;
    vstd::arithmetic::div_mod::lemma_fundamental_div_mod(t as int, d as int);
    vstd::arithmetic::div_mod::lemma_mod_bound(t as int, d as int);
    vstd::arithmetic::div_mod::lemma_div_is_ordered(d as int, t as int, d as int);
    vstd::arithmetic::div_mod::lemma_div_by_self(d as int);
    assert(n >= 1);
    if !sticky {
        // the quotient is whole: this is the rounding of a whole number
        lemma_round_is_nearest(n, e, f, unit);
        let vr = units(r, unit);
        let vf = units(f, unit);
        let y = (n * pe) as int;
        assert(x == y * d && distance(vr * d, y * d) == distance(vr, y) * d && distance(vf * d, y * d)
            == distance(vf, y) * d) by (nonlinear_arith)
            requires
                x == t * pe,
                t == d * n,
                y == n * pe,
        ;
        assert(distance(vr, y) * d <= distance(vf, y) * d && (distance(vr, y) * d == distance(vf, y) * d
            ==> distance(vr, y) == distance(vf, y))) by (nonlinear_arith)
            requires
                distance(vr, y) <= distance(vf, y),
                d > 0,
        ;
    } else {
        let bl = bit_length(n);
        let q = rounding_exponent(n, e);
        lemma2_to64();
        lemma_bit_length_bounds(n);
        lemma_pow2_pos((e - unit) as nat);
        if bl < 25 && e >= -149 {
            lemma_pow2_increases(bl, 24);
        }
        assert(q > e);
        let k = (q - e) as nat;
        let p = pow2(k);
        let m0 = n / p;
        let rem = n % p;
        let u = pow2((q - unit) as nat);
        lemma_pow2_pos(k);
        lemma_pow2_unfold(k);
        lemma_pow2_pos((q - unit) as nat);
        lemma_pow2_adds(k, (e - unit) as nat);
        assert(u == p * pe);
        vstd::arithmetic::div_mod::lemma_fundamental_div_mod(n as int, p as int);
        vstd::arithmetic::div_mod::lemma_mod_bound(n as int, p as int);
        let h = pow2((k - 1) as nat);
        assert(p == 2 * h);
        // what lies above the lower neighbour, times d
        let part = (rem * d + s) * pe;
        let step = u * d;
        let base = m0 * step;
        assert(step == (p * d) * pe && step > 0) by (nonlinear_arith)
            requires
                step == u * d,
                u == p * pe,
                p > 0,
                pe > 0,
                d > 0,
        ;
        assert(x == base + part) by (nonlinear_arith)
            requires
                x == t * pe,
                t == d * n + s,
                n == p * m0 + rem,
                part == (rem * d + s) * pe,
                base == m0 * step,
                step == (p * d) * pe,
        ;
        let low = rem * d + s;
        assert(0 < low < p * d && (2 * rem > p ==> 2 * low > p * d) && (2 * rem < p ==> 2 * low < p * d) && (2
            * rem == p ==> 2 * low > p * d)) by (nonlinear_arith)
            requires
                low == rem * d + s,
                0 <= rem < p,
                0 < s < d,
                p == 2 * h,
        ;
        assert(0 < part < step && (2 * low > p * d ==> 2 * part > step) && (2 * low < p * d ==> 2 * part
            < step)) by (nonlinear_arith)
            requires
                part == low * pe,
                step == (p * d) * pe,
                0 < low < p * d,
                pe > 0,
        ;
        lemma_pow2_adds(k, 24);
        lemma_pow2_increases(bl, k + 24);
        assert(n < p * 0x100_0000);
        vstd::arithmetic::div_mod::lemma_multiply_divide_lt(n as int, p as int, 0x100_0000);
        if q > -149 {
            assert(k == bl - 24);
            lemma_pow2_adds(k, 23);
            assert(n >= 0x80_0000 * p);
            vstd::arithmetic::div_mod::lemma_div_is_ordered((0x80_0000 * p) as int, n as int, p as int);
            vstd::arithmetic::div_mod::lemma_div_multiples_vanish(0x80_0000, p as int);
            assert(m0 >= 0x80_0000);
        }
        let up = 2 * rem > p || 2 * rem == p;
        let m = if up {
            m0 + 1
        } else {
            m0
        };
        lemma_unpack(m, q, unit);
        let vr = units(r, unit);
        assert(vr == m * u);
        assert(vr * d == if up {
            base + step
        } else {
            base
        }) by (nonlinear_arith)
            requires
                vr == m * u,
                base == m0 * step,
                step == u * d,
                m == if up {
                    m0 + 1
                } else {
                    m0
                },
        ;
        let sf = f.significand();
        let ef = f.exponent();
        let vf = units(f, unit);
        lemma_recompose(f);
        if ef >= q {
            let c = sf * pow2((ef - q) as nat);
            lemma_pow2_adds((ef - q) as nat, (q - unit) as nat);
            assert(vf * d == c * step) by (nonlinear_arith)
                requires
                    vf == sf * pow2((ef - unit) as nat),
                    pow2((ef - unit) as nat) == pow2((ef - q) as nat) * u,
                    c == sf * pow2((ef - q) as nat),
                    step == u * d,
            ;
            assert(vf * d <= base || vf * d >= base + step) by (nonlinear_arith)
                requires
                    vf * d == c * step,
                    base == m0 * step,
                    step > 0,
            ;
        } else {
            let w = pow2((ef - unit) as nat);
            lemma_pow2_increases((ef - unit) as nat, (q - 1 - unit) as nat);
            lemma_pow2_unfold((q - unit) as nat);
            assert(vf <= 0x80_0000 * u) by (nonlinear_arith)
                requires
                    vf == sf * w,
                    sf < 0x100_0000,
                    0 <= w,
                    2 * w <= u,
            ;
            assert(vf * d <= base) by (nonlinear_arith)
                requires
                    vf <= 0x80_0000 * u,
                    base == m0 * step,
                    step == u * d,
                    m0 >= 0x80_0000,
                    u > 0,
                    d > 0,
            ;
        }
        assert(vf * d == vr * d ==> vf == vr) by (nonlinear_arith)
            requires
                d > 0,
        ;
    }
}

/// Squares keep the order of numbers that are not negative.
pub proof fn lemma_square_order(a: int, b: int)
    by (nonlinear_arith)
    requires
        0 <= a,
    ensures
        a < b ==> a * a < b * b,
        a <= b ==> a * a <= b * b,
{
}

/// Every whole number has an integer square root.
pub proof fn lemma_integer_sqrt_exists(x: nat)
    ensures
        is_integer_sqrt(x, integer_sqrt(x)),
    decreases x,
{
    if x == 0 {
        assert(is_integer_sqrt(0, 0)) by (nonlinear_arith);
    } else {
        lemma_integer_sqrt_exists((x - 1) as nat);
        let r = integer_sqrt((x - 1) as nat);
        assert(is_integer_sqrt((x - 1) as nat, r));
        if x < (r + 1) * (r + 1) {
            assert(is_integer_sqrt(x, r));
        } else {
            assert(is_integer_sqrt(x, r + 1)) by (nonlinear_arith)
                requires
                    r * r <= x - 1 < (r + 1) * (r + 1),
                    x >= (r + 1) * (r + 1),
            ;
        }
    }
}

/// The square root is rounded to the nearest number: with `r` the result of rounding
/// the integer root of `x` and `f` any finite number, the middle between `r` and `f` lies
/// beyond the exact root of `x`, seen from `r`. Values are counted in units of `2^unit`,
/// and the comparison is made between squares: `root * 2^(e - unit)` squared is
/// `x * 4^(e - unit)`.
pub proof fn lemma_round_root_is_nearest(x: nat, e: int, f: F32, unit: int)
    requires
        integer_sqrt(x) >= 0x100_0000,
        unit <= e,
        unit <= -149,
        f.finite(),
        round_magnitude(integer_sqrt(x), e, integer_sqrt(x) * integer_sqrt(x) != x) < 0x7f80_0000,
    ensures
        ({
            let n = integer_sqrt(x);
            let r = F32 { bits: round_magnitude(n, e, n * n != x) as u32 };
            let pe = pow2((e - unit) as nat);
            let both = units(r, unit) + units(f, unit);
            &&& r.finite()
            &&& (units(f, unit) > units(r, unit) ==> both * both >= 4 * (x * (pe * pe)))
            &&& (units(f, unit) < units(r, unit) ==> both * both <= 4 * (x * (pe * pe)))
            &&& (units(f, unit) != units(r, unit) && both * both == 4 * (x * (pe * pe)) ==> r.significand() % 2
                == 0)
        }),
{
    let n = integer_sqrt(x);
    assert(is_integer_sqrt(x, n)) by {
        // there is a root: the largest whole number whose square is not above x
        lemma_integer_sqrt_exists(x);
    }
    let sticky = n * n != x;
    let r = F32 { bits: round_magnitude(n, e, sticky) as u32 };
    let pe = pow2((e - unit) as nat);
    let bl = bit_length(n);
    let q = rounding_exponent(n, e);
    lemma2_to64();
    lemma_bit_length_bounds(n);
    lemma_pow2_pos((e - unit) as nat);
    if bl < 25 {
        lemma_pow2_increases(bl, 24);
    }
    assert(q > e);
    let k = (q - e) as nat;
    let p = pow2(k);
    let m0 = n / p;
    let rem = n % p;
    let u = pow2((q - unit) as nat);
    lemma_pow2_pos(k);
    lemma_pow2_unfold(k);
    lemma_pow2_pos((q - unit) as nat);
    lemma_pow2_adds(k, (e - unit) as nat);
    assert(u == p * pe);
    vstd::arithmetic::div_mod::lemma_fundamental_div_mod(n as int, p as int);
    vstd::arithmetic::div_mod::lemma_mod_bound(n as int, p as int);
    let h = pow2((k - 1) as nat);
    assert(p == 2 * h);
    lemma_pow2_adds(k, 24);
    lemma_pow2_increases(bl, k + 24);
    assert(n < p * 0x100_0000);
    vstd::arithmetic::div_mod::lemma_multiply_divide_lt(n as int, p as int, 0x100_0000);
    if q > -149 {
        assert(k == bl - 24);
        lemma_pow2_adds(k, 23);
        assert(n >= 0x80_0000 * p);
        vstd::arithmetic::div_mod::lemma_div_is_ordered((0x80_0000 * p) as int, n as int, p as int);
        vstd::arithmetic::div_mod::lemma_div_multiples_vanish(0x80_0000, p as int);
        assert(m0 >= 0x80_0000);
    }
    let up = 2 * rem > p || (2 * rem == p && (sticky || m0 % 2 == 1));
    let m = if up {
        m0 + 1
    } else {
        m0
    };
    lemma_unpack(m, q, unit);
    let vr = units(r, unit);
    let vf = units(f, unit);
    assert(vr == m * u);
    // the squares of the two neighbours and of the middle between them, against x
    let below = (m0 * p) as int;
    let c = below + h;
    let mid = (2 * m0 * p + p) as int;
    assert(mid == 2 * c && n == below + rem && 0 <= below && mid * mid == 4 * (c * c) && (2 * below) * (2
        * below) == 4 * (below * below) && (2 * (below + p)) * (2 * (below + p)) == 4 * ((below + p) * (below
        + p)) && 2 * (m0 * p) == 2 * below && 2 * (m0 * p + p) == 2 * (below + p)) by (nonlinear_arith)
        requires
            below == m0 * p,
            c == below + h,
            mid == 2 * m0 * p + p,
            n == p * m0 + rem,
            p == 2 * h,
            0 <= m0,
            0 < p,
    ;
    lemma_square_order(below, n as int);
    lemma_square_order(n as int + 1, below + p as int);
    lemma_square_order(c, n as int);
    lemma_square_order(n as int + 1, c);
    lemma_square_order(n as int, c);
    assert((up ==> mid * mid <= 4 * x) && (!up ==> mid * mid >= 4 * x) && (mid * mid == 4 * x ==> 2 * rem == p
        && !sticky) && (2 * (m0 * p)) * (2 * (m0 * p)) <= 4 * x && (2 * (m0 * p + p)) * (2 * (m0 * p + p)) >= 4
        * x);
    let sf = f.significand();
    let ef = f.exponent();
    lemma_recompose(f);
    let base = m0 * u;
    if ef >= q {
        let c = sf * pow2((ef - q) as nat);
        lemma_pow2_adds((ef - q) as nat, (q - unit) as nat);
        assert(vf == c * u) by (nonlinear_arith)
            requires
                vf == sf * pow2((ef - unit) as nat),
                pow2((ef - unit) as nat) == pow2((ef - q) as nat) * u,
                c == sf * pow2((ef - q) as nat),
        ;
        assert(vf <= base || vf >= base + u) by (nonlinear_arith)
            requires
                vf == c * u,
                base == m0 * u,
                u > 0,
        ;
    } else {
        let w = pow2((ef - unit) as nat);
        lemma_pow2_increases((ef - unit) as nat, (q - 1 - unit) as nat);
        lemma_pow2_unfold((q - unit) as nat);
        assert(vf <= base) by (nonlinear_arith)
            requires
                vf == sf * w,
                sf < 0x100_0000,
                0 <= w,
                2 * w <= u,
                base == m0 * u,
                m0 >= 0x80_0000,
        ;
    }
    let both = vr + vf;
    let goal = 4 * (x * (pe * pe));
    // everything in units: the neighbours are base and base + u, the middle is mid * pe
    assert((mid * pe) * (mid * pe) == (mid * mid) * (pe * pe) && (2 * base) * (2 * base) == ((2 * (m0 * p)) * (2
        * (m0 * p))) * (pe * pe) && (2 * (base + u)) * (2 * (base + u)) == ((2 * (m0 * p + p)) * (2 * (m0 * p
        + p))) * (pe * pe) && mid * pe == 2 * base + u && pe * pe > 0) by (nonlinear_arith)
        requires
            base == m0 * u,
            u == p * pe,
            mid == 2 * m0 * p + p,
            pe > 0,
    ;
    assert((mid * mid <= 4 * x ==> (mid * mid) * (pe * pe) <= goal) && (mid * mid >= 4 * x ==> (mid * mid) * (pe
        * pe) >= goal) && (mid * mid != 4 * x ==> (mid * mid) * (pe * pe) != goal) && ((2 * (m0 * p)) * (2 * (m0
        * p))) * (pe * pe) <= goal && ((2 * (m0 * p + p)) * (2 * (m0 * p + p))) * (pe * pe) >= goal)
        by (nonlinear_arith)
        requires
            goal == 4 * (x * (pe * pe)),
            pe * pe > 0,
            (2 * (m0 * p)) * (2 * (m0 * p)) <= 4 * x,
            (2 * (m0 * p + p)) * (2 * (m0 * p + p)) >= 4 * x,
    ;
    let middle = 2 * base + u;
    assert(vr == if up {
        base + u
    } else {
        base
    }) by (nonlinear_arith)
        requires
            vr == m * u,
            base == m0 * u,
            m == if up {
                m0 + 1
            } else {
                m0
            },
    ;
    // squares keep the order of what is not negative
    assert(0 <= vf && 0 <= base && 0 < u) by (nonlinear_arith)
        requires
            vf == sf * pow2((ef - unit) as nat),
            base == m0 * u,
            0 <= m0,
            0 < u,
    ;
    lemma_square_order(both, middle as int);
    lemma_square_order(middle as int, both);
    lemma_square_order(both, (2 * base) as int);
    lemma_square_order((2 * base) as int, both);
    lemma_square_order(both, (2 * (base + u)) as int);
    lemma_square_order((2 * (base + u)) as int, both);
    assert(middle * middle == (mid * mid) * (pe * pe));
    if m == 0x100_0000 {
        assert(r.significand() % 2 == 0);
    }
}

/// What is not zero and lies in the range of the exponents does not round to zero.
pub proof fn lemma_round_is_not_zero(n: nat, e: int)
    requires
        n > 0,
        e >= -149,
    ensures
        round_magnitude(n, e, false) > 0,
{
    crate::bits::lemma_pow2_zero();
    lemma_pow2_pos((e + 149) as nat);
    assert(1 * pow2(0) == 1 && 1 * pow2(0) <= n * pow2((e + 149) as nat)) by (nonlinear_arith)
        requires
            pow2(0) == 1,
            n >= 1,
            pow2((e + 149) as nat) >= 1,
    ;
    lemma_round_representable(1, -149, 0);
    lemma_round_is_monotone(1, -149, n, e, -149);
}

} // verus!
