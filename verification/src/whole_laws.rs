//! Whole numbers in binary32: sums and products of small whole numbers are exact, so that
//! what holds of whole numbers holds of them.

use crate::bits::{bit_length, lemma_bit_length_bounds, lemma_pow2_increases};
use crate::error_laws::{lemma_aligned_scales, lemma_from_nat_is_bounded, lemma_whole, size, whole};
use crate::rounding_laws::{
    lemma_magnitudes_order, lemma_round_bound, lemma_round_error, lemma_round_is_exact, units,
};
use crate::single::{lemma_recompose, round_magnitude, rounding_exponent, F32};
use vstd::arithmetic::power2::{lemma2_to64, lemma_pow2_adds, lemma_pow2_pos, pow2};
use vstd::prelude::*;

verus! {

/// Whether a number is the whole number `n`: it is finite, and its value is `n`.
pub open spec fn is_whole(x: F32, n: int) -> bool {
    x.finite() && whole(x) == n * pow2(149)
}

/// Every whole number below `2^24` is a binary32 number: its nearest number has its
/// value.
pub proof fn lemma_whole_is_held(n: nat)
    requires
        n < 0x100_0000,
    ensures
        is_whole(F32::from_nat_spec(n), n as int),
        !F32::from_nat_spec(n).negative(),
{
    reveal(F32::from_nat_spec);
    let r = F32::from_nat_spec(n);
    lemma_round_bound(n, 0, false);
    if n > 0 {
        lemma2_to64();
        lemma_from_nat_is_bounded(n);
        lemma_bit_length_bounds(n);
        if bit_length(n) > 24 {
            lemma_pow2_increases(24, (bit_length(n) - 1) as nat);
        }
        assert(rounding_exponent(n, 0) <= 0);
        lemma_round_error(n, 0, -149);
        let plain = F32 { bits: round_magnitude(n, 0, false) as u32 };
        assert(r.magnitude() == round_magnitude(n, 0, false));
        assert(plain.significand() == r.significand() && plain.exponent() == r.exponent());
    }
    lemma_whole(r);
}

/// Two finite numbers with the same whole number are equal.
pub proof fn lemma_same_whole_is_equal(a: F32, b: F32)
    requires
        a.finite(),
        b.finite(),
        whole(a) == whole(b),
    ensures
        a.equal(b),
{
    lemma_whole(a);
    lemma_whole(b);
    let plain_a = F32 { bits: a.magnitude() as u32 };
    let plain_b = F32 { bits: b.magnitude() as u32 };
    assert(plain_a.significand() == a.significand() && plain_a.exponent() == a.exponent());
    assert(plain_b.significand() == b.significand() && plain_b.exponent() == b.exponent());
    if plain_a.bits < plain_b.bits {
        lemma_magnitudes_order(plain_a, plain_b, -149);
    }
    if plain_b.bits < plain_a.bits {
        lemma_magnitudes_order(plain_b, plain_a, -149);
    }
}

/// The sum of two whole numbers is their sum, where it is below `2^24` in size.
pub proof fn lemma_whole_sum(a: F32, b: F32, m: int, n: int)
    requires
        is_whole(a, m),
        is_whole(b, n),
        -0x100_0000 < m + n < 0x100_0000,
    ensures
        is_whole(a.add_spec(b), m + n),
{
    reveal(F32::add_spec);
    lemma_recompose(a);
    lemma_recompose(b);
    let k = pow2(149) as int;
    lemma_pow2_pos(149);
    let e = if a.exponent() <= b.exponent() {
        a.exponent()
    } else {
        b.exponent()
    };
    let s = a.aligned(e) + b.aligned(e);
    let step = pow2((e + 149) as nat) as int;
    lemma_pow2_pos((e + 149) as nat);
    lemma_aligned_scales(a, e);
    lemma_aligned_scales(b, e);
    assert(s * step == (m + n) * k) by (nonlinear_arith)
        requires
            whole(a) == a.aligned(e) * step,
            whole(b) == b.aligned(e) * step,
            s == a.aligned(e) + b.aligned(e),
            whole(a) == m * k,
            whole(b) == n * k,
    ;
    let total = m + n;
    let count = size(total);
    let big = size(s);
    assert(big * step == count * k && (s < 0 <==> total < 0) && (s == 0 <==> total == 0)) by (nonlinear_arith)
        requires
            s * step == total * k,
            big == size(s),
            count == size(total),
            step > 0,
            k > 0,
    ;
    let r = a.add_spec(b);
    if s != 0 {
        let held = F32::from_nat_spec(count as nat);
        lemma_whole_is_held(count as nat);
        lemma_whole(held);
        lemma_round_is_exact(big as nat, e, held, -149);
        let plain = F32 { bits: round_magnitude(big as nat, e, false) as u32 };
        assert(r.magnitude() == round_magnitude(big as nat, e, false));
        assert(plain.significand() == r.significand() && plain.exponent() == r.exponent());
        assert(r.negative() == (s < 0));
        lemma_whole(r);
        assert((-count) * k == -(count * k)) by (nonlinear_arith);
    } else {
        lemma_whole(r);
        assert(total * k == 0) by (nonlinear_arith)
            requires
                total == 0,
        ;
    }
}

/// The product of two whole numbers is their product, where it is below `2^24` in size.
pub proof fn lemma_whole_product(a: F32, b: F32, m: int, n: int)
    requires
        is_whole(a, m),
        is_whole(b, n),
        -0x100_0000 < m * n < 0x100_0000,
    ensures
        is_whole(a.mul_spec(b), m * n),
{
    reveal(F32::mul_spec);
    lemma_recompose(a);
    lemma_recompose(b);
    lemma_whole(a);
    lemma_whole(b);
    let k = pow2(149) as int;
    lemma_pow2_pos(149);
    let sa = a.significand() as int;
    let sb = b.significand() as int;
    let big = sa * sb;
    let e = a.exponent() + b.exponent();
    let pa = pow2((a.exponent() + 149) as nat) as int;
    let pb = pow2((b.exponent() + 149) as nat) as int;
    lemma_pow2_adds((a.exponent() + 149) as nat, (b.exponent() + 149) as nat);
    let total = m * n;
    let count = size(total);
    let r = a.mul_spec(b);
    lemma_round_bound(big as nat, e, false);
    assert(big >= 0 && big * pow2((e + 298) as nat) == (count * k) * k) by (nonlinear_arith)
        requires
            big == sa * sb,
            sa >= 0,
            sb >= 0,
            pow2((e + 298) as nat) == pa * pb,
            sa * pa == size(m * k),
            sb * pb == size(n * k),
            count == size(m * n),
            k > 0,
    ;
    if big != 0 {
        let held = F32::from_nat_spec(count as nat);
        lemma_whole_is_held(count as nat);
        lemma_whole(held);
        lemma_recompose(held);
        lemma_pow2_adds((held.exponent() + 149) as nat, 149);
        assert(units(held, -298) == (count * k) * k) by (nonlinear_arith)
            requires
                units(held, -298) == held.significand() * pow2((held.exponent() + 298) as nat),
                held.significand() * pow2((held.exponent() + 149) as nat) == count * k,
                pow2((held.exponent() + 298) as nat) == pow2((held.exponent() + 149) as nat) * k,
        ;
        lemma_round_is_exact(big as nat, e, held, -298);
        let plain = F32 { bits: round_magnitude(big as nat, e, false) as u32 };
        assert(r.magnitude() == round_magnitude(big as nat, e, false));
        assert(plain.significand() == r.significand() && plain.exponent() == r.exponent());
        lemma_recompose(r);
        lemma_whole(r);
        lemma_pow2_adds((r.exponent() + 149) as nat, 149);
        let ur = units(r, -149);
        assert(ur == count * k) by (nonlinear_arith)
            requires
                units(plain, -298) == (count * k) * k,
                units(plain, -298) == r.significand() * pow2((r.exponent() + 298) as nat),
                ur == r.significand() * pow2((r.exponent() + 149) as nat),
                pow2((r.exponent() + 298) as nat) == pow2((r.exponent() + 149) as nat) * k,
                k > 0,
        ;
        assert(r.negative() == (a.negative() != b.negative()));
        assert(sa != 0 && sb != 0) by (nonlinear_arith)
            requires
                big == sa * sb,
                big != 0,
        ;
        assert(m != 0 && n != 0) by (nonlinear_arith)
            requires
                whole(a) == m * k,
                whole(b) == n * k,
                whole(a) != 0,
                whole(b) != 0,
        ;
        assert(total * k == if a.negative() != b.negative() {
            -(count * k)
        } else {
            count * k
        }) by (nonlinear_arith)
            requires
                total == m * n,
                count == size(m * n),
                whole(a) == m * k,
                whole(b) == n * k,
                a.negative() ==> whole(a) <= 0,
                !a.negative() ==> whole(a) >= 0,
                b.negative() ==> whole(b) <= 0,
                !b.negative() ==> whole(b) >= 0,
                m != 0,
                n != 0,
                k > 0,
        ;
    } else {
        lemma_whole(r);
        assert(total == 0 && total * k == 0) by (nonlinear_arith)
            requires
                big * pow2((e + 298) as nat) == (count * k) * k,
                big == 0,
                count == size(total),
                k > 0,
        ;
    }
}

} // verus!
