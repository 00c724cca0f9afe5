//! Powers of two and binary digit counts, for the arithmetic on bit patterns.

use vstd::arithmetic::power2::{
    lemma_pow2_adds, lemma_pow2_pos, lemma_pow2_strictly_increases, lemma_pow2_unfold, pow2,
};
use vstd::prelude::*;

verus! {

/// Number of binary digits of `n`: 0 for 0, and `k + 1` where `2^k <= n < 2^(k+1)`.
pub open spec fn bit_length(n: nat) -> nat
    decreases n,
{
    if n == 0 {
        0
    } else {
        1 + bit_length(n / 2)
    }
}

/// A positive number lies between the two powers of two that its digit count names.
pub proof fn lemma_bit_length_bounds(n: nat)
    requires
        n > 0,
    ensures
        bit_length(n) >= 1,
        pow2((bit_length(n) - 1) as nat) <= n < pow2(bit_length(n)),
    decreases n,
{
    if n == 1 {
        assert(bit_length(1) == 1 + bit_length(0));
        lemma_pow2_unfold(1);
        assert(pow2(0) == 1) by {
            reveal(pow2);
            vstd::arithmetic::power::lemma_pow0(2);
        }
    } else {
        let h = n / 2;
        lemma_bit_length_bounds(h);
        lemma_pow2_unfold(bit_length(h));
        lemma_pow2_unfold(bit_length(n));
    }
}

/// The digit count is the only `k + 1` with `2^k <= n < 2^(k+1)`.
pub proof fn lemma_bit_length_unique(n: nat, k: nat)
    requires
        pow2(k) <= n < pow2(k + 1),
    ensures
        bit_length(n) == k + 1,
{
    lemma_pow2_pos(k);
    lemma_bit_length_bounds(n);
    let b = bit_length(n);
    if b < k + 1 {
        if b < k {
            lemma_pow2_strictly_increases(b, k);
        }
    } else if b > k + 1 {
        if k + 1 < (b - 1) as nat {
            lemma_pow2_strictly_increases(k + 1, (b - 1) as nat);
        }
    }
}

/// Multiplying by `2^s` adds `s` digits.
pub proof fn lemma_bit_length_shift(n: nat, s: nat)
    requires
        n > 0,
    ensures
        bit_length(n * pow2(s)) == bit_length(n) + s,
{
    let bl = bit_length(n);
    let p = pow2(s);
    lemma_bit_length_bounds(n);
    lemma_pow2_pos(s);
    lemma_pow2_adds((bl - 1) as nat, s);
    lemma_pow2_adds(bl, s);
    assert(pow2((bl - 1) as nat) * p <= n * p < pow2(bl) * p) by (nonlinear_arith)
        requires
            pow2((bl - 1) as nat) <= n < pow2(bl),
            p > 0,
    ;
    lemma_bit_length_unique(n * p, (bl - 1 + s) as nat);
}

/// `2^0 = 1`.
pub proof fn lemma_pow2_zero()
    ensures
        pow2(0) == 1,
{
    reveal(pow2);
    vstd::arithmetic::power::lemma_pow0(2);
}

/// Powers of two grow with the exponent.
pub proof fn lemma_pow2_increases(a: nat, b: nat)
    requires
        a <= b,
    ensures
        pow2(a) <= pow2(b),
{
    if a < b {
        lemma_pow2_strictly_increases(a, b);
    }
}

/// The digit count of `n`, computed by halving.
pub fn bit_len(n: u128) -> (r: u32)
    ensures
        r == bit_length(n as nat),
        r <= 128,
        n < pow2(r as nat),
        n > 0 ==> r >= 1 && pow2((r - 1) as nat) <= n,
{
    let mut x: u128 = n;
    let mut r: u32 = 0;
    proof {
        lemma_pow2_zero();
    }
    while x > 0
        invariant
            r <= 128,
            bit_length(n as nat) == r + bit_length(x as nat),
            (x as nat) * pow2(r as nat) <= n,
        decreases x,
    {
        proof {
            lemma_pow2_unfold((r + 1) as nat);
            assert(((x / 2) as nat) * pow2((r + 1) as nat) <= n) by (nonlinear_arith)
                requires
                    (x as nat) * pow2(r as nat) <= n,
                    pow2((r + 1) as nat) == 2 * pow2(r as nat),
            ;
            if r == 128 {
                lemma_pow2_pos(128);
                lemma_u128_limit();
                assert((x as nat) * pow2(128) >= pow2(128)) by (nonlinear_arith)
                    requires
                        x >= 1,
                ;
            }
        }
        x = x / 2;
        r = r + 1;
    }
    proof {
        if n > 0 {
            lemma_bit_length_bounds(n as nat);
        } else {
            lemma_pow2_pos(0);
        }
    }
    r
}

/// `2^128` is one more than the largest `u128`.
pub proof fn lemma_u128_limit()
    ensures
        pow2(128) == 0x1_0000_0000_0000_0000_0000_0000_0000_0000,
        pow2(127) == 0x8000_0000_0000_0000_0000_0000_0000_0000,
        pow2(64) == 0x1_0000_0000_0000_0000,
{
    vstd::arithmetic::power2::lemma2_to64();
    vstd::arithmetic::power2::lemma_pow2_adds(64, 64);
    lemma_pow2_unfold(128);
}

/// `2^k` for `k < 128`, computed by doubling.
pub fn pow2_u128(k: u32) -> (r: u128)
    requires
        k < 128,
    ensures
        r == pow2(k as nat),
        r >= 1,
{
    let mut r: u128 = 1;
    let mut i: u32 = 0;
    proof {
        lemma_pow2_zero();
    }
    while i < k
        invariant
            i <= k,
            k < 128,
            r == pow2(i as nat),
            r >= 1,
        decreases k - i,
    {
        proof {
            lemma_pow2_unfold((i + 1) as nat);
            lemma_pow2_increases((i + 1) as nat, 127);
            lemma_u128_limit();
        }
        r = r * 2;
        i = i + 1;
    }
    r
}

} // verus!
