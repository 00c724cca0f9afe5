//! Whole numbers of any size, as limbs of 32 bits with the lowest first.

use crate::bits::{bit_len, bit_length, lemma_pow2_increases, lemma_pow2_zero};
use vstd::arithmetic::power2::{lemma2_to64, lemma_pow2_adds, lemma_pow2_pos, pow2};
use vstd::prelude::*;

verus! {

/// Limb `i` of a number: zero above its last limb.
pub open spec fn limb(s: Seq<u32>, i: int) -> nat {
    if 0 <= i < s.len() {
        s[i] as nat
    } else {
        0
    }
}

/// The value of the lowest `i` limbs.
pub open spec fn prefix_value(s: Seq<u32>, i: nat) -> nat
    decreases i,
{
    if i == 0 {
        0
    } else {
        prefix_value(s, (i - 1) as nat) + limb(s, i - 1) * pow2((32 * (i - 1)) as nat)
    }
}

/// The value of a number.
pub open spec fn big_value(s: Seq<u32>) -> nat {
    prefix_value(s, s.len())
}

/// The lowest limbs alone decide the value of a prefix.
pub proof fn lemma_prefix_agrees(s: Seq<u32>, t: Seq<u32>, i: nat)
    requires
        forall|j: int| 0 <= j < i ==> limb(s, j) == limb(t, j),
    ensures
        prefix_value(s, i) == prefix_value(t, i),
    decreases i,
{
    if i > 0 {
        lemma_prefix_agrees(s, t, (i - 1) as nat);
    }
}

/// A prefix of `i` limbs is below `2^(32 i)`.
pub proof fn lemma_prefix_bound(s: Seq<u32>, i: nat)
    ensures
        prefix_value(s, i) < pow2(32 * i),
    decreases i,
{
    if i == 0 {
        lemma_pow2_zero();
    } else {
        lemma_prefix_bound(s, (i - 1) as nat);
        let below = pow2((32 * (i - 1)) as nat);
        lemma_pow2_adds(32, (32 * (i - 1)) as nat);
        lemma2_to64();
        assert(limb(s, i - 1) * below + below <= 0x1_0000_0000 * below) by (nonlinear_arith)
            requires
                limb(s, i - 1) < 0x1_0000_0000,
                below >= 0,
        ;
    }
}

/// Limbs above the last add nothing.
pub proof fn lemma_prefix_beyond(s: Seq<u32>, i: nat)
    requires
        i >= s.len(),
    ensures
        prefix_value(s, i) == big_value(s),
    decreases i,
{
    if i > s.len() {
        lemma_prefix_beyond(s, (i - 1) as nat);
        assert(limb(s, i - 1) * pow2((32 * (i - 1)) as nat) == 0) by (nonlinear_arith)
            requires
                limb(s, i - 1) == 0,
        ;
    }
}

/// One more limb on top adds that limb, times its place.
pub proof fn lemma_push(s: Seq<u32>, x: u32)
    ensures
        big_value(s.push(x)) == big_value(s) + x * pow2(32 * s.len()),
{
    let t = s.push(x);
    lemma_prefix_agrees(s, t, s.len());
    assert(limb(t, s.len() as int) == x);
}

/// The number `a`.
pub fn big_from(a: u32) -> (r: Vec<u32>)
    ensures
        big_value(r@) == a,
{
    let mut r: Vec<u32> = Vec::new();
    proof {
        lemma_push(r@, a);
        lemma_pow2_zero();
        assert(a * pow2(0) == a) by (nonlinear_arith)
            requires
                pow2(0) == 1,
        ;
    }
    r.push(a);
    r
}

/// The number `v * m + a`.
pub fn mul_add(v: &Vec<u32>, m: u32, a: u32) -> (r: Vec<u32>)
    ensures
        big_value(r@) == big_value(v@) * m + a,
{
    let mut out: Vec<u32> = Vec::new();
    let mut carry: u64 = a as u64;
    let mut i: usize = 0;
    proof {
        lemma_pow2_zero();
        assert(carry * pow2(0) == a && big_value(out@) == 0 && prefix_value(v@, 0) * m == 0) by (nonlinear_arith)
            requires
                pow2(0) == 1,
                carry == a,
                big_value(out@) == 0,
                prefix_value(v@, 0) == 0,
        ;
    }
    while i < v.len()
        invariant
            i <= v.len(),
            out@.len() == i,
            carry < 0x1_0000_0000,
            big_value(out@) + carry * pow2((32 * i) as nat) == prefix_value(v@, i as nat) * m + a,
        decreases v.len() - i,
    {
        assert((v[i as int] as u64) * (m as u64) + carry <= 0xffff_ffff_0000_0000) by (nonlinear_arith)
            requires
                v[i as int] <= 0xffff_ffff,
                m <= 0xffff_ffff,
                carry < 0x1_0000_0000,
        ;
        let t: u64 = (v[i] as u64) * (m as u64) + carry;
        let low: u32 = (t % 0x1_0000_0000) as u32;
        let high: u64 = t / 0x1_0000_0000;
        proof {
            let place = pow2((32 * i) as nat);
            lemma_push(out@, low);
            lemma_pow2_adds(32, (32 * i) as nat);
            lemma2_to64();
            assert(limb(v@, i as int) == v[i as int]);
            assert(big_value(out@) + low * place + high * (0x1_0000_0000 * place) == (prefix_value(v@, i as nat)
                + v[i as int] * place) * m + a) by (nonlinear_arith)
                requires
                    big_value(out@) + carry * place == prefix_value(v@, i as nat) * m + a,
                    t == v[i as int] * m + carry,
                    t == low + 0x1_0000_0000 * high,
            ;
        }
        out.push(low);
        carry = high;
        i = i + 1;
    }
    proof {
        lemma_push(out@, carry as u32);
    }
    out.push(carry as u32);
    out
}

/// The number `v * 2^k`.
pub fn shift_left(v: &Vec<u32>, k: usize) -> (r: Vec<u32>)
    ensures
        big_value(r@) == big_value(v@) * pow2(k as nat),
{
    let whole: usize = k / 32;
    let bits: u32 = (k % 32) as u32;
    let mut out: Vec<u32> = Vec::new();
    let mut i: usize = 0;
    while i < whole
        invariant
            i <= whole,
            out@.len() == i,
            big_value(out@) == 0,
        decreases whole - i,
    {
        proof {
            lemma_push(out@, 0);
            assert(0 * pow2(32 * out@.len()) == 0) by (nonlinear_arith);
        }
        out.push(0);
        i = i + 1;
    }
    let mut j: usize = 0;
    proof {
        assert(prefix_value(v@, 0) * pow2((32 * whole) as nat) == 0) by (nonlinear_arith)
            requires
                prefix_value(v@, 0) == 0,
        ;
    }
    while j < v.len()
        invariant
            j <= v.len(),
            out@.len() == whole + j,
            big_value(out@) == prefix_value(v@, j as nat) * pow2((32 * whole) as nat),
        decreases v.len() - j,
    {
        proof {
            lemma_push(out@, v[j as int]);
            lemma_pow2_adds((32 * j) as nat, (32 * whole) as nat);
            assert(limb(v@, j as int) == v[j as int]);
            assert((prefix_value(v@, j as nat) + v[j as int] * pow2((32 * j) as nat)) * pow2((32 * whole) as nat)
                == prefix_value(v@, j as nat) * pow2((32 * whole) as nat) + v[j as int] * pow2(
                (32 * (whole + j)) as nat,
            )) by (nonlinear_arith)
                requires
                    pow2((32 * (whole + j)) as nat) == pow2((32 * j) as nat) * pow2((32 * whole) as nat),
            ;
        }
        out.push(v[j]);
        j = j + 1;
    }
    let factor: u32 = crate::bits::pow2_u128(bits) as u32;
    proof {
        lemma2_to64();
        lemma_pow2_increases(bits as nat, 31);
        lemma_pow2_adds((32 * whole) as nat, bits as nat);
        assert(big_value(v@) * pow2((32 * whole) as nat) * pow2(bits as nat) == big_value(v@) * pow2(k as nat))
            by (nonlinear_arith)
            requires
                pow2(k as nat) == pow2((32 * whole) as nat) * pow2(bits as nat),
        ;
    }
    mul_add(&out, factor, 0)
}

/// The difference `a - b` where `a` is at least `b`, and whether it is.
pub fn sub_checked(a: &Vec<u32>, b: &Vec<u32>) -> (r: (Vec<u32>, bool))
    ensures
        r.1 == (big_value(a@) >= big_value(b@)),
        r.1 ==> big_value(r.0@) == big_value(a@) - big_value(b@),
{
    let n: usize = if a.len() >= b.len() {
        a.len()
    } else {
        b.len()
    };
    let mut out: Vec<u32> = Vec::new();
    let mut borrow: bool = false;
    let mut i: usize = 0;
    proof {
        lemma_pow2_zero();
    }
    while i < n
        invariant
            i <= n,
            n >= a.len(),
            n >= b.len(),
            out@.len() == i,
            prefix_value(a@, i as nat) + (if borrow {
                pow2((32 * i) as nat)
            } else {
                0
            }) == prefix_value(b@, i as nat) + big_value(out@),
        decreases n - i,
    {
        let x: i64 = if i < a.len() {
            a[i] as i64
        } else {
            0
        };
        let y: i64 = if i < b.len() {
            b[i] as i64
        } else {
            0
        };
        let t: i64 = x - y - (if borrow {
            1i64
        } else {
            0i64
        });
        let low: u32 = if t < 0 {
            (t + 0x1_0000_0000) as u32
        } else {
            t as u32
        };
        proof {
            let place = pow2((32 * i) as nat);
            lemma_push(out@, low);
            lemma_pow2_adds(32, (32 * i) as nat);
            lemma2_to64();
            assert(limb(a@, i as int) == x && limb(b@, i as int) == y);
            assert(pow2((32 * (i + 1)) as nat) == 0x1_0000_0000 * place);
            assert(x * place + (if borrow {
                place
            } else {
                0
            }) + (if t < 0 {
                0x1_0000_0000 * place
            } else {
                0
            }) == y * place + low * place + (if borrow {
                2 * place
            } else {
                0
            })) by (nonlinear_arith)
                requires
                    t == x - y - (if borrow {
                        1int
                    } else {
                        0int
                    }),
                    low == if t < 0 {
                        t + 0x1_0000_0000
                    } else {
                        t as int
                    },
            ;
        }
        out.push(low);
        borrow = t < 0;
        i = i + 1;
    }
    proof {
        lemma_prefix_beyond(a@, n as nat);
        lemma_prefix_beyond(b@, n as nat);
        lemma_prefix_bound(a@, n as nat);
        lemma_prefix_bound(b@, n as nat);
        lemma_prefix_bound(out@, n as nat);
    }
    (out, !borrow)
}

/// Whether a number is zero.
pub fn is_zero(v: &Vec<u32>) -> (r: bool)
    ensures
        r == (big_value(v@) == 0),
{
    let mut i: usize = 0;
    while i < v.len()
        invariant
            i <= v.len(),
            prefix_value(v@, i as nat) == 0,
        decreases v.len() - i,
    {
        if v[i] != 0 {
            proof {
                assert(limb(v@, i as int) == v[i as int]);
                lemma_pow2_pos((32 * i) as nat);
                assert(v[i as int] * pow2((32 * i) as nat) > 0) by (nonlinear_arith)
                    requires
                        v[i as int] > 0,
                        pow2((32 * i) as nat) > 0,
                ;
                lemma_prefix_grows(v@, (i + 1) as nat, v@.len());
            }
            return false;
        }
        proof {
            assert(limb(v@, i as int) == 0);
            assert(0 * pow2((32 * i) as nat) == 0) by (nonlinear_arith);
        }
        i = i + 1;
    }
    true
}

/// A longer prefix is at least a shorter one.
pub proof fn lemma_prefix_grows(s: Seq<u32>, i: nat, j: nat)
    requires
        i <= j,
    ensures
        prefix_value(s, i) <= prefix_value(s, j),
    decreases j - i,
{
    if i < j {
        lemma_prefix_grows(s, i, (j - 1) as nat);
    }
}

/// The number of binary digits of a number.
pub fn big_bit_len(v: &Vec<u32>) -> (r: u128)
    ensures
        r == bit_length(big_value(v@)),
        r <= 32 * v@.len(),
        r < 0x20_0000_0000_0000_0000,
{
    let mut top: usize = v.len();
    proof {
        lemma_prefix_beyond(v@, v@.len());
    }
    while top > 0 && v[top - 1] == 0
        invariant
            top <= v.len(),
            prefix_value(v@, top as nat) == big_value(v@),
        decreases top,
    {
        proof {
            assert(limb(v@, top - 1) == 0);
            assert(0 * pow2((32 * (top - 1)) as nat) == 0) by (nonlinear_arith);
        }
        top = top - 1;
    }
    if top == 0 {
        return 0;
    }
    let high: u32 = v[top - 1];
    let bl: u32 = bit_len(high as u128);
    proof {
        let place = pow2((32 * (top - 1)) as nat);
        let value = big_value(v@);
        lemma2_to64();
        if bl > 32 {
            lemma_pow2_increases(32, (bl - 1) as nat);
        }
        lemma_prefix_bound(v@, (top - 1) as nat);
        assert(limb(v@, top - 1) == high);
        lemma_pow2_adds((bl - 1) as nat, (32 * (top - 1)) as nat);
        lemma_pow2_adds(bl as nat, (32 * (top - 1)) as nat);
        assert(pow2((bl - 1) as nat) * place <= value < pow2(bl as nat) * place) by (nonlinear_arith)
            requires
                value == prefix_value(v@, (top - 1) as nat) + high * place,
                prefix_value(v@, (top - 1) as nat) < place,
                pow2((bl - 1) as nat) <= high,
                high + 1 <= pow2(bl as nat),
        ;
        crate::bits::lemma_bit_length_unique(value, (bl - 1 + 32 * (top - 1)) as nat);
    }
    32 * ((top - 1) as u128) + bl as u128
}

/// The quotient of two numbers that is known to be below `2^28`, and whether the
/// division leaves anything.
pub fn quotient_small(a: &Vec<u32>, b: &Vec<u32>) -> (r: (u32, bool))
    requires
        big_value(b@) > 0,
        big_value(a@) < big_value(b@) * 0x1000_0000,
    ensures
        r.0 == big_value(a@) / big_value(b@),
        r.1 == (big_value(a@) % big_value(b@) != 0),
        r.0 < 0x1000_0000,
{
    let ghost av = big_value(a@);
    let ghost bv = big_value(b@);
    let mut n: u32 = 0;
    let mut bit: u32 = 0x800_0000;
    let mut i: u32 = 28;
    proof {
        lemma2_to64();
        assert(0 * bv == 0) by (nonlinear_arith);
    }
    while i > 0
        invariant
            i <= 28,
            av == big_value(a@),
            bv == big_value(b@),
            bv > 0,
            i > 0 ==> bit == pow2((i - 1) as nat),
            n + pow2(i as nat) <= 0x1000_0000,
            n * bv <= av < (n + pow2(i as nat)) * bv,
        decreases i,
    {
        proof {
            lemma2_to64();
            vstd::arithmetic::power2::lemma_pow2_unfold(i as nat);
        }
        let c: u32 = n + bit;
        let product = mul_add(b, c, 0);
        let (_, fits) = sub_checked(a, &product);
        proof {
            assert(bv * c == c * bv) by (nonlinear_arith);
        }
        if fits {
            n = c;
        }
        i = i - 1;
        if i > 0 {
            proof {
                vstd::arithmetic::power2::lemma_pow2_unfold(i as nat);
            }
            bit = bit / 2;
        }
    }
    let product = mul_add(b, n, 0);
    let (rest, _) = sub_checked(a, &product);
    let exact = is_zero(&rest);
    proof {
        lemma_pow2_zero();
        assert(bv * n == n * bv && (n + 1) * bv == n * bv + bv) by (nonlinear_arith);
        vstd::arithmetic::div_mod::lemma_fundamental_div_mod_converse(
            av as int,
            bv as int,
            n as int,
            av - n * bv,
        );
    }
    (n, !exact)
}

} // verus!
