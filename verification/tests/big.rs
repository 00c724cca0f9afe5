// Whole numbers of any size, held against the machine's widest.

use tea_sir::big::{big_bit_len, big_from, is_zero, mul_add, quotient_small, shift_left, sub_checked};
use tea_sir::bits::{bit_len, pow2_u128};
use tea_sir::single::{integer_sqrt_u128, round_to_magnitude};

fn next(state: &mut u64) -> u64 {
    let mut x = *state;
    x ^= x << 13;
    x ^= x >> 7;
    x ^= x << 17;
    *state = x;
    x
}

fn big(mut n: u128) -> Vec<u32> {
    let mut limbs = Vec::new();
    while n > 0 {
        limbs.push(n as u32);
        n >>= 32;
    }
    limbs
}

fn small(limbs: &[u32]) -> u128 {
    let mut n = 0u128;
    for (i, l) in limbs.iter().enumerate() {
        if *l != 0 {
            assert!(i < 4);
            n |= (*l as u128) << (32 * i);
        }
    }
    n
}

#[test]
fn sums_products_shifts_and_differences() {
    let mut state = 0x1234_0000_ffff_4321u64;
    for _ in 0..20_000 {
        let a = (next(&mut state) as u128) << (next(&mut state) % 32);
        let b = (next(&mut state) as u128) >> (next(&mut state) % 64);
        let m = next(&mut state) as u32;
        let c = next(&mut state) as u32;
        assert_eq!(small(&mul_add(&big(a), m, c)), a * m as u128 + c as u128);
        let k = (next(&mut state) % 32) as usize;
        assert_eq!(small(&shift_left(&big(a), k)), a << k);
        let (d, fits) = sub_checked(&big(a), &big(b));
        assert_eq!(fits, a >= b);
        if fits {
            assert_eq!(small(&d), a - b);
        }
        assert_eq!(big_bit_len(&big(a)), (128 - a.leading_zeros()) as u128);
        assert_eq!(is_zero(&big(a)), a == 0);
        assert_eq!(bit_len(a), 128 - a.leading_zeros());
    }
    assert_eq!(small(&big_from(7)), 7);
    assert!(is_zero(&vec![0, 0, 0]));
    assert_eq!(big_bit_len(&vec![5, 0, 0]), 3);
    assert_eq!(shift_left(&big(1), 100), vec![0, 0, 0, 16, 0]);
    let (_, fits) = sub_checked(&vec![0, 1], &vec![0, 0, 1]);
    assert!(!fits);
}

#[test]
fn small_quotients() {
    let mut state = 0x0f0f_3c3c_5a5a_9696u64;
    for _ in 0..20_000 {
        let b = (next(&mut state) as u128 >> (next(&mut state) % 60)) + 1;
        let q = next(&mut state) as u128 % (1 << 28);
        let r = next(&mut state) as u128 % b;
        let a = b * q + r;
        assert_eq!(quotient_small(&big(a), &big(b)), (q as u32, r != 0));
    }
}

#[test]
fn powers_roots_and_rounding() {
    for k in 0..128 {
        assert_eq!(pow2_u128(k), 1u128 << k);
    }
    let mut state = 0x4444_3333_2222_1111u64;
    for _ in 0..20_000 {
        let x = ((next(&mut state) as u128) << 62 | next(&mut state) as u128) >> (next(&mut state) % 126);
        let r = integer_sqrt_u128(x);
        assert!(r * r <= x && x < (r + 1) * (r + 1));
        // a whole number rounds as the cast does
        let n = next(&mut state) >> (next(&mut state) % 64);
        assert_eq!(round_to_magnitude(n as u128, 0, false), (n as f32).to_bits());
        // with one binary place more, and with the sticky bit as a digit further out;
        // both are exact in binary64 for numbers of 40 digits
        let n = n >> 24;
        let wide = n as f64 / 2.0;
        assert_eq!(round_to_magnitude(n as u128, -1, false), (wide as f32).to_bits());
        // the sticky bit stands for digits below those of a number of 25 digits or more
        let n = n | 1 << 30;
        let beyond = n as f64 + 1.0 / 4096.0;
        assert_eq!(round_to_magnitude(n as u128, 0, true), (beyond as f32).to_bits());
    }
}
