// Binary32 arithmetic on bit patterns, held against the machine's own.

use tea_sir::double::F64;
use tea_sir::single::{round_to_magnitude, F32};

fn next(state: &mut u64) -> u64 {
    let mut x = *state;
    x ^= x << 13;
    x ^= x >> 7;
    x ^= x << 17;
    *state = x;
    x
}

const SPECIAL: [u32; 24] = [
    0x0000_0000, 0x8000_0000, 0x0000_0001, 0x8000_0001, 0x007f_ffff, 0x0080_0000, 0x0080_0001,
    0x3f80_0000, 0xbf80_0000, 0x3f7f_ffff, 0x3f80_0001, 0x4000_0000, 0x3f00_0000, 0x7f7f_ffff,
    0xff7f_ffff, 0x7f80_0000, 0xff80_0000, 0x7fc0_0000, 0xffc0_0000, 0x7f80_0001, 0x4b00_0000,
    0x4b7f_ffff, 0x4b80_0000, 0x3400_0000,
];

// A pattern: a special one, any one, or one with an exponent near `near`.
fn pattern(state: &mut u64, near: u32) -> u32 {
    let r = next(state);
    let pick = r % 8;
    let bits = (r >> 8) as u32;
    if pick == 0 {
        SPECIAL[((r >> 40) % 24) as usize]
    } else if pick < 4 {
        bits
    } else {
        let exp = (near >> 23) & 0xff;
        let shift = ((r >> 40) % 61) as i64 - 30;
        let mut e = exp as i64 + shift;
        if e < 0 {
            e = 0;
        }
        if e > 254 {
            e = 254;
        }
        (bits & 0x807f_ffff) | ((e as u32) << 23)
    }
}

fn same(expected: f32, got: F32) -> bool {
    if expected.is_nan() {
        got.is_nan()
    } else {
        expected.to_bits() == got.to_bits()
    }
}

fn num(x: f32) -> F32 {
    F32::from_bits(x.to_bits())
}

#[test]
fn add_agrees_with_the_machine() {
    let mut state = 0x1234_5678_9abc_def1u64;
    for _ in 0..200_000 {
        let a = pattern(&mut state, 0x3f80_0000);
        let b = pattern(&mut state, a);
        let (x, y) = (f32::from_bits(a), f32::from_bits(b));
        let got = F32::from_bits(a).add(F32::from_bits(b));
        assert!(same(x + y, got), "{:08x} + {:08x}: {:08x} / {:08x}", a, b, (x + y).to_bits(), got.to_bits());
    }
}

#[test]
fn sub_agrees_with_the_machine() {
    let mut state = 0x0fed_cba9_8765_4321u64;
    for _ in 0..200_000 {
        let a = pattern(&mut state, 0x3f80_0000);
        let b = pattern(&mut state, a);
        let (x, y) = (f32::from_bits(a), f32::from_bits(b));
        let got = F32::from_bits(a).sub(F32::from_bits(b));
        assert!(same(x - y, got), "{:08x} - {:08x}: {:08x} / {:08x}", a, b, (x - y).to_bits(), got.to_bits());
    }
}

#[test]
fn mul_agrees_with_the_machine() {
    let mut state = 0x2545_f491_4f6c_dd1du64;
    for _ in 0..200_000 {
        let a = pattern(&mut state, 0x3f80_0000);
        let b = pattern(&mut state, 0x3f80_0000);
        let (x, y) = (f32::from_bits(a), f32::from_bits(b));
        let got = F32::from_bits(a).mul(F32::from_bits(b));
        assert!(same(x * y, got), "{:08x} * {:08x}: {:08x} / {:08x}", a, b, (x * y).to_bits(), got.to_bits());
    }
}

#[test]
fn div_agrees_with_the_machine() {
    let mut state = 0x9e37_79b9_7f4a_7c15u64;
    for _ in 0..200_000 {
        let a = pattern(&mut state, 0x3f80_0000);
        let b = pattern(&mut state, 0x3f80_0000);
        let (x, y) = (f32::from_bits(a), f32::from_bits(b));
        let got = F32::from_bits(a).div(F32::from_bits(b));
        assert!(same(x / y, got), "{:08x} / {:08x}: {:08x} / {:08x}", a, b, (x / y).to_bits(), got.to_bits());
    }
}

#[test]
fn sqrt_agrees_with_the_machine_and_with_libm() {
    let mut state = 0xdead_beef_cafe_f00du64;
    for _ in 0..100_000 {
        let a = pattern(&mut state, 0x3f80_0000);
        let x = f32::from_bits(a);
        let got = F32::from_bits(a).sqrt();
        assert!(same(x.sqrt(), got), "sqrt {:08x}: {:08x} / {:08x}", a, x.sqrt().to_bits(), got.to_bits());
        assert!(same(libm::sqrtf(x), got));
    }
}

#[test]
fn comparisons_agree_with_the_machine() {
    let mut state = 0x1357_9bdf_0246_8aceu64;
    for _ in 0..200_000 {
        let a = pattern(&mut state, 0x3f80_0000);
        let b = pattern(&mut state, a);
        let (x, y) = (f32::from_bits(a), f32::from_bits(b));
        let (p, q) = (F32::from_bits(a), F32::from_bits(b));
        assert_eq!(x == y, p == q);
        assert_eq!(x != y, p != q);
        assert_eq!(x < y, p.lt(q));
        assert_eq!(x <= y, p.le(q));
        assert_eq!(x > y, p.gt(q));
        assert_eq!(x >= y, p.ge(q));
        assert_eq!(x.total_cmp(&y) == std::cmp::Ordering::Less, p.total_lt(q));
        assert_eq!(x.is_nan(), p.is_nan());
        assert_eq!(x.is_infinite(), p.is_infinite());
        assert_eq!(x.is_finite(), p.is_finite());
        assert_eq!(x.is_sign_negative(), p.is_sign_negative());
        assert_eq!((-x).to_bits(), p.neg().to_bits());
    }
}

#[test]
fn floor_agrees_with_libm_and_the_cast() {
    let mut state = 0x0bad_c0de_1234_5678u64;
    for _ in 0..200_000 {
        let a = pattern(&mut state, 0x4b00_0000);
        let x = f32::from_bits(a);
        assert_eq!(libm::floorf(x) as i32, F32::from_bits(a).floor_to_i32(), "floor {:08x}", a);
    }
    assert_eq!(num(-0.5).floor_to_i32(), -1);
    assert_eq!(num(-1.0).floor_to_i32(), -1);
    assert_eq!(num(1.999).floor_to_i32(), 1);
    assert_eq!(num(-0.0).floor_to_i32(), 0);
    assert_eq!(num(3.0e9).floor_to_i32(), i32::MAX);
    assert_eq!(num(-3.0e9).floor_to_i32(), i32::MIN);
    assert_eq!(num(f32::NAN).floor_to_i32(), 0);
}

#[test]
fn sizes_convert_as_the_cast_does() {
    let mut state = 0x7777_1111_3333_5555u64;
    for _ in 0..100_000 {
        let r = next(&mut state);
        let n = (r >> (r % 64)) as usize;
        assert_eq!((n as f32).to_bits(), F32::from_usize(n).to_bits(), "{}", n);
    }
    assert_eq!(F32::from_usize(0).to_bits(), 0);
    assert_eq!(F32::from_usize(640).to_bits(), 640f32.to_bits());
    assert_eq!(F32::from_usize(16_777_217).to_bits(), 16_777_216f32.to_bits());
    assert_eq!(F32::from_usize(16_777_219).to_bits(), 16_777_220f32.to_bits());
    assert_eq!(F32::from_usize(usize::MAX).to_bits(), (usize::MAX as f32).to_bits());
}

#[test]
fn widening_and_narrowing_agree_with_the_casts() {
    let mut state = 0x4242_4242_1717_1717u64;
    for _ in 0..200_000 {
        let a = pattern(&mut state, 0x3f80_0000);
        let x = f32::from_bits(a);
        let wide = F32::from_bits(a).to_double();
        if x.is_nan() {
            assert!(wide.is_nan());
        } else {
            assert_eq!((x as f64).to_bits(), wide.to_bits(), "widen {:08x}", a);
            assert_eq!(wide.to_single().to_bits(), a);
        }
        let d = next(&mut state);
        let d = if d % 3 == 0 {
            // near the binary32 range, where rounding and the subnormals are met
            let e = 1023 - 160 + (d >> 8) % 320;
            (d & 0x800f_ffff_ffff_ffff) | (e << 52)
        } else {
            d
        };
        let y = f64::from_bits(d);
        let narrow = F64::from_bits(d).to_single();
        if y.is_nan() {
            assert!(narrow.is_nan());
        } else {
            assert_eq!((y as f32).to_bits(), narrow.to_bits(), "narrow {:016x}", d);
        }
    }
}

#[test]
fn a_result_that_is_no_number_is_the_quiet_pattern() {
    let inf = num(f32::INFINITY);
    let zero = num(0.0);
    assert_eq!(inf.sub(inf).to_bits(), 0x7fc0_0000);
    assert_eq!(inf.mul(zero).to_bits(), 0x7fc0_0000);
    assert_eq!(zero.div(zero).to_bits(), 0x7fc0_0000);
    assert_eq!(inf.div(inf).to_bits(), 0x7fc0_0000);
    assert_eq!(num(-1.0).sqrt().to_bits(), 0x7fc0_0000);
    assert_eq!(num(1.0).div(zero).to_bits(), 0x7f80_0000);
    assert_eq!(num(-1.0).div(zero).to_bits(), 0xff80_0000);
}

#[test]
fn exact_values() {
    assert_eq!(num(1.5).add(num(2.25)).to_bits(), 3.75f32.to_bits());
    assert_eq!(num(1.0).sub(num(1.0)).to_bits(), 0);
    assert_eq!(num(-1.0).add(num(1.0)).to_bits(), 0);
    assert_eq!(num(-0.0).add(num(-0.0)).to_bits(), 0x8000_0000);
    assert_eq!(num(3.0).mul(num(-4.0)).to_bits(), (-12.0f32).to_bits());
    assert_eq!(num(1.0).div(num(3.0)).to_bits(), 0x3eaa_aaab);
    assert_eq!(num(2.0).sqrt().to_bits(), 0x3fb5_04f3);
    assert_eq!(num(9.0).sqrt().to_bits(), 3.0f32.to_bits());
    // a tie goes to the even significand
    assert_eq!(num(16_777_216.0).add(num(1.0)).to_bits(), 16_777_216f32.to_bits());
    assert_eq!(num(16_777_218.0).add(num(1.0)).to_bits(), 16_777_220f32.to_bits());
}

const WIDE_SPECIAL: [u64; 20] = [
    0x0000_0000_0000_0000, 0x8000_0000_0000_0000, 0x0000_0000_0000_0001, 0x8000_0000_0000_0001,
    0x000f_ffff_ffff_ffff, 0x0010_0000_0000_0000, 0x0010_0000_0000_0001, 0x3ff0_0000_0000_0000,
    0xbff0_0000_0000_0000, 0x3fef_ffff_ffff_ffff, 0x3ff0_0000_0000_0001, 0x4000_0000_0000_0000,
    0x7fef_ffff_ffff_ffff, 0xffef_ffff_ffff_ffff, 0x7ff0_0000_0000_0000, 0xfff0_0000_0000_0000,
    0x7ff8_0000_0000_0000, 0x7ff0_0000_0000_0001, 0x4330_0000_0000_0000, 0x433f_ffff_ffff_ffff,
];

// A binary64 pattern: a special one, any one, or one with an exponent near `near`.
fn wide_pattern(state: &mut u64, near: u64) -> u64 {
    let r = next(state);
    let bits = next(state);
    let pick = r % 8;
    if pick == 0 {
        WIDE_SPECIAL[((r >> 40) % 20) as usize]
    } else if pick < 4 {
        bits
    } else {
        let exp = (near >> 52) & 0x7ff;
        let shift = ((r >> 40) % 141) as i64 - 70;
        let mut e = exp as i64 + shift;
        if e < 0 {
            e = 0;
        }
        if e > 2046 {
            e = 2046;
        }
        (bits & 0x800f_ffff_ffff_ffff) | ((e as u64) << 52)
    }
}

fn same_wide(expected: f64, got: F64) -> bool {
    if expected.is_nan() {
        got.is_nan()
    } else {
        expected.to_bits() == got.to_bits()
    }
}

#[test]
fn binary64_sums_and_differences_agree_with_the_machine() {
    let mut state = 0x8765_4321_0fed_cba9u64;
    for _ in 0..200_000 {
        let a = wide_pattern(&mut state, 0x3ff0_0000_0000_0000);
        let b = wide_pattern(&mut state, a);
        let (x, y) = (f64::from_bits(a), f64::from_bits(b));
        let (p, q) = (F64::from_bits(a), F64::from_bits(b));
        assert!(same_wide(x + y, p.add(q)), "{:016x} + {:016x}", a, b);
        assert!(same_wide(x - y, p.sub(q)), "{:016x} - {:016x}", a, b);
    }
}

#[test]
fn binary64_products_and_quotients_agree_with_the_machine() {
    let mut state = 0x1f2e_3d4c_5b6a_7988u64;
    for _ in 0..200_000 {
        let a = wide_pattern(&mut state, 0x3ff0_0000_0000_0000);
        let b = wide_pattern(&mut state, 0x3ff0_0000_0000_0000);
        let (x, y) = (f64::from_bits(a), f64::from_bits(b));
        let (p, q) = (F64::from_bits(a), F64::from_bits(b));
        assert!(same_wide(x * y, p.mul(q)), "{:016x} * {:016x}", a, b);
        assert!(same_wide(x / y, p.div(q)), "{:016x} / {:016x}: {:016x} {:016x}", a, b, (x / y).to_bits(), p.div(q).to_bits());
    }
}

#[test]
fn binary64_roots_and_comparisons_agree_with_the_machine() {
    let mut state = 0x6a09_e667_f3bc_c908u64;
    for _ in 0..100_000 {
        let a = wide_pattern(&mut state, 0x3ff0_0000_0000_0000);
        let b = wide_pattern(&mut state, a);
        let (x, y) = (f64::from_bits(a), f64::from_bits(b));
        let (p, q) = (F64::from_bits(a), F64::from_bits(b));
        assert!(same_wide(x.sqrt(), p.sqrt()), "sqrt {:016x}: {:016x} {:016x}", a, x.sqrt().to_bits(), p.sqrt().to_bits());
        assert!(same_wide(libm::sqrt(x), p.sqrt()));
        assert_eq!(x == y, p == q);
        assert_eq!(x < y, p.lt(q));
        assert_eq!(x <= y, p.le(q));
        assert_eq!(x > y, p.gt(q));
        assert_eq!(x >= y, p.ge(q));
        assert_eq!((-x).to_bits(), p.neg().to_bits());
        assert_eq!(x.is_nan(), p.is_nan());
        assert_eq!(x.is_infinite(), p.is_infinite());
        assert_eq!(x.is_finite(), p.is_finite());
        assert_eq!(x.is_sign_negative(), p.is_sign_negative());
    }
    let wide = |x: f64| F64::from_bits(x.to_bits());
    assert_eq!(wide(2.0).sqrt().to_bits(), 2.0f64.sqrt().to_bits());
    assert_eq!(wide(1.0).div(wide(3.0)).to_bits(), (1.0f64 / 3.0).to_bits());
    assert_eq!(wide(0.1).add(wide(0.2)).to_bits(), (0.1f64 + 0.2).to_bits());
    assert_eq!(wide(0.0).div(wide(0.0)).to_bits(), 0x7ff8_0000_0000_0000);
}

#[test]
fn sums_and_products_do_not_depend_on_the_order() {
    let mut state = 0x3c3c_c3c3_a5a5_5a5au64;
    for _ in 0..100_000 {
        let a = F32::from_bits(pattern(&mut state, 0x3f80_0000));
        let b = F32::from_bits(pattern(&mut state, a.to_bits()));
        assert_eq!(a.add(b).to_bits(), b.add(a).to_bits());
        assert_eq!(a.mul(b).to_bits(), b.mul(a).to_bits());
        assert_eq!(a.neg().neg().to_bits(), a.to_bits());
        assert_eq!(a.sub(b).to_bits(), a.add(b.neg()).to_bits());
        if !a.is_nan() {
            // one times a number, and a number plus or minus zero, is the number
            assert_eq!(num(1.0).mul(a).to_bits(), a.to_bits());
            assert!(a.add(num(0.0)) == a && a.sub(num(0.0)) == a && num(-0.0).add(a) == a);
            assert!(a.le(a) && a == a);
            if !b.is_nan() {
                assert!(a.le(b) || b.le(a));
                assert_eq!(a.le(b) && b.le(a), a == b);
                assert_eq!(a.lt(b), a.le(b) && a != b);
                if a.total_lt(b) {
                    assert!(a.le(b));
                }
            }
        }
    }
}

#[test]
fn rounding_keeps_the_order_and_what_a_number_can_hold() {
    let mut state = 0x7e57_0000_0000_7e57u64;
    for _ in 0..100_000 {
        let x = next(&mut state) >> (next(&mut state) % 64);
        let y = x as u128 + (next(&mut state) >> (next(&mut state) % 64)) as u128;
        let e = (next(&mut state) % 200) as i32 - 150;
        assert!(round_to_magnitude(x as u128, e, false) <= round_to_magnitude(y, e, false));
        // a number of 24 digits is held as it is
        let m = (x >> 40) as u32 | 0x80_0000;
        let q = (next(&mut state) % 254) as i32 - 149;
        assert_eq!(round_to_magnitude(m as u128, q, false), ((q + 149) as u32) * 0x80_0000 + m);
        assert_eq!(round_to_magnitude((m as u128) << 7, q - 7, false), ((q + 149) as u32) * 0x80_0000 + m);
    }
}

#[test]
fn products_and_quotients_of_numbers_within_one_stay_within_one() {
    let mut state = 0x6931_4718_0559_9453u64;
    for _ in 0..200_000 {
        let a = F32::from_bits(pattern(&mut state, 0x3f80_0000));
        let b = F32::from_bits(pattern(&mut state, a.to_bits()));
        let (ma, mb) = (a.to_bits() & 0x7fff_ffff, b.to_bits() & 0x7fff_ffff);
        if ma <= 0x3f80_0000 && mb <= 0x3f80_0000 {
            assert!(a.mul(b).to_bits() & 0x7fff_ffff <= 0x3f80_0000);
        }
        if ma <= mb && mb != 0 && mb < 0x7f80_0000 {
            assert!(a.div(b).to_bits() & 0x7fff_ffff <= 0x3f80_0000);
        }
    }
    // the nearest pair below one
    let q = F32::from_bits(0x4b7f_ffff).div(F32::from_bits(0x4b80_0000));
    assert_eq!(q.to_bits(), 0x3f7f_ffff);
    assert_eq!(F32::from_bits(0x3f7f_ffff).mul(F32::from_bits(0x3f7f_ffff)).to_bits(), 0x3f7f_fffe);
}

#[test]
fn whole_numbers_keep_their_order() {
    let mut state = 0x1414_2135_6237_3095u64;
    for _ in 0..100_000 {
        let m = (next(&mut state) >> (next(&mut state) % 64)) as usize;
        let n = (next(&mut state) >> (next(&mut state) % 64)) as usize;
        let (lo, hi) = if m <= n { (m, n) } else { (n, m) };
        let (a, b) = (F32::from_usize(lo), F32::from_usize(hi));
        assert!(a.to_bits() <= b.to_bits());
        assert!(b.to_bits() < 0x7f80_0000);
        assert_eq!(b.to_bits() == 0, hi == 0);
    }
    assert_eq!(F32::from_usize(16_777_216).to_bits(), F32::from_usize(16_777_217).to_bits());
}

#[test]
fn sums_products_quotients_and_roots_err_by_little() {
    let mut state = 0x5772_1566_4901_5329u64;
    let u = 1.0 / 16_777_216.0f64;
    let least = f32::from_bits(1) as f64;
    let (mut sums, mut products, mut quotients, mut roots) = (0, 0, 0, 0);
    for _ in 0..300_000 {
        let a = F32::from_bits(pattern(&mut state, 0x3f80_0000));
        let b = F32::from_bits(pattern(&mut state, a.to_bits()));
        let (x, y) = (f32::from_bits(a.to_bits()) as f64, f32::from_bits(b.to_bits()) as f64);
        if !x.is_finite() || !y.is_finite() {
            continue;
        }
        // within the exponents where binary64 holds the exact results
        let near = x == 0.0 || y == 0.0 || ((x.abs() / y.abs()).log2().abs() < 28.0);
        let sum = f32::from_bits(a.add(b).to_bits()) as f64;
        if sum.is_finite() && near {
            assert!((sum - (x + y)).abs() <= u * (x + y).abs());
            sums += 1;
        }
        let product = f32::from_bits(a.mul(b).to_bits()) as f64;
        if product.is_finite() && (x * y == 0.0 || (x * y).abs() > 1e-250) {
            assert!((product - x * y).abs() <= u * (x * y).abs() + least / 2.0);
            products += 1;
        }
        let quotient = f32::from_bits(a.div(b).to_bits()) as f64;
        if quotient.is_finite() && y != 0.0 {
            assert!((quotient * y - x).abs() <= 3.0 * u * x.abs() + least * y.abs());
            quotients += 1;
        }
        if x > 0.0 {
            let root = f32::from_bits(a.sqrt().to_bits()) as f64;
            assert!((root * root - x).abs() <= 6.0 * u * x);
            roots += 1;
        }
    }
    assert!(sums > 10_000 && products > 10_000 && quotients > 10_000 && roots > 10_000);
}
