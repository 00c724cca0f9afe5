// Remainders, small whole numbers, and what a frame computes beside its triangles.

use tea_sir::frame::{advance_background, advance_rotation, audio, audio_sample, background_color};
use tea_sir::raster::Srgb;
use tea_sir::single::F32;

fn next(state: &mut u64) -> u64 {
    let mut x = *state;
    x ^= x << 13;
    x ^= x >> 7;
    x ^= x << 17;
    *state = x;
    x
}

fn num(x: f32) -> F32 {
    F32::from_bits(x.to_bits())
}

fn val(x: F32) -> f32 {
    f32::from_bits(x.to_bits())
}

// Any pattern, or one with an exponent near that of `near`.
fn pattern(state: &mut u64, near: u32) -> u32 {
    let r = next(state);
    let bits = (r >> 8) as u32;
    if r % 4 == 0 {
        bits
    } else {
        let exp = (near >> 23) & 0xff;
        let shift = ((r >> 40) % 81) as i64 - 40;
        let e = (exp as i64 + shift).clamp(0, 254);
        (bits & 0x807f_ffff) | ((e as u32) << 23)
    }
}

#[test]
fn remainders_agree_with_the_machine() {
    let mut state = 0x0123_4567_89ab_cdefu64;
    for _ in 0..200_000 {
        let a = pattern(&mut state, 0x4300_0000);
        let b = pattern(&mut state, a);
        let (x, y) = (f32::from_bits(a), f32::from_bits(b));
        let got = F32::from_bits(a).rem(F32::from_bits(b));
        let expected = x % y;
        if expected.is_nan() {
            assert!(got.is_nan(), "{:08x} % {:08x}", a, b);
        } else {
            assert_eq!(expected.to_bits(), got.to_bits(), "{:08x} % {:08x}", a, b);
        }
    }
    assert_eq!(val(num(7.5).rem(num(2.0))), 1.5);
    assert_eq!(num(-7.5).rem(num(2.0)).to_bits(), (-1.5f32).to_bits());
    assert_eq!(num(-4.0).rem(num(2.0)).to_bits(), (-0.0f32).to_bits());
    assert_eq!(val(num(1.0).rem(num(f32::INFINITY))), 1.0);
    assert!(num(1.0).rem(num(0.0)).is_nan());
    assert!(num(f32::INFINITY).rem(num(2.0)).is_nan());
    assert_eq!(val(num(1e30).rem(num(3.0))), 1e30f32 % 3.0);
}

#[test]
fn whole_numbers_pass_to_and_from_numbers() {
    for n in i16::MIN..=i16::MAX {
        assert_eq!(F32::from_i16(n).to_bits(), (n as f32).to_bits());
    }
    let mut state = 0xfeed_face_dead_beefu64;
    for _ in 0..200_000 {
        let a = pattern(&mut state, 0x4300_0000);
        assert_eq!(F32::from_bits(a).to_u8(), f32::from_bits(a) as u8, "{:08x}", a);
    }
    assert_eq!(num(255.9).to_u8(), 255);
    assert_eq!(num(256.0).to_u8(), 255);
    assert_eq!(num(-0.9).to_u8(), 0);
    assert_eq!(num(0.9).to_u8(), 0);
    assert_eq!(num(f32::NAN).to_u8(), 0);
    assert_eq!(num(f32::INFINITY).to_u8(), 255);
}

#[test]
fn the_recording_goes_round() {
    let recording: Vec<i16> = vec![100, -200, 300];
    let mut cursor = 1usize;
    let played = audio(&recording, &mut cursor, 7);
    assert_eq!(played.len(), 7);
    // the last sample played was the one at 1
    assert_eq!(cursor, 2);
    for (k, p) in played.iter().enumerate() {
        let raw = recording[(1 + k) % 3];
        assert_eq!(p.to_bits(), (raw as f32 / i16::MAX as f32 * 0.0).to_bits());
    }
    let played = audio(&recording, &mut cursor, 2);
    assert_eq!((played.len(), cursor), (2, 1));
    // a cursor at the end starts over
    let mut end = 3usize;
    let played = audio(&recording, &mut end, 1);
    assert_eq!((played.len(), end), (1, 1));
    let mut far = 10usize;
    assert_eq!(audio(&recording, &mut far, 0).len(), 0);
    assert_eq!(far, 10);
    // where no sample is asked for, nothing is read, not even of an empty recording
    let mut idle = 4usize;
    assert_eq!(audio(&Vec::new(), &mut idle, 0).len(), 0);
    assert_eq!(idle, 4);
    assert_eq!(val(audio_sample(16_384, num(0.5))), 16_384.0f32 / 32_767.0 * 0.5);
    assert_eq!(val(audio_sample(-32_768, num(1.0))), -32_768.0f32 / 32_767.0);
}

#[test]
fn the_backdrop_drifts_and_the_table_turns() {
    assert_eq!(val(advance_background(num(250.0), num(0.5))), (250.0f32 + 0.5 * 50.0) % 255.0);
    assert_eq!(val(advance_background(num(10.0), num(0.016))), (10.0f32 + 0.016 * 50.0) % 255.0);
    assert_eq!(
        background_color(300, 7, num(12.5)),
        Srgb { r: ((300.0f32 + 12.5) % 255.0) as u8, g: 0, b: ((7.0f32 + 12.5) % 255.0) as u8, a: 255 }
    );
    assert_eq!(val(advance_rotation(num(6.2), num(0.2))), (6.2f32 + 0.2) % core::f32::consts::TAU);
    assert_eq!(val(advance_rotation(num(1.0), num(0.25))), 1.25);
}
