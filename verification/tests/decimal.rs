// Decimal numbers in text, held against the standard library's reading of them.

use tea_sir::decimal::parse_decimal;
use tea_sir::single::F32;

fn next(state: &mut u64) -> u64 {
    let mut x = *state;
    x ^= x << 13;
    x ^= x >> 7;
    x ^= x << 17;
    *state = x;
    x
}

fn read(text: &str) -> Option<F32> {
    parse_decimal(text.as_bytes(), 0, text.len())
}

// The library's reading and the standard library's agree: both fail, or both give the
// same bits, or both give a NaN.
fn agree(text: &str) {
    let expected = text.parse::<f32>().ok();
    let got = read(text);
    match (expected, got) {
        (None, None) => {}
        (Some(e), Some(g)) => {
            if e.is_nan() {
                assert!(g.is_nan(), "{:?}", text);
            } else {
                assert_eq!(e.to_bits(), g.to_bits(), "{:?}", text);
            }
        }
        (e, g) => panic!("{:?}: {:?} against {:?}", text, e, g.map(|x| x.to_bits())),
    }
}

#[test]
fn chosen_numbers_are_read() {
    assert_eq!(read("1").unwrap().to_bits(), 1.0f32.to_bits());
    assert_eq!(read("-2.5").unwrap().to_bits(), (-2.5f32).to_bits());
    assert_eq!(read("0.1").unwrap().to_bits(), 0x3dcc_cccd);
    assert_eq!(read("1e10").unwrap().to_bits(), 1e10f32.to_bits());
    assert_eq!(read("3.4028235e38").unwrap().to_bits(), f32::MAX.to_bits());
    assert_eq!(read("3.4028236e38").unwrap().to_bits(), f32::INFINITY.to_bits());
    assert_eq!(read("1e-45").unwrap().to_bits(), 1);
    assert_eq!(read("7e-46").unwrap().to_bits(), 0);
    assert_eq!(read("7.1e-46").unwrap().to_bits(), 1);
    assert_eq!(read("-0").unwrap().to_bits(), 0x8000_0000);
    assert_eq!(read("inf").unwrap().to_bits(), 0x7f80_0000);
    assert_eq!(read("-Infinity").unwrap().to_bits(), 0xff80_0000);
    assert!(read("NaN").unwrap().is_nan());
    assert!(read("").is_none());
    assert!(read("1 ").is_none());
    // a tie goes to the even significand, and one digit more breaks it
    assert_eq!(read("16777217").unwrap().to_bits(), 16_777_216f32.to_bits());
    assert_eq!(read("16777219").unwrap().to_bits(), 16_777_220f32.to_bits());
    assert_eq!(read("16777217.0000000000000000000000000000000000000001").unwrap().to_bits(), 16_777_218f32.to_bits());
    // only part of the text
    assert_eq!(parse_decimal(b"v 1.5 2", 2, 5).unwrap().to_bits(), 1.5f32.to_bits());
}

#[test]
fn the_grammar_is_that_of_the_standard_library() {
    for text in [
        "", "+", "-", ".", "+.", "e", "e5", ".e5", "1e", "1e+", "1e-", "1.e5", ".5", "5.", "5.e-3", "+5", "-5",
        "++5", "+-5", "5+", "5-", "5e5e5", "5e5.5", "5.5.5", "1_000", "0x10", " 1", "1 ", "1,5", "١", "1f", "1.0f32",
        "inf", "INF", "Inf", "iNf", "infinity", "INFINITY", "Infinity", "infinit", "infinityy", "in", "+inf", "-inf",
        "+infinity", "nan", "NaN", "NAN", "+nan", "-nan", "nana", "na", "nan1", "1nan", "infnan", "e", "E", "1E5",
        "1e05", "1e+05", "1e-05", "1e0", "0e0", "0e999999999999999999999", "0e-999999999999999999999",
        "1e999999999999999999999", "1e-999999999999999999999", "-1e999999999999999999999",
        "0.0000000000000000000000000000000000000000000000000000000000001e62", "100000000000000000000e-20",
        "007", "000.000", "-000.000", "0.", ".0", "00", "1e00000000000000000000001", "9007199254740993",
        "340282346638528859811704183484516925440", "340282356779733661637539395458142568448",
        "340282356779733661637539395458142568447", "340282356779733661637539395458142568449",
        "0.000000000000000000000000000000000000000000000700649232162408535461864791644958065640130970938257885878534141944895541342930300743319094181060791015625",
        "0.000000000000000000000000000000000000000000000700649232162408535461864791644958065640130970938257885878534141944895541342930300743319094181060791015626",
        "0.000000000000000000000000000000000000000000000700649232162408535461864791644958065640130970938257885878534141944895541342930300743319094181060791015624",
        "0.00000000000000000000000000000000000001175494350822287507968736537222245677818665556772087521508751706278417259454727172851560500000000000000000000000000000000",
        "1.00000005960464477539062500000000000000000000000000000000000000000000000000000000000000000000000000000001",
        "1.000000059604644775390625", "1.00000005960464477539062499999999999999999999999999999",
        "1.00000017881393432617187500000000000000000000000000000000000000000000000000000000000000000000000000000000",
        "1.00000017881393432617187500000000000000000000000000000000000000000000000000000000000000000000000000000001",
        "1.000000178813934326171874999999999999999999999999999999999999999999999999999999999999999999999999999999",
    ] {
        agree(text);
    }
}

#[test]
fn printed_numbers_are_read_back() {
    let mut state = 0x0f1e_2d3c_4b5a_6978u64;
    for round in 0..40_000 {
        let bits = next(&mut state) as u32;
        let x = f32::from_bits(bits);
        if x.is_nan() {
            continue;
        }
        let shortest = format!("{}", x);
        agree(&shortest);
        assert_eq!(read(&shortest).unwrap().to_bits(), bits);
        agree(&format!("{:e}", x));
        agree(&format!("{:E}", x));
        if round % 8 == 0 {
            agree(&format!("{:.60}", x));
            agree(&format!("{:.20e}", x));
            // the same number in binary64, with more digits than binary32 holds
            let wide = (x as f64) * (1.0 + (next(&mut state) % 1000) as f64 * 1e-10);
            agree(&format!("{}", wide));
            agree(&format!("{:e}", wide));
        }
    }
}

#[test]
fn numbers_half_way_between_two_neighbours_go_to_the_even_one() {
    let mut state = 0x5a5a_a5a5_1234_8765u64;
    for _ in 0..3_000 {
        // two neighbours that are finite and of one sign
        let bits = (next(&mut state) as u32) & 0x7fff_ffff;
        if bits >= 0x7f7f_ffff {
            continue;
        }
        let (lo, hi) = (f32::from_bits(bits), f32::from_bits(bits + 1));
        // the middle is exact in binary64, and printed in full
        let middle = (lo as f64 + hi as f64) / 2.0;
        let text = format!("{:.400}", middle);
        let text = text.trim_end_matches('0');
        let even = if bits % 2 == 0 { bits } else { bits + 1 };
        agree(text);
        assert_eq!(read(text).unwrap().to_bits(), even, "{}", text);
        // a digit more, however far out, takes it past the middle
        let above = format!("{}00000000000000000001", text);
        agree(&above);
        assert_eq!(read(&above).unwrap().to_bits(), bits + 1);
        let negative = format!("-{}", above);
        assert_eq!(read(&negative).unwrap().to_bits(), (bits + 1) | 0x8000_0000);
    }
}

#[test]
fn digits_and_exponents_of_any_kind_are_read() {
    let mut state = 0x1029_3847_56af_bedcu64;
    let alphabet = b"0123456789.eE+-";
    for _ in 0..60_000 {
        // digits, a point somewhere, and an exponent that keeps the number near the range
        let r = next(&mut state);
        let count = 1 + (r % 30) as usize;
        let mut text = String::new();
        if r & 0x100 != 0 {
            text.push(if r & 0x200 != 0 { '-' } else { '+' });
        }
        let point = (r >> 12) as usize % (count + 2);
        for i in 0..count {
            if i == point {
                text.push('.');
            }
            text.push((b'0' + (next(&mut state) % 10) as u8) as char);
        }
        if r & 0x400 != 0 {
            let e = (next(&mut state) % 120) as i64 - 60 - count as i64 / 2;
            text.push_str(&format!("e{}", e));
        }
        agree(&text);
    }
    for _ in 0..60_000 {
        // any short string over the alphabet of numbers
        let r = next(&mut state);
        let len = (r % 9) as usize;
        let mut text = String::new();
        for _ in 0..len {
            text.push(alphabet[(next(&mut state) % alphabet.len() as u64) as usize] as char);
        }
        agree(&text);
    }
}
