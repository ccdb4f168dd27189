use lightning_explorer::float_text::render_number;

fn shown(x: f64) -> String {
    render_number(x.to_bits())
}

#[test]
fn numbers_render_with_six_decimals() {
    assert_eq!(shown(3.14159265359), "3.141593");
    assert_eq!(shown(2.5), "2.500000");
    assert_eq!(shown(0.001), "0.001000");
    assert_eq!(shown(0.0), "0.000000");
    assert_eq!(shown(1.0), "1.000000");
    assert_eq!(shown(-1.5), "-1.500000");
    assert_eq!(shown(123456789.123456789), "123456789.123457");
    assert_eq!(shown(0.3), "0.300000");
    assert_eq!(shown(1e21), "1000000000000000000000.000000");
}

#[test]
fn a_tie_is_rounded_to_the_even_millionth() {
    // 1/128 is 7812.5 millionths, 3/128 is 23437.5.
    assert_eq!(shown(0.0078125), "0.007812");
    assert_eq!(shown(0.0234375), "0.023438");
    assert_eq!(shown(-0.0078125), "-0.007812");
    assert_eq!(shown(0.0000005), "0.000000");
    assert_eq!(shown(0.0000015), "0.000002");
}

#[test]
fn the_sign_is_shown_even_where_the_digits_are_all_zero() {
    assert_eq!(shown(-0.0), "-0.000000");
    assert_eq!(shown(-1e-9), "-0.000000");
    assert_eq!(shown(1e-9), "0.000000");
    assert_eq!(shown(5e-324), "0.000000");
    assert_eq!(shown(-5e-324), "-0.000000");
}

#[test]
fn what_is_no_finite_number_is_named() {
    assert_eq!(shown(f64::NAN), "NaN");
    assert_eq!(shown(-f64::NAN), "NaN");
    assert_eq!(shown(f64::INFINITY), "inf");
    assert_eq!(shown(f64::NEG_INFINITY), "-inf");
}

#[test]
fn rendering_agrees_with_the_standard_formatter() {
    let mut samples: Vec<f64> = vec![
        0.0,
        -0.0,
        0.5,
        0.25,
        0.1,
        0.2,
        0.7,
        1.0 / 3.0,
        2.0 / 3.0,
        9.9999995,
        9.99999949999,
        0.9999995,
        0.99999949,
        0.9999994999999999,
        999999.9999995,
        1e-6,
        1e-7,
        4.9e-7,
        5.1e-7,
        1.5e-6,
        2.5e-6,
        1e15,
        1e16,
        1e17,
        4503599627370496.0,
        4503599627370497.0,
        9007199254740992.0,
        9007199254740993.0,
        18014398509481984.0,
        1.8446744073709552e19,
        3.4028236692093846e38,
        1e100,
        1e200,
        1e300,
        1.7976931348623157e308,
        f64::MAX,
        f64::MIN,
        f64::MIN_POSITIVE,
        f64::EPSILON,
        2.2250738585072009e-308,
        123456.654321,
        0.000123456789,
        1234567890.0987654321,
        core::f64::consts::PI,
        core::f64::consts::E,
        f64::NAN,
        f64::INFINITY,
        f64::NEG_INFINITY,
    ];
    for k in 0..40 {
        samples.push((2 * k + 1) as f64 / 128.0);
        samples.push((2 * k + 1) as f64 * 15625.0 / 2000000.0);
        samples.push(1.0 / (k as f64 + 1.0));
        samples.push(10f64.powi(k - 20));
        samples.push(2f64.powi(k * 25));
        samples.push(2f64.powi(-k * 5));
        samples.push(1.0 + k as f64 * 1e-7);
    }
    // A walk through bit patterns of every scale.
    let mut bits: u64 = 0x0000_0000_0000_0001;
    for _ in 0..4000 {
        samples.push(f64::from_bits(bits));
        samples.push(f64::from_bits(bits | 0x8000_0000_0000_0000));
        bits = bits.wrapping_mul(6364136223846793005).wrapping_add(1442695040888963407) >> 1;
    }
    for exponent in 0..2048u64 {
        samples.push(f64::from_bits(exponent << 52));
        samples.push(f64::from_bits((exponent << 52) | 0x000f_ffff_ffff_ffff));
        samples.push(f64::from_bits((exponent << 52) | 0x0008_0000_0000_0001));
    }
    for x in samples {
        assert_eq!(shown(x), format!("{:.6}", x), "{:e} ({:#x})", x, x.to_bits());
    }
}
