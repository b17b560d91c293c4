use touchhle::numeric::digits::chars_of;
use touchhle::numeric::float::{
    byte_to_float, fixed_to_float, float_to_fixed, float_to_int, float_to_uint, int_to_float,
    parse_f32,
};

fn parse(text: &str) -> Option<u32> {
    parse_f32(&chars_of(text))
}

#[test]
fn decimal_text_rounds_like_the_compiler_does() {
    for text in [
        "0", "-0", "1", "-1", "0.1", "3.14159265358979", "16777217", "16777219", "1e-45", "7e-46",
        "1.1754943e-38", "1.17549421e-38", "3.4028235e38", "3.40282356e38", "123456789012345678901234567890",
        "0.000000000000000000000000000000000000000000001", "1e38", "-2.5E-3", "+7", ".5", "5.", "1e0010",
        "9007199791611905e-3", "1e-60", "0e999999999999999999999999", "33554435e0", "8388608.5", "8388609.5",
    ] {
        let expected = text.parse::<f32>().unwrap();
        assert_eq!(parse(text), Some(expected.to_bits()), "{text}");
    }
}

#[test]
fn what_is_no_finite_number_is_rejected() {
    for text in [
        "", ".", "-", "+", "e5", "1e", "1e+", "1.2.3", "1e5e5", "nan", "inf", "infinity", "0x1", " 1", "1 ",
        "1e39", "3.40282357e38", "1e1000000000000000000000000000000000000000", "--1", "1_000",
    ] {
        assert_eq!(parse(text), None, "{text}");
    }
}

#[test]
fn conversions_match_casts() {
    for value in [0, 1, -1, 16_777_217, -16_777_217, i32::MAX, i32::MIN, 255, 33_554_431] {
        assert_eq!(int_to_float(value), (value as f32).to_bits(), "{value}");
        let fixed = (value as f64 / 65536.0) as f32;
        assert_eq!(fixed_to_float(value), fixed.to_bits(), "{value}");
    }
    for value in 0..=255u8 {
        assert_eq!(byte_to_float(value), (value as f32 / 255.0).to_bits(), "{value}");
    }
    for value in [
        0.0f32, -0.0, 0.99, -0.99, 1.0, -1.5, 65535.9, 2147483520.0, 2147483648.0, -2147483648.0, -3e9, 3e9,
        4294967040.0, 5e9, 1e-40, f32::MAX, f32::MIN, f32::INFINITY, f32::NEG_INFINITY, f32::NAN, -f32::NAN,
        32767.5, -32768.0, 0.5, 1.0e-5,
    ] {
        assert_eq!(float_to_int(value.to_bits()), value as i32, "{value}");
        assert_eq!(float_to_uint(value.to_bits()), value as u32, "{value}");
        assert_eq!(float_to_fixed(value.to_bits()), (value as f64 * 65536.0) as i32, "{value}");
    }
}
