use polar_pilot::util::{
    extract_value_after, line_contains, parse_f32, parse_f32_bytes, parse_u8, Decimal,
};

fn dec(negative: bool, integer: u32, fraction: u32, fraction_digits: u32) -> Decimal {
    Decimal { negative, integer, fraction, fraction_digits }
}

#[test]
fn parses_plain_decimal() {
    assert_eq!(parse_f32("12.5"), Some(dec(false, 12, 5, 1)));
    assert_eq!(parse_f32("180"), Some(dec(false, 180, 0, 0)));
    assert_eq!(parse_f32("0.05"), Some(dec(false, 0, 5, 2)));
}

#[test]
fn parses_signs() {
    assert_eq!(parse_f32("-3.25"), Some(dec(true, 3, 25, 2)));
    assert_eq!(parse_f32("+7"), Some(dec(false, 7, 0, 0)));
    assert_eq!(parse_f32("-0"), Some(dec(true, 0, 0, 0)));
}

#[test]
fn trims_surrounding_white_space() {
    assert_eq!(parse_f32("  42 \t"), Some(dec(false, 42, 0, 0)));
    assert_eq!(parse_f32("\u{a0}12\u{3000}"), Some(dec(false, 12, 0, 0)));
    assert_eq!(parse_f32("\r\n9.5\n"), Some(dec(false, 9, 5, 1)));
}

#[test]
fn keeps_six_fraction_digits() {
    assert_eq!(parse_f32("1.2345678"), Some(dec(false, 1, 234567, 6)));
    assert_eq!(parse_f32("1.000001"), Some(dec(false, 1, 1, 6)));
    assert_eq!(parse_f32("1.2345678"), parse_f32("1.234567"));
    assert_eq!(parse_f32("12.0000009999"), parse_f32("12.000000"));
}

#[test]
fn points_on_either_side() {
    assert_eq!(parse_f32(".5"), Some(dec(false, 0, 5, 1)));
    assert_eq!(parse_f32("5."), Some(dec(false, 5, 0, 0)));
}

#[test]
fn rejects_malformed_numbers() {
    assert_eq!(parse_f32(""), None);
    assert_eq!(parse_f32("   "), None);
    assert_eq!(parse_f32("-"), None);
    assert_eq!(parse_f32("."), None);
    assert_eq!(parse_f32("1.2.3"), None);
    assert_eq!(parse_f32("12a"), None);
    assert_eq!(parse_f32("1 2"), None);
    assert_eq!(parse_f32("--1"), None);
    assert_eq!(parse_f32("- 1"), None);
}

#[test]
fn integer_part_must_fit_u32() {
    assert_eq!(parse_f32("4294967295"), Some(dec(false, 4294967295, 0, 0)));
    assert_eq!(parse_f32("4294967296"), None);
    assert_eq!(parse_f32("99999999999.5"), None);
}

#[test]
fn reads_bytes_as_utf8() {
    assert_eq!(parse_f32_bytes(b"270.0"), Some(dec(false, 270, 0, 1)));
    assert_eq!(parse_f32_bytes(b"\xc2\xa045"), Some(dec(false, 45, 0, 0)));
    assert_eq!(parse_f32_bytes(b"\xff45"), None);
    assert_eq!(parse_f32_bytes(b""), None);
}

#[test]
fn minus_sign_only_flips_the_sign() {
    let plain = parse_f32("12.75").unwrap();
    let neg = parse_f32("-12.75").unwrap();
    assert!(neg.negative && !plain.negative);
    assert_eq!(Decimal { negative: true, ..plain }, neg);
}

#[test]
fn finds_needles() {
    assert!(line_contains(b"AZ10 EL20", b"EL"));
    assert!(line_contains(b"EL", b"EL"));
    assert!(line_contains(b"abc", b""));
    assert!(!line_contains(b"AZ10", b"EL"));
    assert!(!line_contains(b"E", b"EL"));
}

#[test]
fn extracts_number_after_prefix() {
    assert_eq!(extract_value_after(b"AZ123.4 EL45", b"AZ"), Some(dec(false, 123, 4, 1)));
    assert_eq!(extract_value_after(b"AZ123.4 EL45", b"EL"), Some(dec(false, 45, 0, 0)));
    assert_eq!(extract_value_after(b"AZ EL", b"AZ"), None);
    assert_eq!(extract_value_after(b"AZ", b"AZ"), None);
    assert_eq!(extract_value_after(b"XX10", b"AZ"), None);
    assert_eq!(extract_value_after(b"AZ1.2.3", b"AZ"), None);
    assert_eq!(extract_value_after(b"AZ-5", b"AZ"), None);
    assert_eq!(extract_value_after(b"AZ7EL8", b"AZ"), Some(dec(false, 7, 0, 0)));
}

#[test]
fn parses_bytes_like_str_parse_u8() {
    assert_eq!(parse_u8(b"2"), Some(2));
    assert_eq!(parse_u8(b"+16"), Some(16));
    assert_eq!(parse_u8(b"016"), Some(16));
    assert_eq!(parse_u8(b"255"), Some(255));
    assert_eq!(parse_u8(b"256"), None);
    assert_eq!(parse_u8(b""), None);
    assert_eq!(parse_u8(b"+"), None);
    assert_eq!(parse_u8(b"-1"), None);
    assert_eq!(parse_u8(b" 2"), None);
    for v in 0u32..=255 {
        assert_eq!(parse_u8(v.to_string().as_bytes()), Some(v as u8));
    }
}

#[test]
fn fraction_divisor_is_a_power_of_ten() {
    assert_eq!(dec(false, 1, 5, 1).divisor(), 10);
    assert_eq!(dec(false, 1, 123456, 6).divisor(), 1_000_000);
    assert_eq!(dec(false, 1, 0, 0).divisor(), 1);
    assert_eq!(dec(false, 1, 0, 10).divisor(), 1_410_065_408);
}

#[test]
fn written_numbers_read_back() {
    for v in [0u32, 7, 10, 359, 4_294_967_295] {
        assert_eq!(parse_f32(&v.to_string()), Some(dec(false, v, 0, 0)));
    }
}
