use pdfextend::{color_parser, Color, ValidationError};

#[test]
fn three_digit_color_replicates_nibbles() {
    assert_eq!(color_parser("#ABC"), Ok(Color { r: 0xAA, g: 0xBB, b: 0xCC }));
}

#[test]
fn one_digit_color_is_grayscale_nibble_shifted() {
    assert_eq!(color_parser("F"), Ok(Color { r: 0xF0, g: 0xF0, b: 0xF0 }));
}

#[test]
fn two_digit_color_is_grayscale_byte() {
    assert_eq!(color_parser("a0"), Ok(Color { r: 0xA0, g: 0xA0, b: 0xA0 }));
}

#[test]
fn six_digit_color_is_rgb_triple() {
    assert_eq!(color_parser("112233"), Ok(Color { r: 0x11, g: 0x22, b: 0x33 }));
}

#[test]
fn five_digit_color_is_rejected() {
    let e = color_parser("#12345").unwrap_err();
    assert_eq!(e, ValidationError::InvalidColor);
    assert_eq!(e.message(), "Invalid color");
}

#[test]
fn empty_color_is_rejected() {
    assert_eq!(color_parser(""), Err(ValidationError::InvalidColor));
    assert_eq!(color_parser("#"), Err(ValidationError::InvalidColor));
}

#[test]
fn non_hex_digits_are_rejected() {
    let e = color_parser("xyz").unwrap_err();
    assert_eq!(e, ValidationError::InvalidHexDigit);
    assert_eq!(e.message(), "Not a valid hexadecimal number");
}

#[test]
fn every_leading_hash_is_stripped() {
    assert_eq!(color_parser("##ABC"), Ok(Color { r: 0xAA, g: 0xBB, b: 0xCC }));
}

#[test]
fn mixed_case_digits_are_accepted() {
    assert_eq!(color_parser("#aAbBcC"), Ok(Color { r: 0xAA, g: 0xBB, b: 0xCC }));
}

#[test]
fn black_and_white_parse() {
    assert_eq!(color_parser("0"), Ok(Color { r: 0, g: 0, b: 0 }));
    assert_eq!(color_parser("ff"), Ok(Color { r: 0xFF, g: 0xFF, b: 0xFF }));
}

#[test]
fn default_color_formats_back_to_hex() {
    let c = Color { r: 0xF0, g: 0xF0, b: 0xF0 };
    assert_eq!(c.to_hex(), "#F0F0F0");
}

#[test]
fn hex_round_trip() {
    let c = color_parser("#1a2b3c").unwrap();
    assert_eq!(c.to_hex(), "#1A2B3C");
    assert_eq!(color_parser(&c.to_hex()), Ok(c));
}
