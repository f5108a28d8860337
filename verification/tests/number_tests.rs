use pdfextend::{parse_length, ValidationError};

#[test]
fn negative_number_is_rejected() {
    let e = parse_length("-1").unwrap_err();
    assert_eq!(e, ValidationError::NegativeNumber);
    assert_eq!(e.message(), "No negative numbers allowed");
}

#[test]
fn two_e_six_is_too_big() {
    let e = parse_length("2e6").unwrap_err();
    assert_eq!(e, ValidationError::NumberTooBig);
    assert_eq!(e.message(), "Number too big");
}

#[test]
fn letters_are_not_a_number() {
    let e = parse_length("abc").unwrap_err();
    assert_eq!(e, ValidationError::NotANumber);
    assert_eq!(e.message(), "Not a valid floating point number");
}

#[test]
fn plain_integers_parse_to_thousandths() {
    assert_eq!(parse_length("5"), Ok(5000));
    assert_eq!(parse_length("0"), Ok(0));
    assert_eq!(parse_length("+3"), Ok(3000));
    assert_eq!(parse_length("12"), Ok(12000));
}

#[test]
fn fractions_parse_to_thousandths() {
    assert_eq!(parse_length("0.1"), Ok(100));
    assert_eq!(parse_length("2.5"), Ok(2500));
    assert_eq!(parse_length(".5"), Ok(500));
    assert_eq!(parse_length("1."), Ok(1000));
}

#[test]
fn fraction_beyond_thousandths_truncates() {
    assert_eq!(parse_length("1.2345"), Ok(1234));
    assert_eq!(parse_length("0.0009"), Ok(0));
}

#[test]
fn exponents_are_applied() {
    assert_eq!(parse_length("1e3"), Ok(1_000_000));
    assert_eq!(parse_length("2.5e2"), Ok(250_000));
    assert_eq!(parse_length("1e-3"), Ok(1));
    assert_eq!(parse_length("1e-4"), Ok(0));
    assert_eq!(parse_length("25e-1"), Ok(2500));
    assert_eq!(parse_length("1E2"), Ok(100_000));
}

#[test]
fn the_upper_bound_is_inclusive() {
    assert_eq!(parse_length("1000000"), Ok(1_000_000_000));
    assert_eq!(parse_length("1e6"), Ok(1_000_000_000));
    assert_eq!(
        parse_length("1000001"),
        Err(ValidationError::NumberTooBig)
    );
}

#[test]
fn negative_zero_denotes_zero() {
    assert_eq!(parse_length("-0"), Ok(0));
    assert_eq!(parse_length("-0.000"), Ok(0));
    assert_eq!(parse_length("-0e9"), Ok(0));
}

#[test]
fn tiny_negative_values_are_still_negative() {
    assert_eq!(parse_length("-0.0001"), Err(ValidationError::NegativeNumber));
    assert_eq!(parse_length("-1e-50"), Err(ValidationError::NegativeNumber));
}

#[test]
fn huge_exponents_saturate_without_overflow() {
    assert_eq!(
        parse_length("1e99999999999999999999999999"),
        Err(ValidationError::NumberTooBig)
    );
    assert_eq!(parse_length("0e99999999999999999999999999"), Ok(0));
    assert_eq!(parse_length("1e-99999999999999999999999999"), Ok(0));
}

#[test]
fn malformed_numbers_are_rejected() {
    assert_eq!(parse_length(""), Err(ValidationError::NotANumber));
    assert_eq!(parse_length("."), Err(ValidationError::NotANumber));
    assert_eq!(parse_length("e5"), Err(ValidationError::NotANumber));
    assert_eq!(parse_length("1e"), Err(ValidationError::NotANumber));
    assert_eq!(parse_length("1e+"), Err(ValidationError::NotANumber));
    assert_eq!(parse_length("--1"), Err(ValidationError::NotANumber));
    assert_eq!(parse_length("1.2.3"), Err(ValidationError::NotANumber));
    assert_eq!(parse_length("1x2"), Err(ValidationError::NotANumber));
    assert_eq!(parse_length("1e5e2"), Err(ValidationError::NotANumber));
    assert_eq!(parse_length("-"), Err(ValidationError::NotANumber));
}

#[test]
fn fraction_and_exponent_combine() {
    assert_eq!(parse_length("0.5e1"), Ok(5000));
    assert_eq!(parse_length("5e-1"), Ok(500));
    assert_eq!(parse_length("1234e-3"), Ok(1234));
    assert_eq!(parse_length("12.5e-2"), Ok(125));
}

#[test]
fn long_digit_strings_parse_exactly() {
    assert_eq!(parse_length("000000000000000000000012"), Ok(12000));
    assert_eq!(parse_length("999999.999999"), Ok(999_999_999));
}
