use foodpipe::num::{dec_to_bytes, parse_number, Decimal};

fn dec(neg: bool, mantissa: u64, scale: usize) -> Decimal {
    Decimal { neg, mantissa, scale }
}

#[test]
fn comma_and_dot_parse_alike() {
    assert_eq!(parse_number(b"12,5"), parse_number(b"12.5"));
    assert_eq!(parse_number(b"12,5"), Some(dec(false, 125, 1)));
    assert_eq!(parse_number(b"0,001"), parse_number(b"0.001"));
    assert_eq!(parse_number(b"-1,75"), parse_number(b"-1.75"));
}

#[test]
fn plain_integers_parse() {
    assert_eq!(parse_number(b"100"), Some(dec(false, 100, 0)));
    assert_eq!(parse_number(b"0"), Some(dec(false, 0, 0)));
    assert_eq!(parse_number(b"+7"), Some(dec(false, 7, 0)));
    assert_eq!(parse_number(b"-42"), Some(dec(true, 42, 0)));
}

#[test]
fn interior_spaces_are_stripped() {
    assert_eq!(parse_number(b" 12 , 5 "), Some(dec(false, 125, 1)));
    assert_eq!(parse_number(b"1 000"), Some(dec(false, 1000, 0)));
}

#[test]
fn fractional_forms() {
    assert_eq!(parse_number(b".5"), Some(dec(false, 5, 1)));
    assert_eq!(parse_number(b"5."), Some(dec(false, 5, 0)));
    assert_eq!(parse_number(b"-0.05"), Some(dec(true, 5, 2)));
}

#[test]
fn malformed_numbers_are_rejected() {
    assert_eq!(parse_number(b""), None);
    assert_eq!(parse_number(b"abc"), None);
    assert_eq!(parse_number(b"1.2.3"), None);
    assert_eq!(parse_number(b"."), None);
    assert_eq!(parse_number(b"-"), None);
    assert_eq!(parse_number(b"12x"), None);
    assert_eq!(parse_number(b"inf"), None);
    assert_eq!(parse_number(b"NaN"), None);
    // A tab is not stripped, unlike a space.
    assert_eq!(parse_number(b"\t12"), None);
}

#[test]
fn exponent_forms_parse() {
    assert_eq!(parse_number(b"1e3"), Some(dec(false, 1000, 0)));
    assert_eq!(parse_number(b"1.5e1"), Some(dec(false, 15, 0)));
    assert_eq!(parse_number(b"2e-3"), Some(dec(false, 2, 3)));
    assert_eq!(parse_number(b"1E2"), Some(dec(false, 100, 0)));
    assert_eq!(parse_number(b"-2.5e+2"), Some(dec(true, 250, 0)));
    assert_eq!(parse_number(b"12.345e2"), Some(dec(false, 12345, 1)));
    assert_eq!(parse_number(b"1e19"), Some(dec(false, 10_000_000_000_000_000_000, 0)));
    assert_eq!(parse_number(b".5e1"), Some(dec(false, 5, 0)));
}

#[test]
fn malformed_exponents_are_rejected() {
    assert_eq!(parse_number(b"1e"), None);
    assert_eq!(parse_number(b"1e+"), None);
    assert_eq!(parse_number(b"e3"), None);
    assert_eq!(parse_number(b"1e2.5"), None);
    assert_eq!(parse_number(b"1e2e3"), None);
    // A folded mantissa beyond 64 bits is a machine limit.
    assert_eq!(parse_number(b"2e19"), None);
}

#[test]
fn oversized_mantissas_are_rejected() {
    assert_eq!(parse_number(b"18446744073709551615"), Some(dec(false, u64::MAX, 0)));
    assert_eq!(parse_number(b"18446744073709551616"), None);
}

#[test]
fn decimal_rendering() {
    assert_eq!(dec_to_bytes(&dec(false, 125, 1)), b"12.5".to_vec());
    assert_eq!(dec_to_bytes(&dec(false, 100, 0)), b"100".to_vec());
    assert_eq!(dec_to_bytes(&dec(true, 5, 2)), b"-0.05".to_vec());
    assert_eq!(dec_to_bytes(&dec(false, 0, 0)), b"0".to_vec());
    assert_eq!(dec_to_bytes(&dec(false, 5, 3)), b"0.005".to_vec());
}

#[test]
fn parse_then_render_round_trip() {
    for text in [&b"12.5"[..], b"100", b"0.001", b"-1.75", b"0"] {
        let d = parse_number(text).unwrap();
        assert_eq!(dec_to_bytes(&d), text.to_vec());
    }
}
