use helion::token::{numbers_equal, same_kind, TokenKind};

#[test]
fn same_kind_compares_plain_kinds() {
    assert!(same_kind(&TokenKind::Semicolon, &TokenKind::Semicolon));
    assert!(!same_kind(&TokenKind::Semicolon, &TokenKind::Comma));
    assert!(!same_kind(&TokenKind::Ident("a".to_string()), &TokenKind::Eof));
}

#[test]
fn same_kind_compares_payloads() {
    let a = TokenKind::Ident("x".to_string());
    assert!(same_kind(&a, &TokenKind::Ident("x".to_string())));
    assert!(!same_kind(&a, &TokenKind::Ident("y".to_string())));
    assert!(!same_kind(&a, &TokenKind::String("x".to_string())));
    assert!(same_kind(&TokenKind::String("hi".to_string()), &TokenKind::String("hi".to_string())));
    let one = TokenKind::Number(1.0f64.to_bits());
    assert!(same_kind(&one, &TokenKind::Number(1.0f64.to_bits())));
    assert!(!same_kind(&one, &TokenKind::Number(2.0f64.to_bits())));
}

#[test]
fn numbers_compare_as_floats_do() {
    let zero = 0.0f64.to_bits();
    let minus_zero = (-0.0f64).to_bits();
    let nan = f64::NAN.to_bits();
    assert!(numbers_equal(zero, minus_zero));
    assert!(!numbers_equal(nan, nan));
    assert!(numbers_equal(1.5f64.to_bits(), 1.5f64.to_bits()));
    assert!(!numbers_equal(1.5f64.to_bits(), 2.5f64.to_bits()));
    assert!(!numbers_equal(f64::INFINITY.to_bits(), f64::NEG_INFINITY.to_bits()));
    assert!(numbers_equal(f64::INFINITY.to_bits(), f64::INFINITY.to_bits()));
}

#[test]
fn token_kinds_compare_numbers_as_floats() {
    assert_eq!(TokenKind::Number(0.0f64.to_bits()), TokenKind::Number((-0.0f64).to_bits()));
    assert_ne!(TokenKind::Number(f64::NAN.to_bits()), TokenKind::Number(f64::NAN.to_bits()));
    assert_eq!(TokenKind::Ident("a".to_string()), TokenKind::Ident("a".to_string()));
    assert_ne!(TokenKind::Ident("a".to_string()), TokenKind::String("a".to_string()));
    assert_eq!(TokenKind::Eof, TokenKind::Eof);
}
