use base64::prelude::{Engine, BASE64_STANDARD};
use simplefin_rotki::decimal::Decimal;
use simplefin_rotki::rotki::RotkiAPI;
use simplefin_rotki::simplefin_api::{self, SimpleFinAPIError};

#[test]
fn balance_url_appends_the_fixed_path() {
    let api = RotkiAPI::new("http://localhost:8080".to_string());
    assert_eq!(api.balance_url(), "http://localhost:8080/api/1/balances");
}

#[test]
fn token_to_claim_url_decodes_the_setup_token() {
    let claim = "http://gateway.example/f/abcd";
    let token = BASE64_STANDARD.encode(claim.as_bytes());
    let url = simplefin_api::token_to_claim_url(&token).expect("setup token decodes");
    assert_eq!(String::from_utf8(url).unwrap(), claim);
}

#[test]
fn token_to_claim_url_flags_client_fault() {
    let err = simplefin_api::token_to_claim_url("%%%%").unwrap_err();
    assert_eq!(err, SimpleFinAPIError::TokenDecodeError);
    assert_eq!(err.message(), "error base64 decoding token");
}

#[test]
fn decimal_new_accepts_the_representable_range() {
    let d = Decimal::new(12345, 2).expect("in range");
    assert_eq!(d.mantissa, 12345);
    assert_eq!(d.scale, 2);
    assert!(Decimal::new(-1, 28).is_some());
    let max_mantissa: i128 = 0x1000000000000000000000000 - 1;
    assert!(Decimal::new(max_mantissa, 0).is_some());
}

#[test]
fn decimal_new_refuses_out_of_range_pairs() {
    assert!(Decimal::new(0, 29).is_none());
    let too_big: i128 = 0x1000000000000000000000000;
    assert!(Decimal::new(too_big, 0).is_none());
    assert!(Decimal::new(-too_big, 0).is_none());
}

#[test]
fn decimal_parse_reads_plain_literals_exactly() {
    assert_eq!(Decimal::parse("123.45"), Some(Decimal::new(12345, 2).unwrap()));
    assert_eq!(Decimal::parse("-0.5"), Some(Decimal::new(-5, 1).unwrap()));
    assert_eq!(Decimal::parse("0"), Some(Decimal::new(0, 0).unwrap()));
    assert_eq!(Decimal::parse("7"), Some(Decimal::new(7, 0).unwrap()));
    assert_eq!(Decimal::parse("-12"), Some(Decimal::new(-12, 0).unwrap()));
    // 27 fraction digits survive without any drift; a float path would
    // mangle this value. (The digit cap counts the integer digits too, so
    // the zero before the dot takes one of the 28.)
    assert_eq!(
        Decimal::parse("0.123456789012345678901234567"),
        Some(Decimal::new(123456789012345678901234567, 27).unwrap())
    );
}

#[test]
fn decimal_parse_refuses_what_the_grammar_excludes() {
    assert_eq!(Decimal::parse(""), None);
    assert_eq!(Decimal::parse("-"), None);
    assert_eq!(Decimal::parse("12."), None);
    assert_eq!(Decimal::parse(".5"), None);
    assert_eq!(Decimal::parse("1e5"), None);
    assert_eq!(Decimal::parse("12.3.4"), None);
    assert_eq!(Decimal::parse("+7"), None);
    assert_eq!(Decimal::parse("12a"), None);
    // A 29th digit goes past what the representation can promise to hold.
    assert_eq!(Decimal::parse("12345678901234567890123456789"), None);
    assert_eq!(Decimal::parse("1234567890123456789012345678"), Some(
        Decimal::new(1234567890123456789012345678, 0).unwrap()
    ));
}

#[test]
fn decimal_converts_to_the_boundary_representation() {
    // The pair carries exactly what a 96-bit decimal holds: 123.45 survives
    // the trip without drift.
    let d = Decimal::new(12345, 2).unwrap();
    let boundary = rust_decimal::Decimal::from_i128_with_scale(d.mantissa, d.scale);
    assert_eq!(boundary.to_string(), "123.45");
    assert_eq!(boundary.mantissa(), 12345);
    assert_eq!(boundary.scale(), 2);
}
