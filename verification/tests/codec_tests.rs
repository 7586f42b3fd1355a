use base64::prelude::{Engine, BASE64_STANDARD};
use simplefin_rotki::codec;

#[test]
fn round_trip_backend_url() {
    let url = b"http://localhost:8080".to_vec();
    let token = codec::encode(&url);
    let back = codec::decode(&token).expect("token must decode");
    assert_eq!(back, url);
}

#[test]
fn encode_matches_reference_crate() {
    let cases: Vec<Vec<u8>> = vec![
        b"".to_vec(),
        b"f".to_vec(),
        b"fo".to_vec(),
        b"foo".to_vec(),
        b"foob".to_vec(),
        b"fooba".to_vec(),
        b"foobar".to_vec(),
        b"http://localhost:8080".to_vec(),
        vec![0u8, 255, 128, 7, 63, 62],
    ];
    for case in cases {
        let ours = codec::encode(&case);
        let reference = BASE64_STANDARD.encode(&case);
        assert_eq!(ours, reference);
    }
}

#[test]
fn decode_matches_reference_crate() {
    let cases: Vec<&str> = vec![
        "",
        "Zg==",
        "Zm8=",
        "Zm9v",
        "Zm9vYg==",
        "aHR0cDovL2xvY2FsaG9zdDo4MDgw",
        "AAAA",
        "////",
        "++++",
    ];
    for case in cases {
        let ours = codec::decode(case).expect("valid base64 must decode");
        let reference = BASE64_STANDARD.decode(case).expect("reference must decode");
        assert_eq!(ours, reference);
    }
}

#[test]
fn decode_rejects_foreign_characters() {
    let cases: Vec<&str> = vec!["ab!=", "a b=", "####", "ab\ncd", "€€€€", "aaa\u{7f}"];
    for case in cases {
        assert!(codec::decode(case).is_err());
        assert!(BASE64_STANDARD.decode(case).is_err());
    }
}

#[test]
fn decode_rejects_bad_length_and_padding() {
    let cases: Vec<&str> = vec![
        "A",
        "AB",
        "ABC",
        "Q===",
        "====",
        "=AAA",
        "AA=A",
        "AAAAA",
        "Zm9vYg==Zm9v",
    ];
    for case in cases {
        assert!(codec::decode(case).is_err());
        assert!(BASE64_STANDARD.decode(case).is_err());
    }
}

#[test]
fn decode_is_canonical_about_trailing_bits() {
    // 'R' carries low bits that two padding characters would cut off.
    assert!(codec::decode("QR==").is_err());
    assert!(BASE64_STANDARD.decode("QR==").is_err());
    // 'B' carries low bits that one padding character would cut off.
    assert!(codec::decode("QUB=").is_err());
    assert!(BASE64_STANDARD.decode("QUB=").is_err());
}

#[test]
fn decode_error_has_a_message() {
    let e = codec::decode("!!!!").unwrap_err();
    assert_eq!(e.message(), "invalid base64 token");
}

#[test]
fn decoding_then_encoding_gives_the_token_back() {
    // The decoder is canonical: what it accepts is exactly what the encoder
    // would have produced.
    let cases: Vec<&str> = vec!["", "Zg==", "Zm8=", "Zm9v", "aHR0cDovL2xvY2FsaG9zdDo4MDgw"];
    for case in cases {
        let bytes = simplefin_rotki::codec::decode(case).expect("valid token");
        assert_eq!(simplefin_rotki::codec::encode(&bytes), case);
    }
}

#[test]
fn round_trip_many_lengths() {
    for n in 0..40usize {
        let bytes: Vec<u8> = (0..n).map(|i| (i * 37 + 11) as u8).collect();
        let token = codec::encode(&bytes);
        assert_eq!(codec::decode(&token).expect("round trip"), bytes);
    }
}
