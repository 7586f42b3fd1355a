use base64::prelude::{Engine, BASE64_STANDARD};
use simplefin_rotki::bridge;
use simplefin_rotki::bridge::AppError;
use simplefin_rotki::decimal::Decimal;
use simplefin_rotki::rotki::{BalanceLocationValue, BalanceResult, RotkiBalanceResponse};
use simplefin_rotki::simplefin_api::Organization;

fn snapshot(entries: Vec<(&str, i128, u32)>) -> RotkiBalanceResponse {
    let location = entries
        .into_iter()
        .map(|(name, mantissa, scale)| {
            (
                name.to_string(),
                BalanceLocationValue { usd_value: Decimal { mantissa, scale } },
            )
        })
        .collect();
    RotkiBalanceResponse { result: BalanceResult { location } }
}

fn org() -> Organization {
    Organization {
        domain: None,
        sfin_url: "https://example.com/sfn_url".to_string(),
        name: None,
    }
}

#[test]
fn claim_token_round_trips_backend_url() {
    // The claim token is the base64 image of the backend URL; decoding it
    // yields exactly the URL again.
    let backend = "http://localhost:8080";
    let link = bridge::claim_link("http://gateway.example", backend);
    assert_eq!(
        link,
        format!(
            "http://gateway.example/f/{}",
            BASE64_STANDARD.encode(backend.as_bytes())
        )
    );
    let token = link.rsplit('/').next().unwrap();
    let decoded = BASE64_STANDARD.decode(token).expect("claim token decodes");
    assert_eq!(String::from_utf8(decoded).unwrap(), backend);
}

#[test]
fn setup_token_is_doubly_encoded() {
    let backend = "http://localhost:8080";
    let app = "http://gateway.example";
    let setup = bridge::setup_token(app, backend);
    // Outer layer: one opaque base64 blob of the claim link.
    let link_bytes = BASE64_STANDARD.decode(&setup).expect("setup token decodes");
    let link = String::from_utf8(link_bytes).unwrap();
    assert_eq!(link, bridge::claim_link(app, backend));
    // Inner layer: the claim token embedded in the link.
    let token = link.strip_prefix("http://gateway.example/f/").unwrap();
    let backend_again = BASE64_STANDARD.decode(token).expect("claim token decodes");
    assert_eq!(String::from_utf8(backend_again).unwrap(), backend);
}

#[test]
fn exchange_token_echoes_access_url() {
    let token = BASE64_STANDARD.encode(b"http://localhost:8080");
    let access = bridge::exchange_token("http://gateway.example", &token)
        .expect("well-formed token exchanges");
    assert_eq!(access, format!("http://gateway.example/f/{token}"));
    // The exchange is idempotent: asking again gives the same access URL.
    let again = bridge::exchange_token("http://gateway.example", &token).unwrap();
    assert_eq!(again, access);
}

#[test]
fn exchange_rejects_malformed_token() {
    let err = bridge::exchange_token("http://gateway.example", "not@base64!").unwrap_err();
    assert_eq!(err, AppError::TokenDecode);
}

#[test]
fn poll_with_invalid_token_is_a_client_fault() {
    // The error kind is distinguishable from a backend-fetch failure.
    let err = bridge::poll_backend_url("bad!!token").unwrap_err();
    assert_eq!(err, AppError::TokenDecode);
    assert_ne!(err, AppError::BackendFetch);
    assert_ne!(err.message(), AppError::BackendFetch.message());
}

#[test]
fn poll_recovers_backend_url() {
    let token = BASE64_STANDARD.encode(b"http://localhost:8080");
    let url = bridge::poll_backend_url(&token).expect("valid token decodes");
    assert_eq!(url, b"http://localhost:8080".to_vec());
}

#[test]
fn translate_single_entry_scenario() {
    // Snapshot {"checking": 123.45} becomes exactly one account.
    let b = snapshot(vec![("checking", 12345, 2)]);
    let r = bridge::translate(&b, &org(), 1700000000);
    assert!(r.errors.is_empty());
    assert_eq!(r.accounts.len(), 1);
    let a = &r.accounts[0];
    assert_eq!(a.id, "checking");
    assert_eq!(a.name, "checking");
    assert_eq!(a.currency, "usd");
    assert_eq!(a.balance, Decimal { mantissa: 12345, scale: 2 });
    assert!(a.available_balance.is_none());
    assert_eq!(a.balance_date, 1700000000);
    assert!(a.transactions.is_empty());
    assert_eq!(a.org.sfin_url, "https://example.com/sfn_url");
    assert!(a.org.domain.is_none());
    assert!(a.org.name.is_none());
}

#[test]
fn translate_keeps_length_and_ids() {
    let b = snapshot(vec![
        ("kraken", 1, 0),
        ("blockchain", -250, 1),
        ("banks", 99999999999999999999999999, 10),
    ]);
    let r = bridge::translate(&b, &org(), 42);
    assert_eq!(r.accounts.len(), b.result.location.len());
    for (k, (name, v)) in b.result.location.iter().enumerate() {
        assert_eq!(&r.accounts[k].id, name);
        assert_eq!(&r.accounts[k].name, name);
        assert_eq!(r.accounts[k].balance, v.usd_value);
    }
}

#[test]
fn translate_empty_snapshot() {
    let b = snapshot(vec![]);
    let r = bridge::translate(&b, &org(), 0);
    assert!(r.accounts.is_empty());
    assert!(r.errors.is_empty());
}

#[test]
fn every_account_has_no_available_balance_and_no_transactions() {
    let b = snapshot(vec![("a", 0, 0), ("b", 7, 3), ("c", -1, 28)]);
    let r = bridge::balances_to_sf(&b);
    assert!(r.errors.is_empty());
    assert_eq!(r.accounts.len(), 3);
    for a in &r.accounts {
        assert!(a.available_balance.is_none());
        assert!(a.transactions.is_empty());
        assert_eq!(a.currency, "usd");
    }
}

#[test]
fn unique_names_check_spots_duplicates() {
    let unique = snapshot(vec![("a", 1, 0), ("b", 2, 0), ("c", 3, 0)]);
    assert!(unique.has_unique_names());
    let duplicated = snapshot(vec![("a", 1, 0), ("b", 2, 0), ("a", 3, 0)]);
    assert!(!duplicated.has_unique_names());
    assert!(snapshot(vec![]).has_unique_names());
}

#[test]
fn error_messages_name_each_kind() {
    assert_eq!(AppError::TokenDecode.message(), "could not decode token");
    assert_eq!(
        AppError::BackendFetch.message(),
        "could not fetch balances from the backend"
    );
    assert_eq!(
        AppError::Translation.message(),
        "could not translate the balance snapshot"
    );
}
