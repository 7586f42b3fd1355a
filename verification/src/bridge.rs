//! The stateless bridge protocol: claim, exchange, poll.
//!
//! Every step's decision is a pure function of the request's token and the
//! configured public base URL; no state survives a request. The boundary
//! performs the HTTP work and hands the results back as plain values.

use vstd::prelude::*;
use vstd::string::StrSliceExecFns;
use vstd::string::StringExecFns;
use vstd::string::StringSliceAdditionalSpecFns;
use crate::codec;
use crate::rotki::RotkiBalanceResponse;
use crate::simplefin_api::{Account, AccountSet, Organization, clone_org, org_eq};

verus! {

/// Why a bridge request failed: the client sent a token that does not
/// decode, the backend fetch failed, or the translation could not be made
/// (reserved; translation of a parsed snapshot cannot currently fail).
#[derive(Clone, Copy, Debug, PartialEq, Eq, Structural)]
pub enum AppError {
    TokenDecode,
    BackendFetch,
    Translation,
}

impl AppError {
    /// True of the faults the client caused; the rest are server faults.
    pub open spec fn is_client_fault(self) -> bool {
        self is TokenDecode
    }

    /// A diagnostic message for the error.
    pub fn message(&self) -> (r: &'static str)
        ensures
            *self is TokenDecode ==> r@ == "could not decode token"@,
            *self is BackendFetch ==> r@ == "could not fetch balances from the backend"@,
            *self is Translation ==> r@ == "could not translate the balance snapshot"@,
    {
        match self {
            AppError::TokenDecode => "could not decode token",
            AppError::BackendFetch => "could not fetch balances from the backend",
            AppError::Translation => "could not translate the balance snapshot",
        }
    }
}

/// The claim link for a backend URL: the public base URL, the fixed path
/// prefix, and the claim token, which is the base64 image of the backend
/// URL's bytes.
pub fn claim_link(app_url: &str, rotki_url: &str) -> (r: String)
    ensures
        r@ == app_url@ + "/f/"@ + codec::ascii_chars(
            codec::b64_encode(rotki_url.spec_bytes()),
        ),
{
    let rotki_bytes = rotki_url.as_bytes_vec();
    let token = codec::encode(&rotki_bytes);
    let mut link = String::from_str(app_url);
    link.append("/f/");
    link.append(token.as_str());
    link
}

/// The human-facing setup token: the claim link, wrapped once more in the
/// codec, so a SimpleFin client receives one opaque base64 blob of a URL.
pub fn setup_token(app_url: &str, rotki_url: &str) -> (r: String)
    ensures
        r@ == codec::ascii_chars(
            codec::b64_encode(
                vstd::utf8::encode_utf8(
                    app_url@ + "/f/"@ + codec::ascii_chars(
                        codec::b64_encode(rotki_url.spec_bytes()),
                    ),
                ),
            ),
        ),
{
    let link = claim_link(app_url, rotki_url);
    let link_bytes = link.as_str().as_bytes_vec();
    codec::encode(&link_bytes)
}

/// The exchange step: check that the claim token is well formed, and answer
/// with the access URL, which reuses the very same token. A token that does
/// not decode is the client's fault.
pub fn exchange_token(app_url: &str, token: &str) -> (r: Result<String, AppError>)
    ensures
        match r {
            Ok(u) => codec::b64_decode(token.spec_bytes()) is Some && u@ == app_url@ + "/f/"@
                + token@,
            Err(e) => codec::b64_decode(token.spec_bytes()) is None && e is TokenDecode
                && e.is_client_fault(),
        },
{
    match codec::decode(token) {
        Ok(_) => {
            let mut u = String::from_str(app_url);
            u.append("/f/");
            u.append(token);
            Ok(u)
        },
        Err(_) => Err(AppError::TokenDecode),
    }
}

/// The poll step's first half: recover the backend URL's bytes from the
/// access token. A token that does not decode is the client's fault.
pub fn poll_backend_url(token: &str) -> (r: Result<Vec<u8>, AppError>)
    ensures
        match r {
            Ok(v) => codec::b64_decode(token.spec_bytes()) == Some(v@),
            Err(e) => codec::b64_decode(token.spec_bytes()) is None && e is TokenDecode
                && e.is_client_fault(),
        },
{
    match codec::decode(token) {
        Ok(v) => Ok(v),
        Err(_) => Err(AppError::TokenDecode),
    }
}

/// What the translation promises of each produced account: it mirrors one
/// snapshot entry. The id and the display name are the entry's location
/// name, the balance is the entry's value verbatim, the currency is the
/// fixed constant, the available balance is absent, the timestamp is the
/// translation's, the organization is the given one, and there are no
/// transactions.
pub open spec fn account_of_entry(
    a: &Account,
    name: Seq<char>,
    value: crate::decimal::Decimal,
    org: &Organization,
    now: i64,
) -> bool {
    &&& a.id@ == name
    &&& a.name@ == name
    &&& a.currency@ == "usd"@
    &&& a.balance == value
    &&& a.available_balance is None
    &&& a.balance_date == now
    &&& a.transactions@.len() == 0
    &&& org_eq(&a.org, org)
}

/// The whole promise of the translation: no errors, one account per
/// snapshot entry, in order, each mirroring its entry under the one
/// organization and the one timestamp.
pub open spec fn is_translation(
    r: &AccountSet,
    b: &RotkiBalanceResponse,
    org: &Organization,
    now: i64,
) -> bool {
    &&& r.errors@.len() == 0
    &&& r.accounts@.len() == b.result.location@.len()
    &&& forall|k: int|
        0 <= k < b.result.location@.len() ==> account_of_entry(
            &r.accounts@[k],
            b.result.location@[k].0@,
            b.result.location@[k].1.usd_value,
            org,
            now,
        )
}

/// The fixed organization descriptor of this gateway.
pub open spec fn is_gateway_org(org: &Organization) -> bool {
    &&& org.domain is None
    &&& org.name is None
    &&& org.sfin_url@ == "https://example.com/sfn_url"@
}

/// Translate a balance snapshot into the SimpleFin account set: one account
/// per snapshot entry, in order, each stamped with the one organization and
/// the one timestamp; the error list stays empty.
pub fn translate(b: &RotkiBalanceResponse, org: &Organization, now: i64) -> (r: AccountSet)
    ensures
        is_translation(&r, b, org, now),
{
    let n = b.result.location.len();
    let mut accounts: Vec<Account> = Vec::new();
    let mut i: usize = 0;
    while i < n
        invariant
            i <= n,
            n == b.result.location@.len(),
            accounts@.len() == i,
            forall|k: int|
                0 <= k < i ==> account_of_entry(
                    &accounts@[k],
                    b.result.location@[k].0@,
                    b.result.location@[k].1.usd_value,
                    org,
                    now,
                ),
        decreases n - i,
    {
        let (name, value) = &b.result.location[i];
        let account = Account {
            org: clone_org(org),
            id: name.clone(),
            name: name.clone(),
            currency: String::from_str("usd"),
            balance: value.usd_value,
            available_balance: None,
            balance_date: now,
            transactions: Vec::new(),
        };
        accounts.push(account);
        i = i + 1;
    }
    AccountSet { errors: Vec::new(), accounts }
}

/// Relies on `chrono::Utc::now` and `DateTime::timestamp`: the current time
/// as unix seconds. Nothing can be promised of a clock reading.
#[verifier::external_body]
fn now_timestamp() -> i64 {
    chrono::Utc::now().timestamp()
}

/// The organization descriptor every produced account carries: this gateway
/// is the source, identified only by a canonical URL.
pub fn gateway_org() -> (r: Organization)
    ensures
        r.domain is None,
        r.name is None,
        r.sfin_url@ == "https://example.com/sfn_url"@,
{
    Organization {
        domain: None,
        name: None,
        sfin_url: String::from_str("https://example.com/sfn_url"),
    }
}

/// The poll step's second half: translate a fetched snapshot, stamped with
/// the current time and the gateway's organization descriptor.
pub fn balances_to_sf(b: &RotkiBalanceResponse) -> (r: AccountSet)
    ensures
        r.errors@.len() == 0,
        r.accounts@.len() == b.result.location@.len(),
        exists|org: Organization, now: i64|
            is_gateway_org(&org) && #[trigger] is_translation(&r, b, &org, now),
{
    let now = now_timestamp();
    let org = gateway_org();
    let r = translate(b, &org, now);
    proof {
        assert(is_gateway_org(&org) && is_translation(&r, b, &org, now));
    }
    r
}

} // verus!
