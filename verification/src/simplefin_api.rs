//! The SimpleFin account-set wire model, and the client-side token step.
//!
//! Timestamps are unix seconds; balances are exact decimals. The boundary
//! code owns the JSON representation of these records; the library owns
//! their shape and the token handling.

use vstd::prelude::*;
use vstd::string::StringSliceAdditionalSpecFns;
use crate::codec;
use crate::decimal::Decimal;

verus! {

pub type AccountID = String;

pub type AccountName = String;

pub type Currency = String;

pub type OrganizationName = String;

pub type TransactionID = String;

/// What went wrong while acting as a SimpleFin client: a setup token that
/// does not decode, a failed request, or a response that does not parse.
#[derive(Clone, Copy, Debug, PartialEq, Eq, Structural)]
pub enum SimpleFinAPIError {
    TokenDecodeError,
    RequestError,
    JSONParseError,
}

impl SimpleFinAPIError {
    /// A diagnostic message for the error.
    pub fn message(&self) -> (r: &'static str)
        ensures
            *self is TokenDecodeError ==> r@ == "error base64 decoding token"@,
            *self is RequestError ==> r@ == "request failed"@,
            *self is JSONParseError ==> r@ == "could not parse response"@,
    {
        match self {
            SimpleFinAPIError::TokenDecodeError => "error base64 decoding token",
            SimpleFinAPIError::RequestError => "request failed",
            SimpleFinAPIError::JSONParseError => "could not parse response",
        }
    }
}

/// The source an account belongs to.
#[derive(Clone, Debug)]
pub struct Organization {
    pub domain: Option<String>,
    pub sfin_url: String,
    pub name: Option<OrganizationName>,
}

/// Two organizations carry the same descriptor.
pub open spec fn org_eq(a: &Organization, b: &Organization) -> bool {
    &&& a.sfin_url@ == b.sfin_url@
    &&& match (&a.domain, &b.domain) {
        (Some(x), Some(y)) => x@ == y@,
        (None, None) => true,
        _ => false,
    }
    &&& match (&a.name, &b.name) {
        (Some(x), Some(y)) => x@ == y@,
        (None, None) => true,
        _ => false,
    }
}

/// One movement on an account.
#[derive(Clone, Debug)]
pub struct Transaction {
    pub id: TransactionID,
    pub posted: i64,
    pub amount: Decimal,
    pub description: String,
    pub transacted_at: Option<i64>,
    pub pending: Option<bool>,
}

/// One account with its balance at a point in time.
#[derive(Clone, Debug)]
pub struct Account {
    pub org: Organization,
    pub id: AccountID,
    pub name: AccountName,
    pub currency: Currency,
    pub balance: Decimal,
    pub available_balance: Option<Decimal>,
    pub balance_date: i64,
    pub transactions: Vec<Transaction>,
}

/// The full response a SimpleFin client polls for.
#[derive(Clone, Debug)]
pub struct AccountSet {
    pub errors: Vec<String>,
    pub accounts: Vec<Account>,
}

/// Clone an organization descriptor, field by field.
pub fn clone_org(org: &Organization) -> (r: Organization)
    ensures
        org_eq(&r, org),
{
    let domain: Option<String> = match &org.domain {
        Some(s) => Some(s.clone()),
        None => None,
    };
    let name: Option<String> = match &org.name {
        Some(s) => Some(s.clone()),
        None => None,
    };
    Organization { domain, sfin_url: org.sfin_url.clone(), name }
}

/// The client-side half of the token exchange that needs no network: a
/// setup token is the base64 image of the claim URL, so decoding it yields
/// the claim URL's bytes. A token outside the codec's alphabet is a
/// `TokenDecodeError`.
pub fn token_to_claim_url(b64token: &str) -> (r: Result<Vec<u8>, SimpleFinAPIError>)
    ensures
        match r {
            Ok(v) => codec::b64_decode(b64token.spec_bytes()) == Some(v@),
            Err(e) => e is TokenDecodeError && codec::b64_decode(b64token.spec_bytes()) is None,
        },
{
    match codec::decode(b64token) {
        Ok(v) => Ok(v),
        Err(_) => Err(SimpleFinAPIError::TokenDecodeError),
    }
}

} // verus!
