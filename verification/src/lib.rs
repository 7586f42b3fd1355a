//! A stateless gateway library that bridges a SimpleFin balance client to a
//! Rotki asset-tracker backend.
//!
//! The pieces: a reversible token codec that folds a backend URL into an
//! opaque path segment (`codec`), an exact decimal model for monetary values
//! (`decimal`), a parser for the backend's balance response and the balance
//! model itself (`rotki`), the SimpleFin account-set wire model
//! (`simplefin_api`), and the stateless claim/exchange/poll bridge logic
//! (`bridge`).

pub mod bridge;
pub mod codec;
pub mod decimal;
pub mod rotki;
pub mod simplefin_api;
