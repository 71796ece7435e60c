//! Settlement engine for two-party bets built on discreet log contracts.
//!
//! Each party pre-signs, under an oracle's per-outcome adaptor point, the
//! payout message it is willing to release.  Once the oracle attests to an
//! outcome, the attestation scalar decrypts exactly the signatures that were
//! made for that outcome, and the completed payout messages are published.
pub mod codec;
pub mod config;
pub mod oracle;
pub mod message;
pub mod adaptor;
pub mod ledger;
pub mod bet;
pub mod sig;
pub mod models;
pub mod resolver;
pub mod listener;
pub mod listing;
