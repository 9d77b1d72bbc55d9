//! A verified core of a blockchain-style decentralized exchange.
//!
//! The library models the exchange as a single deterministic state machine
//! ([`Dex`](state::Dex)): fungible assets with a balance ledger, non-fungible
//! token classes, constant-product liquidity pools with share accounting, and
//! block-linear reward farms.  Every entry point is an operation on that state
//! with a contract describing exactly when it succeeds, which error it returns
//! otherwise, and how the state changes; failed calls leave the state as it
//! was.

pub mod primitives;
pub mod math;
pub mod keyed;
pub mod errors;
pub mod metadata;
pub mod farming;
pub mod state;
pub mod asset;
pub mod nft;
pub mod amm;
pub mod manager;
pub mod laws;
