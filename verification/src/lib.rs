//! Client half of a decentralized price-oracle protocol.
//!
//! A `Requester` asks a separately-trusted first-party-oracle provider for
//! price data and caches the results keyed by provider account and trading
//! pair.  The modules here hold the verified core: the persistent cache, the
//! request encoder, the callback resolver and the reconciliation engine.
//! Scheduling of the asynchronous host calls themselves is left to the
//! surrounding (unverified) contract shell, which hands every handler the
//! authenticated caller and the resolved outcomes as plain values.

pub mod cache;
pub mod fungible_token_handler;
pub mod kvmap;
pub mod message;
pub mod payload;
pub mod reconcile;
pub mod request;
pub mod requester;
pub mod types;
