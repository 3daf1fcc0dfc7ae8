//! A transaction-forwarding RPC gateway for a Solana-family ledger.
//!
//! Clients submit signed, serialized transactions; the gateway decodes and
//! validates them, enforces a tip policy, keeps each admitted transaction
//! in a retry store, forwards it downstream at once, and on every retry
//! tick reconciles the store against observed chain state: confirmed,
//! stale and retry-exhausted transactions leave the store, the rest are
//! retransmitted in bounded batches.
//!
//! The modules, leaves first: [`codec`] decodes client strings into wire
//! bytes and a structural transaction model; [`tip`] checks a parsed
//! transaction for a qualifying tip transfer; [`store`] keeps the admitted
//! transactions keyed by signature; [`server`] holds the gateway itself
//! with both admission entrypoints; [`retry`] holds the retry engine's
//! tick. I/O, scheduling and transport live with the embedding runtime,
//! which implements the two client traits of [`server`] and drives the
//! tick.

pub mod codec;
pub mod store;
pub mod tip;
pub mod server;
pub mod retry;
