//! Core of a JSON-RPC reverse proxy for Ethereum-style nodes.
//!
//! The library holds the verified dispatch core: head-block tracking, tier
//! selection by sync status and load, rate-limit coordination decisions, and
//! byte-exact response envelopes. Transport and the HTTP front end live
//! outside the library and hand it plain values.

pub mod proxy;
pub mod envelope;
pub mod limiter;
pub mod select;
pub mod tier;
pub mod watcher;
