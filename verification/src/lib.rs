//! Verified core of a per-validator randomness beacon.
//!
//! Once per epoch a distributed key generation ceremony hands each validator
//! a set of signature shares. The beacon turns that output into a stream of
//! publicly verifiable random rounds: validators exchange partial signatures
//! over an authenticated channel, and any node holding at least a threshold
//! of distinct, ordered shares can aggregate them into the round's full
//! signature, whose bytes are the round's randomness.
//!
//! This crate holds the protocol logic: the actor state machine that owns all
//! round state, the deterministic share model used for aggregation, the wire
//! framing of partial signatures, and the configuration helpers around them.
//! Network transport, clocks and the metrics registry live outside and speak
//! to the library through plain values.

pub mod actor;
pub mod codec;
pub mod config;
pub mod discovery;
pub mod laws;
pub mod metrics;
pub mod server;
pub mod signer;
pub mod state_sync;
