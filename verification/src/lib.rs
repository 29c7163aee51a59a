//! Session executor for multi-round, multi-party threshold-signing protocols.
//!
//! The crate drives one protocol session for one local party: it sequences the
//! key-generation, auxiliary-info and signing phases, pumps an opaque
//! round-based protocol engine to quiescence, converts raw inbound buffers into
//! typed messages (with signer-subset remapping), wraps outbound protocol
//! messages into versioned wire envelopes, and combines phase outputs into a
//! usable signing identity. The cryptographic engines themselves are external
//! collaborators reached through the [`engine::Engine`] capability.

pub mod driver;
pub mod engine;
pub mod envelope;
pub mod errors;
pub mod executor;
pub mod hexstr;
pub mod router;
pub mod seed;
pub mod shares;
pub mod signerlist;
pub mod signing;
