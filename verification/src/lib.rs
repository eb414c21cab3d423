//! Core of a build-time reminder checker: an HTTP response cache with a
//! deterministic request fingerprint, a binary codec for cached responses
//! with a time-to-live, and the decision logic of a synchronous fetch
//! facade that consults the cache before going to the network.
//!
//! All I/O (network, filesystem, clock, environment) is performed by the
//! surrounding application; this crate holds the verified logic: how a
//! cache key is derived, how an entry is encoded and decoded, when an
//! entry counts as fresh, expired or corrupt, and what the facade does
//! with each outcome.

pub mod codec;
pub mod date;
pub mod decimal;
pub mod facade;
pub mod fingerprint;
pub mod github;
pub mod krate;
pub mod response;
pub mod rust;
