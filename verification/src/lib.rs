//! Verified core of a TypeScript language-server bridge.
//!
//! The crate models the pieces of the bridge that carry its correctness
//! guarantees: UTF-16 document snapshots and span computation, the prioritised
//! request queue, the pending-request table with chained adapters, the
//! diagnostics aggregator, configuration, and the session/broker decision
//! logic. Transport, process spawning and per-method payload translation live
//! outside the verified library.

pub mod capabilities;
pub mod config;
pub mod diagnostics;
pub mod documents;
pub mod hints;
pub mod json;
pub mod pending;
pub mod protocol;
pub mod queue;
pub mod registry;
pub mod rpc;
pub mod session;
pub mod types;
pub mod utils;
