//! Snapshot-transfer subsystem of a replicated key-value store.
//!
//! When a replica lags too far behind, the leader ships a point-in-time
//! snapshot file instead of replaying its log.  This crate verifies the
//! lifecycle logic of those transfers: deriving a snapshot identity from a
//! control message, tracking in-flight transfers in a registry with a
//! guaranteed-release discipline, splitting a file into bounded chunks for
//! streaming, the receiving-side task runner keyed by connection token, the
//! outbound send pipeline, and the admission logic of the bounded sender
//! pool.  The surrounding process performs the actual disk, network and
//! signal work and reports each outcome back into these functions.

pub mod chunk;
pub mod laws;
pub mod msg;
pub mod pool;
pub mod registry;
pub mod runner;
pub mod send;
pub mod signal;
pub mod store;
