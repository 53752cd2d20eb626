//! Cluster-aware client core for a sharded, in-memory key-value store.
//!
//! The keyspace is partitioned into a fixed number of hash slots distributed
//! across independently addressable server nodes. This library holds the
//! routing and topology engine: the key-to-slot hash, the wire-framing codec
//! and key extractor, the slot-to-node topology table, the connection pool
//! directory, and the bounded retry state machine that interprets redirection
//! signals. All network transport is left to the caller, which feeds results
//! back into the engine as plain values.

use vstd::prelude::*;

pub mod addr;
pub mod cmd;
pub mod cluster;
pub mod dispatch;
pub mod pool;
pub mod resp;
pub mod slots;
pub mod topology;
pub mod value;

verus! {

/// The fixed number of hash slots the cluster partitions its keyspace into.
pub const SLOT_SIZE: u16 = 16384;

/// The retry budget of one logical request: the dispatch loop gives up with
/// `ClusterError::RedirectionExhausted` once this many send attempts failed.
pub const TTL: usize = 16;

/// Caller-visible failures of the routing engine.
///
/// Redirection signals (`MOVED`/`ASK`) are not here: they are consumed
/// internally by the dispatch state machine and never reach the caller.
#[derive(Clone, Copy, Debug, PartialEq, Eq, Structural)]
pub enum ClusterError {
    /// No slot can be determined and no connection at all is reachable.
    RoutingUnavailable,
    /// The attempt budget was reached without a successful send.
    RedirectionExhausted,
    /// A single connection attempt or liveness probe failed.
    ConnectivityError,
    /// A slot-layout reply held no usable entry at all.
    MalformedTopologyResponse,
    /// A packed command did not follow the wire framing; failing fast here
    /// avoids silently mis-routing a request.
    MalformedCommand,
}

} // verus!
