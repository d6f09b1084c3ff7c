//! A proxy-pool scanning engine.
//!
//! The library holds the verified core of the engine: the per-proxy worker
//! state machine, the classification of remote probe responses, the
//! deduplicating sorted result store, and the live-configuration and event
//! model that ties the workers to a front end.  Network and file access are
//! left to the surrounding application, which drives the state machine and
//! hands it plain values.

use vstd::prelude::*;

pub mod candidate;
pub mod engine;
pub mod probe;
pub mod proxies;
pub mod store;
pub mod text;
pub mod worker;

verus! {

/// Identifier of a candidate group.
pub type GroupId = u32;

/// Candidate identifiers are drawn uniformly from `[0, MAX_GROUP_ID)`.
pub const MAX_GROUP_ID: u32 = 5_000_000;

/// Connection attempts allowed per reconnect cycle before the worker decides
/// whether to keep the proxy.
pub const CONNECT_ATTEMPTS: u32 = 5;

/// Minimum candidates checked since the last successful connect that justify
/// another reconnect cycle after the attempt budget is exhausted.
pub const RECONNECT_THRESHOLD: u64 = 5;

/// Fixed cooldown, in seconds, after a rate-limited response.
pub const COOLDOWN_SECS: u64 = 60;

} // verus!
