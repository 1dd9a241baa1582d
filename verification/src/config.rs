//! The engine's timing and addressing defaults.

use vstd::prelude::*;

verus! {

/// Seconds between two regular advertisements.
pub const ADVERTISE_INTERVAL_SECS: u64 = 5;

/// Seconds between two health checks.
pub const HEALTH_INTERVAL_SECS: u64 = 5;

/// Seconds of silence after which an active peer is stale: two missed
/// advertisements.
pub const T_STALE_SECS: u64 = 10;

/// Seconds of silence after which a stale peer is lost: four missed
/// advertisements.
pub const T_LOST_SECS: u64 = 20;

/// The UDP port on which advertisements are broadcast and heard.
pub const DISCOVERY_PORT: u16 = 6768;

/// The TCP port on which the transport server listens.
pub const WS_PORT: u16 = 6767;

/// How many events a stream towards the shell buffers.
pub const EVENT_BUFFER: usize = 32;

} // verus!
