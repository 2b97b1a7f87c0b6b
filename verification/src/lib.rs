//! Buffered event-log pipeline: events are appended to per-user, per-day
//! buckets in a fast keyed store and later drained to append-only files.
//!
//! This crate holds the verified core: the bucket key / file path codec, the
//! event record codec, the retry tracker, the flush and drain-cycle decision
//! logic, the token-bucket admission controller, and the configuration
//! defaults. The surrounding process (HTTP ingestion, the store client, the
//! filesystem, timers) performs the I/O that these functions plan and check.
use vstd::prelude::*;

pub mod config;
pub mod drainer;
pub mod file_redis_layer;
pub mod rate_limit;
pub mod record;
pub mod text;
pub mod types;

verus! {

/// Number of seconds in one calendar day; buckets are keyed by `timestamp / SECONDS_PER_DAY`.
pub const SECONDS_PER_DAY: u64 = 86400;

/// The day index a timestamp (UTC seconds since the epoch) falls into.
pub open spec fn spec_day_index(timestamp: u64) -> u64 {
    (timestamp / 86400) as u64
}

/// Map a timestamp to its day index: two timestamps in the same
/// 86400-second window map to the same day.
pub fn day_index(timestamp: u64) -> (day: u64)
    ensures
        day == spec_day_index(timestamp),
{
    timestamp / SECONDS_PER_DAY
}

} // verus!
