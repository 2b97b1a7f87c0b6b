//! Bucket key / file path codec, and the planned store write for one event.
//!
//! Both derivations bucket by day index (`timestamp / 86400`), so for a given
//! user every timestamp within one 86400-second window maps to the same cache
//! key and the same file path.
use vstd::prelude::*;
use vstd::string::*;

use crate::spec_day_index;
use crate::record::spec_encode_event;
use crate::text::{spec_dec_digits, u64_to_string};
use crate::types::LogEvent;

verus! {

/// The cache key for `user_id`'s bucket of day `day`.
pub open spec fn spec_key_for_day(user_id: Seq<char>, day: u64) -> Seq<char> {
    "logs:user_"@ + user_id + ":"@ + spec_dec_digits(day as int)
}

/// The append-only file for `user_id`'s bucket of day `day`.
pub open spec fn spec_path_for_day(user_id: Seq<char>, day: u64) -> Seq<char> {
    "logs/user_"@ + user_id + "/"@ + spec_dec_digits(day as int) + ".jsonl"@
}

/// The cache key under which events for `user_id` on the day of `timestamp`
/// are buffered.
pub open spec fn spec_redis_key(user_id: Seq<char>, timestamp: u64) -> Seq<char> {
    spec_key_for_day(user_id, spec_day_index(timestamp))
}

/// The append-only file that holds the drained events for `user_id` on the
/// day of `timestamp`.
pub open spec fn spec_log_file_path(user_id: Seq<char>, timestamp: u64) -> Seq<char> {
    spec_path_for_day(user_id, spec_day_index(timestamp))
}

/// The file path for a bucket already identified by its day index, as the
/// drain path recovers it from a bucket key.
pub fn path_for_day(user_id: &str, day: u64) -> (path: String)
    ensures
        path@ == spec_path_for_day(user_id@, day),
{
    let mut path = String::new();
    path.append("logs/user_");
    path.append(user_id);
    path.append("/");
    let days = u64_to_string(day);
    path.append(days.as_str());
    path.append(".jsonl");
    path
}

/// Cache key for a user's log bucket: `logs:user_<id>:<days_since_epoch>`.
pub fn get_redis_key(user_id: &str, timestamp: u64) -> (key: String)
    ensures
        key@ == spec_redis_key(user_id@, timestamp),
{
    let days_since_epoch = crate::day_index(timestamp);
    let mut key = String::new();
    key.append("logs:user_");
    key.append(user_id);
    key.append(":");
    let days = u64_to_string(days_since_epoch);
    key.append(days.as_str());
    key
}

/// File path for a user's log file: `logs/user_<id>/<days_since_epoch>.jsonl`.
pub fn get_log_file_path(user_id: &str, timestamp: u64) -> (path: String)
    ensures
        path@ == spec_log_file_path(user_id@, timestamp),
{
    let days_since_epoch = crate::day_index(timestamp);
    path_for_day(user_id, days_since_epoch)
}

/// The store operations that buffer one event: append `record` to the list
/// at `key`, then, if `ttl` is set, refresh the bucket's expiration to it.
pub struct CacheWrite {
    pub key: String,
    pub record: String,
    pub ttl: Option<u64>,
}

/// Plan the cache write for one event: the bucket key from the event's user
/// and day, the serialized record, and the expiration to arm. The expiration
/// is refreshed on every write, and omitted only when disabled or not
/// configured.
pub fn plan_cache_write(event: &LogEvent, expiration_seconds: Option<u64>, disable_ttl: bool) -> (w:
    CacheWrite)
    ensures
        w.key@ == spec_redis_key(event.user_id@, event.timestamp),
        w.record@ == spec_encode_event(event@),
        w.ttl == if disable_ttl {
            None::<u64>
        } else {
            expiration_seconds
        },
{
    let key = get_redis_key(event.user_id.as_str(), event.timestamp);
    let record = crate::record::encode_event(event);
    let ttl = if disable_ttl {
        None
    } else {
        expiration_seconds
    };
    CacheWrite { key, record, ttl }
}

/// Two timestamps in the same 86400-second window give the same cache key and
/// the same file path for the same user, and both derivations agree on the
/// day-index digits they embed.
pub proof fn lemma_key_and_path_bucket_by_day(user_id: Seq<char>, ts1: u64, ts2: u64)
    requires
        ts1 / 86400 == ts2 / 86400,
    ensures
        spec_redis_key(user_id, ts1) == spec_redis_key(user_id, ts2),
        spec_log_file_path(user_id, ts1) == spec_log_file_path(user_id, ts2),
        spec_day_index(ts1) == spec_day_index(ts2),
{
}

} // verus!
