//! The configuration surface the pipeline consumes, its defaults, and the
//! safety classification of the store TTL against the drain interval.
//!
//! Loading a configuration file is the surrounding process's concern; the
//! defaults and every judgement about a configuration's values live here.
use vstd::prelude::*;
use vstd::string::*;

verus! {

/// Application configuration.
#[derive(Debug, Clone)]
pub struct Config {
    pub server: ServerConfig,
    pub redis: RedisConfig,
    pub drainer: DrainerConfig,
}

/// Server configuration.
#[derive(Debug, Clone)]
pub struct ServerConfig {
    pub host: String,
    pub port: u16,
    pub rate_limit: RateLimitConfig,
}

/// Rate limiting configuration: the sustained budget per minute and the
/// burst allowance.
#[derive(Debug, Clone)]
pub struct RateLimitConfig {
    pub requests_per_minute: u32,
    pub burst_size: u32,
}

/// Append-store configuration. `key_expiration_seconds` is the safety-net
/// expiration armed on every buffered write, or `None` to arm nothing;
/// `disable_ttl` switches the safety net off even when a value is set.
#[derive(Debug, Clone)]
pub struct RedisConfig {
    pub url: String,
    pub key_expiration_seconds: Option<u64>,
    pub disable_ttl: bool,
}

/// Drainer configuration: how often a cycle runs, which keys it enumerates,
/// and the per-key retry budget and delay.
#[derive(Debug, Clone)]
pub struct DrainerConfig {
    pub interval_seconds: u64,
    pub log_pattern: String,
    pub max_retries: u32,
    pub retry_delay_seconds: u64,
}

/// How the configured safety-net expiration relates to the drain interval.
///
/// `Unsafe` means the TTL could elapse before the drainer has had a handful
/// of chances at a bucket, which loses data; `Short` is legal but leaves
/// little slack; `Safe` gives the drainer ample headroom.
#[derive(Debug, Clone, Copy, PartialEq, Eq, Structural)]
pub enum TtlSafety {
    Disabled,
    NotSet,
    Unsafe,
    Short,
    Safe,
}

/// The TTL judgement: disabled or absent TTLs rely on drain deletion alone;
/// a set TTL is unsafe under five drain intervals and short under a hundred.
pub open spec fn spec_ttl_safety(disable_ttl: bool, ttl: Option<u64>, interval: u64) -> TtlSafety {
    if disable_ttl {
        TtlSafety::Disabled
    } else {
        match ttl {
            None => TtlSafety::NotSet,
            Some(t) => if t < interval * 5 {
                TtlSafety::Unsafe
            } else if t < interval * 100 {
                TtlSafety::Short
            } else {
                TtlSafety::Safe
            },
        }
    }
}

impl Config {
    /// The default configuration; its TTL stands to its drain interval as a
    /// safe safety net.
    pub fn default() -> (c: Config)
        ensures
            c.server.host@ == "127.0.0.1"@,
            c.server.port == 3000,
            c.server.rate_limit.requests_per_minute == 100,
            c.server.rate_limit.burst_size == 20,
            c.redis.url@ == "redis://127.0.0.1:6379"@,
            c.redis.key_expiration_seconds == Some(86400u64),
            c.redis.disable_ttl == false,
            c.drainer.interval_seconds == 30,
            c.drainer.log_pattern@ == "logs:user_*:*"@,
            c.drainer.max_retries == 3,
            c.drainer.retry_delay_seconds == 30,
            c.ttl_safety_spec() == TtlSafety::Safe,
    {
        Config {
            server: ServerConfig {
                host: "127.0.0.1".to_owned(),
                port: 3000,
                rate_limit: RateLimitConfig { requests_per_minute: 100, burst_size: 20 },
            },
            redis: RedisConfig {
                url: "redis://127.0.0.1:6379".to_owned(),
                key_expiration_seconds: Some(86400),
                disable_ttl: false,
            },
            drainer: DrainerConfig {
                interval_seconds: 30,
                log_pattern: "logs:user_*:*".to_owned(),
                max_retries: 3,
                retry_delay_seconds: 30,
            },
        }
    }

    /// This configuration's TTL judgement.
    pub open spec fn ttl_safety_spec(&self) -> TtlSafety {
        spec_ttl_safety(
            self.redis.disable_ttl,
            self.redis.key_expiration_seconds,
            self.drainer.interval_seconds,
        )
    }

    /// Judge this configuration's TTL against its drain interval.
    pub fn ttl_safety(&self) -> (r: TtlSafety)
        ensures
            r == self.ttl_safety_spec(),
    {
        if self.redis.disable_ttl {
            return TtlSafety::Disabled;
        }
        match self.redis.key_expiration_seconds {
            None => TtlSafety::NotSet,
            Some(t) => {
                let interval = self.drainer.interval_seconds;
                if (t as u128) < interval as u128 * 5 {
                    TtlSafety::Unsafe
                } else if (t as u128) < interval as u128 * 100 {
                    TtlSafety::Short
                } else {
                    TtlSafety::Safe
                }
            },
        }
    }
}

} // verus!
