//! Token-bucket admission control for the ingestion path.
//!
//! The bucket's refill-and-consume computation is a pure function of the
//! bucket and the current clock reading; the surrounding process owns the
//! clock and the lock and calls `check` with whole seconds since the epoch.
use vstd::prelude::*;
use vstd::string::*;
use vstd::arithmetic::div_mod::lemma_div_is_ordered;
use vstd::arithmetic::mul::lemma_mul_inequality;
use vstd::arithmetic::mul::lemma_mul_upper_bound;

use crate::config::RateLimitConfig;
use crate::text::{spec_dec_digits, u64_to_string};

verus! {

/// The admission budget: available tokens, the burst capacity, the sustained
/// refill rate, and when tokens were last added.
#[derive(Debug, Clone, Copy)]
pub struct TokenBucket {
    pub tokens: u32,
    pub last_refill: u64,
    pub requests_per_minute: u32,
    pub burst_size: u32,
}

/// The bucket after adding the tokens earned since the last refill: one
/// sixtieth of the per-minute rate for each fully elapsed second, capped at
/// the burst size. Under one whole elapsed second nothing changes, and a
/// clock that moved backwards earns nothing.
pub open spec fn spec_refill(b: TokenBucket, now: u64) -> TokenBucket {
    let elapsed = if now >= b.last_refill {
        now - b.last_refill
    } else {
        0
    };
    if elapsed > 0 {
        let earned = b.requests_per_minute * elapsed / 60;
        let refilled = if b.tokens + earned > b.burst_size {
            b.burst_size as int
        } else {
            b.tokens + earned
        };
        TokenBucket {
            tokens: refilled as u32,
            last_refill: now,
            requests_per_minute: b.requests_per_minute,
            burst_size: b.burst_size,
        }
    } else {
        b
    }
}

/// One admission check at clock reading `now`: refill, then consume one
/// token if any is available.
pub open spec fn spec_check(b: TokenBucket, now: u64) -> (TokenBucket, bool) {
    let r = spec_refill(b, now);
    if r.tokens > 0 {
        (
            TokenBucket {
                tokens: (r.tokens - 1) as u32,
                last_refill: r.last_refill,
                requests_per_minute: r.requests_per_minute,
                burst_size: r.burst_size,
            },
            true,
        )
    } else {
        (r, false)
    }
}

impl TokenBucket {
    /// A fresh bucket starts full: the whole burst allowance is available.
    pub fn new(config: &RateLimitConfig, now: u64) -> (b: TokenBucket)
        ensures
            b.tokens == config.burst_size,
            b.last_refill == now,
            b.requests_per_minute == config.requests_per_minute,
            b.burst_size == config.burst_size,
    {
        TokenBucket {
            tokens: config.burst_size,
            last_refill: now,
            requests_per_minute: config.requests_per_minute,
            burst_size: config.burst_size,
        }
    }

    /// Admit or reject one request at clock reading `now`. The caller holds
    /// exclusive access for the duration of the call and decides what a
    /// rejection answers.
    pub fn check(&mut self, now: u64) -> (admitted: bool)
        ensures
            *final(self) == spec_check(*old(self), now).0,
            admitted == spec_check(*old(self), now).1,
    {
        let elapsed: u64 = if now >= self.last_refill {
            now - self.last_refill
        } else {
            0
        };
        if elapsed > 0 {
            proof {
                lemma_mul_upper_bound(
                    self.requests_per_minute as int,
                    u32::MAX as int,
                    elapsed as int,
                    u64::MAX as int,
                );
            }
            let earned: u128 = self.requests_per_minute as u128 * elapsed as u128 / 60;
            let refilled: u32 = if earned >= self.burst_size as u128 {
                self.burst_size
            } else {
                let sum: u64 = self.tokens as u64 + earned as u64;
                if sum > self.burst_size as u64 {
                    self.burst_size
                } else {
                    sum as u32
                }
            };
            self.tokens = refilled;
            self.last_refill = now;
        }
        if self.tokens > 0 {
            self.tokens = self.tokens - 1;
            true
        } else {
            false
        }
    }
}

/// A bucket within its capacity stays within it: an admission check never
/// leaves more tokens than the burst size.
pub proof fn lemma_check_within_burst(b: TokenBucket, now: u64)
    requires
        b.tokens <= b.burst_size,
    ensures
        spec_check(b, now).0.tokens <= b.burst_size,
{
}

/// After a full minute or more, at least the smaller of the per-minute rate
/// and the burst size is available again.
pub proof fn lemma_refill_after_minute(b: TokenBucket, now: u64)
    requires
        now >= b.last_refill + 60,
    ensures
        spec_refill(b, now).tokens >= (if b.requests_per_minute < b.burst_size {
            b.requests_per_minute as int
        } else {
            b.burst_size as int
        }),
{
    let elapsed = now - b.last_refill;
    lemma_mul_inequality(60, elapsed as int, b.requests_per_minute as int);
    lemma_div_is_ordered(
        b.requests_per_minute * 60,
        b.requests_per_minute * elapsed,
        60,
    );
    assert(b.requests_per_minute * 60 / 60 == b.requests_per_minute);
}

/// The body answered when admission is denied.
pub open spec fn spec_rate_limit_body(requests_per_minute: u32) -> Seq<char> {
    "{\"error\": \"Rate limit exceeded\", \"details\": \"Maximum "@ + spec_dec_digits(
        requests_per_minute as int,
    ) + " requests per minute\"}"@
}

/// Build the response body for a denied request, naming the configured
/// per-minute budget.
pub fn rate_limit_response_body(requests_per_minute: u32) -> (body: String)
    ensures
        body@ == spec_rate_limit_body(requests_per_minute),
{
    let mut body = String::new();
    body.append("{\"error\": \"Rate limit exceeded\", \"details\": \"Maximum ");
    let n = u64_to_string(requests_per_minute as u64);
    body.append(n.as_str());
    body.append(" requests per minute\"}");
    body
}

} // verus!
