// Token-bucket admission control.
use log_pipelines::config::RateLimitConfig;
use log_pipelines::rate_limit::{rate_limit_response_body, TokenBucket};

fn config(requests_per_minute: u32, burst_size: u32) -> RateLimitConfig {
    RateLimitConfig { requests_per_minute, burst_size }
}

#[test]
fn test_burst_exhaustion() {
    // With burst_size=20, twenty checks with no elapsed time pass and the
    // twenty-first is rejected.
    let mut bucket = TokenBucket::new(&config(100, 20), 1000);
    for _ in 0..20 {
        assert!(bucket.check(1000));
    }
    assert!(!bucket.check(1000));
    assert_eq!(bucket.tokens, 0);
}

#[test]
fn test_refill_after_minute_caps_at_burst() {
    // After sixty seconds at 100 requests per minute, min(100, 20) tokens
    // are back; the next check consumes one of them.
    let mut bucket = TokenBucket::new(&config(100, 20), 1000);
    for _ in 0..20 {
        assert!(bucket.check(1000));
    }
    assert!(!bucket.check(1000));
    assert!(bucket.check(1060));
    assert_eq!(bucket.tokens, 19);
}

#[test]
fn test_partial_refill() {
    // 100 per minute earns floor(100 * 3 / 60) = 5 tokens in three seconds.
    let mut bucket = TokenBucket::new(&config(100, 20), 0);
    for _ in 0..20 {
        assert!(bucket.check(0));
    }
    assert!(bucket.check(3));
    assert_eq!(bucket.tokens, 4);
}

#[test]
fn test_sub_second_elapsed_earns_nothing() {
    // The same whole second earns nothing.
    let mut bucket = TokenBucket::new(&config(6000, 1), 500);
    assert!(bucket.check(500));
    assert!(!bucket.check(500));
}

#[test]
fn test_clock_going_backwards_earns_nothing() {
    let mut bucket = TokenBucket::new(&config(100, 1), 1000);
    assert!(bucket.check(1000));
    assert!(!bucket.check(900));
}

#[test]
fn test_long_idle_caps_at_burst() {
    let mut bucket = TokenBucket::new(&config(100, 20), 0);
    for _ in 0..20 {
        assert!(bucket.check(0));
    }
    assert!(bucket.check(10_000_000));
    assert_eq!(bucket.tokens, 19);
}

#[test]
fn test_rate_limit_body_shape() {
    assert_eq!(
        rate_limit_response_body(100),
        "{\"error\": \"Rate limit exceeded\", \"details\": \"Maximum 100 requests per minute\"}"
    );
}
