// Configuration defaults and the TTL safety judgement.
use log_pipelines::config::{Config, TtlSafety};
use log_pipelines::types::AppError;

#[test]
fn test_default_config_values() {
    let config = Config::default();
    assert_eq!(config.server.host, "127.0.0.1");
    assert_eq!(config.server.port, 3000);
    assert_eq!(config.server.rate_limit.requests_per_minute, 100);
    assert_eq!(config.server.rate_limit.burst_size, 20);
    assert_eq!(config.redis.url, "redis://127.0.0.1:6379");
    assert_eq!(config.redis.key_expiration_seconds, Some(86400));
    assert!(!config.redis.disable_ttl);
    assert_eq!(config.drainer.interval_seconds, 30);
    assert_eq!(config.drainer.log_pattern, "logs:user_*:*");
    assert_eq!(config.drainer.max_retries, 3);
    assert_eq!(config.drainer.retry_delay_seconds, 30);
}

#[test]
fn test_default_config_ttl_is_safe() {
    assert_eq!(Config::default().ttl_safety(), TtlSafety::Safe);
}

#[test]
fn test_ttl_safety_judgements() {
    let mut config = Config::default();

    config.redis.key_expiration_seconds = Some(100); // under 5 * 30
    assert_eq!(config.ttl_safety(), TtlSafety::Unsafe);

    config.redis.key_expiration_seconds = Some(150); // exactly 5 * 30
    assert_eq!(config.ttl_safety(), TtlSafety::Short);

    config.redis.key_expiration_seconds = Some(2999); // under 100 * 30
    assert_eq!(config.ttl_safety(), TtlSafety::Short);

    config.redis.key_expiration_seconds = Some(3000); // exactly 100 * 30
    assert_eq!(config.ttl_safety(), TtlSafety::Safe);

    config.redis.key_expiration_seconds = None;
    assert_eq!(config.ttl_safety(), TtlSafety::NotSet);

    config.redis.disable_ttl = true;
    assert_eq!(config.ttl_safety(), TtlSafety::Disabled);
}

#[test]
fn test_error_responses() {
    let store = AppError::RedisError("connection refused".to_string());
    assert_eq!(store.status_code(), 500);
    let resp = store.to_error_response();
    assert_eq!(resp.error, "Cache operation failed");
    assert_eq!(resp.details, "Redis error: connection refused");

    let file = AppError::FileError("disk full".to_string());
    assert_eq!(file.status_code(), 500);
    assert_eq!(file.to_error_response().error, "File operation failed");
    assert_eq!(file.to_error_response().details, "Could not write to file: disk full");

    let ser = AppError::SerializationError("bad value".to_string());
    assert_eq!(ser.status_code(), 500);
    assert_eq!(ser.to_error_response().error, "Serialization failed");
    assert_eq!(ser.to_error_response().details, "Could not serialize data: bad value");

    let parse = AppError::JsonParseError("bad record".to_string());
    assert_eq!(parse.status_code(), 400);
    assert_eq!(parse.to_error_response().error, "Invalid JSON format");
    assert_eq!(parse.to_error_response().details, "Failed to parse JSON: bad record");
}
