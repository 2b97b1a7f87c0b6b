// Key/path codec: day bucketing, exact shapes, and key/path consistency.
use log_pipelines::file_redis_layer::{get_log_file_path, get_redis_key, path_for_day};

#[test]
fn test_get_redis_key() {
    let user_id = "123";
    let timestamp = 1712345678; // Some timestamp
    let days = timestamp / 86400;

    let key = get_redis_key(user_id, timestamp);
    assert_eq!(key, format!("logs:user_{}:{}", user_id, days));
}

#[test]
fn test_get_log_file_path() {
    let user_id = "456";
    let timestamp = 1712345678;
    let days = timestamp / 86400;

    let path = get_log_file_path(user_id, timestamp);
    assert_eq!(path, format!("logs/user_{}/{}.jsonl", user_id, days));
}

#[test]
fn test_key_and_path_consistency() {
    // Key and path should use the same day calculation
    let user_id = "789";
    let timestamp = 1712345678;

    let key = get_redis_key(user_id, timestamp);
    let path = get_log_file_path(user_id, timestamp);

    // Extract days from both
    let key_days: Vec<&str> = key.split(':').collect();
    let path_days: Vec<&str> = path.split('/').collect();

    assert_eq!(key_days[2], path_days[2].strip_suffix(".jsonl").unwrap());
}

#[test]
fn test_redis_key_exact() {
    // 1712345678 / 86400 == 19818
    assert_eq!(get_redis_key("123", 1712345678), "logs:user_123:19818");
    assert_eq!(get_log_file_path("123", 1712345678), "logs/user_123/19818.jsonl");
}

#[test]
fn test_same_day_same_bucket() {
    // Timestamps within one 86400-second window share key and path.
    let day_start = 19818 * 86400;
    let later_same_day = day_start + 86399;
    assert_eq!(get_redis_key("42", day_start), get_redis_key("42", later_same_day));
    assert_eq!(get_log_file_path("42", day_start), get_log_file_path("42", later_same_day));
    // The next second starts a new bucket.
    assert_ne!(get_redis_key("42", day_start), get_redis_key("42", day_start + 86400));
}

#[test]
fn test_path_for_day_matches_timestamp_path() {
    assert_eq!(path_for_day("7", 19818), get_log_file_path("7", 19818 * 86400));
    assert_eq!(path_for_day("7", 0), "logs/user_7/0.jsonl");
}
