// The drain path: key parsing, retry bookkeeping, and whole flush cycles
// driven against an in-memory store and file sink.
use log_pipelines::drainer::{
    flush_begin, flush_step, parse_drain_key, record_flush_outcome, split_char,
    strip_user_prefix, CycleStats, FlushAction, FlushDisposition, FlushEvent, FlushState,
    RetryTracker,
};
use log_pipelines::file_redis_layer::plan_cache_write;
use log_pipelines::types::LogEvent;

#[test]
fn test_drain_key_parsing() {
    // Test key parsing logic
    let key = "logs:user_123:19847";
    let parts = split_char(key, ':');
    assert_eq!(parts.len(), 3);
    assert_eq!(parts[0], "logs");
    assert_eq!(parts[1], "user_123");
    assert_eq!(parts[2], "19847");

    let user_id = strip_user_prefix(&parts[1]);
    assert_eq!(user_id, "123");
}

#[test]
fn test_invalid_key_format() {
    let invalid_keys = vec![
        "logs:user_123",             // Missing date
        "logs:user_123:19847:extra", // Too many parts
        "invalid",                   // Wrong format
    ];

    for key in invalid_keys {
        let parts = split_char(key, ':');
        assert_ne!(parts.len(), 3, "Key {} should be invalid", key);
        assert!(parse_drain_key(key).is_err());
    }
}

#[test]
fn test_retry_tracker() {
    let mut tracker = RetryTracker::new();
    let key = "logs:user_123:19847";

    // First attempt
    assert!(tracker.should_retry(key, 3));
    assert_eq!(tracker.increment(key), 1);

    // Second attempt
    assert!(tracker.should_retry(key, 3));
    assert_eq!(tracker.increment(key), 2);

    // Third attempt
    assert!(tracker.should_retry(key, 3));
    assert_eq!(tracker.increment(key), 3);

    // Fourth attempt - should not retry
    assert!(!tracker.should_retry(key, 3));

    // Reset
    tracker.reset(key);
    assert!(tracker.should_retry(key, 3));
}

#[test]
fn test_retry_tracker_failed_keys() {
    let mut tracker = RetryTracker::new();
    assert!(tracker.get_failed_keys().is_empty());
    tracker.increment("logs:user_1:10");
    tracker.increment("logs:user_2:10");
    tracker.increment("logs:user_1:10");
    let keys = tracker.get_failed_keys();
    assert_eq!(keys.len(), 2);
    assert!(keys.contains(&"logs:user_1:10".to_string()));
    assert!(keys.contains(&"logs:user_2:10".to_string()));
    tracker.reset("logs:user_1:10");
    assert_eq!(tracker.get_failed_keys(), vec!["logs:user_2:10".to_string()]);
}

#[test]
fn test_parse_drain_key_values() {
    let parsed = parse_drain_key("logs:user_123:19847").unwrap();
    assert_eq!(parsed.user_id, "123");
    assert_eq!(parsed.day, 19847);
    // A middle piece without the marker is taken whole.
    let bare = parse_drain_key("logs:123:5").unwrap();
    assert_eq!(bare.user_id, "123");
    assert_eq!(bare.day, 5);
    // A day that does not fit 64 bits is malformed.
    assert!(parse_drain_key("logs:user_123:18446744073709551616").is_err());
    assert!(parse_drain_key("logs:user_123:19847x").is_err());
}

#[test]
fn test_record_flush_outcome_progression() {
    let mut tracker = RetryTracker::new();
    let mut stats = CycleStats { drained: 0, failed: 0, retried: 0 };
    let key = "logs:user_9:1";

    assert_eq!(record_flush_outcome(&mut tracker, &mut stats, key, false, 3), FlushDisposition::WillRetry);
    assert_eq!(record_flush_outcome(&mut tracker, &mut stats, key, false, 3), FlushDisposition::WillRetry);
    assert_eq!(record_flush_outcome(&mut tracker, &mut stats, key, false, 3), FlushDisposition::DeadLetter);
    assert_eq!(stats, CycleStats { drained: 0, failed: 3, retried: 2 });

    assert_eq!(record_flush_outcome(&mut tracker, &mut stats, key, true, 3), FlushDisposition::Drained);
    assert_eq!(stats, CycleStats { drained: 1, failed: 3, retried: 2 });
    assert!(tracker.should_retry(key, 3));
}

// --- An in-memory store and file sink to run whole flush cycles against ---

struct MemStore {
    buckets: Vec<(String, Vec<String>)>,
}

impl MemStore {
    fn new() -> MemStore {
        MemStore { buckets: Vec::new() }
    }

    fn append(&mut self, key: &str, line: String) {
        for b in self.buckets.iter_mut() {
            if b.0 == key {
                b.1.push(line);
                return;
            }
        }
        self.buckets.push((key.to_string(), vec![line]));
    }

    fn read(&self, key: &str) -> Vec<String> {
        for b in self.buckets.iter() {
            if b.0 == key {
                return b.1.clone();
            }
        }
        Vec::new()
    }

    fn delete(&mut self, key: &str) {
        self.buckets.retain(|b| b.0 != key);
    }

    fn keys(&self) -> Vec<String> {
        self.buckets.iter().map(|b| b.0.clone()).collect()
    }

    fn contains(&self, key: &str) -> bool {
        self.buckets.iter().any(|b| b.0 == key)
    }
}

struct MemFiles {
    files: Vec<(String, Vec<String>)>,
    fail_writes: bool,
}

impl MemFiles {
    fn new() -> MemFiles {
        MemFiles { files: Vec::new(), fail_writes: false }
    }

    fn append_lines(&mut self, path: &str, lines: &[String]) {
        for f in self.files.iter_mut() {
            if f.0 == path {
                f.1.extend_from_slice(lines);
                return;
            }
        }
        self.files.push((path.to_string(), lines.to_vec()));
    }

    fn lines(&self, path: &str) -> Vec<String> {
        for f in self.files.iter() {
            if f.0 == path {
                return f.1.clone();
            }
        }
        Vec::new()
    }

    fn total_lines(&self) -> usize {
        self.files.iter().map(|f| f.1.len()).sum()
    }
}

/// Run one bucket flush to completion, performing the requested I/O against
/// the in-memory store and sink. Returns whether the flush succeeded.
fn flush_one(store: &mut MemStore, files: &mut MemFiles, key: &str) -> bool {
    let (mut state, mut action) = flush_begin();
    loop {
        let event = match action {
            FlushAction::Read => FlushEvent::ReadOk(store.read(key)),
            FlushAction::Write { ref path, ref lines } => {
                if files.fail_writes {
                    FlushEvent::WriteFailed("simulated write failure".to_string())
                } else {
                    files.append_lines(path, lines);
                    FlushEvent::WriteOk
                }
            }
            FlushAction::Delete => {
                store.delete(key);
                FlushEvent::DeleteOk
            }
            FlushAction::Stop => break,
        };
        let (next_state, next_action) = flush_step(key, state, event);
        state = next_state;
        action = next_action;
    }
    matches!(state, FlushState::Done { .. })
}

/// One drain cycle: enumerate every bucket and flush it, booking outcomes.
fn drain_cycle(
    store: &mut MemStore,
    files: &mut MemFiles,
    tracker: &mut RetryTracker,
    max_retries: u32,
) -> CycleStats {
    let mut stats = CycleStats { drained: 0, failed: 0, retried: 0 };
    for key in store.keys() {
        let ok = flush_one(store, files, &key);
        record_flush_outcome(tracker, &mut stats, &key, ok, max_retries);
    }
    stats
}

fn ingest(store: &mut MemStore, user_id: &str, label: &str, timestamp: u64) -> String {
    let event = LogEvent {
        user_id: user_id.to_string(),
        event: label.to_string(),
        timestamp,
    };
    let write = plan_cache_write(&event, Some(86400), false);
    store.append(&write.key, write.record.clone());
    write.key
}

#[test]
fn test_end_to_end_drain() {
    // Three events for one user within the same day drain into one file of
    // exactly three lines, and the bucket is gone afterwards.
    let mut store = MemStore::new();
    let mut files = MemFiles::new();
    let mut tracker = RetryTracker::new();

    let day_start = 19818 * 86400;
    let key = ingest(&mut store, "42", "a", day_start);
    assert_eq!(ingest(&mut store, "42", "b", day_start + 10), key);
    assert_eq!(ingest(&mut store, "42", "c", day_start + 86399), key);

    let stats = drain_cycle(&mut store, &mut files, &mut tracker, 3);
    assert_eq!(stats, CycleStats { drained: 1, failed: 0, retried: 0 });
    assert_eq!(files.lines("logs/user_42/19818.jsonl").len(), 3);
    assert!(!store.contains(&key));

    // A second cycle with no new data writes nothing more.
    let stats2 = drain_cycle(&mut store, &mut files, &mut tracker, 3);
    assert_eq!(stats2, CycleStats { drained: 0, failed: 0, retried: 0 });
    assert_eq!(files.total_lines(), 3);
}

#[test]
fn test_end_to_end_write_failure() {
    // An unwritable sink: the bucket key survives the cycle and the key's
    // failure count stands at one.
    let mut store = MemStore::new();
    let mut files = MemFiles::new();
    let mut tracker = RetryTracker::new();
    files.fail_writes = true;

    let key = ingest(&mut store, "42", "a", 19818 * 86400);
    let stats = drain_cycle(&mut store, &mut files, &mut tracker, 3);

    assert_eq!(stats, CycleStats { drained: 0, failed: 1, retried: 1 });
    assert!(store.contains(&key));
    assert_eq!(store.read(&key).len(), 1);
    assert_eq!(files.total_lines(), 0);
    // The count is exactly one: within a budget of two, out of a budget of one.
    assert!(tracker.should_retry(&key, 2));
    assert!(!tracker.should_retry(&key, 1));
}

#[test]
fn test_flush_retry_rewrites_full_content() {
    // A write failure part-way keeps the bucket whole; the next attempt
    // re-reads and re-writes the full original content.
    let mut store = MemStore::new();
    let mut files = MemFiles::new();

    let key = ingest(&mut store, "7", "x", 100);
    ingest(&mut store, "7", "y", 200);
    files.fail_writes = true;
    assert!(!flush_one(&mut store, &mut files, &key));
    assert!(store.contains(&key));
    assert_eq!(store.read(&key).len(), 2);

    files.fail_writes = false;
    assert!(flush_one(&mut store, &mut files, &key));
    assert_eq!(files.lines("logs/user_7/0.jsonl").len(), 2);
    assert!(!store.contains(&key));
}

#[test]
fn test_flush_empty_bucket_is_success_without_io() {
    let mut store = MemStore::new();
    let mut files = MemFiles::new();
    assert!(flush_one(&mut store, &mut files, "logs:user_9:1"));
    assert_eq!(files.total_lines(), 0);
}

#[test]
fn test_flush_malformed_key_fails() {
    let mut store = MemStore::new();
    let mut files = MemFiles::new();
    store.append("badkey", "line".to_string());
    assert!(!flush_one(&mut store, &mut files, "badkey"));
    // The malformed bucket is left alone.
    assert!(store.contains("badkey"));
    assert_eq!(files.total_lines(), 0);
}
