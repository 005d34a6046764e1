use ingestion::rate_limiter::IbRateLimiter;
use ingestion::rate_limiter::IbRateLimiterConfig;
use ingestion::rate_limiter::RateLimitWindow;

fn limiter(windows: [(usize, u64); 3]) -> IbRateLimiter {
    IbRateLimiter::new(IbRateLimiterConfig {
        account_id: "test-account".to_string(),
        ten_minute_window: RateLimitWindow::new(windows[0].0, windows[0].1),
        contract_window: RateLimitWindow::new(windows[1].0, windows[1].1),
        duplicate_request_window: RateLimitWindow::new(windows[2].0, windows[2].1),
    })
}

#[test]
fn lua_script_blocks_requests_within_short_window() {
    // (limit, duration_secs): 10 req/60s, 10 req/10s, 1 req/1s.
    let mut l = limiter([(10, 60), (10, 10), (1, 1)]);
    let t0: i64 = 50_000;

    assert!(l.try_acquire(t0, 1));
    assert!(!l.try_acquire(t0 + 10, 2));

    // After the 1 s window (plus a 100 ms buffer) the slot is free.
    assert!(l.try_acquire(t0 + 1_100, 3));
}

#[test]
fn lua_script_enforces_contract_window_limits() {
    // (limit, duration_secs): 100 req/60s, 3 req/2s, 10 req/1s.
    let mut l = limiter([(100, 60), (3, 2), (10, 1)]);
    let t0: i64 = 1_000_000;

    assert!(l.try_acquire(t0, 1));
    assert!(l.try_acquire(t0 + 1, 2));
    assert!(l.try_acquire(t0 + 2, 3));
    // Fourth request blocks: the 3-per-2s window is saturated.
    assert!(!l.try_acquire(t0 + 3, 4));

    // After the 2 s window (plus a 200 ms buffer) it is admitted.
    assert!(l.try_acquire(t0 + 2_200, 5));
}

#[test]
fn test_rate_limiter_allows_requests_within_limit() {
    let mut l = limiter([(20, 10), (3, 2), (2, 1)]);
    let t0: i64 = 0;
    assert!(l.try_acquire(t0, 1));
    assert!(l.try_acquire(t0 + 5, 2));
}

#[test]
fn test_rate_limiter_blocks_requests_exceeding_short_limit() {
    let mut l = limiter([(20, 10), (3, 2), (2, 1)]);
    let t0: i64 = 10_000;
    assert!(l.try_acquire(t0, 1));
    assert!(l.try_acquire(t0 + 1, 2));
    // Third request must wait for the 2-per-second window.
    assert!(!l.try_acquire(t0 + 2, 3));
    assert!(!l.try_acquire(t0 + 999, 4));
    assert!(l.try_acquire(t0 + 1_600, 5));
}

#[test]
fn test_rate_limiter_resets_after_window() {
    let mut l = limiter([(20, 10), (3, 2), (2, 1)]);
    let t0: i64 = 77_000;
    assert!(l.try_acquire(t0, 1));
    assert!(l.try_acquire(t0 + 1, 2));
    assert!(!l.try_acquire(t0 + 500, 3));
    // After the 1 s window (plus buffer) requests flow again.
    assert!(l.try_acquire(t0 + 1_100, 4));
}

#[test]
fn test_rate_limiter_respects_multiple_windows() {
    // Windows (100, 60 s), (3, 3 s), (10, 1 s): the middle window
    // governs a burst of four.
    let mut l = limiter([(100, 60), (3, 3), (10, 1)]);
    let t0: i64 = 5_000;
    assert!(l.try_acquire(t0, 1));
    assert!(l.try_acquire(t0 + 10, 2));
    assert!(l.try_acquire(t0 + 20, 3));
    assert!(!l.try_acquire(t0 + 30, 4));
    assert!(!l.try_acquire(t0 + 2_900, 5));
    assert!(l.try_acquire(t0 + 3_100, 6));
}

#[test]
fn denied_attempt_leaves_windows_unchanged() {
    // One slot per 10 s: a denied attempt must not extend the wait.
    let mut l = limiter([(1, 10), (100, 60), (100, 60)]);
    let t0: i64 = 0;
    assert!(l.try_acquire(t0, 1));
    assert!(!l.try_acquire(t0 + 9_000, 2));
    // Had the denial been recorded, this would still be blocked.
    assert!(l.try_acquire(t0 + 10_001, 3));
}

#[test]
fn default_config_windows() {
    let c = IbRateLimiterConfig::default();
    assert_eq!(c.account_id, "U12345");
    assert_eq!(c.ten_minute_window.limit, 60);
    assert_eq!(c.ten_minute_window.duration_secs, 600);
    assert_eq!(c.contract_window.limit, 6);
    assert_eq!(c.contract_window.duration_secs, 2);
    assert_eq!(c.duplicate_request_window.limit, 1);
    assert_eq!(c.duplicate_request_window.duration_secs, 15);
}

#[test]
fn zero_limit_window_denies_everything() {
    let mut l = limiter([(0, 10), (100, 60), (100, 60)]);
    assert!(!l.try_acquire(0, 1));
    assert!(!l.try_acquire(100_000, 2));
}
