use rscholar::retry::{
    exponential_delay, next_rate_limit_delay, retry_after_secs, RateLimitRetryPolicy,
    MAX_DURATION_NANOS,
};
use std::time::Duration;

fn policy(max_retries: u32, max_total_wait: u64, base: u64, max_delay: u64) -> RateLimitRetryPolicy {
    RateLimitRetryPolicy {
        max_retries,
        max_total_wait: Duration::from_secs(max_total_wait).as_nanos(),
        base_delay: Duration::from_secs(base).as_nanos(),
        max_delay: Duration::from_secs(max_delay).as_nanos(),
    }
}

#[test]
fn test_retry_after_header_is_used_and_capped() {
    let policy = policy(3, 30, 1, 10);

    let delay = next_rate_limit_delay(Some("120"), 1, Duration::ZERO.as_nanos(), policy).unwrap();

    assert_eq!(delay, Duration::from_secs(10).as_nanos());
}

#[test]
fn test_retry_stops_after_max_retries() {
    let policy = policy(2, 30, 1, 10);

    assert!(next_rate_limit_delay(None, 3, Duration::ZERO.as_nanos(), policy).is_none());
}

#[test]
fn test_retry_stops_when_total_wait_exhausted() {
    let policy = policy(3, 5, 1, 10);

    assert!(
        next_rate_limit_delay(None, 1, Duration::from_secs(5).as_nanos(), policy).is_none()
    );
}

#[test]
fn backoff_doubles_per_attempt_without_retry_after() {
    let policy = policy(5, 60, 1, 16);
    let secs = |attempt: u32| {
        next_rate_limit_delay(None, attempt, 0, policy).map(|d| d / 1_000_000_000)
    };
    assert_eq!(secs(1), Some(1));
    assert_eq!(secs(2), Some(2));
    assert_eq!(secs(3), Some(4));
    assert_eq!(secs(5), Some(16));
}

#[test]
fn delay_is_limited_by_remaining_total_wait() {
    let policy = policy(5, 10, 4, 16);
    let delay = next_rate_limit_delay(Some(" 9 "), 1, Duration::from_secs(7).as_nanos(), policy);
    assert_eq!(delay, Some(Duration::from_secs(3).as_nanos()));
}

#[test]
fn unreadable_retry_after_falls_back_to_backoff() {
    let policy = policy(5, 60, 2, 16);
    let delay = next_rate_limit_delay(Some("soon"), 2, 0, policy);
    assert_eq!(delay, Some(Duration::from_secs(4).as_nanos()));
}

#[test]
fn zero_retry_after_gives_no_delay() {
    let policy = policy(5, 60, 2, 16);
    assert_eq!(next_rate_limit_delay(Some("0"), 1, 0, policy), None);
}

#[test]
fn exponential_delay_caps_exponent_and_saturates() {
    assert_eq!(exponential_delay(3, 0), 3);
    assert_eq!(exponential_delay(3, 1), 3);
    assert_eq!(exponential_delay(3, 11), 3 * 1024);
    assert_eq!(exponential_delay(3, 40), 3 * 1024);
    assert_eq!(exponential_delay(MAX_DURATION_NANOS, 3), MAX_DURATION_NANOS);
    assert_eq!(MAX_DURATION_NANOS, Duration::MAX.as_nanos());
}

#[test]
fn retry_after_reads_trimmed_number() {
    assert_eq!(retry_after_secs(Some(" 120 ")), Some(120));
    assert_eq!(retry_after_secs(Some("+7")), Some(7));
    assert_eq!(retry_after_secs(Some("-1")), None);
    assert_eq!(retry_after_secs(Some("Wed, 21 Oct 2015 07:28:00 GMT")), None);
    assert_eq!(retry_after_secs(None), None);
}

#[test]
fn conservative_policy_values() {
    let p = RateLimitRetryPolicy::conservative();
    assert_eq!(p.max_retries, 5);
    assert_eq!(p.max_total_wait, Duration::from_secs(60).as_nanos());
    assert_eq!(p.base_delay, Duration::from_secs(1).as_nanos());
    assert_eq!(p.max_delay, Duration::from_secs(16).as_nanos());
}
