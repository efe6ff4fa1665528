use bsmcp::rate_limit::{
    advertised_limit, jitter, jitter_millis, mix_jitter, parse_retry_after, RateCaps,
};
use std::time::Duration;

fn caps(rpm: f64) -> RateCaps {
    RateCaps { capacity: rpm.to_bits(), tokens: rpm.to_bits(), observed: None }
}

#[test]
fn observe_limit_lowers_capacity() {
    let mut limiter = caps(180.0);
    let rpm = advertised_limit("60").unwrap();
    limiter.observe((rpm as f64).to_bits());
    assert_eq!(f64::from_bits(limiter.capacity), 60.0);
    assert_eq!(f64::from_bits(limiter.tokens), 60.0);
    assert!((f64::from_bits(limiter.capacity) / 60.0 - 1.0).abs() < f64::EPSILON);
    assert_eq!(limiter.observed.map(f64::from_bits), Some(60.0));
}

#[test]
fn observe_limit_never_raises() {
    let mut limiter = caps(60.0);
    let rpm = advertised_limit("9999").unwrap();
    limiter.observe((rpm as f64).to_bits());
    assert_eq!(f64::from_bits(limiter.capacity), 60.0);
    assert_eq!(limiter.observed.map(f64::from_bits), Some(9999.0));
}

#[test]
fn observe_limit_ignores_garbage_header() {
    let limiter = caps(60.0);
    assert_eq!(advertised_limit("nope"), None);
    assert_eq!(f64::from_bits(limiter.capacity), 60.0);
    assert_eq!(limiter.observed, None);
}

#[test]
fn a_limit_of_zero_counts_for_nothing() {
    assert_eq!(advertised_limit("0"), None);
    assert_eq!(advertised_limit(" 12 "), Some(12));
    assert_eq!(advertised_limit("4294967296"), None);
}

#[test]
fn the_lowest_limit_stays() {
    let mut limiter = caps(180.0);
    for rpm in [90.0f64, 30.0, 120.0, 45.0] {
        limiter.observe(rpm.to_bits());
    }
    assert_eq!(f64::from_bits(limiter.capacity), 30.0);
    assert_eq!(limiter.observed.map(f64::from_bits), Some(45.0));
}

#[test]
fn parse_retry_after_integer_seconds() {
    assert_eq!(parse_retry_after("12"), Some(Duration::from_secs(12)));
    assert_eq!(parse_retry_after(" 7 "), Some(Duration::from_secs(7)));
    assert_eq!(parse_retry_after("0"), Some(Duration::from_secs(0)));
}

#[test]
fn parse_retry_after_rejects_http_date() {
    assert_eq!(parse_retry_after("Wed, 21 Oct 2015 07:28:00 GMT"), None);
    assert_eq!(parse_retry_after("not-a-number"), None);
}

#[test]
fn jitter_within_bound() {
    for counter in 0..100 {
        let j = jitter(500, counter);
        assert!(j < Duration::from_millis(500), "jitter {:?} not < 500ms", j);
        assert!(jitter_millis(500, counter) < 500);
    }
}

#[test]
fn jitter_zero_returns_zero() {
    assert_eq!(jitter(0, 1), Duration::from_millis(0));
    assert_eq!(jitter_millis(0, 1), 0);
}

#[test]
fn jitter_desyncs_concurrent_callers() {
    let mut samples = std::collections::HashSet::new();
    for counter in 0..32 {
        samples.insert(jitter(500, counter).as_millis());
    }
    assert!(samples.len() > 1, "jitter degenerated to a constant");
}

#[test]
fn jitter_is_mixed_from_clock_and_counter() {
    let expected = 3u64
        .wrapping_mul(0x9E37_79B9_7F4A_7C15)
        .wrapping_add(5u64.wrapping_mul(0xBF58_476D_1CE4_E5B9))
        % 500;
    assert_eq!(mix_jitter(3, 5, 500), expected);
    assert_eq!(mix_jitter(0, 0, 500), 0);
}

#[test]
fn calls_in_the_same_nanosecond_differ() {
    let delays: std::collections::HashSet<u64> =
        (0..32).map(|counter| mix_jitter(7, counter, u64::MAX)).collect();
    assert_eq!(delays.len(), 32);
    assert_eq!(mix_jitter(7, 1, 500), 244);
}
