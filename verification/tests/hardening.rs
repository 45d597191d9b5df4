use std::sync::Arc;
use std::time::Duration;

use better_bucket::{Bucket, BucketConfig, Decision};
use clock_lib::ManualClock;

fn manual(rate: u32) -> (Arc<ManualClock>, Bucket<Arc<ManualClock>>) {
    let clock = Arc::new(ManualClock::new());
    let bucket = Bucket::per_second(rate).with_clock(Arc::clone(&clock));
    (clock, bucket)
}

#[test]
fn test_request_at_u32_max_never_panics_and_is_denied_forever() {
    let (_clock, bucket) = manual(5);
    assert_eq!(
        bucket.acquire(u32::MAX),
        Decision::Denied {
            retry_after: Duration::MAX
        }
    );
    assert!(!bucket.try_acquire(u32::MAX));
}

#[test]
fn test_capacity_at_u32_max_constructs_and_works() {
    let bucket = Bucket::per_second(u32::MAX);
    assert!(bucket.capacity() > 0);
    assert!(bucket.capacity() <= 4_294_967); // ~u32::MAX millitokens / 1000
    assert!(bucket.try_acquire(1));
    assert!(bucket.available() <= bucket.capacity());
}

#[test]
fn test_extreme_rate_does_not_overflow() {
    let (clock, bucket) = {
        let clock = Arc::new(ManualClock::new());
        let bucket =
            Bucket::per_duration(u32::MAX, Duration::from_nanos(1)).with_clock(Arc::clone(&clock));
        (clock, bucket)
    };
    assert!(bucket.try_acquire(1));
    clock.advance(Duration::from_millis(1)); // would accrue an astronomical amount
    assert!(bucket.available() <= bucket.capacity()); // clamped, no wrap
    assert!(bucket.try_acquire(1));
}

#[test]
fn test_near_zero_rate_is_effectively_static() {
    let bucket = Bucket::per_duration(1, Duration::MAX);
    assert!(bucket.try_acquire(1)); // the initial token
    assert_eq!(
        bucket.acquire(1),
        Decision::Denied {
            retry_after: Duration::MAX
        }
    );
}

#[test]
fn test_config_with_huge_values_validates() {
    let config = BucketConfig::new(u32::MAX, u32::MAX, Duration::from_nanos(1), u32::MAX).unwrap();
    let bucket = Bucket::from_config(config);
    assert!(bucket.try_acquire(1));
    assert!(bucket.available() <= bucket.capacity());
}

#[test]
fn test_capacity_one_boundaries() {
    let (_clock, bucket) = manual(1);
    assert_eq!(bucket.capacity(), 1);
    assert!(bucket.try_acquire(0)); // n = 0
    assert!(bucket.try_acquire(1)); // n = capacity
    assert!(!bucket.try_acquire(1)); // now empty
    assert_eq!(
        bucket.acquire(2), // n = capacity + 1
        Decision::Denied {
            retry_after: Duration::MAX
        }
    );
    assert!(bucket.try_acquire(0)); // n = 0 still allowed when empty
}

#[test]
fn test_n_around_capacity() {
    let (_clock, bucket) = manual(10);
    assert!(bucket.try_acquire(9)); // capacity - 1
    assert_eq!(bucket.available(), 1);
    assert!(!bucket.try_acquire(2)); // more than what's left
    assert!(bucket.try_acquire(1)); // the last token
    assert_eq!(bucket.available(), 0);
}

#[test]
fn test_exact_full_then_exact_empty() {
    let (_clock, bucket) = manual(8);
    assert_eq!(bucket.available(), 8); // exact-full
    assert!(bucket.try_acquire(8));
    assert_eq!(bucket.available(), 0); // exact-empty
}

#[test]
fn test_zero_time_delta_does_not_refill() {
    let (_clock, bucket) = manual(100);
    assert!(bucket.try_acquire(100));
    for _ in 0..5 {
        assert_eq!(bucket.available(), 0);
        assert!(!bucket.try_acquire(1));
    }
}

#[test]
fn test_clock_not_advancing_holds_steady() {
    let (_clock, bucket) = manual(50);
    assert!(bucket.try_acquire(20));
    let after = bucket.available();
    for _ in 0..10 {
        assert_eq!(bucket.available(), after);
    }
}

#[test]
fn test_active_bucket_keeps_refilling_past_the_wrap_window() {
    // The 32-bit millisecond field wraps at ~49.7 days; an actively used
    // bucket must keep refilling across that boundary.
    let (clock, bucket) = manual(10);
    assert!(bucket.try_acquire(10)); // drain

    for step in 1..=3 {
        clock.advance(Duration::from_secs(40 * 24 * 60 * 60));
        assert_eq!(
            bucket.available(),
            10,
            "refill stalled at step {step} after crossing the wrap window"
        );
        assert!(bucket.try_acquire(10));
    }
}

#[test]
fn test_enormous_single_advance_clamps_without_wrapping() {
    let (clock, bucket) = manual(1_000);
    assert!(bucket.try_acquire(1_000));
    clock.advance(Duration::from_secs(10_000_000_000));
    let available = bucket.available();
    assert!(available <= bucket.capacity());
    let _ = bucket.try_acquire(1);
    assert!(bucket.available() <= bucket.capacity());
}

#[test]
fn test_idle_past_the_wrap_window_under_refills_but_never_over_grants() {
    // Left fully idle for one wrap plus 100 ms, the bucket sees only 100 ms
    // of refill: a conservative under-refill, never an over-grant.
    let (clock, bucket) = manual(10);
    assert!(bucket.try_acquire(10));
    clock.advance(Duration::from_millis((1u64 << 32) + 100));
    assert_eq!(bucket.available(), 1);
}
