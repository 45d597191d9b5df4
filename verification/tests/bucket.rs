use std::sync::Arc;
use std::time::Duration;

use better_bucket::{pack, unpack, Bucket, Decision, TokenBucket};
use clock_lib::{ManualClock, SystemClock};

/// A bucket driven by a `ManualClock` the test controls, so refill is
/// deterministic with no real time passing.
fn manual_bucket(rate: u32) -> (Arc<ManualClock>, Bucket<Arc<ManualClock>>) {
    let clock = Arc::new(ManualClock::new());
    let bucket = Bucket::per_second(rate).with_clock(Arc::clone(&clock));
    (clock, bucket)
}

fn assert_send_sync<T: Send + Sync>() {}

#[test]
fn test_bucket_is_send_and_sync() {
    assert_send_sync::<Bucket<SystemClock>>();
    assert_send_sync::<Bucket<Arc<ManualClock>>>();
}

#[test]
fn test_starts_full() {
    let (_clock, bucket) = manual_bucket(10);
    assert_eq!(bucket.available(), 10);
    assert_eq!(bucket.capacity(), 10);
}

#[test]
fn test_acquire_deducts_tokens() {
    let (_clock, bucket) = manual_bucket(10);
    assert_eq!(bucket.acquire(3), Decision::Allowed);
    assert_eq!(bucket.available(), 7);
}

#[test]
fn test_exact_empty_then_denied() {
    let (_clock, bucket) = manual_bucket(10);
    assert!(bucket.try_acquire(10)); // exact-empty
    assert_eq!(bucket.available(), 0);
    assert!(!bucket.try_acquire(1));
}

#[test]
fn test_acquire_zero_always_allowed() {
    let (_clock, bucket) = manual_bucket(1);
    assert!(bucket.try_acquire(1)); // drain
    assert!(!bucket.try_acquire(1));
    assert!(bucket.try_acquire(0)); // still allowed when empty
}

#[test]
fn test_request_above_capacity_never_grantable() {
    let (_clock, bucket) = manual_bucket(5);
    assert_eq!(
        bucket.acquire(6),
        Decision::Denied {
            retry_after: Duration::MAX
        }
    );
}

#[test]
fn test_full_refill_after_one_period() {
    let (clock, bucket) = manual_bucket(10);
    assert!(bucket.try_acquire(10));
    assert!(!bucket.try_acquire(1));
    clock.advance(Duration::from_secs(1));
    assert_eq!(bucket.available(), 10);
    assert!(bucket.try_acquire(10));
}

#[test]
fn test_partial_refill_is_proportional() {
    let (clock, bucket) = manual_bucket(100);
    assert!(bucket.try_acquire(100));
    clock.advance(Duration::from_millis(250)); // a quarter second
    assert_eq!(bucket.available(), 25);
}

#[test]
fn test_refill_saturates_at_capacity() {
    let (clock, bucket) = manual_bucket(10);
    assert!(bucket.try_acquire(10));
    clock.advance(Duration::from_secs(100)); // would be 1000 tokens
    assert_eq!(bucket.available(), 10); // clamped to capacity
}

#[test]
fn test_denied_reports_retry_after() {
    let (_clock, bucket) = manual_bucket(10);
    assert!(bucket.try_acquire(10)); // empty
    // Five tokens at 10/sec accrue in 500ms.
    assert_eq!(
        bucket.acquire(5),
        Decision::Denied {
            retry_after: Duration::from_millis(500)
        }
    );
}

#[test]
fn test_per_duration_uses_custom_period() {
    let clock = Arc::new(ManualClock::new());
    let bucket =
        Bucket::per_duration(5, Duration::from_millis(100)).with_clock(Arc::clone(&clock));
    assert!(bucket.try_acquire(5));
    clock.advance(Duration::from_millis(100));
    assert_eq!(bucket.available(), 5);
}

#[test]
fn test_sub_millisecond_period_still_refills() {
    // 5 tokens per 200µs ⇒ 25 tokens/ms. The millisecond tick is coarse but
    // the rate is computed from nanoseconds, so a full ms refills fully.
    let clock = Arc::new(ManualClock::new());
    let bucket =
        Bucket::per_duration(5, Duration::from_micros(200)).with_clock(Arc::clone(&clock));
    assert!(bucket.try_acquire(5));
    clock.advance(Duration::from_millis(1));
    assert_eq!(bucket.available(), 5); // capped at capacity
}

#[test]
fn test_zero_rate_is_deny_all() {
    let bucket = Bucket::per_second(0);
    assert_eq!(bucket.capacity(), 0);
    assert_eq!(bucket.available(), 0);
    assert!(!bucket.try_acquire(1));
    assert!(bucket.try_acquire(0));
}

#[test]
fn test_reset_refills_to_capacity() {
    let (_clock, bucket) = manual_bucket(5);
    assert!(bucket.try_acquire(5));
    assert_eq!(bucket.available(), 0);
    bucket.reset();
    assert_eq!(bucket.available(), 5);
}

#[test]
fn test_trait_object_safe_surface() {
    let (_clock, bucket) = manual_bucket(4);
    let as_trait: &dyn TokenBucket = &bucket;
    assert_eq!(as_trait.capacity(), 4);
    assert!(as_trait.try_acquire(4));
    assert!(!as_trait.try_acquire(1));
}

#[test]
fn test_pack_unpack_round_trip() {
    for &mt in &[0_u64, 1, 1_000, 50_000, u64::from(u32::MAX)] {
        for &ms in &[0_u32, 1, 1_000, u32::MAX] {
            let (got_mt, got_ms) = unpack(pack(mt, ms));
            assert_eq!(got_mt, mt.min(u64::from(u32::MAX)));
            assert_eq!(got_ms, ms);
        }
    }
}

#[test]
fn test_pack_clamps_oversized_millitokens() {
    let (got_mt, got_ms) = unpack(pack(u64::MAX, 7));
    assert_eq!(got_mt, u64::from(u32::MAX));
    assert_eq!(got_ms, 7);
    assert_eq!(pack(3, 5), (3u64 << 32) | 5);
}

#[test]
fn test_with_clock_resets_to_initial_fill() {
    let clock = Arc::new(ManualClock::new());
    let bucket = Bucket::per_second(6);
    assert!(bucket.try_acquire(6));
    let bucket = bucket.with_clock(Arc::clone(&clock));
    assert_eq!(bucket.available(), 6);
    assert_eq!(bucket.config().capacity(), 6);
}

#[test]
fn test_config_round_trips_through_bucket() {
    let bucket = Bucket::per_duration(7, Duration::from_millis(300));
    let config = bucket.config();
    assert_eq!(config.capacity(), 7);
    assert_eq!(config.refill_amount(), 7);
    assert_eq!(config.refill_period(), Duration::from_millis(300));
    assert_eq!(config.initial(), 7);
}

#[test]
fn test_degenerate_per_duration_grants_nothing() {
    let zero_period = Bucket::per_duration(5, Duration::ZERO);
    assert_eq!(zero_period.capacity(), 0);
    assert_eq!(zero_period.config().refill_period(), Duration::from_secs(1));
    assert!(!zero_period.try_acquire(1));
    let zero_amount = Bucket::per_duration(0, Duration::from_secs(1));
    assert_eq!(zero_amount.capacity(), 0);
    assert_eq!(
        zero_amount.acquire(1),
        Decision::Denied {
            retry_after: Duration::MAX
        }
    );
}

#[test]
fn test_borrowed_and_boxed_clocks_drive_the_bucket() {
    let clock = ManualClock::new();
    let borrowed = Bucket::per_second(4).with_clock(&clock);
    assert!(borrowed.try_acquire(4));
    clock.advance(Duration::from_millis(500));
    assert_eq!(borrowed.available(), 2);

    let boxed = Bucket::per_second(4).with_clock(Box::new(ManualClock::new()));
    assert!(boxed.try_acquire(3));
    assert_eq!(boxed.available(), 1);
    let as_trait: &dyn TokenBucket = &boxed;
    assert_eq!(as_trait.capacity(), 4);
}
