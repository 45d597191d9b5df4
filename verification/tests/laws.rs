//! The accounting laws on concrete values: one test per law proved over
//! `BucketRates`.

use std::time::Duration;

use better_bucket::{pack, unpack, BucketConfig, BucketRates, Decision};

/// 10 tokens per second: capacity 10,000 millitokens, 10 millitokens per
/// millisecond (10 * 10^9 millitoken-nanoseconds per millisecond over a
/// 10^9 ns period).
fn ten_per_second() -> BucketRates {
    BucketRates::from_config(&BucketConfig::new(10, 10, Duration::from_secs(1), 10).unwrap())
}

#[test]
fn test_rates_from_config() {
    let rates = ten_per_second();
    assert_eq!(rates.capacity_millitokens, 10_000);
    assert_eq!(rates.refill_numerator, 10_000_000_000);
    assert_eq!(rates.period_nanos, 1_000_000_000);
    // Capacity clamps to 32 bits of millitokens.
    let huge = BucketRates::from_config(
        &BucketConfig::new(u32::MAX, 1, Duration::from_secs(1), 0).unwrap(),
    );
    assert_eq!(huge.capacity_millitokens, u64::from(u32::MAX));
    assert_eq!(huge.capacity_tokens(), 4_294_967);
    // A period beyond u64::MAX nanoseconds counts as no refill.
    let slow = BucketRates::from_config(&BucketConfig::new(1, 1, Duration::MAX, 1).unwrap());
    assert_eq!(slow.refill_numerator, 0);
    assert_eq!(slow.period_nanos, 0);
}

#[test]
fn test_refilled_formula() {
    let rates = ten_per_second();
    // 250 ms at 10 tokens/s accrue 2,500 millitokens.
    assert_eq!(rates.refilled(0, 0, 250), 2_500);
    // Capped at capacity.
    assert_eq!(rates.refilled(9_000, 0, 1_000), 10_000);
    // No time, no refill.
    assert_eq!(rates.refilled(4_321, 77, 77), 4_321);
    // The tick wraps: from u32::MAX - 9 to 10 is 20 ms.
    assert_eq!(rates.refilled(0, u32::MAX - 9, 10), 200);
}

#[test]
fn test_tokens_within_capacity() {
    let rates = ten_per_second();
    for &word in &[0u64, pack(5_000, 3), pack(u64::MAX, 0), u64::MAX] {
        for &now in &[0u32, 1, 999, u32::MAX] {
            let available = rates.available_at(word, now);
            assert!(available <= rates.capacity_tokens());
        }
    }
}

#[test]
fn test_grant_deducts_exactly() {
    let rates = ten_per_second();
    let word = pack(10_000, 0);
    let (decision, next) = rates.step(word, 40, 3);
    assert_eq!(decision, Decision::Allowed);
    let next = next.unwrap();
    assert_eq!(unpack(next), (7_000, 40));
    // A read at the same tick sees exactly three fewer tokens.
    assert_eq!(rates.available_at(next, 40), 7);
    // A zero-token request is granted and writes nothing.
    assert_eq!(rates.step(word, 40, 0), (Decision::Allowed, None));
}

#[test]
fn test_never_over_grants_with_a_static_clock() {
    let rates = ten_per_second();
    let mut word = pack(10_000, 0);
    let mut granted = 0u64;
    for n in [4u32, 4, 4, 1, 1, 1] {
        if let (Decision::Allowed, Some(next)) = rates.step(word, 0, n) {
            word = next;
            granted += u64::from(n);
        }
    }
    assert_eq!(granted, 10);
    assert_eq!(rates.available_at(word, 0), 0);
}

#[test]
fn test_never_over_grants_with_refill() {
    let rates = ten_per_second();
    let mut word = pack(0, 0);
    let mut granted_mt = 0u64;
    for now in (0u32..=2_000).step_by(50) {
        if let (Decision::Allowed, Some(next)) = rates.step(word, now, 1) {
            word = next;
            granted_mt += 1_000;
        }
    }
    // Initial fill 0 plus 2,000 ms at 10 millitokens per ms.
    assert!(granted_mt + unpack(word).0 <= 20_000);
    assert_eq!(granted_mt, 20_000);
}

#[test]
fn test_retry_after_is_honest() {
    let rates = ten_per_second();
    let word = pack(0, 100);
    let (decision, next) = rates.step(word, 100, 5);
    assert_eq!(
        decision,
        Decision::Denied {
            retry_after: Duration::from_millis(500)
        }
    );
    assert_eq!(next, None);
    assert_eq!(rates.step(word, 600, 5).0, Decision::Allowed);
    assert_eq!(rates.step(word, 599, 5).0, Decision::Denied { retry_after: Duration::from_millis(1) });
}

#[test]
fn test_refused_forever() {
    let rates = ten_per_second();
    let word = pack(10_000, 0);
    // More than the capacity: refused at every tick.
    for now in [0u32, 1, 1_000_000, u32::MAX] {
        assert_eq!(
            rates.step(word, now, 11).0,
            Decision::Denied {
                retry_after: Duration::MAX
            }
        );
    }
    // A bucket that never refills refuses a shortfall forever.
    let frozen = BucketRates {
        capacity_millitokens: 5_000,
        refill_numerator: 0,
        period_nanos: 0,
    };
    let empty = pack(1_000, 0);
    assert_eq!(frozen.time_for(4_000, 0, 0), Duration::MAX);
    for now in [0u32, 10, u32::MAX] {
        assert!(frozen.step(empty, now, 2).0.is_denied());
    }
}

#[test]
fn test_reset_and_initial_words() {
    let rates = ten_per_second();
    let full = rates.full_word(1_234);
    assert_eq!(unpack(full), (10_000, 1_234));
    assert_eq!(rates.available_at(full, 1_234), 10);
    let config = BucketConfig::new(10, 10, Duration::from_secs(1), 4).unwrap();
    let initial = rates.initial_word(&config);
    assert_eq!(unpack(initial), (4_000, 0));
    assert_eq!(rates.available_at(initial, 0), 4);
}

#[test]
fn test_time_for_rounds_up() {
    // One token every 3 ms: exactly 333.33 millitokens per millisecond.
    let rates = BucketRates::from_config(
        &BucketConfig::new(1, 1, Duration::from_millis(3), 1).unwrap(),
    );
    assert_eq!(rates.refill_numerator, 1_000_000_000);
    assert_eq!(rates.period_nanos, 3_000_000);
    // A whole token takes exactly 3 ms from the last refill.
    assert_eq!(rates.time_for(1_000, 0, 0), Duration::from_millis(3));
    assert_eq!(rates.refilled(0, 0, 3), 1_000);
    // One millisecond in, 2 ms remain.
    assert_eq!(rates.time_for(1_000, 0, 1), Duration::from_millis(2));
    // 667 millitokens take 2.001 ms, rounded up to 3.
    assert_eq!(rates.time_for(667, 0, 0), Duration::from_millis(3));
    assert_eq!(rates.time_for(0, 0, 0), Duration::ZERO);
    assert_eq!(rates.time_for(1_000, 0, 5), Duration::ZERO);
    assert!(!rates.exceeds_capacity(1));
    assert!(rates.exceeds_capacity(2));
    // The tick wraps: from u32::MAX to 1 is 2 ms, so 1 ms remains.
    assert_eq!(rates.time_for(1_000, u32::MAX, 1), Duration::from_millis(1));
    // A stale tick 50 ms behind the last refill waits out its lag too.
    assert_eq!(rates.time_for(1_000, 200, 150), Duration::from_millis(53));
}

#[test]
fn test_retry_after_is_the_least_wait() {
    // One token every 3 ms, drained at tick 0, asked again at tick 1: the
    // least wait is 2 ms; 1 ms more is not enough.
    let rates = BucketRates::from_config(
        &BucketConfig::new(1, 1, Duration::from_millis(3), 1).unwrap(),
    );
    let drained = pack(0, 0);
    assert_eq!(
        rates.step(drained, 1, 1).0,
        Decision::Denied {
            retry_after: Duration::from_millis(2)
        }
    );
    assert!(rates.step(drained, 2, 1).0.is_denied());
    assert_eq!(rates.step(drained, 3, 1).0, Decision::Allowed);
}

#[test]
fn test_long_periods_still_refill() {
    // One token every 60 days refills slowly rather than never.
    let period = Duration::from_secs(60 * 24 * 60 * 60);
    let rates = BucketRates::from_config(&BucketConfig::new(1, 1, period, 0).unwrap());
    assert_eq!(rates.period_nanos, 5_184_000_000_000_000);
    // A day accrues a sixtieth of a token.
    assert_eq!(rates.refilled(0, 0, 86_400_000), 16);
    assert_eq!(rates.time_for(1_000, 0, 0), Duration::from_millis(5_184_000_000));
}

#[test]
fn test_no_lost_token() {
    // One-token requests against a full bucket at a still clock: exactly the
    // capacity is granted, one token per request, and none after.
    let rates = ten_per_second();
    let mut word = rates.full_word(7);
    let mut granted = 0u32;
    for _ in 0..25 {
        if let (Decision::Allowed, Some(next)) = rates.step(word, 7, 1) {
            word = next;
            granted += 1;
        }
    }
    assert_eq!(granted, 10);
    assert_eq!(unpack(word), (0, 7));
}

#[test]
fn test_zero_request_writes_nothing() {
    let rates = ten_per_second();
    let empty = pack(0, 3);
    assert_eq!(rates.step(empty, 3, 0), (Decision::Allowed, None));
    assert_eq!(rates.step(empty, 900, 0), (Decision::Allowed, None));
}

#[test]
fn test_stale_tick_refills_nothing() {
    // A thread that read tick 150 commits after another stamped tick 200:
    // the stale tick is no refill, not a gap of almost a whole wrap.
    let rates = ten_per_second();
    let word = pack(0, 200);
    assert_eq!(rates.refilled(0, 200, 150), 0);
    assert_eq!(rates.available_at(word, 150), 0);
    assert_eq!(
        rates.step(word, 150, 10),
        (
            Decision::Denied {
                retry_after: Duration::from_millis(1_050)
            },
            None
        )
    );
    // Once the reported wait has passed (tick 1,200), the request is granted.
    assert_eq!(rates.step(word, 1_200, 10).0, Decision::Allowed);
    assert!(rates.step(word, 1_199, 10).0.is_denied());
    // A grant at a stale tick keeps the word's later tick.
    let (decision, next) = rates.step(pack(5_000, 200), 150, 2);
    assert_eq!(decision, Decision::Allowed);
    assert_eq!(unpack(next.unwrap()), (3_000, 200));
    // A tick just past the stale window behind reads as a forward gap.
    assert_eq!(rates.refilled(0, 0x10_0000, 0), 10_000);
    assert_eq!(rates.refilled(0, 0x10_0000, 1), 0);
}

#[test]
fn test_never_over_grants_out_of_clock_order() {
    // Empty at tick 0; a request read at 200 ms commits before one read at
    // 150 ms. 200 ms accrue 2 tokens, so at most 2 are granted in all.
    let rates = ten_per_second();
    let mut word = pack(0, 0);
    let mut granted = 0u32;
    for (now, n) in [(200u32, 2u32), (150, 10)] {
        if let (Decision::Allowed, Some(next)) = rates.step(word, now, n) {
            word = next;
            granted += n;
        }
    }
    assert_eq!(granted, 2);
    assert_eq!(unpack(word), (0, 200));
}

#[test]
fn test_settle_reports_the_update() {
    let rates = ten_per_second();
    // A granted update is Allowed.
    assert_eq!(rates.settle(Ok(pack(10_000, 0)), 0, 3), Decision::Allowed);
    // A refused update carries the wait for the word it was refused from.
    assert_eq!(
        rates.settle(Err(pack(0, 100)), 100, 5),
        Decision::Denied {
            retry_after: Duration::from_millis(500)
        }
    );
    assert_eq!(
        rates.settle(Err(pack(0, 100)), 100, 11),
        Decision::Denied {
            retry_after: Duration::MAX
        }
    );
}
