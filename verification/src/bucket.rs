//! The token bucket and the `TokenBucket` trait.
//!
//! All mutable state is one atomic word (see `state`): the token count in
//! millitokens and the millisecond tick of the last refill. An acquire reads
//! the injected clock once, then applies the verified transition
//! `BucketRates::step` to the word atomically; refill is computed lazily from
//! the elapsed time, with no timer thread.

use core::sync::atomic::{AtomicU64, Ordering};
use core::time::Duration;

use clock_lib::{Monotonic, SystemClock};
use vstd::prelude::*;

use crate::config::{BucketConfig, config_holds};
use crate::decision::Decision;
use crate::state::BucketRates;
use crate::time::{
    duration_as_nanos, duration_from_secs, duration_max, duration_nanos,
    max_duration_nanos, tick_of, TimeSource,
};

verus! {

/// Applies one acquire of `n` tokens at tick `now_ms` to the state word with
/// `AtomicU64::fetch_update`, whose closure is the verified transition.
/// std documents that `fetch_update` returns `Ok(previous)` when the closure
/// returned `Some` for `previous` (and that value was then stored), and
/// `Err(previous)` when it returned `None`; the closure is deterministic, so
/// the result says whether the request was granted from the word it saw.
/// Which word that is depends on other threads: nothing more is stated.
#[verifier::external_body]
fn update_word(state: &AtomicU64, rates: &BucketRates, now_ms: u32, n: u32) -> (r: Result<u64, u64>)
    requires
        rates.wf(),
    ensures
        match r {
            Ok(previous) => rates.grants(previous, now_ms, n),
            Err(previous) => !rates.grants(previous, now_ms, n),
        },
{
    state.fetch_update(Ordering::Relaxed, Ordering::Relaxed, |word| rates.step(word, now_ms, n).1)
}

/// Reads the state word.
fn load_word(state: &AtomicU64) -> u64 {
    state.load(Ordering::Relaxed)
}

/// Overwrites the state word.
fn store_word(state: &AtomicU64, word: u64) {
    state.store(word, Ordering::Relaxed)
}

/// Maps a request for the infallible constructors to a configuration: a
/// degenerate request (zero capacity, amount or period) becomes a bucket
/// that grants nothing.
fn tier1_config(capacity: u32, amount: u32, period: Duration, initial: u32) -> (config: BucketConfig)
    ensures
        capacity == 0 || amount == 0 || duration_nanos(period) == 0 ==> config@.capacity == 0
            && config@.refill_amount == 0 && duration_nanos(config@.refill_period) == 1_000_000_000
            && config@.initial == 0,
        !(capacity == 0 || amount == 0 || duration_nanos(period) == 0) ==> config_holds(
            config@,
            capacity,
            amount,
            period,
            initial,
        ),
{
    if capacity == 0 || amount == 0 || duration_as_nanos(period) == 0 {
        BucketConfig::raw(0, 0, duration_from_secs(1), 0)
    } else {
        BucketConfig::raw(capacity, amount, period, initial)
    }
}

/// A token bucket: it holds up to its capacity in tokens, accrues more at a
/// fixed rate, and grants them on demand, never more than it holds.
///
/// `C` is the time source: `SystemClock` by default, or a `ManualClock` that a
/// test drives by hand, typically shared as `Arc<ManualClock>`.
#[derive(Debug)]
pub struct Bucket<C = SystemClock> {
    /// The packed state word: millitokens and the tick of the last refill.
    state: AtomicU64,
    /// Capacity and refill rate, derived from `config`.
    rates: BucketRates,
    /// The monotonic anchor that the tick counts from.
    created_at: Monotonic,
    /// The configuration the bucket was built from.
    config: BucketConfig,
    /// The injected time source.
    clock: C,
}

/// Builds a bucket from a configuration and a clock, anchored at the clock's
/// current reading and filled to the configured initial tokens.
fn build<C: TimeSource>(config: BucketConfig, clock: C) -> (bucket: Bucket<C>)
    ensures
        bucket.spec_config() == config,
        bucket.spec_clock() == clock,
{
    let created_at = clock.reading();
    let rates = BucketRates::from_config(&config);
    let word = rates.initial_word(&config);
    Bucket { state: AtomicU64::new(word), rates, created_at, config, clock }
}

impl<C> Bucket<C> {
    #[verifier::type_invariant]
    spec fn rates_match_config(self) -> bool {
        self.rates == BucketRates::spec_from_config(self.config@) && self.rates.wf()
    }

    /// The configuration the bucket was built from.
    pub closed spec fn spec_config(&self) -> BucketConfig {
        self.config
    }

    /// The bucket's time source.
    pub closed spec fn spec_clock(&self) -> C {
        self.clock
    }

    /// The capacity and refill rate that the configuration describes.
    pub open spec fn rates(&self) -> BucketRates {
        BucketRates::spec_from_config(self.spec_config()@)
    }

    /// Whether `decision` is the outcome of a request for `n` tokens against
    /// some state word at some tick: the word and the tick are what the
    /// request observed, which depends on other threads and on the clock.
    pub open spec fn acquire_ok(&self, decision: Decision, n: u32) -> bool {
        exists|word: u64, now: u32| #[trigger]
            self.rates().decision_ok(decision, word as int, now as int, n as int)
    }
}

impl<C: TimeSource> Bucket<C> {
    /// Replaces the time source, resetting the bucket to its initial fill
    /// anchored at the new clock's current reading.
    pub fn with_clock<C2: TimeSource>(self, clock: C2) -> (bucket: Bucket<C2>)
        ensures
            bucket.spec_config() == self.spec_config(),
            bucket.spec_clock() == clock,
    {
        build(self.config, clock)
    }

    /// Attempts to take `n` tokens. Zero tokens are always granted; more than
    /// the capacity never are (`retry_after` is `Duration::MAX`). Otherwise
    /// the tokens are granted if the lazily refilled bucket holds them, and
    /// the refusal carries the wait until it will.
    pub fn acquire(&self, n: u32) -> (decision: Decision)
        ensures
            self.acquire_ok(decision, n),
            n == 0 ==> decision is Allowed,
            n * 1000 > self.rates().capacity_millitokens ==> decision is Denied && duration_nanos(
                decision->retry_after,
            ) == max_duration_nanos(),
    {
        self.acquire_inner(n)
    }

    /// Attempts to take `n` tokens, returning whether they were granted.
    pub fn try_acquire(&self, n: u32) -> (granted: bool)
        ensures
            granted ==> exists|word: u64, now: u32| #[trigger]
                self.rates().allows(word as int, now as int, n as int),
            !granted ==> exists|word: u64, now: u32| !#[trigger]
                self.rates().allows(word as int, now as int, n as int),
            n == 0 ==> granted,
            n * 1000 > self.rates().capacity_millitokens ==> !granted,
    {
        let decision = self.acquire_inner(n);
        let granted = decision.is_allowed();
        proof {
            let (word, now) = choose|word: u64, now: u32| #[trigger]
                self.rates().decision_ok(decision, word as int, now as int, n as int);
            assert(self.rates().allows(word as int, now as int, n as int) == granted);
        }
        granted
    }

    /// The whole tokens available now, after lazy refill; never more than
    /// the capacity. A snapshot: other threads may change it at once.
    pub fn available(&self) -> (tokens: u32)
        ensures
            exists|word: u64, now: u32| tokens == #[trigger] self.rates().level(word as int, now as int)
                / 1000,
            tokens <= self.rates().capacity_millitokens / 1000,
    {
        proof {
            use_type_invariant(self);
        }
        let now = self.now_ms();
        let word = load_word(&self.state);
        let tokens = self.rates.available_at(word, now);
        assert(tokens == self.rates().level(word as int, now as int) / 1000);
        tokens
    }

    /// The capacity (burst ceiling) in whole tokens.
    pub fn capacity(&self) -> (tokens: u32)
        ensures
            tokens == self.rates().capacity_millitokens / 1000,
    {
        proof {
            use_type_invariant(self);
        }
        self.rates.capacity_tokens()
    }

    /// The configuration the bucket was built from.
    pub fn config(&self) -> (config: BucketConfig)
        ensures
            config == self.spec_config(),
    {
        self.config
    }

    /// Refills the bucket to full and re-bases its refill tick to now: the
    /// word stored holds exactly the capacity at the current tick.
    pub fn reset(&self) {
        proof {
            use_type_invariant(self);
        }
        let now = self.now_ms();
        let word = self.rates.full_word(now);
        store_word(&self.state, word);
    }

    /// The current tick: whole milliseconds since `created_at`, wrapping
    /// every 2^32 ms.
    fn now_ms(&self) -> u32 {
        let elapsed = self.clock.elapsed_since(self.created_at);
        tick_of(elapsed)
    }

    fn acquire_inner(&self, n: u32) -> (decision: Decision)
        ensures
            self.acquire_ok(decision, n),
            n == 0 ==> decision is Allowed,
            n * 1000 > self.rates().capacity_millitokens ==> decision is Denied && duration_nanos(
                decision->retry_after,
            ) == max_duration_nanos(),
    {
        proof {
            use_type_invariant(self);
        }
        if n == 0 {
            // Zero tokens are always available, even from an empty bucket.
            assert(self.rates().decision_ok(Decision::Allowed, 0, 0, 0));
            return Decision::Allowed;
        }
        if self.rates.exceeds_capacity(n) {
            // More than the bucket can ever hold: never granted.
            let decision = Decision::Denied { retry_after: duration_max() };
            assert(self.rates().decision_ok(decision, 0, 0, n as int));
            return decision;
        }
        let now = self.now_ms();
        let outcome = update_word(&self.state, &self.rates, now, n);
        // A refusal reports the wait for the shortfall, computed from the
        // same word the refusal was decided on.
        let decision = self.rates.settle(outcome, now, n);
        proof {
            let previous = match outcome {
                Ok(previous) => previous,
                Err(previous) => previous,
            };
            assert(self.rates().decision_ok(decision, previous as int, now as int, n as int));
        }
        decision
    }
}

impl Bucket<SystemClock> {
    /// A bucket of capacity `rate` that refills `rate` tokens per second,
    /// starting full, on the system clock. A `rate` of zero yields a bucket
    /// that grants nothing.
    pub fn per_second(rate: u32) -> (bucket: Self)
        ensures
            rate == 0 ==> bucket.spec_config()@.capacity == 0 && bucket.spec_config()@.refill_amount
                == 0 && duration_nanos(bucket.spec_config()@.refill_period) == 1_000_000_000
                && bucket.spec_config()@.initial == 0,
            rate > 0 ==> bucket.spec_config()@.capacity == rate && bucket.spec_config()@.refill_amount
                == rate && duration_nanos(bucket.spec_config()@.refill_period) == 1_000_000_000
                && bucket.spec_config()@.initial == rate,
    {
        Self::from_config(tier1_config(rate, rate, duration_from_secs(1), rate))
    }

    /// A bucket of capacity `amount` that refills `amount` tokens every
    /// `period`, starting full, on the system clock. A zero `amount` or
    /// `period` yields a bucket that grants nothing.
    pub fn per_duration(amount: u32, period: Duration) -> (bucket: Self)
        ensures
            amount == 0 || duration_nanos(period) == 0 ==> bucket.spec_config()@.capacity == 0
                && bucket.spec_config()@.refill_amount == 0 && duration_nanos(
                bucket.spec_config()@.refill_period,
            ) == 1_000_000_000 && bucket.spec_config()@.initial == 0,
            !(amount == 0 || duration_nanos(period) == 0) ==> config_holds(
                bucket.spec_config()@,
                amount,
                amount,
                period,
                amount,
            ),
    {
        Self::from_config(tier1_config(amount, amount, period, amount))
    }

    /// A bucket built from a configuration, on the system clock.
    pub fn from_config(config: BucketConfig) -> (bucket: Self)
        ensures
            bucket.spec_config() == config,
    {
        build(config, SystemClock::new())
    }
}

/// The token-bucket surface that a consumer codes against, so that it can
/// hold a bucket without naming its clock type. It is object-safe and
/// implemented for every bucket.
pub trait TokenBucket {
    /// The bucket's capacity in millitokens.
    spec fn capacity_millitokens_spec(&self) -> int;

    /// Attempts to take `n` tokens, returning the full decision: zero tokens
    /// are always granted, more than the capacity never are.
    fn acquire(&self, n: u32) -> (decision: Decision)
        ensures
            n == 0 ==> decision is Allowed,
            n * 1000 > self.capacity_millitokens_spec() ==> decision is Denied && duration_nanos(
                decision->retry_after,
            ) == max_duration_nanos(),
    ;

    /// Attempts to take `n` tokens, returning whether they were granted.
    #[must_use]
    fn try_acquire(&self, n: u32) -> (granted: bool)
        ensures
            n == 0 ==> granted,
            n * 1000 > self.capacity_millitokens_spec() ==> !granted,
    ;

    /// The whole tokens available now, after lazy refill; never more than
    /// the capacity.
    #[must_use]
    fn available(&self) -> (tokens: u32)
        ensures
            tokens <= self.capacity_millitokens_spec() / 1000,
    ;

    /// The capacity (burst ceiling) in whole tokens.
    #[must_use]
    fn capacity(&self) -> (tokens: u32)
        ensures
            tokens == self.capacity_millitokens_spec() / 1000,
    ;
}

impl<C: TimeSource> TokenBucket for Bucket<C> {
    open spec fn capacity_millitokens_spec(&self) -> int {
        self.rates().capacity_millitokens as int
    }

    fn acquire(&self, n: u32) -> (decision: Decision)
        ensures
            self.acquire_ok(decision, n),
            n == 0 ==> decision is Allowed,
            n * 1000 > self.rates().capacity_millitokens ==> decision is Denied && duration_nanos(
                decision->retry_after,
            ) == max_duration_nanos(),
    {
        Bucket::acquire(self, n)
    }

    fn try_acquire(&self, n: u32) -> (granted: bool)
        ensures
            granted ==> exists|word: u64, now: u32| #[trigger]
                self.rates().allows(word as int, now as int, n as int),
            !granted ==> exists|word: u64, now: u32| !#[trigger]
                self.rates().allows(word as int, now as int, n as int),
            n == 0 ==> granted,
            n * 1000 > self.rates().capacity_millitokens ==> !granted,
    {
        Bucket::try_acquire(self, n)
    }

    fn available(&self) -> (tokens: u32)
        ensures
            exists|word: u64, now: u32| tokens == #[trigger] self.rates().level(word as int, now as int)
                / 1000,
            tokens <= self.rates().capacity_millitokens / 1000,
    {
        Bucket::available(self)
    }

    fn capacity(&self) -> (tokens: u32)
        ensures
            tokens == self.rates().capacity_millitokens / 1000,
    {
        Bucket::capacity(self)
    }
}

} // verus!
