//! A fluent builder for a bucket when the one-line constructors are not
//! enough.

use core::time::Duration;

use clock_lib::SystemClock;
use vstd::prelude::*;

use crate::bucket::Bucket;
use crate::config::{config_error, config_holds, BucketConfig};
use crate::error::BucketError;
use crate::time::{duration_nanos, duration_zero};

verus! {

/// A builder for a [`Bucket`]: set the capacity and the refill rate, and
/// optionally the initial fill, then `build`. Unset fields keep their
/// defaults (zero, which `build` rejects; the initial fill defaults to the
/// capacity).
#[derive(Debug, Clone, Copy)]
#[must_use]
pub struct BucketBuilder {
    capacity: u32,
    refill_amount: u32,
    refill_period: Duration,
    initial: Option<u32>,
}

/// The content of a [`BucketBuilder`].
pub struct BuilderView {
    pub capacity: u32,
    pub refill_amount: u32,
    pub refill_period: Duration,
    pub initial: Option<u32>,
}

impl View for BucketBuilder {
    type V = BuilderView;

    closed spec fn view(&self) -> BuilderView {
        BuilderView {
            capacity: self.capacity,
            refill_amount: self.refill_amount,
            refill_period: self.refill_period,
            initial: self.initial,
        }
    }
}

/// The initial fill a builder asks for: the one set, else the capacity.
pub open spec fn requested_initial(b: BuilderView) -> u32 {
    match b.initial {
        Some(initial) => initial,
        None => b.capacity,
    }
}

impl Default for BucketBuilder {
    fn default() -> (builder: Self)
        ensures
            builder@.capacity == 0,
            builder@.refill_amount == 0,
            duration_nanos(builder@.refill_period) == 0,
            builder@.initial is None,
    {
        BucketBuilder { capacity: 0, refill_amount: 0, refill_period: duration_zero(), initial: None }
    }
}

impl BucketBuilder {
    /// A builder with every field at its default.
    pub fn new() -> (builder: Self)
        ensures
            builder@.capacity == 0,
            builder@.refill_amount == 0,
            duration_nanos(builder@.refill_period) == 0,
            builder@.initial is None,
    {
        Self::default()
    }

    /// Sets the capacity: the most tokens the bucket holds, and so the
    /// largest burst it grants at once.
    pub fn capacity(self, capacity: u32) -> (builder: Self)
        ensures
            builder@.capacity == capacity,
            builder@.refill_amount == self@.refill_amount,
            builder@.refill_period == self@.refill_period,
            builder@.initial == self@.initial,
    {
        BucketBuilder { capacity, ..self }
    }

    /// Sets the refill rate: `amount` tokens every `period`.
    pub fn refill(self, amount: u32, period: Duration) -> (builder: Self)
        ensures
            builder@.capacity == self@.capacity,
            builder@.refill_amount == amount,
            builder@.refill_period == period,
            builder@.initial == self@.initial,
    {
        BucketBuilder { refill_amount: amount, refill_period: period, ..self }
    }

    /// Sets the initial number of tokens (clamped to the capacity on build).
    pub fn initial(self, initial: u32) -> (builder: Self)
        ensures
            builder@.capacity == self@.capacity,
            builder@.refill_amount == self@.refill_amount,
            builder@.refill_period == self@.refill_period,
            builder@.initial == Some(initial),
    {
        BucketBuilder { initial: Some(initial), ..self }
    }

    /// Validates the configuration as `BucketConfig::new` does and builds a
    /// bucket on the system clock. The initial fill defaults to the capacity.
    pub fn build(self) -> (r: Result<Bucket<SystemClock>, BucketError>)
        ensures
            match r {
                Ok(bucket) => config_error(
                    self@.capacity,
                    self@.refill_amount,
                    self@.refill_period,
                ) is None && config_holds(
                    bucket.spec_config()@,
                    self@.capacity,
                    self@.refill_amount,
                    self@.refill_period,
                    requested_initial(self@),
                ),
                Err(e) => config_error(self@.capacity, self@.refill_amount, self@.refill_period)
                    == Some(e),
            },
    {
        let initial = match self.initial {
            Some(initial) => initial,
            None => self.capacity,
        };
        match BucketConfig::new(self.capacity, self.refill_amount, self.refill_period, initial) {
            Ok(config) => Ok(Bucket::from_config(config)),
            Err(e) => Err(e),
        }
    }
}

impl Bucket<SystemClock> {
    /// Starts a [`BucketBuilder`].
    pub fn builder() -> (builder: BucketBuilder)
        ensures
            builder@.capacity == 0,
            builder@.refill_amount == 0,
            duration_nanos(builder@.refill_period) == 0,
            builder@.initial is None,
    {
        BucketBuilder::new()
    }
}

} // verus!
