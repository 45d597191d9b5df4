//! Validated bucket configuration.

use core::time::Duration;

use vstd::prelude::*;

use crate::error::BucketError;
use crate::time::{duration_as_nanos, duration_nanos};

verus! {

/// The parameters that define a token bucket: it holds up to `capacity`
/// tokens, accrues `refill_amount` tokens every `refill_period`, and starts
/// with `initial` tokens (clamped to `capacity`).
#[derive(Debug, Clone, Copy, PartialEq, Eq)]
pub struct BucketConfig {
    capacity: u32,
    refill_amount: u32,
    refill_period: Duration,
    initial: u32,
}

/// The mathematical content of a [`BucketConfig`].
pub struct ConfigView {
    pub capacity: u32,
    pub refill_amount: u32,
    pub refill_period: Duration,
    pub initial: u32,
}

impl View for BucketConfig {
    type V = ConfigView;

    closed spec fn view(&self) -> ConfigView {
        ConfigView {
            capacity: self.capacity,
            refill_amount: self.refill_amount,
            refill_period: self.refill_period,
            initial: self.initial,
        }
    }
}

/// The smaller of two integers.
pub open spec fn min_int(a: int, b: int) -> int {
    if a <= b {
        a
    } else {
        b
    }
}

/// Which constraint, if any, the values `capacity`, `refill_amount` and
/// `refill_period` violate, checked in that order.
pub open spec fn config_error(capacity: u32, refill_amount: u32, refill_period: Duration) -> Option<
    BucketError,
> {
    if capacity == 0 {
        Some(BucketError::ZeroCapacity)
    } else if refill_amount == 0 {
        Some(BucketError::ZeroRefillAmount)
    } else if duration_nanos(refill_period) == 0 {
        Some(BucketError::ZeroRefillPeriod)
    } else {
        None
    }
}

/// Whether `config` holds exactly the given values, with `initial` clamped to
/// `capacity`.
pub open spec fn config_holds(
    config: ConfigView,
    capacity: u32,
    refill_amount: u32,
    refill_period: Duration,
    initial: u32,
) -> bool {
    &&& config.capacity == capacity
    &&& config.refill_amount == refill_amount
    &&& config.refill_period == refill_period
    &&& config.initial == min_int(initial as int, capacity as int)
}

impl BucketConfig {
    /// Builds a validated configuration; `initial` is clamped to `capacity`.
    ///
    /// Fails with `ZeroCapacity`, `ZeroRefillAmount` or `ZeroRefillPeriod`
    /// (in that order of precedence) when the corresponding value is zero.
    pub fn new(capacity: u32, refill_amount: u32, refill_period: Duration, initial: u32) -> (r:
        Result<Self, BucketError>)
        ensures
            match r {
                Ok(config) => config_error(capacity, refill_amount, refill_period) is None
                    && config_holds(config@, capacity, refill_amount, refill_period, initial),
                Err(e) => config_error(capacity, refill_amount, refill_period) == Some(e),
            },
    {
        if capacity == 0 {
            return Err(BucketError::ZeroCapacity);
        }
        if refill_amount == 0 {
            return Err(BucketError::ZeroRefillAmount);
        }
        if duration_as_nanos(refill_period) == 0 {
            return Err(BucketError::ZeroRefillPeriod);
        }
        Ok(Self::raw(capacity, refill_amount, refill_period, initial))
    }

    /// The maximum number of tokens the bucket holds (its burst ceiling).
    pub fn capacity(&self) -> (capacity: u32)
        ensures
            capacity == self@.capacity,
    {
        self.capacity
    }

    /// The number of tokens added each refill period.
    pub fn refill_amount(&self) -> (amount: u32)
        ensures
            amount == self@.refill_amount,
    {
        self.refill_amount
    }

    /// The period over which the refill amount accrues.
    pub fn refill_period(&self) -> (period: Duration)
        ensures
            period == self@.refill_period,
    {
        self.refill_period
    }

    /// The number of tokens the bucket starts with.
    pub fn initial(&self) -> (initial: u32)
        ensures
            initial == self@.initial,
    {
        self.initial
    }

    /// Builds a configuration without validation; `initial` is still clamped
    /// to `capacity`.
    pub(crate) fn raw(capacity: u32, refill_amount: u32, refill_period: Duration, initial: u32) -> (r:
        Self)
        ensures
            config_holds(r@, capacity, refill_amount, refill_period, initial),
    {
        let initial = if initial <= capacity {
            initial
        } else {
            capacity
        };
        BucketConfig { capacity, refill_amount, refill_period, initial }
    }
}

} // verus!
