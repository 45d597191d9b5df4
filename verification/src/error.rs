//! Construction-time configuration errors.

use vstd::prelude::*;

verus! {

/// A configuration rejected at construction time: each variant names the
/// constraint that was violated.
#[non_exhaustive]
#[derive(Debug, Clone, Copy, PartialEq, Eq, Structural)]
pub enum BucketError {
    /// The capacity was zero; a bucket that holds no tokens grants none.
    ZeroCapacity,
    /// The refill amount was zero; such a bucket would only ever deplete.
    ZeroRefillAmount,
    /// The refill period was zero, which would mean an infinite rate.
    ZeroRefillPeriod,
}

impl BucketError {
    /// The kind of the error: the name of its variant.
    pub fn kind(&self) -> (kind: &'static str)
        ensures
            *self == BucketError::ZeroCapacity ==> kind@ == "ZeroCapacity"@,
            *self == BucketError::ZeroRefillAmount ==> kind@ == "ZeroRefillAmount"@,
            *self == BucketError::ZeroRefillPeriod ==> kind@ == "ZeroRefillPeriod"@,
    {
        match self {
            BucketError::ZeroCapacity => "ZeroCapacity",
            BucketError::ZeroRefillAmount => "ZeroRefillAmount",
            BucketError::ZeroRefillPeriod => "ZeroRefillPeriod",
        }
    }

    /// A caption shared by every configuration error.
    pub fn caption(&self) -> (caption: &'static str)
        ensures
            caption@ == "Invalid bucket configuration"@,
    {
        "Invalid bucket configuration"
    }

    /// The human-readable message naming the violated constraint.
    pub fn message(&self) -> (message: &'static str)
        ensures
            *self == BucketError::ZeroCapacity ==> message@
                == "bucket capacity must be greater than zero"@,
            *self == BucketError::ZeroRefillAmount ==> message@
                == "refill amount must be greater than zero"@,
            *self == BucketError::ZeroRefillPeriod ==> message@
                == "refill period must be greater than zero"@,
    {
        match self {
            BucketError::ZeroCapacity => "bucket capacity must be greater than zero",
            BucketError::ZeroRefillAmount => "refill amount must be greater than zero",
            BucketError::ZeroRefillPeriod => "refill period must be greater than zero",
        }
    }

    /// The message as an owned `String`.
    pub fn to_string(&self) -> (s: String)
        ensures
            *self == BucketError::ZeroCapacity ==> s@
                == "bucket capacity must be greater than zero"@,
            *self == BucketError::ZeroRefillAmount ==> s@
                == "refill amount must be greater than zero"@,
            *self == BucketError::ZeroRefillPeriod ==> s@
                == "refill period must be greater than zero"@,
    {
        self.message().to_owned()
    }

    /// A bad configuration does not fix itself on retry: never retryable.
    pub fn is_retryable(&self) -> (retryable: bool)
        ensures
            !retryable,
    {
        false
    }
}

} // verus!
