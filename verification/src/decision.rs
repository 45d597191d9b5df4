//! The outcome of an acquire attempt.

use core::time::Duration;

use vstd::prelude::*;

verus! {

/// The result of attempting to take tokens from a bucket: granted, or refused
/// with the wait until the same request would succeed (`Duration::MAX` when
/// it never can).
#[must_use]
#[non_exhaustive]
#[derive(Debug, Clone, Copy, PartialEq, Eq)]
pub enum Decision {
    /// The tokens were granted and have been deducted from the bucket.
    Allowed,
    /// The request was refused because the bucket did not hold enough tokens.
    Denied {
        /// The wait until the bucket will hold enough tokens for the same
        /// request; `Duration::MAX` means never.
        retry_after: Duration,
    },
}

impl Decision {
    /// Returns `true` if the request was granted.
    pub fn is_allowed(&self) -> (allowed: bool)
        ensures
            allowed == (*self is Allowed),
    {
        match self {
            Decision::Allowed => true,
            Decision::Denied { .. } => false,
        }
    }

    /// Returns `true` if the request was refused.
    pub fn is_denied(&self) -> (denied: bool)
        ensures
            denied == (*self is Denied),
    {
        !self.is_allowed()
    }

    /// The wait until the request would succeed, or `None` if it was allowed.
    pub fn retry_after(&self) -> (wait: Option<Duration>)
        ensures
            *self is Allowed ==> wait is None,
            *self is Denied ==> wait == Some(self->retry_after),
    {
        match self {
            Decision::Denied { retry_after } => Some(*retry_after),
            Decision::Allowed => None,
        }
    }
}

} // verus!
