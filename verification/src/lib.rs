//! A token bucket: a counter of tokens that refills lazily from a monotonic
//! clock and grants tokens on demand, never more than it held plus what its
//! rate has accrued, in whatever order concurrent acquires commit, as long
//! as no acquire's clock reading lags one committed before it by 2^20 ms
//! (about 17.5 minutes) or more.

mod bucket;
mod builder;
mod config;
mod decision;
mod error;
mod state;
mod time;

pub use bucket::{Bucket, TokenBucket};
pub use builder::{BucketBuilder, BuilderView};
pub use config::{BucketConfig, ConfigView};
pub use decision::Decision;
pub use error::BucketError;
pub use state::{pack, unpack, BucketRates};
pub use time::{duration_nanos, TimeSource};

use vstd::prelude::*;

verus! {

/// The version of this crate.
pub const VERSION: &'static str = "0.8.0";

} // verus!
