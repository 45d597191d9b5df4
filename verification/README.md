# better_bucket

A token bucket whose accounting is verified with Verus: a counter of tokens
that refills lazily from a monotonic clock, grants tokens on demand, and never
grants more than it held plus what its rate has accrued. That holds in
whatever order concurrent acquires commit, as long as no acquire's clock
reading lags one committed before it by 2^20 ms (about 17.5 minutes) or
more: a reading that lags by less is stale and refills nothing, while one
that lags by more would read as a forward gap on the wrapping 32-bit
millisecond tick.

Layout:

- `src/state.rs` — the packed state word (millitokens and a wrapping
  millisecond tick), the exact integer refill arithmetic, the acquire
  transition `BucketRates::step` and the decision it settles on after the
  atomic update (`BucketRates::settle`), and the proved laws (no over-grant, tokens
  within capacity, exact refill, honest and least retry hint, permanent
  refusals, packing round trip).
- `src/bucket.rs` — `Bucket<C>`: one atomic word updated with the verified
  transition; the `TokenBucket` trait.
- `src/config.rs`, `src/builder.rs` — validated configuration and the builder.
- `src/decision.rs`, `src/error.rs` — the acquire outcome and the
  configuration error.
- `src/time.rs` — `Duration` conversions and the injected clock.
- `app/lib.rs` — the error type with `Display`, `std::error::Error` and
  `error_forge::ForgeError`.
