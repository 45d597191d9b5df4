//! The bucket's accounting: the packed state word, and the refill
//! arithmetic that turns elapsed milliseconds into millitokens and a token
//! shortfall into a wait.
//!
//! The state word packs the token count in millitokens (upper 32 bits) with
//! the 32-bit millisecond tick of the last refill (lower 32 bits). Refill is
//! exact integer arithmetic: `elapsed_ms * refill_numerator / period_nanos`
//! millitokens, with `refill_numerator = refill_amount * 10^9`. A tick
//! that reads as less than `2^20` ms behind the word's tick is stale (an
//! acquire that read the clock before another committed a later tick): it
//! refills nothing and leaves the later tick in place.

use vstd::arithmetic::div_mod::{
    lemma_div_is_ordered, lemma_div_is_ordered_by_denominator, lemma_div_pos_is_pos,
    lemma_fundamental_div_mod,
    lemma_fundamental_div_mod_converse,
};
use vstd::arithmetic::mul::{lemma_mul_inequality, lemma_mul_nonnegative};
use vstd::prelude::*;

use crate::config::{min_int, BucketConfig, ConfigView};
use crate::decision::Decision;
use crate::time::{
    duration_as_nanos, duration_from_millis, duration_max, duration_nanos, max_duration_nanos,
    nanos_per_ms,
};

verus! {

/// 2^32: the weight of the token half of the state word, and the period of
/// the wrapping millisecond tick.
pub open spec fn word_base() -> int {
    0x1_0000_0000
}

/// Millitokens per whole token.
pub open spec fn milli() -> int {
    1000
}

/// The millitokens held in a state word.
pub open spec fn word_tokens(word: int) -> int {
    word / word_base()
}

/// The millisecond tick held in a state word.
pub open spec fn word_tick(word: int) -> int {
    word % word_base()
}

/// The state word for `millitokens` (clamped to 32 bits) and `tick`.
pub open spec fn spec_pack(millitokens: int, tick: int) -> int {
    min_int(millitokens, u32::MAX as int) * word_base() + tick
}

/// 2^20 ms (about 17.5 minutes): a tick that is behind the word's tick by
/// less than this is a stale reading (another thread committed a later
/// tick first), not a gap of almost a whole wrap.
pub open spec fn stale_window() -> int {
    0x10_0000
}

/// Milliseconds from tick `last` forward to tick `now` on the wrapping
/// 32-bit tick.
pub open spec fn raw_ticks(last: int, now: int) -> int {
    if now >= last {
        now - last
    } else {
        now - last + word_base()
    }
}

/// The signed distance from tick `last` to tick `now`: the forward distance,
/// except that a tick less than `stale_window()` behind `last` reads as
/// negative.
pub open spec fn tick_offset(last: int, now: int) -> int {
    let raw = raw_ticks(last, now);
    if raw > word_base() - stale_window() {
        raw - word_base()
    } else {
        raw
    }
}

/// Milliseconds of refill from tick `last` to tick `now`: the offset, or
/// zero for a stale tick.
pub open spec fn elapsed_ticks(last: int, now: int) -> int {
    if tick_offset(last, now) > 0 {
        tick_offset(last, now)
    } else {
        0
    }
}

/// The tick a grant at tick `now` stamps on a word last refilled at tick
/// `last`: `now`, unless `now` is stale, when the later `last` stays.
pub open spec fn stamp_tick(last: int, now: int) -> int {
    if tick_offset(last, now) >= 0 {
        now
    } else {
        last
    }
}

/// Millitokens accrued over `elapsed` milliseconds at `numerator /
/// period` millitokens per millisecond (`numerator` is the refill amount
/// times 10^9, `period` the refill period in nanoseconds), rounded down; zero
/// when the bucket does not refill (either is zero).
pub open spec fn accrued(numerator: int, period: int, elapsed: int) -> int {
    if numerator <= 0 || period <= 0 {
        0
    } else {
        elapsed * numerator / period
    }
}

/// The least number of milliseconds over which `shortfall` millitokens
/// accrue, counted from the last refill: `shortfall * period / numerator`,
/// rounded up.
pub open spec fn ceil_wait(numerator: int, period: int, shortfall: int) -> int {
    (shortfall * period + numerator - 1) / numerator
}

/// Packs `millitokens` (clamped to `u32::MAX`) and `last_ms` into one word.
pub fn pack(millitokens: u64, last_ms: u32) -> (word: u64)
    ensures
        word == spec_pack(millitokens as int, last_ms as int),
{
    let mt: u64 = if millitokens <= 0xFFFF_FFFF {
        millitokens
    } else {
        0xFFFF_FFFF
    };
    let tick: u64 = last_ms as u64;
    let word: u64 = (mt << 32u64) | tick;
    assert(word == mt * 0x1_0000_0000 + tick) by (bit_vector)
        requires
            mt <= 0xFFFF_FFFF,
            tick <= 0xFFFF_FFFF,
            word == (mt << 32u64) | tick,
    ;
    word
}

/// Unpacks a state word into `(millitokens, last_ms)`.
pub fn unpack(word: u64) -> (parts: (u64, u32))
    ensures
        parts.0 == word_tokens(word as int),
        parts.1 == word_tick(word as int),
{
    let high: u64 = word >> 32u64;
    let low: u64 = word & 0xFFFF_FFFF;
    assert(high == word / 0x1_0000_0000 && low == word % 0x1_0000_0000) by (bit_vector)
        requires
            high == word >> 32u64,
            low == word & 0xFFFF_FFFF,
    ;
    (high, low as u32)
}

/// Packing then unpacking gives back the tick and the millitokens clamped to
/// 32 bits, and the packed word fits in 64 bits.
pub proof fn lemma_pack_round_trip(millitokens: int, tick: int)
    requires
        0 <= millitokens,
        0 <= tick < word_base(),
    ensures
        word_tokens(spec_pack(millitokens, tick)) == min_int(millitokens, u32::MAX as int),
        word_tick(spec_pack(millitokens, tick)) == tick,
        0 <= spec_pack(millitokens, tick) <= u64::MAX,
{
    let m = min_int(millitokens, u32::MAX as int);
    lemma_fundamental_div_mod_converse(spec_pack(millitokens, tick), word_base(), m, tick);
}

proof fn lemma_accrued_nonneg(numerator: int, period: int, elapsed: int)
    requires
        0 <= numerator,
        0 <= period,
        0 <= elapsed,
    ensures
        0 <= accrued(numerator, period, elapsed),
{
    if numerator > 0 && period > 0 {
        lemma_mul_nonnegative(elapsed, numerator);
        lemma_div_pos_is_pos(elapsed * numerator, period);
    }
}

proof fn lemma_accrued_monotone(numerator: int, period: int, a: int, b: int)
    requires
        0 <= numerator,
        0 <= period,
        0 <= a <= b,
    ensures
        accrued(numerator, period, a) <= accrued(numerator, period, b),
{
    if numerator > 0 && period > 0 {
        lemma_mul_inequality(a, b, numerator);
        lemma_div_is_ordered(a * numerator, b * numerator, period);
    }
}

proof fn lemma_accrued_superadditive(numerator: int, period: int, a: int, b: int)
    requires
        0 <= numerator,
        0 <= period,
        0 <= a,
        0 <= b,
    ensures
        accrued(numerator, period, a) + accrued(numerator, period, b) <= accrued(
            numerator,
            period,
            a + b,
        ),
{
    if numerator > 0 && period > 0 {
        let x = a * numerator;
        let y = b * numerator;
        let q = period;
        assert((a + b) * numerator == x + y) by (nonlinear_arith)
            requires
                x == a * numerator,
                y == b * numerator,
        ;
        lemma_mul_nonnegative(a, numerator);
        lemma_mul_nonnegative(b, numerator);
        lemma_fundamental_div_mod(x, q);
        lemma_fundamental_div_mod(y, q);
        let qx = x / q;
        let qy = y / q;
        let rx = x % q;
        let ry = y % q;
        assert(x + y == q * (qx + qy) + (rx + ry)) by (nonlinear_arith)
            requires
                x == q * qx + rx,
                y == q * qy + ry,
        ;
        if rx + ry < q {
            assert(x + y == (qx + qy) * q + (rx + ry)) by (nonlinear_arith)
                requires
                    x + y == q * (qx + qy) + (rx + ry),
            ;
            lemma_fundamental_div_mod_converse(x + y, q, qx + qy, rx + ry);
        } else {
            assert(x + y == (qx + qy + 1) * q + (rx + ry - q)) by (nonlinear_arith)
                requires
                    x + y == q * (qx + qy) + (rx + ry),
            ;
            lemma_fundamental_div_mod_converse(x + y, q, qx + qy + 1, rx + ry - q);
        }
    }
}

/// Rounded-down accrual reaches a whole `shortfall` exactly when the exact
/// accrual does: `elapsed * numerator >= shortfall * period`.
proof fn lemma_accrued_reaches(numerator: int, period: int, elapsed: int, shortfall: int)
    requires
        0 < numerator,
        0 < period,
        0 <= elapsed,
        0 <= shortfall,
    ensures
        accrued(numerator, period, elapsed) >= shortfall <==> elapsed * numerator >= shortfall
            * period,
{
    let x = elapsed * numerator;
    lemma_mul_nonnegative(elapsed, numerator);
    lemma_fundamental_div_mod(x, period);
    let q = x / period;
    let r = x % period;
    if q >= shortfall {
        assert(x >= shortfall * period) by (nonlinear_arith)
            requires
                x == period * q + r,
                0 <= r,
                q >= shortfall,
                period > 0,
        ;
    }
    if x >= shortfall * period {
        assert(q >= shortfall) by (nonlinear_arith)
            requires
                x == period * q + r,
                r < period,
                x >= shortfall * period,
                period > 0,
        ;
    }
}

/// `ceil_wait` is the least number of milliseconds that covers `shortfall`:
/// it covers it, and one millisecond less does not.
proof fn lemma_ceil_wait(numerator: int, period: int, shortfall: int)
    requires
        0 < numerator,
        0 <= period,
        0 <= shortfall,
    ensures
        0 <= ceil_wait(numerator, period, shortfall),
        ceil_wait(numerator, period, shortfall) * numerator >= shortfall * period,
        (ceil_wait(numerator, period, shortfall) - 1) * numerator < shortfall * period,
{
    let x = shortfall * period + numerator - 1;
    lemma_mul_nonnegative(shortfall, period);
    lemma_fundamental_div_mod(x, numerator);
    lemma_div_pos_is_pos(x, numerator);
    let t = x / numerator;
    let r = x % numerator;
    assert(t * numerator >= shortfall * period && (t - 1) * numerator < shortfall * period)
        by (nonlinear_arith)
        requires
            x == numerator * t + r,
            0 <= r < numerator,
            x == shortfall * period + numerator - 1,
    ;
}

/// On the wrapping tick, a true time `b` read against the tick of a true
/// time `a` that is not `stale_window()` or more ahead of it: if `b` is
/// behind `a` the tick reads as stale (negative offset); otherwise the
/// offset, when not negative, is at most `b - a`.
proof fn lemma_offset_of_true_times(a: int, b: int)
    requires
        0 <= a,
        0 <= b,
        b + stale_window() > a,
    ensures
        b < a ==> tick_offset(a % word_base(), b % word_base()) == b - a,
        b >= a && tick_offset(a % word_base(), b % word_base()) >= 0 ==> tick_offset(
            a % word_base(),
            b % word_base(),
        ) <= b - a,
{
    let m = word_base();
    lemma_fundamental_div_mod(a, m);
    lemma_fundamental_div_mod(b, m);
    let ra = a % m;
    let rb = b % m;
    let qa = a / m;
    let qb = b / m;
    let raw = raw_ticks(ra, rb);
    assert(b - a == m * (qb - qa) + (rb - ra)) by (nonlinear_arith)
        requires
            a == m * qa + ra,
            b == m * qb + rb,
    ;
    if b < a {
        // 0 < a - b < stale_window(): the quotients differ by at most one.
        if qb < qa - 1 {
            assert(m * (qb - qa) <= -2 * m) by (nonlinear_arith)
                requires
                    qb - qa <= -2,
                    m > 0,
            ;
        }
        if qb > qa {
            assert(m * (qb - qa) >= m) by (nonlinear_arith)
                requires
                    qb - qa >= 1,
                    m > 0,
            ;
        }
        if qb == qa {
            assert(m * (qb - qa) == 0) by (nonlinear_arith)
                requires
                    qb == qa,
            ;
        } else {
            assert(qb == qa - 1);
            assert(m * (qb - qa) == -m) by (nonlinear_arith)
                requires
                    qb == qa - 1,
            ;
        }
    } else {
        lemma_div_is_ordered(a, b, m);
        if qb - qa >= 1 {
            assert(m * (qb - qa) >= m) by (nonlinear_arith)
                requires
                    qb - qa >= 1,
                    m > 0,
            ;
        } else {
            assert(m * (qb - qa) == 0) by (nonlinear_arith)
                requires
                    qb == qa,
            ;
        }
    }
}

/// Waiting on the tick adds up: from an offset `o` of tick `now` against
/// tick `last`, `wait` more milliseconds give offset `o + wait`, as long as
/// that stays a forward reading of less than one wrap minus the stale
/// window.
proof fn lemma_offset_adds(last: int, now: int, wait: int)
    requires
        0 <= last < word_base(),
        0 <= now < word_base(),
        0 <= wait,
        tick_offset(last, now) + wait <= word_base() - stale_window(),
    ensures
        tick_offset(last, (now + wait) % word_base()) == tick_offset(last, now) + wait,
{
    let m = word_base();
    assert(wait < 2 * m);
    if now + wait < m {
        lemma_fundamental_div_mod_converse(now + wait, m, 0, now + wait);
    } else if now + wait < 2 * m {
        lemma_fundamental_div_mod_converse(now + wait, m, 1, now + wait - m);
    }
}

/// Milliseconds of refill from tick `last_ms` to tick `now_ms`: the
/// wrapping distance, or zero when `now_ms` is a stale tick less than
/// `stale_window()` behind `last_ms`.
pub fn tick_elapsed(last_ms: u32, now_ms: u32) -> (elapsed: u32)
    ensures
        elapsed == elapsed_ticks(last_ms as int, now_ms as int),
{
    let raw: u32 = now_ms.wrapping_sub(last_ms);
    if raw > 0xFFF0_0000 {
        0
    } else {
        raw
    }
}

/// The tick a grant at `now_ms` stamps on a word last refilled at
/// `last_ms`: `now_ms`, or `last_ms` when `now_ms` is stale.
pub fn stamp(last_ms: u32, now_ms: u32) -> (tick: u32)
    ensures
        tick == stamp_tick(last_ms as int, now_ms as int),
{
    let raw: u32 = now_ms.wrapping_sub(last_ms);
    if raw > 0xFFF0_0000 {
        last_ms
    } else {
        now_ms
    }
}

/// The capacity and refill rate of a bucket: the immutable half of its
/// accounting.
#[derive(Debug, Clone, Copy, PartialEq, Eq, Structural)]
pub struct BucketRates {
    /// Capacity in millitokens, at most `u32::MAX` for a well-formed value.
    pub capacity_millitokens: u64,
    /// The refill amount times 10^9: paired with `period_nanos`,
    /// `elapsed_ms * refill_numerator / period_nanos` is the millitokens
    /// accrued. Zero means no refill.
    pub refill_numerator: u64,
    /// The refill period in nanoseconds. Zero means no refill.
    pub period_nanos: u64,
}

impl BucketRates {
    /// The capacity fits the 32-bit token half of the state word.
    pub open spec fn wf(self) -> bool {
        self.capacity_millitokens <= u32::MAX
    }

    /// Whether the bucket refills at all.
    pub open spec fn refills(self) -> bool {
        self.refill_numerator > 0 && self.period_nanos > 0
    }

    /// Whether a configuration describes a refilling bucket: a nonzero
    /// amount every nonzero period of at most `u64::MAX` nanoseconds (about
    /// 584 years; a longer period counts as no refill).
    pub open spec fn config_refills(config: ConfigView) -> bool {
        &&& config.refill_amount > 0
        &&& 0 < duration_nanos(config.refill_period)
        &&& duration_nanos(config.refill_period) <= u64::MAX
    }

    /// The rates a configuration describes: capacity in millitokens clamped
    /// to 32 bits, and the refill amount and period as numerator and
    /// nanoseconds (both zero for no refill).
    pub open spec fn spec_from_config(config: ConfigView) -> BucketRates {
        BucketRates {
            capacity_millitokens: min_int(
                config.capacity * milli(),
                u32::MAX as int,
            ) as u64,
            refill_numerator: if Self::config_refills(config) {
                (config.refill_amount * 1_000_000_000) as u64
            } else {
                0
            },
            period_nanos: if Self::config_refills(config) {
                duration_nanos(config.refill_period) as u64
            } else {
                0
            },
        }
    }

    /// Millitokens accrued over `elapsed` milliseconds.
    pub open spec fn accrual(self, elapsed: int) -> int {
        accrued(self.refill_numerator as int, self.period_nanos as int, elapsed)
    }

    /// Millitokens after refilling `tokens` from tick `last` to tick `now`,
    /// capped at capacity.
    pub open spec fn spec_refilled(self, tokens: int, last: int, now: int) -> int {
        min_int(
            tokens + self.accrual(elapsed_ticks(last, now)),
            self.capacity_millitokens as int,
        )
    }

    /// Millitokens available at tick `now` in state word `word`.
    pub open spec fn level(self, word: int, now: int) -> int {
        self.spec_refilled(word_tokens(word), word_tick(word), now)
    }

    /// Whether a request for `n` tokens at tick `now` is granted from `word`:
    /// always for zero tokens, otherwise when `n` fits the capacity and that
    /// many tokens are available.
    pub open spec fn allows(self, word: int, now: int, n: int) -> bool {
        n == 0 || (n * milli() <= self.capacity_millitokens && self.level(word, now) >= n
            * milli())
    }

    /// Milliseconds still to wait, at tick offset `offset` from the last
    /// refill (negative for a stale tick), until `shortfall` millitokens
    /// (counted from that refill) have accrued; zero if they already have.
    pub open spec fn pending_ms(self, shortfall: int, offset: int) -> int {
        let total = ceil_wait(
            self.refill_numerator as int,
            self.period_nanos as int,
            shortfall,
        );
        if total > offset {
            total - offset
        } else {
            0
        }
    }

    /// Whether a refusal of `n` tokens is permanent: the request exceeds the
    /// capacity, or the bucket never refills.
    pub open spec fn refuses_forever(self, n: int) -> bool {
        n * milli() > self.capacity_millitokens || !self.refills()
    }

    /// Milliseconds of the wait reported when `n` tokens are refused at tick
    /// `now` from `word`: the least wait after which the same request from
    /// the same word is granted.
    pub open spec fn spec_wait_ms(self, word: int, now: int, n: int) -> int {
        self.pending_ms(n * milli() - word_tokens(word), tick_offset(word_tick(word), now))
    }

    /// Nanoseconds of the wait reported when `n` tokens are refused at tick
    /// `now` from `word`: `Duration::MAX` when the refusal is permanent,
    /// otherwise whole milliseconds (saturating at `u64::MAX`).
    pub open spec fn retry_nanos(self, word: int, now: int, n: int) -> int {
        if self.refuses_forever(n) {
            max_duration_nanos()
        } else {
            min_int(self.spec_wait_ms(word, now, n), u64::MAX as int) * nanos_per_ms()
        }
    }

    /// Whether `d` is the decision on a request for `n` tokens at tick `now`
    /// from `word`.
    pub open spec fn decision_ok(self, d: Decision, word: int, now: int, n: int) -> bool {
        if self.allows(word, now, n) {
            d is Allowed
        } else {
            d is Denied && duration_nanos(d->retry_after) == self.retry_nanos(word, now, n)
        }
    }

    /// The state word written by a request for `n` tokens at tick `now`, if
    /// any: a grant of one or more tokens deducts them and stamps the tick
    /// (keeping the word's own tick when `now` is stale); a refusal or a
    /// zero-token request writes nothing.
    pub open spec fn spec_next(self, word: int, now: int, n: int) -> Option<u64> {
        if n > 0 && self.allows(word, now, n) {
            Some(
                spec_pack(
                    self.level(word, now) - n * milli(),
                    stamp_tick(word_tick(word), now),
                ) as u64,
            )
        } else {
            None
        }
    }

    /// Whether a request for `n` tokens at tick `now` from `word` takes
    /// tokens, and so writes a new state word.
    pub open spec fn grants(self, word: u64, now: u32, n: u32) -> bool {
        self.spec_next(word as int, now as int, n as int) is Some
    }

    /// Whether a request for `n` tokens asks for more than the capacity.
    pub fn exceeds_capacity(&self, n: u32) -> (exceeds: bool)
        ensures
            exceeds == (n * milli() > self.capacity_millitokens),
    {
        n as u64 * 1000 > self.capacity_millitokens
    }

    /// Computes the rates of a configuration.
    pub fn from_config(config: &BucketConfig) -> (rates: BucketRates)
        ensures
            rates == Self::spec_from_config(config@),
            rates.wf(),
    {
        let capacity: u64 = config.capacity() as u64 * 1000;
        let capacity_millitokens: u64 = if capacity <= 0xFFFF_FFFF {
            capacity
        } else {
            0xFFFF_FFFF
        };
        let amount = config.refill_amount();
        let period = duration_as_nanos(config.refill_period());
        if amount == 0 || period == 0 || period > 0xFFFF_FFFF_FFFF_FFFF {
            BucketRates { capacity_millitokens, refill_numerator: 0, period_nanos: 0 }
        } else {
            BucketRates {
                capacity_millitokens,
                refill_numerator: amount as u64 * 1_000_000_000,
                period_nanos: period as u64,
            }
        }
    }

    /// Millitokens after refilling `tokens_mt` from tick `last_ms` to tick
    /// `now_ms` (wrapping), capped at capacity. Saturating throughout.
    pub fn refilled(&self, tokens_mt: u64, last_ms: u32, now_ms: u32) -> (level: u64)
        ensures
            level == self.spec_refilled(tokens_mt as int, last_ms as int, now_ms as int),
            level <= self.capacity_millitokens,
    {
        let cap = self.capacity_millitokens;
        if self.refill_numerator == 0 || self.period_nanos == 0 {
            return if tokens_mt <= cap {
                tokens_mt
            } else {
                cap
            };
        }
        let elapsed: u32 = tick_elapsed(last_ms, now_ms);
        proof {
            lemma_accrued_nonneg(
                self.refill_numerator as int,
                self.period_nanos as int,
                elapsed as int,
            );
        }
        let e: u128 = elapsed as u128;
        let numerator: u128 = self.refill_numerator as u128;
        assert(e * numerator <= 0xFFFF_FFFF * 0xFFFF_FFFF_FFFF_FFFF) by (nonlinear_arith)
            requires
                e <= 0xFFFF_FFFF,
                numerator <= 0xFFFF_FFFF_FFFF_FFFF,
        ;
        let added: u128 = e * numerator / (self.period_nanos as u128);
        let added_mt: u64 = if added <= 0xFFFF_FFFF_FFFF_FFFF {
            added as u64
        } else {
            0xFFFF_FFFF_FFFF_FFFF
        };
        let total: u64 = tokens_mt.saturating_add(added_mt);
        if total <= cap {
            total
        } else {
            cap
        }
    }

    /// Whole tokens available at tick `now_ms` in state word `word`.
    pub fn available_at(&self, word: u64, now_ms: u32) -> (tokens: u32)
        requires
            self.wf(),
        ensures
            tokens == self.level(word as int, now_ms as int) / milli(),
            tokens <= self.capacity_millitokens / 1000,
    {
        let (millitokens, last_ms) = unpack(word);
        let level = self.refilled(millitokens, last_ms, now_ms);
        proof {
            lemma_div_is_ordered(level as int, self.capacity_millitokens as int, 1000);
        }
        (level / 1000) as u32
    }

    /// The capacity in whole tokens.
    pub fn capacity_tokens(&self) -> (tokens: u32)
        requires
            self.wf(),
        ensures
            tokens == self.capacity_millitokens / 1000,
    {
        (self.capacity_millitokens / 1000) as u32
    }

    /// The least wait from tick `now_ms` until `shortfall_mt` millitokens,
    /// counted from the refill at tick `last_ms`, have accrued, in whole
    /// milliseconds rounded up (saturating); zero if they already have;
    /// `Duration::MAX` if the bucket never refills. A stale `now_ms` waits
    /// out its lag as well.
    pub fn time_for(&self, shortfall_mt: u64, last_ms: u32, now_ms: u32) -> (wait:
        core::time::Duration)
        ensures
            !self.refills() ==> duration_nanos(wait) == max_duration_nanos(),
            self.refills() ==> duration_nanos(wait) == min_int(
                self.pending_ms(shortfall_mt as int, tick_offset(last_ms as int, now_ms as int)),
                u64::MAX as int,
            ) * nanos_per_ms(),
    {
        if self.refill_numerator == 0 || self.period_nanos == 0 {
            return duration_max();
        }
        let numerator: u128 = self.refill_numerator as u128;
        let period: u128 = self.period_nanos as u128;
        let shortfall: u128 = shortfall_mt as u128;
        assert(shortfall * period <= 0xFFFF_FFFF_FFFF_FFFF * 0xFFFF_FFFF_FFFF_FFFF)
            by (nonlinear_arith)
            requires
                shortfall <= 0xFFFF_FFFF_FFFF_FFFF,
                period <= 0xFFFF_FFFF_FFFF_FFFF,
        ;
        let x: u128 = shortfall * period + (numerator - 1);
        let total: u128 = x / numerator;
        proof {
            lemma_div_is_ordered_by_denominator(x as int, 1, numerator as int);
        }
        let raw: u32 = now_ms.wrapping_sub(last_ms);
        let pending: u128 = if raw > 0xFFF0_0000 {
            // A stale tick: the wait runs from the word's later tick.
            total + (0x1_0000_0000 - raw as u128)
        } else if total > raw as u128 {
            total - raw as u128
        } else {
            0
        };
        let ms: u64 = if pending <= 0xFFFF_FFFF_FFFF_FFFF {
            pending as u64
        } else {
            0xFFFF_FFFF_FFFF_FFFF
        };
        duration_from_millis(ms)
    }

    /// One acquire of `n` tokens at tick `now_ms` against state word `word`:
    /// the decision, and the word to write if the request takes tokens.
    pub fn step(&self, word: u64, now_ms: u32, n: u32) -> (outcome: (Decision, Option<u64>))
        requires
            self.wf(),
        ensures
            self.decision_ok(outcome.0, word as int, now_ms as int, n as int),
            outcome.1 == self.spec_next(word as int, now_ms as int, n as int),
    {
        if n == 0 {
            return (Decision::Allowed, None);
        }
        let need: u64 = n as u64 * 1000;
        if need > self.capacity_millitokens {
            return (Decision::Denied { retry_after: duration_max() }, None);
        }
        let (millitokens, last_ms) = unpack(word);
        let level = self.refilled(millitokens, last_ms, now_ms);
        if level < need {
            proof {
                lemma_accrued_nonneg(
                    self.refill_numerator as int,
                    self.period_nanos as int,
                    elapsed_ticks(last_ms as int, now_ms as int),
                );
            }
            // The shortfall counts from the last refill, so the wait is the
            // least one at which the same request is granted.
            let wait = self.time_for(need - millitokens, last_ms, now_ms);
            (Decision::Denied { retry_after: wait }, None)
        } else {
            (Decision::Allowed, Some(pack(level - need, stamp(last_ms, now_ms))))
        }
    }

    /// The decision on a request for `n` tokens at tick `now_ms`, given what
    /// the atomic update of the state word reported: `Ok(previous)` when the
    /// transition granted the request from `previous` (and stored its word),
    /// `Err(previous)` when it refused it and left `previous` in place. A
    /// grant is `Allowed`; a refusal is the transition's own decision on
    /// `previous`, carrying the wait for its shortfall.
    pub fn settle(&self, outcome: Result<u64, u64>, now_ms: u32, n: u32) -> (decision: Decision)
        requires
            self.wf(),
        ensures
            match outcome {
                Ok(previous) => decision is Allowed && (self.grants(previous, now_ms, n)
                    ==> self.decision_ok(decision, previous as int, now_ms as int, n as int)),
                Err(previous) => self.decision_ok(
                    decision,
                    previous as int,
                    now_ms as int,
                    n as int,
                ),
            },
    {
        match outcome {
            Ok(_) => Decision::Allowed,
            Err(previous) => self.step(previous, now_ms, n).0,
        }
    }

    /// The word of a bucket refilled to capacity at tick `now_ms`; at that
    /// tick it holds exactly the capacity.
    pub fn full_word(&self, now_ms: u32) -> (word: u64)
        requires
            self.wf(),
        ensures
            word == spec_pack(self.capacity_millitokens as int, now_ms as int),
            self.level(word as int, now_ms as int) == self.capacity_millitokens,
    {
        proof {
            lemma_pack_round_trip(self.capacity_millitokens as int, now_ms as int);
            lemma_accrued_nonneg(self.refill_numerator as int, self.period_nanos as int, 0);
        }
        pack(self.capacity_millitokens, now_ms)
    }

    /// The word of a freshly built bucket: the initial fill (clamped to
    /// capacity) at tick zero, which is exactly what it holds at tick zero.
    pub fn initial_word(&self, config: &BucketConfig) -> (word: u64)
        requires
            self.wf(),
        ensures
            word == spec_pack(
                min_int(config@.initial * milli(), self.capacity_millitokens as int),
                0,
            ),
            self.level(word as int, 0) == min_int(
                config@.initial * milli(),
                self.capacity_millitokens as int,
            ),
    {
        let initial: u64 = config.initial() as u64 * 1000;
        let fill: u64 = if initial <= self.capacity_millitokens {
            initial
        } else {
            self.capacity_millitokens
        };
        proof {
            lemma_pack_round_trip(fill as int, 0);
            lemma_accrued_nonneg(self.refill_numerator as int, self.period_nanos as int, 0);
        }
        pack(fill, 0)
    }

    /// The outcome of a run of requests, each a true time in milliseconds
    /// since the bucket was built and a token count, applied in order from
    /// `word`: the final state word and the millitokens granted in total.
    /// The bucket sees each time on its wrapping 32-bit tick.
    pub open spec fn run(self, word: int, requests: Seq<(int, u32)>) -> (int, int)
        decreases requests.len(),
    {
        if requests.len() == 0 {
            (word, 0)
        } else {
            let n = requests[0].1 as int;
            match self.spec_next(word, requests[0].0 % word_base(), n) {
                Some(next) => {
                    let (last_word, granted) = self.run(next as int, requests.drop_first());
                    (last_word, granted + n * milli())
                },
                None => self.run(word, requests.drop_first()),
            }
        }
    }

    /// Tokens stay within `[0, capacity]`: whatever the state word and the
    /// tick, the millitokens available are between zero and the capacity.
    pub proof fn lemma_tokens_within_capacity(self, word: int, now: int)
        requires
            self.wf(),
            0 <= word <= u64::MAX,
            0 <= now < word_base(),
        ensures
            0 <= self.level(word, now) <= self.capacity_millitokens,
    {
        lemma_accrued_nonneg(
            self.refill_numerator as int,
            self.period_nanos as int,
            elapsed_ticks(word_tick(word), now),
        );
    }

    /// Without time passing there is no refill: read at the tick it was
    /// written, a word holds its own millitokens, capped at capacity.
    pub proof fn lemma_no_refill_without_time(self, word: int)
        requires
            0 <= word <= u64::MAX,
        ensures
            self.level(word, word_tick(word)) == min_int(
                word_tokens(word),
                self.capacity_millitokens as int,
            ),
    {
    }

    /// A bucket configured with zero capacity grants nothing: every request
    /// for one or more tokens is refused, permanently.
    pub proof fn lemma_zero_capacity_grants_nothing(config: ConfigView, word: int, now: int, n: int)
        requires
            config.capacity == 0,
            0 < n,
        ensures
            !Self::spec_from_config(config).allows(word, now, n),
            Self::spec_from_config(config).refuses_forever(n),
    {
    }

    /// Refill is exact: over `elapsed` milliseconds a refilling bucket
    /// accrues `elapsed * refill_amount * 10^9 / period_nanos` millitokens,
    /// rounded down, so a whole refill period of whole milliseconds accrues
    /// exactly the refill amount.
    pub proof fn lemma_refill_is_exact(config: ConfigView, elapsed: int)
        requires
            Self::config_refills(config),
            0 <= elapsed,
        ensures
            Self::spec_from_config(config).accrual(elapsed) == elapsed * (config.refill_amount
                * 1_000_000_000) / (duration_nanos(config.refill_period) as int),
            duration_nanos(config.refill_period) == elapsed * 1_000_000 ==> Self::spec_from_config(
                config,
            ).accrual(elapsed) == config.refill_amount * milli(),
    {
        let p = duration_nanos(config.refill_period) as int;
        let a = config.refill_amount as int;
        if p == elapsed * 1_000_000 {
            assert(elapsed * (a * 1_000_000_000) == (a * 1000) * p) by (nonlinear_arith)
                requires
                    p == elapsed * 1_000_000,
            ;
            lemma_fundamental_div_mod_converse(elapsed * (a * 1_000_000_000), p, a * 1000, 0);
        }
    }

    /// A grant deducts exactly the tokens requested: the word it writes holds
    /// the level it found minus the request, stamped with the tick of the
    /// grant (or, for a stale tick, the word's own later tick), so a read at
    /// the grant's tick sees no refill.
    pub proof fn lemma_grant_deducts_exactly(self, word: int, now: int, n: int)
        requires
            self.wf(),
            0 <= word <= u64::MAX,
            0 <= now < word_base(),
            0 < n,
            self.allows(word, now, n),
        ensures
            self.spec_next(word, now, n) is Some,
            word_tokens(self.spec_next(word, now, n)->0 as int) == self.level(word, now) - n
                * milli(),
            word_tick(self.spec_next(word, now, n)->0 as int) == stamp_tick(word_tick(word), now),
            self.level(self.spec_next(word, now, n)->0 as int, now) == self.level(word, now) - n
                * milli(),
    {
        let rest = self.level(word, now) - n * milli();
        let tick = stamp_tick(word_tick(word), now);
        self.lemma_tokens_within_capacity(word, now);
        lemma_pack_round_trip(rest, tick);
        assert(elapsed_ticks(tick, now) == 0);
        lemma_accrued_nonneg(self.refill_numerator as int, self.period_nanos as int, 0);
    }

    /// A zero-token request is granted and leaves the state word as it is.
    pub proof fn lemma_zero_request_writes_nothing(self, word: int, now: int)
        ensures
            self.allows(word, now, 0),
            self.spec_next(word, now, 0) is None,
    {
    }

    /// No token is lost: with the clock standing still, a run of one-token
    /// requests against a word holding `m` millitokens (at most the
    /// capacity) grants exactly one token per request while whole tokens
    /// remain, so `min(k, m / 1000)` tokens for `k` requests; from a full
    /// bucket whose capacity is whole tokens, exactly the capacity once
    /// `k` reaches it.
    pub proof fn lemma_no_lost_token(self, word: int, last: int, requests: Seq<(int, u32)>)
        requires
            self.wf(),
            0 <= word <= u64::MAX,
            0 <= last,
            word_tick(word) == last % word_base(),
            word_tokens(word) <= self.capacity_millitokens,
            forall|i: int| 0 <= i < requests.len() ==> #[trigger] requests[i] == (last, 1u32),
        ensures
            self.run(word, requests).1 == min_int(
                requests.len() as int,
                word_tokens(word) / milli(),
            ) * milli(),
        decreases requests.len(),
    {
        if requests.len() > 0 {
            let tick = last % word_base();
            let rest = requests.drop_first();
            assert(requests[0] == (last, 1u32));
            assert forall|i: int| 0 <= i < rest.len() implies #[trigger] rest[i] == (last, 1u32) by {
                assert(rest[i] == requests[i + 1]);
            }
            assert(0 <= tick < word_base());
            assert(self.level(word, tick) == word_tokens(word));
            if word_tokens(word) >= milli() {
                self.lemma_grant_deducts_exactly(word, tick, 1);
                let next = self.spec_next(word, tick, 1)->0 as int;
                self.lemma_no_lost_token(next, last, rest);
                assert((word_tokens(word) - milli()) / milli() == word_tokens(word) / milli() - 1);
            } else {
                assert(word_tokens(word) / milli() == 0);
                self.lemma_no_lost_token(word, last, rest);
            }
        }
    }

    /// The bucket never over-grants, whatever the order in which concurrent
    /// requests commit. Each request is a clock reading (milliseconds since
    /// the bucket was built) and a token count, listed in the order the
    /// requests update the word; a reading may be older than one committed
    /// before it (a thread that read the clock, then lost the race to
    /// update). As long as no reading lags `last` (the reading at which
    /// `word` was written) or an earlier-committed reading by `2^20` ms
    /// (about 17.5 minutes) or more, the millitokens granted plus the
    /// millitokens left never exceed the millitokens in `word` plus what the
    /// rate accrues from `last` to `end`, the latest reading. This holds
    /// across wraps of the 32-bit tick, which can only under-refill.
    pub proof fn lemma_never_over_grants(
        self,
        word: int,
        last: int,
        end: int,
        requests: Seq<(int, u32)>,
    )
        requires
            self.wf(),
            0 <= word <= u64::MAX,
            0 <= last <= end,
            word_tick(word) == last % word_base(),
            forall|i: int|
                0 <= i < requests.len() ==> 0 <= #[trigger] requests[i].0 <= end
                    && requests[i].0 + stale_window() > last,
            forall|i: int, j: int|
                0 <= i < j < requests.len() ==> #[trigger] requests[j].0 + stale_window()
                    > #[trigger] requests[i].0,
        ensures
            0 <= self.run(word, requests).0 <= u64::MAX,
            self.run(word, requests).1 + word_tokens(self.run(word, requests).0) <= word_tokens(
                word,
            ) + self.accrual(end - last),
        decreases requests.len(),
    {
        let num = self.refill_numerator as int;
        let per = self.period_nanos as int;
        if requests.len() == 0 {
            lemma_accrued_nonneg(num, per, end - last);
        } else {
            let at = requests[0].0;
            let n = requests[0].1 as int;
            let tick = at % word_base();
            let rest = requests.drop_first();
            assert(0 <= at <= end && at + stale_window() > last);
            assert forall|i: int| 0 <= i < rest.len() implies 0 <= #[trigger] rest[i].0 <= end
                && rest[i].0 + stale_window() > last && rest[i].0 + stale_window() > at by {
                assert(rest[i] == requests[i + 1]);
                assert(requests[i + 1].0 + stale_window() > requests[0].0);
            }
            assert forall|i: int, j: int|
                0 <= i < j < rest.len() implies #[trigger] rest[j].0 + stale_window()
                > #[trigger] rest[i].0 by {
                assert(rest[i] == requests[i + 1]);
                assert(rest[j] == requests[j + 1]);
                assert(requests[j + 1].0 + stale_window() > requests[i + 1].0);
            }
            assert(0 <= tick < word_base());
            lemma_offset_of_true_times(last, at);
            let offset = tick_offset(last % word_base(), tick);
            match self.spec_next(word, tick, n) {
                Some(next) => {
                    let level = self.level(word, tick);
                    // The reading at which the next word is stamped.
                    let stamped = if offset >= 0 {
                        at
                    } else {
                        last
                    };
                    self.lemma_grant_deducts_exactly(word, tick, n);
                    lemma_pack_round_trip(level - n * milli(), stamp_tick(word_tick(word), tick));
                    assert(word_tick(next as int) == stamped % word_base());
                    self.lemma_never_over_grants(next as int, stamped, end, rest);
                    lemma_accrued_monotone(
                        num,
                        per,
                        elapsed_ticks(word_tick(word), tick),
                        stamped - last,
                    );
                    lemma_accrued_superadditive(num, per, stamped - last, end - stamped);
                    assert(level <= word_tokens(word) + self.accrual(stamped - last));
                },
                None => {
                    self.lemma_never_over_grants(word, last, end, rest);
                },
            }
        }
    }

    /// With the clock standing still, a bucket grants at most the tokens it
    /// holds, whatever the sequence of requests.
    pub proof fn lemma_static_never_over_grants(self, word: int, last: int, requests: Seq<(int, u32)>)
        requires
            self.wf(),
            0 <= word <= u64::MAX,
            0 <= last,
            word_tick(word) == last % word_base(),
            forall|i: int| 0 <= i < requests.len() ==> #[trigger] requests[i].0 == last,
        ensures
            self.run(word, requests).1 <= word_tokens(word),
    {
        assert forall|i: int, j: int|
            0 <= i < j < requests.len() implies #[trigger] requests[j].0 + stale_window()
            > #[trigger] requests[i].0 by {
            assert(requests[i].0 == last);
            assert(requests[j].0 == last);
        }
        self.lemma_never_over_grants(word, last, last, requests);
        let final_word = self.run(word, requests).0;
        assert(word_tokens(final_word) >= 0);
    }

    /// The retry hint is honest and the least such: when a request that fits
    /// the capacity is refused by a bucket that refills, the same request
    /// from the same state is granted once the reported wait has passed, and
    /// is still refused at every tick before that, as long as the wait ends
    /// less than one wrap of the 32-bit tick (minus the stale window) after
    /// the word's tick. A stale tick waits out its lag as well.
    pub proof fn lemma_retry_after_is_honest(self, word: int, now: int, n: int)
        requires
            self.wf(),
            0 <= word <= u64::MAX,
            0 <= now < word_base(),
            0 < n,
            !self.allows(word, now, n),
            !self.refuses_forever(n),
            tick_offset(word_tick(word), now) + self.spec_wait_ms(word, now, n) <= word_base()
                - stale_window(),
        ensures
            0 < self.spec_wait_ms(word, now, n),
            self.retry_nanos(word, now, n) == self.spec_wait_ms(word, now, n) * nanos_per_ms(),
            self.allows(word, (now + self.spec_wait_ms(word, now, n)) % word_base(), n),
            forall|m: int|
                0 <= m < self.spec_wait_ms(word, now, n) ==> !#[trigger] self.allows(
                    word,
                    (now + m) % word_base(),
                    n,
                ),
    {
        let num = self.refill_numerator as int;
        let per = self.period_nanos as int;
        let last = word_tick(word);
        let o = tick_offset(last, now);
        let e = elapsed_ticks(last, now);
        let tokens = word_tokens(word);
        let need = n * milli();
        let shortfall = need - tokens;
        let total = ceil_wait(num, per, shortfall);
        self.lemma_tokens_within_capacity(word, now);
        lemma_accrued_nonneg(num, per, e);
        assert(tokens + self.accrual(e) < need);
        assert(shortfall > 0);
        lemma_ceil_wait(num, per, shortfall);
        lemma_accrued_reaches(num, per, e, shortfall);
        // e * num < shortfall * per <= total * num, so the total wait from the
        // last refill is past the elapsed time (and past a stale offset).
        if total <= e {
            assert(e * num >= total * num) by (nonlinear_arith)
                requires
                    total <= e,
                    num > 0,
            ;
        }
        assert(total > e && e >= o);
        let wait = total - o;
        assert(self.spec_wait_ms(word, now, n) == wait);
        lemma_offset_adds(last, now, wait);
        assert(elapsed_ticks(last, (now + wait) % word_base()) == total);
        lemma_accrued_reaches(num, per, total, shortfall);
        assert forall|m: int| 0 <= m < wait implies !#[trigger] self.allows(
            word,
            (now + m) % word_base(),
            n,
        ) by {
            lemma_offset_adds(last, now, m);
            let el = elapsed_ticks(last, (now + m) % word_base());
            assert(0 <= el <= total - 1);
            lemma_accrued_reaches(num, per, el, shortfall);
            assert(el * num <= (total - 1) * num) by (nonlinear_arith)
                requires
                    el <= total - 1,
                    num > 0,
            ;
        }
    }

    /// A refusal waits for exactly the shortfall of the word it was decided
    /// on: counted from that word's last refill, the reported wait is the
    /// least whole number of milliseconds over which the rate accrues the
    /// request minus the millitokens the word holds.
    pub proof fn lemma_refusal_waits_for_the_shortfall(self, word: int, now: int, n: int)
        requires
            self.wf(),
            0 <= word <= u64::MAX,
            0 <= now < word_base(),
            0 < n,
            !self.allows(word, now, n),
            !self.refuses_forever(n),
        ensures
            ({
                let since = tick_offset(word_tick(word), now) + self.spec_wait_ms(word, now, n);
                let shortfall = n * milli() - word_tokens(word);
                &&& shortfall > 0
                &&& since * self.refill_numerator >= shortfall * self.period_nanos
                &&& (since - 1) * self.refill_numerator < shortfall * self.period_nanos
            }),
    {
        let num = self.refill_numerator as int;
        let per = self.period_nanos as int;
        let last = word_tick(word);
        let o = tick_offset(last, now);
        let e = elapsed_ticks(last, now);
        let shortfall = n * milli() - word_tokens(word);
        let total = ceil_wait(num, per, shortfall);
        lemma_accrued_nonneg(num, per, e);
        assert(shortfall > 0);
        lemma_ceil_wait(num, per, shortfall);
        lemma_accrued_reaches(num, per, e, shortfall);
        if total <= e {
            assert(e * num >= total * num) by (nonlinear_arith)
                requires
                    total <= e,
                    num > 0,
            ;
        }
        assert(self.spec_wait_ms(word, now, n) == total - o);
    }

    /// Tokens already held shorten the wait: of two words refilled at the
    /// same tick, the one holding more millitokens never reports a longer
    /// wait for the same request.
    pub proof fn lemma_held_tokens_never_lengthen_the_wait(
        self,
        fuller: int,
        emptier: int,
        now: int,
        n: int,
    )
        requires
            self.wf(),
            0 <= fuller <= u64::MAX,
            0 <= emptier <= u64::MAX,
            0 <= now < word_base(),
            0 < n,
            word_tick(fuller) == word_tick(emptier),
            word_tokens(emptier) <= word_tokens(fuller),
            !self.allows(fuller, now, n),
            !self.allows(emptier, now, n),
            !self.refuses_forever(n),
        ensures
            self.spec_wait_ms(fuller, now, n) <= self.spec_wait_ms(emptier, now, n),
            self.retry_nanos(fuller, now, n) <= self.retry_nanos(emptier, now, n),
    {
        let num = self.refill_numerator as int;
        let per = self.period_nanos as int;
        let s1 = n * milli() - word_tokens(fuller);
        let s2 = n * milli() - word_tokens(emptier);
        lemma_mul_inequality(s1, s2, per);
        lemma_div_is_ordered(s1 * per + num - 1, s2 * per + num - 1, num);
        assert(ceil_wait(num, per, s1) <= ceil_wait(num, per, s2));
    }

    /// A grant counts both the tokens held and the refill since the word's
    /// own last refill: a request within capacity is granted exactly when the
    /// millitokens the word holds plus those accrued from its tick to `now`
    /// cover it.
    pub proof fn lemma_grant_counts_held_and_refill(self, word: int, now: int, n: int)
        requires
            self.wf(),
            0 <= word <= u64::MAX,
            0 <= now < word_base(),
            0 < n,
            n * milli() <= self.capacity_millitokens,
        ensures
            self.allows(word, now, n) <==> word_tokens(word) + self.accrual(
                elapsed_ticks(word_tick(word), now),
            ) >= n * milli(),
    {
    }

    /// Refill only helps: a request granted at a tick that is not stale is
    /// still granted at every later tick, as long as the time since the
    /// word's tick stays less than one wrap minus the stale window.
    pub proof fn lemma_refill_only_helps(self, word: int, now: int, later: int, n: int)
        requires
            self.wf(),
            0 <= word <= u64::MAX,
            0 <= now < word_base(),
            0 <= later,
            tick_offset(word_tick(word), now) >= 0,
            tick_offset(word_tick(word), now) + later <= word_base() - stale_window(),
            self.allows(word, now, n),
        ensures
            self.allows(word, (now + later) % word_base(), n),
    {
        let last = word_tick(word);
        lemma_offset_adds(last, now, later);
        lemma_accrued_monotone(
            self.refill_numerator as int,
            self.period_nanos as int,
            elapsed_ticks(last, now),
            elapsed_ticks(last, (now + later) % word_base()),
        );
    }

    /// The tokens reported available agree with acquire: a request for `n`
    /// tokens within capacity is granted from a word at a tick exactly when
    /// at least `n` whole tokens are available there.
    pub proof fn lemma_available_agrees_with_acquire(self, word: int, now: int, n: int)
        requires
            self.wf(),
            0 <= word <= u64::MAX,
            0 <= now < word_base(),
            0 < n,
            n * milli() <= self.capacity_millitokens,
        ensures
            self.allows(word, now, n) <==> self.level(word, now) / milli() >= n,
    {
        self.lemma_tokens_within_capacity(word, now);
        let level = self.level(word, now);
        if level / milli() >= n {
            assert(level >= n * milli());
        }
        if level >= n * milli() {
            assert(level / milli() >= n);
        }
    }

    /// A reset fills the bucket: from the full word stamped at `now`, every
    /// request within capacity is granted at `now`, whatever the bucket held
    /// before, and the bucket stays full at every later tick within the
    /// window.
    pub proof fn lemma_reset_fills_to_capacity(self, now: int, later: int, n: int)
        requires
            self.wf(),
            0 <= now < word_base(),
            0 <= later <= word_base() - stale_window(),
            0 <= n,
            n * milli() <= self.capacity_millitokens,
        ensures
            self.level(spec_pack(self.capacity_millitokens as int, now), now)
                == self.capacity_millitokens,
            self.allows(spec_pack(self.capacity_millitokens as int, now), now, n),
            self.level(
                spec_pack(self.capacity_millitokens as int, now),
                (now + later) % word_base(),
            ) == self.capacity_millitokens,
    {
        let cap = self.capacity_millitokens as int;
        let word = spec_pack(cap, now);
        lemma_pack_round_trip(cap, now);
        assert(tick_offset(now, now) == 0);
        lemma_offset_adds(now, now, later);
        lemma_accrued_nonneg(self.refill_numerator as int, self.period_nanos as int, 0);
        lemma_accrued_nonneg(self.refill_numerator as int, self.period_nanos as int, later);
    }

    /// A new bucket starts at its initial fill: from the word it is built
    /// with, at tick zero, a request is granted exactly when it asks for no
    /// more than the configured initial tokens (clamped to capacity).
    pub proof fn lemma_built_at_initial_fill(self, initial: int, n: int)
        requires
            self.wf(),
            0 <= initial <= u32::MAX,
            0 < n,
        ensures
            self.level(spec_pack(min_int(initial * milli(), self.capacity_millitokens as int), 0), 0)
                == min_int(initial * milli(), self.capacity_millitokens as int),
            self.allows(spec_pack(min_int(initial * milli(), self.capacity_millitokens as int), 0), 0, n)
                <==> n * milli() <= min_int(initial * milli(), self.capacity_millitokens as int),
    {
        let fill = min_int(initial * milli(), self.capacity_millitokens as int);
        lemma_pack_round_trip(fill, 0);
        lemma_accrued_nonneg(self.refill_numerator as int, self.period_nanos as int, 0);
    }

    /// A refusal reported as `Duration::MAX` is permanent: from the same
    /// state the request is refused at every tick.
    pub proof fn lemma_refused_forever(self, word: int, now: int, n: int)
        requires
            self.wf(),
            0 <= word <= u64::MAX,
            0 <= now < word_base(),
            !self.allows(word, now, n),
            self.refuses_forever(n),
        ensures
            self.retry_nanos(word, now, n) == max_duration_nanos(),
            forall|t: int| 0 <= t < word_base() ==> !#[trigger] self.allows(word, t, n),
    {
        assert forall|t: int| 0 <= t < word_base() implies !#[trigger] self.allows(word, t, n) by {
            self.lemma_tokens_within_capacity(word, t);
        }
    }
}

} // verus!
