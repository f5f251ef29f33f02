//! The token bucket of a single client.
//!
//! Time is counted in whole nanoseconds and tokens in billionths of a token,
//! so that a refill at a whole number of tokens per second is exact: one
//! nanosecond at a rate of `r` tokens per second adds `r` billionths.

use vstd::prelude::*;

verus! {

/// Nanoseconds in a second, and billionths in a token.
pub const UNITS_PER_TOKEN: u64 = 1_000_000_000;

/// The outcome of charging one request to a bucket.
#[derive(Clone, Copy, Debug, PartialEq, Eq, Structural)]
pub enum Decision {
    /// The request may proceed; one token was spent.
    Allow,
    /// The request must wait; nothing was spent.
    Deny {
        /// Nanoseconds until the bucket holds a whole token again.
        retry_after: u64,
    },
}

/// The token bucket of one client.
#[derive(Clone, Copy, Debug, PartialEq, Eq, Structural)]
pub struct BucketState {
    /// The most tokens the bucket can hold.
    pub capacity: u32,
    /// The tokens in the bucket, in billionths of a token.
    pub tokens: u64,
    /// The time of the last refill, in nanoseconds.
    pub last_update: u64,
}

/// The billionths of a token that a bucket of `capacity` tokens can hold.
pub open spec fn capacity_units(capacity: u32) -> int {
    capacity as int * UNITS_PER_TOKEN as int
}

/// The smallest `q` with `q * d >= n`, for `n >= 0` and `d > 0`.
pub open spec fn div_ceil(n: int, d: int) -> int {
    (n + d - 1) / d
}

/// The later of a bucket's last refill and `now`: for a bucket, time never
/// runs backwards.
pub open spec fn refill_time(b: BucketState, now: u64) -> u64 {
    if now >= b.last_update {
        now
    } else {
        b.last_update
    }
}

/// The tokens of `b` at `now`, in billionths: what it held, plus `rate`
/// billionths for each nanosecond since the last refill, cut at the capacity.
pub open spec fn refilled_tokens(b: BucketState, now: u64, rate: u32) -> int {
    let gained = (refill_time(b, now) - b.last_update) * rate;
    if b.tokens + gained >= capacity_units(b.capacity) {
        capacity_units(b.capacity)
    } else {
        b.tokens + gained
    }
}

/// The bucket `b` brought up to `now`.
pub open spec fn refilled(b: BucketState, now: u64, rate: u32) -> BucketState {
    BucketState {
        capacity: b.capacity,
        tokens: refilled_tokens(b, now, rate) as u64,
        last_update: refill_time(b, now),
    }
}

/// Whether a request at `now` finds a whole token in `b`.
pub open spec fn admits(b: BucketState, now: u64, rate: u32) -> bool {
    refilled_tokens(b, now, rate) >= UNITS_PER_TOKEN
}

/// The nanoseconds a request refused at `now` has to wait: the missing part
/// of a token divided by the rate, rounded up.
pub open spec fn wait_nanos(b: BucketState, now: u64, rate: u32) -> int {
    div_ceil(UNITS_PER_TOKEN - refilled_tokens(b, now, rate), rate as int)
}

/// The bucket after a request at `now`: refilled, and one token poorer if
/// the request was admitted.
pub open spec fn charged(b: BucketState, now: u64, rate: u32) -> BucketState {
    let r = refilled(b, now, rate);
    if admits(b, now, rate) {
        BucketState { tokens: (r.tokens - UNITS_PER_TOKEN) as u64, ..r }
    } else {
        r
    }
}

/// The answer to a request at `now`.
pub open spec fn decision(b: BucketState, now: u64, rate: u32) -> Decision {
    if admits(b, now, rate) {
        Decision::Allow
    } else {
        Decision::Deny { retry_after: wait_nanos(b, now, rate) as u64 }
    }
}

/// The whole tokens that a request at `now` finds in `b`.
pub open spec fn whole_tokens(b: BucketState, now: u64, rate: u32) -> int {
    refilled_tokens(b, now, rate) / (UNITS_PER_TOKEN as int)
}

/// The bucket after `n` requests that all arrive at `now`.
pub open spec fn after_requests(b: BucketState, now: u64, rate: u32, n: nat) -> BucketState
    decreases n,
{
    if n == 0 {
        b
    } else {
        charged(after_requests(b, now, rate, (n - 1) as nat), now, rate)
    }
}

/// How many of `n` requests that all arrive at `now` are allowed.
pub open spec fn allowed_among(b: BucketState, now: u64, rate: u32, n: nat) -> nat
    decreases n,
{
    if n == 0 {
        0
    } else {
        let earlier = allowed_among(b, now, rate, (n - 1) as nat);
        if admits(after_requests(b, now, rate, (n - 1) as nat), now, rate) {
            earlier + 1
        } else {
            earlier
        }
    }
}

/// A bucket never holds more than its capacity: refilling and charging keep
/// it within bounds, whatever the time and the rate.
pub proof fn lemma_stays_within_capacity(b: BucketState, now: u64, rate: u32)
    requires
        b.wf(),
    ensures
        refilled(b, now, rate).wf(),
        charged(b, now, rate).wf(),
        0 <= refilled_tokens(b, now, rate) <= capacity_units(b.capacity),
        charged(b, now, rate).capacity == b.capacity,
        charged(b, now, rate).last_update == refill_time(b, now),
{
    lemma_refill_bounds(b, now, rate);
}

/// The refilled level lies between the old level and the capacity, and fits
/// the field it is stored in.
proof fn lemma_refill_bounds(b: BucketState, now: u64, rate: u32)
    requires
        b.wf(),
    ensures
        b.tokens <= refilled_tokens(b, now, rate) <= capacity_units(b.capacity) <= u64::MAX,
{
    assert(capacity_units(b.capacity) <= u64::MAX) by (nonlinear_arith)
        requires
            b.capacity <= u32::MAX,
    ;
    assert((refill_time(b, now) - b.last_update) * rate >= 0) by (nonlinear_arith)
        requires
            refill_time(b, now) - b.last_update >= 0,
            rate >= 0,
    ;
}

/// A request is allowed exactly when a whole token is there, and then costs
/// exactly one; a denied request costs nothing.
pub proof fn lemma_charge_is_one_token(b: BucketState, now: u64, rate: u32)
    requires
        b.wf(),
    ensures
        decision(b, now, rate) is Allow <==> whole_tokens(b, now, rate) >= 1,
        decision(b, now, rate) is Allow ==> charged(b, now, rate).tokens == refilled_tokens(
            b,
            now,
            rate,
        ) - UNITS_PER_TOKEN,
        decision(b, now, rate) is Deny ==> charged(b, now, rate) == refilled(b, now, rate),
{
    lemma_refill_bounds(b, now, rate);
}

/// The wait that a denial names is exact: a request that comes that long
/// after the denied one is allowed, and one that comes sooner is not.
pub proof fn lemma_wait_is_exact(b: BucketState, now: u64, rate: u32, later: u64)
    requires
        b.wf(),
        b.capacity > 0,
        rate > 0,
        !admits(b, now, rate),
        later >= refill_time(b, now),
    ensures
        1 <= wait_nanos(b, now, rate) <= UNITS_PER_TOKEN,
        decision(b, now, rate) == (Decision::Deny { retry_after: wait_nanos(b, now, rate) as u64 }),
        admits(charged(b, now, rate), later, rate) <==> later - refill_time(b, now) >= wait_nanos(
            b,
            now,
            rate,
        ),
{
    lemma_refill_bounds(b, now, rate);
    let level = refilled_tokens(b, now, rate);
    let missing = UNITS_PER_TOKEN - level;
    let wait = wait_nanos(b, now, rate);
    let r = rate as int;
    assert(wait == (missing + r - 1) / r);
    assert((wait - 1) * r < missing <= wait * r && 1 <= wait <= missing) by (nonlinear_arith)
        requires
            wait == (missing + r - 1) / r,
            missing >= 1,
            r >= 1,
    ;
    let after = charged(b, now, rate);
    assert(after == refilled(b, now, rate));
    assert(after.tokens == level);
    assert(after.last_update == refill_time(b, now));
    let elapsed = later - refill_time(b, now);
    assert(refill_time(after, later) == later);
    let gained = elapsed * r;
    assert(gained == (refill_time(after, later) - after.last_update) * rate);
    if elapsed >= wait {
        assert(gained >= wait * r) by (nonlinear_arith)
            requires
                gained == elapsed * r,
                elapsed >= wait,
                r >= 1,
        ;
        assert(capacity_units(after.capacity) >= UNITS_PER_TOKEN) by (nonlinear_arith)
            requires
                after.capacity >= 1,
        ;
    } else {
        assert(gained <= (wait - 1) * r) by (nonlinear_arith)
            requires
                gained == elapsed * r,
                elapsed <= wait - 1,
                r >= 1,
        ;
    }
}

/// After `n` requests at one instant the bucket is short of exactly the
/// tokens that were there to spend.
proof fn lemma_after_requests(b: BucketState, now: u64, rate: u32, n: nat)
    requires
        b.wf(),
    ensures
        after_requests(b, now, rate, n).wf(),
        refilled_tokens(after_requests(b, now, rate, n), now, rate) == refilled_tokens(
            b,
            now,
            rate,
        ) - UNITS_PER_TOKEN * (if n <= whole_tokens(b, now, rate) {
            n as int
        } else {
            whole_tokens(b, now, rate)
        }),
        n > 0 ==> after_requests(b, now, rate, n).last_update == refill_time(b, now),
        allowed_among(b, now, rate, n) == (if n <= whole_tokens(b, now, rate) {
            n as int
        } else {
            whole_tokens(b, now, rate)
        }),
    decreases n,
{
    lemma_refill_bounds(b, now, rate);
    if n > 0 {
        let k = (n - 1) as nat;
        lemma_after_requests(b, now, rate, k);
        let s = after_requests(b, now, rate, k);
        lemma_refill_bounds(s, now, rate);
        assert(refill_time(s, now) == refill_time(b, now));
        let c = charged(s, now, rate);
        assert(c == after_requests(b, now, rate, n));
        assert(refill_time(c, now) == c.last_update);
        assert((refill_time(c, now) - c.last_update) * rate == 0) by (nonlinear_arith)
            requires
                refill_time(c, now) - c.last_update == 0,
        ;
        assert(refilled_tokens(c, now, rate) == c.tokens);
    }
}

/// Of `n` requests that reach a bucket at the same instant, exactly as many
/// are allowed as the bucket holds whole tokens, or all `n` if it holds
/// more. The order in which they are taken does not matter: each is charged
/// in turn.
pub proof fn lemma_burst_is_bounded(b: BucketState, now: u64, rate: u32, n: nat)
    requires
        b.wf(),
    ensures
        allowed_among(b, now, rate, n) == (if n <= whole_tokens(b, now, rate) {
            n as int
        } else {
            whole_tokens(b, now, rate)
        }),
{
    lemma_after_requests(b, now, rate, n);
}

/// A full bucket of `capacity` tokens allows exactly `capacity` of the
/// requests that reach it at once, or all of them if they are fewer.
pub proof fn lemma_fresh_burst(capacity: u32, now: u64, rate: u32, n: nat)
    ensures
        allowed_among(
            BucketState { capacity, tokens: capacity_units(capacity) as u64, last_update: now },
            now,
            rate,
            n,
        ) == (if n <= capacity {
            n as int
        } else {
            capacity as int
        }),
{
    let b = BucketState { capacity, tokens: capacity_units(capacity) as u64, last_update: now };
    assert(capacity_units(capacity) <= u64::MAX) by (nonlinear_arith)
        requires
            capacity <= u32::MAX,
    ;
    assert((refill_time(b, now) - b.last_update) * rate == 0) by (nonlinear_arith)
        requires
            refill_time(b, now) - b.last_update == 0,
    ;
    assert(whole_tokens(b, now, rate) == capacity) by (nonlinear_arith)
        requires
            whole_tokens(b, now, rate) == (capacity * 1_000_000_000) / 1_000_000_000,
    ;
    lemma_after_requests(b, now, rate, n);
}

/// The bucket after requests at each of `times`, in that order.
pub open spec fn after_all(b: BucketState, times: Seq<u64>, rate: u32) -> BucketState
    decreases times.len(),
{
    if times.len() == 0 {
        b
    } else {
        charged(after_all(b, times.drop_last(), rate), times.last(), rate)
    }
}

/// How many of the requests at `times` are allowed.
pub open spec fn allowed_of(b: BucketState, times: Seq<u64>, rate: u32) -> nat
    decreases times.len(),
{
    if times.len() == 0 {
        0
    } else {
        let earlier = allowed_of(b, times.drop_last(), rate);
        if admits(after_all(b, times.drop_last(), rate), times.last(), rate) {
            earlier + 1
        } else {
            earlier
        }
    }
}

/// No client gets more than its quota. Whatever the times of its requests,
/// the tokens spent on the allowed ones, together with those left in the
/// bucket, are no more than the tokens that were there at first and the
/// refill for the time that has passed on the bucket's clock. So a client
/// that starts with a full bucket is allowed at most a burst and, on top of
/// it, the refill rate.
pub proof fn lemma_quota_is_kept(b: BucketState, times: Seq<u64>, rate: u32)
    requires
        b.wf(),
    ensures
        after_all(b, times, rate).wf(),
        after_all(b, times, rate).capacity == b.capacity,
        after_all(b, times, rate).last_update >= b.last_update,
        UNITS_PER_TOKEN * allowed_of(b, times, rate) + after_all(b, times, rate).tokens <= b.tokens
            + (after_all(b, times, rate).last_update - b.last_update) * rate,
        UNITS_PER_TOKEN * allowed_of(b, times, rate) <= capacity_units(b.capacity) + (after_all(
            b,
            times,
            rate,
        ).last_update - b.last_update) * rate,
    decreases times.len(),
{
    if times.len() > 0 {
        let s = after_all(b, times.drop_last(), rate);
        let now = times.last();
        lemma_quota_is_kept(b, times.drop_last(), rate);
        lemma_refill_bounds(s, now, rate);
        let c = after_all(b, times, rate);
        assert(c == charged(s, now, rate));
        let first = s.last_update - b.last_update;
        let second = c.last_update - s.last_update;
        assert((first + second) * rate == first * rate + second * rate) by (nonlinear_arith);
        assert(refilled_tokens(s, now, rate) <= s.tokens + second * rate);
    }
}

impl BucketState {
    /// A bucket never holds more than its capacity.
    pub open spec fn wf(&self) -> bool {
        self.tokens <= capacity_units(self.capacity)
    }

    /// A full bucket, first seen at `now`.
    pub fn new(capacity: u32, now: u64) -> (b: BucketState)
        ensures
            b == (BucketState { capacity, tokens: capacity_units(capacity) as u64, last_update: now }),
            b.wf(),
    {
        assert(capacity_units(capacity) <= u64::MAX) by (nonlinear_arith)
            requires
                capacity <= u32::MAX,
        ;
        BucketState { capacity, tokens: capacity as u64 * UNITS_PER_TOKEN, last_update: now }
    }

    /// Brings the bucket up to `now`.
    pub fn refill(&mut self, now: u64, rate: u32)
        requires
            old(self).wf(),
        ensures
            *final(self) == refilled(*old(self), now, rate),
            final(self).wf(),
    {
        let time: u64 = if now >= self.last_update { now } else { self.last_update };
        let elapsed: u64 = time - self.last_update;
        assert(capacity_units(self.capacity) <= u64::MAX) by (nonlinear_arith)
            requires
                self.capacity <= u32::MAX,
        ;
        assert(elapsed * rate <= u64::MAX * u32::MAX) by (nonlinear_arith)
            requires
                elapsed <= u64::MAX,
                rate <= u32::MAX,
        ;
        let limit: u128 = self.capacity as u128 * UNITS_PER_TOKEN as u128;
        let level: u128 = self.tokens as u128 + elapsed as u128 * rate as u128;
        self.tokens = if level >= limit { limit as u64 } else { level as u64 };
        self.last_update = time;
    }

    /// Charges one request at `now` to the bucket: refills it, then spends a
    /// token if a whole one is there, and otherwise tells how long to wait.
    pub fn check(&mut self, now: u64, rate: u32) -> (d: Decision)
        requires
            old(self).wf(),
            rate > 0,
        ensures
            *final(self) == charged(*old(self), now, rate),
            d == decision(*old(self), now, rate),
            final(self).wf(),
    {
        self.refill(now, rate);
        if self.tokens >= UNITS_PER_TOKEN {
            self.tokens = self.tokens - UNITS_PER_TOKEN;
            Decision::Allow
        } else {
            let missing: u64 = UNITS_PER_TOKEN - self.tokens;
            let rate64: u64 = rate as u64;
            let wait: u64 = (missing + (rate64 - 1)) / rate64;
            Decision::Deny { retry_after: wait }
        }
    }
}

} // verus!
