//! What holds of the store as a whole, whatever the requests and sweeps.
//!
//! The engine's operations are stated over maps from identity to bucket:
//! [`after_check`] for a request and [`without_idle`] for a sweep. The laws
//! here speak of those maps, so they hold of every run of the engine.

use vstd::prelude::*;
use crate::http::rate_limiting::bucket::{
    admits, after_requests, allowed_among, capacity_units, charged, decision, lemma_fresh_burst,
    lemma_stays_within_capacity, refill_time, refilled_tokens, BucketState,
};
use crate::http::rate_limiting::store::{
    after_check, bucket_or_new, is_idle, within_capacity, without_idle,
};

verus! {

/// The buckets after `n` requests of `key` that all arrive at `now`.
pub open spec fn after_burst(
    m: Map<Seq<char>, BucketState>,
    key: Seq<char>,
    now: u64,
    capacity: u32,
    rate: u32,
    n: nat,
) -> Map<Seq<char>, BucketState>
    decreases n,
{
    if n == 0 {
        m
    } else {
        after_check(after_burst(m, key, now, capacity, rate, (n - 1) as nat), key, now, capacity, rate)
    }
}

/// How many of `n` requests of `key` that all arrive at `now` are allowed.
pub open spec fn allowed_in_burst(
    m: Map<Seq<char>, BucketState>,
    key: Seq<char>,
    now: u64,
    capacity: u32,
    rate: u32,
    n: nat,
) -> nat
    decreases n,
{
    if n == 0 {
        0
    } else {
        let before = after_burst(m, key, now, capacity, rate, (n - 1) as nat);
        let earlier = allowed_in_burst(m, key, now, capacity, rate, (n - 1) as nat);
        if decision(bucket_or_new(before, key, now, capacity), now, rate) is Allow {
            earlier + 1
        } else {
            earlier
        }
    }
}

/// Every bucket of `m` was made with `capacity` tokens.
pub open spec fn all_of_capacity(m: Map<Seq<char>, BucketState>, capacity: u32) -> bool {
    forall|k: Seq<char>| m.contains_key(k) ==> (#[trigger] m[k]).capacity == capacity
}

/// No request and no sweep ever leaves a bucket with more tokens than its
/// capacity, or with another capacity than the one it was made with. The
/// empty store is in order, and both operations keep a store in order.
pub proof fn lemma_store_stays_in_order(
    m: Map<Seq<char>, BucketState>,
    key: Seq<char>,
    now: u64,
    capacity: u32,
    rate: u32,
    horizon: u64,
)
    requires
        within_capacity(m),
        all_of_capacity(m, capacity),
    ensures
        within_capacity(Map::<Seq<char>, BucketState>::empty()),
        all_of_capacity(Map::<Seq<char>, BucketState>::empty(), capacity),
        within_capacity(after_check(m, key, now, capacity, rate)),
        all_of_capacity(after_check(m, key, now, capacity, rate), capacity),
        within_capacity(without_idle(m, now, horizon)),
        all_of_capacity(without_idle(m, now, horizon), capacity),
{
    let b = bucket_or_new(m, key, now, capacity);
    assert(capacity_units(capacity) <= u64::MAX) by (nonlinear_arith)
        requires
            capacity <= u32::MAX,
    ;
    assert(b.wf() && b.capacity == capacity);
    lemma_stays_within_capacity(b, now, rate);
}

/// Clients do not share tokens: a request of one client leaves the bucket of
/// every other as it was, so the answer that another client gets is the same
/// whether the request was made or not, and requests of two clients can be
/// taken in either order.
pub proof fn lemma_keys_are_independent(
    m: Map<Seq<char>, BucketState>,
    a: Seq<char>,
    at_a: u64,
    b: Seq<char>,
    at_b: u64,
    capacity: u32,
    rate: u32,
)
    requires
        a != b,
    ensures
        after_check(m, a, at_a, capacity, rate).contains_key(b) == m.contains_key(b),
        m.contains_key(b) ==> after_check(m, a, at_a, capacity, rate)[b] == m[b],
        bucket_or_new(after_check(m, a, at_a, capacity, rate), b, at_b, capacity) == bucket_or_new(
            m,
            b,
            at_b,
            capacity,
        ),
        decision(
            bucket_or_new(after_check(m, a, at_a, capacity, rate), b, at_b, capacity),
            at_b,
            rate,
        ) == decision(bucket_or_new(m, b, at_b, capacity), at_b, rate),
        after_check(after_check(m, a, at_a, capacity, rate), b, at_b, capacity, rate)
            == after_check(after_check(m, b, at_b, capacity, rate), a, at_a, capacity, rate),
{
    assert(after_check(after_check(m, a, at_a, capacity, rate), b, at_b, capacity, rate)
        =~= after_check(after_check(m, b, at_b, capacity, rate), a, at_a, capacity, rate));
}

/// During a burst the bucket of the client goes through the same states as
/// a bucket charged on its own.
proof fn lemma_burst_follows_bucket(
    m: Map<Seq<char>, BucketState>,
    key: Seq<char>,
    now: u64,
    capacity: u32,
    rate: u32,
    n: nat,
)
    ensures
        bucket_or_new(after_burst(m, key, now, capacity, rate, n), key, now, capacity)
            == after_requests(bucket_or_new(m, key, now, capacity), now, rate, n),
        allowed_in_burst(m, key, now, capacity, rate, n) == allowed_among(
            bucket_or_new(m, key, now, capacity),
            now,
            rate,
            n,
        ),
    decreases n,
{
    if n > 0 {
        lemma_burst_follows_bucket(m, key, now, capacity, rate, (n - 1) as nat);
    }
}

/// Of `n` requests that a client without a bucket makes at the same
/// instant, exactly `capacity` are allowed, or all of them if they are
/// fewer. Requests that arrive together are charged one after the other, in
/// whatever order; the count does not depend on it.
pub proof fn lemma_new_client_burst(
    m: Map<Seq<char>, BucketState>,
    key: Seq<char>,
    now: u64,
    capacity: u32,
    rate: u32,
    n: nat,
)
    requires
        !m.contains_key(key),
    ensures
        allowed_in_burst(m, key, now, capacity, rate, n) == (if n <= capacity {
            n as int
        } else {
            capacity as int
        }),
{
    lemma_burst_follows_bucket(m, key, now, capacity, rate, n);
    lemma_fresh_burst(capacity, now, rate, n);
}

/// A sweep drops exactly the buckets that were last used more than the
/// horizon ago, and leaves the others as they were.
pub proof fn lemma_sweep_is_exact(
    m: Map<Seq<char>, BucketState>,
    key: Seq<char>,
    now: u64,
    horizon: u64,
)
    ensures
        without_idle(m, now, horizon).contains_key(key) <==> m.contains_key(key) && now
            - m[key].last_update <= horizon,
        without_idle(m, now, horizon).contains_key(key) ==> without_idle(m, now, horizon)[key]
            == m[key],
{
}

/// A bucket that was charged within the horizon is not dropped by a sweep.
pub proof fn lemma_recent_client_survives(
    m: Map<Seq<char>, BucketState>,
    key: Seq<char>,
    at: u64,
    capacity: u32,
    rate: u32,
    now: u64,
    horizon: u64,
)
    requires
        now - at <= horizon,
    ensures
        without_idle(after_check(m, key, at, capacity, rate), now, horizon).contains_key(key),
        without_idle(after_check(m, key, at, capacity, rate), now, horizon)[key] == after_check(
            m,
            key,
            at,
            capacity,
            rate,
        )[key],
{
    let b = bucket_or_new(m, key, at, capacity);
    assert(charged(b, at, rate).last_update == refill_time(b, at));
}

/// Where the horizon leaves a bucket the time to fill up, a sweep goes
/// unnoticed: a bucket that it drops was full, so the client's next request
/// is answered, and leaves its bucket, as if the sweep had not been.
pub proof fn lemma_sweep_goes_unnoticed(
    m: Map<Seq<char>, BucketState>,
    key: Seq<char>,
    capacity: u32,
    rate: u32,
    now: u64,
    horizon: u64,
    later: u64,
)
    requires
        within_capacity(m),
        all_of_capacity(m, capacity),
        horizon * rate >= capacity_units(capacity),
        later >= now,
    ensures
        decision(bucket_or_new(without_idle(m, now, horizon), key, later, capacity), later, rate)
            == decision(bucket_or_new(m, key, later, capacity), later, rate),
        charged(bucket_or_new(without_idle(m, now, horizon), key, later, capacity), later, rate)
            == charged(bucket_or_new(m, key, later, capacity), later, rate),
{
    assert(capacity_units(capacity) <= u64::MAX) by (nonlinear_arith)
        requires
            capacity <= u32::MAX,
    ;
    if m.contains_key(key) && is_idle(m[key], now, horizon) {
        let b = m[key];
        let fresh = bucket_or_new(without_idle(m, now, horizon), key, later, capacity);
        let elapsed = refill_time(b, later) - b.last_update;
        assert(elapsed * rate >= capacity_units(capacity)) by (nonlinear_arith)
            requires
                elapsed > horizon,
                horizon * rate >= capacity_units(capacity),
                rate >= 0,
        ;
        assert((refill_time(fresh, later) - fresh.last_update) * rate == 0) by (nonlinear_arith)
            requires
                refill_time(fresh, later) - fresh.last_update == 0,
        ;
        assert(refilled_tokens(b, later, rate) == capacity_units(capacity));
        assert(refilled_tokens(fresh, later, rate) == capacity_units(capacity));
        assert(admits(b, later, rate) == admits(fresh, later, rate));
    }
}

} // verus!
