//! The decision engine: a quota, and the store of buckets it is applied to.

use vstd::prelude::*;
use crate::http::rate_limiting::bucket::{decision, BucketState, Decision};
use crate::http::rate_limiting::store::{
    after_check, bucket_or_new, idle_keys, views, within_capacity, without_idle, BucketStore,
};

verus! {

/// Why a quota was refused.
#[derive(Clone, Copy, Debug, PartialEq, Eq, Structural)]
pub enum PolicyError {
    /// Buckets would never refill.
    ZeroRefillRate,
    /// Buckets could never hold a token.
    ZeroBurstSize,
}

impl PolicyError {
    /// A sentence for the log.
    pub fn message(&self) -> (s: String)
        ensures
            s@ == (match *self {
                PolicyError::ZeroRefillRate => "the refill rate must be positive"@,
                PolicyError::ZeroBurstSize => "the burst size must be positive"@,
            }),
    {
        match self {
            PolicyError::ZeroRefillRate => "the refill rate must be positive".to_owned(),
            PolicyError::ZeroBurstSize => "the burst size must be positive".to_owned(),
        }
    }
}

/// A refill rate and a burst size, both positive.
#[derive(Clone, Copy, Debug)]
pub struct Quota {
    refill_rate: u32,
    burst_size: u32,
}

/// The answer to a quota of `refill_rate` tokens per second and bursts of
/// `burst_size`: a zero rate is refused first, then a zero burst.
pub open spec fn quota_check(refill_rate: u32, burst_size: u32) -> Result<(), PolicyError> {
    if refill_rate == 0 {
        Err(PolicyError::ZeroRefillRate)
    } else if burst_size == 0 {
        Err(PolicyError::ZeroBurstSize)
    } else {
        Ok(())
    }
}

impl Quota {
    #[verifier::type_invariant]
    spec fn inv(&self) -> bool {
        self.refill_rate > 0 && self.burst_size > 0
    }

    /// Tokens added per second.
    pub closed spec fn rate(&self) -> u32 {
        self.refill_rate
    }

    /// The capacity of a bucket.
    pub closed spec fn burst(&self) -> u32 {
        self.burst_size
    }

    /// A quota of `refill_rate` tokens per second with bursts of up to
    /// `burst_size` requests, unless one of them is zero.
    pub fn new(refill_rate: u32, burst_size: u32) -> (r: Result<Quota, PolicyError>)
        ensures
            match r {
                Ok(q) => quota_check(refill_rate, burst_size) is Ok && q.rate() == refill_rate
                    && q.burst() == burst_size,
                Err(e) => quota_check(refill_rate, burst_size) == Err::<(), PolicyError>(e),
            },
    {
        if refill_rate == 0 {
            Err(PolicyError::ZeroRefillRate)
        } else if burst_size == 0 {
            Err(PolicyError::ZeroBurstSize)
        } else {
            Ok(Quota { refill_rate, burst_size })
        }
    }

    /// Tokens added per second; never zero.
    pub fn refill_rate(&self) -> (r: u32)
        ensures
            r == self.rate(),
            r > 0,
    {
        proof {
            use_type_invariant(self);
        }
        self.refill_rate
    }

    /// The capacity of a bucket; never zero.
    pub fn burst_size(&self) -> (r: u32)
        ensures
            r == self.burst(),
            r > 0,
    {
        proof {
            use_type_invariant(self);
        }
        self.burst_size
    }
}

/// What one sweep of the store found and did.
pub struct EvictionReport {
    /// The number of buckets before the sweep.
    pub size_before: usize,
    /// The identities whose buckets were dropped, each once.
    pub removed: Vec<String>,
}

/// The decision engine: one bucket per client, all under the same quota.
pub struct Limiter {
    quota: Quota,
    horizon: u64,
    store: BucketStore,
}

impl View for Limiter {
    type V = Map<Seq<char>, BucketState>;

    /// The bucket of each client that has one.
    closed spec fn view(&self) -> Map<Seq<char>, BucketState> {
        self.store@
    }
}

impl Limiter {
    /// Tokens added to each bucket per second.
    pub closed spec fn rate(&self) -> u32 {
        self.quota.rate()
    }

    /// The capacity of each bucket.
    pub closed spec fn burst(&self) -> u32 {
        self.quota.burst()
    }

    /// The nanoseconds a bucket may go unused before a sweep drops it.
    pub closed spec fn horizon(&self) -> u64 {
        self.horizon
    }

    /// An engine with no buckets yet. Buckets refill at `quota`'s rate up to
    /// its burst size, and are dropped by a sweep once unused for more than
    /// `eviction_horizon` nanoseconds.
    pub fn new(quota: Quota, eviction_horizon: u64) -> (l: Limiter)
        ensures
            l@ == Map::<Seq<char>, BucketState>::empty(),
            within_capacity(l@),
            l.rate() == quota.rate(),
            l.burst() == quota.burst(),
            l.horizon() == eviction_horizon,
    {
        Limiter { quota, horizon: eviction_horizon, store: BucketStore::new() }
    }

    /// Tokens added to each bucket per second.
    pub fn refill_rate(&self) -> (r: u32)
        ensures
            r == self.rate(),
            r > 0,
    {
        self.quota.refill_rate()
    }

    /// The capacity of each bucket.
    pub fn burst_size(&self) -> (r: u32)
        ensures
            r == self.burst(),
            r > 0,
    {
        self.quota.burst_size()
    }

    /// The nanoseconds a bucket may go unused before a sweep drops it.
    pub fn eviction_horizon(&self) -> (r: u64)
        ensures
            r == self.horizon(),
    {
        self.horizon
    }

    /// The number of clients that have a bucket.
    pub fn len(&self) -> (n: usize)
        ensures
            self@.dom().finite(),
            n == self@.len(),
            within_capacity(self@),
    {
        self.store.len()
    }

    /// The bucket of `key`, if it has one.
    pub fn bucket(&self, key: &str) -> (r: Option<BucketState>)
        ensures
            r == (if self@.contains_key(key@) {
                Some(self@[key@])
            } else {
                None
            }),
            r matches Some(b) ==> b.wf(),
    {
        self.store.get(key)
    }

    /// Decides on a request of `key` at `now`. A client without a bucket gets
    /// a full one first. The bucket is refilled for the time since its last
    /// use; if it then holds a whole token, the token is spent and the
    /// request allowed; if not, the request is denied with the time to wait.
    /// The buckets of other clients are not touched.
    pub fn check(&mut self, key: &str, now: u64) -> (d: Decision)
        ensures
            d == decision(
                bucket_or_new(old(self)@, key@, now, old(self).burst()),
                now,
                old(self).rate(),
            ),
            final(self)@ == after_check(old(self)@, key@, now, old(self).burst(), old(self).rate()),
            within_capacity(final(self)@),
            final(self).rate() == old(self).rate(),
            final(self).burst() == old(self).burst(),
            final(self).horizon() == old(self).horizon(),
    {
        let rate = self.quota.refill_rate();
        let burst = self.quota.burst_size();
        self.store.check(key, now, burst, rate)
    }

    /// One sweep at `now`: counts the buckets, then drops every one that was
    /// last used more than the eviction horizon ago. Buckets used within the
    /// horizon stay as they are.
    pub fn evict(&mut self, now: u64) -> (report: EvictionReport)
        ensures
            old(self)@.dom().finite(),
            report.size_before == old(self)@.len(),
            views(report.removed@).to_set() == idle_keys(old(self)@, now, old(self).horizon()),
            views(report.removed@).no_duplicates(),
            final(self)@ == without_idle(old(self)@, now, old(self).horizon()),
            within_capacity(final(self)@),
            final(self).rate() == old(self).rate(),
            final(self).burst() == old(self).burst(),
            final(self).horizon() == old(self).horizon(),
    {
        let size_before = self.store.len();
        let removed = self.store.evict_idle(now, self.horizon);
        EvictionReport { size_before, removed }
    }
}

} // verus!
