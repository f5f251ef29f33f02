//! The request path: identity, decision, and what to answer.

use vstd::prelude::*;
use crate::http::rate_limiting::bucket::{
    decision, div_ceil, BucketState, Decision, UNITS_PER_TOKEN,
};
use crate::http::rate_limiting::extractor::{extract_key, key_of, KeyExtractor, RequestMeta};
use crate::http::rate_limiting::limiter::{quota_check, EvictionReport, Limiter, PolicyError, Quota};
use crate::http::rate_limiting::store::{
    after_check, bucket_or_new, idle_keys, views, within_capacity, without_idle,
};
use crate::http::rate_limiting::{RateLimitConfig, RateLimitPolicy};

verus! {

/// The status of the answer to a request that is turned away.
pub const TOO_MANY_REQUESTS: u16 = 429;

/// What becomes of a request.
#[derive(Clone, Copy, Debug, PartialEq, Eq, Structural)]
pub enum Admission {
    /// It is passed on unchanged.
    Forward,
    /// It is answered at once and not passed on.
    Reject {
        /// The status of the answer.
        status: u16,
        /// The value of the answer's `Retry-After` header, in seconds.
        retry_after_secs: u64,
    },
}

/// What becomes of a request on which the limiter decided `d`: an allowed
/// one is passed on, a denied one is answered with the time to wait, rounded
/// up to whole seconds.
pub open spec fn admission_for(d: Decision) -> Admission {
    match d {
        Decision::Allow => Admission::Forward,
        Decision::Deny { retry_after } => Admission::Reject {
            status: TOO_MANY_REQUESTS,
            retry_after_secs: div_ceil(retry_after as int, UNITS_PER_TOKEN as int) as u64,
        },
    }
}

/// The extractor that a mode stands for, if it limits at all.
pub open spec fn extractor_of(mode: RateLimitConfig) -> Option<KeyExtractor> {
    match mode {
        RateLimitConfig::Disabled => None,
        RateLimitConfig::Simple => Some(KeyExtractor::Direct),
        RateLimitConfig::Smart => Some(KeyExtractor::Smart),
    }
}

/// Turns a limiter's decision into what becomes of the request.
pub fn respond(d: Decision) -> (a: Admission)
    ensures
        a == admission_for(d),
{
    match d {
        Decision::Allow => Admission::Forward,
        Decision::Deny { retry_after } => {
            let whole: u64 = retry_after / UNITS_PER_TOKEN;
            let secs: u64 = if retry_after % UNITS_PER_TOKEN == 0 {
                whole
            } else {
                whole + 1
            };
            Admission::Reject { status: TOO_MANY_REQUESTS, retry_after_secs: secs }
        },
    }
}

/// The working parts of a middleware that limits.
struct Enabled {
    extractor: KeyExtractor,
    limiter: Limiter,
}

/// Admission control in front of every request.
pub struct AdmissionMiddleware {
    policy: RateLimitPolicy,
    enabled: Option<Enabled>,
}

impl AdmissionMiddleware {
    #[verifier::type_invariant]
    spec fn inv(&self) -> bool {
        match self.enabled {
            None => self.policy.mode == RateLimitConfig::Disabled,
            Some(e) => {
                &&& extractor_of(self.policy.mode) == Some(e.extractor)
                &&& e.limiter.rate() == self.policy.refill_rate
                &&& e.limiter.burst() == self.policy.burst_size
                &&& e.limiter.horizon() == self.policy.eviction_horizon
                &&& within_capacity(e.limiter@)
            },
        }
    }

    /// The policy in force.
    pub closed spec fn policy(&self) -> RateLimitPolicy {
        self.policy
    }

    /// The bucket of each client that has one. There is none while limiting
    /// is disabled.
    pub closed spec fn buckets(&self) -> Map<Seq<char>, BucketState> {
        match self.enabled {
            None => Map::empty(),
            Some(e) => e.limiter@,
        }
    }

    /// A middleware that passes every request on; it stands in while the
    /// working parts are taken out to be changed.
    fn passthrough(policy: &RateLimitPolicy) -> (m: AdmissionMiddleware)
        ensures
            m.policy() == (RateLimitPolicy { mode: RateLimitConfig::Disabled, ..*policy }),
            m.buckets() == Map::<Seq<char>, BucketState>::empty(),
    {
        AdmissionMiddleware {
            policy: RateLimitPolicy { mode: RateLimitConfig::Disabled, ..*policy },
            enabled: None,
        }
    }

    /// Admission control under `policy`, with no buckets yet. A policy that
    /// disables limiting is taken as it is; any other must have a positive
    /// refill rate and burst size.
    pub fn new(policy: &RateLimitPolicy) -> (r: Result<AdmissionMiddleware, PolicyError>)
        ensures
            match r {
                Ok(m) => {
                    &&& m.policy() == *policy
                    &&& m.buckets() == Map::<Seq<char>, BucketState>::empty()
                    &&& (policy.mode == RateLimitConfig::Disabled || quota_check(
                        policy.refill_rate,
                        policy.burst_size,
                    ) is Ok)
                },
                Err(e) => {
                    &&& policy.mode != RateLimitConfig::Disabled
                    &&& quota_check(policy.refill_rate, policy.burst_size) == Err::<
                        (),
                        PolicyError,
                    >(e)
                },
            },
    {
        let extractor = match policy.mode {
            RateLimitConfig::Disabled => {
                return Ok(AdmissionMiddleware { policy: *policy, enabled: None });
            },
            RateLimitConfig::Simple => KeyExtractor::Direct,
            RateLimitConfig::Smart => KeyExtractor::Smart,
        };
        match Quota::new(policy.refill_rate, policy.burst_size) {
            Ok(quota) => {
                let limiter = Limiter::new(quota, policy.eviction_horizon);
                Ok(AdmissionMiddleware { policy: *policy, enabled: Some(Enabled { extractor, limiter }) })
            },
            Err(e) => Err(e),
        }
    }

    /// The policy in force.
    pub fn get_policy(&self) -> (p: RateLimitPolicy)
        ensures
            p == self.policy(),
    {
        self.policy
    }

    /// The number of clients that have a bucket.
    pub fn len(&self) -> (n: usize)
        ensures
            self.buckets().dom().finite(),
            n == self.buckets().len(),
            within_capacity(self.buckets()),
    {
        proof {
            use_type_invariant(self);
        }
        match &self.enabled {
            None => 0,
            Some(e) => e.limiter.len(),
        }
    }

    /// Decides what becomes of the request behind `meta` that arrives at
    /// `now`.
    ///
    /// While limiting is disabled every request is passed on and no bucket is
    /// made. A request whose client cannot be identified is passed on as
    /// well. Any other is charged to its client's bucket: it is passed on if
    /// the limiter allows it, and rejected with the time to wait if not.
    pub fn handle(&mut self, meta: &RequestMeta, now: u64) -> (a: Admission)
        ensures
            final(self).policy() == old(self).policy(),
            within_capacity(final(self).buckets()),
            match extractor_of(old(self).policy().mode) {
                None => a == Admission::Forward && final(self).buckets() == old(self).buckets()
                    && final(self).buckets() == Map::<Seq<char>, BucketState>::empty(),
                Some(extractor) => match key_of(extractor, *meta) {
                    None => a == Admission::Forward && final(self).buckets() == old(
                        self,
                    ).buckets(),
                    Some(key) => {
                        &&& a == admission_for(
                            decision(
                                bucket_or_new(
                                    old(self).buckets(),
                                    key,
                                    now,
                                    old(self).policy().burst_size,
                                ),
                                now,
                                old(self).policy().refill_rate,
                            ),
                        )
                        &&& final(self).buckets() == after_check(
                            old(self).buckets(),
                            key,
                            now,
                            old(self).policy().burst_size,
                            old(self).policy().refill_rate,
                        )
                    },
                },
            },
    {
        proof {
            use_type_invariant(&*self);
        }
        let mut taken = AdmissionMiddleware::passthrough(&self.policy);
        core::mem::swap(&mut taken, self);
        let AdmissionMiddleware { policy, enabled } = taken;
        let (enabled, a) = match enabled {
            None => (None, Admission::Forward),
            Some(e) => {
                let Enabled { extractor, mut limiter } = e;
                let a = match extract_key(extractor, meta) {
                    None => Admission::Forward,
                    Some(key) => respond(limiter.check(key.as_str(), now)),
                };
                (Some(Enabled { extractor, limiter }), a)
            },
        };
        *self = AdmissionMiddleware { policy, enabled };
        a
    }

    /// One sweep at `now`: counts the buckets, then drops every one that was
    /// last used more than the eviction horizon ago.
    pub fn sweep(&mut self, now: u64) -> (report: EvictionReport)
        ensures
            final(self).policy() == old(self).policy(),
            old(self).buckets().dom().finite(),
            report.size_before == old(self).buckets().len(),
            views(report.removed@).to_set() == idle_keys(
                old(self).buckets(),
                now,
                old(self).policy().eviction_horizon,
            ),
            views(report.removed@).no_duplicates(),
            final(self).buckets() == without_idle(
                old(self).buckets(),
                now,
                old(self).policy().eviction_horizon,
            ),
            within_capacity(final(self).buckets()),
    {
        proof {
            use_type_invariant(&*self);
        }
        let mut taken = AdmissionMiddleware::passthrough(&self.policy);
        core::mem::swap(&mut taken, self);
        let AdmissionMiddleware { policy, enabled } = taken;
        let (enabled, report) = match enabled {
            None => {
                let report = EvictionReport { size_before: 0, removed: Vec::new() };
                proof {
                    let none = Map::<Seq<char>, BucketState>::empty();
                    let horizon = old(self).policy().eviction_horizon;
                    assert(views(report.removed@).to_set() =~= idle_keys(none, now, horizon));
                    assert(without_idle(none, now, horizon) =~= none);
                }
                (None, report)
            },
            Some(e) => {
                let Enabled { extractor, mut limiter } = e;
                let report = limiter.evict(now);
                (Some(Enabled { extractor, limiter }), report)
            },
        };
        *self = AdmissionMiddleware { policy, enabled };
        report
    }
}

} // verus!
