//! Per-client request throttling with token buckets.
//!
//! Each client has a bucket that holds up to a burst's worth of tokens and
//! refills at a steady rate. A request spends one token, and is turned away
//! with a hint of how long to wait when there is none. Buckets that go unused
//! are swept away so that the store does not grow without bound.

pub mod admission;
pub mod bucket;
pub mod extractor;
pub mod laws;
pub mod limiter;
pub mod store;

use vstd::prelude::*;
use crate::http::rate_limiting::admission::AdmissionMiddleware;
use crate::http::rate_limiting::bucket::{BucketState, UNITS_PER_TOKEN};

verus! {

/// Config for http rate limit.
#[derive(Clone, Copy, Debug, PartialEq, Eq, Structural)]
pub enum RateLimitConfig {
    /// Disable rate limit for http server.
    Disabled,
    /// Enable rate limit for http server based on the connection peer IP address.
    Simple,
    /// Enable rate limit for http server based on a smart logic for extracting the client's
    /// own IP address, useful for reverse proxies.
    Smart,
}

impl Default for RateLimitConfig {
    /// Rate limiting by peer address unless configured otherwise.
    fn default() -> (config: RateLimitConfig)
        ensures
            config == RateLimitConfig::Simple,
    {
        RateLimitConfig::Simple
    }
}

impl Default for &RateLimitConfig {
    /// Rate limiting by peer address unless configured otherwise.
    fn default() -> (config: &'static RateLimitConfig)
        ensures
            *config == RateLimitConfig::Simple,
    {
        &RateLimitConfig::Simple
    }
}

/// Tokens added to a bucket per second, unless configured otherwise.
pub const DEFAULT_REFILL_RATE: u32 = 4;

/// The capacity of a bucket, unless configured otherwise.
pub const DEFAULT_BURST_SIZE: u32 = 2;

/// Nanoseconds between two sweeps of the store, unless configured otherwise.
pub const DEFAULT_GC_INTERVAL: u64 = 60_000_000_000;

/// The rate-limiting policy, fixed at startup.
#[derive(Clone, Copy, Debug, PartialEq, Eq, Structural)]
pub struct RateLimitPolicy {
    /// Whether requests are limited, and by which identity.
    pub mode: RateLimitConfig,
    /// Tokens added to a bucket per second.
    pub refill_rate: u32,
    /// The capacity of a bucket.
    pub burst_size: u32,
    /// Nanoseconds between two sweeps of the store.
    pub gc_interval: u64,
    /// Nanoseconds a bucket may go unused before a sweep drops it.
    pub eviction_horizon: u64,
}

impl RateLimitPolicy {
    /// The policy with every parameter at its default, in the given mode.
    pub open spec fn standard(mode: RateLimitConfig) -> RateLimitPolicy {
        RateLimitPolicy {
            mode,
            refill_rate: DEFAULT_REFILL_RATE,
            burst_size: DEFAULT_BURST_SIZE,
            gc_interval: DEFAULT_GC_INTERVAL,
            eviction_horizon: DEFAULT_GC_INTERVAL,
        }
    }

    /// Whether the horizon leaves a bucket the time to fill up, so that a
    /// sweep only ever drops full buckets.
    pub open spec fn drops_only_full_buckets(&self) -> bool {
        self.eviction_horizon * self.refill_rate >= self.burst_size * UNITS_PER_TOKEN
    }

    /// The policy with every parameter at its default, in the given mode:
    /// four tokens per second, bursts of two, a sweep every minute that drops
    /// what has gone unused for a minute.
    pub fn with_mode(mode: RateLimitConfig) -> (policy: RateLimitPolicy)
        ensures
            policy == RateLimitPolicy::standard(mode),
            policy.drops_only_full_buckets(),
    {
        assert(60_000_000_000u64 * 4u32 >= 2u32 * 1_000_000_000u64) by (nonlinear_arith);
        RateLimitPolicy {
            mode,
            refill_rate: DEFAULT_REFILL_RATE,
            burst_size: DEFAULT_BURST_SIZE,
            gc_interval: DEFAULT_GC_INTERVAL,
            eviction_horizon: DEFAULT_GC_INTERVAL,
        }
    }
}

impl Default for RateLimitPolicy {
    /// The default policy in the default mode.
    fn default() -> (policy: RateLimitPolicy)
        ensures
            policy == RateLimitPolicy::standard(RateLimitConfig::Simple),
    {
        RateLimitPolicy::with_mode(RateLimitConfig::Simple)
    }
}

/// Create the default rate-limiting layer.
///
/// There is none where rate limiting is disabled. Otherwise it starts without
/// buckets, takes the client's identity as the mode says, and applies the
/// default policy. The caller is expected to sweep it every
/// [`DEFAULT_GC_INTERVAL`].
pub fn create(rate_limit_config: &RateLimitConfig) -> (layer: Option<AdmissionMiddleware>)
    ensures
        layer is None <==> *rate_limit_config == RateLimitConfig::Disabled,
        layer matches Some(m) ==> {
            &&& m.policy() == RateLimitPolicy::standard(*rate_limit_config)
            &&& m.buckets() == Map::<Seq<char>, BucketState>::empty()
        },
{
    match rate_limit_config {
        RateLimitConfig::Disabled => None,
        _ => {
            let policy = RateLimitPolicy::with_mode(*rate_limit_config);
            match AdmissionMiddleware::new(&policy) {
                Ok(layer) => Some(layer),
                Err(_) => None,
            }
        },
    }
}

} // verus!
