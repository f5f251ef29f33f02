use iroh_dns_server::http::rate_limiting::bucket::{BucketState, Decision, UNITS_PER_TOKEN};
use iroh_dns_server::http::rate_limiting::limiter::{Limiter, PolicyError, Quota};

const QUARTER_SECOND: u64 = 250_000_000;
const MINUTE: u64 = 60_000_000_000;

fn limiter(rate: u32, burst: u32, horizon: u64) -> Limiter {
    Limiter::new(Quota::new(rate, burst).unwrap(), horizon)
}

#[test]
fn new_bucket_is_full() {
    let b = BucketState::new(2, 17);
    assert_eq!(b.capacity, 2);
    assert_eq!(b.tokens, 2 * UNITS_PER_TOKEN);
    assert_eq!(b.last_update, 17);
}

#[test]
fn refill_adds_rate_per_nanosecond_up_to_capacity() {
    let mut b = BucketState { capacity: 2, tokens: 0, last_update: 0 };
    b.refill(100, 4);
    assert_eq!(b.tokens, 400);
    assert_eq!(b.last_update, 100);
    b.refill(MINUTE, 4);
    assert_eq!(b.tokens, 2 * UNITS_PER_TOKEN);
    assert_eq!(b.last_update, MINUTE);
}

#[test]
fn refill_does_not_overflow_on_extreme_values() {
    let mut b = BucketState { capacity: u32::MAX, tokens: 0, last_update: 0 };
    b.refill(u64::MAX, u32::MAX);
    assert_eq!(b.tokens, u32::MAX as u64 * UNITS_PER_TOKEN);
    assert_eq!(b.last_update, u64::MAX);
}

#[test]
fn time_never_runs_backwards_for_a_bucket() {
    let mut b = BucketState { capacity: 2, tokens: 0, last_update: 1_000 };
    let d = b.check(10, 4);
    assert_eq!(d, Decision::Deny { retry_after: QUARTER_SECOND });
    assert_eq!(b.tokens, 0);
    assert_eq!(b.last_update, 1_000);
}

#[test]
fn burst_of_two_then_denied() {
    let mut l = limiter(4, 2, MINUTE);
    assert_eq!(l.check("10.0.0.1", 0), Decision::Allow);
    assert_eq!(l.check("10.0.0.1", 0), Decision::Allow);
    assert_eq!(l.check("10.0.0.1", 0), Decision::Deny { retry_after: QUARTER_SECOND });
    assert_eq!(l.bucket("10.0.0.1").unwrap().tokens, 0);
}

#[test]
fn one_token_after_a_quarter_second() {
    let mut l = limiter(4, 2, MINUTE);
    assert_eq!(l.check("k", 0), Decision::Allow);
    assert_eq!(l.check("k", 0), Decision::Allow);
    assert!(matches!(l.check("k", 0), Decision::Deny { .. }));
    assert_eq!(l.check("k", QUARTER_SECOND), Decision::Allow);
    assert_eq!(l.check("k", QUARTER_SECOND), Decision::Deny { retry_after: QUARTER_SECOND });
}

#[test]
fn denial_names_the_exact_wait() {
    let mut l = limiter(3, 1, MINUTE);
    assert_eq!(l.check("k", 0), Decision::Allow);
    // A third of a second, rounded up to the next nanosecond.
    assert_eq!(l.check("k", 0), Decision::Deny { retry_after: 333_333_334 });
    assert_eq!(l.check("k", 333_333_333), Decision::Deny { retry_after: 1 });
    assert_eq!(l.check("k", 333_333_334), Decision::Allow);
}

#[test]
fn partial_refill_shortens_the_wait() {
    let mut l = limiter(4, 2, MINUTE);
    l.check("k", 0);
    l.check("k", 0);
    assert_eq!(l.check("k", 100_000_000), Decision::Deny { retry_after: 150_000_000 });
    assert_eq!(l.bucket("k").unwrap().tokens, 400_000_000);
    assert_eq!(l.bucket("k").unwrap().last_update, 100_000_000);
}

#[test]
fn tokens_stay_within_capacity() {
    let mut l = limiter(4, 2, MINUTE);
    let mut now = 0;
    for step in 0..200u64 {
        now += (step % 7) * 90_000_000;
        l.check("a", now);
        if step % 3 == 0 {
            l.check("b", now);
        }
        for key in ["a", "b"] {
            if let Some(b) = l.bucket(key) {
                assert!(b.tokens <= 2 * UNITS_PER_TOKEN);
                assert_eq!(b.capacity, 2);
            }
        }
    }
}

#[test]
fn keys_do_not_share_tokens() {
    let mut l = limiter(4, 2, MINUTE);
    assert_eq!(l.check("b", 0), Decision::Allow);
    let before = l.bucket("b").unwrap();
    for _ in 0..10 {
        l.check("a", 5);
    }
    assert_eq!(l.bucket("a").unwrap().tokens, 0);
    assert_eq!(l.bucket("b").unwrap(), before);
    assert_eq!(l.check("b", 5), Decision::Allow);
    assert_eq!(l.len(), 2);
}

#[test]
fn interleaved_keys_get_the_same_answers() {
    let mut together = limiter(4, 2, MINUTE);
    let mut alone = limiter(4, 2, MINUTE);
    let times = [0u64, 0, 10, 20, QUARTER_SECOND, QUARTER_SECOND + 1, MINUTE];
    for t in times {
        together.check("noise", t);
        let d = together.check("client", t);
        together.check("noise", t);
        assert_eq!(d, alone.check("client", t));
    }
    assert_eq!(together.bucket("client"), alone.bucket("client"));
}

#[test]
fn burst_admits_the_smaller_of_requests_and_capacity() {
    for (requests, capacity) in [(0u32, 3u32), (2, 3), (3, 3), (10, 3), (5, 1), (100, 7)] {
        let mut l = limiter(4, capacity, MINUTE);
        let mut allowed = 0;
        for _ in 0..requests {
            if l.check("fresh", 42) == Decision::Allow {
                allowed += 1;
            }
        }
        assert_eq!(allowed, requests.min(capacity));
    }
}

#[test]
fn sweep_drops_idle_and_keeps_recent() {
    let mut l = limiter(4, 2, MINUTE);
    l.check("old", 0);
    l.check("edge", 1_000);
    l.check("new", 30_000_000_000);
    let kept = l.bucket("edge").unwrap();
    let report = l.evict(MINUTE + 1_000);
    assert_eq!(report.size_before, 3);
    assert_eq!(report.removed, vec!["old".to_string()]);
    assert_eq!(l.len(), 2);
    assert!(l.bucket("old").is_none());
    // Used exactly the horizon ago: not older than the horizon.
    assert_eq!(l.bucket("edge"), Some(kept));
    assert!(l.bucket("new").is_some());
}

#[test]
fn sweep_of_everything_and_of_nothing() {
    let mut l = limiter(4, 2, 10);
    let report = l.evict(1_000);
    assert_eq!(report.size_before, 0);
    assert!(report.removed.is_empty());
    l.check("a", 0);
    l.check("b", 1);
    l.check("c", 2);
    let mut removed = l.evict(1_000).removed;
    removed.sort();
    assert_eq!(removed, vec!["a".to_string(), "b".to_string(), "c".to_string()]);
    assert_eq!(l.len(), 0);
}

#[test]
fn sweep_ignores_buckets_from_the_future() {
    let mut l = limiter(4, 2, 10);
    l.check("ahead", 5_000);
    let report = l.evict(100);
    assert!(report.removed.is_empty());
    assert_eq!(l.len(), 1);
}

#[test]
fn dropped_client_starts_with_a_full_bucket() {
    let mut swept = limiter(4, 2, MINUTE);
    let mut unswept = limiter(4, 2, MINUTE);
    for l in [&mut swept, &mut unswept] {
        l.check("k", 0);
        l.check("k", 0);
    }
    assert_eq!(swept.evict(2 * MINUTE).removed, vec!["k".to_string()]);
    for t in [2 * MINUTE, 2 * MINUTE, 2 * MINUTE, 2 * MINUTE + QUARTER_SECOND] {
        assert_eq!(swept.check("k", t), unswept.check("k", t));
        assert_eq!(swept.bucket("k"), unswept.bucket("k"));
    }
}

#[test]
fn quota_rejects_zero_rate_then_zero_burst() {
    assert_eq!(Quota::new(0, 2).unwrap_err(), PolicyError::ZeroRefillRate);
    assert_eq!(Quota::new(4, 0).unwrap_err(), PolicyError::ZeroBurstSize);
    assert_eq!(Quota::new(0, 0).unwrap_err(), PolicyError::ZeroRefillRate);
    let q = Quota::new(4, 2).unwrap();
    assert_eq!(q.refill_rate(), 4);
    assert_eq!(q.burst_size(), 2);
}

#[test]
fn policy_errors_have_messages() {
    assert_eq!(PolicyError::ZeroRefillRate.message(), "the refill rate must be positive");
    assert_eq!(PolicyError::ZeroBurstSize.message(), "the burst size must be positive");
}

#[test]
fn limiter_reports_its_parameters() {
    let l = limiter(4, 2, MINUTE);
    assert_eq!(l.refill_rate(), 4);
    assert_eq!(l.burst_size(), 2);
    assert_eq!(l.eviction_horizon(), MINUTE);
    assert_eq!(l.len(), 0);
    assert!(l.bucket("nobody").is_none());
}

#[test]
fn many_clients_each_have_their_own_bucket() {
    let mut l = limiter(4, 2, MINUTE);
    let keys: Vec<String> = (0..3000u32).map(|i| format!("10.{}.{}.{}", i / 65536, (i / 256) % 256, i % 256)).collect();
    for (i, key) in keys.iter().enumerate() {
        let at = if i % 2 == 0 { 0 } else { MINUTE };
        assert_eq!(l.check(key, at), Decision::Allow);
        assert_eq!(l.check(key, at), Decision::Allow);
        assert_eq!(l.check(key, at), Decision::Deny { retry_after: QUARTER_SECOND });
    }
    assert_eq!(l.len(), keys.len());
    for (i, key) in keys.iter().enumerate() {
        let b = l.bucket(key).unwrap();
        assert_eq!(b.tokens, 0);
        assert_eq!(b.last_update, if i % 2 == 0 { 0 } else { MINUTE });
    }
    let report = l.evict(MINUTE + 1);
    assert_eq!(report.size_before, keys.len());
    assert_eq!(report.removed.len(), keys.len() / 2);
    assert_eq!(l.len(), keys.len() / 2);
    for (i, key) in keys.iter().enumerate() {
        assert_eq!(l.bucket(key).is_some(), i % 2 == 1, "{key}");
        assert_eq!(report.removed.contains(key), i % 2 == 0);
    }
    for (i, key) in keys.iter().enumerate() {
        let expected = if i % 2 == 0 {
            Decision::Allow
        } else {
            Decision::Deny { retry_after: QUARTER_SECOND - 1 }
        };
        assert_eq!(l.check(key, MINUTE + 1), expected);
    }
    assert_eq!(l.len(), keys.len());
}

#[test]
fn keys_are_told_apart_exactly() {
    let mut l = limiter(4, 1, MINUTE);
    for key in ["", "a", "aa", "a ", " a", "A", "\u{e4}", "a\u{0}", "::1", "0:0:0:0:0:0:0:1"] {
        assert_eq!(l.check(key, 0), Decision::Allow, "{key:?}");
        assert!(matches!(l.check(key, 0), Decision::Deny { .. }), "{key:?}");
    }
    assert_eq!(l.len(), 10);
}
