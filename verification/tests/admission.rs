use iroh_dns_server::http::rate_limiting::admission::{
    respond, Admission, AdmissionMiddleware, TOO_MANY_REQUESTS,
};
use iroh_dns_server::http::rate_limiting::bucket::Decision;
use iroh_dns_server::http::rate_limiting::extractor::{
    are_well_quoted, extract_key, is_well_quoted, reported_address, select_key, KeyExtractor,
    RequestMeta,
};
use iroh_dns_server::http::rate_limiting::limiter::PolicyError;
use iroh_dns_server::http::rate_limiting::{
    create, RateLimitConfig, RateLimitPolicy, DEFAULT_BURST_SIZE, DEFAULT_GC_INTERVAL,
    DEFAULT_REFILL_RATE,
};

fn meta(peer: Option<&str>, headers: &[(&str, &str)]) -> RequestMeta {
    RequestMeta {
        peer: peer.map(|p| p.to_string()),
        proxy_headers: headers.iter().map(|(n, v)| (n.to_string(), v.to_string())).collect(),
    }
}

fn throttled(secs: u64) -> Admission {
    Admission::Reject { status: 429, retry_after_secs: secs }
}

#[test]
fn default_mode_is_simple() {
    assert_eq!(RateLimitConfig::default(), RateLimitConfig::Simple);
}

#[test]
fn default_policy_values() {
    let p = RateLimitPolicy::default();
    assert_eq!(p.mode, RateLimitConfig::Simple);
    assert_eq!(p.refill_rate, 4);
    assert_eq!(p.burst_size, 2);
    assert_eq!(p.gc_interval, 60_000_000_000);
    assert_eq!(p.eviction_horizon, 60_000_000_000);
    assert_eq!((DEFAULT_REFILL_RATE, DEFAULT_BURST_SIZE, DEFAULT_GC_INTERVAL), (4, 2, 60_000_000_000));
    assert_eq!(RateLimitPolicy::with_mode(RateLimitConfig::Smart).mode, RateLimitConfig::Smart);
}

#[test]
fn create_gives_no_layer_when_disabled() {
    assert!(create(&RateLimitConfig::Disabled).is_none());
}

#[test]
fn create_gives_default_policy_in_the_given_mode() {
    for mode in [RateLimitConfig::Simple, RateLimitConfig::Smart] {
        let layer = create(&mode).unwrap();
        assert_eq!(layer.get_policy(), RateLimitPolicy::with_mode(mode));
        assert_eq!(layer.len(), 0);
    }
}

#[test]
fn invalid_policy_fails_at_construction() {
    let zero_rate = RateLimitPolicy { refill_rate: 0, ..RateLimitPolicy::default() };
    assert_eq!(AdmissionMiddleware::new(&zero_rate).err(), Some(PolicyError::ZeroRefillRate));
    let zero_burst = RateLimitPolicy { burst_size: 0, ..RateLimitPolicy::default() };
    assert_eq!(AdmissionMiddleware::new(&zero_burst).err(), Some(PolicyError::ZeroBurstSize));
    let disabled =
        RateLimitPolicy { mode: RateLimitConfig::Disabled, refill_rate: 0, ..RateLimitPolicy::default() };
    assert!(AdmissionMiddleware::new(&disabled).is_ok());
}

#[test]
fn disabled_mode_allows_everything_and_keeps_no_state() {
    let policy = RateLimitPolicy::with_mode(RateLimitConfig::Disabled);
    let mut layer = AdmissionMiddleware::new(&policy).unwrap();
    let request = meta(Some("10.0.0.1"), &[("x-forwarded-for", "1.2.3.4")]);
    for _ in 0..1000 {
        assert_eq!(layer.handle(&request, 0), Admission::Forward);
        assert_eq!(layer.len(), 0);
    }
    let report = layer.sweep(u64::MAX);
    assert_eq!(report.size_before, 0);
    assert!(report.removed.is_empty());
    assert_eq!(layer.get_policy(), policy);
}

#[test]
fn simple_mode_limits_by_peer_address() {
    let mut layer = create(&RateLimitConfig::Simple).unwrap();
    let a = meta(Some("10.0.0.1"), &[("x-forwarded-for", "1.2.3.4")]);
    let b = meta(Some("10.0.0.1"), &[("x-forwarded-for", "5.6.7.8")]);
    assert_eq!(layer.handle(&a, 0), Admission::Forward);
    assert_eq!(layer.handle(&b, 0), Admission::Forward);
    assert_eq!(layer.handle(&a, 0), throttled(1));
    assert_eq!(layer.len(), 1);
}

#[test]
fn smart_mode_limits_by_forwarded_address() {
    let mut layer = create(&RateLimitConfig::Smart).unwrap();
    let a = meta(Some("10.0.0.1"), &[("x-forwarded-for", "1.2.3.4")]);
    let b = meta(Some("10.0.0.1"), &[("x-forwarded-for", "5.6.7.8")]);
    assert_eq!(layer.handle(&a, 0), Admission::Forward);
    assert_eq!(layer.handle(&a, 0), Admission::Forward);
    assert_eq!(layer.handle(&a, 0), throttled(1));
    assert_eq!(layer.handle(&b, 0), Admission::Forward);
    assert_eq!(layer.len(), 2);
}

#[test]
fn unidentified_client_is_let_through() {
    let mut layer = create(&RateLimitConfig::Smart).unwrap();
    let nobody = meta(None, &[]);
    for _ in 0..10 {
        assert_eq!(layer.handle(&nobody, 0), Admission::Forward);
    }
    assert_eq!(layer.len(), 0);
}

#[test]
fn sweep_through_the_middleware() {
    let mut layer = create(&RateLimitConfig::Simple).unwrap();
    layer.handle(&meta(Some("10.0.0.1"), &[]), 0);
    layer.handle(&meta(Some("10.0.0.2"), &[]), DEFAULT_GC_INTERVAL);
    let report = layer.sweep(DEFAULT_GC_INTERVAL + 1);
    assert_eq!(report.size_before, 2);
    assert_eq!(report.removed, vec!["10.0.0.1".to_string()]);
    assert_eq!(layer.len(), 1);
}

#[test]
fn retry_after_is_rounded_up_to_whole_seconds() {
    assert_eq!(respond(Decision::Allow), Admission::Forward);
    assert_eq!(respond(Decision::Deny { retry_after: 0 }), throttled(0));
    assert_eq!(respond(Decision::Deny { retry_after: 1 }), throttled(1));
    assert_eq!(respond(Decision::Deny { retry_after: 250_000_000 }), throttled(1));
    assert_eq!(respond(Decision::Deny { retry_after: 1_000_000_000 }), throttled(1));
    assert_eq!(respond(Decision::Deny { retry_after: 1_000_000_001 }), throttled(2));
    assert_eq!(respond(Decision::Deny { retry_after: u64::MAX }), throttled(18_446_744_074));
    assert_eq!(TOO_MANY_REQUESTS, 429);
}

#[test]
fn direct_extraction_takes_the_peer() {
    let request = meta(Some("10.0.0.1"), &[("x-forwarded-for", "1.2.3.4")]);
    assert_eq!(extract_key(KeyExtractor::Direct, &request), Some("10.0.0.1".to_string()));
    assert_eq!(extract_key(KeyExtractor::Direct, &meta(None, &[])), None);
}

#[test]
fn smart_extraction_without_headers_equals_direct() {
    for peer in [Some("10.0.0.1"), Some("::1"), None] {
        let request = meta(peer, &[]);
        assert_eq!(
            extract_key(KeyExtractor::Smart, &request),
            extract_key(KeyExtractor::Direct, &request)
        );
    }
}

#[test]
fn smart_extraction_reads_x_forwarded_for() {
    let request = meta(Some("10.0.0.1"), &[("x-forwarded-for", "1.2.3.4, 5.6.7.8")]);
    assert_eq!(extract_key(KeyExtractor::Smart, &request), Some("1.2.3.4".to_string()));
    let request = meta(Some("10.0.0.1"), &[("X-Forwarded-For", "unknown, 2001:db8::1")]);
    assert_eq!(extract_key(KeyExtractor::Smart, &request), Some("2001:db8::1".to_string()));
}

#[test]
fn smart_extraction_reads_x_real_ip_and_forwarded() {
    let request = meta(Some("10.0.0.1"), &[("x-real-ip", "9.9.9.9")]);
    assert_eq!(extract_key(KeyExtractor::Smart, &request), Some("9.9.9.9".to_string()));
    let request =
        meta(Some("10.0.0.1"), &[("forwarded", "for=192.0.2.60;proto=http;by=203.0.113.43")]);
    assert_eq!(extract_key(KeyExtractor::Smart, &request), Some("192.0.2.60".to_string()));
    let request = meta(
        Some("10.0.0.1"),
        &[("forwarded", "for=192.0.2.60"), ("x-real-ip", "9.9.9.9"), ("x-forwarded-for", "1.2.3.4")],
    );
    assert_eq!(extract_key(KeyExtractor::Smart, &request), Some("1.2.3.4".to_string()));
}

#[test]
fn smart_extraction_falls_back_on_malformed_headers() {
    let peer = Some("10.0.0.1".to_string());
    for headers in [
        vec![("x-forwarded-for", "not an address")],
        vec![("x-real-ip", "")],
        vec![("forwarded", "for=_hidden")],
        vec![("forwarded", "garbage")],
        vec![("bad name", "1.2.3.4")],
        vec![("x-forwarded-for", "1.2.3.4\n")],
        vec![("accept", "text/html")],
    ] {
        let request = meta(Some("10.0.0.1"), &headers);
        assert_eq!(extract_key(KeyExtractor::Smart, &request), peer);
    }
    let request = meta(None, &[("x-forwarded-for", "not an address")]);
    assert_eq!(extract_key(KeyExtractor::Smart, &request), None);
}

#[test]
fn badly_quoted_headers_report_nothing() {
    for value in ["host=\"", "for=1.2.3.4;host=\"", "host=\" ;for=1.2.3.4", "host=\",for=1.2.3.4"] {
        assert!(!is_well_quoted(value));
        let headers = vec![
            ("x-forwarded-for".to_string(), "1.2.3.4".to_string()),
            ("forwarded".to_string(), value.to_string()),
        ];
        assert!(!are_well_quoted(&headers));
        assert_eq!(reported_address(&headers), None);
        let request = RequestMeta { peer: Some("10.0.0.1".to_string()), proxy_headers: headers };
        assert_eq!(extract_key(KeyExtractor::Smart, &request), Some("10.0.0.1".to_string()));
    }
}

#[test]
fn quoted_values_are_well_quoted() {
    for value in ["", "\"", "=", "1.2.3.4", "for=\"[2001:db8::1]\"", "host=\"\"", "host=\"a\"", "for=\"_x\";host=\"h\""] {
        assert!(is_well_quoted(value), "{value}");
    }
    let headers = vec![("forwarded".to_string(), "for=\"[2001:db8::1]:4711\"".to_string())];
    assert!(are_well_quoted(&headers));
    assert_eq!(reported_address(&headers), Some("2001:db8::1".to_string()));
    assert!(are_well_quoted(&Vec::new()));
    assert_eq!(reported_address(&Vec::new()), None);
}

#[test]
fn select_key_prefers_forwarded_only_when_smart() {
    let peer = Some("p".to_string());
    let fwd = Some("f".to_string());
    assert_eq!(select_key(KeyExtractor::Direct, peer.clone(), fwd.clone()), peer);
    assert_eq!(select_key(KeyExtractor::Smart, peer.clone(), fwd.clone()), fwd);
    assert_eq!(select_key(KeyExtractor::Smart, peer.clone(), None), peer);
    assert_eq!(select_key(KeyExtractor::Smart, None, None), None);
    assert_eq!(select_key(KeyExtractor::Direct, None, fwd), None);
}
