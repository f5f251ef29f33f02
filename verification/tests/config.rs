use iroh_dns_server::config::{
    BootstrapOption, Config, ConfigError, DataPath, MainlineConfig, MetricsConfig,
    DEFAULT_METRICS_PORT,
};
use iroh_dns_server::http::rate_limiting::RateLimitConfig;
use iroh_dns_server::http::{CertMode, HttpConfig};
use iroh_dns_server::net::{IpAddress, Ipv4Address, Ipv6Address, SocketAddress, LOCALHOST_V4_BITS};

fn localhost_metrics() -> SocketAddress {
    SocketAddress { ip: IpAddress::V4(Ipv4Address::new(127, 0, 0, 1)), port: 9117 }
}

#[test]
fn ipv4_address_bits() {
    assert_eq!(Ipv4Address::new(127, 0, 0, 1).bits, 0x7f00_0001);
    assert_eq!(Ipv4Address::new(255, 255, 255, 255).bits, u32::MAX);
    assert_eq!(Ipv4Address::new(1, 2, 3, 4).bits, 0x0102_0304);
    assert_eq!(Ipv4Address::localhost(), Ipv4Address::new(127, 0, 0, 1));
    assert_eq!(LOCALHOST_V4_BITS, 0x7f00_0001);
}

#[test]
fn metrics_disabled_constructor() {
    let m = MetricsConfig::disabled();
    assert!(m.disabled);
    assert_eq!(m.bind_addr, None);
}

#[test]
fn mainline_default_is_off() {
    let m = MainlineConfig::default();
    assert!(!m.enabled);
    assert!(m.bootstrap.is_none());
    assert!(matches!(BootstrapOption::default(), BootstrapOption::Default));
}

#[test]
fn development_config() {
    let c = Config::default();
    let http = c.http.as_ref().unwrap();
    assert_eq!((http.port, http.bind_addr, http.rate_limit), (8080, None, None));
    let https = c.https.as_ref().unwrap();
    assert_eq!(https.port, 8443);
    assert_eq!(https.bind_addr, None);
    assert_eq!(https.domains, vec!["localhost".to_string()]);
    assert_eq!(https.cert_mode, CertMode::SelfSigned);
    assert_eq!(https.letsencrypt_contact, None);
    assert_eq!(https.letsencrypt_prod, None);
    assert_eq!(c.dns.port, 5300);
    assert_eq!(c.dns.bind_addr, None);
    assert_eq!(c.dns.origins, vec!["irohdns.example.".to_string(), ".".to_string()]);
    assert_eq!(
        c.dns.default_soa,
        "irohdns.example hostmaster.irohdns.example 0 10800 3600 604800 3600"
    );
    assert_eq!(c.dns.default_ttl, 900);
    assert_eq!(c.dns.rr_a, Some(Ipv4Address { bits: 0x7f00_0001 }));
    assert_eq!(c.dns.rr_aaaa, None::<Ipv6Address>);
    assert_eq!(c.dns.rr_ns, Some("ns1.irohdns.example.".to_string()));
    assert!(c.metrics.is_none());
    assert!(c.mainline.is_none());
    assert_eq!(c.metrics_addr(), Some(localhost_metrics()));
    assert!(c.mainline_enabled().is_none());
}

#[test]
fn metrics_addr_by_case() {
    let mut c = Config::default();
    assert_eq!(c.metrics_addr(), Some(localhost_metrics()));
    c.metrics = Some(MetricsConfig::disabled());
    assert_eq!(c.metrics_addr(), None);
    let custom = SocketAddress { ip: IpAddress::V6(Ipv6Address { bits: 1 }), port: 1234 };
    c.metrics = Some(MetricsConfig { disabled: true, bind_addr: Some(custom) });
    assert_eq!(c.metrics_addr(), None);
    c.metrics = Some(MetricsConfig { disabled: false, bind_addr: Some(custom) });
    assert_eq!(c.metrics_addr(), Some(custom));
    c.metrics = Some(MetricsConfig { disabled: false, bind_addr: None });
    assert_eq!(c.metrics_addr(), Some(localhost_metrics()));
    assert_eq!(DEFAULT_METRICS_PORT, 9117);
}

#[test]
fn mainline_enabled_by_case() {
    let mut c = Config::default();
    assert!(c.mainline_enabled().is_none());
    c.mainline = Some(MainlineConfig::default());
    assert!(c.mainline_enabled().is_none());
    let servers = vec!["router.example:6881".to_string(), "10.0.0.1:6881".to_string()];
    c.mainline = Some(MainlineConfig { enabled: false, bootstrap: Some(servers.clone()) });
    assert!(c.mainline_enabled().is_none());
    c.mainline = Some(MainlineConfig { enabled: true, bootstrap: Some(servers.clone()) });
    match c.mainline_enabled() {
        Some(BootstrapOption::Custom(got)) => assert_eq!(got, servers),
        other => panic!("unexpected {other:?}"),
    }
    c.mainline = Some(MainlineConfig { enabled: true, bootstrap: Some(Vec::new()) });
    match c.mainline_enabled() {
        Some(BootstrapOption::Custom(got)) => assert!(got.is_empty()),
        other => panic!("unexpected {other:?}"),
    }
    c.mainline = Some(MainlineConfig { enabled: true, bootstrap: None });
    assert!(matches!(c.mainline_enabled(), Some(BootstrapOption::Default)));
}

#[test]
fn data_dir_prefers_the_configured_directory() {
    let DataPath { root, below } = Config::data_dir(Some("/srv/data"), Some("/home/u/.local/share")).unwrap();
    assert_eq!(root, "/srv/data");
    assert!(below.is_empty());
    let DataPath { root, below } = Config::data_dir(Some("/srv/data"), None).unwrap();
    assert_eq!(root, "/srv/data");
    assert!(below.is_empty());
}

#[test]
fn data_dir_falls_back_to_the_platform_directory() {
    let DataPath { root, below } = Config::data_dir(None, Some("/home/u/.local/share")).unwrap();
    assert_eq!(root, "/home/u/.local/share");
    assert_eq!(below, vec!["iroh-dns".to_string()]);
}

#[test]
fn data_dir_fails_without_any_directory() {
    let err = Config::data_dir::<String>(None, None).unwrap_err();
    assert_eq!(err, ConfigError::NoDataDirectory);
    assert_eq!(err.message(), "operating environment provides no directory for application data");
    assert_eq!(
        Config::signed_packet_store_path::<String>(None, None).unwrap_err(),
        ConfigError::NoDataDirectory
    );
}

#[test]
fn store_path_is_below_the_data_dir() {
    let DataPath { root, below } = Config::signed_packet_store_path(Some(1u8), Some(2u8)).unwrap();
    assert_eq!(root, 1);
    assert_eq!(below, vec!["signed-packets-1.db".to_string()]);
    let DataPath { root, below } = Config::signed_packet_store_path(None, Some(2u8)).unwrap();
    assert_eq!(root, 2);
    assert_eq!(below, vec!["iroh-dns".to_string(), "signed-packets-1.db".to_string()]);
}

#[test]
fn http_rate_limit_defaults_to_simple() {
    let mut http = HttpConfig { port: 80, bind_addr: None, rate_limit: None };
    assert_eq!(http.rate_limit_or_default(), RateLimitConfig::Simple);
    http.rate_limit = Some(RateLimitConfig::Disabled);
    assert_eq!(http.rate_limit_or_default(), RateLimitConfig::Disabled);
    http.rate_limit = Some(RateLimitConfig::Smart);
    assert_eq!(http.rate_limit_or_default(), RateLimitConfig::Smart);
}
