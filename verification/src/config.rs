//! Configuration for the server

use vstd::prelude::*;
use crate::dns::DnsConfig;
use crate::http::{CertMode, HttpConfig, HttpsConfig};
use crate::net::{IpAddress, Ipv4Address, SocketAddress};

verus! {

/// The port of the metrics server where none is configured.
pub const DEFAULT_METRICS_PORT: u16 = 9117;

/// The address of the metrics server where none is configured: port 9117 on
/// the loopback interface.
pub open spec fn default_metrics_addr() -> SocketAddress {
    SocketAddress { ip: IpAddress::V4(Ipv4Address::of(127, 0, 0, 1)), port: DEFAULT_METRICS_PORT }
}

/// Server configuration
///
/// The struct implements [`Default`], which creates a config suitable for local development
/// and testing.
#[derive(Debug)]
pub struct Config {
    /// Config for the HTTP server
    ///
    /// If set to `None` no HTTP server will be started.
    pub http: Option<HttpConfig>,
    /// Config for the HTTPS server
    ///
    /// If set to `None` no HTTPS server will be started.
    pub https: Option<HttpsConfig>,
    /// Config for the DNS server.
    pub dns: DnsConfig,
    /// Config for the metrics server.
    ///
    /// The metrics server is started by default. To disable the metrics server, set to
    /// `Some(MetricsConfig::disabled())`.
    pub metrics: Option<MetricsConfig>,
    /// Config for the mainline lookup.
    pub mainline: Option<MainlineConfig>,
}

/// The config for the metrics server.
#[derive(Clone, Copy, Debug, PartialEq, Eq, Structural)]
pub struct MetricsConfig {
    /// Set to true to disable the metrics server.
    pub disabled: bool,
    /// Optionally set a custom address to bind to.
    pub bind_addr: Option<SocketAddress>,
}

impl MetricsConfig {
    /// Disable the metrics server.
    pub fn disabled() -> (config: MetricsConfig)
        ensures
            config == (MetricsConfig { disabled: true, bind_addr: None }),
    {
        MetricsConfig { disabled: true, bind_addr: None }
    }
}

/// The config for the mainline lookup.
#[derive(Debug)]
pub struct MainlineConfig {
    /// Set to true to enable the mainline lookup.
    pub enabled: bool,
    /// Set custom bootstrap nodes.
    ///
    /// Addresses can either be `domain:port` or `ipv4:port`.
    ///
    /// If empty this will use the default bittorrent mainline bootstrap nodes.
    pub bootstrap: Option<Vec<String>>,
}

/// Configure the bootstrap servers for mainline DHT resolution.
#[derive(Debug)]
pub enum BootstrapOption {
    /// Use the default bootstrap servers.
    Default,
    /// Use custom bootstrap servers.
    Custom(Vec<String>),
}

impl Default for BootstrapOption {
    /// The default bootstrap servers.
    fn default() -> (option: BootstrapOption)
        ensures
            option is Default,
    {
        BootstrapOption::Default
    }
}

impl Default for MainlineConfig {
    /// Mainline lookup switched off.
    fn default() -> (config: MainlineConfig)
        ensures
            !config.enabled,
            config.bootstrap is None,
    {
        MainlineConfig { enabled: false, bootstrap: None }
    }
}

/// Why no data directory could be named.
#[derive(Clone, Copy, Debug, PartialEq, Eq, Structural)]
pub enum ConfigError {
    /// Neither the configuration nor the platform names a directory for
    /// application data.
    NoDataDirectory,
}

impl ConfigError {
    /// A sentence for the log.
    pub fn message(&self) -> (s: String)
        ensures
            s@ == "operating environment provides no directory for application data"@,
    {
        "operating environment provides no directory for application data".to_owned()
    }
}

/// A place in the file system: a root of type `P`, and the names to descend
/// through from there.
#[derive(Debug)]
pub struct DataPath<P> {
    /// Where to start.
    pub root: P,
    /// The names of the directories, and last perhaps of a file, below the
    /// root, outermost first.
    pub below: Vec<String>,
}

/// The names below the root of the data directory: none where the
/// directory was configured, and the server's own directory where the
/// platform's data directory is the root.
pub open spec fn data_dir_names(configured: bool) -> Seq<Seq<char>> {
    if configured {
        seq![]
    } else {
        seq!["iroh-dns"@]
    }
}

/// The strings of `v` as character sequences.
pub open spec fn names(v: Seq<String>) -> Seq<Seq<char>> {
    Seq::new(v.len(), |i: int| v[i]@)
}

/// A copy of `v`.
fn clone_strings(v: &Vec<String>) -> (copy: Vec<String>)
    ensures
        copy@ == v@,
{
    let mut copy: Vec<String> = Vec::new();
    let mut i: usize = 0;
    while i < v.len()
        invariant
            i <= v@.len(),
            copy@ == v@.subrange(0, i as int),
        decreases v@.len() - i,
    {
        copy.push(v[i].clone());
        assert(copy@ == v@.subrange(0, i + 1));
        i += 1;
    }
    assert(v@.subrange(0, v@.len() as int) == v@);
    copy
}

impl Config {
    /// Get the data directory.
    ///
    /// `configured` is the directory that the environment variable
    /// `IROH_DNS_DATA_DIR` names, `platform` the platform's directory for
    /// application data. The configured directory is taken as it is. Without
    /// one, the data lives in `iroh-dns` below the platform's directory, and
    /// without that nowhere.
    pub fn data_dir<P>(configured: Option<P>, platform: Option<P>) -> (dir: Result<
        DataPath<P>,
        ConfigError,
    >)
        ensures
            match dir {
                Ok(path) => match configured {
                    Some(root) => path.root == root && names(path.below@) == data_dir_names(true),
                    None => platform == Some(path.root) && names(path.below@) == data_dir_names(
                        false,
                    ),
                },
                Err(e) => configured is None && platform is None && e
                    == ConfigError::NoDataDirectory,
            },
    {
        match configured {
            Some(root) => {
                let path = DataPath { root, below: Vec::new() };
                assert(names(path.below@) =~= data_dir_names(true));
                Ok(path)
            },
            None => match platform {
                Some(root) => {
                    let mut below: Vec<String> = Vec::new();
                    below.push("iroh-dns".to_owned());
                    assert(names(below@) =~= data_dir_names(false));
                    Ok(DataPath { root, below })
                },
                None => Err(ConfigError::NoDataDirectory),
            },
        }
    }

    /// Get the path to the store database file: `signed-packets-1.db` in the
    /// data directory.
    pub fn signed_packet_store_path<P>(configured: Option<P>, platform: Option<P>) -> (file: Result<
        DataPath<P>,
        ConfigError,
    >)
        ensures
            match file {
                Ok(path) => match configured {
                    Some(root) => path.root == root && names(path.below@) == data_dir_names(
                        true,
                    ).push("signed-packets-1.db"@),
                    None => platform == Some(path.root) && names(path.below@) == data_dir_names(
                        false,
                    ).push("signed-packets-1.db"@),
                },
                Err(e) => configured is None && platform is None && e
                    == ConfigError::NoDataDirectory,
            },
    {
        match Config::data_dir(configured, platform) {
            Ok(dir) => {
                let DataPath { root, mut below } = dir;
                let ghost before = below@;
                below.push("signed-packets-1.db".to_owned());
                assert(names(below@) =~= names(before).push("signed-packets-1.db"@));
                Ok(DataPath { root, below })
            },
            Err(e) => Err(e),
        }
    }

    /// Get the address where the metrics server should be bound, if set.
    ///
    /// Unless it is disabled, the metrics server binds to the configured
    /// address, or to the default address where none is configured.
    pub fn metrics_addr(&self) -> (addr: Option<SocketAddress>)
        ensures
            addr == (match self.metrics {
                None => Some(default_metrics_addr()),
                Some(conf) => if conf.disabled {
                    None
                } else {
                    match conf.bind_addr {
                        Some(bind_addr) => Some(bind_addr),
                        None => Some(default_metrics_addr()),
                    }
                },
            }),
    {
        let default_addr = SocketAddress {
            ip: IpAddress::V4(Ipv4Address::localhost()),
            port: DEFAULT_METRICS_PORT,
        };
        match &self.metrics {
            None => Some(default_addr),
            Some(conf) => if conf.disabled {
                None
            } else {
                match conf.bind_addr {
                    Some(bind_addr) => Some(bind_addr),
                    None => Some(default_addr),
                }
            },
        }
    }

    /// Whether mainline lookup is enabled, and with which bootstrap servers:
    /// the custom ones where some are configured, else the default ones.
    pub fn mainline_enabled(&self) -> (option: Option<BootstrapOption>)
        ensures
            match self.mainline {
                None => option is None,
                Some(conf) => if !conf.enabled {
                    option is None
                } else {
                    match conf.bootstrap {
                        Some(bootstrap) => option matches Some(BootstrapOption::Custom(servers))
                            && servers@ == bootstrap@,
                        None => option matches Some(BootstrapOption::Default),
                    }
                },
            },
    {
        match &self.mainline {
            None => None,
            Some(conf) => if !conf.enabled {
                None
            } else {
                match &conf.bootstrap {
                    Some(bootstrap) => Some(BootstrapOption::Custom(clone_strings(bootstrap))),
                    None => Some(BootstrapOption::Default),
                }
            },
        }
    }
}

/// Whether `config` is the one for local development: HTTP on port 8080 with
/// the default rate limit, HTTPS on port 8443 with a self-signed certificate
/// for `localhost`, DNS on port 5300 for the example origin, metrics at the
/// default address, and no mainline lookup.
pub open spec fn is_development_config(config: Config) -> bool {
    &&& config.http matches Some(http)
    &&& http.port == 8080
    &&& http.bind_addr is None
    &&& http.rate_limit is None
    &&& config.https matches Some(https)
    &&& https.port == 8443
    &&& https.bind_addr is None
    &&& names(https.domains@) == seq!["localhost"@]
    &&& https.cert_mode == CertMode::SelfSigned
    &&& https.letsencrypt_contact is None
    &&& https.letsencrypt_prod is None
    &&& config.dns.port == 5300
    &&& config.dns.bind_addr is None
    &&& names(config.dns.origins@) == seq!["irohdns.example."@, "."@]
    &&& config.dns.default_soa@
        == "irohdns.example hostmaster.irohdns.example 0 10800 3600 604800 3600"@
    &&& config.dns.default_ttl == 900
    &&& config.dns.rr_a == Some(Ipv4Address::of(127, 0, 0, 1))
    &&& config.dns.rr_aaaa is None
    &&& config.dns.rr_ns matches Some(ns)
    &&& ns@ == "ns1.irohdns.example."@
    &&& config.metrics is None
    &&& config.mainline is None
}

impl Default for Config {
    /// A config suitable for local development and testing.
    fn default() -> (config: Config)
        ensures
            is_development_config(config),
    {
        let mut domains: Vec<String> = Vec::new();
        domains.push("localhost".to_owned());
        let mut origins: Vec<String> = Vec::new();
        origins.push("irohdns.example.".to_owned());
        origins.push(".".to_owned());
        assert(names(domains@) =~= seq!["localhost"@]);
        assert(names(origins@) =~= seq!["irohdns.example."@, "."@]);
        Config {
            http: Some(HttpConfig { port: 8080, bind_addr: None, rate_limit: None }),
            https: Some(
                HttpsConfig {
                    port: 8443,
                    bind_addr: None,
                    domains,
                    cert_mode: CertMode::SelfSigned,
                    letsencrypt_contact: None,
                    letsencrypt_prod: None,
                },
            ),
            dns: DnsConfig {
                port: 5300,
                bind_addr: None,
                origins,
                default_soa: "irohdns.example hostmaster.irohdns.example 0 10800 3600 604800 3600".to_owned(),
                default_ttl: 900,
                rr_a: Some(Ipv4Address::localhost()),
                rr_aaaa: None,
                rr_ns: Some("ns1.irohdns.example.".to_owned()),
            },
            metrics: None,
            mainline: None,
        }
    }
}

} // verus!
