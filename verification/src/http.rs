//! The HTTP side of the server: listener settings and request throttling.

pub mod rate_limiting;

use vstd::prelude::*;
use crate::http::rate_limiting::RateLimitConfig;
use crate::net::IpAddress;

verus! {

/// Config for the HTTP server.
#[derive(Debug)]
pub struct HttpConfig {
    /// The port to bind to.
    pub port: u16,
    /// The address to bind to; all interfaces where none is given.
    pub bind_addr: Option<IpAddress>,
    /// How requests are rate limited; by peer address where nothing is said.
    pub rate_limit: Option<RateLimitConfig>,
}

/// Where the certificate of the HTTPS server comes from.
#[derive(Clone, Copy, Debug, PartialEq, Eq, Structural)]
pub enum CertMode {
    /// From files kept by hand.
    Manual,
    /// From Let's Encrypt.
    LetsEncrypt,
    /// Signed by the server itself.
    SelfSigned,
}

/// Config for the HTTPS server.
#[derive(Debug)]
pub struct HttpsConfig {
    /// The port to bind to.
    pub port: u16,
    /// The address to bind to; all interfaces where none is given.
    pub bind_addr: Option<IpAddress>,
    /// The domains to serve certificates for.
    pub domains: Vec<String>,
    /// Where the certificate comes from.
    pub cert_mode: CertMode,
    /// The contact address given to Let's Encrypt.
    pub letsencrypt_contact: Option<String>,
    /// Whether to use Let's Encrypt's production servers.
    pub letsencrypt_prod: Option<bool>,
}

impl HttpConfig {
    /// The rate limit in force: the configured one, and the default where
    /// the configuration is silent.
    pub fn rate_limit_or_default(&self) -> (mode: RateLimitConfig)
        ensures
            mode == (match self.rate_limit {
                Some(configured) => configured,
                None => RateLimitConfig::Simple,
            }),
    {
        match self.rate_limit {
            Some(configured) => configured,
            None => RateLimitConfig::default(),
        }
    }
}

} // verus!
