//! Settings of the DNS server.

use vstd::prelude::*;
use crate::net::{IpAddress, Ipv4Address, Ipv6Address};

verus! {

/// Config for the DNS server.
#[derive(Debug)]
pub struct DnsConfig {
    /// The port to serve a local UDP DNS server at.
    pub port: u16,
    /// The address to bind to; all interfaces where none is given.
    pub bind_addr: Option<IpAddress>,
    /// The origins for which records are served.
    pub origins: Vec<String>,
    /// The SOA record of every zone.
    pub default_soa: String,
    /// The time to live of records, in seconds.
    pub default_ttl: u32,
    /// The `A` record of every origin.
    pub rr_a: Option<Ipv4Address>,
    /// The `AAAA` record of every origin.
    pub rr_aaaa: Option<Ipv6Address>,
    /// The `NS` record of every origin.
    pub rr_ns: Option<String>,
}

} // verus!
