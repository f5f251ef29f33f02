//! Addresses as plain values.

use vstd::prelude::*;

verus! {

/// An IPv4 address: its four bytes as one number, first byte highest.
#[derive(Clone, Copy, Debug, PartialEq, Eq, Structural)]
pub struct Ipv4Address {
    pub bits: u32,
}

/// An IPv6 address: its sixteen bytes as one number, first byte highest.
#[derive(Clone, Copy, Debug, PartialEq, Eq, Structural)]
pub struct Ipv6Address {
    pub bits: u128,
}

/// An IP address of either family.
#[derive(Clone, Copy, Debug, PartialEq, Eq, Structural)]
pub enum IpAddress {
    V4(Ipv4Address),
    V6(Ipv6Address),
}

/// An IP address and a port.
#[derive(Clone, Copy, Debug, PartialEq, Eq, Structural)]
pub struct SocketAddress {
    pub ip: IpAddress,
    pub port: u16,
}

/// The bits of 127.0.0.1.
pub const LOCALHOST_V4_BITS: u32 = 0x7f00_0001;

impl Ipv4Address {
    /// The address `a.b.c.d`.
    pub open spec fn of(a: u8, b: u8, c: u8, d: u8) -> Ipv4Address {
        Ipv4Address { bits: (a as int * 0x100_0000 + b as int * 0x1_0000 + c as int * 0x100 + d as int) as u32 }
    }

    /// The address `a.b.c.d`.
    pub fn new(a: u8, b: u8, c: u8, d: u8) -> (addr: Ipv4Address)
        ensures
            addr == Ipv4Address::of(a, b, c, d),
    {
        Ipv4Address {
            bits: a as u32 * 0x100_0000 + b as u32 * 0x1_0000 + c as u32 * 0x100 + d as u32,
        }
    }

    /// The loopback address, 127.0.0.1.
    pub fn localhost() -> (addr: Ipv4Address)
        ensures
            addr == Ipv4Address::of(127, 0, 0, 1),
            addr.bits == LOCALHOST_V4_BITS,
    {
        Ipv4Address { bits: LOCALHOST_V4_BITS }
    }
}

} // verus!
