//! A verified, time-bounded resolution cache with helpers for a resolving
//! client: hostname-to-address caching with per-entry expiry, bounded
//! capacity, and small verified utilities around header replacement,
//! basic-auth encoding and byte escaping.

use vstd::prelude::*;

pub mod cache;
pub mod keymap;
pub mod headers;
pub mod resolver;
pub mod util;

verus! {

/// An IP address, represented as plain integers so that contracts can
/// speak about it directly.
#[derive(Clone, Copy, Debug, PartialEq, Eq)]
pub enum IpAddress {
    /// An IPv4 address as its four octets.
    V4(u8, u8, u8, u8),
    /// An IPv6 address as its 128-bit value.
    V6(u128),
}

/// A resolved address: an IP address together with a port.
#[derive(Clone, Copy, Debug, PartialEq, Eq)]
pub struct Address {
    pub ip: IpAddress,
    pub port: u16,
}

impl Address {
    /// Builds an IPv4 address from its octets and a port.
    pub fn v4(a: u8, b: u8, c: u8, d: u8, port: u16) -> (r: Address)
        ensures
            r == (Address { ip: IpAddress::V4(a, b, c, d), port }),
    {
        Address { ip: IpAddress::V4(a, b, c, d), port }
    }
}

} // verus!
