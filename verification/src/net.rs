//! Addresses and networks as plain numbers.

use vstd::prelude::*;

verus! {

/// An IP address, in host order.
#[derive(Debug, Clone, Copy, PartialEq, Eq, Structural)]
pub enum IpAddr {
    V4(u32),
    V6(u128),
}

impl IpAddr {
    pub fn is_ipv4(self) -> (is: bool)
        ensures
            is == (self is V4),
    {
        matches!(self, IpAddr::V4(_))
    }

    pub fn is_ipv6(self) -> (is: bool)
        ensures
            is == (self is V6),
    {
        matches!(self, IpAddr::V6(_))
    }

    /// Whether it is in `127.0.0.0/8`, or `::1`.
    pub open spec fn spec_is_loopback(self) -> bool {
        match self {
            IpAddr::V4(bits) => bits / 0x100_0000 == 127,
            IpAddr::V6(bits) => bits == 1,
        }
    }

    /// Executable [`IpAddr::spec_is_loopback`].
    pub fn is_loopback(self) -> (is: bool)
        ensures
            is == self.spec_is_loopback(),
    {
        match self {
            IpAddr::V4(bits) => bits / 0x100_0000 == 127,
            IpAddr::V6(bits) => bits == 1,
        }
    }
}

/// `127.0.0.1`.
pub const IPV4_LOOPBACK: u32 = 0x7f00_0001;

/// `::1`.
pub const IPV6_LOOPBACK: u128 = 1;

/// A network: an address in it, and the length of its prefix.
#[derive(Debug, Clone, Copy, PartialEq, Eq, Structural)]
pub struct IpNetwork {
    pub prefix: IpAddr,
    pub prefix_length: u8,
}

/// An address of an interface.
#[derive(Debug)]
pub struct IpData {
    pub address: IpAddr,
    pub subnet: IpNetwork,
    pub index: i32,
    pub name: String,
    pub supports_multicast: bool,
}

/// The loopback addresses are those from `127.0.0.0` to `127.255.255.255`, and
/// `::1`.
pub proof fn law_loopback_is_a_range(bits: u32, long_bits: u128)
    ensures
        IpAddr::V4(bits).spec_is_loopback() <==> 0x7f00_0000 <= bits <= 0x7fff_ffff,
        IpAddr::V6(long_bits).spec_is_loopback() <==> long_bits == 1,
        IpAddr::V4(IPV4_LOOPBACK).spec_is_loopback(),
        IpAddr::V6(IPV6_LOOPBACK).spec_is_loopback(),
{
}

} // verus!
