//! Socket addresses as plain values.
use vstd::prelude::*;

verus! {

/// An IP address; the octets, first to last, are the digits of the number from
/// the most significant down.
#[derive(Debug, Clone, Copy, PartialEq, Eq, Structural)]
pub enum IpAddr {
    /// IPv4.
    V4(u32),
    /// IPv6.
    V6(u128),
}

/// An IPv4 endpoint.
#[derive(Debug, Clone, Copy, PartialEq, Eq, Structural)]
pub struct SocketAddrV4 {
    /// Address.
    pub ip: u32,
    /// Port.
    pub port: u16,
}

/// An IPv6 endpoint.
#[derive(Debug, Clone, Copy, PartialEq, Eq, Structural)]
pub struct SocketAddrV6 {
    /// Address.
    pub ip: u128,
    /// Port.
    pub port: u16,
    /// Flow label and traffic class.
    pub flowinfo: u32,
    /// Interface that a link-local address belongs to.
    pub scope_id: u32,
}

/// A UDP endpoint.
#[derive(Debug, Clone, Copy, PartialEq, Eq, Structural)]
pub enum SocketAddr {
    /// IPv4.
    V4(SocketAddrV4),
    /// IPv6.
    V6(SocketAddrV6),
}

/// The IP part of an endpoint, as a number.
pub open spec fn host_key(addr: SocketAddr) -> u128 {
    match addr {
        SocketAddr::V4(v4) => v4.ip as u128,
        SocketAddr::V6(v6) => v6.ip,
    }
}

/// All of an endpoint but its IP part, as a number: the port below, then flow
/// and scope, then the family.
pub open spec fn service_key(addr: SocketAddr) -> u128 {
    match addr {
        SocketAddr::V4(v4) => v4.port as u128,
        SocketAddr::V6(v6) => (v6.port + 0x1_0000 * v6.flowinfo + 0x1_0000_0000_0000 * v6.scope_id
            + 0x1_0000_0000_0000_0000_0000) as u128,
    }
}

impl SocketAddr {
    /// Whether this is an IPv6 endpoint.
    pub fn is_ipv6(&self) -> (v6: bool)
        ensures
            v6 == (self is V6),
    {
        match self {
            SocketAddr::V4(_) => false,
            SocketAddr::V6(_) => true,
        }
    }

    /// The IP part, as a number.
    pub(crate) fn host(&self) -> (key: u128)
        ensures
            key == host_key(*self),
    {
        match self {
            SocketAddr::V4(v4) => v4.ip as u128,
            SocketAddr::V6(v6) => v6.ip,
        }
    }

    /// All but the IP part, as a number.
    pub(crate) fn service(&self) -> (key: u128)
        ensures
            key == service_key(*self),
    {
        match self {
            SocketAddr::V4(v4) => v4.port as u128,
            SocketAddr::V6(v6) => v6.port as u128 + 0x1_0000 * (v6.flowinfo as u128)
                + 0x1_0000_0000_0000 * (v6.scope_id as u128) + 0x1_0000_0000_0000_0000_0000,
        }
    }
}

/// The two numbers together tell endpoints apart.
pub proof fn keys_identify_endpoint(a: SocketAddr, b: SocketAddr)
    requires
        host_key(a) == host_key(b),
        service_key(a) == service_key(b),
    ensures
        a == b,
{
}

} // verus!
