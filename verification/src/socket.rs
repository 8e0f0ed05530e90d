//! Socket addresses as plain values, and which of them a cluster accepts.

use vstd::prelude::*;

verus! {

/// A socket address. An IPv4 address is held as the number that its four
/// octets spell from the first to the last, an IPv6 address as that of its
/// sixteen.
#[allow(inconsistent_fields)]
#[derive(Clone, Copy, Debug, PartialEq, Eq, Structural, Hash)]
pub enum SocketAddr {
    V4 { ip: u32, port: u16 },
    V6 { ip: u128, port: u16, flowinfo: u32, scope_id: u32 },
}

/// Which addresses a cluster accepts from its peers.
#[derive(Clone, Copy, Debug, PartialEq, Eq, Structural, Hash)]
pub enum SocketAddrSpace {
    /// Any address.
    Unspecified,
    /// Addresses that can be reached from anywhere: no private and no
    /// loopback address.
    Global,
}

impl SocketAddr {
    /// The port.
    pub open spec fn spec_port(self) -> u16 {
        match self {
            SocketAddr::V4 { ip, port } => port,
            SocketAddr::V6 { ip, port, flowinfo, scope_id } => port,
        }
    }

    /// All zeros: `0.0.0.0` or `::`.
    pub open spec fn spec_is_unspecified(self) -> bool {
        match self {
            SocketAddr::V4 { ip, port } => ip == 0,
            SocketAddr::V6 { ip, port, flowinfo, scope_id } => ip == 0,
        }
    }

    /// `127.0.0.0/8` or `::1`.
    pub open spec fn spec_is_loopback(self) -> bool {
        match self {
            SocketAddr::V4 { ip, port } => ip / 0x100_0000 == 127,
            SocketAddr::V6 { ip, port, flowinfo, scope_id } => ip == 1,
        }
    }

    /// `10.0.0.0/8`, `172.16.0.0/12` or `192.168.0.0/16`. No IPv6 address
    /// counts as private.
    pub open spec fn spec_is_private(self) -> bool {
        match self {
            SocketAddr::V4 { ip, port } => ip / 0x100_0000 == 10 || ip / 0x10_0000 == 0xac1 || ip
                / 0x1_0000 == 0xc0a8,
            SocketAddr::V6 { ip, port, flowinfo, scope_id } => false,
        }
    }

    /// `224.0.0.0/4` or `ff00::/8`.
    pub open spec fn spec_is_multicast(self) -> bool {
        match self {
            SocketAddr::V4 { ip, port } => ip / 0x1000_0000 == 0xe,
            SocketAddr::V6 { ip, port, flowinfo, scope_id } => ip
                / 0x100_0000_0000_0000_0000_0000_0000_0000 == 0xff,
        }
    }
    pub fn port(&self) -> (port: u16)
        ensures
            port == self.spec_port(),
    {
        match self {
            SocketAddr::V4 { ip: _, port } => *port,
            SocketAddr::V6 { ip: _, port, flowinfo: _, scope_id: _ } => *port,
        }
    }
    pub fn is_unspecified(&self) -> (r: bool)
        ensures
            r == self.spec_is_unspecified(),
    {
        match self {
            SocketAddr::V4 { ip, port: _ } => *ip == 0,
            SocketAddr::V6 { ip, port: _, flowinfo: _, scope_id: _ } => *ip == 0,
        }
    }
    pub fn is_loopback(&self) -> (r: bool)
        ensures
            r == self.spec_is_loopback(),
    {
        match self {
            SocketAddr::V4 { ip, port: _ } => *ip / 0x100_0000 == 127,
            SocketAddr::V6 { ip, port: _, flowinfo: _, scope_id: _ } => *ip == 1,
        }
    }
    pub fn is_private(&self) -> (r: bool)
        ensures
            r == self.spec_is_private(),
    {
        match self {
            SocketAddr::V4 { ip, port: _ } => *ip / 0x100_0000 == 10 || *ip / 0x10_0000 == 0xac1
                || *ip / 0x1_0000 == 0xc0a8,
            SocketAddr::V6 { ip: _, port: _, flowinfo: _, scope_id: _ } => false,
        }
    }
    pub fn is_multicast(&self) -> (r: bool)
        ensures
            r == self.spec_is_multicast(),
    {
        match self {
            SocketAddr::V4 { ip, port: _ } => *ip / 0x1000_0000 == 0xe,
            SocketAddr::V6 { ip, port: _, flowinfo: _, scope_id: _ } => *ip
                / 0x100_0000_0000_0000_0000_0000_0000_0000 == 0xff,
        }
    }
}

impl SocketAddrSpace {
    /// Whether the space accepts `addr`: any address where the space is
    /// unspecified; else an IPv4 address that is neither private nor
    /// loopback, or an IPv6 address that is not loopback.
    pub open spec fn spec_check(self, addr: SocketAddr) -> bool {
        self == SocketAddrSpace::Unspecified || !(addr.spec_is_private()
            || addr.spec_is_loopback())
    }

    /// The space of a cluster that does, or does not, allow private
    /// addresses.
    pub fn new(allow_private_addr: bool) -> (space: SocketAddrSpace)
        ensures
            space == if allow_private_addr {
                SocketAddrSpace::Unspecified
            } else {
                SocketAddrSpace::Global
            },
    {
        if allow_private_addr {
            SocketAddrSpace::Unspecified
        } else {
            SocketAddrSpace::Global
        }
    }

    /// Whether the space accepts `addr`.
    pub fn check(&self, addr: &SocketAddr) -> (r: bool)
        ensures
            r == self.spec_check(*addr),
    {
        match self {
            SocketAddrSpace::Unspecified => true,
            SocketAddrSpace::Global => !(addr.is_private() || addr.is_loopback()),
        }
    }
}

} // verus!
