//! Peer addresses as plain values.

use vstd::prelude::*;

verus! {

/// An IP address: the 32 bits of a version 4 address or the 128 bits of a
/// version 6 address, most significant byte first.
#[derive(Debug, Copy, Clone, PartialEq, Eq, Hash, PartialOrd, Ord, Structural)]
pub enum IpAddr {
    V4(u32),
    V6(u128),
}

/// An IP address with a port.
#[derive(Debug, Copy, Clone, PartialEq, Eq, Hash, PartialOrd, Ord, Structural)]
pub struct SocketAddr {
    pub ip: IpAddr,
    pub port: u16,
}

impl SocketAddr {
    pub fn new(ip: IpAddr, port: u16) -> (addr: SocketAddr)
        ensures
            addr == (SocketAddr { ip, port }),
    {
        SocketAddr { ip, port }
    }

    /// The IP address.
    pub fn ip(&self) -> (ip: IpAddr)
        ensures
            ip == self.ip,
    {
        self.ip
    }

    /// The port.
    pub fn port(&self) -> (port: u16)
        ensures
            port == self.port,
    {
        self.port
    }
}

/// Which side opened a connection.
#[derive(Debug, Copy, Clone, PartialEq, Eq, Structural)]
pub enum Link {
    /// The peer connected to us.
    Inbound,
    /// We connected to the peer.
    Outbound,
}

impl Link {
    /// Check whether the link is outbound.
    pub fn is_outbound(&self) -> (r: bool)
        ensures
            r == (*self == Link::Outbound),
    {
        *self == Link::Outbound
    }

    /// Check whether the link is inbound.
    pub fn is_inbound(&self) -> (r: bool)
        ensures
            r == (*self == Link::Inbound),
    {
        *self == Link::Inbound
    }
}

} // verus!
