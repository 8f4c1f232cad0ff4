//! IP and socket addresses.

use vstd::prelude::*;

verus! {

/// An IPv4 address, as its four octets.
#[derive(Clone, Copy, Debug, PartialEq, Eq)]
pub struct Ipv4Addr {
    pub octets: [u8; 4],
}

/// An IPv6 address, as its eight 16-bit segments.
#[derive(Clone, Copy, Debug, PartialEq, Eq)]
pub struct Ipv6Addr {
    pub segments: [u16; 8],
}

/// An IP address of either family.
#[derive(Clone, Copy, Debug, PartialEq, Eq)]
pub enum IpAddr {
    V4(Ipv4Addr),
    V6(Ipv6Addr),
}

/// An IPv4 socket address.
#[derive(Clone, Copy, Debug, PartialEq, Eq)]
pub struct SocketAddrV4 {
    pub ip: Ipv4Addr,
    pub port: u16,
}

/// An IPv6 socket address. Scope id 0 stands for no scope.
#[derive(Clone, Copy, Debug, PartialEq, Eq)]
pub struct SocketAddrV6 {
    pub ip: Ipv6Addr,
    pub port: u16,
    pub flowinfo: u32,
    pub scope_id: u32,
}

/// A socket address of either family.
#[derive(Clone, Copy, Debug, PartialEq, Eq)]
pub enum SocketAddr {
    V4(SocketAddrV4),
    V6(SocketAddrV6),
}

impl SocketAddr {
    /// What [`SocketAddr::ip`] gives.
    pub open spec fn spec_ip(&self) -> IpAddr {
        match *self {
            SocketAddr::V4(addr) => IpAddr::V4(addr.ip),
            SocketAddr::V6(addr) => IpAddr::V6(addr.ip),
        }
    }

    /// What [`SocketAddr::port`] gives.
    pub open spec fn spec_port(&self) -> u16 {
        match *self {
            SocketAddr::V4(addr) => addr.port,
            SocketAddr::V6(addr) => addr.port,
        }
    }

    /// The IP address of the socket.
    #[verifier::when_used_as_spec(spec_ip)]
    pub fn ip(&self) -> (ip: IpAddr)
        ensures
            ip == self.spec_ip(),
            *self matches SocketAddr::V4(addr) ==> ip == IpAddr::V4(addr.ip),
            *self matches SocketAddr::V6(addr) ==> ip == IpAddr::V6(addr.ip),
    {
        match *self {
            SocketAddr::V4(addr) => IpAddr::V4(addr.ip),
            SocketAddr::V6(addr) => IpAddr::V6(addr.ip),
        }
    }

    /// The port of the socket.
    #[verifier::when_used_as_spec(spec_port)]
    pub fn port(&self) -> (port: u16)
        ensures
            port == self.spec_port(),
            *self matches SocketAddr::V4(addr) ==> port == addr.port,
            *self matches SocketAddr::V6(addr) ==> port == addr.port,
    {
        match *self {
            SocketAddr::V4(addr) => addr.port,
            SocketAddr::V6(addr) => addr.port,
        }
    }
}

/// Whether an address lies in `fe80::/10`: its ten leading bits are those of
/// `fe80::`, and the other 118 are free.
pub open spec fn link_local(ip: Ipv6Addr) -> bool {
    0xfe80 <= ip.segments[0] <= 0xfebf
}

/// Return whether an address is in `fe80::/10`, the IPv6 link-local prefix.
pub fn is_ipv6_link_local(addr: &Ipv6Addr) -> (r: bool)
    ensures
        r == link_local(*addr),
        r <==> addr.segments[0] & 0xffc0 == 0xfe80,
{
    let first: u16 = addr.segments[0];
    assert((first & 0xffc0) == 0xfe80 <==> (0xfe80 <= first && first <= 0xfebf)) by (bit_vector);
    (first & 0xffc0) == 0xfe80
}

/// An address is link-local exactly if its ten leading bits are those of `fe80::`. No
/// other bit plays a part: addresses that begin with the same segment are both
/// link-local, or neither is.
pub proof fn law_link_local_is_ten_bits(ip: Ipv6Addr, other: Ipv6Addr)
    ensures
        link_local(ip) <==> ip.segments[0] & 0xffc0 == 0xfe80,
        ip.segments[0] == other.segments[0] ==> link_local(ip) == link_local(other),
{
    let first = ip.segments[0];
    assert((first & 0xffc0) == 0xfe80 <==> (0xfe80 <= first && first <= 0xfebf)) by (bit_vector);
}

/// A socket address is put together from an IP address and a port, and gives both
/// back; scope and flow have no part in either.
pub proof fn law_socket_address_parts(v4: SocketAddrV4, v6: SocketAddrV6)
    ensures
        SocketAddr::V4(v4).ip() == IpAddr::V4(v4.ip),
        SocketAddr::V4(v4).port() == v4.port,
        SocketAddr::V6(v6).ip() == IpAddr::V6(v6.ip),
        SocketAddr::V6(v6).port() == v6.port,
{
}

} // verus!
