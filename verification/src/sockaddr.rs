//! Decoding the remote address a traced process passes to `connect`: the
//! kernel's `sockaddr_in` and `sockaddr_in6` layouts, port in network byte
//! order.

use vstd::prelude::*;
use crate::shutdown::ControlError;
use crate::fanotify_events::{le_value, read_le};

verus! {

/// An IP address by its octets.
#[derive(Clone, Copy, Debug, PartialEq, Eq)]
pub enum IpAddress {
    V4([u8; 4]),
    V6([u8; 16]),
}

/// An IP address and port.
#[derive(Clone, Copy, Debug, PartialEq, Eq)]
pub struct SocketEndpoint {
    pub ip: IpAddress,
    pub port: u16,
}

/// The remote of a `connect`, with the address family the daemon reports.
#[derive(Clone, Copy, Debug)]
pub struct NetworkRemote {
    pub endpoint: SocketEndpoint,
    pub family: &'static str,
}

/// The big-endian 16-bit value of two bytes.
pub open spec fn be16(hi: u8, lo: u8) -> int {
    hi * 256 + lo
}

fn short_sockaddr(message: &str) -> (e: ControlError)
    ensures
        e.code@ == "network_control_sockaddr"@,
        e.message@ == message@,
{
    ControlError { code: String::from_str("network_control_sockaddr"), message: String::from_str(message) }
}

/// Decodes a `sockaddr_in`: port at bytes 2..4, address at bytes 4..8.
pub fn parse_sockaddr_in(bytes: &[u8]) -> (r: Result<NetworkRemote, ControlError>)
    ensures
        r is Ok <==> bytes@.len() >= 8,
        r matches Ok(remote) ==> {
            &&& remote.endpoint.port == be16(bytes@[2], bytes@[3])
            &&& remote.endpoint.ip matches IpAddress::V4(a) && a@ == bytes@.subrange(4, 8)
            &&& remote.family@ == "inet"@
        },
        r matches Err(e) ==> e.code@ == "network_control_sockaddr"@ && e.message@ == "short AF_INET sockaddr"@,
{
    if bytes.len() < 8 {
        return Err(short_sockaddr("short AF_INET sockaddr"));
    }
    let port = (bytes[2] as u16) * 256 + bytes[3] as u16;
    let addr = [bytes[4], bytes[5], bytes[6], bytes[7]];
    assert(addr@ =~= bytes@.subrange(4, 8));
    Ok(NetworkRemote { endpoint: SocketEndpoint { ip: IpAddress::V4(addr), port }, family: "inet" })
}

/// Decodes a `sockaddr_in6`: port at bytes 2..4, address at bytes 8..24.
pub fn parse_sockaddr_in6(bytes: &[u8]) -> (r: Result<NetworkRemote, ControlError>)
    ensures
        r is Ok <==> bytes@.len() >= 24,
        r matches Ok(remote) ==> {
            &&& remote.endpoint.port == be16(bytes@[2], bytes@[3])
            &&& remote.endpoint.ip matches IpAddress::V6(a) && a@ == bytes@.subrange(8, 24)
            &&& remote.family@ == "inet6"@
        },
        r matches Err(e) ==> e.code@ == "network_control_sockaddr"@ && e.message@ == "short AF_INET6 sockaddr"@,
{
    if bytes.len() < 24 {
        return Err(short_sockaddr("short AF_INET6 sockaddr"));
    }
    let port = (bytes[2] as u16) * 256 + bytes[3] as u16;
    let mut raw = [0u8; 16];
    let mut i: usize = 0;
    while i < 16
        invariant
            bytes@.len() >= 24,
            i <= 16,
            forall|k: int| 0 <= k < i ==> raw@[k] == bytes@[8 + k],
        decreases 16 - i,
    {
        raw[i] = bytes[8 + i];
        i += 1;
    }
    assert(raw@ =~= bytes@.subrange(8, 24));
    Ok(NetworkRemote { endpoint: SocketEndpoint { ip: IpAddress::V6(raw), port }, family: "inet6" })
}


/// The address family numbers of `sockaddr_in` and `sockaddr_in6` on Linux.
pub open spec fn af_inet() -> int {
    2
}

pub open spec fn af_inet6() -> int {
    10
}

/// A captured connect remote: the endpoint, the family's name, and the
/// IPv6 scope id (zero for IPv4 or when the address does not carry one).
#[derive(Clone, Copy, Debug)]
pub struct CapturedRemote {
    pub endpoint: SocketEndpoint,
    pub address_family: &'static str,
    pub ipv6_scope_id: u32,
}

/// Captures an IPv4 remote.
pub fn capture_ipv4(bytes: &[u8]) -> (r: Result<CapturedRemote, ControlError>)
    ensures
        r is Ok <==> bytes@.len() >= 8,
        r matches Ok(remote) ==> {
            &&& remote.endpoint.port == be16(bytes@[2], bytes@[3])
            &&& remote.endpoint.ip matches IpAddress::V4(a) && a@ == bytes@.subrange(4, 8)
            &&& remote.address_family@ == "ipv4"@
            &&& remote.ipv6_scope_id == 0
        },
        r matches Err(e) ==> e.code@ == "network_control_sockaddr"@ && e.message@ == "short AF_INET sockaddr"@,
{
    match parse_sockaddr_in(bytes) {
        Ok(remote) => Ok(CapturedRemote { endpoint: remote.endpoint, address_family: "ipv4", ipv6_scope_id: 0 }),
        Err(e) => Err(e),
    }
}

/// Captures an IPv6 remote, with the scope id of bytes 24..28 when present.
pub fn capture_ipv6(bytes: &[u8]) -> (r: Result<CapturedRemote, ControlError>)
    ensures
        r is Ok <==> bytes@.len() >= 24,
        r matches Ok(remote) ==> {
            &&& remote.endpoint.port == be16(bytes@[2], bytes@[3])
            &&& remote.endpoint.ip matches IpAddress::V6(a) && a@ == bytes@.subrange(8, 24)
            &&& remote.address_family@ == "ipv6"@
            &&& remote.ipv6_scope_id == if bytes@.len() >= 28 {
                le_value(bytes@, 24, 4)
            } else {
                0
            }
        },
        r matches Err(e) ==> e.code@ == "network_control_sockaddr"@ && e.message@ == "short AF_INET6 sockaddr"@,
{
    match parse_sockaddr_in6(bytes) {
        Ok(remote) => {
            let scope: u32 = if bytes.len() >= 28 {
                proof {
                    crate::fanotify_events::lemma_le_value_bounds(bytes@, 24, 4);
                    reveal_with_fuel(crate::fanotify_events::pow256, 5);
                }
                read_le(bytes, 24, 4) as u32
            } else {
                0
            };
            Ok(CapturedRemote { endpoint: remote.endpoint, address_family: "ipv6", ipv6_scope_id: scope })
        },
        Err(e) => Err(e),
    }
}

/// Reads the remote of a `connect` from the bytes of its sockaddr (the
/// family in host byte order, here little-endian): an IPv4 or IPv6 remote,
/// nothing for another family, an error for bytes too short.
pub fn capture_remote(bytes: &[u8]) -> (r: Result<Option<CapturedRemote>, ControlError>)
    ensures
        bytes@.len() < 2 ==> (r matches Err(e) && e.code@ == "network_control_sockaddr"@ && e.message@
            == "sockaddr is shorter than the address-family field"@),
        bytes@.len() >= 2 && le_value(bytes@, 0, 2) == af_inet() ==> (r is Ok <==> bytes@.len() >= 8) && (r matches Ok(o) ==> o matches Some(c) && c.address_family@ == "ipv4"@),
        bytes@.len() >= 2 && le_value(bytes@, 0, 2) == af_inet6() ==> (r is Ok <==> bytes@.len() >= 24) && (r matches Ok(o) ==> o matches Some(c) && c.address_family@ == "ipv6"@),
        bytes@.len() >= 2 && le_value(bytes@, 0, 2) != af_inet() && le_value(bytes@, 0, 2) != af_inet6() ==> r matches Ok(None),
        r matches Ok(Some(c)) ==> c.endpoint.port == be16(bytes@[2], bytes@[3]),
{
    if bytes.len() < 2 {
        return Err(ControlError {
            code: String::from_str("network_control_sockaddr"),
            message: String::from_str("sockaddr is shorter than the address-family field"),
        });
    }
    let family = read_le(bytes, 0, 2);
    if family == 2 {
        return match capture_ipv4(bytes) {
            Ok(c) => Ok(Some(c)),
            Err(e) => Err(e),
        };
    }
    if family == 10 {
        return match capture_ipv6(bytes) {
            Ok(c) => Ok(Some(c)),
            Err(e) => Err(e),
        };
    }
    Ok(None)
}

/// The remote of a `connect` as the sync-plugin endpoint rules read it:
/// nothing for bytes shorter than the family field or another family.
pub fn connect_remote(bytes: &[u8]) -> (r: Result<Option<NetworkRemote>, ControlError>)
    ensures
        bytes@.len() < 2 ==> r matches Ok(None),
        bytes@.len() >= 2 && le_value(bytes@, 0, 2) == af_inet() ==> (r is Ok <==> bytes@.len() >= 8) && (r matches Ok(o) ==> o matches Some(c) && c.family@ == "inet"@),
        bytes@.len() >= 2 && le_value(bytes@, 0, 2) == af_inet6() ==> (r is Ok <==> bytes@.len() >= 24) && (r matches Ok(o) ==> o matches Some(c) && c.family@ == "inet6"@),
        bytes@.len() >= 2 && le_value(bytes@, 0, 2) != af_inet() && le_value(bytes@, 0, 2) != af_inet6() ==> r matches Ok(None),
        r matches Ok(Some(c)) ==> c.endpoint.port == be16(bytes@[2], bytes@[3]),
{
    if bytes.len() < 2 {
        return Ok(None);
    }
    let family = read_le(bytes, 0, 2);
    if family == 2 {
        return match parse_sockaddr_in(bytes) {
            Ok(c) => Ok(Some(c)),
            Err(e) => Err(e),
        };
    }
    if family == 10 {
        return match parse_sockaddr_in6(bytes) {
            Ok(c) => Ok(Some(c)),
            Err(e) => Err(e),
        };
    }
    Ok(None)
}

} // verus!
