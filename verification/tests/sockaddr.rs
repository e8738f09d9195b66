use actraild::sockaddr::{capture_remote, connect_remote, parse_sockaddr_in, parse_sockaddr_in6, IpAddress};

#[test]
fn ipv4_sockaddr_decodes_port_in_network_order() {
    let remote = parse_sockaddr_in(&[2, 0, 0x01, 0xbb, 10, 0, 0, 1, 0, 0]).unwrap();
    assert_eq!(remote.endpoint.port, 443);
    assert_eq!(remote.endpoint.ip, IpAddress::V4([10, 0, 0, 1]));
    assert_eq!(remote.family, "inet");
}

#[test]
fn short_ipv4_sockaddr_is_refused() {
    let e = parse_sockaddr_in(&[2, 0, 0, 80, 127, 0, 0]).unwrap_err();
    assert_eq!(e.code, "network_control_sockaddr");
    assert_eq!(e.message, "short AF_INET sockaddr");
}

#[test]
fn ipv6_sockaddr_decodes_address_octets() {
    let mut raw = vec![10, 0, 0, 80, 0, 0, 0, 0];
    raw.extend_from_slice(&[0x20, 0x01, 0x0d, 0xb8, 0, 0, 0, 0, 0, 0, 0, 0, 0, 0, 0, 1]);
    let remote = parse_sockaddr_in6(&raw).unwrap();
    assert_eq!(remote.endpoint.port, 80);
    assert_eq!(
        remote.endpoint.ip,
        IpAddress::V6([0x20, 0x01, 0x0d, 0xb8, 0, 0, 0, 0, 0, 0, 0, 0, 0, 0, 0, 1])
    );
    assert_eq!(remote.family, "inet6");
    let e = parse_sockaddr_in6(&raw[..23]).unwrap_err();
    assert_eq!(e.message, "short AF_INET6 sockaddr");
}

#[test]
fn captured_remotes_name_their_family() {
    let v4 = capture_remote(&[2, 0, 0x1f, 0x90, 127, 0, 0, 1]).unwrap().unwrap();
    assert_eq!(v4.address_family, "ipv4");
    assert_eq!(v4.endpoint.port, 8080);
    assert_eq!(v4.ipv6_scope_id, 0);
    let mut raw = vec![10, 0, 0, 53, 0, 0, 0, 0];
    raw.extend_from_slice(&[0xfe, 0x80, 0, 0, 0, 0, 0, 0, 0, 0, 0, 0, 0, 0, 0, 1]);
    raw.extend_from_slice(&[3, 0, 0, 0]);
    let v6 = capture_remote(&raw).unwrap().unwrap();
    assert_eq!(v6.address_family, "ipv6");
    assert_eq!(v6.endpoint.port, 53);
    assert_eq!(v6.ipv6_scope_id, 3);
    assert!(capture_remote(&[1, 0, 0, 0]).unwrap().is_none());
    let e = capture_remote(&[2]).unwrap_err();
    assert_eq!(e.message, "sockaddr is shorter than the address-family field");
    assert!(connect_remote(&[2]).unwrap().is_none());
    assert_eq!(connect_remote(&[2, 0, 0, 80, 1, 2, 3, 4]).unwrap().unwrap().family, "inet");
    assert_eq!(connect_remote(&[2, 0, 0, 80]).unwrap_err().message, "short AF_INET sockaddr");
}
