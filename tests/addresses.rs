use wg_client::{
    parse_ipv4, parse_ipv6, port_from_bytes, Ip, WgAllowedIp, WgEndpoint, WgError, AF_INET,
    AF_INET6,
};

#[test]
fn allowed_range_ipv4() {
    let r = WgAllowedIp::parse("10.0.0.5/32").unwrap();
    assert_eq!(r.family, AF_INET);
    assert_eq!(r.family, 2);
    assert_eq!(r.cidr, 32);
    match r.ip {
        Ip::V4(a) => assert_eq!(a, [10, 0, 0, 5]),
        Ip::V6(_) => panic!("expected an IPv4 range"),
    }
}

#[test]
fn allowed_range_ipv6() {
    let r = WgAllowedIp::parse("fe80::1/128").unwrap();
    assert_eq!(r.family, AF_INET6);
    assert_eq!(r.family, 10);
    assert_eq!(r.cidr, 128);
    let mut expected = [0u8; 16];
    expected[0] = 0xfe;
    expected[1] = 0x80;
    expected[15] = 1;
    match r.ip {
        Ip::V6(a) => assert_eq!(a, expected),
        Ip::V4(_) => panic!("expected an IPv6 range"),
    }
}

#[test]
fn allowed_range_without_slash_fails() {
    assert_eq!(WgAllowedIp::parse("10.0.0.5").unwrap_err(), WgError::InvalidAllowedRange);
}

#[test]
fn allowed_range_prefix_too_long_fails() {
    assert_eq!(WgAllowedIp::parse("10.0.0.5/33").unwrap_err(), WgError::InvalidAllowedRange);
    assert_eq!(WgAllowedIp::parse("fe80::1/129").unwrap_err(), WgError::InvalidAllowedRange);
}

#[test]
fn allowed_range_edges() {
    let r = WgAllowedIp::parse("0.0.0.0/0").unwrap();
    assert_eq!(r.cidr, 0);
    let r = WgAllowedIp::parse("::/0").unwrap();
    assert_eq!(r.family, AF_INET6);
    assert!(matches!(r.ip, Ip::V6(a) if a == [0u8; 16]));
    assert!(WgAllowedIp::parse("10.0.0.5/").is_err());
    assert!(WgAllowedIp::parse("/24").is_err());
    assert!(WgAllowedIp::parse("10.0.0.300/24").is_err());
    assert!(WgAllowedIp::parse("10.0.0.5/2x").is_err());
}

#[test]
fn endpoint_ipv4() {
    let e = WgEndpoint::parse("1.2.3.4:51820").unwrap();
    assert_eq!(e.family(), AF_INET);
    match e {
        WgEndpoint::Addr4(a) => {
            assert_eq!(a.sin_family, 2);
            assert_eq!(a.sin_addr, [1, 2, 3, 4]);
            assert_eq!(a.sin_port, 51820u16.to_be_bytes());
            assert_eq!(a.sin_port, [0xca, 0x6c]);
            assert_eq!(port_from_bytes(a.sin_port), 51820);
            assert_eq!(a.sin_zero, [0u8; 8]);
        }
        _ => panic!("expected an IPv4 endpoint"),
    }
}

#[test]
fn endpoint_ipv6() {
    let e = WgEndpoint::parse("[::1]:51820").unwrap();
    assert_eq!(e.family(), AF_INET6);
    match e {
        WgEndpoint::Addr6(a) => {
            let mut expected = [0u8; 16];
            expected[15] = 1;
            assert_eq!(a.sin6_family, 10);
            assert_eq!(a.sin6_addr, expected);
            assert_eq!(a.sin6_port, [0xca, 0x6c]);
            assert_eq!(a.sin6_flowinfo, 0);
            assert_eq!(a.sin6_scope_id, 0);
        }
        _ => panic!("expected an IPv6 endpoint"),
    }
}

#[test]
fn endpoint_invalid() {
    assert_eq!(WgEndpoint::parse("not-an-endpoint").unwrap_err(), WgError::InvalidEndpoint);
    assert!(WgEndpoint::parse("").is_err());
    assert!(WgEndpoint::parse("1.2.3.4").is_err());
    assert!(WgEndpoint::parse("1.2.3.4:").is_err());
    assert!(WgEndpoint::parse("1.2.3.4:65536").is_err());
    assert!(WgEndpoint::parse("::1:51820").is_err());
    assert!(WgEndpoint::parse("[::1]51820").is_err());
    assert!(WgEndpoint::parse("default.endpoint.com:51820").is_err());
}

#[test]
fn endpoint_port_edges() {
    match WgEndpoint::parse("198.51.100.7:65535").unwrap() {
        WgEndpoint::Addr4(a) => {
            assert_eq!(a.sin_port, [0xff, 0xff]);
            assert_eq!(a.sin_addr, [198, 51, 100, 7]);
        }
        _ => panic!("expected an IPv4 endpoint"),
    }
    match WgEndpoint::parse("1.2.3.4:0").unwrap() {
        WgEndpoint::Addr4(a) => assert_eq!(a.sin_port, [0, 0]),
        _ => panic!("expected an IPv4 endpoint"),
    }
}

#[test]
fn ipv4_text_forms() {
    assert_eq!(parse_ipv4(b"192.168.1.2"), Some([192, 168, 1, 2]));
    assert_eq!(parse_ipv4(b"255.255.255.255"), Some([255; 4]));
    assert_eq!(parse_ipv4(b"0.0.0.0"), Some([0; 4]));
    assert_eq!(parse_ipv4(b"01.2.3.4"), None);
    assert_eq!(parse_ipv4(b"1.2.3"), None);
    assert_eq!(parse_ipv4(b"1.2.3.4.5"), None);
    assert_eq!(parse_ipv4(b"1..3.4"), None);
    assert_eq!(parse_ipv4(b"256.0.0.1"), None);
    assert_eq!(parse_ipv4(b""), None);
}

#[test]
fn ipv6_text_forms() {
    let full = parse_ipv6(b"2001:db8:0:0:0:ff00:42:8329").unwrap();
    let compressed = parse_ipv6(b"2001:DB8::FF00:42:8329").unwrap();
    assert_eq!(full, compressed);
    assert_eq!(
        full,
        [0x20, 0x01, 0x0d, 0xb8, 0, 0, 0, 0, 0, 0, 0xff, 0x00, 0x00, 0x42, 0x83, 0x29]
    );
    assert_eq!(parse_ipv6(b"::"), Some([0u8; 16]));
    let mut one = [0u8; 16];
    one[1] = 1;
    assert_eq!(parse_ipv6(b"1::"), Some(one));
    assert_eq!(parse_ipv6(b":::"), None);
    assert_eq!(parse_ipv6(b"1::2::3"), None);
    assert_eq!(parse_ipv6(b"1:2:3:4:5:6:7"), None);
    assert_eq!(parse_ipv6(b"1:2:3:4:5:6:7::8"), None);
    assert_eq!(parse_ipv6(b"12345::"), None);
    assert_eq!(parse_ipv6(b"g::"), None);
    assert!(parse_ipv6(b"1:2:3:4:5:6::8").is_some());
}
