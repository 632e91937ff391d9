use wg_client::{
    configure_device, control_result, encode_key, lookup_result, split_device_names, Ip,
    Timespec64, WgAllowedIp, WgDevice, WgDeviceFlags, WgEndpoint, WgError, WgKey, WgPeer,
    WgPeerFlags,
};

fn blank_device() -> WgDevice {
    let mut name = [0u8; 16];
    name[..3].copy_from_slice(b"wg0");
    WgDevice {
        name,
        ifindex: 7,
        flags: WgDeviceFlags::empty(),
        public_key: WgKey([3u8; 32]),
        private_key: WgKey([0u8; 32]),
        fwmark: 0,
        listen_port: 0,
        peers: Vec::new(),
    }
}

fn key_text(k: [u8; 32]) -> String {
    let t = encode_key(&WgKey(k));
    t.0[..44].iter().map(|&c| c as char).collect()
}

#[test]
fn peer_init_sets_only_public_key_flag() {
    let endpoint = WgEndpoint::parse("1.2.3.4:51820").unwrap();
    let range = WgAllowedIp::parse("10.0.0.1/32").unwrap();
    let p = WgPeer::init(WgKey([9u8; 32]), endpoint, range);
    assert_eq!(p.flags, WgPeerFlags::from_bits(WgPeerFlags::HAS_PUBLIC_KEY));
    assert!(p.flags.contains(WgPeerFlags::HAS_PUBLIC_KEY));
    assert!(!p.flags.contains(WgPeerFlags::HAS_PRESHARED_KEY));
    assert_eq!(p.public_key.0, [9u8; 32]);
    assert_eq!(p.preshared_key.0, [0u8; 32]);
    assert_eq!(p.last_handshake_time, Timespec64 { tv_sec: 0, tv_nsec: 0 });
    assert_eq!(p.rx_bytes, 0);
    assert_eq!(p.tx_bytes, 0);
    assert_eq!(p.persistent_keepalive_interval, 0);
    assert_eq!(p.allowed_ips.len(), 1);
    assert_eq!(p.allowed_ips[0].cidr, 32);
}

#[test]
fn peer_setters_raise_their_flags() {
    let endpoint = WgEndpoint::parse("1.2.3.4:51820").unwrap();
    let range = WgAllowedIp::parse("10.0.0.1/32").unwrap();
    let mut p = WgPeer::init(WgKey([9u8; 32]), endpoint, range);
    p.set_preshared_key(WgKey([5u8; 32]));
    p.set_persistent_keepalive_interval(25);
    assert_eq!(p.preshared_key.0, [5u8; 32]);
    assert_eq!(p.persistent_keepalive_interval, 25);
    assert_eq!(p.flags.bits, 4 | 8 | 16);
}

#[test]
fn device_setters_raise_their_flags() {
    let mut d = blank_device();
    d.set_private_key(WgKey([1u8; 32]));
    assert_eq!(d.flags.bits, WgDeviceFlags::HAS_PRIVATE_KEY);
    d.set_listen_port(54161);
    d.set_fwmark(51);
    assert_eq!(d.listen_port, 54161);
    assert_eq!(d.fwmark, 51);
    assert_eq!(d.flags.bits, 2 | 8 | 16);
    assert!(d.flags.contains(WgDeviceFlags::HAS_LISTEN_PORT));
    assert!(!d.flags.contains(WgDeviceFlags::REPLACE_PEERS));
    let mut f = WgDeviceFlags::empty();
    f.insert(WgDeviceFlags::REPLACE_PEERS | WgDeviceFlags::HAS_PUBLIC_KEY);
    assert_eq!(f.bits, 5);
}

#[test]
fn configure_device_end_to_end_values() {
    let remote = key_text([0x42u8; 32]);
    let private = encode_key(&WgKey([0x11u8; 32]));
    let d = configure_device(
        blank_device(),
        &private,
        54161,
        &remote,
        "198.51.100.7:51820",
        "10.0.0.1/32",
    )
    .unwrap();
    assert_eq!(&d.name[..3], b"wg0");
    assert_eq!(d.ifindex, 7);
    assert_eq!(d.public_key.0, [3u8; 32]);
    assert_eq!(d.private_key.0, [0x11u8; 32]);
    assert_eq!(d.listen_port, 54161);
    assert_eq!(d.flags.bits, WgDeviceFlags::HAS_PRIVATE_KEY | WgDeviceFlags::HAS_LISTEN_PORT);
    assert_eq!(d.peers.len(), 1);
    let p = &d.peers[0];
    assert_eq!(p.public_key.0, [0x42u8; 32]);
    assert_eq!(p.flags.bits, WgPeerFlags::HAS_PUBLIC_KEY);
    match p.endpoint {
        WgEndpoint::Addr4(a) => {
            assert_eq!(a.sin_addr, [198, 51, 100, 7]);
            assert_eq!(a.sin_port, 51820u16.to_be_bytes());
        }
        _ => panic!("expected an IPv4 endpoint"),
    }
    assert_eq!(p.allowed_ips.len(), 1);
    assert_eq!(p.allowed_ips[0].cidr, 32);
    assert!(matches!(p.allowed_ips[0].ip, Ip::V4(a) if a == [10, 0, 0, 1]));
}

#[test]
fn configure_device_replaces_existing_peers() {
    let mut dev = blank_device();
    let endpoint = WgEndpoint::parse("1.2.3.4:1").unwrap();
    let range = WgAllowedIp::parse("10.9.9.9/32").unwrap();
    dev.peers.push(WgPeer::init(WgKey([1u8; 32]), endpoint, range));
    dev.peers.push(WgPeer::init(WgKey([2u8; 32]), endpoint, range));
    let d = configure_device(
        dev,
        &encode_key(&WgKey([0x11u8; 32])),
        1,
        &key_text([0x42u8; 32]),
        "[::1]:51820",
        "fe80::1/64",
    )
    .unwrap();
    assert_eq!(d.peers.len(), 1);
    assert_eq!(d.peers[0].public_key.0, [0x42u8; 32]);
    assert!(matches!(d.peers[0].endpoint, WgEndpoint::Addr6(_)));
}

#[test]
fn configure_device_errors_in_order() {
    let private = encode_key(&WgKey([0x11u8; 32]));
    let remote = key_text([0x42u8; 32]);
    let r = configure_device(blank_device(), &private, 1, "bad", "bad", "bad");
    assert_eq!(r.unwrap_err(), WgError::InvalidKeyEncoding);
    let r = configure_device(blank_device(), &private, 1, &remote, "bad", "bad");
    assert_eq!(r.unwrap_err(), WgError::InvalidEndpoint);
    let r = configure_device(blank_device(), &private, 1, &remote, "1.2.3.4:5", "10.0.0.1");
    assert_eq!(r.unwrap_err(), WgError::InvalidAllowedRange);
    let mut bad_private = private;
    bad_private.0[0] = b'*';
    let r = configure_device(blank_device(), &bad_private, 1, &remote, "1.2.3.4:5", "10.0.0.1/32");
    assert_eq!(r.unwrap_err(), WgError::InvalidKeyEncoding);
}

#[test]
fn status_codes() {
    assert_eq!(lookup_result(0), Ok(()));
    assert_eq!(lookup_result(-19), Err(WgError::DeviceNotFound));
    assert_eq!(control_result(0), Ok(()));
    assert_eq!(control_result(-22), Err(WgError::ControlCallFailed(-22)));
}

#[test]
fn device_names_none() {
    assert!(split_device_names(b"").is_empty());
    assert!(split_device_names(b"\0").is_empty());
    assert!(split_device_names(b"\0wg0\0\0").is_empty());
}

#[test]
fn device_names_several() {
    let names = split_device_names(b"wg0\0wg1\0tunnel-long-name\0\0");
    assert_eq!(names.len(), 3);
    assert_eq!(names[0], b"wg0".to_vec());
    assert_eq!(names[1], b"wg1".to_vec());
    assert_eq!(names[2], b"tunnel-long-name".to_vec());
}

#[test]
fn device_names_stop_at_buffer_end() {
    let names = split_device_names(b"wg0\0wg1");
    assert_eq!(names, vec![b"wg0".to_vec(), b"wg1".to_vec()]);
    let names = split_device_names(b"a\0b\0\0c\0");
    assert_eq!(names, vec![b"a".to_vec(), b"b".to_vec()]);
}

#[test]
fn flag_names_lowest_bit_first() {
    let f = WgDeviceFlags::from_bits(WgDeviceFlags::HAS_PRIVATE_KEY | WgDeviceFlags::HAS_LISTEN_PORT);
    assert_eq!(f.names(), vec!["HAS_PRIVATE_KEY", "HAS_LISTEN_PORT"]);
    assert!(WgDeviceFlags::empty().names().is_empty());
    assert_eq!(WgDeviceFlags::from_bits(31).names().len(), 5);
    let p = WgPeerFlags::from_bits(WgPeerFlags::REMOVE_ME | WgPeerFlags::HAS_PERSISTENT_KEEPALIVE_INTERVAL);
    assert_eq!(p.names(), vec!["REMOVE_ME", "HAS_PERSISTENT_KEEPALIVE_INTERVAL"]);
}
