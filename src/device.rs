//! The device and peer model handed to the device-control service, the
//! configuration applied to a fetched device, and the reading of the
//! service's list of device names.
use vstd::prelude::*;
use vstd::string::StringSliceAdditionalSpecFns;
use crate::addr::{endpoint_ok, endpoint_parsed, range_ok, range_parsed, WgAllowedIp, WgEndpoint};
use crate::error::WgError;
use crate::key::{decode_key, key_of_text, padded_text, wg_key_from_str, WgKey, WgKeyBase64String};
use crate::text::{find_byte, find_in, lemma_find_byte};
use vstd::slice::slice_to_vec;

verus! {

/// Flag set of a device: which optional fields the control service applies.
#[derive(Debug, Clone, Copy, PartialEq, Eq, Structural)]
pub struct WgDeviceFlags {
    pub bits: u32,
}

/// Flag set of a peer: which optional fields the control service applies.
#[derive(Debug, Clone, Copy, PartialEq, Eq, Structural)]
pub struct WgPeerFlags {
    pub bits: u32,
}

/// The names among `names` whose bit is set in `bits`, lowest bit first:
/// name `i` goes with bit `1 << i`.
pub open spec fn flag_names(bits: u32, names: Seq<&'static str>) -> Seq<&'static str>
    decreases names.len(),
{
    if names.len() == 0 {
        seq![]
    } else {
        let rest = flag_names(bits, names.drop_last());
        if bits & (1u32 << ((names.len() - 1) as u32)) != 0 {
            rest.push(names.last())
        } else {
            rest
        }
    }
}

pub open spec fn device_flag_names() -> Seq<&'static str> {
    seq!["REPLACE_PEERS", "HAS_PRIVATE_KEY", "HAS_PUBLIC_KEY", "HAS_LISTEN_PORT", "HAS_FWMARK"]
}

pub open spec fn peer_flag_names() -> Seq<&'static str> {
    seq![
        "REMOVE_ME",
        "REPLACE_ALLOWEDIPS",
        "HAS_PUBLIC_KEY",
        "HAS_PRESHARED_KEY",
        "HAS_PERSISTENT_KEEPALIVE_INTERVAL",
    ]
}

fn names_of_bits(bits: u32, names: [&'static str; 5]) -> (r: Vec<&'static str>)
    ensures
        r@ == flag_names(bits, names@),
{
    let mut out: Vec<&'static str> = Vec::new();
    let mut i: usize = 0;
    while i < 5
        invariant
            i <= 5,
            out@ == flag_names(bits, names@.subrange(0, i as int)),
        decreases 5 - i,
    {
        let ghost next = names@.subrange(0, i as int + 1);
        assert(next.drop_last() =~= names@.subrange(0, i as int));
        assert(next.len() - 1 == i);
        if bits & (1u32 << (i as u32)) != 0 {
            out.push(names[i]);
        }
        i = i + 1;
    }
    assert(names@.subrange(0, 5) =~= names@);
    out
}

impl WgDeviceFlags {
    pub const REPLACE_PEERS: u32 = 1;

    pub const HAS_PRIVATE_KEY: u32 = 2;

    pub const HAS_PUBLIC_KEY: u32 = 4;

    pub const HAS_LISTEN_PORT: u32 = 8;

    pub const HAS_FWMARK: u32 = 16;

    pub fn empty() -> (r: Self)
        ensures
            r.bits == 0,
    {
        WgDeviceFlags { bits: 0 }
    }

    pub fn from_bits(bits: u32) -> (r: Self)
        ensures
            r.bits == bits,
    {
        WgDeviceFlags { bits }
    }

    /// Whether every bit of `flag` is set.
    pub fn contains(&self, flag: u32) -> (r: bool)
        ensures
            r == (self.bits & flag == flag),
    {
        self.bits & flag == flag
    }

    pub fn insert(&mut self, flag: u32)
        ensures
            final(self).bits == old(self).bits | flag,
    {
        self.bits = self.bits | flag;
    }

    /// The names of the flags that are set, lowest bit first.
    pub fn names(&self) -> (r: Vec<&'static str>)
        ensures
            r@ == flag_names(self.bits, device_flag_names()),
    {
        let names = ["REPLACE_PEERS", "HAS_PRIVATE_KEY", "HAS_PUBLIC_KEY", "HAS_LISTEN_PORT", "HAS_FWMARK"];
        assert(names@ =~= device_flag_names());
        names_of_bits(self.bits, names)
    }
}

impl WgPeerFlags {
    pub const REMOVE_ME: u32 = 1;

    pub const REPLACE_ALLOWEDIPS: u32 = 2;

    pub const HAS_PUBLIC_KEY: u32 = 4;

    pub const HAS_PRESHARED_KEY: u32 = 8;

    pub const HAS_PERSISTENT_KEEPALIVE_INTERVAL: u32 = 16;

    pub fn empty() -> (r: Self)
        ensures
            r.bits == 0,
    {
        WgPeerFlags { bits: 0 }
    }

    pub fn from_bits(bits: u32) -> (r: Self)
        ensures
            r.bits == bits,
    {
        WgPeerFlags { bits }
    }

    /// Whether every bit of `flag` is set.
    pub fn contains(&self, flag: u32) -> (r: bool)
        ensures
            r == (self.bits & flag == flag),
    {
        self.bits & flag == flag
    }

    pub fn insert(&mut self, flag: u32)
        ensures
            final(self).bits == old(self).bits | flag,
    {
        self.bits = self.bits | flag;
    }

    /// The names of the flags that are set, lowest bit first.
    pub fn names(&self) -> (r: Vec<&'static str>)
        ensures
            r@ == flag_names(self.bits, peer_flag_names()),
    {
        let names = [
            "REMOVE_ME",
            "REPLACE_ALLOWEDIPS",
            "HAS_PUBLIC_KEY",
            "HAS_PRESHARED_KEY",
            "HAS_PERSISTENT_KEEPALIVE_INTERVAL",
        ];
        assert(names@ =~= peer_flag_names());
        names_of_bits(self.bits, names)
    }
}

/// A point in time: seconds and nanoseconds.
#[derive(Debug, Clone, Copy, PartialEq, Eq, Structural)]
pub struct Timespec64 {
    pub tv_sec: i64,
    pub tv_nsec: i64,
}

/// A remote identity and what the device knows of it.
#[derive(Debug, Clone, PartialEq, Eq)]
pub struct WgPeer {
    pub flags: WgPeerFlags,
    pub public_key: WgKey,
    pub preshared_key: WgKey,
    pub endpoint: WgEndpoint,
    pub last_handshake_time: Timespec64,
    pub rx_bytes: u64,
    pub tx_bytes: u64,
    pub persistent_keepalive_interval: u16,
    /// The peer's allowed ranges, in order.
    pub allowed_ips: Vec<WgAllowedIp>,
}

/// The local identity of a tunnel interface and its peers.
#[derive(Debug, Clone, PartialEq, Eq)]
pub struct WgDevice {
    pub name: [u8; 16],
    pub ifindex: u32,
    pub flags: WgDeviceFlags,
    pub public_key: WgKey,
    pub private_key: WgKey,
    pub fwmark: u32,
    pub listen_port: u16,
    /// The device's peers, in order.
    pub peers: Vec<WgPeer>,
}

pub open spec fn zero_key(k: WgKey) -> bool {
    forall|i: int| 0 <= i < 32 ==> #[trigger] k.0@[i] == 0
}

impl WgPeer {
    /// A peer with the given public key, endpoint and one allowed range;
    /// only its public key is flagged to be applied, every counter is zero.
    pub fn init(public_key: WgKey, endpoint: WgEndpoint, first_allowed_ip: WgAllowedIp) -> (r: Self)
        ensures
            r.flags.bits == WgPeerFlags::HAS_PUBLIC_KEY,
            r.public_key == public_key,
            zero_key(r.preshared_key),
            r.endpoint == endpoint,
            r.last_handshake_time == (Timespec64 { tv_sec: 0, tv_nsec: 0 }),
            r.rx_bytes == 0,
            r.tx_bytes == 0,
            r.persistent_keepalive_interval == 0,
            r.allowed_ips@ == seq![first_allowed_ip],
    {
        let mut allowed_ips = Vec::new();
        allowed_ips.push(first_allowed_ip);
        WgPeer {
            flags: WgPeerFlags { bits: WgPeerFlags::HAS_PUBLIC_KEY },
            public_key,
            preshared_key: WgKey([0u8; 32]),
            endpoint,
            last_handshake_time: Timespec64 { tv_sec: 0, tv_nsec: 0 },
            rx_bytes: 0,
            tx_bytes: 0,
            persistent_keepalive_interval: 0,
            allowed_ips,
        }
    }

    /// Sets the preshared key together with the flag that has it applied.
    pub fn set_preshared_key(&mut self, key: WgKey)
        ensures
            final(self).preshared_key == key,
            final(self).flags.bits == old(self).flags.bits | WgPeerFlags::HAS_PRESHARED_KEY,
            final(self).public_key == old(self).public_key,
            final(self).endpoint == old(self).endpoint,
            final(self).allowed_ips@ == old(self).allowed_ips@,
            final(self).persistent_keepalive_interval == old(self).persistent_keepalive_interval,
    {
        self.preshared_key = key;
        self.flags.insert(WgPeerFlags::HAS_PRESHARED_KEY);
    }

    /// Sets the keepalive interval together with the flag that has it applied.
    pub fn set_persistent_keepalive_interval(&mut self, seconds: u16)
        ensures
            final(self).persistent_keepalive_interval == seconds,
            final(self).flags.bits == old(self).flags.bits
                | WgPeerFlags::HAS_PERSISTENT_KEEPALIVE_INTERVAL,
            final(self).public_key == old(self).public_key,
            final(self).preshared_key == old(self).preshared_key,
            final(self).endpoint == old(self).endpoint,
            final(self).allowed_ips@ == old(self).allowed_ips@,
    {
        self.persistent_keepalive_interval = seconds;
        self.flags.insert(WgPeerFlags::HAS_PERSISTENT_KEEPALIVE_INTERVAL);
    }
}

impl WgDevice {
    /// Sets the private key together with the flag that has it applied.
    pub fn set_private_key(&mut self, key: WgKey)
        ensures
            final(self).private_key == key,
            final(self).flags.bits == old(self).flags.bits | WgDeviceFlags::HAS_PRIVATE_KEY,
            final(self).name == old(self).name,
            final(self).ifindex == old(self).ifindex,
            final(self).public_key == old(self).public_key,
            final(self).fwmark == old(self).fwmark,
            final(self).listen_port == old(self).listen_port,
            final(self).peers@ == old(self).peers@,
    {
        self.private_key = key;
        self.flags.insert(WgDeviceFlags::HAS_PRIVATE_KEY);
    }

    /// Sets the listen port together with the flag that has it applied.
    pub fn set_listen_port(&mut self, port: u16)
        ensures
            final(self).listen_port == port,
            final(self).flags.bits == old(self).flags.bits | WgDeviceFlags::HAS_LISTEN_PORT,
            final(self).name == old(self).name,
            final(self).ifindex == old(self).ifindex,
            final(self).public_key == old(self).public_key,
            final(self).private_key == old(self).private_key,
            final(self).fwmark == old(self).fwmark,
            final(self).peers@ == old(self).peers@,
    {
        self.listen_port = port;
        self.flags.insert(WgDeviceFlags::HAS_LISTEN_PORT);
    }

    /// Sets the firewall mark together with the flag that has it applied.
    pub fn set_fwmark(&mut self, mark: u32)
        ensures
            final(self).fwmark == mark,
            final(self).flags.bits == old(self).flags.bits | WgDeviceFlags::HAS_FWMARK,
            final(self).name == old(self).name,
            final(self).ifindex == old(self).ifindex,
            final(self).public_key == old(self).public_key,
            final(self).private_key == old(self).private_key,
            final(self).listen_port == old(self).listen_port,
            final(self).peers@ == old(self).peers@,
    {
        self.fwmark = mark;
        self.flags.insert(WgDeviceFlags::HAS_FWMARK);
    }
}

/// `d` is `device` with the private key `private`, the listen port
/// `listen_port` (both flagged to be applied) and, as its only peer, the
/// peer that `WgPeer::init` makes of `peer_key`, the endpoint read from
/// `endpoint` and the range read from `range`.
pub open spec fn is_configured(
    device: WgDevice,
    d: WgDevice,
    private: Seq<u8>,
    listen_port: u16,
    peer_key: Seq<u8>,
    endpoint: Seq<u8>,
    range: Seq<u8>,
) -> bool {
    &&& d.name == device.name
    &&& d.ifindex == device.ifindex
    &&& d.public_key == device.public_key
    &&& d.fwmark == device.fwmark
    &&& d.private_key.0@ == private
    &&& d.listen_port == listen_port
    &&& d.flags.bits == device.flags.bits | WgDeviceFlags::HAS_PRIVATE_KEY
        | WgDeviceFlags::HAS_LISTEN_PORT
    &&& d.peers@.len() == 1
    &&& d.peers@[0].flags.bits == WgPeerFlags::HAS_PUBLIC_KEY
    &&& d.peers@[0].public_key.0@ == peer_key
    &&& zero_key(d.peers@[0].preshared_key)
    &&& endpoint_parsed(endpoint, Ok(d.peers@[0].endpoint))
    &&& d.peers@[0].last_handshake_time == (Timespec64 { tv_sec: 0, tv_nsec: 0 })
    &&& d.peers@[0].rx_bytes == 0
    &&& d.peers@[0].tx_bytes == 0
    &&& d.peers@[0].persistent_keepalive_interval == 0
    &&& d.peers@[0].allowed_ips@.len() == 1
    &&& range_parsed(range, Ok(d.peers@[0].allowed_ips@[0]))
}

/// Applies to a fetched device the local private key and listen port and
/// one remote peer given by its public key, endpoint and allowed range.
/// The texts are checked in that order: peer key, endpoint, range, private key.
pub fn configure_device(
    device: WgDevice,
    private_key: &WgKeyBase64String,
    listen_port: u16,
    peer_public_key: &str,
    peer_endpoint: &str,
    peer_allowed_range: &str,
) -> (r: Result<WgDevice, WgError>)
    ensures
        ({
            let peer_key = key_of_text(padded_text(peer_public_key.spec_bytes()));
            let ep = peer_endpoint.spec_bytes();
            let rg = peer_allowed_range.spec_bytes();
            let private = key_of_text(private_key.0@);
            if peer_key is None {
                r == Err::<WgDevice, WgError>(WgError::InvalidKeyEncoding)
            } else if !endpoint_ok(ep) {
                r == Err::<WgDevice, WgError>(WgError::InvalidEndpoint)
            } else if !range_ok(rg) {
                r == Err::<WgDevice, WgError>(WgError::InvalidAllowedRange)
            } else if private is None {
                r == Err::<WgDevice, WgError>(WgError::InvalidKeyEncoding)
            } else {
                r matches Ok(d) && is_configured(
                    device,
                    d,
                    private.unwrap(),
                    listen_port,
                    peer_key.unwrap(),
                    ep,
                    rg,
                )
            }
        }),
{
    let peer_key = wg_key_from_str(peer_public_key)?;
    let endpoint = WgEndpoint::parse(peer_endpoint)?;
    let allowed = WgAllowedIp::parse(peer_allowed_range)?;
    let private = decode_key(private_key)?;
    let peer = WgPeer::init(peer_key, endpoint, allowed);
    let mut d = device;
    d.set_private_key(private);
    d.set_listen_port(listen_port);
    let mut peers: Vec<WgPeer> = Vec::new();
    peers.push(peer);
    d.peers = peers;
    Ok(d)
}

/// Outcome of a device lookup from the service's status: any nonzero
/// status means that no device of that name is configured.
pub fn lookup_result(status: i32) -> (r: Result<(), WgError>)
    ensures
        status == 0 ==> r is Ok,
        status != 0 ==> r == Err::<(), WgError>(WgError::DeviceNotFound),
{
    if status == 0 {
        Ok(())
    } else {
        Err(WgError::DeviceNotFound)
    }
}

/// Outcome of a device update from the service's status, which a failure
/// carries unchanged.
pub fn control_result(status: i32) -> (r: Result<(), WgError>)
    ensures
        status == 0 ==> r is Ok,
        status != 0 ==> r == Err::<(), WgError>(WgError::ControlCallFailed(status)),
{
    if status == 0 {
        Ok(())
    } else {
        Err(WgError::ControlCallFailed(status))
    }
}

/// The names in a buffer that holds each name followed by a zero byte and
/// ends with an empty name; a name cut off by the end of the buffer ends there.
pub open spec fn names_in(buf: Seq<u8>) -> Seq<Seq<u8>>
    decreases buf.len(),
{
    if buf.len() == 0 || buf[0] == 0 {
        seq![]
    } else {
        let k = find_byte(buf, 0);
        if k < buf.len() {
            seq![buf.subrange(0, k as int)] + names_in(buf.subrange(k + 1 as int, buf.len() as int))
        } else {
            seq![buf]
        }
    }
}

/// The buffer that lists `names`: each followed by a zero byte, then one
/// more zero byte.
pub open spec fn name_list(names: Seq<Seq<u8>>) -> Seq<u8>
    decreases names.len(),
{
    if names.len() == 0 {
        seq![0u8]
    } else {
        names[0] + seq![0u8] + name_list(names.subrange(1, names.len() as int))
    }
}

pub open spec fn is_device_name(n: Seq<u8>) -> bool {
    n.len() > 0 && forall|j: int| 0 <= j < n.len() ==> #[trigger] n[j] != 0
}

/// Reading the list of any nonempty names without zero bytes gives back
/// exactly those names, in order: none lost, cut or merged.
pub proof fn lemma_names_round_trip(names: Seq<Seq<u8>>)
    requires
        forall|i: int| 0 <= i < names.len() ==> is_device_name(#[trigger] names[i]),
    ensures
        names_in(name_list(names)) == names,
    decreases names.len(),
{
    if names.len() == 0 {
        assert(names_in(seq![0u8]) == Seq::<Seq<u8>>::empty());
        assert(names =~= Seq::<Seq<u8>>::empty());
    } else {
        let n0 = names[0];
        let rest = names.subrange(1, names.len() as int);
        assert forall|i: int| 0 <= i < rest.len() implies is_device_name(#[trigger] rest[i]) by {
            assert(rest[i] == names[i + 1]);
        }
        lemma_names_round_trip(rest);
        let buf = name_list(names);
        assert(buf == n0 + seq![0u8] + name_list(rest));
        assert(is_device_name(n0));
        assert(buf[0] == n0[0]);
        assert forall|j: int| 0 <= j < n0.len() implies buf[j] != 0 by {
            assert(buf[j] == n0[j]);
        }
        lemma_find_byte(buf, 0, n0.len() as int);
        assert(buf.subrange(0, n0.len() as int) =~= n0);
        assert(buf.subrange(n0.len() + 1 as int, buf.len() as int) =~= name_list(rest));
        assert(names =~= seq![n0] + rest);
    }
}

/// Splits the service's name buffer into the names it lists.
pub fn split_device_names(buf: &[u8]) -> (r: Vec<Vec<u8>>)
    ensures
        r@.len() == names_in(buf@).len(),
        forall|i: int| 0 <= i < r@.len() ==> (#[trigger] r@[i])@ == names_in(buf@)[i],
{
    let n = buf.len();
    let mut out: Vec<Vec<u8>> = Vec::new();
    let mut pos: usize = 0;
    let ghost mut done: Seq<Seq<u8>> = seq![];
    assert(buf@.subrange(0, n as int) =~= buf@);
    loop
        invariant
            pos <= n,
            n == buf@.len(),
            names_in(buf@) == done + names_in(buf@.subrange(pos as int, n as int)),
            out@.len() == done.len(),
            forall|i: int| 0 <= i < out@.len() ==> (#[trigger] out@[i])@ == done[i],
        decreases n - pos,
    {
        let ghost t = buf@.subrange(pos as int, n as int);
        if pos == n || buf[pos] == 0 {
            proof {
                if pos < n {
                    assert(t[0] == buf@[pos as int]);
                }
                assert(names_in(buf@) =~= done);
            }
            return out;
        }
        let k = find_in(buf, pos, n, 0);
        let name = slice_to_vec(&buf[pos..k]);
        out.push(name);
        proof {
            assert(t[0] == buf@[pos as int]);
            assert(t.subrange(0, k - pos) =~= buf@.subrange(pos as int, k as int));
            if k < n {
                assert(t.subrange(k - pos + 1, t.len() as int) =~= buf@.subrange(k + 1 as int, n as int));
                assert(names_in(buf@) =~= done.push(buf@.subrange(pos as int, k as int))
                    + names_in(buf@.subrange(k + 1 as int, n as int)));
            } else {
                assert(t =~= buf@.subrange(pos as int, k as int));
                assert(names_in(buf@) =~= done.push(buf@.subrange(pos as int, k as int)));
            }
            done = done.push(buf@.subrange(pos as int, k as int));
        }
        if k == n {
            proof {
                assert(buf@.subrange(n as int, n as int).len() == 0);
                assert(names_in(buf@) =~= done);
            }
            return out;
        }
        pos = k + 1;
    }
}

} // verus!
