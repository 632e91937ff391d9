//! Configuration engine for a WireGuard tunnel interface: key handling,
//! the device/peer data model, address parsing, and the decisions taken
//! while an interface is created, addressed and brought up.
use vstd::prelude::*;

pub mod addr;
pub mod device;
pub mod error;
pub mod key;
pub mod lifecycle;
pub mod text;

pub use addr::{
    parse_ipv4, parse_ipv6, port_from_bytes, Ip, Sockaddr, SockaddrIn, SockaddrIn6, WgAllowedIp,
    WgEndpoint, AF_INET, AF_INET6,
};
pub use device::{
    configure_device, control_result, lookup_result, split_device_names, Timespec64, WgDevice,
    WgDeviceFlags, WgPeer, WgPeerFlags,
};
pub use error::WgError;
pub use key::{
    clamp_key, decode_key, derive_public_key, encode_key, gen_private_key, gen_public_key,
    generate_private_key, wg_key_from_str, WgKey, WgKeyBase64String,
};
pub use lifecycle::{
    create_result, plan_link_update, AddLinkOutcome, LinkRequest, Operation, SetupStep,
};

verus! {

} // verus!
