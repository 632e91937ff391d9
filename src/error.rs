use vstd::prelude::*;

verus! {

/// Every failure the configuration engine reports.
#[derive(Debug, Clone, Copy, PartialEq, Eq, Structural)]
pub enum WgError {
    /// The text is not the base64 form of a 32-byte key.
    InvalidKeyEncoding,
    /// The text is neither `ipv4:port` nor `[ipv6]:port`.
    InvalidEndpoint,
    /// The text is not `address/prefix` with a prefix that fits the family.
    InvalidAllowedRange,
    /// The link-management service knows no link of that name.
    InterfaceNotFound,
    /// The device-control service knows no device of that name.
    DeviceNotFound,
    /// The device-control service answered with this nonzero status.
    ControlCallFailed(i32),
    /// The link-management service answered with this nonzero status.
    LinkCallFailed(i32),
    /// An address update was asked for without an address or a prefix.
    MissingAddress,
    /// The system's random source could not supply key material.
    RandomSourceFailed,
}

} // verus!
