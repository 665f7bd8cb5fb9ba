//! Network configuration policy: the static address used when DHCP does
//! not answer in time.

use vstd::prelude::*;

verus! {

/// How long to wait for a DHCP lease, in seconds.
pub const DHCP_TIMEOUT_SECS: u64 = 120;

/// Prefix length of the fallback address.
pub const STATIC_PREFIX_LEN: u8 = 24;

/// A static IPv4 configuration.
#[derive(Clone, Copy, Debug, PartialEq, Eq)]
pub struct StaticIpv4 {
    pub address: [u8; 4],
    pub prefix_len: u8,
    pub gateway: [u8; 4],
}

/// The fallback configuration: 192.168.1.200/24 via 192.168.1.1.
pub open spec fn fallback_spec() -> StaticIpv4 {
    StaticIpv4 { address: [192, 168, 1, 200], prefix_len: 24, gateway: [192, 168, 1, 1] }
}

/// The fallback address, `192.168.1.200`.
pub fn static_ip() -> (r: [u8; 4])
    ensures
        r == fallback_spec().address,
{
    [192, 168, 1, 200]
}

/// The fallback gateway, `192.168.1.1`.
pub fn static_gw() -> (r: [u8; 4])
    ensures
        r == fallback_spec().gateway,
{
    [192, 168, 1, 1]
}

/// The configuration to set once the DHCP wait is over: none when a lease
/// arrived, the static fallback when the wait timed out.
pub fn after_dhcp_wait(lease_acquired: bool) -> (r: Option<StaticIpv4>)
    ensures
        r == (if lease_acquired {
            None
        } else {
            Some(fallback_spec())
        }),
{
    if lease_acquired {
        None
    } else {
        Some(StaticIpv4 { address: static_ip(), prefix_len: STATIC_PREFIX_LEN, gateway: static_gw() })
    }
}

} // verus!
