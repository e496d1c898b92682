//! The engine's socket-address value.
//!
//! The engine never looks inside an address: it only carries one from the
//! configuration or the resolver cache to the connect call. The value holds
//! the IP bytes packed into two words plus the port; the unverified shell
//! converts to and from its platform address type.

use vstd::prelude::*;

verus! {

/// A resolved socket address: an IPv4 or IPv6 address and a port.
///
/// For IPv4, `ip_hi` is zero and `ip_lo` holds the four address bytes in
/// big-endian order in its low 32 bits. For IPv6, `ip_hi` and `ip_lo` hold
/// the first and last eight address bytes, big-endian.
#[derive(Clone, Copy, PartialEq, Eq, Structural, Debug)]
pub struct Addr {
    pub v6: bool,
    pub ip_hi: u64,
    pub ip_lo: u64,
    pub port: u16,
}

impl Addr {
    /// An IPv4 address from its four octets and a port.
    pub fn new_v4(a: u8, b: u8, c: u8, d: u8, port: u16) -> (r: Addr)
        ensures
            !r.v6,
            r.ip_hi == 0,
            r.ip_lo == a as u64 * 0x1000000 + b as u64 * 0x10000 + c as u64 * 0x100 + d as u64,
            r.port == port,
    {
        Addr {
            v6: false,
            ip_hi: 0,
            ip_lo: (a as u64) * 0x1000000 + (b as u64) * 0x10000 + (c as u64) * 0x100 + (d as u64),
            port,
        }
    }

    /// An IPv6 address from its two 64-bit halves and a port.
    pub fn new_v6(ip_hi: u64, ip_lo: u64, port: u16) -> (r: Addr)
        ensures
            r.v6,
            r.ip_hi == ip_hi,
            r.ip_lo == ip_lo,
            r.port == port,
    {
        Addr { v6: true, ip_hi, ip_lo, port }
    }
}

} // verus!
