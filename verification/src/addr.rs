use vstd::prelude::*;

verus! {

/// An IPv4 socket address: four octets and a port.
///
/// Proxies are identified by the address their datagrams arrive from, so this
/// is the identity key of the proxy table.  The surrounding process converts
/// between this record and the operating system's address type.
#[derive(Clone, Copy, PartialEq, Eq, Structural, Debug, Hash)]
pub struct SockAddr {
    pub ip0: u8,
    pub ip1: u8,
    pub ip2: u8,
    pub ip3: u8,
    pub port: u16,
}

impl SockAddr {
    pub fn new(ip0: u8, ip1: u8, ip2: u8, ip3: u8, port: u16) -> (r: SockAddr)
        ensures
            r == (SockAddr { ip0, ip1, ip2, ip3, port }),
    {
        SockAddr { ip0, ip1, ip2, ip3, port }
    }
}

/// The IPv4 directed-broadcast address that Discover datagrams are sent to.
pub open spec fn spec_discover_target() -> SockAddr {
    SockAddr { ip0: 255, ip1: 255, ip2: 255, ip3: 255, port: 16000 }
}

/// Returns the broadcast target for Discover datagrams, `255.255.255.255:16000`.
pub fn discover_target() -> (r: SockAddr)
    ensures
        r == spec_discover_target(),
{
    SockAddr { ip0: 255, ip1: 255, ip2: 255, ip3: 255, port: 16000 }
}

} // verus!
