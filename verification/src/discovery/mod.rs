//! Peer discovery: the messages that nodes multicast to find each other.
use vstd::prelude::*;

use crate::link::measurement::Ipv4Endpoint;

pub mod gateway;
pub mod messages;
pub mod messenger;
pub mod peers;

verus! {

/// The UDP port of Link discovery.
pub const LINK_PORT: u16 = 20808;

/// The multicast group of Link discovery, 224.76.78.75, as the big-endian
/// number of its four bytes.
pub const MULTICAST_ADDR: u32 = 0xe04c4e4b;

/// The endpoint that discovery listens on: any address, the Link port.
pub fn multicast_ip_any() -> (e: Ipv4Endpoint)
    ensures
        e.ip == 0 && e.port == LINK_PORT,
{
    Ipv4Endpoint { ip: 0, port: LINK_PORT }
}

} // verus!
