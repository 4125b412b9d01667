//! A client as the host knows it.

use vstd::prelude::*;

verus! {

/// The socket address of a client, as `std::net::SocketAddr` holds it: an
/// IPv4 address and port, or an IPv6 address, port, flow information and
/// scope id. Two addresses are the same when all their parts are.
#[derive(Clone, Copy, Debug, PartialEq, Eq, Structural)]
pub enum PeerAddr {
    V4 { ip: u32, port: u16 },
    V6 { ip: u128, port: u16, flowinfo: u32, scope_id: u32 },
}

/// Whether `a` and `b` are the same address.
pub fn same_addr(a: &PeerAddr, b: &PeerAddr) -> (r: bool)
    ensures
        r == (*a == *b),
{
    match (a, b) {
        (PeerAddr::V4 { ip: i1, port: p1 }, PeerAddr::V4 { ip: i2, port: p2 }) => *i1 == *i2 && *p1 == *p2,
        (
            PeerAddr::V6 { ip: i1, port: p1, flowinfo: f1, scope_id: s1 },
            PeerAddr::V6 { ip: i2, port: p2, flowinfo: f2, scope_id: s2 },
        ) => *i1 == *i2 && *p1 == *p2 && *f1 == *f2 && *s1 == *s2,
        _ => false,
    }
}

/// A client that joined the host.
#[derive(Clone, Copy, Debug)]
pub struct PlayerConnection {
    pub id: usize,
    pub addr: PeerAddr,
    pub ready_to_start: bool,
}

} // verus!
