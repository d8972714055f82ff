use vstd::prelude::*;

verus! {

/// The socket address a peer connected from, with the same fields (and the
/// same equality) as a standard socket address. The peer table is keyed by it.
#[derive(Clone, Copy, Debug, PartialEq, Eq, Structural)]
pub enum PeerAddr {
    V4 { ip: u32, port: u16 },
    V6 { ip6: u128, port: u16, flowinfo: u32, scope_id: u32 },
}

} // verus!
