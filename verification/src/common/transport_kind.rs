//! Which transport the data streams of a test use. The control channel is
//! always TCP.

use vstd::prelude::*;

verus! {

#[derive(Debug, Clone, Copy, PartialEq, Eq, Structural)]
pub enum TransportKind {
    Tcp,
    Udp,
}

impl Default for TransportKind {
    fn default() -> (t: TransportKind)
        ensures
            t == TransportKind::Tcp,
    {
        TransportKind::Tcp
    }
}

impl TransportKind {
    pub fn is_udp(self) -> (b: bool)
        ensures
            b == (self == TransportKind::Udp),
    {
        matches!(self, TransportKind::Udp)
    }
}

} // verus!
