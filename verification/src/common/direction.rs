//! Data-path direction of a test. The control channel is always opened by
//! the client.

use vstd::prelude::*;

verus! {

/// Which way the data streams of a test carry data.
#[derive(Debug, Clone, Copy, PartialEq, Eq, Structural)]
pub enum Direction {
    /// The client sends and the server receives.
    Forward,
    /// The server sends and the client receives.
    Reverse,
    /// Both sides send and receive.
    Bidirectional,
}

impl Default for Direction {
    fn default() -> (d: Direction)
        ensures
            d == Direction::Forward,
    {
        Direction::Forward
    }
}

impl Direction {
    /// Whether only the server sends.
    pub fn is_reverse(self) -> (b: bool)
        ensures
            b == (self == Direction::Reverse),
    {
        matches!(self, Direction::Reverse)
    }

    /// Whether both sides send.
    pub fn is_bidirectional(self) -> (b: bool)
        ensures
            b == (self == Direction::Bidirectional),
    {
        matches!(self, Direction::Bidirectional)
    }

    /// Data flows from the client to the server.
    pub open spec fn upstream(self) -> bool {
        self != Direction::Reverse
    }

    /// Data flows from the server to the client.
    pub open spec fn downstream(self) -> bool {
        self != Direction::Forward
    }

    pub fn client_sends(self) -> (b: bool)
        ensures
            b == self.upstream(),
    {
        matches!(self, Direction::Forward | Direction::Bidirectional)
    }

    pub fn client_receives(self) -> (b: bool)
        ensures
            b == self.downstream(),
    {
        matches!(self, Direction::Reverse | Direction::Bidirectional)
    }

    pub fn server_sends(self) -> (b: bool)
        ensures
            b == self.downstream(),
    {
        matches!(self, Direction::Reverse | Direction::Bidirectional)
    }

    pub fn server_receives(self) -> (b: bool)
        ensures
            b == self.upstream(),
    {
        matches!(self, Direction::Forward | Direction::Bidirectional)
    }
}

/// In every direction some data flows, and it flows both ways exactly in a
/// bidirectional test.
pub proof fn some_data_flows(d: Direction)
    ensures
        d.upstream() || d.downstream(),
        d.upstream() && d.downstream() <==> d == Direction::Bidirectional,
{
}

} // verus!
