//! The history of the calls on a socket.

use vstd::prelude::*;

use super::protocol::SocketEvent;

verus! {

/// A history of calls, which exists in proofs only. It starts empty and grows
/// by one call at a time.
pub struct CallLog {
    events: Ghost<Seq<SocketEvent>>,
}

impl CallLog {
    /// The calls so far, oldest first.
    pub closed spec fn calls(self) -> Seq<SocketEvent> {
        self.events@
    }

    /// A history without calls.
    pub fn new() -> (log: CallLog)
        ensures
            log.calls() == Seq::<SocketEvent>::empty(),
    {
        CallLog { events: Ghost(Seq::empty()) }
    }

    /// Notes one more call.
    pub fn note(&mut self, event: Ghost<SocketEvent>)
        ensures
            final(self).calls() == old(self).calls().push(event@),
    {
        self.events = Ghost(self.events@.push(event@));
    }
}

} // verus!
