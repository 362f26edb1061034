//! Errors of the control and data channels.

use vstd::prelude::*;

verus! {

/// What went wrong on a channel. The names follow `std::io::ErrorKind`.
#[derive(Debug, Clone, Copy, PartialEq, Eq, Structural)]
pub enum ErrorKind {
    /// The call would have had to wait on a socket that does not wait.
    WouldBlock,
    /// A deadline passed.
    TimedOut,
    /// A signal cut the call short.
    Interrupted,
    /// The peer closed before the data was complete.
    UnexpectedEof,
    /// The peer sent something that has no meaning here.
    InvalidData,
    /// The caller asked for something impossible.
    InvalidInput,
    /// A socket accepted no bytes of a non-empty buffer.
    WriteZero,
    /// The peer is gone.
    BrokenPipe,
    /// The platform or the socket cannot do this.
    Unsupported,
    /// Anything else.
    Other,
}

/// A channel error: its kind, and a sentence for the log.
#[derive(Debug, Clone)]
pub struct IoError {
    pub kind: ErrorKind,
    pub message: String,
}

impl IoError {
    /// An error of `kind` whose message reads `message`.
    pub fn new(kind: ErrorKind, message: &str) -> (e: IoError)
        ensures
            e.kind == kind,
            e.message@ == message@,
    {
        IoError { kind, message: message.to_owned() }
    }

    /// The error's kind.
    pub fn kind(&self) -> (kind: ErrorKind)
        ensures
            kind == self.kind,
    {
        self.kind
    }

    /// Says that this error has the given kind and message.
    pub open spec fn is(self, kind: ErrorKind, message: Seq<char>) -> bool {
        &&& self.kind == kind
        &&& self.message@ == message
    }
}

} // verus!
