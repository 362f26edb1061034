//! The one-byte messages of the control channel.

use vstd::prelude::*;

verus! {

/// A state-machine transition, sent as a single byte.
#[derive(Debug, Clone, Copy, PartialEq, Eq, Structural)]
pub enum Message {
    TestStart,
    TestRunning,
    ResultRequest,
    TestEnd,
    StreamBegin,
    StreamRunning,
    StreamEnd,
    AllStreamsEnd,
    ParamExchange,
    CreateStreams,
    ServerTerminate,
    ClientTerminate,
    ExchangeResults,
    DisplayResults,
    IperfStart,
    IperfDone,
    AccessDenied,
    ServerError,
}

/// The code that carries no message of the protocol.
#[derive(Debug, Clone, Copy, PartialEq, Eq, Structural)]
pub struct UnknownCode {
    pub code: i8,
}

impl Message {
    /// The signed code of a message on the wire.
    pub open spec fn spec_code(self) -> int {
        match self {
            Message::TestStart => 1,
            Message::TestRunning => 2,
            Message::ResultRequest => 3,
            Message::TestEnd => 4,
            Message::StreamBegin => 5,
            Message::StreamRunning => 6,
            Message::StreamEnd => 7,
            Message::AllStreamsEnd => 8,
            Message::ParamExchange => 9,
            Message::CreateStreams => 10,
            Message::ServerTerminate => 11,
            Message::ClientTerminate => 12,
            Message::ExchangeResults => 13,
            Message::DisplayResults => 14,
            Message::IperfStart => 15,
            Message::IperfDone => 16,
            Message::AccessDenied => -1,
            Message::ServerError => -2,
        }
    }

    /// The byte that stands for the message: its code in two's complement.
    pub open spec fn spec_byte(self) -> u8 {
        if self.spec_code() >= 0 {
            self.spec_code() as u8
        } else {
            (256 + self.spec_code()) as u8
        }
    }

    /// The signed code of a message on the wire.
    pub fn code(self) -> (code: i8)
        ensures
            code == self.spec_code(),
    {
        match self {
            Message::TestStart => 1,
            Message::TestRunning => 2,
            Message::ResultRequest => 3,
            Message::TestEnd => 4,
            Message::StreamBegin => 5,
            Message::StreamRunning => 6,
            Message::StreamEnd => 7,
            Message::AllStreamsEnd => 8,
            Message::ParamExchange => 9,
            Message::CreateStreams => 10,
            Message::ServerTerminate => 11,
            Message::ClientTerminate => 12,
            Message::ExchangeResults => 13,
            Message::DisplayResults => 14,
            Message::IperfStart => 15,
            Message::IperfDone => 16,
            Message::AccessDenied => -1,
            Message::ServerError => -2,
        }
    }

    /// The byte that stands for the message.
    pub fn byte(self) -> (byte: u8)
        ensures
            byte == self.spec_byte(),
    {
        let code: i8 = self.code();
        if code >= 0 {
            code as u8
        } else {
            (256i16 + code as i16) as u8
        }
    }

    /// The message with the given code, if there is one.
    pub fn try_from(code: i8) -> (r: Result<Message, UnknownCode>)
        ensures
            match r {
                Ok(m) => m.spec_code() == code,
                Err(e) => e.code == code && forall|m: Message|
                    #![trigger m.spec_code()]
                    m.spec_code() != code,
            },
    {
        match code {
            1 => Ok(Message::TestStart),
            2 => Ok(Message::TestRunning),
            3 => Ok(Message::ResultRequest),
            4 => Ok(Message::TestEnd),
            5 => Ok(Message::StreamBegin),
            6 => Ok(Message::StreamRunning),
            7 => Ok(Message::StreamEnd),
            8 => Ok(Message::AllStreamsEnd),
            9 => Ok(Message::ParamExchange),
            10 => Ok(Message::CreateStreams),
            11 => Ok(Message::ServerTerminate),
            12 => Ok(Message::ClientTerminate),
            13 => Ok(Message::ExchangeResults),
            14 => Ok(Message::DisplayResults),
            15 => Ok(Message::IperfStart),
            16 => Ok(Message::IperfDone),
            -1 => Ok(Message::AccessDenied),
            -2 => Ok(Message::ServerError),
            _ => Err(UnknownCode { code }),
        }
    }

    /// The message that a byte of the control channel stands for.
    pub fn from_byte(byte: u8) -> (r: Result<Message, UnknownCode>)
        ensures
            match r {
                Ok(m) => m.spec_byte() == byte,
                Err(_) => forall|m: Message|
                    #![trigger m.spec_byte()]
                    m.spec_byte() != byte,
            },
    {
        let code: i8 = if byte < 128 {
            byte as i8
        } else {
            (byte as i16 - 256) as i8
        };
        let r = Message::try_from(code);
        proof {
            if r is Err {
                assert forall|m: Message| #[trigger] m.spec_byte() != byte by {
                    assert(m.spec_code() != code);
                }
            }
        }
        r
    }
}

/// No two messages share a code, and none share a byte: what one side sends
/// is what the other side reads.
pub proof fn messages_are_told_apart(a: Message, b: Message)
    ensures
        a.spec_code() == b.spec_code() ==> a == b,
        a.spec_byte() == b.spec_byte() ==> a == b,
{
}

} // verus!
