//! The header in front of every UDP datagram: 16 bytes, network byte order.
//!
//! - bytes 0..4: seconds of the sender's wall clock
//! - bytes 4..8: microseconds of the sender's wall clock
//! - bytes 8..16: sequence number, signed; a negative one ends the test

use vstd::prelude::*;

use super::big_endian::{be_bytes, be_value, push_be, read_be};
use super::error::{ErrorKind, IoError};

verus! {

pub const UDP_HEADER_LEN: usize = 16;

#[derive(Debug, Clone, Copy, PartialEq, Eq, Structural)]
pub struct UdpHeader {
    pub tv_sec: u32,
    pub tv_usec: u32,
    pub seq: i64,
}

/// A signed 64-bit number in two's complement, read as unsigned.
pub open spec fn twos_complement(n: i64) -> nat {
    if n >= 0 {
        n as nat
    } else {
        (n + 0x1_0000_0000_0000_0000) as nat
    }
}

/// An unsigned 64-bit number, read as two's complement.
pub open spec fn as_signed(n: nat) -> i64 {
    if n < 0x8000_0000_0000_0000 {
        n as i64
    } else {
        (n - 0x1_0000_0000_0000_0000) as i64
    }
}

/// The header at the front of a datagram.
pub open spec fn header_of(datagram: Seq<u8>) -> UdpHeader {
    UdpHeader {
        tv_sec: be_value(datagram.subrange(0, 4)) as u32,
        tv_usec: be_value(datagram.subrange(4, 8)) as u32,
        seq: as_signed(be_value(datagram.subrange(8, 16))),
    }
}

impl UdpHeader {
    /// The header on the wire.
    pub open spec fn on_wire(self) -> Seq<u8> {
        be_bytes(self.tv_sec as nat, 4) + be_bytes(self.tv_usec as nat, 4) + be_bytes(
            twos_complement(self.seq),
            8,
        )
    }

    /// Writes the header over the front of `out`.
    pub fn encode(self, out: &mut [u8]) -> (r: Result<(), IoError>)
        ensures
            r is Ok <==> old(out)@.len() >= UDP_HEADER_LEN,
            r is Ok ==> final(out)@ == self.on_wire() + old(out)@.skip(UDP_HEADER_LEN as int),
            r matches Err(e) ==> e.is(
                ErrorKind::InvalidInput,
                "buffer too small for UDP header"@,
            ) && final(out)@ == old(out)@,
    {
        if out.len() < UDP_HEADER_LEN {
            return Err(IoError::new(ErrorKind::InvalidInput, "buffer too small for UDP header"));
        }
        let seq: u64 = if self.seq >= 0 {
            self.seq as u64
        } else {
            (self.seq as i128 + 0x1_0000_0000_0000_0000i128) as u64
        };
        let mut header: Vec<u8> = Vec::new();
        push_be(&mut header, self.tv_sec as u64, 4);
        push_be(&mut header, self.tv_usec as u64, 4);
        push_be(&mut header, seq, 8);
        proof {
            self.on_wire_len();
            assert(header@ =~= self.on_wire());
        }
        let mut i: usize = 0;
        while i < UDP_HEADER_LEN
            invariant
                i <= UDP_HEADER_LEN,
                header@ == self.on_wire(),
                header@.len() == UDP_HEADER_LEN,
                out@.len() == old(out)@.len(),
                out@.len() >= UDP_HEADER_LEN,
                forall|j: int| 0 <= j < i ==> out@[j] == header@[j],
                forall|j: int| i <= j < out@.len() ==> out@[j] == old(out)@[j],
            decreases UDP_HEADER_LEN - i,
        {
            out[i] = header[i];
            i = i + 1;
        }
        proof {
            assert(out@ =~= self.on_wire() + old(out)@.skip(UDP_HEADER_LEN as int));
        }
        Ok(())
    }

    /// Reads the header at the front of a datagram.
    pub fn decode(buf: &[u8]) -> (r: Result<UdpHeader, IoError>)
        ensures
            r is Ok <==> buf@.len() >= UDP_HEADER_LEN,
            r matches Ok(h) ==> h == header_of(buf@) && h.on_wire() == buf@.take(
                UDP_HEADER_LEN as int,
            ),
            r matches Err(e) ==> e.is(
                ErrorKind::InvalidData,
                "datagram shorter than 16-byte UDP header"@,
            ),
    {
        if buf.len() < UDP_HEADER_LEN {
            return Err(
                IoError::new(ErrorKind::InvalidData, "datagram shorter than 16-byte UDP header"),
            );
        }
        let tv_sec: u64 = read_be(buf, 0, 4);
        let tv_usec: u64 = read_be(buf, 4, 4);
        let seq: u64 = read_be(buf, 8, 8);
        proof {
            super::big_endian::be_limits();
            super::big_endian::bytes_of_value(buf@.subrange(0, 4));
            super::big_endian::bytes_of_value(buf@.subrange(4, 8));
            super::big_endian::bytes_of_value(buf@.subrange(8, 16));
        }
        let signed: i64 = if seq < 0x8000_0000_0000_0000 {
            seq as i64
        } else {
            (seq as i128 - 0x1_0000_0000_0000_0000i128) as i64
        };
        let h = UdpHeader { tv_sec: tv_sec as u32, tv_usec: tv_usec as u32, seq: signed };
        proof {
            assert(buf@.take(16) =~= buf@.subrange(0, 4) + buf@.subrange(4, 8) + buf@.subrange(
                8,
                16,
            ));
        }
        Ok(h)
    }

    /// Whether the header ends the test.
    pub fn is_sentinel(&self) -> (b: bool)
        ensures
            b == (self.seq < 0),
    {
        self.seq < 0
    }

    /// A header takes 16 bytes.
    pub proof fn on_wire_len(self)
        ensures
            self.on_wire().len() == UDP_HEADER_LEN,
    {
        super::big_endian::be_bytes_len(self.tv_sec as nat, 4);
        super::big_endian::be_bytes_len(self.tv_usec as nat, 4);
        super::big_endian::be_bytes_len(twos_complement(self.seq), 8);
    }
}

/// A header in front of anything is read as it was written.
pub proof fn header_reads_back(h: UdpHeader, rest: Seq<u8>)
    ensures
        header_of(h.on_wire() + rest) == h,
{
    let d = h.on_wire() + rest;
    super::big_endian::be_limits();
    super::big_endian::be_bytes_len(h.tv_sec as nat, 4);
    super::big_endian::be_bytes_len(h.tv_usec as nat, 4);
    super::big_endian::be_bytes_len(twos_complement(h.seq), 8);
    assert(d.subrange(0, 4) =~= be_bytes(h.tv_sec as nat, 4));
    assert(d.subrange(4, 8) =~= be_bytes(h.tv_usec as nat, 4));
    assert(d.subrange(8, 16) =~= be_bytes(twos_complement(h.seq), 8));
    super::big_endian::value_of_bytes(h.tv_sec as nat, 4);
    super::big_endian::value_of_bytes(h.tv_usec as nat, 4);
    super::big_endian::value_of_bytes(twos_complement(h.seq), 8);
}

} // verus!
