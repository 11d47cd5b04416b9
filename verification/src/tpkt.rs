//! The four-byte packet header around every transport message: version 3, a
//! reserved byte, and the length of the whole packet, high byte first.

use vstd::prelude::*;

use crate::bytes;
use crate::cursor;
use crate::cursor::{ReadCursor, WriteBuf};
use crate::DecodeError;

verus! {

broadcast use bytes::group_bytes;

pub const VERSION: u8 = 3;

pub const HEADER_SIZE: usize = 4;

#[derive(Debug, Clone, Copy, PartialEq, Eq)]
pub struct TpktHeader {
    /// Length of the packet in bytes, this header included.
    pub packet_length: u16,
}

/// The header read at offset `p`, and the offset after it.
pub open spec fn parse(b: Seq<u8>, p: int) -> Result<(TpktHeader, int), DecodeError> {
    if p + 4 > b.len() {
        Err(cursor::short(b, p, 4))
    } else if b[p] != VERSION {
        Err(cursor::invalid("tpkt.version", "unsupported TPKT version"))
    } else {
        Ok((TpktHeader { packet_length: bytes::u16_be_at(b, p + 2) }, p + 4))
    }
}

impl TpktHeader {
    pub open spec fn wire(self) -> Seq<u8> {
        seq![VERSION] + seq![0u8] + bytes::be16(self.packet_length)
    }

    pub fn write(&self, out: &mut Vec<u8>)
        ensures
            final(out)@ == old(out)@ + self.wire(),
    {
        let ghost before = out@;
        out.write_u8(VERSION);
        out.write_u8(0);  // reserved
        out.write_u16_be(self.packet_length);
        assert(out@ =~= before + self.wire());
    }

    pub fn decode(src: &mut ReadCursor<'_>) -> (r: Result<Self, DecodeError>)
        requires
            old(src).wf(),
        ensures
            final(src).wf(),
            final(src).data() == old(src).data(),
            cursor::reads(r, final(src).offset(), parse(old(src).data(), old(src).offset())),
    {
        match src.ensure(HEADER_SIZE) {
            Ok(_) => {},
            Err(e) => return Err(DecodeError::NotEnoughBytes(e)),
        }
        let version: u8 = src.take_u8()?;
        if version != VERSION {
            return Err(
                DecodeError::InvalidValue {
                    field: "tpkt.version",
                    reason: "unsupported TPKT version",
                },
            );
        }
        src.advance(1);  // reserved
        let packet_length: u16 = src.take_u16_be()?;
        Ok(Self { packet_length })
    }
}

/// Every header is read back as it was written.
pub proof fn law_round_trip(b: Seq<u8>, p: int, h: TpktHeader)
    requires
        bytes::holds_at(b, p, h.wire()),
    ensures
        parse(b, p) == Ok::<(TpktHeader, int), DecodeError>((h, p + 4)),
{
    broadcast use bytes::group_holds;

}

/// A packet begins with 3 and 0, and its length, high byte first.
pub proof fn law_header_bytes(h: TpktHeader, b: Seq<u8>, p: int)
    requires
        0 <= p,
    ensures
        h.wire() == seq![
            3u8,
            0u8,
            (h.packet_length / 256) as u8,
            (h.packet_length % 256) as u8,
        ],
        parse(b, p) is Ok <==> p + 4 <= b.len() && b[p] == 3,
        parse(b, p) matches Ok((v, q)) ==> q == p + 4 && v.packet_length == 256 * b[p + 2] + b[p
            + 3],
{
    reveal(bytes::be16);
    bytes::law_byte_order(b, p + 2);
    assert(h.wire() =~= seq![
        3u8,
        0u8,
        (h.packet_length / 256) as u8,
        (h.packet_length % 256) as u8,
    ]);
}

} // verus!
