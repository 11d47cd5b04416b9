//! The header of a transport message: its own length, a code, and a fixed part
//! whose shape the code decides.

use vstd::prelude::*;

use crate::bytes;
use crate::cursor;
use crate::cursor::{ReadCursor, WriteBuf};
use crate::DecodeError;

verus! {

broadcast use bytes::group_bytes;

#[derive(Debug, Clone, Copy, PartialEq, Eq, Structural)]
pub struct TpduCode(pub u8);

impl TpduCode {
    #[verifier::allow_in_spec]
    pub fn connection_request() -> Self
        returns
            TpduCode(0xE0),
    {
        TpduCode(0xE0)
    }

    #[verifier::allow_in_spec]
    pub fn connection_confirm() -> Self
        returns
            TpduCode(0xD0),
    {
        TpduCode(0xD0)
    }

    #[verifier::allow_in_spec]
    pub fn data() -> Self
        returns
            TpduCode(0xF0),
    {
        TpduCode(0xF0)
    }

    /// Size of the fixed part, the length indicator included.
    pub open spec fn fixed_size(self) -> usize {
        if self == Self::data() {
            3
        } else {
            7
        }
    }

    fn header_fixed_part_size(self) -> (n: usize)
        ensures
            n == self.fixed_size(),
    {
        if self == Self::data() {
            3  // length indicator, code, end of transmission

        } else {
            7  // length indicator, code, two references, class

        }
    }
}

#[derive(Debug, PartialEq, Eq)]
pub struct TpduHeader {
    /// Length of the header in bytes, this byte not counted.
    pub li: u8,
    pub code: TpduCode,
}

/// The header read at offset `p`, and the offset after its fixed part.
pub open spec fn parse(b: Seq<u8>, p: int, expected: TpduCode) -> Result<
    (TpduHeader, int),
    DecodeError,
> {
    if p + 2 > b.len() {
        Err(cursor::short(b, p, 2))
    } else if TpduCode(b[p + 1]) != expected {
        Err(cursor::invalid("tpdu.code", "unexpected TPDU code"))
    } else if b[p] == 0xFF {
        Err(cursor::invalid("tpdu.li", "0xFF is reserved for X.224 extensions, unsupported"))
    } else if p + expected.fixed_size() > b.len() {
        Err(cursor::short(b, p + 2, expected.fixed_size() - 2))
    } else {
        Ok((TpduHeader { li: b[p], code: expected }, p + expected.fixed_size()))
    }
}

impl TpduHeader {
    pub open spec fn wire(self) -> Seq<u8> {
        seq![self.li] + seq![self.code.0] + if self.code == TpduCode::data() {
            seq![0x80u8]
        } else {
            bytes::zeros(5)
        }
    }

    /// How many bytes the length indicator announces after the fixed part,
    /// modulo the size of a machine word: one that is shorter than the fixed
    /// part announces more than can follow.
    pub open spec fn announced(self) -> usize {
        if self.li + 1 >= self.code.fixed_size() {
            (self.li + 1 - self.code.fixed_size()) as usize
        } else {
            (usize::MAX + 1 + self.li + 1 - self.code.fixed_size()) as usize
        }
    }

    /// The header of a message with `variable_part_len` bytes between the fixed
    /// part and the user data.
    pub fn for_pdu(code: TpduCode, variable_part_len: usize) -> (h: Self)
        ensures
            h.code == code,
            h.li == bytes::low8(code.fixed_size() - 1 + variable_part_len),
    {
        let low: u8 = bytes::len8(variable_part_len);
        let li: u8 = bytes::len8(code.header_fixed_part_size() - 1 + low as usize);
        Self { li, code }
    }

    /// How many bytes stand between the fixed part and the user data.
    pub fn variable_part_size(&self) -> (n: usize)
        requires
            self.li + 1 >= self.code.fixed_size(),
        ensures
            n == self.li + 1 - self.code.fixed_size(),
    {
        self.li as usize + 1 - self.code.header_fixed_part_size()
    }

    /// [`Self::variable_part_size`] of a header as it came off the wire.
    pub(crate) fn announced_size(&self) -> (n: usize)
        ensures
            n == self.announced(),
    {
        let fixed: usize = self.code.header_fixed_part_size();
        let total: usize = self.li as usize + 1;
        if total >= fixed {
            total - fixed
        } else {
            usize::MAX - (fixed - total - 1)
        }
    }

    pub fn write(&self, out: &mut Vec<u8>)
        ensures
            final(out)@ == old(out)@ + self.wire(),
    {
        let ghost before = out@;
        out.write_u8(self.li);
        out.write_u8(self.code.0);
        if self.code == TpduCode::data() {
            out.write_u8(0x80);  // end of transmission
        } else {
            proof {
                reveal(bytes::be16);
            }
            out.write_u16_be(0);  // destination reference
            out.write_u16_be(0);  // source reference
            out.write_u8(0);  // class 0
        }
        assert(out@ =~= before + self.wire());
    }

    pub fn decode(src: &mut ReadCursor<'_>, expected: TpduCode) -> (r: Result<Self, DecodeError>)
        requires
            old(src).wf(),
        ensures
            final(src).wf(),
            final(src).data() == old(src).data(),
            cursor::reads(
                r,
                final(src).offset(),
                parse(old(src).data(), old(src).offset(), expected),
            ),
    {
        match src.ensure(2) {
            Ok(_) => {},
            Err(e) => return Err(DecodeError::NotEnoughBytes(e)),
        }
        let li: u8 = src.take_u8()?;
        let code: TpduCode = TpduCode(src.take_u8()?);
        if code != expected {
            return Err(
                DecodeError::InvalidValue { field: "tpdu.code", reason: "unexpected TPDU code" },
            );
        }
        if li == 0xFF {
            return Err(
                DecodeError::InvalidValue {
                    field: "tpdu.li",
                    reason: "0xFF is reserved for X.224 extensions, unsupported",
                },
            );
        }
        // The length indicator and the code are read.
        src.skip(code.header_fixed_part_size() - 2)?;
        Ok(Self { li, code })
    }
}

/// Every header with a length indicator other than 0xFF is read back as it was
/// written.
pub proof fn law_round_trip(b: Seq<u8>, p: int, h: TpduHeader)
    requires
        h.li != 0xFF,
        bytes::holds_at(b, p, h.wire()),
    ensures
        parse(b, p, h.code) == Ok::<(TpduHeader, int), DecodeError>((h, p + h.code.fixed_size())),
{
    broadcast use bytes::group_holds;

}

/// A transport header is its length without that byte, its code, and for data one
/// byte that says it is the last, for the others five of zero. The codes are 0xE0
/// for a request, 0xD0 for its confirmation and 0xF0 for data.
pub proof fn law_header_bytes(h: TpduHeader, b: Seq<u8>, p: int, expected: TpduCode)
    requires
        0 <= p,
    ensures
        TpduCode::connection_request().0 == 0xE0,
        TpduCode::connection_confirm().0 == 0xD0,
        TpduCode::data().0 == 0xF0,
        h.code.0 == 0xF0 ==> h.wire() == seq![h.li, 0xF0u8, 0x80u8],
        h.code.0 != 0xF0 ==> h.wire() == seq![h.li, h.code.0, 0u8, 0u8, 0u8, 0u8, 0u8],
        parse(b, p, expected) is Ok <==> p + (if expected.0 == 0xF0 {
            3int
        } else {
            7
        }) <= b.len() && b[p + 1] == expected.0 && b[p] != 255,
        parse(b, p, expected) matches Ok((v, q)) ==> {
            &&& v.li == b[p]
            &&& v.code == expected
            &&& q == p + (if expected.0 == 0xF0 {
                3int
            } else {
                7
            })
        },
{
    if h.code.0 == 0xF0 {
        assert(h.wire() =~= seq![h.li, 0xF0u8, 0x80u8]);
    } else {
        assert(h.wire() =~= seq![h.li, h.code.0, 0u8, 0u8, 0u8, 0u8, 0u8]);
    }
}

/// A header counts what follows it up to the user data.
pub proof fn law_for_pdu(code: TpduCode, variable_part_len: usize, h: TpduHeader, n: usize)
    requires
        call_ensures(TpduHeader::for_pdu, (code, variable_part_len), h),
        call_ensures(TpduHeader::variable_part_size, (&h,), n),
        variable_part_len <= 249,
    ensures
        h.code == code,
        h.li == variable_part_len + (if code.0 == 0xF0 {
            2int
        } else {
            6
        }),
        n == variable_part_len,
{
}

} // verus!
