//! The security header that comes before client information and licensing.

use vstd::prelude::*;

use crate::bytes;
use crate::cursor;
use crate::cursor::{ReadCursor, WriteBuf};
use crate::DecodeError;

verus! {

broadcast use bytes::group_bytes;

#[derive(Debug, Clone, Copy, PartialEq, Eq, Default, Structural)]
pub struct BasicSecurityHeaderFlags(pub u16);

impl BasicSecurityHeaderFlags {
    #[verifier::allow_in_spec]
    pub fn encrypt() -> Self
        returns
            BasicSecurityHeaderFlags(0x0008),
    {
        BasicSecurityHeaderFlags(0x0008)
    }

    #[verifier::allow_in_spec]
    pub fn info_pkt() -> Self
        returns
            BasicSecurityHeaderFlags(0x0040),
    {
        BasicSecurityHeaderFlags(0x0040)
    }

    #[verifier::allow_in_spec]
    pub fn license_pkt() -> Self
        returns
            BasicSecurityHeaderFlags(0x0080),
    {
        BasicSecurityHeaderFlags(0x0080)
    }

    /// Whether every flag of `flag` is set.
    #[verifier::allow_in_spec]
    pub fn contains(self, flag: Self) -> bool
        returns
            self.0 & flag.0 == flag.0,
    {
        self.0 & flag.0 == flag.0
    }
}

impl core::ops::BitOr for BasicSecurityHeaderFlags {
    type Output = BasicSecurityHeaderFlags;

    fn bitor(self, rhs: Self) -> (r: BasicSecurityHeaderFlags) {
        BasicSecurityHeaderFlags(self.0 | rhs.0)
    }
}

impl vstd::std_specs::ops::BitOrSpecImpl for BasicSecurityHeaderFlags {
    open spec fn obeys_bitor_spec() -> bool {
        true
    }

    open spec fn bitor_req(self, rhs: Self) -> bool {
        true
    }

    open spec fn bitor_spec(self, rhs: Self) -> BasicSecurityHeaderFlags {
        BasicSecurityHeaderFlags(self.0 | rhs.0)
    }
}

#[derive(Debug, Clone, Copy, PartialEq, Eq)]
pub struct BasicSecurityHeader {
    pub flags: BasicSecurityHeaderFlags,
}

/// The header read at offset `p`, and the offset after it. The high half of the
/// flags is read and not used.
pub open spec fn parse(b: Seq<u8>, p: int) -> Result<(BasicSecurityHeader, int), DecodeError> {
    if p + 2 > b.len() {
        Err(cursor::short(b, p, 2))
    } else if p + 4 > b.len() {
        Err(cursor::short(b, p + 2, 2))
    } else {
        Ok(
            (
                BasicSecurityHeader {
                    flags: BasicSecurityHeaderFlags(bytes::u16_le_at(b, p)),
                },
                p + 4,
            ),
        )
    }
}

impl BasicSecurityHeader {
    pub const SIZE: usize = 4;

    pub open spec fn wire(self) -> Seq<u8> {
        bytes::le16(self.flags.0) + bytes::le16(0)
    }

    pub fn write(&self, out: &mut Vec<u8>)
        ensures
            final(out)@ == old(out)@ + self.wire(),
    {
        let ghost before = out@;
        out.write_u16_le(self.flags.0);
        out.write_u16_le(0);  // high half
        assert(out@ =~= before + self.wire());
    }

    pub fn decode(cursor: &mut ReadCursor<'_>) -> (r: Result<Self, DecodeError>)
        requires
            old(cursor).wf(),
        ensures
            final(cursor).wf(),
            final(cursor).data() == old(cursor).data(),
            cursor::reads(
                r,
                final(cursor).offset(),
                parse(old(cursor).data(), old(cursor).offset()),
            ),
    {
        let flags: BasicSecurityHeaderFlags = BasicSecurityHeaderFlags(cursor.take_u16_le()?);
        let _flags_hi: u16 = cursor.take_u16_le()?;
        Ok(Self { flags })
    }
}

/// Every header is read back as it was written.
pub proof fn law_round_trip(b: Seq<u8>, p: int, h: BasicSecurityHeader)
    requires
        bytes::holds_at(b, p, h.wire()),
    ensures
        parse(b, p) == Ok::<(BasicSecurityHeader, int), DecodeError>((h, p + 4)),
{
    broadcast use bytes::group_holds;

}

/// A security header is the flags and two bytes of zero; client information has the
/// flag 0x40 and licensing 0x80.
pub proof fn law_header_bytes(h: BasicSecurityHeader, b: Seq<u8>, p: int)
    requires
        0 <= p,
    ensures
        h.wire().len() == 4,
        bytes::u16_le_at(h.wire(), 0) == h.flags.0,
        h.wire()[2] == 0,
        h.wire()[3] == 0,
        BasicSecurityHeaderFlags::encrypt().0 == 8,
        BasicSecurityHeaderFlags::info_pkt().0 == 64,
        BasicSecurityHeaderFlags::license_pkt().0 == 128,
        h.flags.contains(BasicSecurityHeaderFlags::info_pkt()) <==> h.flags.0 / 64 % 2 == 1,
        h.flags.contains(BasicSecurityHeaderFlags::license_pkt()) <==> h.flags.0 / 128 % 2 == 1,
        parse(b, p) is Ok <==> p + 4 <= b.len(),
        parse(b, p) matches Ok((v, q)) ==> q == p + 4 && v.flags.0 == bytes::u16_le_at(b, p),
{
    reveal(bytes::le16);
    bytes::lemma_le16(h.flags.0);
    let x = h.flags.0;
    assert(x & 0x40 == 0x40 <==> x / 64 % 2 == 1) by (bit_vector);
    assert(x & 0x80 == 0x80 <==> x / 128 % 2 == 1) by (bit_vector);
}

} // verus!
