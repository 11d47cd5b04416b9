//! Licensing, cut down to the one message that ends it: the license error that
//! tells a client it is valid.

use vstd::prelude::*;

use crate::bytes;
use crate::cursor;
use crate::cursor::{ReadCursor, WriteBuf};
use crate::headers;
use crate::headers::{BasicSecurityHeader, BasicSecurityHeaderFlags};
use crate::DecodeError;

verus! {

broadcast use bytes::group_bytes;

pub const PREAMBLE_ERROR_ALERT: u8 = 0xFF;

pub const PREAMBLE_VERSION_3: u8 = 3;

pub const STATUS_VALID_CLIENT: u32 = 0x0000_0007;

pub const ST_NO_TRANSITION: u32 = 0x0000_0002;

pub const BLOB_TYPE_ERROR: u16 = 0x0004;

/// Size of the message after the security header.
pub const MSG_SIZE: u16 = 16;

/// The message, security header included.
pub open spec fn valid_client_wire() -> Seq<u8> {
    BasicSecurityHeader { flags: BasicSecurityHeaderFlags::license_pkt() }.wire()
        + seq![PREAMBLE_ERROR_ALERT] + seq![PREAMBLE_VERSION_3] + bytes::le16(MSG_SIZE)
        + bytes::le32(STATUS_VALID_CLIENT) + bytes::le32(ST_NO_TRANSITION) + bytes::le16(
        BLOB_TYPE_ERROR,
    ) + bytes::le16(0)
}

pub fn encode_valid_client() -> (out: Vec<u8>)
    ensures
        out@ == valid_client_wire(),
{
    let mut out: Vec<u8> = Vec::new();
    BasicSecurityHeader { flags: BasicSecurityHeaderFlags::license_pkt() }.write(&mut out);
    out.write_u8(PREAMBLE_ERROR_ALERT);
    out.write_u8(PREAMBLE_VERSION_3);  // no flags
    out.write_u16_le(MSG_SIZE);
    out.write_u32_le(STATUS_VALID_CLIENT);
    out.write_u32_le(ST_NO_TRANSITION);
    out.write_u16_le(BLOB_TYPE_ERROR);
    out.write_u16_le(0);  // empty
    assert(out@ =~= valid_client_wire());
    out
}

/// Which message is accepted: the one that is sent, and no other. Flags, type,
/// status and the length of the error information are looked at first, in the
/// order in which they come.
pub open spec fn parse_valid_client(b: Seq<u8>) -> Result<(), DecodeError> {
    match headers::parse(b, 0) {
        Err(e) => Err(e),
        Ok((h, _)) => if !h.flags.contains(BasicSecurityHeaderFlags::license_pkt()) {
            Err(cursor::invalid("licensing.security_header.flags", "expected LICENSE_PKT set"))
        } else if b.len() < 5 {
            Err(cursor::short(b, 4, 1))
        } else if b[4] != PREAMBLE_ERROR_ALERT {
            Err(cursor::invalid("licensing.preamble.msg_type", "expected ErrorAlert"))
        } else if b.len() < 6 {
            Err(cursor::short(b, 5, 1))
        } else if b.len() < 8 {
            Err(cursor::short(b, 6, 2))
        } else if b.len() < 12 {
            Err(cursor::short(b, 8, 4))
        } else if bytes::u32_le_at(b, 8) != STATUS_VALID_CLIENT {
            Err(cursor::invalid("licensing.error_code", "expected STATUS_VALID_CLIENT"))
        } else if b.len() < 16 {
            Err(cursor::short(b, 12, 4))
        } else if b.len() < 18 {
            Err(cursor::short(b, 16, 2))
        } else if b.len() < 20 {
            Err(cursor::short(b, 18, 2))
        } else if bytes::u16_le_at(b, 18) != 0 {
            Err(
                cursor::invalid(
                    "licensing.error_info.blob_len",
                    "expected an empty error-info blob",
                ),
            )
        } else if b != valid_client_wire() {
            Err(cursor::invalid("licensing.message", "expected the Valid Client message"))
        } else {
            Ok(())
        },
    }
}

pub fn decode_valid_client(input: &[u8]) -> (r: Result<(), DecodeError>)
    ensures
        r == parse_valid_client(input@),
        r is Ok <==> input@ == valid_client_wire(),
{
    proof {
        law_valid_client_round_trip();
    }
    let mut cursor = ReadCursor::new(input);
    let header: BasicSecurityHeader = BasicSecurityHeader::decode(&mut cursor)?;
    if !header.flags.contains(BasicSecurityHeaderFlags::license_pkt()) {
        return Err(
            DecodeError::InvalidValue {
                field: "licensing.security_header.flags",
                reason: "expected LICENSE_PKT set",
            },
        );
    }
    let msg_type: u8 = cursor.take_u8()?;
    if msg_type != PREAMBLE_ERROR_ALERT {
        return Err(
            DecodeError::InvalidValue {
                field: "licensing.preamble.msg_type",
                reason: "expected ErrorAlert",
            },
        );
    }
    let _flags_and_version: u8 = cursor.take_u8()?;
    let _msg_size: u16 = cursor.take_u16_le()?;
    let error_code: u32 = cursor.take_u32_le()?;
    if error_code != STATUS_VALID_CLIENT {
        return Err(
            DecodeError::InvalidValue {
                field: "licensing.error_code",
                reason: "expected STATUS_VALID_CLIENT",
            },
        );
    }
    let _state_transition: u32 = cursor.take_u32_le()?;
    let _blob_type: u16 = cursor.take_u16_le()?;
    let blob_len: u16 = cursor.take_u16_le()?;
    if blob_len != 0 {
        return Err(
            DecodeError::InvalidValue {
                field: "licensing.error_info.blob_len",
                reason: "expected an empty error-info blob",
            },
        );
    }
    if !bytes::same(input, encode_valid_client().as_slice()) {
        return Err(
            DecodeError::InvalidValue {
                field: "licensing.message",
                reason: "expected the Valid Client message",
            },
        );
    }
    Ok(())
}

/// The message that is sent is accepted, and no other is.
pub proof fn law_valid_client_round_trip()
    ensures
        parse_valid_client(valid_client_wire()) == Ok::<(), DecodeError>(()),
        forall|b: Seq<u8>| #[trigger] parse_valid_client(b) is Ok ==> b == valid_client_wire(),
        valid_client_wire().len() == 4 + MSG_SIZE,
{
    broadcast use bytes::group_holds;

    bytes::lemma_holds_self(valid_client_wire());
    assert(0x80u16 & 0x80u16 == 0x80u16) by (bit_vector);
}

/// The message is always the same twenty bytes.
pub proof fn law_valid_client_bytes(out: Vec<u8>, input: &[u8], r: Result<(), DecodeError>)
    requires
        call_ensures(encode_valid_client, (), out),
        call_ensures(decode_valid_client, (input,), r),
    ensures
        out@ == seq![
            0x80u8,
            0,
            0,
            0,
            0xFF,
            3,
            16,
            0,
            7,
            0,
            0,
            0,
            2,
            0,
            0,
            0,
            4,
            0,
            0,
            0,
        ],
        r is Ok <==> input@ == out@,
{
    reveal(bytes::le16);
    reveal(bytes::le32);
    assert(out@ =~= seq![
        0x80u8,
        0,
        0,
        0,
        0xFF,
        3,
        16,
        0,
        7,
        0,
        0,
        0,
        2,
        0,
        0,
        0,
        4,
        0,
        0,
        0,
    ]);
}

} // verus!
