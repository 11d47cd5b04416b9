//! The share control header, and the exchange of capability sets: Demand Active
//! goes to a client, Confirm Active comes back.

use vstd::prelude::*;
use vstd::slice::slice_to_vec;

use crate::bytes;
use crate::cursor;
use crate::cursor::{ReadCursor, WriteBuf};
use crate::model;
use crate::DecodeError;

verus! {

broadcast use {bytes::group_bytes, model::lemma_views_push};

/// Stands in the type field of every share control header, above the type.
pub const SHARE_CONTROL_VERSION: u16 = 0x10;

#[derive(Debug, Clone, Copy, PartialEq, Eq, Structural)]
pub enum ShareControlPduType {
    DemandActive,
    ConfirmActive,
    DeactivateAll,
    Data,
}

impl ShareControlPduType {
    /// The number of the type on the wire.
    pub open spec fn code(self) -> u16 {
        match self {
            ShareControlPduType::DemandActive => 0x1,
            ShareControlPduType::ConfirmActive => 0x3,
            ShareControlPduType::DeactivateAll => 0x6,
            ShareControlPduType::Data => 0x7,
        }
    }

    /// The type with a number, where there is one.
    pub open spec fn of_code(value: u16) -> Option<ShareControlPduType> {
        if value == 0x1 {
            Some(ShareControlPduType::DemandActive)
        } else if value == 0x3 {
            Some(ShareControlPduType::ConfirmActive)
        } else if value == 0x6 {
            Some(ShareControlPduType::DeactivateAll)
        } else if value == 0x7 {
            Some(ShareControlPduType::Data)
        } else {
            None
        }
    }

    fn as_u16(self) -> (v: u16)
        ensures
            v == self.code(),
    {
        match self {
            ShareControlPduType::DemandActive => 0x1,
            ShareControlPduType::ConfirmActive => 0x3,
            ShareControlPduType::DeactivateAll => 0x6,
            ShareControlPduType::Data => 0x7,
        }
    }

    pub fn from_u16(value: u16) -> (r: Option<Self>)
        ensures
            r == Self::of_code(value),
    {
        match value {
            0x1 => Some(ShareControlPduType::DemandActive),
            0x3 => Some(ShareControlPduType::ConfirmActive),
            0x6 => Some(ShareControlPduType::DeactivateAll),
            0x7 => Some(ShareControlPduType::Data),
            _ => None,
        }
    }
}

#[derive(Debug, Clone, Copy, PartialEq, Eq)]
pub struct ShareControlHeader {
    pub pdu_type: ShareControlPduType,
    pub pdu_source: u16,
    pub share_id: u32,
}

/// How long a body is where the whole message has `total` bytes.
pub open spec fn body_after_header(total: u16) -> int {
    if total < 10 {
        0
    } else {
        total - 10
    }
}

/// The header at offset `p`, with the length it gives for the body, and the
/// offset after it.
pub open spec fn parse_header(b: Seq<u8>, p: int) -> Result<
    ((ShareControlHeader, usize), int),
    DecodeError,
> {
    if p + 2 > b.len() {
        Err(cursor::short(b, p, 2))
    } else if p + 4 > b.len() {
        Err(cursor::short(b, p + 2, 2))
    } else {
        let raw = bytes::u16_le_at(b, p + 2);
        if raw / 16 != 1 {
            Err(
                cursor::invalid(
                    "share_control_header.pdu_type",
                    "expected the fixed 0x10 version sentinel",
                ),
            )
        } else {
            match ShareControlPduType::of_code(raw % 16) {
                None => Err(
                    cursor::invalid("share_control_header.pdu_type", "unrecognized PDU type"),
                ),
                Some(pdu_type) => if p + 6 > b.len() {
                    Err(cursor::short(b, p + 4, 2))
                } else if p + 10 > b.len() {
                    Err(cursor::short(b, p + 6, 4))
                } else {
                    Ok(
                        (
                            (
                                ShareControlHeader {
                                    pdu_type,
                                    pdu_source: bytes::u16_le_at(b, p + 4),
                                    share_id: bytes::u32_le_at(b, p + 6),
                                },
                                body_after_header(bytes::u16_le_at(b, p)) as usize,
                            ),
                            p + 10,
                        ),
                    )
                },
            }
        }
    }
}

impl ShareControlHeader {
    pub const SIZE: usize = 10;

    /// The header of a message whose body has `body_len` bytes.
    pub open spec fn wire(self, body_len: int) -> Seq<u8> {
        bytes::le16(bytes::low16(body_len + 10)) + bytes::le16(
            (SHARE_CONTROL_VERSION + self.pdu_type.code()) as u16,
        ) + bytes::le16(self.pdu_source) + bytes::le32(self.share_id)
    }

    /// `body_len` counts everything after the header.
    pub fn write(&self, out: &mut Vec<u8>, body_len: usize)
        ensures
            final(out)@ == old(out)@ + self.wire(body_len as int),
    {
        let ghost before = out@;
        out.write_u16_le(bytes::len16_plus(body_len, 10));
        out.write_u16_le(SHARE_CONTROL_VERSION + self.pdu_type.as_u16());
        out.write_u16_le(self.pdu_source);
        out.write_u32_le(self.share_id);
        assert(out@ =~= before + self.wire(body_len as int));
    }

    /// The header, and how long it says the body is. A body may be longer than
    /// what a decoder takes from it: some clients pad.
    pub fn decode(cursor: &mut ReadCursor<'_>) -> (r: Result<(Self, usize), DecodeError>)
        requires
            old(cursor).wf(),
        ensures
            final(cursor).wf(),
            final(cursor).data() == old(cursor).data(),
            cursor::reads(
                r,
                final(cursor).offset(),
                parse_header(old(cursor).data(), old(cursor).offset()),
            ),
    {
        let total_length: u16 = cursor.take_u16_le()?;
        let raw_type: u16 = cursor.take_u16_le()?;
        if raw_type / 16 != 1 {
            return Err(
                DecodeError::InvalidValue {
                    field: "share_control_header.pdu_type",
                    reason: "expected the fixed 0x10 version sentinel",
                },
            );
        }
        let pdu_type: ShareControlPduType = match ShareControlPduType::from_u16(raw_type % 16) {
            Some(t) => t,
            None => {
                return Err(
                    DecodeError::InvalidValue {
                        field: "share_control_header.pdu_type",
                        reason: "unrecognized PDU type",
                    },
                );
            },
        };
        let pdu_source: u16 = cursor.take_u16_le()?;
        let share_id: u32 = cursor.take_u32_le()?;
        let body_len: usize = if total_length < 10 {
            0
        } else {
            (total_length - 10) as usize
        };
        Ok((Self { pdu_type, pdu_source, share_id }, body_len))
    }
}

/// Every header is read back as it was written, with the length of its body
/// where the whole message is shorter than 64 KiB.
pub proof fn law_header_round_trip(b: Seq<u8>, p: int, h: ShareControlHeader, body_len: int)
    requires
        0 <= body_len <= 0xFFFF - 10,
        bytes::holds_at(b, p, h.wire(body_len)),
    ensures
        parse_header(b, p) == Ok::<((ShareControlHeader, usize), int), DecodeError>(
            ((h, body_len as usize), p + 10),
        ),
{
    broadcast use bytes::group_holds;

}

pub const CAPSET_GENERAL: u16 = 0x01;

pub const CAPSET_BITMAP: u16 = 0x02;

pub const CAPSET_ORDER: u16 = 0x03;

pub const CAPSET_POINTER: u16 = 0x08;

pub const CAPSET_INPUT: u16 = 0x0D;

pub const CAPSET_VIRTUAL_CHANNEL: u16 = 0x14;

pub const CAPSET_MULTIFRAGMENT_UPDATE: u16 = 0x1A;

pub const CAPSET_BITMAP_CODECS: u16 = 0x1D;

/// One entry of a list of capability sets, whose body is not interpreted.
#[derive(Debug, Clone, PartialEq, Eq)]
pub struct RawCapabilitySet {
    pub set_type: u16,
    pub body: Vec<u8>,
}

pub struct RawCapabilitySetView {
    pub set_type: u16,
    pub body: Seq<u8>,
}

impl View for RawCapabilitySet {
    type V = RawCapabilitySetView;

    open spec fn view(&self) -> RawCapabilitySetView {
        RawCapabilitySetView { set_type: self.set_type, body: self.body@ }
    }
}

impl RawCapabilitySetView {
    pub open spec fn wire(self) -> Seq<u8> {
        bytes::le16(self.set_type) + bytes::le16(bytes::low16(4int + self.body.len())) + self.body
    }
}

/// The set at offset `p`, and the offset after it.
pub open spec fn parse_set(b: Seq<u8>, p: int) -> Result<(RawCapabilitySetView, int), DecodeError> {
    if p + 2 > b.len() {
        Err(cursor::short(b, p, 2))
    } else if p + 4 > b.len() {
        Err(cursor::short(b, p + 2, 2))
    } else {
        let length = bytes::u16_le_at(b, p + 2);
        let n = if length < 4 {
            0
        } else {
            length - 4
        };
        if p + 4 + n > b.len() {
            Err(cursor::short(b, p + 4, n))
        } else {
            Ok(
                (
                    RawCapabilitySetView {
                        set_type: bytes::u16_le_at(b, p),
                        body: b.subrange(p + 4, p + 4 + n),
                    },
                    p + 4 + n,
                ),
            )
        }
    }
}

impl RawCapabilitySet {
    pub fn write(&self, out: &mut Vec<u8>)
        ensures
            final(out)@ == old(out)@ + self@.wire(),
    {
        write_capset(out, self.set_type, self.body.as_slice());
    }

    pub fn decode(cursor: &mut ReadCursor<'_>) -> (r: Result<Self, DecodeError>)
        requires
            old(cursor).wf(),
        ensures
            final(cursor).wf(),
            final(cursor).data() == old(cursor).data(),
            cursor::reads_view(
                r,
                final(cursor).offset(),
                parse_set(old(cursor).data(), old(cursor).offset()),
            ),
    {
        let set_type: u16 = cursor.take_u16_le()?;
        let length: u16 = cursor.take_u16_le()?;
        let body_len: usize = if length < 4 {
            0
        } else {
            (length - 4) as usize
        };
        let body: Vec<u8> = slice_to_vec(cursor.take_slice(body_len)?);
        Ok(Self { set_type, body })
    }
}

fn write_capset(out: &mut Vec<u8>, set_type: u16, body: &[u8])
    ensures
        final(out)@ == old(out)@ + (RawCapabilitySetView { set_type, body: body@ }).wire(),
{
    let ghost before = out@;
    out.write_u16_le(set_type);
    out.write_u16_le(bytes::len16_plus(body.len(), 4));
    out.write_slice(body);
    assert(out@ =~= before + (RawCapabilitySetView { set_type, body: body@ }).wire());
}

/// Every set shorter than 64 KiB is read back as it was written.
pub proof fn law_set_round_trip(b: Seq<u8>, p: int, s: RawCapabilitySetView)
    requires
        s.body.len() <= 0xFFFF - 4,
        bytes::holds_at(b, p, s.wire()),
    ensures
        parse_set(b, p) == Ok::<(RawCapabilitySetView, int), DecodeError>((s, p + s.wire().len())),
{
    broadcast use bytes::group_holds;

}

/// The list of at most `n` sets from offset `p` on. It ends before the first
/// set that is cut short.
pub open spec fn listed(b: Seq<u8>, p: int, n: int) -> Seq<RawCapabilitySetView>
    decreases n,
{
    if n <= 0 {
        seq![]
    } else {
        match parse_set(b, p) {
            Err(_) => seq![],
            Ok((s, q)) => seq![s] + listed(b, q, n - 1),
        }
    }
}

/// Sets one after the other.
pub open spec fn list_wire(sets: Seq<RawCapabilitySetView>) -> Seq<u8>
    decreases sets.len(),
{
    if sets.len() == 0 {
        seq![]
    } else {
        sets[0].wire() + list_wire(sets.skip(1))
    }
}

proof fn lemma_list_wire_push(sets: Seq<RawCapabilitySetView>, s: RawCapabilitySetView)
    ensures
        list_wire(sets.push(s)) == list_wire(sets) + s.wire(),
    decreases sets.len(),
{
    if sets.len() == 0 {
        assert(sets.push(s).skip(1) =~= sets);
        assert(list_wire(sets.push(s)) =~= list_wire(sets) + s.wire());
    } else {
        assert(sets.push(s).skip(1) =~= sets.skip(1).push(s));
        lemma_list_wire_push(sets.skip(1), s);
        assert(list_wire(sets.push(s)) =~= list_wire(sets) + s.wire());
    }
}

/// A list of sets, each shorter than 64 KiB, is read back as it was written.
pub proof fn law_list_round_trip(b: Seq<u8>, p: int, sets: Seq<RawCapabilitySetView>)
    requires
        forall|i: int| 0 <= i < sets.len() ==> (#[trigger] sets[i]).body.len() <= 0xFFFF - 4,
        bytes::holds_at(b, p, list_wire(sets)),
    ensures
        listed(b, p, sets.len() as int) == sets,
    decreases sets.len(),
{
    if sets.len() > 0 {
        let rest = sets.skip(1);
        bytes::lemma_holds_add(b, p, sets[0].wire(), list_wire(rest));
        law_set_round_trip(b, p, sets[0]);
        law_list_round_trip(b, p + sets[0].wire().len(), rest);
        assert(sets =~= seq![sets[0]] + rest);
    } else {
        assert(listed(b, p, 0) =~= sets);
    }
}

fn flag8(b: bool) -> (v: u8)
    ensures
        v == (if b {
            1u8
        } else {
            0
        }),
{
    if b {
        1
    } else {
        0
    }
}

#[derive(Debug, Clone, Copy, PartialEq, Eq)]
pub struct GeneralCapability {
    pub extra_flags: u16,
    pub refresh_rect_support: bool,
    pub suppress_output_support: bool,
}

impl GeneralCapability {
    pub const FASTPATH_OUTPUT_SUPPORTED: u16 = 0x0001;

    /// Platform Windows NT, protocol version 0x0200, no compression.
    pub open spec fn wire(self) -> Seq<u8> {
        bytes::le16(1) + bytes::le16(3) + bytes::le16(0x0200) + bytes::le16(0) + bytes::le16(0)
            + bytes::le16(self.extra_flags) + bytes::le16(0) + bytes::le16(0) + bytes::le16(0)
            + seq![
            if self.refresh_rect_support {
                1u8
            } else {
                0
            },
        ] + seq![
            if self.suppress_output_support {
                1u8
            } else {
                0
            },
        ]
    }

    pub open spec fn parse(b: Seq<u8>) -> Result<GeneralCapability, DecodeError> {
        if b.len() < 10 {
            Err(cursor::short(b, (b.len() as int) / 2 * 2, 2))
        } else if bytes::u16_le_at(b, 8) != 0 {
            Err(cursor::invalid("general_capability.compression_types", "must be 0"))
        } else if b.len() < 18 {
            Err(cursor::short(b, (b.len() as int) / 2 * 2, 2))
        } else if b.len() < 20 {
            Err(cursor::short(b, b.len() as int, 1))
        } else {
            Ok(
                GeneralCapability {
                    extra_flags: bytes::u16_le_at(b, 10),
                    refresh_rect_support: b[18] != 0,
                    suppress_output_support: b[19] != 0,
                },
            )
        }
    }

    pub fn encode_body(&self) -> (out: Vec<u8>)
        ensures
            out@ == self.wire(),
    {
        let mut out: Vec<u8> = Vec::new();
        out.write_u16_le(1);  // platform
        out.write_u16_le(3);  // platform version
        out.write_u16_le(0x0200);  // protocol version
        out.write_u16_le(0);  // padding
        out.write_u16_le(0);  // compression types
        out.write_u16_le(self.extra_flags);
        out.write_u16_le(0);  // update capability
        out.write_u16_le(0);  // remote unshare
        out.write_u16_le(0);  // compression level
        out.write_u8(flag8(self.refresh_rect_support));
        out.write_u8(flag8(self.suppress_output_support));
        assert(out@ =~= self.wire());
        out
    }

    pub fn decode_body(body: &[u8]) -> (r: Result<Self, DecodeError>)
        ensures
            r == Self::parse(body@),
    {
        let mut cursor = ReadCursor::new(body);
        let _os_major_type: u16 = cursor.take_u16_le()?;
        let _os_minor_type: u16 = cursor.take_u16_le()?;
        let _protocol_version: u16 = cursor.take_u16_le()?;
        let _pad: u16 = cursor.take_u16_le()?;
        let compression_types: u16 = cursor.take_u16_le()?;
        if compression_types != 0 {
            return Err(
                DecodeError::InvalidValue {
                    field: "general_capability.compression_types",
                    reason: "must be 0",
                },
            );
        }
        let extra_flags: u16 = cursor.take_u16_le()?;
        let _update_capability_flag: u16 = cursor.take_u16_le()?;
        let _remote_unshare_flag: u16 = cursor.take_u16_le()?;
        let _general_compression_level: u16 = cursor.take_u16_le()?;
        let refresh_rect_support: bool = cursor.take_u8()? != 0;
        let suppress_output_support: bool = cursor.take_u8()? != 0;
        Ok(Self { extra_flags, refresh_rect_support, suppress_output_support })
    }
}

/// Every general capability is read back as it was written.
pub proof fn law_general_round_trip(c: GeneralCapability)
    ensures
        GeneralCapability::parse(c.wire()) == Ok::<GeneralCapability, DecodeError>(c),
        c.wire().len() == 20,
{
    broadcast use bytes::group_holds;

    bytes::lemma_holds_self(c.wire());
}

#[derive(Debug, Clone, Copy, PartialEq, Eq)]
pub struct BitmapCapability {
    pub preferred_bits_per_pixel: u16,
    pub desktop_width: u16,
    pub desktop_height: u16,
    pub desktop_resize_flag: bool,
}

impl BitmapCapability {
    pub open spec fn wire(self) -> Seq<u8> {
        bytes::le16(self.preferred_bits_per_pixel) + bytes::le16(1) + bytes::le16(1) + bytes::le16(
            1,
        ) + bytes::le16(self.desktop_width) + bytes::le16(self.desktop_height) + bytes::le16(0)
            + bytes::le16(
            if self.desktop_resize_flag {
                1
            } else {
                0
            },
        ) + bytes::le16(1) + seq![0u8] + seq![0u8] + bytes::le16(1) + bytes::le16(0)
    }

    pub open spec fn parse(b: Seq<u8>) -> Result<BitmapCapability, DecodeError> {
        if b.len() < 18 {
            Err(cursor::short(b, (b.len() as int) / 2 * 2, 2))
        } else if bytes::u16_le_at(b, 16) == 0 {
            Err(cursor::invalid("bitmap_capability.compression_flag", "must be nonzero"))
        } else if b.len() < 20 {
            Err(cursor::short(b, b.len() as int, 1))
        } else if b.len() < 24 {
            Err(cursor::short(b, (b.len() as int) / 2 * 2, 2))
        } else {
            Ok(
                BitmapCapability {
                    preferred_bits_per_pixel: bytes::u16_le_at(b, 0),
                    desktop_width: bytes::u16_le_at(b, 8),
                    desktop_height: bytes::u16_le_at(b, 10),
                    desktop_resize_flag: bytes::u16_le_at(b, 14) != 0,
                },
            )
        }
    }

    pub fn encode_body(&self) -> (out: Vec<u8>)
        ensures
            out@ == self.wire(),
    {
        let mut out: Vec<u8> = Vec::new();
        out.write_u16_le(self.preferred_bits_per_pixel);
        out.write_u16_le(1);  // one bit per pixel is taken
        out.write_u16_le(1);  // four bits per pixel are taken
        out.write_u16_le(1);  // eight bits per pixel are taken
        out.write_u16_le(self.desktop_width);
        out.write_u16_le(self.desktop_height);
        out.write_u16_le(0);  // padding
        out.write_u16_le(flag8(self.desktop_resize_flag) as u16);
        out.write_u16_le(1);  // bitmap compression
        out.write_u8(0);  // high color flags
        out.write_u8(0);  // drawing flags
        out.write_u16_le(1);  // multiple rectangles
        out.write_u16_le(0);  // padding
        assert(out@ =~= self.wire());
        out
    }

    pub fn decode_body(body: &[u8]) -> (r: Result<Self, DecodeError>)
        ensures
            r == Self::parse(body@),
    {
        let mut cursor = ReadCursor::new(body);
        let preferred_bits_per_pixel: u16 = cursor.take_u16_le()?;
        let _receive_1: u16 = cursor.take_u16_le()?;
        let _receive_4: u16 = cursor.take_u16_le()?;
        let _receive_8: u16 = cursor.take_u16_le()?;
        let desktop_width: u16 = cursor.take_u16_le()?;
        let desktop_height: u16 = cursor.take_u16_le()?;
        let _pad: u16 = cursor.take_u16_le()?;
        let desktop_resize_flag: bool = cursor.take_u16_le()? != 0;
        let compression_flag: u16 = cursor.take_u16_le()?;
        if compression_flag == 0 {
            return Err(
                DecodeError::InvalidValue {
                    field: "bitmap_capability.compression_flag",
                    reason: "must be nonzero",
                },
            );
        }
        let _high_color_flags: u8 = cursor.take_u8()?;
        let _drawing_flags: u8 = cursor.take_u8()?;
        let _multiple_rectangle_support: u16 = cursor.take_u16_le()?;
        let _pad2: u16 = cursor.take_u16_le()?;
        Ok(
            Self {
                preferred_bits_per_pixel,
                desktop_width,
                desktop_height,
                desktop_resize_flag,
            },
        )
    }
}

/// Every bitmap capability is read back as it was written.
pub proof fn law_bitmap_round_trip(c: BitmapCapability)
    ensures
        BitmapCapability::parse(c.wire()) == Ok::<BitmapCapability, DecodeError>(c),
        c.wire().len() == 24,
{
    broadcast use bytes::group_holds;

    bytes::lemma_holds_self(c.wire());
}

/// Drawing orders, of which none is offered.
#[derive(Debug, Clone, Copy, PartialEq, Eq)]
pub struct OrderCapability;

impl OrderCapability {
    /// Order flags 0x0002, which have to be set even where no order is
    /// supported, and otherwise zeros but for the granularities and the level.
    pub open spec fn wire(self) -> Seq<u8> {
        bytes::zeros(16) + bytes::le32(0) + bytes::le16(1) + bytes::le16(20) + bytes::le16(0)
            + bytes::le16(1) + bytes::le16(0) + bytes::le16(0x0002) + bytes::zeros(32)
            + bytes::le16(0) + bytes::le16(0) + bytes::le32(0) + bytes::le32(0) + bytes::le16(0)
            + bytes::le16(0) + bytes::le16(0) + bytes::le16(0)
    }

    pub open spec fn parse(b: Seq<u8>) -> Result<OrderCapability, DecodeError> {
        if b.len() < 84 {
            Err(
                cursor::invalid("order_capability", "body shorter than the fixed 84-byte layout"),
            )
        } else {
            Ok(OrderCapability)
        }
    }

    pub fn encode_body(&self) -> (out: Vec<u8>)
        ensures
            out@ == self.wire(),
    {
        let mut out: Vec<u8> = Vec::new();
        write_zeros(&mut out, 16);  // terminal descriptor
        out.write_u32_le(0);  // padding
        out.write_u16_le(1);  // desktop save granularity, across
        out.write_u16_le(20);  // desktop save granularity, down
        out.write_u16_le(0);  // padding
        out.write_u16_le(1);  // maximum order level
        out.write_u16_le(0);  // fonts
        out.write_u16_le(0x0002);  // order flags
        write_zeros(&mut out, 32);  // order support
        out.write_u16_le(0);  // text flags
        out.write_u16_le(0);  // order support, extended flags
        out.write_u32_le(0);  // padding
        out.write_u32_le(0);  // desktop save size
        out.write_u16_le(0);  // padding
        out.write_u16_le(0);  // padding
        out.write_u16_le(0);  // text code page
        out.write_u16_le(0);  // padding
        assert(out@ =~= self.wire());
        out
    }

    pub fn decode_body(body: &[u8]) -> (r: Result<Self, DecodeError>)
        ensures
            r == Self::parse(body@),
    {
        if body.len() < 84 {
            return Err(
                DecodeError::InvalidValue {
                    field: "order_capability",
                    reason: "body shorter than the fixed 84-byte layout",
                },
            );
        }
        Ok(OrderCapability)
    }
}

/// The order capability is read back as it was written.
pub proof fn law_order_round_trip(c: OrderCapability)
    ensures
        OrderCapability::parse(c.wire()) == Ok::<OrderCapability, DecodeError>(c),
        c.wire().len() == 84,
{
}

fn write_zeros(out: &mut Vec<u8>, n: usize)
    ensures
        final(out)@ == old(out)@ + bytes::zeros(n as nat),
{
    let ghost before = out@;
    let mut i: usize = 0;
    assert(out@ =~= before + bytes::zeros(0));
    while i < n
        invariant
            i <= n,
            out@ == before + bytes::zeros(i as nat),
        decreases n - i,
    {
        out.push(0);
        i = i + 1;
        assert(out@ =~= before + bytes::zeros(i as nat));
    }
}

#[derive(Debug, Clone, Copy, PartialEq, Eq)]
pub struct PointerCapability {
    pub color_pointer_cache_size: u16,
    pub pointer_cache_size: u16,
}

impl PointerCapability {
    pub open spec fn wire(self) -> Seq<u8> {
        bytes::le16(1) + bytes::le16(self.color_pointer_cache_size) + bytes::le16(
            self.pointer_cache_size,
        )
    }

    pub open spec fn parse(b: Seq<u8>) -> Result<PointerCapability, DecodeError> {
        if b.len() < 6 {
            Err(cursor::short(b, (b.len() as int) / 2 * 2, 2))
        } else {
            Ok(
                PointerCapability {
                    color_pointer_cache_size: bytes::u16_le_at(b, 2),
                    pointer_cache_size: bytes::u16_le_at(b, 4),
                },
            )
        }
    }

    pub fn encode_body(&self) -> (out: Vec<u8>)
        ensures
            out@ == self.wire(),
    {
        let mut out: Vec<u8> = Vec::new();
        out.write_u16_le(1);  // color pointers are taken
        out.write_u16_le(self.color_pointer_cache_size);
        out.write_u16_le(self.pointer_cache_size);
        assert(out@ =~= self.wire());
        out
    }

    pub fn decode_body(body: &[u8]) -> (r: Result<Self, DecodeError>)
        ensures
            r == Self::parse(body@),
    {
        let mut cursor = ReadCursor::new(body);
        let _color_pointer_flag: u16 = cursor.take_u16_le()?;
        let color_pointer_cache_size: u16 = cursor.take_u16_le()?;
        let pointer_cache_size: u16 = cursor.take_u16_le()?;
        Ok(Self { color_pointer_cache_size, pointer_cache_size })
    }
}

/// Every pointer capability is read back as it was written.
pub proof fn law_pointer_round_trip(c: PointerCapability)
    ensures
        PointerCapability::parse(c.wire()) == Ok::<PointerCapability, DecodeError>(c),
        c.wire().len() == 6,
{
    broadcast use bytes::group_holds;

    bytes::lemma_holds_self(c.wire());
}

#[derive(Debug, Clone, Copy, PartialEq, Eq)]
pub struct InputCapability {
    pub input_flags: u16,
    pub keyboard_layout: u32,
    pub keyboard_type: u32,
    pub keyboard_subtype: u32,
    pub keyboard_function_key: u32,
}

impl InputCapability {
    pub const SCANCODES: u16 = 0x0001;

    pub const MOUSEX: u16 = 0x0004;

    pub const FASTPATH_INPUT: u16 = 0x0008;

    pub const UNICODE: u16 = 0x0010;

    pub const FASTPATH_INPUT_2: u16 = 0x0020;

    pub open spec fn wire(self) -> Seq<u8> {
        bytes::le16(self.input_flags) + bytes::le16(0) + bytes::le32(self.keyboard_layout)
            + bytes::le32(self.keyboard_type) + bytes::le32(self.keyboard_subtype) + bytes::le32(
            self.keyboard_function_key,
        ) + bytes::zeros(64)
    }

    pub open spec fn parse(b: Seq<u8>) -> Result<InputCapability, DecodeError> {
        if b.len() < 4 {
            Err(cursor::short(b, (b.len() as int) / 2 * 2, 2))
        } else if b.len() < 20 {
            Err(cursor::short(b, (b.len() as int) / 4 * 4, 4))
        } else if b.len() < 84 {
            Err(cursor::short(b, 20, 64))
        } else {
            Ok(
                InputCapability {
                    input_flags: bytes::u16_le_at(b, 0),
                    keyboard_layout: bytes::u32_le_at(b, 4),
                    keyboard_type: bytes::u32_le_at(b, 8),
                    keyboard_subtype: bytes::u32_le_at(b, 12),
                    keyboard_function_key: bytes::u32_le_at(b, 16),
                },
            )
        }
    }

    pub fn encode_body(&self) -> (out: Vec<u8>)
        ensures
            out@ == self.wire(),
    {
        let mut out: Vec<u8> = Vec::new();
        out.write_u16_le(self.input_flags);
        out.write_u16_le(0);  // padding
        out.write_u32_le(self.keyboard_layout);
        out.write_u32_le(self.keyboard_type);
        out.write_u32_le(self.keyboard_subtype);
        out.write_u32_le(self.keyboard_function_key);
        write_zeros(&mut out, 64);  // input method file name
        assert(out@ =~= self.wire());
        out
    }

    pub fn decode_body(body: &[u8]) -> (r: Result<Self, DecodeError>)
        ensures
            r == Self::parse(body@),
    {
        let mut cursor = ReadCursor::new(body);
        let input_flags: u16 = cursor.take_u16_le()?;
        let _pad: u16 = cursor.take_u16_le()?;
        let keyboard_layout: u32 = cursor.take_u32_le()?;
        let keyboard_type: u32 = cursor.take_u32_le()?;
        let keyboard_subtype: u32 = cursor.take_u32_le()?;
        let keyboard_function_key: u32 = cursor.take_u32_le()?;
        let _ime_file_name: &[u8] = cursor.take_slice(64)?;
        Ok(
            Self {
                input_flags,
                keyboard_layout,
                keyboard_type,
                keyboard_subtype,
                keyboard_function_key,
            },
        )
    }
}

/// Every input capability is read back as it was written.
pub proof fn law_input_round_trip(c: InputCapability)
    ensures
        InputCapability::parse(c.wire()) == Ok::<InputCapability, DecodeError>(c),
        c.wire().len() == 84,
{
    broadcast use bytes::group_holds;

    bytes::lemma_holds_self(c.wire());
}

#[derive(Debug, Clone, Copy, PartialEq, Eq)]
pub struct VirtualChannelCapability {
    pub flags: u32,
}

impl VirtualChannelCapability {
    pub open spec fn wire(self) -> Seq<u8> {
        bytes::le32(self.flags)
    }

    pub open spec fn parse(b: Seq<u8>) -> Result<VirtualChannelCapability, DecodeError> {
        if b.len() < 4 {
            Err(cursor::short(b, 0, 4))
        } else {
            Ok(VirtualChannelCapability { flags: bytes::u32_le_at(b, 0) })
        }
    }

    pub fn encode_body(&self) -> (out: Vec<u8>)
        ensures
            out@ == self.wire(),
    {
        let mut out: Vec<u8> = Vec::new();
        out.write_u32_le(self.flags);
        assert(out@ =~= self.wire());
        out
    }

    pub fn decode_body(body: &[u8]) -> (r: Result<Self, DecodeError>)
        ensures
            r == Self::parse(body@),
    {
        let mut cursor = ReadCursor::new(body);
        let flags: u32 = cursor.take_u32_le()?;
        Ok(Self { flags })
    }
}

/// Every virtual channel capability is read back as it was written.
pub proof fn law_virtual_channel_round_trip(c: VirtualChannelCapability)
    ensures
        VirtualChannelCapability::parse(c.wire()) == Ok::<VirtualChannelCapability, DecodeError>(c),
        c.wire().len() == 4,
{
}

#[derive(Debug, Clone, Copy, PartialEq, Eq)]
pub struct MultiFragmentUpdateCapability {
    pub max_request_size: u32,
}

impl MultiFragmentUpdateCapability {
    pub open spec fn wire(self) -> Seq<u8> {
        bytes::le32(self.max_request_size)
    }

    pub open spec fn parse(b: Seq<u8>) -> Result<MultiFragmentUpdateCapability, DecodeError> {
        if b.len() < 4 {
            Err(cursor::short(b, 0, 4))
        } else {
            Ok(MultiFragmentUpdateCapability { max_request_size: bytes::u32_le_at(b, 0) })
        }
    }

    pub fn encode_body(&self) -> (out: Vec<u8>)
        ensures
            out@ == self.wire(),
    {
        let mut out: Vec<u8> = Vec::new();
        out.write_u32_le(self.max_request_size);
        assert(out@ =~= self.wire());
        out
    }

    pub fn decode_body(body: &[u8]) -> (r: Result<Self, DecodeError>)
        ensures
            r == Self::parse(body@),
    {
        let mut cursor = ReadCursor::new(body);
        let max_request_size: u32 = cursor.take_u32_le()?;
        Ok(Self { max_request_size })
    }
}

/// Every multifragment update capability is read back as it was written.
pub proof fn law_multifragment_round_trip(c: MultiFragmentUpdateCapability)
    ensures
        MultiFragmentUpdateCapability::parse(c.wire()) == Ok::<
            MultiFragmentUpdateCapability,
            DecodeError,
        >(c),
        c.wire().len() == 4,
{
}

/// Bitmap codecs, of which none is offered.
#[derive(Debug, Clone, Copy, PartialEq, Eq)]
pub struct BitmapCodecsCapability;

impl Default for BitmapCodecsCapability {
    fn default() -> Self {
        BitmapCodecsCapability
    }
}

impl BitmapCodecsCapability {
    /// No codec, and one byte more so that the set has an even length.
    pub open spec fn wire(self) -> Seq<u8> {
        seq![0u8, 0u8]
    }

    pub fn encode_body(&self) -> (out: Vec<u8>)
        ensures
            out@ == self.wire(),
    {
        vec![0, 0]
    }
}

/// The capability sets that go into a Demand Active message.
pub struct ServerCapabilities {
    pub general: GeneralCapability,
    pub bitmap: BitmapCapability,
    pub order: OrderCapability,
    pub pointer: PointerCapability,
    pub input: InputCapability,
    pub virtual_channel: VirtualChannelCapability,
    pub multifragment_update: MultiFragmentUpdateCapability,
    pub bitmap_codecs: BitmapCodecsCapability,
}

impl ServerCapabilities {
    /// The sets in the order in which they are sent.
    pub open spec fn sets(self) -> Seq<RawCapabilitySetView> {
        seq![
            RawCapabilitySetView { set_type: CAPSET_GENERAL, body: self.general.wire() },
            RawCapabilitySetView { set_type: CAPSET_BITMAP, body: self.bitmap.wire() },
            RawCapabilitySetView { set_type: CAPSET_ORDER, body: self.order.wire() },
            RawCapabilitySetView { set_type: CAPSET_POINTER, body: self.pointer.wire() },
            RawCapabilitySetView { set_type: CAPSET_INPUT, body: self.input.wire() },
            RawCapabilitySetView {
                set_type: CAPSET_VIRTUAL_CHANNEL,
                body: self.virtual_channel.wire(),
            },
            RawCapabilitySetView {
                set_type: CAPSET_MULTIFRAGMENT_UPDATE,
                body: self.multifragment_update.wire(),
            },
            RawCapabilitySetView {
                set_type: CAPSET_BITMAP_CODECS,
                body: self.bitmap_codecs.wire(),
            },
        ]
    }

    proof fn lemma_list(self)
        ensures
            list_wire(self.sets()) == list_wire(self.sets().take(7)) + self.sets()[7].wire(),
            list_wire(self.sets().take(7)) == self.sets()[0].wire() + self.sets()[1].wire()
                + self.sets()[2].wire() + self.sets()[3].wire() + self.sets()[4].wire()
                + self.sets()[5].wire() + self.sets()[6].wire(),
    {
        let s = self.sets();
        assert(s.take(0) =~= seq![]);
        assert(s.take(1) =~= s.take(0).push(s[0]));
        assert(s.take(2) =~= s.take(1).push(s[1]));
        assert(s.take(3) =~= s.take(2).push(s[2]));
        assert(s.take(4) =~= s.take(3).push(s[3]));
        assert(s.take(5) =~= s.take(4).push(s[4]));
        assert(s.take(6) =~= s.take(5).push(s[5]));
        assert(s.take(7) =~= s.take(6).push(s[6]));
        assert(s =~= s.take(7).push(s[7]));
        lemma_list_wire_push(s.take(0), s[0]);
        lemma_list_wire_push(s.take(1), s[1]);
        lemma_list_wire_push(s.take(2), s[2]);
        lemma_list_wire_push(s.take(3), s[3]);
        lemma_list_wire_push(s.take(4), s[4]);
        lemma_list_wire_push(s.take(5), s[5]);
        lemma_list_wire_push(s.take(6), s[6]);
        lemma_list_wire_push(s.take(7), s[7]);
        assert(list_wire(s.take(1)) =~= s[0].wire());
    }

    /// Writes the sets one after the other, and returns how many there are.
    pub fn write_list(&self, out: &mut Vec<u8>) -> (count: u16)
        ensures
            final(out)@ == old(out)@ + list_wire(self.sets()),
            count == self.sets().len(),
    {
        let ghost before = out@;
        write_capset(out, CAPSET_GENERAL, self.general.encode_body().as_slice());
        write_capset(out, CAPSET_BITMAP, self.bitmap.encode_body().as_slice());
        write_capset(out, CAPSET_ORDER, self.order.encode_body().as_slice());
        write_capset(out, CAPSET_POINTER, self.pointer.encode_body().as_slice());
        write_capset(out, CAPSET_INPUT, self.input.encode_body().as_slice());
        write_capset(out, CAPSET_VIRTUAL_CHANNEL, self.virtual_channel.encode_body().as_slice());
        write_capset(
            out,
            CAPSET_MULTIFRAGMENT_UPDATE,
            self.multifragment_update.encode_body().as_slice(),
        );
        write_capset(out, CAPSET_BITMAP_CODECS, self.bitmap_codecs.encode_body().as_slice());
        proof {
            self.lemma_list();
            assert(out@ =~= before + list_wire(self.sets()));
        }
        8
    }
}

pub struct DemandActive<'a> {
    pub share_id: u32,
    pub pdu_source: u16,
    pub capabilities: &'a ServerCapabilities,
}

/// What follows the header of a Demand Active message: an empty source name,
/// the sets, and session id 0.
pub open spec fn demand_active_body(capabilities: ServerCapabilities) -> Seq<u8> {
    let list = list_wire(capabilities.sets());
    bytes::le16(1) + bytes::le16(bytes::low16(4int + list.len())) + seq![0u8] + bytes::le16(
        capabilities.sets().len() as u16,
    ) + bytes::le16(0) + list + bytes::le32(0)
}

impl<'a> DemandActive<'a> {
    pub open spec fn header(self) -> ShareControlHeader {
        ShareControlHeader {
            pdu_type: ShareControlPduType::DemandActive,
            pdu_source: self.pdu_source,
            share_id: self.share_id,
        }
    }

    pub open spec fn wire(self) -> Seq<u8> {
        let body = demand_active_body(*self.capabilities);
        self.header().wire(body.len() as int) + body
    }

    pub fn encode(&self) -> (out: Vec<u8>)
        ensures
            out@ == self.wire(),
    {
        let mut capsets: Vec<u8> = Vec::new();
        let count: u16 = self.capabilities.write_list(&mut capsets);
        let mut body: Vec<u8> = Vec::new();
        body.write_u16_le(1);  // length of the source name, its NUL included
        body.write_u16_le(bytes::len16_plus(capsets.len(), 4));
        body.write_u8(0);  // source name
        body.write_u16_le(count);
        body.write_u16_le(0);  // padding
        body.write_slice(capsets.as_slice());
        body.write_u32_le(0);  // session id
        assert(capsets@ =~= list_wire(self.capabilities.sets()));
        assert(body@ =~= demand_active_body(*self.capabilities));
        let mut out: Vec<u8> = Vec::new();
        ShareControlHeader {
            pdu_type: ShareControlPduType::DemandActive,
            pdu_source: self.pdu_source,
            share_id: self.share_id,
        }.write(&mut out, body.len());
        out.write_slice(body.as_slice());
        assert(out@ =~= self.wire());
        out
    }
}

/// A Demand Active message announces its own length, and its eight sets can be
/// read back from it.
pub proof fn law_demand_active(d: DemandActive<'_>)
    ensures
        parse_header(d.wire(), 0) == Ok::<((ShareControlHeader, usize), int), DecodeError>(
            ((d.header(), (d.wire().len() - 10) as usize), 10),
        ),
        bytes::u16_le_at(d.wire(), 15) == 8,
        listed(d.wire(), 19, 8) == d.capabilities.sets(),
{
    let w = d.wire();
    let c = *d.capabilities;
    let list = list_wire(c.sets());
    let body = demand_active_body(c);
    law_general_round_trip(c.general);
    law_bitmap_round_trip(c.bitmap);
    law_order_round_trip(c.order);
    law_pointer_round_trip(c.pointer);
    law_input_round_trip(c.input);
    c.lemma_list();
    assert(list.len() == 260);
    bytes::lemma_holds_self(w);
    bytes::lemma_holds_add(w, 0, d.header().wire(body.len() as int), body);
    law_header_round_trip(w, 0, d.header(), body.len() as int);
    let f1 = bytes::le16(1) + bytes::le16(bytes::low16(4int + list.len())) + seq![0u8];
    let f2 = f1 + bytes::le16(c.sets().len() as u16);
    let f3 = f2 + bytes::le16(0);
    bytes::lemma_holds_add(w, 10, f3 + list, bytes::le32(0));
    bytes::lemma_holds_add(w, 10, f3, list);
    bytes::lemma_holds_add(w, 10, f2, bytes::le16(0));
    bytes::lemma_holds_add(w, 10, f1, bytes::le16(c.sets().len() as u16));
    bytes::lemma_holds_le16(w, 15, 8);
    law_list_round_trip(w, 19, c.sets());
}

/// Tells a client that its session is about to begin anew, with capabilities
/// yet to come.
pub struct DeactivateAllPdu {
    pub share_id: u32,
    pub pdu_source: u16,
}

impl DeactivateAllPdu {
    pub open spec fn header(self) -> ShareControlHeader {
        ShareControlHeader {
            pdu_type: ShareControlPduType::DeactivateAll,
            pdu_source: self.pdu_source,
            share_id: self.share_id,
        }
    }

    pub open spec fn wire(self) -> Seq<u8> {
        self.header().wire(2) + bytes::le16(0)
    }

    pub fn encode(&self) -> (out: Vec<u8>)
        ensures
            out@ == self.wire(),
    {
        let mut body: Vec<u8> = Vec::new();
        body.write_u16_le(0);  // length of the source name
        let mut out: Vec<u8> = Vec::new();
        ShareControlHeader {
            pdu_type: ShareControlPduType::DeactivateAll,
            pdu_source: self.pdu_source,
            share_id: self.share_id,
        }.write(&mut out, body.len());
        out.write_slice(body.as_slice());
        assert(out@ =~= self.wire());
        out
    }
}

/// A Deactivate All message has a header that can be read, and two bytes after
/// it.
pub proof fn law_deactivate_all(d: DeactivateAllPdu)
    ensures
        parse_header(d.wire(), 0) == Ok::<((ShareControlHeader, usize), int), DecodeError>(
            ((d.header(), 2), 10),
        ),
        d.wire().len() == 12,
{
    bytes::lemma_holds_self(d.wire());
    bytes::lemma_holds_add(d.wire(), 0, d.header().wire(2), bytes::le16(0));
    law_header_round_trip(d.wire(), 0, d.header(), 2);
}

#[derive(Debug, Clone, PartialEq, Eq)]
pub struct ConfirmActive {
    pub share_id: u32,
    pub pdu_source: u16,
    pub originator_id: u16,
    pub capabilities: Vec<RawCapabilitySet>,
}

pub struct ConfirmActiveView {
    pub share_id: u32,
    pub pdu_source: u16,
    pub originator_id: u16,
    pub capabilities: Seq<RawCapabilitySetView>,
}

impl View for ConfirmActive {
    type V = ConfirmActiveView;

    open spec fn view(&self) -> ConfirmActiveView {
        ConfirmActiveView {
            share_id: self.share_id,
            pdu_source: self.pdu_source,
            originator_id: self.originator_id,
            capabilities: model::views(self.capabilities@),
        }
    }
}

/// The sets of a Confirm Active message whose header ends at `p`. Where the
/// message is cut short, the sets that are there in whole.
pub open spec fn confirmed_sets(b: Seq<u8>, p: int) -> Seq<RawCapabilitySetView> {
    if p + 4 > b.len() {
        seq![]
    } else {
        let q = if p + 6 > b.len() {
            p + 4
        } else {
            p + 6
        };
        let name = bytes::u16_le_at(b, p + 2);
        let s = if q + name > b.len() {
            b.len() as int
        } else {
            q + name
        };
        if s + 4 > b.len() {
            seq![]
        } else {
            listed(b, s + 4, bytes::u16_le_at(b, s) as int)
        }
    }
}

pub open spec fn parse_confirm_active(b: Seq<u8>) -> Result<ConfirmActiveView, DecodeError> {
    match parse_header(b, 0) {
        Err(e) => Err(e),
        Ok(((h, _), p)) => if h.pdu_type != ShareControlPduType::ConfirmActive {
            Err(
                cursor::invalid(
                    "confirm_active.share_control_header.pdu_type",
                    "expected ConfirmActivePdu",
                ),
            )
        } else {
            Ok(
                ConfirmActiveView {
                    share_id: h.share_id,
                    pdu_source: h.pdu_source,
                    originator_id: if p + 2 > b.len() {
                        0
                    } else {
                        bytes::u16_le_at(b, p)
                    },
                    capabilities: confirmed_sets(b, p),
                },
            )
        },
    }
}

/// Takes up to `n` sets, and stops at the first that is cut short.
fn read_sets(cursor: &mut ReadCursor<'_>, n: u16) -> (sets: Vec<RawCapabilitySet>)
    requires
        old(cursor).wf(),
    ensures
        model::views(sets@) == listed(old(cursor).data(), old(cursor).offset(), n as int),
{
    let ghost b = cursor.data();
    let ghost all = listed(b, cursor.offset(), n as int);
    let mut sets: Vec<RawCapabilitySet> = Vec::new();
    let mut i: u16 = 0;
    assert(model::views(sets@) + all =~= all);
    while i < n
        invariant
            i <= n,
            cursor.wf(),
            cursor.data() == b,
            all == listed(old(cursor).data(), old(cursor).offset(), n as int),
            model::views(sets@) + listed(b, cursor.offset(), n - i) == all,
        decreases n - i,
    {
        let ghost had = model::views(sets@);
        match RawCapabilitySet::decode(cursor) {
            Ok(set) => {
                let ghost v = set@;
                sets.push(set);
                i = i + 1;
                assert(had.push(v) + listed(b, cursor.offset(), n - i) =~= had + (seq![v] + listed(
                    b,
                    cursor.offset(),
                    n - i,
                )));
            },
            Err(_) => {
                assert(had + Seq::<RawCapabilitySetView>::empty() =~= had);
                return sets;
            },
        }
    }
    assert(model::views(sets@) + listed(b, cursor.offset(), 0) =~= model::views(sets@));
    sets
}

impl ConfirmActive {
    /// Only the header can be refused: what follows it is taken as far as it
    /// goes, because some clients send it cut short.
    pub fn decode(input: &[u8]) -> (r: Result<Self, DecodeError>)
        ensures
            cursor::decodes_view(r, parse_confirm_active(input@)),
    {
        let mut cursor = ReadCursor::new(input);
        let (header, _body_len) = ShareControlHeader::decode(&mut cursor)?;
        if header.pdu_type != ShareControlPduType::ConfirmActive {
            return Err(
                DecodeError::InvalidValue {
                    field: "confirm_active.share_control_header.pdu_type",
                    reason: "expected ConfirmActivePdu",
                },
            );
        }
        let originator_id: u16 = match cursor.take_u16_le() {
            Ok(v) => v,
            Err(_) => 0,
        };
        let mut capabilities: Vec<RawCapabilitySet> = Vec::new();
        assert(model::views(capabilities@) =~= seq![]);
        match cursor.take_u16_le() {
            Ok(length_source_descriptor) => {
                let _ = cursor.take_u16_le();  // length of the list
                let left: usize = cursor.remaining();
                let take: usize = if (length_source_descriptor as usize) < left {
                    length_source_descriptor as usize
                } else {
                    left
                };
                let _ = cursor.take_slice(take);
                let number_capabilities: Result<u16, DecodeError> = cursor.take_u16_le();
                let padding: Result<u16, DecodeError> = cursor.take_u16_le();
                match (number_capabilities, padding) {
                    (Ok(n), Ok(_)) => {
                        capabilities = read_sets(&mut cursor, n);
                    },
                    _ => {},
                }
            },
            Err(_) => {},
        }
        Ok(
            Self {
                share_id: header.share_id,
                pdu_source: header.pdu_source,
                originator_id,
                capabilities,
            },
        )
    }
}

/// How long an update a client can take in parts: what the first of its
/// capability sets for that says which can be read.
pub open spec fn max_request_size(sets: Seq<RawCapabilitySetView>) -> Option<u32>
    decreases sets.len(),
{
    if sets.len() == 0 {
        None
    } else {
        let set = sets[0];
        if set.set_type == CAPSET_MULTIFRAGMENT_UPDATE
            && MultiFragmentUpdateCapability::parse(set.body) is Ok {
            Some(MultiFragmentUpdateCapability::parse(set.body)->Ok_0.max_request_size)
        } else {
            max_request_size(sets.skip(1))
        }
    }
}

/// How long an update a client can take in parts, where it says so.
pub fn parse_client_max_request_size(sets: &[RawCapabilitySet]) -> (r: Option<u32>)
    ensures
        r == max_request_size(model::views(sets@)),
{
    let ghost all = model::views(sets@);
    let n: usize = sets.len();
    let mut i: usize = 0;
    assert(all.skip(0) =~= all);
    while i < n
        invariant
            i <= n,
            n == sets@.len(),
            all == model::views(sets@),
            max_request_size(all) == max_request_size(all.skip(i as int)),
        decreases n - i,
    {
        assert(all.skip(i as int)[0] == sets@[i as int]@);
        assert(all.skip(i as int).skip(1) =~= all.skip(i + 1));
        if sets[i].set_type == CAPSET_MULTIFRAGMENT_UPDATE {
            match MultiFragmentUpdateCapability::decode_body(sets[i].body.as_slice()) {
                Ok(c) => {
                    return Some(c.max_request_size);
                },
                Err(_) => {},
            }
        }
        i = i + 1;
    }
    assert(all.skip(n as int).len() == 0);
    None
}

/// The general set has the extra flags in its bytes 10 and 11 and ends with two
/// bytes that say yes or no.
pub proof fn law_general_bytes(
    c: &GeneralCapability,
    out: Vec<u8>,
    body: &[u8],
    r: Result<GeneralCapability, DecodeError>,
)
    requires
        call_ensures(GeneralCapability::encode_body, (c,), out),
        call_ensures(GeneralCapability::decode_body, (body,), r),
    ensures
        out@.len() == 20,
        bytes::u16_le_at(out@, 0) == 1,
        bytes::u16_le_at(out@, 2) == 3,
        bytes::u16_le_at(out@, 4) == 512,
        bytes::u16_le_at(out@, 10) == c.extra_flags,
        out@[18] == 1 <==> c.refresh_rect_support,
        out@[18] == 0 <==> !c.refresh_rect_support,
        out@[19] == 1 <==> c.suppress_output_support,
        out@[19] == 0 <==> !c.suppress_output_support,
        forall|i: int| 6 <= i < 10 ==> #[trigger] out@[i] == 0,
        forall|i: int| 12 <= i < 18 ==> #[trigger] out@[i] == 0,
        r is Ok <==> body@.len() >= 20 && bytes::u16_le_at(body@, 8) == 0,
        r matches Ok(v) ==> v.extra_flags == bytes::u16_le_at(body@, 10),
        r matches Ok(v) ==> v.refresh_rect_support == (body@[18] != 0),
        r matches Ok(v) ==> v.suppress_output_support == (body@[19] != 0),
{
    bytes::law_number_bytes(0, 0, 0);
}

/// The bitmap set has the depth in its first two bytes, and the width and the
/// height of the desktop in bytes 8 and 9, and 10 and 11.
pub proof fn law_bitmap_bytes(
    c: &BitmapCapability,
    out: Vec<u8>,
    body: &[u8],
    r: Result<BitmapCapability, DecodeError>,
)
    requires
        call_ensures(BitmapCapability::encode_body, (c,), out),
        call_ensures(BitmapCapability::decode_body, (body,), r),
    ensures
        out@.len() == 24,
        bytes::u16_le_at(out@, 0) == c.preferred_bits_per_pixel,
        bytes::u16_le_at(out@, 2) == 1,
        bytes::u16_le_at(out@, 4) == 1,
        bytes::u16_le_at(out@, 6) == 1,
        bytes::u16_le_at(out@, 8) == c.desktop_width,
        bytes::u16_le_at(out@, 10) == c.desktop_height,
        bytes::u16_le_at(out@, 14) == 1 <==> c.desktop_resize_flag,
        bytes::u16_le_at(out@, 14) == 0 <==> !c.desktop_resize_flag,
        bytes::u16_le_at(out@, 16) == 1,
        bytes::u16_le_at(out@, 20) == 1,
        forall|i: int| 12 <= i < 14 ==> #[trigger] out@[i] == 0,
        forall|i: int| 18 <= i < 20 ==> #[trigger] out@[i] == 0,
        forall|i: int| 22 <= i < 24 ==> #[trigger] out@[i] == 0,
        r is Ok <==> body@.len() >= 24 && bytes::u16_le_at(body@, 16) != 0,
        r matches Ok(v) ==> v.preferred_bits_per_pixel == bytes::u16_le_at(body@, 0),
        r matches Ok(v) ==> v.desktop_width == bytes::u16_le_at(body@, 8),
        r matches Ok(v) ==> v.desktop_height == bytes::u16_le_at(body@, 10),
        r matches Ok(v) ==> v.desktop_resize_flag == (bytes::u16_le_at(
            body@,
            14,
        ) != 0),
{
    bytes::law_number_bytes(0, 0, 0);
}

/// The pointer set says that pointers have colors, and how many are kept.
pub proof fn law_pointer_bytes(
    c: &PointerCapability,
    out: Vec<u8>,
    body: &[u8],
    r: Result<PointerCapability, DecodeError>,
)
    requires
        call_ensures(PointerCapability::encode_body, (c,), out),
        call_ensures(PointerCapability::decode_body, (body,), r),
    ensures
        out@.len() == 6,
        bytes::u16_le_at(out@, 0) == 1,
        bytes::u16_le_at(out@, 2) == c.color_pointer_cache_size,
        bytes::u16_le_at(out@, 4) == c.pointer_cache_size,
        r is Ok <==> body@.len() >= 6,
        r matches Ok(v) ==> v.color_pointer_cache_size == bytes::u16_le_at(body@, 2),
        r matches Ok(v) ==> v.pointer_cache_size == bytes::u16_le_at(body@, 4),
{
}

/// The input set has the flags first, and what is known of the keyboard from its
/// fourth byte on.
pub proof fn law_input_bytes(
    c: &InputCapability,
    out: Vec<u8>,
    body: &[u8],
    r: Result<InputCapability, DecodeError>,
)
    requires
        call_ensures(InputCapability::encode_body, (c,), out),
        call_ensures(InputCapability::decode_body, (body,), r),
    ensures
        out@.len() == 84,
        bytes::u16_le_at(out@, 0) == c.input_flags,
        bytes::u32_le_at(out@, 4) == c.keyboard_layout,
        bytes::u32_le_at(out@, 8) == c.keyboard_type,
        bytes::u32_le_at(out@, 12) == c.keyboard_subtype,
        bytes::u32_le_at(out@, 16) == c.keyboard_function_key,
        forall|i: int| 2 <= i < 4 ==> #[trigger] out@[i] == 0,
        forall|i: int| 20 <= i < 84 ==> #[trigger] out@[i] == 0,
        r is Ok <==> body@.len() >= 84,
        r matches Ok(v) ==> v.input_flags == bytes::u16_le_at(body@, 0),
        r matches Ok(v) ==> v.keyboard_layout == bytes::u32_le_at(body@, 4),
        r matches Ok(v) ==> v.keyboard_type == bytes::u32_le_at(body@, 8),
        r matches Ok(v) ==> v.keyboard_subtype == bytes::u32_le_at(body@, 12),
        r matches Ok(v) ==> v.keyboard_function_key == bytes::u32_le_at(body@, 16),
{
    bytes::law_number_bytes(0, 0, 0);
}

/// The virtual channel set is one number.
pub proof fn law_virtual_channel_bytes(
    c: &VirtualChannelCapability,
    out: Vec<u8>,
    body: &[u8],
    r: Result<VirtualChannelCapability, DecodeError>,
)
    requires
        call_ensures(VirtualChannelCapability::encode_body, (c,), out),
        call_ensures(VirtualChannelCapability::decode_body, (body,), r),
    ensures
        out@.len() == 4,
        bytes::u32_le_at(out@, 0) == c.flags,
        r is Ok <==> body@.len() >= 4,
        r matches Ok(v) ==> v.flags == bytes::u32_le_at(body@, 0),
{
}

/// The set about updates in parts is one number.
pub proof fn law_multifragment_bytes(
    c: &MultiFragmentUpdateCapability,
    out: Vec<u8>,
    body: &[u8],
    r: Result<MultiFragmentUpdateCapability, DecodeError>,
)
    requires
        call_ensures(MultiFragmentUpdateCapability::encode_body, (c,), out),
        call_ensures(MultiFragmentUpdateCapability::decode_body, (body,), r),
    ensures
        out@.len() == 4,
        bytes::u32_le_at(out@, 0) == c.max_request_size,
        r is Ok <==> body@.len() >= 4,
        r matches Ok(v) ==> v.max_request_size == bytes::u32_le_at(body@, 0),
{
}

/// No drawing order is offered: all is zero but the granularities 1 and 20, the
/// level 1 and the flags 2.
pub proof fn law_order_bytes(
    c: &OrderCapability,
    out: Vec<u8>,
    body: &[u8],
    r: Result<OrderCapability, DecodeError>,
    codecs: &BitmapCodecsCapability,
    none: Vec<u8>,
)
    requires
        call_ensures(OrderCapability::encode_body, (c,), out),
        call_ensures(OrderCapability::decode_body, (body,), r),
        call_ensures(BitmapCodecsCapability::encode_body, (codecs,), none),
    ensures
        out@.len() == 84,
        bytes::u16_le_at(out@, 20) == 1,
        bytes::u16_le_at(out@, 22) == 20,
        bytes::u16_le_at(out@, 26) == 1,
        bytes::u16_le_at(out@, 30) == 2,
        forall|i: int| 0 <= i < 20 ==> #[trigger] out@[i] == 0,
        forall|i: int| 24 <= i < 26 ==> #[trigger] out@[i] == 0,
        forall|i: int| 28 <= i < 30 ==> #[trigger] out@[i] == 0,
        forall|i: int| 32 <= i < 84 ==> #[trigger] out@[i] == 0,
        r is Ok <==> body@.len() >= 84,
        none@ == seq![0u8, 0u8],
{
    bytes::law_number_bytes(0, 0, 0);
}

/// The four types of message have the numbers 1, 3, 6 and 7.
pub proof fn law_message_types(value: u16, t: Option<ShareControlPduType>)
    requires
        call_ensures(ShareControlPduType::from_u16, (value,), t),
    ensures
        t == Some(ShareControlPduType::DemandActive) <==> value == 1,
        t == Some(ShareControlPduType::ConfirmActive) <==> value == 3,
        t == Some(ShareControlPduType::DeactivateAll) <==> value == 6,
        t == Some(ShareControlPduType::Data) <==> value == 7,
{
}

/// A header gives the length of the whole message, the type with 16 added, the
/// sender and the share, in ten bytes.
pub proof fn law_header_bytes(h: ShareControlHeader, body_len: int, b: Seq<u8>, p: int)
    requires
        0 <= body_len <= 65525,
        0 <= p,
    ensures
        ({
            let w = h.wire(body_len);
            &&& w.len() == 10
            &&& bytes::u16_le_at(w, 0) == body_len + 10
            &&& bytes::u16_le_at(w, 2) == 16 + (match h.pdu_type {
                ShareControlPduType::DemandActive => 1int,
                ShareControlPduType::ConfirmActive => 3,
                ShareControlPduType::DeactivateAll => 6,
                ShareControlPduType::Data => 7,
            })
            &&& bytes::u16_le_at(w, 4) == h.pdu_source
            &&& bytes::u32_le_at(w, 6) == h.share_id
        }),
        parse_header(b, p) matches Ok(((v, n), q)) ==> {
            &&& q == p + 10 <= b.len()
            &&& bytes::u16_le_at(b, p + 2) == 16 + (match v.pdu_type {
                ShareControlPduType::DemandActive => 1int,
                ShareControlPduType::ConfirmActive => 3,
                ShareControlPduType::DeactivateAll => 6,
                ShareControlPduType::Data => 7,
            })
            &&& v.pdu_source == bytes::u16_le_at(b, p + 4)
            &&& v.share_id == bytes::u32_le_at(b, p + 6)
            &&& bytes::u16_le_at(b, p) >= 10 ==> n == bytes::u16_le_at(b, p) - 10
        },
        p + 10 <= b.len() && (bytes::u16_le_at(b, p + 2) == 17 || bytes::u16_le_at(b, p + 2) == 19
            || bytes::u16_le_at(b, p + 2) == 22 || bytes::u16_le_at(b, p + 2) == 23)
            ==> parse_header(b, p) is Ok,
{
}

/// A capability set is its type, its length with these four bytes, and its body.
pub proof fn law_set_bytes(set: RawCapabilitySetView, b: Seq<u8>, p: int)
    requires
        set.body.len() <= 65531,
        0 <= p,
    ensures
        set.wire().len() == 4 + set.body.len(),
        bytes::u16_le_at(set.wire(), 0) == set.set_type,
        bytes::u16_le_at(set.wire(), 2) == 4 + set.body.len(),
        set.wire().skip(4) == set.body,
        parse_set(b, p) matches Ok((v, q)) ==> {
            &&& v.set_type == bytes::u16_le_at(b, p)
            &&& bytes::u16_le_at(b, p + 2) >= 4 ==> q == p + bytes::u16_le_at(b, p + 2)
            &&& v.body == b.subrange(p + 4, q)
        },
{
    assert(set.wire().skip(4) =~= set.body);
}

/// A Demand Active message holds eight capability sets one after the other, each
/// at its place; the bitmap set has the size of the desktop.
#[verifier::rlimit(60)]
pub proof fn law_demand_active_layout(d: DemandActive<'_>)
    ensures
        d.wire().len() == 283,
        bytes::u16_le_at(d.wire(), 0) == 283,
        bytes::u16_le_at(d.wire(), 2) == 17,
        bytes::u16_le_at(d.wire(), 4) == d.pdu_source,
        bytes::u32_le_at(d.wire(), 6) == d.share_id,
        bytes::u16_le_at(d.wire(), 10) == 1,
        bytes::u16_le_at(d.wire(), 12) == 264,
        d.wire()[14] == 0,
        bytes::u16_le_at(d.wire(), 15) == 8,
        bytes::u16_le_at(d.wire(), 17) == 0,
        bytes::u16_le_at(d.wire(), 19) == 1,
        bytes::u16_le_at(d.wire(), 21) == 24,
        bytes::u16_le_at(d.wire(), 33) == d.capabilities.general.extra_flags,
        d.wire()[41] == 1 <==> d.capabilities.general.refresh_rect_support,
        d.wire()[42] == 1 <==> d.capabilities.general.suppress_output_support,
        bytes::u16_le_at(d.wire(), 43) == 2,
        bytes::u16_le_at(d.wire(), 45) == 28,
        bytes::u16_le_at(d.wire(), 47) == d.capabilities.bitmap.preferred_bits_per_pixel,
        bytes::u16_le_at(d.wire(), 55) == d.capabilities.bitmap.desktop_width,
        bytes::u16_le_at(d.wire(), 57) == d.capabilities.bitmap.desktop_height,
        bytes::u16_le_at(d.wire(), 61) == 1 <==> d.capabilities.bitmap.desktop_resize_flag,
        bytes::u16_le_at(d.wire(), 71) == 3,
        bytes::u16_le_at(d.wire(), 73) == 88,
        bytes::u16_le_at(d.wire(), 159) == 8,
        bytes::u16_le_at(d.wire(), 161) == 10,
        bytes::u16_le_at(d.wire(), 165) == d.capabilities.pointer.color_pointer_cache_size,
        bytes::u16_le_at(d.wire(), 167) == d.capabilities.pointer.pointer_cache_size,
        bytes::u16_le_at(d.wire(), 169) == 13,
        bytes::u16_le_at(d.wire(), 171) == 88,
        bytes::u16_le_at(d.wire(), 173) == d.capabilities.input.input_flags,
        bytes::u32_le_at(d.wire(), 177) == d.capabilities.input.keyboard_layout,
        bytes::u32_le_at(d.wire(), 181) == d.capabilities.input.keyboard_type,
        bytes::u32_le_at(d.wire(), 185) == d.capabilities.input.keyboard_subtype,
        bytes::u32_le_at(d.wire(), 189) == d.capabilities.input.keyboard_function_key,
        bytes::u16_le_at(d.wire(), 257) == 20,
        bytes::u16_le_at(d.wire(), 259) == 8,
        bytes::u32_le_at(d.wire(), 261) == d.capabilities.virtual_channel.flags,
        bytes::u16_le_at(d.wire(), 265) == 26,
        bytes::u16_le_at(d.wire(), 267) == 8,
        bytes::u32_le_at(d.wire(), 269) == d.capabilities.multifragment_update.max_request_size,
        bytes::u16_le_at(d.wire(), 273) == 29,
        bytes::u16_le_at(d.wire(), 275) == 6,
        bytes::u32_le_at(d.wire(), 279) == 0,
{
    let c = *d.capabilities;
    let list = list_wire(c.sets());
    lemma_list_is(c);
    assert(list.len() == 260);
    let body = demand_active_body(c);
    assert(body.len() == 273);
    let b = d.wire();
    let head = d.header().wire(273) + bytes::le16(1) + bytes::le16(264) + seq![0u8] + bytes::le16(8)
        + bytes::le16(0);
    assert(b =~= head + (list + bytes::le32(0)));
    assert(head.len() == 19);
    bytes::lemma_holds_self(b);
    bytes::lemma_holds_add(b, 0, head, list + bytes::le32(0));
    bytes::lemma_holds_add(b, 19, list, bytes::le32(0));
    lemma_sets_at(b, 19, c);
    lemma_head_at(b, d.header());
    bytes::lemma_holds_le32(b, 279, 0);
    lemma_general_at(b, 19, c.general);
    lemma_bitmap_at(b, 43, c.bitmap);
    lemma_order_at(b, 71, c.order);
    lemma_pointer_at(b, 159, c.pointer);
    lemma_input_at(b, 169, c.input);
    lemma_number_at(b, 257, 20, c.virtual_channel.flags);
    lemma_number_at(b, 265, 26, c.multifragment_update.max_request_size);
    lemma_codecs_at(b, 273, c.bitmap_codecs);
}

/// What is sent is that message.
pub proof fn law_demand_active_bytes(d: &DemandActive<'_>, out: Vec<u8>)
    requires
        call_ensures(DemandActive::encode, (d,), out),
    ensures
        out@.len() == 283,
        bytes::u16_le_at(out@, 0) == 283,
        bytes::u16_le_at(out@, 2) == 17,
        bytes::u16_le_at(out@, 4) == d.pdu_source,
        bytes::u32_le_at(out@, 6) == d.share_id,
        bytes::u16_le_at(out@, 10) == 1,
        bytes::u16_le_at(out@, 12) == 264,
        out@[14] == 0,
        bytes::u16_le_at(out@, 15) == 8,
        bytes::u16_le_at(out@, 17) == 0,
        bytes::u16_le_at(out@, 19) == 1,
        bytes::u16_le_at(out@, 21) == 24,
        bytes::u16_le_at(out@, 33) == d.capabilities.general.extra_flags,
        out@[41] == 1 <==> d.capabilities.general.refresh_rect_support,
        out@[42] == 1 <==> d.capabilities.general.suppress_output_support,
        bytes::u16_le_at(out@, 43) == 2,
        bytes::u16_le_at(out@, 45) == 28,
        bytes::u16_le_at(out@, 47) == d.capabilities.bitmap.preferred_bits_per_pixel,
        bytes::u16_le_at(out@, 55) == d.capabilities.bitmap.desktop_width,
        bytes::u16_le_at(out@, 57) == d.capabilities.bitmap.desktop_height,
        bytes::u16_le_at(out@, 61) == 1 <==> d.capabilities.bitmap.desktop_resize_flag,
        bytes::u16_le_at(out@, 71) == 3,
        bytes::u16_le_at(out@, 73) == 88,
        bytes::u16_le_at(out@, 159) == 8,
        bytes::u16_le_at(out@, 161) == 10,
        bytes::u16_le_at(out@, 165) == d.capabilities.pointer.color_pointer_cache_size,
        bytes::u16_le_at(out@, 167) == d.capabilities.pointer.pointer_cache_size,
        bytes::u16_le_at(out@, 169) == 13,
        bytes::u16_le_at(out@, 171) == 88,
        bytes::u16_le_at(out@, 173) == d.capabilities.input.input_flags,
        bytes::u32_le_at(out@, 177) == d.capabilities.input.keyboard_layout,
        bytes::u32_le_at(out@, 181) == d.capabilities.input.keyboard_type,
        bytes::u32_le_at(out@, 185) == d.capabilities.input.keyboard_subtype,
        bytes::u32_le_at(out@, 189) == d.capabilities.input.keyboard_function_key,
        bytes::u16_le_at(out@, 257) == 20,
        bytes::u16_le_at(out@, 259) == 8,
        bytes::u32_le_at(out@, 261) == d.capabilities.virtual_channel.flags,
        bytes::u16_le_at(out@, 265) == 26,
        bytes::u16_le_at(out@, 267) == 8,
        bytes::u32_le_at(out@, 269) == d.capabilities.multifragment_update.max_request_size,
        bytes::u16_le_at(out@, 273) == 29,
        bytes::u16_le_at(out@, 275) == 6,
        bytes::u32_le_at(out@, 279) == 0,
{
    law_demand_active_layout(*d);
}

proof fn lemma_head_at(b: Seq<u8>, h: ShareControlHeader)
    requires
        bytes::holds_at(
            b,
            0,
            h.wire(273) + bytes::le16(1) + bytes::le16(264) + seq![0u8] + bytes::le16(8)
                + bytes::le16(0),
        ),
        h.pdu_type == ShareControlPduType::DemandActive,
    ensures
        bytes::u16_le_at(b, 0) == 283,
        bytes::u16_le_at(b, 2) == 17,
        bytes::u16_le_at(b, 4) == h.pdu_source,
        bytes::u32_le_at(b, 6) == h.share_id,
        bytes::u16_le_at(b, 10) == 1,
        bytes::u16_le_at(b, 12) == 264,
        b[14] == 0,
        bytes::u16_le_at(b, 15) == 8,
        bytes::u16_le_at(b, 17) == 0,
{
    broadcast use bytes::group_holds;

}

/// The sets of a list stand one after the other.
proof fn lemma_sets_at(b: Seq<u8>, p: int, c: ServerCapabilities)
    requires
        bytes::holds_at(b, p, list_wire(c.sets())),
    ensures
        bytes::holds_at(b, p, c.sets()[0].wire()),
        bytes::holds_at(b, p + 24, c.sets()[1].wire()),
        bytes::holds_at(b, p + 52, c.sets()[2].wire()),
        bytes::holds_at(b, p + 140, c.sets()[3].wire()),
        bytes::holds_at(b, p + 150, c.sets()[4].wire()),
        bytes::holds_at(b, p + 238, c.sets()[5].wire()),
        bytes::holds_at(b, p + 246, c.sets()[6].wire()),
        bytes::holds_at(b, p + 254, c.sets()[7].wire()),
{
    lemma_list_is(c);
    let w = Seq::new(8, |i: int| c.sets()[i].wire());
    let t6 = w[6] + w[7];
    let t5 = w[5] + t6;
    let t4 = w[4] + t5;
    let t3 = w[3] + t4;
    let t2 = w[2] + t3;
    let t1 = w[1] + t2;
    assert(list_wire(c.sets()) == w[0] + t1);
    assert(w[0].len() == 24 && w[1].len() == 28 && w[2].len() == 88 && w[3].len() == 10);
    assert(w[4].len() == 88 && w[5].len() == 8 && w[6].len() == 8 && w[7].len() == 6);
    bytes::lemma_holds_add(b, p, w[0], t1);
    bytes::lemma_holds_add(b, p + 24, w[1], t2);
    bytes::lemma_holds_add(b, p + 52, w[2], t3);
    bytes::lemma_holds_add(b, p + 140, w[3], t4);
    bytes::lemma_holds_add(b, p + 150, w[4], t5);
    bytes::lemma_holds_add(b, p + 238, w[5], t6);
    bytes::lemma_holds_add(b, p + 246, w[6], w[7]);
}

proof fn lemma_general_at(b: Seq<u8>, p: int, c: GeneralCapability)
    requires
        bytes::holds_at(
            b,
            p,
            (RawCapabilitySetView { set_type: CAPSET_GENERAL, body: c.wire() }).wire(),
        ),
    ensures
        bytes::u16_le_at(b, p) == 1,
        bytes::u16_le_at(b, p + 2) == 24,
        bytes::u16_le_at(b, p + 14) == c.extra_flags,
        b[p + 22] == 1 <==> c.refresh_rect_support,
        b[p + 23] == 1 <==> c.suppress_output_support,
{
    broadcast use bytes::group_holds;

}

proof fn lemma_bitmap_at(b: Seq<u8>, p: int, c: BitmapCapability)
    requires
        bytes::holds_at(
            b,
            p,
            (RawCapabilitySetView { set_type: CAPSET_BITMAP, body: c.wire() }).wire(),
        ),
    ensures
        bytes::u16_le_at(b, p) == 2,
        bytes::u16_le_at(b, p + 2) == 28,
        bytes::u16_le_at(b, p + 4) == c.preferred_bits_per_pixel,
        bytes::u16_le_at(b, p + 12) == c.desktop_width,
        bytes::u16_le_at(b, p + 14) == c.desktop_height,
        bytes::u16_le_at(b, p + 18) == 1 <==> c.desktop_resize_flag,
{
    broadcast use bytes::group_holds;

}

proof fn lemma_order_at(b: Seq<u8>, p: int, c: OrderCapability)
    requires
        bytes::holds_at(
            b,
            p,
            (RawCapabilitySetView { set_type: CAPSET_ORDER, body: c.wire() }).wire(),
        ),
    ensures
        bytes::u16_le_at(b, p) == 3,
        bytes::u16_le_at(b, p + 2) == 88,
{
    broadcast use bytes::group_holds;

}

proof fn lemma_pointer_at(b: Seq<u8>, p: int, c: PointerCapability)
    requires
        bytes::holds_at(
            b,
            p,
            (RawCapabilitySetView { set_type: CAPSET_POINTER, body: c.wire() }).wire(),
        ),
    ensures
        bytes::u16_le_at(b, p) == 8,
        bytes::u16_le_at(b, p + 2) == 10,
        bytes::u16_le_at(b, p + 6) == c.color_pointer_cache_size,
        bytes::u16_le_at(b, p + 8) == c.pointer_cache_size,
{
    broadcast use bytes::group_holds;

}

proof fn lemma_input_at(b: Seq<u8>, p: int, c: InputCapability)
    requires
        bytes::holds_at(
            b,
            p,
            (RawCapabilitySetView { set_type: CAPSET_INPUT, body: c.wire() }).wire(),
        ),
    ensures
        bytes::u16_le_at(b, p) == 13,
        bytes::u16_le_at(b, p + 2) == 88,
        bytes::u16_le_at(b, p + 4) == c.input_flags,
        bytes::u32_le_at(b, p + 8) == c.keyboard_layout,
        bytes::u32_le_at(b, p + 12) == c.keyboard_type,
        bytes::u32_le_at(b, p + 16) == c.keyboard_subtype,
        bytes::u32_le_at(b, p + 20) == c.keyboard_function_key,
{
    broadcast use bytes::group_holds;

}

proof fn lemma_codecs_at(b: Seq<u8>, p: int, c: BitmapCodecsCapability)
    requires
        bytes::holds_at(
            b,
            p,
            (RawCapabilitySetView { set_type: CAPSET_BITMAP_CODECS, body: c.wire() }).wire(),
        ),
    ensures
        bytes::u16_le_at(b, p) == 29,
        bytes::u16_le_at(b, p + 2) == 6,
{
    broadcast use bytes::group_holds;

}

proof fn lemma_number_at(b: Seq<u8>, p: int, set_type: u16, v: u32)
    requires
        bytes::holds_at(b, p, (RawCapabilitySetView { set_type, body: bytes::le32(v) }).wire()),
    ensures
        bytes::u16_le_at(b, p) == set_type,
        bytes::u16_le_at(b, p + 2) == 8,
        bytes::u32_le_at(b, p + 4) == v,
{
    broadcast use bytes::group_holds;

}

proof fn lemma_list_is(c: ServerCapabilities)
    ensures
        list_wire(c.sets()) == c.sets()[0].wire() + (c.sets()[1].wire() + (c.sets()[2].wire() + (
        c.sets()[3].wire() + (c.sets()[4].wire() + (c.sets()[5].wire() + (c.sets()[6].wire()
            + c.sets()[7].wire())))))),
{
    let all = c.sets();
    reveal_with_fuel(list_wire, 9);
    assert(all.skip(1).skip(1) =~= all.skip(2));
    assert(all.skip(2).skip(1) =~= all.skip(3));
    assert(all.skip(3).skip(1) =~= all.skip(4));
    assert(all.skip(4).skip(1) =~= all.skip(5));
    assert(all.skip(5).skip(1) =~= all.skip(6));
    assert(all.skip(6).skip(1) =~= all.skip(7));
    assert(all.skip(7).skip(1) =~= all.skip(8));
    assert(all[7].wire() + Seq::<u8>::empty() =~= all[7].wire());
}

/// A Deactivate All message is twelve bytes, of which the last two are zero.
pub proof fn law_deactivate_all_bytes(d: &DeactivateAllPdu, out: Vec<u8>)
    requires
        call_ensures(DeactivateAllPdu::encode, (d,), out),
    ensures
        out@.len() == 12,
        bytes::u16_le_at(out@, 0) == 12,
        bytes::u16_le_at(out@, 2) == 22,
        bytes::u16_le_at(out@, 4) == d.pdu_source,
        bytes::u32_le_at(out@, 6) == d.share_id,
        bytes::u16_le_at(out@, 10) == 0,
{
}

/// What a client confirms begins with a header of type 3; after it come the
/// originator, the length of the source name and the length of the sets, the name,
/// and how many sets there are, two bytes that do not count, and the sets.
pub proof fn law_confirm_active_bytes(input: &[u8], r: Result<ConfirmActive, DecodeError>)
    requires
        call_ensures(ConfirmActive::decode, (input,), r),
    ensures
        input@.len() >= 10 ==> (r is Ok <==> bytes::u16_le_at(input@, 2) == 19),
        r is Ok ==> {
            &&& input@.len() >= 10
            &&& r->Ok_0.pdu_source == bytes::u16_le_at(input@, 4)
            &&& r->Ok_0.share_id == bytes::u32_le_at(input@, 6)
            &&& input@.len() >= 12 ==> r->Ok_0.originator_id == bytes::u16_le_at(input@, 10)
            &&& input@.len() >= 16 ==> ({
                let q = 16 + bytes::u16_le_at(input@, 12);
                q + 4 <= input@.len() ==> model::views(r->Ok_0.capabilities@) == listed(
                    input@,
                    q + 4,
                    bytes::u16_le_at(input@, q) as int,
                )
            })
        },
{
}

/// The sets of a list are read one after the other, until there are as many as
/// wanted or one is cut short.
pub proof fn law_listed(b: Seq<u8>, p: int, n: int)
    ensures
        n <= 0 ==> listed(b, p, n).len() == 0,
        parse_set(b, p) is Err ==> listed(b, p, n).len() == 0,
        n > 0 && parse_set(b, p) is Ok ==> {
            &&& listed(b, p, n).len() >= 1
            &&& listed(b, p, n)[0] == parse_set(b, p)->Ok_0.0
            &&& listed(b, p, n).skip(1) == listed(b, parse_set(b, p)->Ok_0.1, n - 1)
        },
{
    if n > 0 && parse_set(b, p) is Ok {
        assert(listed(b, p, n).skip(1) =~= listed(b, parse_set(b, p)->Ok_0.1, n - 1));
    }
}

/// How long an update a client takes in parts is in the first set of type 26
/// that has four bytes.
pub proof fn law_client_max_request_size(sets: &[RawCapabilitySet], r: Option<u32>, i: int)
    requires
        call_ensures(parse_client_max_request_size, (sets,), r),
        0 <= i <= sets@.len(),
        forall|j: int|
            0 <= j < i ==> (#[trigger] sets@[j]).set_type != 26 || sets@[j].body@.len() < 4,
        i < sets@.len() ==> sets@[i].set_type == 26 && sets@[i].body@.len() >= 4,
    ensures
        i == sets@.len() ==> r is None,
        i < sets@.len() ==> r == Some(bytes::u32_le_at(sets@[i].body@, 0)),
{
    let views = model::views(sets@);
    assert forall|j: int| 0 <= j < i implies (#[trigger] views[j]).set_type != 26
        || views[j].body.len() < 4 by {
        assert(views[j] == sets@[j]@);
    }
    lemma_max_request_size(views, i);
}

proof fn lemma_max_request_size(sets: Seq<RawCapabilitySetView>, i: int)
    requires
        0 <= i <= sets.len(),
        forall|j: int| 0 <= j < i ==> (#[trigger] sets[j]).set_type != 26 || sets[j].body.len() < 4,
        i < sets.len() ==> sets[i].set_type == 26 && sets[i].body.len() >= 4,
    ensures
        max_request_size(sets) == (if i < sets.len() {
            Some(bytes::u32_le_at(sets[i].body, 0))
        } else {
            None
        }),
    decreases sets.len(),
{
    if i > 0 {
        assert(sets[0].set_type != 26 || sets[0].body.len() < 4);
        let rest = sets.skip(1);
        assert forall|j: int| 0 <= j < i - 1 implies (#[trigger] rest[j]).set_type != 26
            || rest[j].body.len() < 4 by {
            assert(rest[j] == sets[j + 1]);
        }
        lemma_max_request_size(rest, i - 1);
    }
}

/// The message that deactivates a client is twelve bytes.
pub proof fn law_deactivate_all_layout(d: DeactivateAllPdu)
    ensures
        d.wire().len() == 12,
        bytes::u16_le_at(d.wire(), 0) == 12,
        bytes::u16_le_at(d.wire(), 2) == 22,
        bytes::u16_le_at(d.wire(), 4) == d.pdu_source,
        bytes::u32_le_at(d.wire(), 6) == d.share_id,
        bytes::u16_le_at(d.wire(), 10) == 0,
{
}

} // verus!
