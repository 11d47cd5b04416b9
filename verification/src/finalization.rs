//! The share data header, and the messages that end the connection sequence:
//! Synchronize, Control, Font List and Font Map, Save Session Info. With them
//! come the two by which a client steers display updates.

use vstd::prelude::*;
use vstd::slice::slice_to_vec;

use crate::bytes;
use crate::capability_sets;
use crate::capability_sets::{ShareControlHeader, ShareControlPduType};
use crate::cursor;
use crate::cursor::{ReadCursor, WriteBuf};
use crate::DecodeError;

verus! {

broadcast use bytes::group_bytes;

#[derive(Debug, Clone, Copy, PartialEq, Eq, Structural)]
pub enum ShareDataPduType {
    Synchronize,
    Control,
    FontList,
    FontMap,
    /// From a client: draw some areas again.
    RefreshRect,
    /// From a client: stop or resume display updates.
    SuppressOutput,
    /// To a client only: a received one is not recognized.
    SaveSessionInfo,
}

impl ShareDataPduType {
    /// The number of the type on the wire.
    pub open spec fn code(self) -> u8 {
        match self {
            ShareDataPduType::Control => 0x14,
            ShareDataPduType::FontList => 0x27,
            ShareDataPduType::FontMap => 0x28,
            ShareDataPduType::Synchronize => 0x1F,
            ShareDataPduType::RefreshRect => 0x21,
            ShareDataPduType::SuppressOutput => 0x23,
            ShareDataPduType::SaveSessionInfo => 0x26,
        }
    }

    /// The type that a received number stands for, where it stands for one.
    pub open spec fn of_code(value: u8) -> Option<ShareDataPduType> {
        if value == 0x14 {
            Some(ShareDataPduType::Control)
        } else if value == 0x27 {
            Some(ShareDataPduType::FontList)
        } else if value == 0x28 {
            Some(ShareDataPduType::FontMap)
        } else if value == 0x1F {
            Some(ShareDataPduType::Synchronize)
        } else if value == 0x21 {
            Some(ShareDataPduType::RefreshRect)
        } else if value == 0x23 {
            Some(ShareDataPduType::SuppressOutput)
        } else {
            None
        }
    }

    fn as_u8(self) -> (v: u8)
        ensures
            v == self.code(),
    {
        match self {
            ShareDataPduType::Control => 0x14,
            ShareDataPduType::FontList => 0x27,
            ShareDataPduType::FontMap => 0x28,
            ShareDataPduType::Synchronize => 0x1F,
            ShareDataPduType::RefreshRect => 0x21,
            ShareDataPduType::SuppressOutput => 0x23,
            ShareDataPduType::SaveSessionInfo => 0x26,
        }
    }

    fn from_u8(value: u8) -> (r: Option<Self>)
        ensures
            r == Self::of_code(value),
    {
        match value {
            0x14 => Some(ShareDataPduType::Control),
            0x27 => Some(ShareDataPduType::FontList),
            0x28 => Some(ShareDataPduType::FontMap),
            0x1F => Some(ShareDataPduType::Synchronize),
            0x21 => Some(ShareDataPduType::RefreshRect),
            0x23 => Some(ShareDataPduType::SuppressOutput),
            _ => None,
        }
    }
}

/// Stream and type of a data message.
pub struct ShareDataHeader {
    pub stream_id: u8,
    pub pdu_type2: ShareDataPduType,
}

/// The header at offset `p`, and the offset after it. The lengths it gives are
/// read and not used.
pub open spec fn parse_data_header(b: Seq<u8>, p: int) -> Result<
    (ShareDataHeader, int),
    DecodeError,
> {
    if p + 1 > b.len() {
        Err(cursor::short(b, p, 1))
    } else if p + 2 > b.len() {
        Err(cursor::short(b, p + 1, 1))
    } else if p + 4 > b.len() {
        Err(cursor::short(b, p + 2, 2))
    } else if p + 5 > b.len() {
        Err(cursor::short(b, p + 4, 1))
    } else {
        match ShareDataPduType::of_code(b[p + 4]) {
            None => Err(
                cursor::invalid("share_data_header.pdu_type2", "unrecognized data PDU subtype"),
            ),
            Some(pdu_type2) => if p + 6 > b.len() {
                Err(cursor::short(b, p + 5, 1))
            } else if p + 8 > b.len() {
                Err(cursor::short(b, p + 6, 2))
            } else {
                Ok((ShareDataHeader { stream_id: b[p + 1], pdu_type2 }, p + 8))
            },
        }
    }
}

impl ShareDataHeader {
    pub const SIZE: usize = 8;

    /// The header of `inner_len` bytes, none of them compressed.
    pub open spec fn wire(self, inner_len: int) -> Seq<u8> {
        seq![0u8] + seq![self.stream_id] + bytes::le16(bytes::low16(inner_len))
            + seq![self.pdu_type2.code()] + seq![0u8] + bytes::le16(0)
    }

    fn write(&self, out: &mut Vec<u8>, inner_len: usize)
        ensures
            final(out)@ == old(out)@ + self.wire(inner_len as int),
    {
        let ghost before = out@;
        out.write_u8(0);  // padding
        out.write_u8(self.stream_id);
        out.write_u16_le(bytes::len16(inner_len));
        out.write_u8(self.pdu_type2.as_u8());
        out.write_u8(0);  // no compression
        out.write_u16_le(0);  // compressed length
        assert(out@ =~= before + self.wire(inner_len as int));
    }

    fn decode(cursor: &mut ReadCursor<'_>) -> (r: Result<Self, DecodeError>)
        requires
            old(cursor).wf(),
        ensures
            final(cursor).wf(),
            final(cursor).data() == old(cursor).data(),
            cursor::reads(
                r,
                final(cursor).offset(),
                parse_data_header(old(cursor).data(), old(cursor).offset()),
            ),
    {
        let _pad: u8 = cursor.take_u8()?;
        let stream_id: u8 = cursor.take_u8()?;
        let _uncompressed_length: u16 = cursor.take_u16_le()?;
        let pdu_type2: ShareDataPduType = match ShareDataPduType::from_u8(cursor.take_u8()?) {
            Some(t) => t,
            None => {
                return Err(
                    DecodeError::InvalidValue {
                        field: "share_data_header.pdu_type2",
                        reason: "unrecognized data PDU subtype",
                    },
                );
            },
        };
        let _compressed_type: u8 = cursor.take_u8()?;
        let _compressed_length: u16 = cursor.take_u16_le()?;
        Ok(Self { stream_id, pdu_type2 })
    }
}

/// No priority for the stream of a message.
pub const STREAM_UNDEFINED: u8 = 0;

#[derive(Debug, Clone, PartialEq, Eq)]
pub struct DataPdu {
    pub share_id: u32,
    pub pdu_source: u16,
    pub stream_id: u8,
    pub pdu_type2: ShareDataPduType,
    pub body: Vec<u8>,
}

pub struct DataPduView {
    pub share_id: u32,
    pub pdu_source: u16,
    pub stream_id: u8,
    pub pdu_type2: ShareDataPduType,
    pub body: Seq<u8>,
}

impl View for DataPdu {
    type V = DataPduView;

    open spec fn view(&self) -> DataPduView {
        DataPduView {
            share_id: self.share_id,
            pdu_source: self.pdu_source,
            stream_id: self.stream_id,
            pdu_type2: self.pdu_type2,
            body: self.body@,
        }
    }
}

impl DataPduView {
    pub open spec fn header(self) -> ShareControlHeader {
        ShareControlHeader {
            pdu_type: ShareControlPduType::Data,
            pdu_source: self.pdu_source,
            share_id: self.share_id,
        }
    }

    pub open spec fn data_header(self) -> ShareDataHeader {
        ShareDataHeader { stream_id: self.stream_id, pdu_type2: self.pdu_type2 }
    }

    pub open spec fn wire(self) -> Seq<u8> {
        self.header().wire(8int + self.body.len()) + self.data_header().wire(
            self.body.len() as int,
        ) + self.body
    }
}

/// The message in `b`. Its body is as long as the share control header says,
/// or as what is left where that is shorter.
pub open spec fn parse_data_pdu(b: Seq<u8>) -> Result<DataPduView, DecodeError> {
    match capability_sets::parse_header(b, 0) {
        Err(e) => Err(e),
        Ok(((h, declared), p)) => if h.pdu_type != ShareControlPduType::Data {
            Err(cursor::invalid("data_pdu.share_control_header.pdu_type", "expected DataPdu"))
        } else {
            match parse_data_header(b, p) {
                Err(e) => Err(e),
                Ok((d, q)) => {
                    let end = if declared < 8 {
                        q
                    } else if q + declared - 8 > b.len() {
                        b.len() as int
                    } else {
                        q + declared - 8
                    };
                    Ok(
                        DataPduView {
                            share_id: h.share_id,
                            pdu_source: h.pdu_source,
                            stream_id: d.stream_id,
                            pdu_type2: d.pdu_type2,
                            body: b.subrange(q, end),
                        },
                    )
                },
            }
        },
    }
}

impl DataPdu {
    pub fn encode(&self) -> (out: Vec<u8>)
        ensures
            out@ == self@.wire(),
    {
        let mut inner: Vec<u8> = Vec::new();
        ShareDataHeader { stream_id: self.stream_id, pdu_type2: self.pdu_type2 }.write(
            &mut inner,
            self.body.len(),
        );
        inner.write_slice(self.body.as_slice());
        let mut out: Vec<u8> = Vec::new();
        ShareControlHeader {
            pdu_type: ShareControlPduType::Data,
            pdu_source: self.pdu_source,
            share_id: self.share_id,
        }.write(&mut out, inner.len());
        out.write_slice(inner.as_slice());
        assert(out@ =~= self@.wire());
        out
    }

    /// The length of the body comes from the share control header: what the
    /// share data header says of it differs between clients. Padding that the
    /// message counts in stays in the body.
    pub fn decode(input: &[u8]) -> (r: Result<Self, DecodeError>)
        ensures
            cursor::decodes_view(r, parse_data_pdu(input@)),
    {
        let mut cursor = ReadCursor::new(input);
        let (header, declared_body_len) = ShareControlHeader::decode(&mut cursor)?;
        if header.pdu_type != ShareControlPduType::Data {
            return Err(
                DecodeError::InvalidValue {
                    field: "data_pdu.share_control_header.pdu_type",
                    reason: "expected DataPdu",
                },
            );
        }
        let share_data_header: ShareDataHeader = ShareDataHeader::decode(&mut cursor)?;
        let declared: usize = if declared_body_len < ShareDataHeader::SIZE {
            0
        } else {
            declared_body_len - ShareDataHeader::SIZE
        };
        let left: usize = cursor.remaining();
        let body_len: usize = if declared < left {
            declared
        } else {
            left
        };
        let body: Vec<u8> = slice_to_vec(cursor.take_slice(body_len)?);
        Ok(
            Self {
                share_id: header.share_id,
                pdu_source: header.pdu_source,
                stream_id: share_data_header.stream_id,
                pdu_type2: share_data_header.pdu_type2,
                body,
            },
        )
    }
}

/// Every data message shorter than 64 KiB, of a type that is recognized, is
/// read back as it was written, whatever comes after it.
pub proof fn law_data_pdu_round_trip(d: DataPduView, after: Seq<u8>)
    requires
        d.body.len() <= 0xFFFF - 18,
        d.pdu_type2 != ShareDataPduType::SaveSessionInfo,
    ensures
        parse_data_pdu(d.wire() + after) == Ok::<DataPduView, DecodeError>(d),
{
    let b = d.wire() + after;
    let n = d.body.len() as int;
    bytes::lemma_holds_self(b);
    bytes::lemma_holds_add(b, 0, d.wire(), after);
    let h = d.header().wire(8 + n);
    let s = d.data_header().wire(n);
    bytes::lemma_holds_add(b, 0, h + s, d.body);
    bytes::lemma_holds_add(b, 0, h, s);
    bytes::lemma_holds_bounds(b, 18, d.body);
    capability_sets::law_header_round_trip(b, 0, d.header(), 8 + n);
    assert(parse_data_header(b, 10) == Ok::<(ShareDataHeader, int), DecodeError>(
        (d.data_header(), 18),
    )) by {
        broadcast use bytes::group_holds;

    }
}

#[derive(Debug, Clone, Copy, PartialEq, Eq)]
pub struct SynchronizePdu {
    pub target_user: u16,
}

impl SynchronizePdu {
    pub open spec fn wire(self) -> Seq<u8> {
        bytes::le16(1) + bytes::le16(self.target_user)
    }

    pub open spec fn parse(b: Seq<u8>) -> Result<SynchronizePdu, DecodeError> {
        if b.len() < 2 {
            Err(cursor::short(b, 0, 2))
        } else if bytes::u16_le_at(b, 0) != 1 {
            Err(cursor::invalid("synchronize_pdu.message_type", "must be 1"))
        } else if b.len() < 4 {
            Err(cursor::short(b, 2, 2))
        } else {
            Ok(SynchronizePdu { target_user: bytes::u16_le_at(b, 2) })
        }
    }

    pub fn encode_body(&self) -> (out: Vec<u8>)
        ensures
            out@ == self.wire(),
    {
        let mut out: Vec<u8> = Vec::new();
        out.write_u16_le(1);  // message type
        out.write_u16_le(self.target_user);
        assert(out@ =~= self.wire());
        out
    }

    pub fn decode_body(body: &[u8]) -> (r: Result<Self, DecodeError>)
        ensures
            r == Self::parse(body@),
    {
        let mut cursor = ReadCursor::new(body);
        let message_type: u16 = cursor.take_u16_le()?;
        if message_type != 1 {
            return Err(
                DecodeError::InvalidValue {
                    field: "synchronize_pdu.message_type",
                    reason: "must be 1",
                },
            );
        }
        let target_user: u16 = cursor.take_u16_le()?;
        Ok(Self { target_user })
    }
}

/// Every synchronize message is read back as it was written.
pub proof fn law_synchronize_round_trip(m: SynchronizePdu)
    ensures
        SynchronizePdu::parse(m.wire()) == Ok::<SynchronizePdu, DecodeError>(m),
        m.wire().len() == 4,
{
    broadcast use bytes::group_holds;

    bytes::lemma_holds_self(m.wire());
}

#[derive(Debug, Clone, Copy, PartialEq, Eq)]
pub struct ControlPdu {
    pub action: u16,
    pub grant_id: u16,
    pub control_id: u32,
}

impl ControlPdu {
    pub const COOPERATE: u16 = 4;

    pub const REQUEST_CONTROL: u16 = 1;

    pub const GRANTED_CONTROL: u16 = 2;

    pub open spec fn wire(self) -> Seq<u8> {
        bytes::le16(self.action) + bytes::le16(self.grant_id) + bytes::le32(self.control_id)
    }

    pub open spec fn parse(b: Seq<u8>) -> Result<ControlPdu, DecodeError> {
        if b.len() < 4 {
            Err(cursor::short(b, (b.len() as int) / 2 * 2, 2))
        } else if b.len() < 8 {
            Err(cursor::short(b, 4, 4))
        } else {
            Ok(
                ControlPdu {
                    action: bytes::u16_le_at(b, 0),
                    grant_id: bytes::u16_le_at(b, 2),
                    control_id: bytes::u32_le_at(b, 4),
                },
            )
        }
    }

    pub fn encode_body(&self) -> (out: Vec<u8>)
        ensures
            out@ == self.wire(),
    {
        let mut out: Vec<u8> = Vec::new();
        out.write_u16_le(self.action);
        out.write_u16_le(self.grant_id);
        out.write_u32_le(self.control_id);
        assert(out@ =~= self.wire());
        out
    }

    pub fn decode_body(body: &[u8]) -> (r: Result<Self, DecodeError>)
        ensures
            r == Self::parse(body@),
    {
        let mut cursor = ReadCursor::new(body);
        let action: u16 = cursor.take_u16_le()?;
        let grant_id: u16 = cursor.take_u16_le()?;
        let control_id: u32 = cursor.take_u32_le()?;
        Ok(Self { action, grant_id, control_id })
    }
}

/// Every control message is read back as it was written.
pub proof fn law_control_round_trip(m: ControlPdu)
    ensures
        ControlPdu::parse(m.wire()) == Ok::<ControlPdu, DecodeError>(m),
        m.wire().len() == 8,
{
    broadcast use bytes::group_holds;

    bytes::lemma_holds_self(m.wire());
}

/// Font List and Font Map have the same layout.
#[derive(Debug, Clone, Copy, PartialEq, Eq)]
pub struct FontPdu {
    pub number_fonts: u16,
    pub total_num_fonts: u16,
    pub flags: u16,
    pub entry_size: u16,
}

impl FontPdu {
    pub const FIRST: u16 = 1;

    pub const LAST: u16 = 2;

    /// The Font Map that is sent: no fonts, first and last part at once.
    pub fn font_map_default() -> (f: Self)
        ensures
            f == (FontPdu { number_fonts: 0, total_num_fonts: 0, flags: 3, entry_size: 4 }),
            f.flags == Self::FIRST | Self::LAST,
    {
        assert(1u16 | 2u16 == 3u16) by (bit_vector);
        Self {
            number_fonts: 0,
            total_num_fonts: 0,
            flags: Self::FIRST | Self::LAST,
            entry_size: 4,
        }
    }

    pub open spec fn wire(self) -> Seq<u8> {
        bytes::le16(self.number_fonts) + bytes::le16(self.total_num_fonts) + bytes::le16(
            self.flags,
        ) + bytes::le16(self.entry_size)
    }

    pub open spec fn parse(b: Seq<u8>) -> Result<FontPdu, DecodeError> {
        if b.len() < 8 {
            Err(cursor::short(b, (b.len() as int) / 2 * 2, 2))
        } else {
            Ok(
                FontPdu {
                    number_fonts: bytes::u16_le_at(b, 0),
                    total_num_fonts: bytes::u16_le_at(b, 2),
                    flags: bytes::u16_le_at(b, 4),
                    entry_size: bytes::u16_le_at(b, 6),
                },
            )
        }
    }

    pub fn encode_body(&self) -> (out: Vec<u8>)
        ensures
            out@ == self.wire(),
    {
        let mut out: Vec<u8> = Vec::new();
        out.write_u16_le(self.number_fonts);
        out.write_u16_le(self.total_num_fonts);
        out.write_u16_le(self.flags);
        out.write_u16_le(self.entry_size);
        assert(out@ =~= self.wire());
        out
    }

    pub fn decode_body(body: &[u8]) -> (r: Result<Self, DecodeError>)
        ensures
            r == Self::parse(body@),
    {
        let mut cursor = ReadCursor::new(body);
        let number_fonts: u16 = cursor.take_u16_le()?;
        let total_num_fonts: u16 = cursor.take_u16_le()?;
        let flags: u16 = cursor.take_u16_le()?;
        let entry_size: u16 = cursor.take_u16_le()?;
        Ok(Self { number_fonts, total_num_fonts, flags, entry_size })
    }
}

/// Every font message is read back as it was written.
pub proof fn law_font_round_trip(m: FontPdu)
    ensures
        FontPdu::parse(m.wire()) == Ok::<FontPdu, DecodeError>(m),
        m.wire().len() == 8,
{
    broadcast use bytes::group_holds;

    bytes::lemma_holds_self(m.wire());
}

/// What kind of session information a notification without any carries.
pub const INFO_TYPE_PLAIN_NOTIFY: u32 = 2;

/// The body of a Save Session Info message that says no more than that the
/// logon is done.
pub open spec fn plain_notify_wire() -> Seq<u8> {
    bytes::le32(INFO_TYPE_PLAIN_NOTIFY) + bytes::zeros(576)
}

pub fn encode_save_session_info_plain_notify() -> (out: Vec<u8>)
    ensures
        out@ == plain_notify_wire(),
{
    let mut out: Vec<u8> = Vec::new();
    out.write_u32_le(INFO_TYPE_PLAIN_NOTIFY);
    let mut i: usize = 0;
    assert(out@ =~= bytes::le32(INFO_TYPE_PLAIN_NOTIFY) + bytes::zeros(0));
    while i < 576
        invariant
            i <= 576,
            out@ == bytes::le32(INFO_TYPE_PLAIN_NOTIFY) + bytes::zeros(i as nat),
        decreases 576 - i,
    {
        out.push(0);
        i = i + 1;
        assert(out@ =~= bytes::le32(INFO_TYPE_PLAIN_NOTIFY) + bytes::zeros(i as nat));
    }
    out
}

/// A rectangle whose edges all belong to it.
#[derive(Debug, Clone, Copy, PartialEq, Eq)]
pub struct InclusiveRect {
    pub left: u16,
    pub top: u16,
    pub right: u16,
    pub bottom: u16,
}

impl InclusiveRect {
    pub open spec fn wire(self) -> Seq<u8> {
        bytes::le16(self.left) + bytes::le16(self.top) + bytes::le16(self.right) + bytes::le16(
            self.bottom,
        )
    }

    /// The rectangle at offset `p`, and the offset after it.
    pub open spec fn parse(b: Seq<u8>, p: int) -> Result<(InclusiveRect, int), DecodeError> {
        if p + 8 > b.len() {
            Err(cursor::short(b, p + (b.len() - p) / 2 * 2, 2))
        } else {
            Ok(
                (
                    InclusiveRect {
                        left: bytes::u16_le_at(b, p),
                        top: bytes::u16_le_at(b, p + 2),
                        right: bytes::u16_le_at(b, p + 4),
                        bottom: bytes::u16_le_at(b, p + 6),
                    },
                    p + 8,
                ),
            )
        }
    }

    pub fn decode(cursor: &mut ReadCursor<'_>) -> (r: Result<Self, DecodeError>)
        requires
            old(cursor).wf(),
        ensures
            final(cursor).wf(),
            final(cursor).data() == old(cursor).data(),
            cursor::reads(
                r,
                final(cursor).offset(),
                Self::parse(old(cursor).data(), old(cursor).offset()),
            ),
    {
        let left: u16 = cursor.take_u16_le()?;
        let top: u16 = cursor.take_u16_le()?;
        let right: u16 = cursor.take_u16_le()?;
        let bottom: u16 = cursor.take_u16_le()?;
        Ok(Self { left, top, right, bottom })
    }
}

/// Whether a Suppress Output message lets display updates go on. The rectangle
/// that may follow is not used.
pub open spec fn parse_suppress_output(b: Seq<u8>) -> Result<bool, DecodeError> {
    if b.len() < 4 {
        Err(cursor::short(b, b.len() as int, 1))
    } else if b[0] == 0 {
        Ok(false)
    } else if b[0] == 1 {
        Ok(true)
    } else {
        Err(cursor::invalid("suppress_output.allow_display_updates", "expected 0 or 1"))
    }
}

pub fn decode_suppress_output(body: &[u8]) -> (r: Result<bool, DecodeError>)
    ensures
        r == parse_suppress_output(body@),
{
    let mut cursor = ReadCursor::new(body);
    let allow: u8 = cursor.take_u8()?;
    let _pad0: u8 = cursor.take_u8()?;
    let _pad1: u8 = cursor.take_u8()?;
    let _pad2: u8 = cursor.take_u8()?;
    match allow {
        0 => Ok(false),
        1 => {
            if cursor.remaining() >= 8 {
                let _rect: InclusiveRect = InclusiveRect::decode(&mut cursor)?;
            }
            Ok(true)
        },
        _ => Err(
            DecodeError::InvalidValue {
                field: "suppress_output.allow_display_updates",
                reason: "expected 0 or 1",
            },
        ),
    }
}

/// The areas that a Refresh Rect message asks for: a count, three bytes of
/// padding, and as many rectangles.
pub open spec fn parse_refresh_rect(b: Seq<u8>) -> Result<Seq<InclusiveRect>, DecodeError> {
    if b.len() < 4 {
        Err(cursor::short(b, b.len() as int, 1))
    } else if 4 + 8 * b[0] > b.len() {
        Err(cursor::short(b, (b.len() as int) / 2 * 2, 2))
    } else {
        Ok(Seq::new(b[0] as nat, |i: int| rect_at(b, 4 + 8 * i)))
    }
}

/// The rectangle whose bytes begin at offset `p`.
pub open spec fn rect_at(b: Seq<u8>, p: int) -> InclusiveRect {
    InclusiveRect {
        left: bytes::u16_le_at(b, p),
        top: bytes::u16_le_at(b, p + 2),
        right: bytes::u16_le_at(b, p + 4),
        bottom: bytes::u16_le_at(b, p + 6),
    }
}

pub fn decode_refresh_rect(body: &[u8]) -> (r: Result<Vec<InclusiveRect>, DecodeError>)
    ensures
        match parse_refresh_rect(body@) {
            Ok(rects) => r is Ok && r->Ok_0@ == rects,
            Err(e) => r == Err::<Vec<InclusiveRect>, DecodeError>(e),
        },
{
    let mut cursor = ReadCursor::new(body);
    let count: u8 = cursor.take_u8()?;
    let _pad0: u8 = cursor.take_u8()?;
    let _pad1: u8 = cursor.take_u8()?;
    let _pad2: u8 = cursor.take_u8()?;
    let mut rects: Vec<InclusiveRect> = Vec::new();
    let mut i: u8 = 0;
    while i < count
        invariant
            i <= count,
            cursor.wf(),
            cursor.data() == body@,
            body@.len() >= 4,
            count == body@[0],
            cursor.offset() == 4 + 8 * i,
            rects@.len() == i,
            forall|j: int| 0 <= j < i ==> rects@[j] == rect_at(body@, 4 + 8 * j),
        decreases count - i,
    {
        assert(4 + 8 * (i + 1) <= 4 + 8 * count);
        rects.push(InclusiveRect::decode(&mut cursor)?);
        i = i + 1;
    }
    assert(rects@ =~= Seq::new(count as nat, |i: int| rect_at(body@, 4 + 8 * i)));
    Ok(rects)
}

/// A data message has ten bytes of share control, eight more with the stream, the
/// length of the body and the number of its kind, and the body.
pub proof fn law_data_pdu_bytes(d: &DataPdu, out: Vec<u8>)
    requires
        call_ensures(DataPdu::encode, (d,), out),
        d.body@.len() <= 65517,
    ensures
        out@.len() == 18 + d.body@.len(),
        bytes::u16_le_at(out@, 0) == out@.len(),
        bytes::u16_le_at(out@, 2) == 23,
        bytes::u16_le_at(out@, 4) == d.pdu_source,
        bytes::u32_le_at(out@, 6) == d.share_id,
        out@[10] == 0,
        out@[11] == d.stream_id,
        bytes::u16_le_at(out@, 12) == d.body@.len(),
        out@[14] == (match d.pdu_type2 {
            ShareDataPduType::Control => 20int,
            ShareDataPduType::Synchronize => 31,
            ShareDataPduType::RefreshRect => 33,
            ShareDataPduType::SuppressOutput => 35,
            ShareDataPduType::SaveSessionInfo => 38,
            ShareDataPduType::FontList => 39,
            ShareDataPduType::FontMap => 40,
        }),
        out@[15] == 0,
        out@[16] == 0,
        out@[17] == 0,
        out@.skip(18) == d.body@,
{
    law_data_pdu_layout(d@);
}

/// [`law_data_pdu_bytes`], of the message that is meant.
pub proof fn law_data_pdu_layout(d: DataPduView)
    requires
        d.body.len() <= 65517,
    ensures
        d.wire().len() == 18 + d.body.len(),
        bytes::u16_le_at(d.wire(), 0) == d.wire().len(),
        bytes::u16_le_at(d.wire(), 2) == 23,
        bytes::u16_le_at(d.wire(), 4) == d.pdu_source,
        bytes::u32_le_at(d.wire(), 6) == d.share_id,
        d.wire()[10] == 0,
        d.wire()[11] == d.stream_id,
        bytes::u16_le_at(d.wire(), 12) == d.body.len(),
        d.wire()[14] == (match d.pdu_type2 {
            ShareDataPduType::Control => 20int,
            ShareDataPduType::Synchronize => 31,
            ShareDataPduType::RefreshRect => 33,
            ShareDataPduType::SuppressOutput => 35,
            ShareDataPduType::SaveSessionInfo => 38,
            ShareDataPduType::FontList => 39,
            ShareDataPduType::FontMap => 40,
        }),
        d.wire()[15] == 0,
        d.wire()[16] == 0,
        d.wire()[17] == 0,
        d.wire().skip(18) == d.body,
{
    reveal(bytes::le16);
    let h = d.header().wire(8int + d.body.len());
    capability_sets::law_header_bytes(d.header(), 8int + d.body.len(), d.body, 0);
    let w = d.wire();
    let e = d.data_header().wire(d.body.len() as int);
    assert(h.len() == 10 && e.len() == 8);
    assert(forall|i: int| 0 <= i < 10 ==> w[i] == #[trigger] h[i]);
    assert(forall|i: int| 0 <= i < 8 ==> w[10 + i] == #[trigger] e[i]);
    assert(w[0] == h[0] && w[1] == h[1] && w[2] == h[2] && w[3] == h[3] && w[4] == h[4] && w[5]
        == h[5] && w[6] == h[6] && w[7] == h[7] && w[8] == h[8] && w[9] == h[9]);
    assert(w[10] == e[0] && w[11] == e[1] && w[12] == e[2] && w[13] == e[3] && w[14] == e[4]
        && w[15] == e[5] && w[16] == e[6] && w[17] == e[7]);
    assert(bytes::u16_le_at(e, 2) == d.body.len()) by {
        bytes::lemma_le16(bytes::low16(d.body.len() as int));
    }
    assert(w.skip(18) =~= d.body);
}

/// A data message is read from the same bytes; its body ends where the share
/// control header says, or where the bytes end.
pub proof fn law_data_pdu_decoded(input: &[u8], r: Result<DataPdu, DecodeError>)
    requires
        call_ensures(DataPdu::decode, (input,), r),
        r is Ok,
    ensures
        input@.len() >= 18,
        bytes::u16_le_at(input@, 2) == 23,
        r->Ok_0.pdu_source == bytes::u16_le_at(input@, 4),
        r->Ok_0.share_id == bytes::u32_le_at(input@, 6),
        r->Ok_0.stream_id == input@[11],
        input@[14] == (match r->Ok_0.pdu_type2 {
            ShareDataPduType::Control => 20int,
            ShareDataPduType::Synchronize => 31,
            ShareDataPduType::RefreshRect => 33,
            ShareDataPduType::SuppressOutput => 35,
            ShareDataPduType::SaveSessionInfo => 38,
            ShareDataPduType::FontList => 39,
            ShareDataPduType::FontMap => 40,
        }),
        18 <= bytes::u16_le_at(input@, 0) <= input@.len() ==> r->Ok_0.body@ == input@.subrange(
            18,
            bytes::u16_le_at(input@, 0) as int,
        ),
        bytes::u16_le_at(input@, 0) > input@.len() ==> r->Ok_0.body@ == input@.skip(18),
{
    capability_sets::law_header_bytes(
        ShareControlHeader { pdu_type: ShareControlPduType::Data, pdu_source: 0, share_id: 0 },
        0,
        input@,
        0,
    );
    assert(input@.skip(18) =~= input@.subrange(18, input@.len() as int));
}

/// Synchronize is 1 and the user; control is the action, 1 to ask, 2 to grant and
/// 4 to cooperate, the user it is granted to and the user in control; fonts are four
/// numbers, and a notification of the logon is 2 and zeros.
pub proof fn law_bodies(
    s: &SynchronizePdu,
    s_out: Vec<u8>,
    c: &ControlPdu,
    c_out: Vec<u8>,
    f: &FontPdu,
    f_out: Vec<u8>,
    default_map: FontPdu,
    notify: Vec<u8>,
)
    requires
        call_ensures(SynchronizePdu::encode_body, (s,), s_out),
        call_ensures(ControlPdu::encode_body, (c,), c_out),
        call_ensures(FontPdu::encode_body, (f,), f_out),
        call_ensures(FontPdu::font_map_default, (), default_map),
        call_ensures(encode_save_session_info_plain_notify, (), notify),
    ensures
        s_out@.len() == 4,
        bytes::u16_le_at(s_out@, 0) == 1,
        bytes::u16_le_at(s_out@, 2) == s.target_user,
        c_out@.len() == 8,
        bytes::u16_le_at(c_out@, 0) == c.action,
        bytes::u16_le_at(c_out@, 2) == c.grant_id,
        bytes::u32_le_at(c_out@, 4) == c.control_id,
        ControlPdu::REQUEST_CONTROL == 1,
        ControlPdu::GRANTED_CONTROL == 2,
        ControlPdu::COOPERATE == 4,
        f_out@.len() == 8,
        bytes::u16_le_at(f_out@, 0) == f.number_fonts,
        bytes::u16_le_at(f_out@, 2) == f.total_num_fonts,
        bytes::u16_le_at(f_out@, 4) == f.flags,
        bytes::u16_le_at(f_out@, 6) == f.entry_size,
        default_map.number_fonts == 0,
        default_map.total_num_fonts == 0,
        default_map.flags == 3,
        default_map.entry_size == 4,
        notify@.len() == 580,
        bytes::u32_le_at(notify@, 0) == 2,
        forall|i: int| 4 <= i < 580 ==> #[trigger] notify@[i] == 0,
{
}

/// The same bodies are read from the same bytes.
pub proof fn law_bodies_decoded(
    body: &[u8],
    s: Result<SynchronizePdu, DecodeError>,
    c: Result<ControlPdu, DecodeError>,
    f: Result<FontPdu, DecodeError>,
)
    requires
        call_ensures(SynchronizePdu::decode_body, (body,), s),
        call_ensures(ControlPdu::decode_body, (body,), c),
        call_ensures(FontPdu::decode_body, (body,), f),
    ensures
        s is Ok <==> body@.len() >= 4 && bytes::u16_le_at(body@, 0) == 1,
        s matches Ok(v) ==> v.target_user == bytes::u16_le_at(body@, 2),
        c is Ok <==> body@.len() >= 8,
        c matches Ok(v) ==> v.action == bytes::u16_le_at(body@, 0) && v.grant_id
            == bytes::u16_le_at(body@, 2) && v.control_id == bytes::u32_le_at(body@, 4),
        f is Ok <==> body@.len() >= 8,
        f matches Ok(v) ==> v.number_fonts == bytes::u16_le_at(body@, 0) && v.total_num_fonts
            == bytes::u16_le_at(body@, 2) && v.flags == bytes::u16_le_at(body@, 4) && v.entry_size
            == bytes::u16_le_at(body@, 6),
{
}

/// A client lets display updates go on with 1 and stops them with 0. The areas that
/// it wants drawn again are counted in the first byte and follow from the fourth on:
/// left, top, right and bottom.
pub proof fn law_display_control(
    body: &[u8],
    allowed: Result<bool, DecodeError>,
    areas: Result<Vec<InclusiveRect>, DecodeError>,
    i: int,
)
    requires
        call_ensures(decode_suppress_output, (body,), allowed),
        call_ensures(decode_refresh_rect, (body,), areas),
    ensures
        allowed == Ok::<bool, DecodeError>(true) <==> body@.len() >= 4 && body@[0] == 1,
        allowed == Ok::<bool, DecodeError>(false) <==> body@.len() >= 4 && body@[0] == 0,
        areas is Ok <==> body@.len() >= 4 && body@.len() >= 4 + 8 * body@[0],
        areas is Ok ==> areas->Ok_0@.len() == body@[0],
        areas is Ok && 0 <= i < body@[0] ==> {
            &&& areas->Ok_0@[i].left == bytes::u16_le_at(body@, 4 + 8 * i)
            &&& areas->Ok_0@[i].top == bytes::u16_le_at(body@, 6 + 8 * i)
            &&& areas->Ok_0@[i].right == bytes::u16_le_at(body@, 8 + 8 * i)
            &&& areas->Ok_0@[i].bottom == bytes::u16_le_at(body@, 10 + 8 * i)
        },
{
}

/// The bodies of the messages that end the sequence, byte for byte.
pub proof fn law_body_layout(s: SynchronizePdu, c: ControlPdu, f: FontPdu)
    ensures
        s.wire().len() == 4,
        bytes::u16_le_at(s.wire(), 0) == 1,
        bytes::u16_le_at(s.wire(), 2) == s.target_user,
        c.wire().len() == 8,
        bytes::u16_le_at(c.wire(), 0) == c.action,
        bytes::u16_le_at(c.wire(), 2) == c.grant_id,
        bytes::u32_le_at(c.wire(), 4) == c.control_id,
        f.wire().len() == 8,
        bytes::u16_le_at(f.wire(), 0) == f.number_fonts,
        bytes::u16_le_at(f.wire(), 2) == f.total_num_fonts,
        bytes::u16_le_at(f.wire(), 4) == f.flags,
        bytes::u16_le_at(f.wire(), 6) == f.entry_size,
{
}

} // verus!
