//! Messages of the audio input channel: one byte for the kind, and what belongs
//! to it, up to the end.

pub use crate::rdpsnd::pdu::AudioFormat;

use vstd::prelude::*;
use vstd::slice::slice_to_vec;

use crate::bytes;
use crate::cursor;
use crate::cursor::{ReadCursor, WriteBuf};
use crate::model;
use crate::rdpsnd::pdu;
use crate::DecodeError;

verus! {

broadcast use bytes::group_bytes;

pub const MSG_SNDIN_VERSION: u8 = 0x01;

pub const MSG_SNDIN_FORMATS: u8 = 0x02;

pub const MSG_SNDIN_OPEN: u8 = 0x03;

pub const MSG_SNDIN_OPEN_REPLY: u8 = 0x04;

pub const MSG_SNDIN_DATA_INCOMING: u8 = 0x05;

pub const MSG_SNDIN_DATA: u8 = 0x06;

pub const MSG_SNDIN_FORMATCHANGE: u8 = 0x07;

pub const CHANNEL_NAME: &'static str = "AUDIO_INPUT";

/// The version that is offered.
pub const VERSION_2: u32 = 2;

pub open spec fn version_wire(version: u32) -> Seq<u8> {
    seq![MSG_SNDIN_VERSION] + bytes::le32(version)
}

pub fn encode_version(version: u32) -> (out: Vec<u8>)
    ensures
        out@ == version_wire(version),
{
    let mut out: Vec<u8> = Vec::new();
    out.write_u8(MSG_SNDIN_VERSION);
    out.write_u32_le(version);
    assert(out@ =~= version_wire(version));
    out
}

pub open spec fn formats_message(formats: Seq<pdu::AudioFormatView>) -> Seq<u8> {
    seq![MSG_SNDIN_FORMATS] + bytes::le32(bytes::low32(formats.len() as int)) + bytes::le32(
        bytes::low32(pdu::formats_wire(formats).len() as int),
    ) + pdu::formats_wire(formats)
}

pub fn encode_formats(formats: &[AudioFormat]) -> (out: Vec<u8>)
    ensures
        out@ == formats_message(model::views(formats@)),
{
    let mut formats_bytes: Vec<u8> = Vec::new();
    pdu::write_formats(&mut formats_bytes, formats);
    assert(formats_bytes@ =~= pdu::formats_wire(model::views(formats@)));
    let mut out: Vec<u8> = Vec::new();
    out.write_u8(MSG_SNDIN_FORMATS);
    out.write_u32_le(bytes::len32(formats.len()));
    out.write_u32_le(bytes::len32(formats_bytes.len()));
    out.write_slice(formats_bytes.as_slice());
    assert(out@ =~= formats_message(model::views(formats@)));
    out
}

/// The format in which to capture is written without extra data.
pub open spec fn open_wire(
    frames_per_packet: u32,
    initial_format_index: u32,
    capture_format: pdu::AudioFormatView,
) -> Seq<u8> {
    seq![MSG_SNDIN_OPEN] + bytes::le32(frames_per_packet) + bytes::le32(initial_format_index)
        + (pdu::AudioFormatView { extra_data: None, ..capture_format }).wire()
}

/// The format in which to capture is written without extra data.
pub fn encode_open(
    frames_per_packet: u32,
    initial_format_index: u32,
    capture_format: &AudioFormat,
) -> (out: Vec<u8>)
    ensures
        out@ == open_wire(frames_per_packet, initial_format_index, capture_format@),
{
    let mut out: Vec<u8> = Vec::new();
    out.write_u8(MSG_SNDIN_OPEN);
    out.write_u32_le(frames_per_packet);
    out.write_u32_le(initial_format_index);
    let core = AudioFormat {
        format_tag: capture_format.format_tag,
        n_channels: capture_format.n_channels,
        n_samples_per_sec: capture_format.n_samples_per_sec,
        n_avg_bytes_per_sec: capture_format.n_avg_bytes_per_sec,
        n_block_align: capture_format.n_block_align,
        bits_per_sample: capture_format.bits_per_sample,
        extra_data: None,
    };
    core.encode(&mut out);
    assert(out@ =~= open_wire(frames_per_packet, initial_format_index, capture_format@));
    out
}

#[derive(Debug, PartialEq, Eq)]
pub enum ClientMessage {
    Version { version: u32 },
    Formats { formats: Vec<AudioFormat> },
    OpenReply { result: u32 },
    DataIncoming,
    Data { data: Vec<u8> },
    FormatChange { new_format: u32 },
    Other,
}

pub enum ClientMessageView {
    Version { version: u32 },
    Formats { formats: Seq<pdu::AudioFormatView> },
    OpenReply { result: u32 },
    DataIncoming,
    Data { data: Seq<u8> },
    FormatChange { new_format: u32 },
    Other,
}

impl View for ClientMessage {
    type V = ClientMessageView;

    open spec fn view(&self) -> ClientMessageView {
        match self {
            ClientMessage::Version { version } => ClientMessageView::Version { version: *version },
            ClientMessage::Formats { formats } => ClientMessageView::Formats {
                formats: model::views(formats@),
            },
            ClientMessage::OpenReply { result } => ClientMessageView::OpenReply { result: *result },
            ClientMessage::DataIncoming => ClientMessageView::DataIncoming,
            ClientMessage::Data { data } => ClientMessageView::Data { data: data@ },
            ClientMessage::FormatChange { new_format } => ClientMessageView::FormatChange {
                new_format: *new_format,
            },
            ClientMessage::Other => ClientMessageView::Other,
        }
    }
}

impl Clone for ClientMessage {
    fn clone(&self) -> (r: Self)
        ensures
            r@ == self@,
    {
        match self {
            ClientMessage::Version { version } => ClientMessage::Version { version: *version },
            ClientMessage::Formats { formats } => ClientMessage::Formats {
                formats: pdu::copy_formats(formats.as_slice()),
            },
            ClientMessage::OpenReply { result } => ClientMessage::OpenReply { result: *result },
            ClientMessage::DataIncoming => ClientMessage::DataIncoming,
            ClientMessage::Data { data } => ClientMessage::Data {
                data: slice_to_vec(data.as_slice()),
            },
            ClientMessage::FormatChange { new_format } => ClientMessage::FormatChange {
                new_format: *new_format,
            },
            ClientMessage::Other => ClientMessage::Other,
        }
    }
}

pub open spec fn parse_client_message(b: Seq<u8>) -> Result<ClientMessageView, DecodeError> {
    if b.len() < 1 {
        Err(cursor::short(b, 0, 1))
    } else if b[0] == MSG_SNDIN_VERSION || b[0] == MSG_SNDIN_OPEN_REPLY || b[0]
        == MSG_SNDIN_FORMATCHANGE {
        if b.len() < 5 {
            Err(cursor::short(b, 1, 4))
        } else if b[0] == MSG_SNDIN_VERSION {
            Ok(ClientMessageView::Version { version: bytes::u32_le_at(b, 1) })
        } else if b[0] == MSG_SNDIN_OPEN_REPLY {
            Ok(ClientMessageView::OpenReply { result: bytes::u32_le_at(b, 1) })
        } else {
            Ok(ClientMessageView::FormatChange { new_format: bytes::u32_le_at(b, 1) })
        }
    } else if b[0] == MSG_SNDIN_FORMATS {
        if b.len() < 5 {
            Err(cursor::short(b, 1, 4))
        } else if b.len() < 9 {
            Err(cursor::short(b, 5, 4))
        } else {
            match pdu::parse_formats(b, 9, bytes::u32_le_at(b, 1) as int) {
                Err(e) => Err(e),
                Ok((formats, _)) => Ok(ClientMessageView::Formats { formats }),
            }
        }
    } else if b[0] == MSG_SNDIN_DATA_INCOMING {
        Ok(ClientMessageView::DataIncoming)
    } else if b[0] == MSG_SNDIN_DATA {
        Ok(ClientMessageView::Data { data: b.subrange(1, b.len() as int) })
    } else {
        Ok(ClientMessageView::Other)
    }
}

pub fn decode_client_message(input: &[u8]) -> (r: Result<ClientMessage, DecodeError>)
    ensures
        cursor::decodes_view(r, parse_client_message(input@)),
{
    let mut cursor = ReadCursor::new(input);
    let message_id: u8 = cursor.take_u8()?;
    if message_id == MSG_SNDIN_VERSION {
        let version: u32 = cursor.take_u32_le()?;
        Ok(ClientMessage::Version { version })
    } else if message_id == MSG_SNDIN_FORMATS {
        let num_formats: u32 = cursor.take_u32_le()?;
        let _cb_size_formats_packet: u32 = cursor.take_u32_le()?;
        let formats: Vec<AudioFormat> = pdu::read_formats(&mut cursor, num_formats)?;
        Ok(ClientMessage::Formats { formats })
    } else if message_id == MSG_SNDIN_OPEN_REPLY {
        let result: u32 = cursor.take_u32_le()?;
        Ok(ClientMessage::OpenReply { result })
    } else if message_id == MSG_SNDIN_DATA_INCOMING {
        Ok(ClientMessage::DataIncoming)
    } else if message_id == MSG_SNDIN_DATA {
        let data: Vec<u8> = slice_to_vec(cursor.read_rest());
        Ok(ClientMessage::Data { data })
    } else if message_id == MSG_SNDIN_FORMATCHANGE {
        let new_format: u32 = cursor.take_u32_le()?;
        Ok(ClientMessage::FormatChange { new_format })
    } else {
        Ok(ClientMessage::Other)
    }
}

/// A version reads as it was sent.
pub proof fn law_version_round_trip(version: u32)
    ensures
        parse_client_message(version_wire(version)) == Ok::<ClientMessageView, DecodeError>(
            ClientMessageView::Version { version },
        ),
{
    broadcast use bytes::group_holds;

    bytes::lemma_holds_self(version_wire(version));
}

/// Formats whose extra data fits read as they were sent.
pub proof fn law_formats_round_trip(formats: Seq<pdu::AudioFormatView>)
    requires
        formats.len() <= u32::MAX,
        forall|i: int| 0 <= i < formats.len() ==> (#[trigger] formats[i]).fits(),
    ensures
        parse_client_message(formats_message(formats)) == Ok::<ClientMessageView, DecodeError>(
            ClientMessageView::Formats { formats },
        ),
{
    let b = formats_message(formats);
    let h = seq![MSG_SNDIN_FORMATS];
    let n = bytes::low32(formats.len() as int);
    let s = bytes::le32(bytes::low32(pdu::formats_wire(formats).len() as int));
    bytes::lemma_holds_self(b);
    bytes::lemma_holds_add(b, 0, h + bytes::le32(n) + s, pdu::formats_wire(formats));
    bytes::lemma_holds_bounds(b, 0, h + bytes::le32(n) + s);
    bytes::lemma_holds_add(b, 0, h + bytes::le32(n), s);
    bytes::lemma_holds_add(b, 0, h, bytes::le32(n));
    bytes::lemma_holds_u8(b, 0, MSG_SNDIN_FORMATS);
    bytes::lemma_holds_le32(b, 1, n);
    pdu::law_formats_round_trip(b, 9, formats);
}

/// The version is the first message; formats are counted and measured before them; and
/// recording begins with how many frames go in a packet, which format, and the format.
pub proof fn law_server_messages(
    version: u32,
    hello: Vec<u8>,
    formats: &[AudioFormat],
    offer: Vec<u8>,
    frames_per_packet: u32,
    initial_format_index: u32,
    capture_format: &AudioFormat,
    open: Vec<u8>,
)
    requires
        call_ensures(encode_version, (version,), hello),
        call_ensures(encode_formats, (formats,), offer),
        call_ensures(
            encode_open,
            (frames_per_packet, initial_format_index, capture_format),
            open,
        ),
    ensures
        hello@.len() == 5,
        hello@[0] == 1,
        bytes::u32_le_at(hello@, 1) == version,
        offer@[0] == 2,
        bytes::u32_le_at(offer@, 1) == formats@.len() % 4294967296,
        bytes::u32_le_at(offer@, 5) == (offer@.len() - 9) % 4294967296,
        offer@.skip(9) == pdu::formats_wire(model::views(formats@)),
        open@.len() == 27,
        open@[0] == 3,
        bytes::u32_le_at(open@, 1) == frames_per_packet,
        bytes::u32_le_at(open@, 5) == initial_format_index,
        bytes::u16_le_at(open@, 9) == capture_format.format_tag,
        bytes::u16_le_at(open@, 11) == capture_format.n_channels,
        bytes::u32_le_at(open@, 13) == capture_format.n_samples_per_sec,
        bytes::u32_le_at(open@, 17) == capture_format.n_avg_bytes_per_sec,
        bytes::u16_le_at(open@, 21) == capture_format.n_block_align,
        bytes::u16_le_at(open@, 23) == capture_format.bits_per_sample,
        bytes::u16_le_at(open@, 25) == 0,
{
    assert(offer@.skip(9) =~= pdu::formats_wire(model::views(formats@)));
    let f = pdu::AudioFormatView { extra_data: None, ..capture_format@ };
    let w = f.wire();
    pdu::law_format_bytes(f, open@, 0);
    assert(w.len() == 18);
    assert(forall|i: int| 0 <= i < 18 ==> open@[9 + i] == #[trigger] w[i]);
    assert(open@[9] == w[0] && open@[10] == w[1] && open@[11] == w[2] && open@[12] == w[3]);
    assert(open@[13] == w[4] && open@[14] == w[5] && open@[15] == w[6] && open@[16] == w[7]);
    assert(open@[17] == w[8] && open@[18] == w[9] && open@[19] == w[10] && open@[20] == w[11]);
    assert(open@[21] == w[12] && open@[22] == w[13] && open@[23] == w[14] && open@[24] == w[15]);
    assert(open@[25] == w[16] && open@[26] == w[17]);
}

/// The first byte says what a client sends, and a number or the sound follows it.
pub proof fn law_client_message_bytes(input: &[u8], r: Result<ClientMessage, DecodeError>)
    requires
        call_ensures(decode_client_message, (input,), r),
        r is Ok,
    ensures
        input@.len() >= 1,
        r->Ok_0 is Version <==> input@[0] == 1,
        r->Ok_0 is Formats <==> input@[0] == 2,
        r->Ok_0 is OpenReply <==> input@[0] == 4,
        r->Ok_0 is DataIncoming <==> input@[0] == 5,
        r->Ok_0 is Data <==> input@[0] == 6,
        r->Ok_0 is FormatChange <==> input@[0] == 7,
        r->Ok_0 matches ClientMessage::Version { version } ==> version == bytes::u32_le_at(
            input@,
            1,
        ),
        r->Ok_0 matches ClientMessage::OpenReply { result } ==> result == bytes::u32_le_at(
            input@,
            1,
        ),
        r->Ok_0 matches ClientMessage::FormatChange { new_format } ==> new_format
            == bytes::u32_le_at(input@, 1),
        r->Ok_0 matches ClientMessage::Data { data } ==> data@ == input@.skip(1),
        r->Ok_0 matches ClientMessage::Formats { formats } ==> pdu::parse_formats(
            input@,
            9,
            bytes::u32_le_at(input@, 1) as int,
        ) is Ok && model::views(formats@) == pdu::parse_formats(
            input@,
            9,
            bytes::u32_le_at(input@, 1) as int,
        )->Ok_0.0,
{
    if input@.len() >= 1 {
        assert(input@.skip(1) =~= input@.subrange(1, input@.len() as int));
    }
}

} // verus!
