//! Messages of the clipboard channel, as far as text needs them. Each begins
//! with its type, flags and the length of what follows.

use vstd::prelude::*;

use crate::bytes;
use crate::cursor;
use crate::cursor::{ReadCursor, WriteBuf};
use crate::utf16;
use crate::DecodeError;

verus! {

broadcast use bytes::group_bytes;

pub const CB_MONITOR_READY: u16 = 0x0001;

pub const CB_FORMAT_LIST: u16 = 0x0002;

pub const CB_FORMAT_LIST_RESPONSE: u16 = 0x0003;

pub const CB_FORMAT_DATA_REQUEST: u16 = 0x0004;

pub const CB_FORMAT_DATA_RESPONSE: u16 = 0x0005;

pub const CB_CLIP_CAPS: u16 = 0x0007;

pub const CB_RESPONSE_OK: u16 = 0x0001;

pub const CB_RESPONSE_FAIL: u16 = 0x0002;

pub const CAPSTYPE_GENERAL: u16 = 0x0001;

pub const CB_CAPS_VERSION_2: u32 = 0x0000_0002;

pub const CB_USE_LONG_FORMAT_NAMES: u32 = 0x0000_0002;

pub const CF_UNICODETEXT: u32 = 13;

pub const CHANNEL_NAME: &'static str = "cliprdr";

pub open spec fn header(msg_type: u16, msg_flags: u16, body_len: int) -> Seq<u8> {
    bytes::le16(msg_type) + bytes::le16(msg_flags) + bytes::le32(bytes::low32(body_len))
}

/// A message with its header.
pub open spec fn message(msg_type: u16, msg_flags: u16, body: Seq<u8>) -> Seq<u8> {
    header(msg_type, msg_flags, body.len() as int) + body
}

pub fn write_header(out: &mut Vec<u8>, msg_type: u16, msg_flags: u16, body_len: usize)
    ensures
        final(out)@ == old(out)@ + header(msg_type, msg_flags, body_len as int),
{
    let ghost before = out@;
    out.write_u16_le(msg_type);
    out.write_u16_le(msg_flags);
    out.write_u32_le(bytes::len32(body_len));
    assert(out@ =~= before + header(msg_type, msg_flags, body_len as int));
}

/// One general capability set: version 2, long format names.
pub open spec fn capabilities_wire() -> Seq<u8> {
    message(
        CB_CLIP_CAPS,
        0,
        bytes::le16(1) + bytes::le16(0) + bytes::le16(CAPSTYPE_GENERAL) + bytes::le16(12)
            + bytes::le32(CB_CAPS_VERSION_2) + bytes::le32(CB_USE_LONG_FORMAT_NAMES),
    )
}

pub fn encode_capabilities() -> (out: Vec<u8>)
    ensures
        out@ == capabilities_wire(),
{
    let mut body: Vec<u8> = Vec::new();
    body.write_u16_le(1);  // sets
    body.write_u16_le(0);  // padding
    body.write_u16_le(CAPSTYPE_GENERAL);
    body.write_u16_le(12);  // length of the set
    body.write_u32_le(CB_CAPS_VERSION_2);
    body.write_u32_le(CB_USE_LONG_FORMAT_NAMES);
    let mut out: Vec<u8> = Vec::new();
    write_header(&mut out, CB_CLIP_CAPS, 0, body.len());
    out.write_slice(body.as_slice());
    assert(out@ =~= capabilities_wire());
    out
}

pub open spec fn monitor_ready_wire() -> Seq<u8> {
    message(CB_MONITOR_READY, 0, seq![])
}

pub fn encode_monitor_ready() -> (out: Vec<u8>)
    ensures
        out@ == monitor_ready_wire(),
{
    let mut out: Vec<u8> = Vec::new();
    write_header(&mut out, CB_MONITOR_READY, 0, 0);
    assert(out@ =~= monitor_ready_wire());
    out
}

/// One format with an empty name: its number, and a NUL.
pub open spec fn format_list_wire() -> Seq<u8> {
    message(CB_FORMAT_LIST, 0, bytes::le32(CF_UNICODETEXT) + bytes::le16(0))
}

/// A list with Unicode text as its one format.
pub fn encode_format_list_unicode_text() -> (out: Vec<u8>)
    ensures
        out@ == format_list_wire(),
{
    let mut body: Vec<u8> = Vec::new();
    body.write_u32_le(CF_UNICODETEXT);
    body.write_u16_le(0);
    let mut out: Vec<u8> = Vec::new();
    write_header(&mut out, CB_FORMAT_LIST, 0, body.len());
    out.write_slice(body.as_slice());
    assert(out@ =~= format_list_wire());
    out
}

pub open spec fn format_list_response_wire() -> Seq<u8> {
    message(CB_FORMAT_LIST_RESPONSE, CB_RESPONSE_OK, seq![])
}

pub fn encode_format_list_response_ok() -> (out: Vec<u8>)
    ensures
        out@ == format_list_response_wire(),
{
    let mut out: Vec<u8> = Vec::new();
    write_header(&mut out, CB_FORMAT_LIST_RESPONSE, CB_RESPONSE_OK, 0);
    assert(out@ =~= format_list_response_wire());
    out
}

pub open spec fn data_request_wire(format_id: u32) -> Seq<u8> {
    message(CB_FORMAT_DATA_REQUEST, 0, bytes::le32(format_id))
}

pub fn encode_format_data_request(format_id: u32) -> (out: Vec<u8>)
    ensures
        out@ == data_request_wire(format_id),
{
    let mut out: Vec<u8> = Vec::new();
    write_header(&mut out, CB_FORMAT_DATA_REQUEST, 0, 4);
    out.write_u32_le(format_id);
    assert(out@ =~= data_request_wire(format_id));
    out
}

/// UTF-16 text and a NUL, or nothing where there is no text to be had.
pub open spec fn data_response_wire(text: Result<Seq<char>, ()>) -> Seq<u8> {
    match text {
        Ok(s) => message(
            CB_FORMAT_DATA_RESPONSE,
            CB_RESPONSE_OK,
            utf16::unit_bytes(utf16::units(s)) + bytes::le16(0),
        ),
        Err(_) => message(CB_FORMAT_DATA_RESPONSE, CB_RESPONSE_FAIL, seq![]),
    }
}

pub fn encode_format_data_response_text(text: &str) -> (out: Vec<u8>)
    ensures
        out@ == data_response_wire(Ok(text@)),
{
    let mut body: Vec<u8> = utf16::encode_units(text);
    body.write_u16_le(0);
    let mut out: Vec<u8> = Vec::new();
    write_header(&mut out, CB_FORMAT_DATA_RESPONSE, CB_RESPONSE_OK, body.len());
    out.write_slice(body.as_slice());
    assert(out@ =~= data_response_wire(Ok(text@)));
    out
}

pub fn encode_format_data_response_error() -> (out: Vec<u8>)
    ensures
        out@ == data_response_wire(Err(())),
{
    let mut out: Vec<u8> = Vec::new();
    write_header(&mut out, CB_FORMAT_DATA_RESPONSE, CB_RESPONSE_FAIL, 0);
    assert(out@ =~= data_response_wire(Err(())));
    out
}

/// The offset after the first NUL unit from offset `p` on.
pub open spec fn after_name(b: Seq<u8>, p: int) -> Result<int, DecodeError>
    decreases b.len() - p,
{
    if p + 2 > b.len() {
        Err(cursor::short(b, p, 2))
    } else if bytes::u16_le_at(b, p) == 0 {
        Ok(p + 2)
    } else {
        after_name(b, p + 2)
    }
}

proof fn lemma_after_name(b: Seq<u8>, p: int)
    ensures
        after_name(b, p) matches Ok(q) ==> p + 2 <= q <= b.len(),
    decreases b.len() - p,
{
    if p + 2 <= b.len() && bytes::u16_le_at(b, p) != 0 {
        lemma_after_name(b, p + 2);
    }
}

/// The numbers of the formats from offset `p` on. Fewer than six bytes at the
/// end are no format.
pub open spec fn formats_from(b: Seq<u8>, p: int) -> Result<Seq<u32>, DecodeError>
    decreases b.len() - p,
    via formats_from_decreases
{
    if p + 6 > b.len() {
        Ok(seq![])
    } else {
        match after_name(b, p + 4) {
            Err(e) => Err(e),
            Ok(q) => match formats_from(b, q) {
                Err(e) => Err(e),
                Ok(rest) => Ok(seq![bytes::u32_le_at(b, p)] + rest),
            },
        }
    }
}

#[via_fn]
proof fn formats_from_decreases(b: Seq<u8>, p: int) {
    lemma_after_name(b, p + 4);
}

/// Skips a name and its NUL.
fn skip_name(cursor: &mut ReadCursor<'_>) -> (r: Result<(), DecodeError>)
    requires
        old(cursor).wf(),
    ensures
        final(cursor).wf(),
        final(cursor).data() == old(cursor).data(),
        match after_name(old(cursor).data(), old(cursor).offset()) {
            Ok(q) => r is Ok && final(cursor).offset() == q,
            Err(e) => r == Err::<(), DecodeError>(e),
        },
{
    let ghost b = cursor.data();
    loop
        invariant
            cursor.wf(),
            cursor.data() == b,
            b == old(cursor).data(),
            after_name(b, cursor.offset()) == after_name(old(cursor).data(), old(cursor).offset()),
        decreases b.len() - cursor.offset(),
    {
        if cursor.take_u16_le()? == 0 {
            return Ok(());
        }
    }
}

/// The numbers of the formats of a list; names are passed over.
fn decode_format_list(body: &[u8]) -> (r: Result<Vec<u32>, DecodeError>)
    ensures
        match formats_from(body@, 0) {
            Ok(ids) => r is Ok && r->Ok_0@ == ids,
            Err(e) => r == Err::<Vec<u32>, DecodeError>(e),
        },
{
    let ghost b = body@;
    let mut cursor = ReadCursor::new(body);
    let mut ids: Vec<u32> = Vec::new();
    proof {
        if formats_from(b, 0) is Ok {
            assert(ids@ + formats_from(b, 0)->Ok_0 =~= formats_from(b, 0)->Ok_0);
        }
    }
    while cursor.remaining() >= 6
        invariant
            cursor.wf(),
            cursor.data() == b,
            b == body@,
            match formats_from(b, cursor.offset()) {
                Ok(rest) => formats_from(b, 0) == Ok::<Seq<u32>, DecodeError>(ids@ + rest),
                Err(e) => formats_from(b, 0) == Err::<Seq<u32>, DecodeError>(e),
            },
        decreases b.len() - cursor.offset(),
    {
        let ghost p = cursor.offset();
        let ghost had = ids@;
        proof {
            lemma_after_name(b, p + 4);
        }
        let id: u32 = cursor.take_u32_le()?;
        skip_name(&mut cursor)?;
        ids.push(id);
        proof {
            match formats_from(b, cursor.offset()) {
                Ok(rest) => {
                    assert(had.push(id) + rest =~= had + (seq![id] + rest));
                },
                Err(_) => {},
            }
        }
    }
    assert(ids@ + Seq::<u32>::empty() =~= ids@);
    Ok(ids)
}

#[derive(Debug, PartialEq, Eq)]
pub enum ClientMessage {
    FormatList(Vec<u32>),
    FormatListResponse,
    FormatDataRequest(u32),
    /// The text, or that there is none to be had.
    FormatDataResponse(Result<String, ()>),
    Other,
}

pub enum ClientMessageView {
    FormatList(Seq<u32>),
    FormatListResponse,
    FormatDataRequest(u32),
    FormatDataResponse(Result<Seq<char>, ()>),
    Other,
}

/// A text, where there is one.
pub open spec fn text_view(r: Result<String, ()>) -> Result<Seq<char>, ()> {
    match r {
        Ok(s) => Ok(s@),
        Err(_) => Err(()),
    }
}

impl View for ClientMessage {
    type V = ClientMessageView;

    open spec fn view(&self) -> ClientMessageView {
        match self {
            ClientMessage::FormatList(ids) => ClientMessageView::FormatList(ids@),
            ClientMessage::FormatListResponse => ClientMessageView::FormatListResponse,
            ClientMessage::FormatDataRequest(id) => ClientMessageView::FormatDataRequest(*id),
            ClientMessage::FormatDataResponse(r) => ClientMessageView::FormatDataResponse(
                text_view(*r),
            ),
            ClientMessage::Other => ClientMessageView::Other,
        }
    }
}

impl Clone for ClientMessage {
    fn clone(&self) -> (r: Self)
        ensures
            r@ == self@,
    {
        match self {
            ClientMessage::FormatList(ids) => ClientMessage::FormatList(ids.clone()),
            ClientMessage::FormatListResponse => ClientMessage::FormatListResponse,
            ClientMessage::FormatDataRequest(id) => ClientMessage::FormatDataRequest(*id),
            ClientMessage::FormatDataResponse(Ok(text)) => ClientMessage::FormatDataResponse(
                Ok(text.clone()),
            ),
            ClientMessage::FormatDataResponse(Err(_)) => ClientMessage::FormatDataResponse(Err(())),
            ClientMessage::Other => ClientMessage::Other,
        }
    }
}

/// The message with that type, those flags and that body.
pub open spec fn parse_body(msg_type: u16, msg_flags: u16, body: Seq<u8>) -> Result<
    ClientMessageView,
    DecodeError,
> {
    if msg_type == CB_FORMAT_LIST {
        match formats_from(body, 0) {
            Err(e) => Err(e),
            Ok(ids) => Ok(ClientMessageView::FormatList(ids)),
        }
    } else if msg_type == CB_FORMAT_LIST_RESPONSE {
        Ok(ClientMessageView::FormatListResponse)
    } else if msg_type == CB_FORMAT_DATA_REQUEST {
        if body.len() < 4 {
            Err(cursor::short(body, 0, 4))
        } else {
            Ok(ClientMessageView::FormatDataRequest(bytes::u32_le_at(body, 0)))
        }
    } else if msg_type == CB_FORMAT_DATA_RESPONSE {
        if msg_flags & CB_RESPONSE_FAIL != 0 {
            Ok(ClientMessageView::FormatDataResponse(Err(())))
        } else {
            Ok(ClientMessageView::FormatDataResponse(Ok(utf16::fixed_text(body))))
        }
    } else {
        Ok(ClientMessageView::Other)
    }
}

/// The message in `b`. Types that are of no use here are read and passed over.
pub open spec fn parse_client_message(b: Seq<u8>) -> Result<ClientMessageView, DecodeError> {
    if b.len() < 4 {
        Err(cursor::short(b, (b.len() as int) / 2 * 2, 2))
    } else if b.len() < 8 {
        Err(cursor::short(b, 4, 4))
    } else {
        let n = bytes::u32_le_at(b, 4);
        if 8 + n > b.len() {
            Err(cursor::short(b, 8, n as int))
        } else {
            parse_body(bytes::u16_le_at(b, 0), bytes::u16_le_at(b, 2), b.subrange(8, 8 + n))
        }
    }
}

pub fn decode_client_message(input: &[u8]) -> (r: Result<ClientMessage, DecodeError>)
    ensures
        cursor::decodes_view(r, parse_client_message(input@)),
{
    let mut cursor = ReadCursor::new(input);
    let msg_type: u16 = cursor.take_u16_le()?;
    let msg_flags: u16 = cursor.take_u16_le()?;
    let data_len: u32 = cursor.take_u32_le()?;
    let body: &[u8] = cursor.take_slice(data_len as usize)?;
    if msg_type == CB_FORMAT_LIST {
        Ok(ClientMessage::FormatList(decode_format_list(body)?))
    } else if msg_type == CB_FORMAT_LIST_RESPONSE {
        Ok(ClientMessage::FormatListResponse)
    } else if msg_type == CB_FORMAT_DATA_REQUEST {
        let mut inner = ReadCursor::new(body);
        let format: u32 = inner.take_u32_le()?;
        Ok(ClientMessage::FormatDataRequest(format))
    } else if msg_type == CB_FORMAT_DATA_RESPONSE {
        if msg_flags & CB_RESPONSE_FAIL != 0 {
            Ok(ClientMessage::FormatDataResponse(Err(())))
        } else {
            Ok(ClientMessage::FormatDataResponse(Ok(utf16::read_fixed(body))))
        }
    } else {
        Ok(ClientMessage::Other)
    }
}

proof fn lemma_message(msg_type: u16, msg_flags: u16, body: Seq<u8>)
    requires
        body.len() <= u32::MAX,
    ensures
        parse_client_message(message(msg_type, msg_flags, body)) == parse_body(
            msg_type,
            msg_flags,
            body,
        ),
{
    broadcast use bytes::group_holds;

    let b = message(msg_type, msg_flags, body);
    bytes::lemma_holds_self(b);
    bytes::lemma_holds_add(b, 0, header(msg_type, msg_flags, body.len() as int), body);
}

/// The format list that is sent reads as the one format that it offers.
pub proof fn law_format_list_round_trip()
    ensures
        parse_client_message(format_list_wire()) == Ok::<ClientMessageView, DecodeError>(
            ClientMessageView::FormatList(seq![CF_UNICODETEXT]),
        ),
{
    broadcast use bytes::group_holds;

    let body = bytes::le32(CF_UNICODETEXT) + bytes::le16(0);
    lemma_message(CB_FORMAT_LIST, 0, body);
    bytes::lemma_holds_self(body);
    assert(after_name(body, 4) == Ok::<int, DecodeError>(6));
    assert(formats_from(body, 6) == Ok::<Seq<u32>, DecodeError>(seq![]));
    assert(seq![CF_UNICODETEXT] + Seq::<u32>::empty() =~= seq![CF_UNICODETEXT]);
}

/// A request for data reads as a request for the same format.
pub proof fn law_data_request_round_trip(format_id: u32)
    ensures
        parse_client_message(data_request_wire(format_id)) == Ok::<ClientMessageView, DecodeError>(
            ClientMessageView::FormatDataRequest(format_id),
        ),
{
    lemma_message(CB_FORMAT_DATA_REQUEST, 0, bytes::le32(format_id));
}

/// A response reads as the text it was made from, where the text holds no NUL
/// and takes less than 4 GiB, and a refusal as a refusal.
pub proof fn law_data_response_round_trip(text: Result<Seq<char>, ()>)
    requires
        text matches Ok(s) ==> utf16::units(s).len() <= 0x7FFF_FFFE && (forall|i: int|
            0 <= i < s.len() ==> #[trigger] s[i] != '\0'),
    ensures
        parse_client_message(data_response_wire(text)) == Ok::<ClientMessageView, DecodeError>(
            ClientMessageView::FormatDataResponse(text),
        ),
{
    match text {
        Ok(s) => {
            let u = utf16::units(s);
            let body = utf16::unit_bytes(u) + bytes::le16(0);
            lemma_message(CB_FORMAT_DATA_RESPONSE, CB_RESPONSE_OK, body);
            assert(1u16 & 2u16 == 0) by (bit_vector);
            utf16::lemma_unit_bytes_push(u, 0);
            assert(utf16::fixed_units(s, u.len() + 1) =~= u.push(0));
            utf16::law_fixed(s, u.len() + 1);
        },
        Err(e) => {
            assert(e == ());
            lemma_message(CB_FORMAT_DATA_RESPONSE, CB_RESPONSE_FAIL, seq![]);
            assert(2u16 & 2u16 != 0) by (bit_vector);
        },
    }
}

/// What is always the same: what the clipboard can do, that it is ready, the one format
/// that is offered, and that a list was taken.
pub proof fn law_fixed_messages(
    capabilities: Vec<u8>,
    ready: Vec<u8>,
    formats: Vec<u8>,
    taken: Vec<u8>,
    refused: Vec<u8>,
)
    requires
        call_ensures(encode_capabilities, (), capabilities),
        call_ensures(encode_monitor_ready, (), ready),
        call_ensures(encode_format_list_unicode_text, (), formats),
        call_ensures(encode_format_list_response_ok, (), taken),
        call_ensures(encode_format_data_response_error, (), refused),
    ensures
        capabilities@.len() == 24,
        bytes::u16_le_at(capabilities@, 0) == 7,
        bytes::u16_le_at(capabilities@, 2) == 0,
        bytes::u32_le_at(capabilities@, 4) == 16,
        bytes::u16_le_at(capabilities@, 8) == 1,
        bytes::u16_le_at(capabilities@, 10) == 0,
        bytes::u16_le_at(capabilities@, 12) == 1,
        bytes::u16_le_at(capabilities@, 14) == 12,
        bytes::u32_le_at(capabilities@, 16) == 2,
        bytes::u32_le_at(capabilities@, 20) == 2,
        ready@ == seq![1u8, 0, 0, 0, 0, 0, 0, 0],
        formats@ == seq![2u8, 0, 0, 0, 6, 0, 0, 0, 13, 0, 0, 0, 0, 0],
        taken@ == seq![3u8, 0, 1, 0, 0, 0, 0, 0],
        refused@ == seq![5u8, 0, 2, 0, 0, 0, 0, 0],
{
    reveal(bytes::le16);
    reveal(bytes::le32);
    reveal(bytes::u16_le);
    reveal(bytes::u32_le);
    assert(ready@ =~= seq![1u8, 0, 0, 0, 0, 0, 0, 0]);
    assert(formats@ =~= seq![2u8, 0, 0, 0, 6, 0, 0, 0, 13, 0, 0, 0, 0, 0]);
    assert(taken@ =~= seq![3u8, 0, 1, 0, 0, 0, 0, 0]);
    assert(refused@ =~= seq![5u8, 0, 2, 0, 0, 0, 0, 0]);
}

/// Data is asked for by the number of a format, and text is sent with its length and a
/// NUL at its end.
pub proof fn law_data_bytes(format_id: u32, request: Vec<u8>, text: &str, response: Vec<u8>)
    requires
        call_ensures(encode_format_data_request, (format_id,), request),
        call_ensures(encode_format_data_response_text, (text,), response),
    ensures
        request@.len() == 12,
        bytes::u16_le_at(request@, 0) == 4,
        bytes::u16_le_at(request@, 2) == 0,
        bytes::u32_le_at(request@, 4) == 4,
        bytes::u32_le_at(request@, 8) == format_id,
        bytes::u16_le_at(response@, 0) == 5,
        bytes::u16_le_at(response@, 2) == 1,
        bytes::u32_le_at(response@, 4) == (2 * utf16::units(text@).len() + 2) % 4294967296,
        response@.len() == 8 + 2 * utf16::units(text@).len() + 2,
        response@.subrange(8, response@.len() - 2) == utf16::unit_bytes(utf16::units(text@)),
        response@[response@.len() - 2] == 0,
        response@[response@.len() - 1] == 0,
{
    bytes::law_number_bytes(0, 0, 0);
    assert(response@.subrange(8, response@.len() - 2) =~= utf16::unit_bytes(utf16::units(text@)));
}

/// What a client sends is known by its first two bytes, and a response by the bit 2 of
/// the next two says that there is no text.
pub proof fn law_client_message_bytes(input: &[u8], r: Result<ClientMessage, DecodeError>)
    requires
        call_ensures(decode_client_message, (input,), r),
        r is Ok,
    ensures
        input@.len() >= 8 + bytes::u32_le_at(input@, 4),
        r->Ok_0 is FormatList <==> bytes::u16_le_at(input@, 0) == 2,
        r->Ok_0 is FormatListResponse <==> bytes::u16_le_at(input@, 0) == 3,
        r->Ok_0 is FormatDataRequest <==> bytes::u16_le_at(input@, 0) == 4,
        r->Ok_0 is FormatDataResponse <==> bytes::u16_le_at(input@, 0) == 5,
        r->Ok_0 matches ClientMessage::FormatDataRequest(id) ==> id == bytes::u32_le_at(input@, 8),
        r->Ok_0 matches ClientMessage::FormatDataResponse(t) ==> {
            &&& t is Err <==> bytes::u16_le_at(input@, 2) / 2 % 2 == 1
            &&& t matches Ok(s) ==> s@ == utf16::fixed_text(
                input@.subrange(8, 8 + bytes::u32_le_at(input@, 4)),
            )
        },
        r->Ok_0 matches ClientMessage::FormatList(ids) ==> bytes::u32_le_at(input@, 4) >= 6
            ==> ids@.len() >= 1 && ids@[0] == bytes::u32_le_at(input@, 8),
{
    let b = input@;
    let n = bytes::u32_le_at(b, 4);
    let body = b.subrange(8, 8 + n);
    assert(forall|i: int| 0 <= i < body.len() ==> #[trigger] body[i] == b[8 + i]);
    let x = bytes::u16_le_at(b, 2);
    assert(x & 2 != 0 <==> x / 2 % 2 == 1) by (bit_vector);
}

/// A list of formats is a number and a name up to its NUL, again and again.
pub proof fn law_formats_from(b: Seq<u8>, p: int)
    requires
        0 <= p,
    ensures
        p + 6 > b.len() ==> formats_from(b, p) == Ok::<Seq<u32>, DecodeError>(seq![]),
        p + 6 <= b.len() && b[p + 4] == 0 && b[p + 5] == 0 ==> formats_from(b, p) == (
        match formats_from(b, p + 6) {
            Ok(rest) => Ok::<Seq<u32>, DecodeError>(seq![bytes::u32_le_at(b, p)] + rest),
            Err(e) => Err(e),
        }),
{
    bytes::law_byte_order(b, p + 4);
}

} // verus!
