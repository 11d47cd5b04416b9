//! Messages of the channel that carries the dynamic channels. Each begins with
//! one byte: a command in the high half, and below it two selectors for the
//! widths of the numbers that follow.

use vstd::prelude::*;
use vstd::slice::{slice_subrange, slice_to_vec};
use vstd::utf8;

use crate::bytes;
use crate::cursor;
use crate::cursor::{ReadCursor, WriteBuf};
use crate::model;
use crate::DecodeError;

verus! {

broadcast use {bytes::group_bytes, model::lemma_views_push};

pub const CMD_CREATE: u8 = 0x01;

pub const CMD_DATA_FIRST: u8 = 0x02;

pub const CMD_DATA: u8 = 0x03;

pub const CMD_CLOSE: u8 = 0x04;

pub const CMD_CAPABILITY: u8 = 0x05;

pub const CHANNEL_NAME: &'static str = "drdynvc";

/// The longest payload that goes out in one message. With the header of its
/// message it fits one chunk of the static channel.
pub const MAX_DATA_SIZE: usize = 1590;

/// The selector for the narrowest field that holds `value`.
pub open spec fn selector(value: u32) -> u8 {
    if value <= 0xFF {
        0
    } else if value <= 0xFFFF {
        1
    } else {
        2
    }
}

/// `value` in the narrowest field that holds it.
pub open spec fn variable(value: u32) -> Seq<u8> {
    if value <= 0xFF {
        seq![value as u8]
    } else if value <= 0xFFFF {
        bytes::le16(value as u16)
    } else {
        bytes::le32(value)
    }
}

/// The number at offset `p` in a field of the selected width, and the offset
/// after it.
pub open spec fn parse_variable(b: Seq<u8>, p: int, selector: u8) -> Result<
    (u32, int),
    DecodeError,
> {
    if selector == 0 {
        if p + 1 > b.len() {
            Err(cursor::short(b, p, 1))
        } else {
            Ok((b[p] as u32, p + 1))
        }
    } else if selector == 1 {
        if p + 2 > b.len() {
            Err(cursor::short(b, p, 2))
        } else {
            Ok((bytes::u16_le_at(b, p) as u32, p + 2))
        }
    } else if selector == 2 {
        if p + 4 > b.len() {
            Err(cursor::short(b, p, 4))
        } else {
            Ok((bytes::u32_le_at(b, p), p + 4))
        }
    } else {
        Err(cursor::invalid("dvc.field_selector", "selector value 3 is reserved/unused"))
    }
}

fn field_selector(value: u32) -> (s: u8)
    ensures
        s == selector(value),
{
    if value <= 0xFF {
        0
    } else if value <= 0xFFFF {
        1
    } else {
        2
    }
}

fn write_variable(out: &mut Vec<u8>, value: u32)
    ensures
        final(out)@ == old(out)@ + variable(value),
{
    if value <= 0xFF {
        out.write_u8(value as u8);
    } else if value <= 0xFFFF {
        out.write_u16_le(value as u16);
    } else {
        out.write_u32_le(value);
    }
}

fn read_variable(cursor: &mut ReadCursor<'_>, selector: u8) -> (r: Result<u32, DecodeError>)
    requires
        old(cursor).wf(),
    ensures
        final(cursor).wf(),
        final(cursor).data() == old(cursor).data(),
        cursor::reads(
            r,
            final(cursor).offset(),
            parse_variable(old(cursor).data(), old(cursor).offset(), selector),
        ),
{
    match selector {
        0 => Ok(cursor.take_u8()? as u32),
        1 => Ok(cursor.take_u16_le()? as u32),
        2 => {
            let v: u32 = cursor.take_u32_le()?;
            Ok(v)
        },
        _ => Err(
            DecodeError::InvalidValue {
                field: "dvc.field_selector",
                reason: "selector value 3 is reserved/unused",
            },
        ),
    }
}

/// Version 2, with no priority charges.
pub open spec fn capability_request_wire() -> Seq<u8> {
    seq![80u8] + seq![0u8] + bytes::le16(2) + bytes::le16(0) + bytes::le16(0) + bytes::le16(0)
        + bytes::le16(0)
}

pub fn encode_capability_request() -> (out: Vec<u8>)
    ensures
        out@ == capability_request_wire(),
{
    let mut out: Vec<u8> = Vec::new();
    out.write_u8(CMD_CAPABILITY * 16);
    out.write_u8(0);  // padding
    out.write_u16_le(2);  // version
    out.write_u16_le(0);  // priority charges
    out.write_u16_le(0);
    out.write_u16_le(0);
    out.write_u16_le(0);
    assert(out@ =~= capability_request_wire());
    out
}

pub open spec fn create_request_wire(channel_id: u32, channel_name: Seq<char>) -> Seq<u8> {
    seq![(16 + selector(channel_id)) as u8] + variable(channel_id) + utf8::encode_utf8(channel_name)
        + seq![0u8]
}

pub fn encode_create_request(channel_id: u32, channel_name: &str) -> (out: Vec<u8>)
    ensures
        out@ == create_request_wire(channel_id, channel_name@),
{
    let mut out: Vec<u8> = Vec::new();
    out.write_u8(CMD_CREATE * 16 + field_selector(channel_id));
    write_variable(&mut out, channel_id);
    out.write_slice(channel_name.as_bytes());
    out.write_u8(0);
    assert(out@ =~= create_request_wire(channel_id, channel_name@));
    out
}

pub open spec fn close_wire(channel_id: u32) -> Seq<u8> {
    seq![(64 + selector(channel_id)) as u8] + variable(channel_id)
}

pub fn encode_close(channel_id: u32) -> (out: Vec<u8>)
    ensures
        out@ == close_wire(channel_id),
{
    let mut out: Vec<u8> = Vec::new();
    out.write_u8(CMD_CLOSE * 16 + field_selector(channel_id));
    write_variable(&mut out, channel_id);
    assert(out@ =~= close_wire(channel_id));
    out
}

pub open spec fn data_wire(channel_id: u32, data: Seq<u8>) -> Seq<u8> {
    seq![(48 + selector(channel_id)) as u8] + variable(channel_id) + data
}

pub fn encode_data(channel_id: u32, data: &[u8]) -> (out: Vec<u8>)
    ensures
        out@ == data_wire(channel_id, data@),
{
    let mut out: Vec<u8> = Vec::new();
    out.write_u8(CMD_DATA * 16 + field_selector(channel_id));
    write_variable(&mut out, channel_id);
    out.write_slice(data);
    assert(out@ =~= data_wire(channel_id, data@));
    out
}

pub open spec fn data_first_wire(
    channel_id: u32,
    total_length: u32,
    first_chunk: Seq<u8>,
) -> Seq<u8> {
    seq![(32 + 4 * selector(total_length) + selector(channel_id)) as u8] + variable(channel_id)
        + variable(total_length) + first_chunk
}

pub fn encode_data_first(channel_id: u32, total_length: u32, first_chunk: &[u8]) -> (out: Vec<u8>)
    ensures
        out@ == data_first_wire(channel_id, total_length, first_chunk@),
{
    let mut out: Vec<u8> = Vec::new();
    out.write_u8(
        CMD_DATA_FIRST * 16 + 4 * field_selector(total_length) + field_selector(channel_id),
    );
    write_variable(&mut out, channel_id);
    write_variable(&mut out, total_length);
    out.write_slice(first_chunk);
    assert(out@ =~= data_first_wire(channel_id, total_length, first_chunk@));
    out
}

/// How many messages a payload of `n` bytes takes.
pub open spec fn piece_count(n: int) -> int {
    if n <= 1590 {
        1
    } else {
        (n + 1589) / 1590
    }
}

/// The bytes of a payload that go into its message `i`.
pub open spec fn piece(payload: Seq<u8>, i: int) -> Seq<u8> {
    payload.subrange(
        1590 * i,
        if 1590 * (i + 1) < payload.len() {
            1590 * (i + 1)
        } else {
            payload.len() as int
        },
    )
}

/// Message `i` of those that carry a payload: one message alone, or a first one
/// that gives the whole length, and more.
pub open spec fn payload_message(channel_id: u32, payload: Seq<u8>, i: int) -> Seq<u8> {
    if i == 0 && payload.len() > 1590 {
        data_first_wire(channel_id, bytes::low32(payload.len() as int), piece(payload, 0))
    } else {
        data_wire(channel_id, piece(payload, i))
    }
}

/// The messages that carry a payload.
pub open spec fn payload_messages(channel_id: u32, payload: Seq<u8>) -> Seq<Seq<u8>> {
    Seq::new(
        piece_count(payload.len() as int) as nat,
        |i: int| payload_message(channel_id, payload, i),
    )
}

/// Cuts a payload into as many messages as it takes.
pub fn encode_channel_payload(channel_id: u32, payload: &[u8]) -> (out: Vec<Vec<u8>>)
    ensures
        model::views(out@) == payload_messages(channel_id, payload@),
{
    let n: usize = payload.len();
    let mut out: Vec<Vec<u8>> = Vec::new();
    if n <= MAX_DATA_SIZE {
        let message: Vec<u8> = encode_data(channel_id, payload);
        assert(piece(payload@, 0) =~= payload@);
        out.push(message);
        assert(model::views(out@) =~= payload_messages(channel_id, payload@));
        return out;
    }
    out.push(
        encode_data_first(channel_id, bytes::len32(n), slice_subrange(payload, 0, MAX_DATA_SIZE)),
    );
    let mut start: usize = MAX_DATA_SIZE;
    let ghost mut i: int = 1;
    while start < n
        invariant
            n == payload@.len(),
            n > 1590,
            1 <= i,
            start <= n,
            start < n ==> start == 1590 * i,
            start == n ==> i == piece_count(n as int),
            out@.len() == i,
            forall|j: int|
                0 <= j < i ==> (#[trigger] out@[j])@ == payload_message(channel_id, payload@, j),
        decreases n - start,
    {
        let end: usize = if n - start <= MAX_DATA_SIZE {
            n
        } else {
            start + MAX_DATA_SIZE
        };
        let message: Vec<u8> = encode_data(channel_id, slice_subrange(payload, start, end));
        out.push(message);
        start = end;
        proof {
            i = i + 1;
        }
    }
    assert(model::views(out@) =~= payload_messages(channel_id, payload@));
    out
}

#[derive(Debug, Clone, PartialEq, Eq)]
pub struct CreateResponse {
    pub channel_id: u32,
    pub creation_status: u32,
}

impl CreateResponse {
    pub fn is_ok(&self) -> (r: bool)
        ensures
            r == (self.creation_status == 0),
    {
        self.creation_status == 0
    }
}

#[derive(Debug, Clone, PartialEq, Eq)]
pub enum ClientMessage {
    CapabilityResponse { version: u16 },
    CreateResponse(CreateResponse),
    Data { channel_id: u32, data: Vec<u8> },
    DataFirst { channel_id: u32, total_length: u32, data: Vec<u8> },
    Close { channel_id: u32 },
    Other,
}

pub enum ClientMessageView {
    CapabilityResponse { version: u16 },
    CreateResponse { channel_id: u32, creation_status: u32 },
    Data { channel_id: u32, data: Seq<u8> },
    DataFirst { channel_id: u32, total_length: u32, data: Seq<u8> },
    Close { channel_id: u32 },
    Other,
}

impl View for ClientMessage {
    type V = ClientMessageView;

    open spec fn view(&self) -> ClientMessageView {
        match self {
            ClientMessage::CapabilityResponse { version } => {
                ClientMessageView::CapabilityResponse { version: *version }
            },
            ClientMessage::CreateResponse(r) => ClientMessageView::CreateResponse {
                channel_id: r.channel_id,
                creation_status: r.creation_status,
            },
            ClientMessage::Data { channel_id, data } => ClientMessageView::Data {
                channel_id: *channel_id,
                data: data@,
            },
            ClientMessage::DataFirst { channel_id, total_length, data } => {
                ClientMessageView::DataFirst {
                    channel_id: *channel_id,
                    total_length: *total_length,
                    data: data@,
                }
            },
            ClientMessage::Close { channel_id } => ClientMessageView::Close {
                channel_id: *channel_id,
            },
            ClientMessage::Other => ClientMessageView::Other,
        }
    }
}

/// The message in `b`. Commands that are of no use here are passed over.
pub open spec fn parse_client_message(b: Seq<u8>) -> Result<ClientMessageView, DecodeError> {
    if b.len() < 1 {
        Err(cursor::short(b, 0, 1))
    } else {
        let cmd = b[0] / 16;
        let sp = b[0] / 4 % 4;
        let cb_id = b[0] % 4;
        if cmd == CMD_CAPABILITY {
            if b.len() < 2 {
                Err(cursor::short(b, 1, 1))
            } else if b.len() < 4 {
                Err(cursor::short(b, 2, 2))
            } else {
                Ok(ClientMessageView::CapabilityResponse { version: bytes::u16_le_at(b, 2) })
            }
        } else if cmd == CMD_CREATE || cmd == CMD_DATA || cmd == CMD_DATA_FIRST || cmd
            == CMD_CLOSE {
            match parse_variable(b, 1, cb_id) {
                Err(e) => Err(e),
                Ok((channel_id, p)) => if cmd == CMD_CREATE {
                    if p + 4 > b.len() {
                        Err(cursor::short(b, p, 4))
                    } else {
                        Ok(
                            ClientMessageView::CreateResponse {
                                channel_id,
                                creation_status: bytes::u32_le_at(b, p),
                            },
                        )
                    }
                } else if cmd == CMD_DATA {
                    Ok(
                        ClientMessageView::Data {
                            channel_id,
                            data: b.subrange(p, b.len() as int),
                        },
                    )
                } else if cmd == CMD_DATA_FIRST {
                    match parse_variable(b, p, sp) {
                        Err(e) => Err(e),
                        Ok((total_length, q)) => Ok(
                            ClientMessageView::DataFirst {
                                channel_id,
                                total_length,
                                data: b.subrange(q, b.len() as int),
                            },
                        ),
                    }
                } else {
                    Ok(ClientMessageView::Close { channel_id })
                },
            }
        } else {
            Ok(ClientMessageView::Other)
        }
    }
}

pub fn decode_client_message(input: &[u8]) -> (r: Result<ClientMessage, DecodeError>)
    ensures
        cursor::decodes_view(r, parse_client_message(input@)),
{
    let mut cursor = ReadCursor::new(input);
    let header: u8 = cursor.take_u8()?;
    let cmd: u8 = header / 16;
    let sp: u8 = header / 4 % 4;
    let cb_id: u8 = header % 4;
    if cmd == CMD_CAPABILITY {
        let _pad: u8 = cursor.take_u8()?;
        let version: u16 = cursor.take_u16_le()?;
        Ok(ClientMessage::CapabilityResponse { version })
    } else if cmd == CMD_CREATE {
        let channel_id: u32 = read_variable(&mut cursor, cb_id)?;
        let creation_status: u32 = cursor.take_u32_le()?;
        Ok(ClientMessage::CreateResponse(CreateResponse { channel_id, creation_status }))
    } else if cmd == CMD_DATA {
        let channel_id: u32 = read_variable(&mut cursor, cb_id)?;
        let data: Vec<u8> = slice_to_vec(cursor.read_rest());
        Ok(ClientMessage::Data { channel_id, data })
    } else if cmd == CMD_DATA_FIRST {
        let channel_id: u32 = read_variable(&mut cursor, cb_id)?;
        let total_length: u32 = read_variable(&mut cursor, sp)?;
        let data: Vec<u8> = slice_to_vec(cursor.read_rest());
        Ok(ClientMessage::DataFirst { channel_id, total_length, data })
    } else if cmd == CMD_CLOSE {
        let channel_id: u32 = read_variable(&mut cursor, cb_id)?;
        Ok(ClientMessage::Close { channel_id })
    } else {
        Ok(ClientMessage::Other)
    }
}

proof fn lemma_variable(b: Seq<u8>, p: int, value: u32)
    requires
        bytes::holds_at(b, p, variable(value)),
    ensures
        parse_variable(b, p, selector(value)) == Ok::<(u32, int), DecodeError>(
            (value, p + variable(value).len()),
        ),
{
    broadcast use bytes::group_holds;

}

/// A message that closes a channel reads as one.
pub proof fn law_close_round_trip(channel_id: u32)
    ensures
        parse_client_message(close_wire(channel_id)) == Ok::<ClientMessageView, DecodeError>(
            ClientMessageView::Close { channel_id },
        ),
{
    let b = close_wire(channel_id);
    let h = (64 + selector(channel_id)) as u8;
    bytes::lemma_holds_self(b);
    bytes::lemma_holds_add(b, 0, seq![h], variable(channel_id));
    bytes::lemma_holds_u8(b, 0, h);
    lemma_variable(b, 1, channel_id);
}

/// Data reads as the data that was sent.
pub proof fn law_data_round_trip(channel_id: u32, data: Seq<u8>)
    ensures
        parse_client_message(data_wire(channel_id, data)) == Ok::<ClientMessageView, DecodeError>(
            ClientMessageView::Data { channel_id, data },
        ),
{
    let b = data_wire(channel_id, data);
    let h = (48 + selector(channel_id)) as u8;
    bytes::lemma_holds_self(b);
    bytes::lemma_holds_add(b, 0, seq![h] + variable(channel_id), data);
    bytes::lemma_holds_add(b, 0, seq![h], variable(channel_id));
    bytes::lemma_holds_u8(b, 0, h);
    lemma_variable(b, 1, channel_id);
    bytes::lemma_holds_bounds(b, 1 + variable(channel_id).len() as int, data);
}

/// The first part of longer data reads as that part, with the whole length.
pub proof fn law_data_first_round_trip(channel_id: u32, total_length: u32, data: Seq<u8>)
    ensures
        parse_client_message(data_first_wire(channel_id, total_length, data)) == Ok::<
            ClientMessageView,
            DecodeError,
        >(ClientMessageView::DataFirst { channel_id, total_length, data }),
{
    let b = data_first_wire(channel_id, total_length, data);
    let h = (32 + 4 * selector(total_length) + selector(channel_id)) as u8;
    let v = variable(channel_id);
    let t = variable(total_length);
    bytes::lemma_holds_self(b);
    bytes::lemma_holds_add(b, 0, seq![h] + v + t, data);
    bytes::lemma_holds_add(b, 0, seq![h] + v, t);
    bytes::lemma_holds_add(b, 0, seq![h], v);
    bytes::lemma_holds_u8(b, 0, h);
    lemma_variable(b, 1, channel_id);
    lemma_variable(b, 1 + v.len() as int, total_length);
    bytes::lemma_holds_bounds(b, 1 + v.len() + t.len() as int, data);
}

/// A number of a channel is written in one, two or four bytes, low byte first, and
/// the two bits that say how wide it is are 0, 1 or 2.
pub proof fn law_number_width(v: u32, b: Seq<u8>, p: int, w: u8)
    requires
        0 <= p,
        p + 4 <= b.len(),
    ensures
        v < 256 ==> selector(v) == 0 && variable(v) == seq![v as u8],
        256 <= v < 65536 ==> selector(v) == 1 && variable(v) == seq![
            (v % 256) as u8,
            (v / 256) as u8,
        ],
        65536 <= v ==> selector(v) == 2 && variable(v).len() == 4 && bytes::u32_le_at(variable(v), 0)
            == v,
        w == 0 ==> parse_variable(b, p, w) == Ok::<(u32, int), DecodeError>((b[p] as u32, p + 1)),
        w == 1 ==> parse_variable(b, p, w) == Ok::<(u32, int), DecodeError>(
            ((b[p] + 256 * b[p + 1]) as u32, p + 2),
        ),
        w == 2 ==> parse_variable(b, p, w) == Ok::<(u32, int), DecodeError>(
            (bytes::u32_le_at(b, p), p + 4),
        ),
        w > 2 ==> parse_variable(b, p, w) is Err,
{
    bytes::law_byte_order(b, p);
    if 256 <= v < 65536 {
        reveal(bytes::le16);
        assert(variable(v) =~= seq![(v % 256) as u8, (v / 256) as u8]);
    }
}

/// Messages to a client have the command in the high half of the first byte: 5 for
/// the negotiation, 1 to open a channel, 4 to close it, 3 for data and 2 for the
/// first part of longer data, which gives the whole length.
pub proof fn law_server_messages(
    channel_id: u32,
    channel_name: &str,
    total_length: u32,
    data: &[u8],
    negotiation: Vec<u8>,
    create: Vec<u8>,
    close: Vec<u8>,
    plain: Vec<u8>,
    first: Vec<u8>,
)
    requires
        call_ensures(encode_capability_request, (), negotiation),
        call_ensures(encode_create_request, (channel_id, channel_name), create),
        call_ensures(encode_close, (channel_id,), close),
        call_ensures(encode_data, (channel_id, data), plain),
        call_ensures(encode_data_first, (channel_id, total_length, data), first),
        channel_id < 256,
    ensures
        negotiation@ == seq![0x50u8, 0, 2, 0, 0, 0, 0, 0, 0, 0, 0, 0],
        create@[0] == 0x10,
        create@[1] == channel_id,
        create@.subrange(2, create@.len() - 1) == utf8::encode_utf8(channel_name@),
        create@[create@.len() - 1] == 0,
        close@ == seq![0x40u8, channel_id as u8],
        plain@[0] == 0x30,
        plain@[1] == channel_id,
        plain@.skip(2) == data@,
        first@[1] == channel_id,
        total_length < 256 ==> first@[0] == 0x20 && first@[2] == total_length && first@.skip(3)
            == data@,
        256 <= total_length < 65536 ==> first@[0] == 0x24 && first@[2] + 256 * first@[3]
            == total_length && first@.skip(4) == data@,
        65536 <= total_length ==> first@[0] == 0x28 && bytes::u32_le_at(first@, 2) == total_length
            && first@.skip(6) == data@,
{
    reveal(bytes::le16);
    assert(negotiation@ =~= seq![0x50u8, 0, 2, 0, 0, 0, 0, 0, 0, 0, 0, 0]);
    let name = utf8::encode_utf8(channel_name@);
    assert(create@.subrange(2, create@.len() - 1) =~= name);
    assert(close@ =~= seq![0x40u8, channel_id as u8]);
    assert(plain@.skip(2) =~= data@);
    if total_length < 256 {
        assert(first@.skip(3) =~= data@);
    } else if total_length < 65536 {
        assert(first@.skip(4) =~= data@);
    } else {
        assert(first@.skip(6) =~= data@);
        let w = bytes::le32(total_length);
        assert(first@[2] == w[0] && first@[3] == w[1] && first@[4] == w[2] && first@[5] == w[3]);
    }
}

/// A payload of at most 1590 bytes goes out in one message; of a longer one the first
/// 1590 go out with the whole length, and the others in messages of as many.
pub proof fn law_payload_messages(channel_id: u32, payload: &[u8], out: Vec<Vec<u8>>, i: int)
    requires
        call_ensures(encode_channel_payload, (channel_id, payload), out),
        0 <= i < out@.len(),
        payload@.len() <= u32::MAX,
    ensures
        payload@.len() <= 1590 ==> out@.len() == 1 && out@[0]@ == data_wire(channel_id, payload@),
        payload@.len() > 1590 ==> {
            &&& 1590 * (out@.len() - 1) < payload@.len() <= 1590 * out@.len()
            &&& i == 0 ==> out@[0]@ == data_first_wire(
                channel_id,
                payload@.len() as u32,
                payload@.take(1590),
            )
            &&& 0 < i < out@.len() - 1 ==> out@[i]@ == data_wire(
                channel_id,
                payload@.subrange(1590 * i, 1590 * i + 1590),
            )
            &&& 0 < i == out@.len() - 1 ==> out@[i]@ == data_wire(
                channel_id,
                payload@.skip(1590 * i),
            )
        },
{
    assert(model::views(out@).len() == out@.len());
    assert(model::views(out@)[i] == out@[i]@);
    assert(model::views(out@)[0] == out@[0]@);
    assert(out@[i]@ == payload_message(channel_id, payload@, i));
    if payload@.len() <= 1590 {
        assert(piece(payload@, 0) =~= payload@);
    } else {
        assert(payload@.take(1590) =~= piece(payload@, 0));
        if i == out@.len() - 1 {
            assert(payload@.skip(1590 * i) =~= piece(payload@, i));
        }
    }
}

/// What a client sends is read from the same layout.
pub proof fn law_client_message_bytes(input: &[u8], r: Result<ClientMessage, DecodeError>)
    requires
        call_ensures(decode_client_message, (input,), r),
        r is Ok,
    ensures
        input@.len() >= 1,
        r->Ok_0 is CapabilityResponse <==> input@[0] / 16 == 5,
        r->Ok_0 is CreateResponse <==> input@[0] / 16 == 1,
        r->Ok_0 is DataFirst <==> input@[0] / 16 == 2,
        r->Ok_0 is Data <==> input@[0] / 16 == 3,
        r->Ok_0 is Close <==> input@[0] / 16 == 4,
        r->Ok_0 matches ClientMessage::CapabilityResponse { version } ==> version
            == bytes::u16_le_at(input@, 2),
        input@[0] % 4 == 0 ==> {
            &&& r->Ok_0 matches ClientMessage::CreateResponse(c) ==> c.channel_id == input@[1]
                && c.creation_status == bytes::u32_le_at(input@, 2)
            &&& r->Ok_0 matches ClientMessage::Data { channel_id, data } ==> channel_id == input@[1]
                && data@ == input@.skip(2)
            &&& r->Ok_0 matches ClientMessage::Close { channel_id } ==> channel_id == input@[1]
            &&& r->Ok_0 matches ClientMessage::DataFirst { channel_id, total_length, data }
                ==> channel_id == input@[1] && (input@[0] == 0x20 ==> total_length == input@[2]
                && data@ == input@.skip(3)) && (input@[0] == 0x24 ==> total_length
                == bytes::u16_le_at(input@, 2) && data@ == input@.skip(4))
        },
{
    let b = input@;
    if b.len() >= 2 {
        assert(b.skip(2) =~= b.subrange(2, b.len() as int));
    }
    if b.len() >= 3 {
        assert(b.skip(3) =~= b.subrange(3, b.len() as int));
    }
    if b.len() >= 4 {
        assert(b.skip(4) =~= b.subrange(4, b.len() as int));
    }
}

} // verus!
