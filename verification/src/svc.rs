//! Framing of static channel data: every chunk of a message begins with the
//! length of the whole message and with flags for its first and last chunk.

use vstd::prelude::*;
use vstd::slice::slice_subrange;

use crate::bytes;
use crate::cursor;
use crate::cursor::{ReadCursor, WriteBuf};
use crate::mcs;
use crate::mcs::{DomainMcsPdu, SendData};
use crate::model;
use crate::x224;
use crate::DecodeError;

verus! {

broadcast use {bytes::group_bytes, model::lemma_views_push};

pub const CHANNEL_FLAG_FIRST: u32 = 0x0000_0001;

pub const CHANNEL_FLAG_LAST: u32 = 0x0000_0002;

/// The chunk size where none is negotiated.
pub const DEFAULT_CHUNK_LENGTH: usize = 1600;

/// How many chunks a message of `n` bytes takes: one at least.
pub open spec fn chunk_count(n: int) -> int {
    if n == 0 {
        1
    } else {
        (n + 1599) / 1600
    }
}

/// The bytes of a message that go into its chunk `i`.
pub open spec fn chunk_body(data: Seq<u8>, i: int) -> Seq<u8> {
    data.subrange(
        1600 * i,
        if 1600 * (i + 1) < data.len() {
            1600 * (i + 1)
        } else {
            data.len() as int
        },
    )
}

/// The flags of chunk `i` of `count`.
pub open spec fn chunk_flags(i: int, count: int) -> u32 {
    if i == 0 && i == count - 1 {
        3
    } else if i == 0 {
        CHANNEL_FLAG_FIRST
    } else if i == count - 1 {
        CHANNEL_FLAG_LAST
    } else {
        0
    }
}

/// Chunk `i` of a message.
pub open spec fn chunk(data: Seq<u8>, i: int) -> Seq<u8> {
    bytes::le32(bytes::low32(data.len() as int)) + bytes::le32(
        chunk_flags(i, chunk_count(data.len() as int)),
    ) + chunk_body(data, i)
}

/// The chunks of a message.
pub open spec fn chunks(data: Seq<u8>) -> Seq<Seq<u8>> {
    Seq::new(chunk_count(data.len() as int) as nat, |i: int| chunk(data, i))
}

/// The packet that carries one chunk to a client.
pub open spec fn frame(initiator: u16, channel_id: u16, chunk: Seq<u8>) -> Seq<u8> {
    x224::data_message(
        mcs::send_data_wire(DomainMcsPdu::SendDataIndication, initiator, channel_id, chunk),
    )
}

/// The packets that carry a message to a client.
pub open spec fn frames(initiator: u16, channel_id: u16, data: Seq<u8>) -> Seq<Seq<u8>> {
    Seq::new(
        chunk_count(data.len() as int) as nat,
        |i: int| frame(initiator, channel_id, chunk(data, i)),
    )
}

/// Cuts `data` into chunks and frames each as a packet of its own, in the order
/// in which they go out.
pub fn wrap_indication(initiator: u16, channel_id: u16, data: Vec<u8>) -> (out: Vec<Vec<u8>>)
    ensures
        model::views(out@) == frames(initiator, channel_id, data@),
{
    let mut pieces: Vec<Vec<u8>> = chunkify(data.as_slice());
    let ghost parts = model::views(pieces@);
    let n: usize = pieces.len();
    let mut out: Vec<Vec<u8>> = Vec::new();
    let mut i: usize = 0;
    while i < n
        invariant
            i <= n,
            n == parts.len(),
            model::views(pieces@) == parts,
            out@.len() == i,
            forall|j: int|
                0 <= j < i ==> (#[trigger] out@[j])@ == frame(initiator, channel_id, parts[j]),
        decreases n - i,
    {
        assert(pieces@[i as int]@ == parts[i as int]);
        let send = SendData {
            initiator,
            channel_id,
            data: copy_of(&pieces[i]),
            complete: true,
        };
        out.push(x224::wrap_data(send.encode_indication().as_slice()));
        i = i + 1;
    }
    assert(model::views(out@) =~= frames(initiator, channel_id, data@));
    out
}

fn copy_of(v: &Vec<u8>) -> (r: Vec<u8>)
    ensures
        r@ == v@,
{
    let mut r: Vec<u8> = Vec::new();
    r.write_slice(v.as_slice());
    r
}

/// Cuts `data` into chunks, each with its header.
pub fn chunkify(data: &[u8]) -> (out: Vec<Vec<u8>>)
    ensures
        model::views(out@) == chunks(data@),
{
    let total_length: u32 = bytes::len32(data.len());
    let n: usize = data.len();
    let mut out: Vec<Vec<u8>> = Vec::new();
    let mut start: usize = 0;
    let ghost mut i: int = 0;
    loop
        invariant_except_break
            i == 0 || start < n,
        invariant
            n == data@.len(),
            total_length == bytes::low32(n as int),
            0 <= i,
            start <= n,
            out@.len() == i,
            start < n ==> start == 1600 * i,
            i == 0 ==> start == 0,
            start == n ==> i == 0 || i == chunk_count(n as int),
            forall|j: int| 0 <= j < i ==> (#[trigger] out@[j])@ == chunk(data@, j),
        ensures
            i == chunk_count(n as int),
        decreases n - start, 1 - i,
    {
        let last: bool = n - start <= DEFAULT_CHUNK_LENGTH;
        let end: usize = if last {
            n
        } else {
            start + DEFAULT_CHUNK_LENGTH
        };
        let flags: u32 = if start == 0 && last {
            3
        } else if start == 0 {
            CHANNEL_FLAG_FIRST
        } else if last {
            CHANNEL_FLAG_LAST
        } else {
            0
        };
        let mut piece: Vec<u8> = Vec::new();
        piece.write_u32_le(total_length);
        piece.write_u32_le(flags);
        piece.write_slice(slice_subrange(data, start, end));
        proof {
            assert(last == (i == chunk_count(n as int) - 1));
            assert(piece@ =~= chunk(data@, i));
        }
        out.push(piece);
        start = end;
        proof {
            i = i + 1;
        }
        if last {
            break;
        }
    }
    assert(model::views(out@) =~= chunks(data@));
    out
}

/// Total length, flags and body of a chunk.
pub open spec fn parse_chunk(b: Seq<u8>) -> Result<(u32, u32, Seq<u8>), DecodeError> {
    if b.len() < 4 {
        Err(cursor::short(b, 0, 4))
    } else if b.len() < 8 {
        Err(cursor::short(b, 4, 4))
    } else {
        Ok((bytes::u32_le_at(b, 0), bytes::u32_le_at(b, 4), b.subrange(8, b.len() as int)))
    }
}

pub fn dechunkify(input: &[u8]) -> (r: Result<(u32, u32, &[u8]), DecodeError>)
    ensures
        match parse_chunk(input@) {
            Ok((total_length, flags, body)) => r is Ok && r->Ok_0.0 == total_length && r->Ok_0.1
                == flags && r->Ok_0.2@ == body,
            Err(e) => r == Err::<(u32, u32, &[u8]), DecodeError>(e),
        },
{
    let mut cursor = ReadCursor::new(input);
    let total_length: u32 = cursor.take_u32_le()?;
    let flags: u32 = cursor.take_u32_le()?;
    Ok((total_length, flags, cursor.read_rest()))
}

/// What a chunk does to the bytes collected so far: the bytes then held, and
/// either the finished message or nothing yet. A first chunk drops what was
/// held; a chunk that would bring more than `max_size` bytes drops everything.
pub open spec fn reassembled(
    held: Seq<u8>,
    payload: Seq<u8>,
    max_size: int,
    field: &'static str,
) -> (Seq<u8>, Result<Option<Seq<u8>>, DecodeError>) {
    match parse_chunk(payload) {
        Err(e) => (held, Err(e)),
        Ok((_, flags, body)) => {
            let kept = if flags & CHANNEL_FLAG_FIRST != 0 {
                seq![]
            } else {
                held
            };
            if kept.len() + body.len() > max_size {
                (
                    seq![],
                    Err(
                        cursor::invalid(
                            field,
                            "reassembled SVC message exceeded maximum allowed size",
                        ),
                    ),
                )
            } else if flags & CHANNEL_FLAG_LAST == 0 {
                (kept + body, Ok(None))
            } else {
                (seq![], Ok(Some(kept + body)))
            }
        },
    }
}

/// Takes one chunk into `buffer`, and gives back the message once its last
/// chunk has come. `field` names the buffer in the error about its size.
pub fn reassemble(
    buffer: &mut Vec<u8>,
    payload: &[u8],
    max_size: usize,
    field: &'static str,
) -> (r: Result<Option<Vec<u8>>, DecodeError>)
    ensures
        final(buffer)@ == reassembled(old(buffer)@, payload@, max_size as int, field).0,
        match reassembled(old(buffer)@, payload@, max_size as int, field).1 {
            Ok(m) => r is Ok && model::opt_view(r->Ok_0) == m,
            Err(e) => r == Err::<Option<Vec<u8>>, DecodeError>(e),
        },
{
    let (_total_length, flags, chunk) = dechunkify(payload)?;
    if flags & CHANNEL_FLAG_FIRST != 0 {
        buffer.clear();
    }
    if chunk.len() > max_size || buffer.len() > max_size - chunk.len() {
        buffer.clear();
        return Err(
            DecodeError::InvalidValue {
                field,
                reason: "reassembled SVC message exceeded maximum allowed size",
            },
        );
    }
    buffer.write_slice(chunk);
    if flags & CHANNEL_FLAG_LAST == 0 {
        return Ok(None);
    }
    let mut message: Vec<u8> = Vec::new();
    core::mem::swap(buffer, &mut message);
    Ok(Some(message))
}

proof fn lemma_parse_chunk(data: Seq<u8>, i: int)
    requires
        0 <= i < chunk_count(data.len() as int),
    ensures
        parse_chunk(chunk(data, i)) == Ok::<(u32, u32, Seq<u8>), DecodeError>(
            (
                bytes::low32(data.len() as int),
                chunk_flags(i, chunk_count(data.len() as int)),
                chunk_body(data, i),
            ),
        ),
{
    broadcast use bytes::group_holds;

    bytes::lemma_holds_self(chunk(data, i));
}

/// Taking in the chunks of a message one after the other, whatever was held
/// before the first, gives the message back with its last chunk, leaves
/// nothing behind, and gives nothing before.
pub proof fn law_reassemble(
    data: Seq<u8>,
    i: int,
    held: Seq<u8>,
    max_size: int,
    field: &'static str,
)
    requires
        0 <= i < chunk_count(data.len() as int),
        data.len() <= max_size,
        i > 0 ==> held == data.subrange(0, 1600 * i),
    ensures
        reassembled(held, chunk(data, i), max_size, field) == (if i == chunk_count(
            data.len() as int,
        ) - 1 {
            (Seq::<u8>::empty(), Ok::<Option<Seq<u8>>, DecodeError>(Some(data)))
        } else {
            (data.subrange(0, 1600 * (i + 1)), Ok(None))
        }),
{
    let n = data.len() as int;
    lemma_parse_chunk(data, i);
    assert(3u32 & 1 != 0 && 1u32 & 1 != 0 && 2u32 & 1 == 0 && 0u32 & 1 == 0) by (bit_vector);
    assert(3u32 & 2 != 0 && 1u32 & 2 == 0 && 2u32 & 2 != 0 && 0u32 & 2 == 0) by (bit_vector);
    let kept = if i == 0 {
        Seq::<u8>::empty()
    } else {
        held
    };
    if i == chunk_count(n) - 1 {
        assert(kept + chunk_body(data, i) =~= data);
    } else {
        assert(kept + chunk_body(data, i) =~= data.subrange(0, 1600 * (i + 1)));
    }
}

/// A packet carries its chunk: taking it apart gives the chunk back.
pub proof fn law_frame(initiator: u16, channel_id: u16, data: Seq<u8>, i: int)
    requires
        0 <= i < chunk_count(data.len() as int),
    ensures
        ({
            let f = frames(initiator, channel_id, data)[i];
            &&& x224::parse_data(f) is Ok
            &&& mcs::whole(
                mcs::parse_send_data(
                    x224::parse_data(f)->Ok_0,
                    0,
                    DomainMcsPdu::SendDataIndication,
                ),
            ) == Ok::<mcs::SendDataView, DecodeError>(
                mcs::SendDataView {
                    initiator,
                    channel_id,
                    data: chunk(data, i),
                    complete: true,
                },
            )
        }),
{
    let c = chunk(data, i);
    let w = mcs::send_data_wire(DomainMcsPdu::SendDataIndication, initiator, channel_id, c);
    assert(c.len() <= 1608);
    x224::law_data_round_trip(w);
    bytes::lemma_holds_self(w);
    mcs::law_send_data_round_trip(
        w,
        0,
        DomainMcsPdu::SendDataIndication,
        initiator,
        channel_id,
        c,
    );
}

/// A message goes out in chunks of 1600 bytes, one at least; each has the length of the
/// whole message, and flags of which 1 marks the first and 2 the last.
pub proof fn law_chunk_bytes(data: &[u8], out: Vec<Vec<u8>>, i: int)
    requires
        call_ensures(chunkify, (data,), out),
        0 <= i < out@.len(),
        data@.len() <= u32::MAX,
    ensures
        data@.len() <= 1600 ==> out@.len() == 1,
        data@.len() > 1600 ==> 1600 * (out@.len() - 1) < data@.len() <= 1600 * out@.len(),
        bytes::u32_le_at(out@[i]@, 0) == data@.len(),
        bytes::u32_le_at(out@[i]@, 4) == (if i == 0 {
            1int
        } else {
            0
        }) + (if i == out@.len() - 1 {
            2int
        } else {
            0
        }),
        i < out@.len() - 1 ==> out@[i]@.skip(8) == data@.subrange(1600 * i, 1600 * i + 1600),
        i == out@.len() - 1 ==> out@[i]@.skip(8) == data@.skip(1600 * i),
{
    assert(model::views(out@).len() == out@.len());
    assert(model::views(out@)[i] == out@[i]@);
    let c = out@[i]@;
    assert(c == chunk(data@, i));
    assert(c.skip(8) =~= chunk_body(data@, i));
    if i == out@.len() - 1 {
        assert(data@.skip(1600 * i) =~= chunk_body(data@, i));
    }
}

/// Every chunk of a message goes out in a packet of its own, under the number of who
/// sends it and on the channel that it is for.
pub proof fn law_wrapped(
    initiator: u16,
    channel_id: u16,
    data: Vec<u8>,
    out: Vec<Vec<u8>>,
    i: int,
)
    requires
        call_ensures(wrap_indication, (initiator, channel_id, data), out),
        initiator >= 1001,
        data@.len() <= 0xffff_ffff,
        0 <= i < out@.len(),
    ensures
        out@.len() == (if data@.len() == 0 {
            1nat
        } else {
            (data@.len() + 1599) / 1600
        }),
        ({
            let b = out@[i]@;
            let body = data@.subrange(
                1600 * i,
                if 1600 * i + 1600 < data@.len() {
                    1600 * i + 1600
                } else {
                    data@.len() as int
                },
            );
            let n: int = if body.len() + 8 < 128 {
                14
            } else {
                15
            };
            &&& b.len() == n + 8 + body.len()
            &&& b[0] == 3
            &&& 256 * b[2] + b[3] == b.len()
            &&& b[7] == 104
            &&& 256 * b[8] + b[9] == initiator - 1001
            &&& 256 * b[10] + b[11] == channel_id
            &&& bytes::u32_le_at(b, n) == data@.len()
            &&& b[n + 4] % 2 == 1 <==> i == 0
            &&& b[n + 4] / 2 == 1 <==> i == out@.len() - 1
            &&& b.skip(n + 8) == body
        }),
{
    let v = model::views(out@);
    assert(v.len() == out@.len() && v[i] == out@[i]@);
    let c = chunk(data@, i);
    let body = chunk_body(data@, i);
    let n: int = if body.len() + 8 < 128 {
        14
    } else {
        15
    };
    lemma_frame_bytes(initiator, channel_id, c);
    let b = out@[i]@;
    assert(b == frame(initiator, channel_id, c));
    assert(c.len() == 8 + body.len());
    lemma_chunk_layout(data@, i);
    assert(b.skip(n) == c);
    assert(forall|k: int| 0 <= k < c.len() ==> b[n + k] == #[trigger] c[k]);
    assert(b[n] == c[0] && b[n + 1] == c[1] && b[n + 2] == c[2] && b[n + 3] == c[3] && b[n + 4]
        == c[4]);
    assert(b.skip(n + 8) =~= c.skip(8));
}

proof fn lemma_chunk_layout(data: Seq<u8>, i: int)
    requires
        data.len() <= 0xffff_ffff,
        0 <= i < chunk_count(data.len() as int),
    ensures
        ({
            let c = chunk(data, i);
            let last = chunk_count(data.len() as int) - 1;
            &&& c.len() == 8 + chunk_body(data, i).len()
            &&& bytes::u32_le_at(c, 0) == data.len()
            &&& c[4] % 2 == 1 <==> i == 0
            &&& c[4] / 2 == 1 <==> i == last
            &&& c.skip(8) == chunk_body(data, i)
        }),
{
    let c = chunk(data, i);
    let flags = chunk_flags(i, chunk_count(data.len() as int));
    bytes::law_low_bits(data.len() as int);
    bytes::lemma_holds_self(c);
    assert(c.skip(8) =~= chunk_body(data, i));
    assert(bytes::u32_le_at(c, 4) == flags);
    bytes::law_byte_order(c, 4);
}

proof fn lemma_frame_bytes(initiator: u16, channel_id: u16, c: Seq<u8>)
    requires
        initiator >= 1001,
        c.len() <= 1608,
    ensures
        ({
            let b = frame(initiator, channel_id, c);
            let n: int = if c.len() < 128 {
                14
            } else {
                15
            };
            &&& b.len() == n + c.len()
            &&& b[0] == 3
            &&& 256 * b[2] + b[3] == b.len()
            &&& b[7] == 104
            &&& 256 * b[8] + b[9] == initiator - 1001
            &&& 256 * b[10] + b[11] == channel_id
            &&& b.skip(n) == c
        }),
{
    reveal(bytes::be16);
    crate::per::law_length_bytes(c, 0, c.len() as usize);
    let u = crate::per::u16_bytes(initiator, 1001);
    let k = crate::per::u16_bytes(channel_id, 0);
    assert(u.len() == 2 && k.len() == 2);
    let b = frame(initiator, channel_id, c);
    let n: int = if c.len() < 128 {
        14
    } else {
        15
    };
    assert(b.skip(n) =~= c);
}

/// A chunk with the flag 1 drops what was held. Without the flag 2 its bytes are added to
/// what is held, and with it they complete the message. A message that would be longer
/// than it may be is dropped.
pub proof fn law_taken_in(
    buffer: &mut Vec<u8>,
    payload: &[u8],
    max_size: usize,
    field: &'static str,
    r: Result<Option<Vec<u8>>, DecodeError>,
)
    requires
        call_ensures(reassemble, (buffer, payload, max_size, field), r),
    ensures
        payload@.len() < 8 ==> r is Err && final(buffer)@ == old(buffer)@,
        payload@.len() >= 8 ==> ({
            let kept = if payload@[4] % 2 == 1 {
                Seq::<u8>::empty()
            } else {
                old(buffer)@
            };
            let all = kept + payload@.skip(8);
            &&& all.len() > max_size ==> r is Err && final(buffer)@.len() == 0
            &&& all.len() <= max_size && payload@[4] / 2 % 2 == 0 ==> r is Ok && r->Ok_0 is None
                && final(buffer)@ == all
            &&& all.len() <= max_size && payload@[4] / 2 % 2 == 1 ==> r is Ok && r->Ok_0 is Some
                && r->Ok_0->Some_0@ == all && final(buffer)@.len() == 0
        }),
{
    if payload@.len() >= 8 {
        let flags = bytes::u32_le_at(payload@, 4);
        let low = payload@[4];
        bytes::law_byte_order(payload@, 4);
        assert(payload@.subrange(8, payload@.len() as int) =~= payload@.skip(8));
        assert((flags & 1 != 0 <==> flags % 2 == 1) && (flags & 2 != 0 <==> flags / 2 % 2 == 1))
            by (bit_vector);
    }
}

} // verus!
