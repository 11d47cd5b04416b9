//! The definite-length tag, length and value encoding of MCS Connect-Initial
//! and Connect-Response.

use vstd::prelude::*;

use crate::bytes;
use crate::cursor;
use crate::cursor::{ReadCursor, WriteBuf};
use crate::DecodeError;

verus! {

broadcast use bytes::group_bytes;

pub const TAG_BOOLEAN: u8 = 0x01;

pub const TAG_INTEGER: u8 = 0x02;

pub const TAG_ENUMERATED: u8 = 0x0A;

pub const TAG_OCTET_STRING: u8 = 0x04;

/// Universal class, constructed, tag number 0x10.
pub const TAG_SEQUENCE: u8 = 0x30;

/// A length: one byte up to 0x7F; else 0x81 and one byte, or 0x82 and the two
/// low bytes, high byte first.
pub open spec fn length_bytes(length: usize) -> Seq<u8> {
    if length <= 0x7F {
        seq![length as u8]
    } else if length <= 0xFF {
        seq![0x81u8] + seq![length as u8]
    } else {
        seq![0x82u8] + bytes::be16(length as u16)
    }
}

/// The length read at offset `p`, and the offset after it.
pub open spec fn parse_length(b: Seq<u8>, p: int) -> Result<(usize, int), DecodeError> {
    if p + 1 > b.len() {
        Err(cursor::short(b, p, 1))
    } else if b[p] <= 0x7F {
        Ok((b[p] as usize, p + 1))
    } else if b[p] == 0x81 {
        if p + 2 > b.len() {
            Err(cursor::short(b, p + 1, 1))
        } else {
            Ok((b[p + 1] as usize, p + 2))
        }
    } else if b[p] == 0x82 {
        if p + 3 > b.len() {
            Err(cursor::short(b, p + 1, 2))
        } else {
            Ok((bytes::u16_be_at(b, p + 1) as usize, p + 3))
        }
    } else {
        Err(cursor::invalid("ber.length", "unsupported BER length-of-length form"))
    }
}

/// A tag byte and the length after it.
pub open spec fn parse_tagged(
    b: Seq<u8>,
    p: int,
    tag: u8,
    field: &'static str,
) -> Result<(usize, int), DecodeError> {
    if p + 1 > b.len() {
        Err(cursor::short(b, p, 1))
    } else if b[p] != tag {
        Err(cursor::invalid(field, "unexpected BER tag byte"))
    } else {
        parse_length(b, p + 1)
    }
}

/// A tag byte, a length and that many bytes.
pub open spec fn parse_contents(
    b: Seq<u8>,
    p: int,
    tag: u8,
    field: &'static str,
) -> Result<(Seq<u8>, int), DecodeError> {
    match parse_tagged(b, p, tag, field) {
        Err(e) => Err(e),
        Ok((n, q)) => if q + n > b.len() {
            Err(cursor::short(b, q, n as int))
        } else {
            Ok((b.subrange(q, q + n), q + n))
        },
    }
}

pub open spec fn parse_application_tag(b: Seq<u8>, p: int, expected: u8) -> Result<
    (usize, int),
    DecodeError,
> {
    if p + 1 > b.len() {
        Err(cursor::short(b, p, 1))
    } else if b[p] != 0x7F {
        Err(cursor::invalid("ber.application_tag", "expected the 2-byte [APPLICATION n] tag form"))
    } else if p + 2 > b.len() {
        Err(cursor::short(b, p + 1, 1))
    } else if b[p + 1] != expected {
        Err(cursor::invalid("ber.application_tag", "unexpected application tag number"))
    } else {
        parse_length(b, p + 2)
    }
}

/// The number whose big-endian digits in base 256 are `s`.
pub open spec fn be_value(s: Seq<u8>) -> nat
    decreases s.len(),
{
    if s.len() == 0 {
        0
    } else {
        0x100 * be_value(s.drop_last()) + s.last() as nat
    }
}

pub open spec fn parse_integer(b: Seq<u8>, p: int) -> Result<(u32, int), DecodeError> {
    match parse_contents(b, p, TAG_INTEGER, "ber.integer") {
        Err(e) => Err(e),
        Ok((s, q)) => if s.len() == 0 || s.len() > 4 {
            Err(cursor::invalid("ber.integer", "unsupported INTEGER length (expected 1-4 bytes)"))
        } else {
            Ok((be_value(s) as u32, q))
        },
    }
}

pub open spec fn parse_boolean(b: Seq<u8>, p: int) -> Result<(bool, int), DecodeError> {
    match parse_contents(b, p, TAG_BOOLEAN, "ber.boolean") {
        Err(e) => Err(e),
        Ok((s, q)) => Ok((s.len() > 0 && s[0] != 0, q)),
    }
}

pub open spec fn parse_enumerated(b: Seq<u8>, p: int) -> Result<(u8, int), DecodeError> {
    match parse_contents(b, p, TAG_ENUMERATED, "ber.enumerated") {
        Err(e) => Err(e),
        Ok((s, q)) => if s.len() == 0 {
            Err(cursor::invalid("ber.enumerated", "empty ENUMERATED value"))
        } else {
            Ok((s[0], q))
        },
    }
}

/// The number of bytes of an INTEGER's contents: the fewest that leave the top
/// bit clear, and four from 0x80_0000 on.
pub open spec fn integer_contents(value: u32) -> Seq<u8> {
    if value < 0x80 {
        seq![value as u8]
    } else if value < 0x8000 {
        bytes::be16(value as u16)
    } else if value < 0x80_0000 {
        seq![(value / 0x1_0000) as u8] + bytes::be16((value % 0x1_0000) as u16)
    } else {
        bytes::be16((value / 0x1_0000) as u16) + bytes::be16((value % 0x1_0000) as u16)
    }
}

pub open spec fn integer_bytes(value: u32) -> Seq<u8> {
    seq![TAG_INTEGER] + length_bytes(integer_contents(value).len() as usize) + integer_contents(
        value,
    )
}

pub open spec fn boolean_bytes(value: bool) -> Seq<u8> {
    seq![TAG_BOOLEAN] + length_bytes(1) + seq![if value { 0xFFu8 } else { 0x00u8 }]
}

pub open spec fn enumerated_bytes(value: u8) -> Seq<u8> {
    seq![TAG_ENUMERATED] + length_bytes(1) + seq![value]
}

pub open spec fn octet_string_bytes(contents: Seq<u8>) -> Seq<u8> {
    seq![TAG_OCTET_STRING] + length_bytes(contents.len() as usize) + contents
}

pub open spec fn application_tag_bytes(tag_number: u8, body_length: usize) -> Seq<u8> {
    seq![0x7Fu8] + seq![tag_number] + length_bytes(body_length)
}

pub open spec fn sequence_tag_bytes(body_length: usize) -> Seq<u8> {
    seq![TAG_SEQUENCE] + length_bytes(body_length)
}

pub fn write_length(out: &mut Vec<u8>, length: usize)
    ensures
        final(out)@ == old(out)@ + length_bytes(length),
{
    let ghost before = out@;
    if length <= 0x7F {
        out.write_u8(length as u8);
    } else if length <= 0xFF {
        out.write_u8(0x81);
        out.write_u8(length as u8);
    } else {
        out.write_u8(0x82);
        out.write_u16_be(length as u16);
    }
    assert(out@ =~= before + length_bytes(length));
}

pub fn read_length(cursor: &mut ReadCursor<'_>) -> (r: Result<usize, DecodeError>)
    requires
        old(cursor).wf(),
    ensures
        final(cursor).wf(),
        final(cursor).data() == old(cursor).data(),
        cursor::reads(
            r,
            final(cursor).offset(),
            parse_length(old(cursor).data(), old(cursor).offset()),
        ),
{
    let first: u8 = cursor.take_u8()?;
    if first <= 0x7F {
        Ok(first as usize)
    } else if first == 0x81 {
        Ok(cursor.take_u8()? as usize)
    } else if first == 0x82 {
        Ok(cursor.take_u16_be()? as usize)
    } else {
        Err(
            DecodeError::InvalidValue {
                field: "ber.length",
                reason: "unsupported BER length-of-length form",
            },
        )
    }
}

pub fn write_application_tag(out: &mut Vec<u8>, tag_number: u8, body_length: usize)
    ensures
        final(out)@ == old(out)@ + application_tag_bytes(tag_number, body_length),
{
    let ghost before = out@;
    out.write_u8(0x7F);
    out.write_u8(tag_number);
    write_length(out, body_length);
    assert(out@ =~= before + application_tag_bytes(tag_number, body_length));
}

pub fn read_application_tag(cursor: &mut ReadCursor<'_>, expected_tag_number: u8) -> (r: Result<
    usize,
    DecodeError,
>)
    requires
        old(cursor).wf(),
    ensures
        final(cursor).wf(),
        final(cursor).data() == old(cursor).data(),
        cursor::reads(
            r,
            final(cursor).offset(),
            parse_application_tag(old(cursor).data(), old(cursor).offset(), expected_tag_number),
        ),
{
    let marker: u8 = cursor.take_u8()?;
    if marker != 0x7F {
        return Err(
            DecodeError::InvalidValue {
                field: "ber.application_tag",
                reason: "expected the 2-byte [APPLICATION n] tag form",
            },
        );
    }
    let tag_number: u8 = cursor.take_u8()?;
    if tag_number != expected_tag_number {
        return Err(
            DecodeError::InvalidValue {
                field: "ber.application_tag",
                reason: "unexpected application tag number",
            },
        );
    }
    read_length(cursor)
}

pub fn write_sequence_tag(out: &mut Vec<u8>, body_length: usize)
    ensures
        final(out)@ == old(out)@ + sequence_tag_bytes(body_length),
{
    let ghost before = out@;
    out.write_u8(TAG_SEQUENCE);
    write_length(out, body_length);
    assert(out@ =~= before + sequence_tag_bytes(body_length));
}

pub fn read_sequence_tag(cursor: &mut ReadCursor<'_>) -> (r: Result<usize, DecodeError>)
    requires
        old(cursor).wf(),
    ensures
        final(cursor).wf(),
        final(cursor).data() == old(cursor).data(),
        cursor::reads(
            r,
            final(cursor).offset(),
            parse_tagged(old(cursor).data(), old(cursor).offset(), TAG_SEQUENCE, "ber.sequence"),
        ),
{
    expect_tag(cursor, TAG_SEQUENCE, "ber.sequence")?;
    read_length(cursor)
}

pub fn write_integer(out: &mut Vec<u8>, value: u32)
    ensures
        final(out)@ == old(out)@ + integer_bytes(value),
{
    let ghost before = out@;
    out.write_u8(TAG_INTEGER);
    let high: u32 = value / 0x1_0000;
    let low: u16 = (value % 0x1_0000) as u16;
    if value < 0x80 {
        write_length(out, 1);
        out.write_u8(value as u8);
    } else if value < 0x8000 {
        write_length(out, 2);
        out.write_u16_be(value as u16);
    } else if value < 0x0080_0000 {
        write_length(out, 3);
        out.write_u8(high as u8);
        out.write_u16_be(low);
    } else {
        write_length(out, 4);
        out.write_u16_be(high as u16);
        out.write_u16_be(low);
    }
    assert(out@ =~= before + integer_bytes(value));
}

/// The bytes after a tag and its length.
fn read_contents<'a>(cursor: &mut ReadCursor<'a>, tag: u8, field: &'static str) -> (r: Result<
    &'a [u8],
    DecodeError,
>)
    requires
        old(cursor).wf(),
    ensures
        final(cursor).wf(),
        final(cursor).data() == old(cursor).data(),
        cursor::reads_view(
            r,
            final(cursor).offset(),
            parse_contents(old(cursor).data(), old(cursor).offset(), tag, field),
        ),
{
    expect_tag(cursor, tag, field)?;
    let length: usize = read_length(cursor)?;
    cursor.take_slice(length)
}

pub fn read_integer(cursor: &mut ReadCursor<'_>) -> (r: Result<u32, DecodeError>)
    requires
        old(cursor).wf(),
    ensures
        final(cursor).wf(),
        final(cursor).data() == old(cursor).data(),
        cursor::reads(
            r,
            final(cursor).offset(),
            parse_integer(old(cursor).data(), old(cursor).offset()),
        ),
{
    let contents: &[u8] = read_contents(cursor, TAG_INTEGER, "ber.integer")?;
    let n: usize = contents.len();
    if n == 0 || n > 4 {
        return Err(
            DecodeError::InvalidValue {
                field: "ber.integer",
                reason: "unsupported INTEGER length (expected 1-4 bytes)",
            },
        );
    }
    let mut value: u64 = 0;
    let mut i: usize = 0;
    assert(contents@.take(0) =~= Seq::<u8>::empty());
    while i < n
        invariant
            i <= n,
            n == contents@.len(),
            n <= 4,
            value == be_value(contents@.take(i as int)),
            i == 0 ==> value == 0,
            i == 1 ==> value <= 0xFF,
            i == 2 ==> value <= 0xFFFF,
            i == 3 ==> value <= 0xFF_FFFF,
            i == 4 ==> value <= 0xFFFF_FFFF,
        decreases n - i,
    {
        assert(contents@.take(i + 1).drop_last() =~= contents@.take(i as int));
        value = value * 0x100 + contents[i] as u64;
        i = i + 1;
    }
    assert(contents@.take(n as int) =~= contents@);
    Ok(value as u32)
}

pub fn write_boolean(out: &mut Vec<u8>, value: bool)
    ensures
        final(out)@ == old(out)@ + boolean_bytes(value),
{
    let ghost before = out@;
    out.write_u8(TAG_BOOLEAN);
    write_length(out, 1);
    out.write_u8(if value { 0xFF } else { 0x00 });
    assert(out@ =~= before + boolean_bytes(value));
}

pub fn read_boolean(cursor: &mut ReadCursor<'_>) -> (r: Result<bool, DecodeError>)
    requires
        old(cursor).wf(),
    ensures
        final(cursor).wf(),
        final(cursor).data() == old(cursor).data(),
        cursor::reads(
            r,
            final(cursor).offset(),
            parse_boolean(old(cursor).data(), old(cursor).offset()),
        ),
{
    let contents: &[u8] = read_contents(cursor, TAG_BOOLEAN, "ber.boolean")?;
    Ok(contents.len() > 0 && contents[0] != 0)
}

pub fn write_enumerated(out: &mut Vec<u8>, value: u8)
    ensures
        final(out)@ == old(out)@ + enumerated_bytes(value),
{
    let ghost before = out@;
    out.write_u8(TAG_ENUMERATED);
    write_length(out, 1);
    out.write_u8(value);
    assert(out@ =~= before + enumerated_bytes(value));
}

pub fn read_enumerated(cursor: &mut ReadCursor<'_>) -> (r: Result<u8, DecodeError>)
    requires
        old(cursor).wf(),
    ensures
        final(cursor).wf(),
        final(cursor).data() == old(cursor).data(),
        cursor::reads(
            r,
            final(cursor).offset(),
            parse_enumerated(old(cursor).data(), old(cursor).offset()),
        ),
{
    let contents: &[u8] = read_contents(cursor, TAG_ENUMERATED, "ber.enumerated")?;
    if contents.len() == 0 {
        return Err(
            DecodeError::InvalidValue {
                field: "ber.enumerated",
                reason: "empty ENUMERATED value",
            },
        );
    }
    Ok(contents[0])
}

pub fn write_octet_string(out: &mut Vec<u8>, bytes: &[u8])
    ensures
        final(out)@ == old(out)@ + octet_string_bytes(bytes@),
{
    let ghost before = out@;
    out.write_u8(TAG_OCTET_STRING);
    write_length(out, bytes.len());
    out.write_slice(bytes);
    assert(out@ =~= before + octet_string_bytes(bytes@));
}

pub fn read_octet_string<'a>(cursor: &mut ReadCursor<'a>) -> (r: Result<&'a [u8], DecodeError>)
    requires
        old(cursor).wf(),
    ensures
        final(cursor).wf(),
        final(cursor).data() == old(cursor).data(),
        cursor::reads_view(
            r,
            final(cursor).offset(),
            parse_contents(
                old(cursor).data(),
                old(cursor).offset(),
                TAG_OCTET_STRING,
                "ber.octet_string",
            ),
        ),
{
    read_contents(cursor, TAG_OCTET_STRING, "ber.octet_string")
}

fn expect_tag(cursor: &mut ReadCursor<'_>, expected: u8, field: &'static str) -> (r: Result<
    (),
    DecodeError,
>)
    requires
        old(cursor).wf(),
    ensures
        final(cursor).wf(),
        final(cursor).data() == old(cursor).data(),
        match r {
            Ok(_) => {
                &&& old(cursor).offset() + 1 <= old(cursor).data().len()
                &&& old(cursor).data()[old(cursor).offset()] == expected
                &&& final(cursor).offset() == old(cursor).offset() + 1
            },
            Err(e) => if old(cursor).offset() + 1 > old(cursor).data().len() {
                e == cursor::short(old(cursor).data(), old(cursor).offset(), 1)
            } else {
                &&& old(cursor).data()[old(cursor).offset()] != expected
                &&& e == cursor::invalid(field, "unexpected BER tag byte")
            },
        },
{
    let tag: u8 = cursor.take_u8()?;
    if tag != expected {
        return Err(DecodeError::InvalidValue { field, reason: "unexpected BER tag byte" });
    }
    Ok(())
}

/// A length of at most 0xFFFF is read back as it was written.
pub proof fn law_length(b: Seq<u8>, p: int, length: usize)
    requires
        length <= 0xFFFF,
        bytes::holds_at(b, p, length_bytes(length)),
    ensures
        parse_length(b, p) == Ok::<(usize, int), DecodeError>(
            (length, p + length_bytes(length).len()),
        ),
{
    broadcast use bytes::group_holds;

}

proof fn lemma_contents(b: Seq<u8>, p: int, tag: u8, field: &'static str, contents: Seq<u8>)
    requires
        contents.len() <= 0xFFFF,
        bytes::holds_at(b, p, seq![tag] + length_bytes(contents.len() as usize) + contents),
    ensures
        parse_contents(b, p, tag, field) == Ok::<(Seq<u8>, int), DecodeError>(
            (contents, p + (seq![tag] + length_bytes(contents.len() as usize) + contents).len()),
        ),
{
    broadcast use bytes::group_holds;

    law_length(b, p + 1, contents.len() as usize);
}

proof fn lemma_integer_contents(value: u32)
    ensures
        be_value(integer_contents(value)) == value,
        1 <= integer_contents(value).len() <= 4,
{
    reveal(bytes::be16);
    let s = integer_contents(value);
    reveal_with_fuel(be_value, 5);
    if value < 0x80 {
        assert(s.drop_last() =~= Seq::<u8>::empty());
    } else if value < 0x8000 {
        assert(s.drop_last() =~= seq![s[0]]);
        assert(s.drop_last().drop_last() =~= Seq::<u8>::empty());
    } else if value < 0x80_0000 {
        assert(s.drop_last() =~= seq![s[0], s[1]]);
        assert(s.drop_last().drop_last() =~= seq![s[0]]);
        assert(s.drop_last().drop_last().drop_last() =~= Seq::<u8>::empty());
    } else {
        assert(s.drop_last() =~= seq![s[0], s[1], s[2]]);
        assert(s.drop_last().drop_last() =~= seq![s[0], s[1]]);
        assert(s.drop_last().drop_last().drop_last() =~= seq![s[0]]);
        assert(s.drop_last().drop_last().drop_last().drop_last() =~= Seq::<u8>::empty());
    }
}

/// Every INTEGER is read back as it was written.
pub proof fn law_integer(b: Seq<u8>, p: int, value: u32)
    requires
        bytes::holds_at(b, p, integer_bytes(value)),
    ensures
        parse_integer(b, p) == Ok::<(u32, int), DecodeError>(
            (value, p + integer_bytes(value).len()),
        ),
{
    lemma_integer_contents(value);
    lemma_contents(b, p, TAG_INTEGER, "ber.integer", integer_contents(value));
}

/// Every BOOLEAN is read back as it was written.
pub proof fn law_boolean(b: Seq<u8>, p: int, value: bool)
    requires
        bytes::holds_at(b, p, boolean_bytes(value)),
    ensures
        parse_boolean(b, p) == Ok::<(bool, int), DecodeError>(
            (value, p + boolean_bytes(value).len()),
        ),
{
    lemma_contents(b, p, TAG_BOOLEAN, "ber.boolean", seq![if value { 0xFFu8 } else { 0x00u8 }]);
}

/// Every ENUMERATED is read back as it was written.
pub proof fn law_enumerated(b: Seq<u8>, p: int, value: u8)
    requires
        bytes::holds_at(b, p, enumerated_bytes(value)),
    ensures
        parse_enumerated(b, p) == Ok::<(u8, int), DecodeError>(
            (value, p + enumerated_bytes(value).len()),
        ),
{
    lemma_contents(b, p, TAG_ENUMERATED, "ber.enumerated", seq![value]);
}

/// An OCTET STRING of at most 0xFFFF bytes is read back as it was written.
pub proof fn law_octet_string(b: Seq<u8>, p: int, contents: Seq<u8>)
    requires
        contents.len() <= 0xFFFF,
        bytes::holds_at(b, p, octet_string_bytes(contents)),
    ensures
        parse_contents(b, p, TAG_OCTET_STRING, "ber.octet_string") == Ok::<
            (Seq<u8>, int),
            DecodeError,
        >((contents, p + octet_string_bytes(contents).len())),
{
    lemma_contents(b, p, TAG_OCTET_STRING, "ber.octet_string", contents);
}

/// An application tag and its length are read back as they were written.
pub proof fn law_application_tag(b: Seq<u8>, p: int, tag_number: u8, body_length: usize)
    requires
        body_length <= 0xFFFF,
        bytes::holds_at(b, p, application_tag_bytes(tag_number, body_length)),
    ensures
        parse_application_tag(b, p, tag_number) == Ok::<(usize, int), DecodeError>(
            (body_length, p + application_tag_bytes(tag_number, body_length).len()),
        ),
{
    broadcast use bytes::group_holds;

    law_length(b, p + 2, body_length);
}

/// A SEQUENCE tag and its length are read back as they were written.
pub proof fn law_sequence_tag(b: Seq<u8>, p: int, body_length: usize)
    requires
        body_length <= 0xFFFF,
        bytes::holds_at(b, p, sequence_tag_bytes(body_length)),
    ensures
        parse_tagged(b, p, TAG_SEQUENCE, "ber.sequence") == Ok::<(usize, int), DecodeError>(
            (body_length, p + sequence_tag_bytes(body_length).len()),
        ),
{
    broadcast use bytes::group_holds;

    law_length(b, p + 1, body_length);
}

/// A length below 128 is one byte, one below 256 is 0x81 and a byte, and one below 65536
/// is 0x82 and two bytes, high byte first.
pub proof fn law_length_bytes(b: Seq<u8>, p: int, length: usize)
    requires
        0 <= p < b.len(),
    ensures
        length < 128 ==> length_bytes(length) == seq![length as u8],
        128 <= length < 256 ==> length_bytes(length) == seq![0x81u8, length as u8],
        256 <= length < 65536 ==> length_bytes(length) == seq![
            0x82u8,
            (length / 256) as u8,
            (length % 256) as u8,
        ],
        b[p] < 128 ==> parse_length(b, p) == Ok::<(usize, int), DecodeError>(
            (b[p] as usize, p + 1),
        ),
        b[p] == 0x81 && p + 1 < b.len() ==> parse_length(b, p) == Ok::<(usize, int), DecodeError>(
            (b[p + 1] as usize, p + 2),
        ),
        b[p] == 0x82 && p + 2 < b.len() ==> parse_length(b, p) == Ok::<(usize, int), DecodeError>(
            ((256 * b[p + 1] + b[p + 2]) as usize, p + 3),
        ),
        b[p] == 0x80 || b[p] > 0x82 ==> parse_length(b, p) is Err,
{
    bytes::law_byte_order(b, p + 1);
    reveal(bytes::be16);
    if 128 <= length < 256 {
        assert(length_bytes(length) =~= seq![0x81u8, length as u8]);
    } else if 256 <= length < 65536 {
        assert(length_bytes(length) =~= seq![
            0x82u8,
            (length / 256) as u8,
            (length % 256) as u8,
        ]);
    }
}

/// Values come after a tag and a length: 1 for yes or no, 2 for a number, high byte
/// first and with its top bit clear where it is short, 4 for bytes, 10 for a choice,
/// and 0x30 for a list.
pub proof fn law_value_bytes(value: u32, flag: bool, choice: u8, contents: Seq<u8>, n: usize)
    ensures
        value < 0x80 ==> integer_bytes(value) == seq![2u8, 1, value as u8],
        0x80 <= value < 0x8000 ==> integer_bytes(value) == seq![
            2u8,
            2,
            (value / 256) as u8,
            (value % 256) as u8,
        ],
        0x8000 <= value < 0x80_0000 ==> integer_bytes(value) == seq![
            2u8,
            3,
            (value / 65536) as u8,
            (value / 256 % 256) as u8,
            (value % 256) as u8,
        ],
        0x80_0000 <= value ==> integer_bytes(value) == seq![
            2u8,
            4,
            (value / 16777216) as u8,
            (value / 65536 % 256) as u8,
            (value / 256 % 256) as u8,
            (value % 256) as u8,
        ],
        boolean_bytes(true) == seq![1u8, 1, 255],
        boolean_bytes(false) == seq![1u8, 1, 0],
        enumerated_bytes(choice) == seq![10u8, 1, choice],
        contents.len() < 128 ==> octet_string_bytes(contents) == seq![4u8, contents.len() as u8]
            + contents,
        n < 128 ==> sequence_tag_bytes(n) == seq![0x30u8, n as u8],
        n < 128 ==> application_tag_bytes(choice, n) == seq![0x7Fu8, choice, n as u8],
{
    reveal(bytes::be16);
    if value < 0x80 {
        assert(integer_bytes(value) =~= seq![2u8, 1, value as u8]);
    } else if value < 0x8000 {
        assert(integer_bytes(value) =~= seq![2u8, 2, (value / 256) as u8, (value % 256) as u8]);
    } else if value < 0x80_0000 {
        assert(integer_bytes(value) =~= seq![
            2u8,
            3,
            (value / 65536) as u8,
            (value / 256 % 256) as u8,
            (value % 256) as u8,
        ]);
    } else {
        assert(integer_bytes(value) =~= seq![
            2u8,
            4,
            (value / 16777216) as u8,
            (value / 65536 % 256) as u8,
            (value / 256 % 256) as u8,
            (value % 256) as u8,
        ]);
    }
    assert(boolean_bytes(true) =~= seq![1u8, 1, 255]);
    assert(boolean_bytes(false) =~= seq![1u8, 1, 0]);
    assert(enumerated_bytes(choice) =~= seq![10u8, 1, choice]);
    if contents.len() < 128 {
        assert(octet_string_bytes(contents) =~= seq![4u8, contents.len() as u8] + contents);
    }
    if n < 128 {
        assert(sequence_tag_bytes(n) =~= seq![0x30u8, n as u8]);
        assert(application_tag_bytes(choice, n) =~= seq![0x7Fu8, choice, n as u8]);
    }
}

} // verus!
