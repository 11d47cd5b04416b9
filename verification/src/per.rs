//! The compact length-prefixed encoding of GCC's connect data and of the MCS
//! domain messages. Not a general encoder: only the shapes those two use.

use vstd::prelude::*;
use vstd::string::*;

use crate::ber;
use crate::bytes;
use crate::cursor;
use crate::cursor::{ReadCursor, WriteBuf};
use crate::DecodeError;

verus! {

broadcast use bytes::group_bytes;

/// A length: one byte up to 0x7F, else two bytes, high byte first, with the
/// top bit set.
pub open spec fn length_bytes(length: usize) -> Seq<u8> {
    if length <= 0x7F {
        seq![length as u8]
    } else {
        bytes::be16(length as u16 | 0x8000)
    }
}

/// The length read at offset `p`, and the offset after it.
pub open spec fn parse_length(b: Seq<u8>, p: int) -> Result<(usize, int), DecodeError> {
    if p + 1 > b.len() {
        Err(cursor::short(b, p, 1))
    } else if b[p] & 0x80 == 0 {
        Ok((b[p] as usize, p + 1))
    } else if p + 2 > b.len() {
        Err(cursor::short(b, p, 2))
    } else {
        Ok(((bytes::u16_be_at(b, p) & 0x7FFF) as usize, p + 2))
    }
}

pub fn write_length(out: &mut Vec<u8>, length: usize)
    ensures
        final(out)@ == old(out)@ + length_bytes(length),
{
    if length <= 0x7F {
        out.write_u8(length as u8);
    } else {
        out.write_u16_be(length as u16 | 0x8000);
    }
}

pub fn read_length(cursor: &mut ReadCursor<'_>) -> (r: Result<usize, DecodeError>)
    requires
        old(cursor).wf(),
    ensures
        final(cursor).wf(),
        final(cursor).data() == old(cursor).data(),
        cursor::reads(
            r,
            final(cursor).offset(),
            parse_length(old(cursor).data(), old(cursor).offset()),
        ),
{
    let first: u8 = match cursor.peek_slice(1) {
        Ok(s) => s[0],
        Err(e) => return Err(DecodeError::NotEnoughBytes(e)),
    };
    if first & 0x80 == 0 {
        Ok(cursor.take_u8()? as usize)
    } else {
        Ok((cursor.take_u16_be()? & 0x7FFF) as usize)
    }
}

/// A length of at most 0x7FFF is read back as it was written.
pub proof fn law_length(b: Seq<u8>, p: int, length: usize)
    requires
        length <= 0x7FFF,
        bytes::holds_at(b, p, length_bytes(length)),
    ensures
        parse_length(b, p) == Ok::<(usize, int), DecodeError>(
            (length, p + length_bytes(length).len()),
        ),
{
    broadcast use bytes::group_holds;

    if length <= 0x7F {
        let v = length as u8;
        assert(v <= 0x7F ==> v & 0x80 == 0) by (bit_vector);
    } else {
        let v = length as u16;
        assert(v <= 0x7FFF ==> (v | 0x8000) & 0x7FFF == v && (v | 0x8000) >= 0x8000) by (bit_vector);
        assert(b[p] >= 0x80) by {
            reveal(bytes::u16_be);
        }
        let first = b[p];
        assert(first >= 0x80 ==> first & 0x80 != 0) by (bit_vector);
    }
}

/// One byte.
pub open spec fn parse_u8(b: Seq<u8>, p: int) -> Result<(u8, int), DecodeError> {
    if p + 1 > b.len() {
        Err(cursor::short(b, p, 1))
    } else {
        Ok((b[p], p + 1))
    }
}

/// Writes the byte that says which alternative follows.
pub fn write_choice(out: &mut Vec<u8>, choice: u8)
    ensures
        final(out)@ == old(out)@ + seq![choice],
{
    out.write_u8(choice);
}

/// Reads the byte that says which alternative follows.
pub fn read_choice(cursor: &mut ReadCursor<'_>) -> (r: Result<u8, DecodeError>)
    requires
        old(cursor).wf(),
    ensures
        final(cursor).wf(),
        final(cursor).data() == old(cursor).data(),
        cursor::reads(
            r,
            final(cursor).offset(),
            parse_u8(old(cursor).data(), old(cursor).offset()),
        ),
{
    cursor.take_u8()
}

/// Writes the byte that says which optional fields follow.
pub fn write_selection(out: &mut Vec<u8>, selection: u8)
    ensures
        final(out)@ == old(out)@ + seq![selection],
{
    out.write_u8(selection);
}

/// Reads the byte that says which optional fields follow.
pub fn read_selection(cursor: &mut ReadCursor<'_>) -> (r: Result<u8, DecodeError>)
    requires
        old(cursor).wf(),
    ensures
        final(cursor).wf(),
        final(cursor).data() == old(cursor).data(),
        cursor::reads(
            r,
            final(cursor).offset(),
            parse_u8(old(cursor).data(), old(cursor).offset()),
        ),
{
    cursor.take_u8()
}

/// Writes the byte that counts the sets that follow.
pub fn write_number_of_sets(out: &mut Vec<u8>, count: u8)
    ensures
        final(out)@ == old(out)@ + seq![count],
{
    out.write_u8(count);
}

/// Reads the byte that counts the sets that follow.
pub fn read_number_of_sets(cursor: &mut ReadCursor<'_>) -> (r: Result<u8, DecodeError>)
    requires
        old(cursor).wf(),
    ensures
        final(cursor).wf(),
        final(cursor).data() == old(cursor).data(),
        cursor::reads(
            r,
            final(cursor).offset(),
            parse_u8(old(cursor).data(), old(cursor).offset()),
        ),
{
    cursor.take_u8()
}

/// Writes an enumeration value.
pub fn write_enum(out: &mut Vec<u8>, value: u8)
    ensures
        final(out)@ == old(out)@ + seq![value],
{
    out.write_u8(value);
}

/// Reads an enumeration value.
pub fn read_enum(cursor: &mut ReadCursor<'_>) -> (r: Result<u8, DecodeError>)
    requires
        old(cursor).wf(),
    ensures
        final(cursor).wf(),
        final(cursor).data() == old(cursor).data(),
        cursor::reads(
            r,
            final(cursor).offset(),
            parse_u8(old(cursor).data(), old(cursor).offset()),
        ),
{
    cursor.take_u8()
}

/// An unsigned number behind its own length: one, two or four bytes, high byte
/// first.
pub open spec fn u32_bytes(value: u32) -> Seq<u8> {
    if value <= 0xFF {
        length_bytes(1) + seq![value as u8]
    } else if value <= 0xFFFF {
        length_bytes(2) + bytes::be16(value as u16)
    } else {
        length_bytes(4) + bytes::be16((value / 0x1_0000) as u16) + bytes::be16(
            (value % 0x1_0000) as u16,
        )
    }
}

/// A length, and the low 32 bits of the number that so many bytes spell, high
/// byte first.
pub open spec fn parse_u32(b: Seq<u8>, p: int) -> Result<(u32, int), DecodeError> {
    match parse_length(b, p) {
        Err(e) => Err(e),
        Ok((n, q)) => if q + n > b.len() {
            Err(cursor::short(b, q, n as int))
        } else {
            Ok(((ber::be_value(b.subrange(q, q + n)) % 0x1_0000_0000) as u32, q + n))
        },
    }
}

pub fn write_u32(out: &mut Vec<u8>, value: u32)
    ensures
        final(out)@ == old(out)@ + u32_bytes(value),
{
    let ghost before = out@;
    if value <= 0xFF {
        write_length(out, 1);
        out.write_u8(value as u8);
    } else if value <= 0xFFFF {
        write_length(out, 2);
        out.write_u16_be(value as u16);
    } else {
        write_length(out, 4);
        out.write_u16_be((value / 0x1_0000) as u16);
        out.write_u16_be((value % 0x1_0000) as u16);
    }
    assert(out@ =~= before + u32_bytes(value));
}

pub fn read_u32(cursor: &mut ReadCursor<'_>) -> (r: Result<u32, DecodeError>)
    requires
        old(cursor).wf(),
    ensures
        final(cursor).wf(),
        final(cursor).data() == old(cursor).data(),
        cursor::reads(
            r,
            final(cursor).offset(),
            parse_u32(old(cursor).data(), old(cursor).offset()),
        ),
{
    let length: usize = read_length(cursor)?;
    let digits: &[u8] = cursor.take_slice(length)?;
    let mut value: u32 = 0;
    let mut i: usize = 0;
    assert(digits@.take(0) =~= Seq::<u8>::empty());
    while i < digits.len()
        invariant
            i <= digits@.len(),
            value == ber::be_value(digits@.take(i as int)) % 0x1_0000_0000,
        decreases digits@.len() - i,
    {
        assert(digits@.take(i + 1).drop_last() =~= digits@.take(i as int));
        let kept: u32 = value % 0x100_0000;
        value = kept * 0x100 + digits[i] as u32;
        i = i + 1;
    }
    assert(digits@.take(digits@.len() as int) =~= digits@);
    Ok(value)
}

/// Every number is read back as it was written.
pub proof fn law_u32(b: Seq<u8>, p: int, value: u32)
    requires
        bytes::holds_at(b, p, u32_bytes(value)),
    ensures
        parse_u32(b, p) == Ok::<(u32, int), DecodeError>((value, p + u32_bytes(value).len())),
{
    broadcast use bytes::group_holds;

    reveal_with_fuel(ber::be_value, 5);
    let n = if value <= 0xFF {
        1usize
    } else if value <= 0xFFFF {
        2
    } else {
        4
    };
    assert(length_bytes(n).len() == 1);
    law_length(b, p, n);
    let s = b.subrange(p + 1, p + 1 + n);
    if value <= 0xFF {
        assert(s.drop_last() =~= Seq::<u8>::empty());
    } else if value <= 0xFFFF {
        assert(s =~= bytes::be16(value as u16));
        reveal(bytes::be16);
        assert(s.drop_last() =~= seq![s[0]]);
        assert(s.drop_last().drop_last() =~= Seq::<u8>::empty());
    } else {
        let high = (value / 0x1_0000) as u16;
        let low = (value % 0x1_0000) as u16;
        assert(s =~= bytes::be16(high) + bytes::be16(low)) by {
            assert(b.subrange(p + 1, p + 3) =~= bytes::be16(high));
            assert(b.subrange(p + 3, p + 5) =~= bytes::be16(low));
            assert(s =~= b.subrange(p + 1, p + 3) + b.subrange(p + 3, p + 5));
        }
        reveal(bytes::be16);
        assert(s.drop_last() =~= seq![s[0], s[1], s[2]]);
        assert(s.drop_last().drop_last() =~= seq![s[0], s[1]]);
        assert(s.drop_last().drop_last().drop_last() =~= seq![s[0]]);
        assert(s.drop_last().drop_last().drop_last().drop_last() =~= Seq::<u8>::empty());
    }
}

/// A number as its distance from `min`, around the end where it is below.
pub open spec fn u16_bytes(value: u16, min: u16) -> Seq<u8> {
    bytes::be16(((value - min) % 0x1_0000) as u16)
}

/// The number whose distance from `min` is read, modulo 2^16.
pub open spec fn parse_u16(b: Seq<u8>, p: int, min: u16) -> Result<(u16, int), DecodeError> {
    if p + 2 > b.len() {
        Err(cursor::short(b, p, 2))
    } else {
        Ok((((bytes::u16_be_at(b, p) + min) % 0x1_0000) as u16, p + 2))
    }
}

pub fn write_u16(out: &mut Vec<u8>, value: u16, min: u16)
    ensures
        final(out)@ == old(out)@ + u16_bytes(value, min),
{
    out.write_u16_be(value.wrapping_sub(min));
}

pub fn read_u16(cursor: &mut ReadCursor<'_>, min: u16) -> (r: Result<u16, DecodeError>)
    requires
        old(cursor).wf(),
    ensures
        final(cursor).wf(),
        final(cursor).data() == old(cursor).data(),
        cursor::reads(
            r,
            final(cursor).offset(),
            parse_u16(old(cursor).data(), old(cursor).offset(), min),
        ),
{
    let excess: u16 = cursor.take_u16_be()?;
    Ok(((excess as u32 + min as u32) % 0x1_0000) as u16)
}

/// Every number is read back as it was written.
pub proof fn law_u16(b: Seq<u8>, p: int, value: u16, min: u16)
    requires
        bytes::holds_at(b, p, u16_bytes(value, min)),
    ensures
        parse_u16(b, p, min) == Ok::<(u16, int), DecodeError>((value, p + 2)),
{
    broadcast use bytes::group_holds;

}

/// An object identifier of six elements: the length 5, the first two elements
/// in one byte, then the other four.
pub open spec fn object_id_bytes(id: Seq<u8>) -> Seq<u8> {
    seq![5u8] + seq![(id[0] * 40 + id[1]) as u8] + id.subrange(2, 6)
}

pub open spec fn parse_object_id(b: Seq<u8>, p: int) -> Result<(Seq<u8>, int), DecodeError> {
    if p + 1 > b.len() {
        Err(cursor::short(b, p, 1))
    } else if b[p] != 5 {
        Err(cursor::invalid("per.object_id", "expected a 5-byte packed OID body"))
    } else if p + 2 > b.len() {
        Err(cursor::short(b, p + 1, 1))
    } else if p + 6 > b.len() {
        Err(cursor::short(b, p + 2, 4))
    } else {
        Ok(
            (
                seq![b[p + 1] / 40, b[p + 1] % 40, b[p + 2], b[p + 3], b[p + 4], b[p + 5]],
                p + 6,
            ),
        )
    }
}

pub fn write_object_id(out: &mut Vec<u8>, id: [u8; 6])
    requires
        id[0] * 40 + id[1] <= 0xFF,
    ensures
        final(out)@ == old(out)@ + object_id_bytes(id@),
{
    let ghost before = out@;
    out.write_u8(5);
    out.write_u8(id[0] * 40 + id[1]);
    out.write_u8(id[2]);
    out.write_u8(id[3]);
    out.write_u8(id[4]);
    out.write_u8(id[5]);
    assert(out@ =~= before + object_id_bytes(id@));
}

pub fn read_object_id(cursor: &mut ReadCursor<'_>) -> (r: Result<[u8; 6], DecodeError>)
    requires
        old(cursor).wf(),
    ensures
        final(cursor).wf(),
        final(cursor).data() == old(cursor).data(),
        cursor::reads_view(
            r,
            final(cursor).offset(),
            parse_object_id(old(cursor).data(), old(cursor).offset()),
        ),
{
    let length: u8 = cursor.take_u8()?;
    if length != 5 {
        return Err(
            DecodeError::InvalidValue {
                field: "per.object_id",
                reason: "expected a 5-byte packed OID body",
            },
        );
    }
    let packed: u8 = cursor.take_u8()?;
    let rest: &[u8] = cursor.take_slice(4)?;
    let id: [u8; 6] = [packed / 40, packed % 40, rest[0], rest[1], rest[2], rest[3]];
    assert(id@ =~= seq![packed / 40, packed % 40, rest@[0], rest@[1], rest@[2], rest@[3]]);
    Ok(id)
}

/// An object identifier is read back as it was written, where its second
/// element is under 40.
pub proof fn law_object_id(b: Seq<u8>, p: int, id: Seq<u8>)
    requires
        id.len() == 6,
        id[0] * 40 + id[1] <= 0xFF,
        id[1] < 40,
        bytes::holds_at(b, p, object_id_bytes(id)),
    ensures
        parse_object_id(b, p) == Ok::<(Seq<u8>, int), DecodeError>((id, p + 6)),
{
    broadcast use bytes::group_holds;

    let rest = b.subrange(p + 2, p + 6);
    assert(rest =~= id.subrange(2, 6));
    assert(rest[0] == b[p + 2] && rest[1] == b[p + 3] && rest[2] == b[p + 4] && rest[3] == b[p
        + 5]);
    assert(seq![b[p + 1] / 40, b[p + 1] % 40, b[p + 2], b[p + 3], b[p + 4], b[p + 5]] =~= id);
}

/// Bytes behind their length, which counts only those past the first `min`.
pub open spec fn octet_string_bytes(contents: Seq<u8>, min: usize) -> Seq<u8> {
    length_bytes((contents.len() - min) as usize) + contents
}

pub open spec fn parse_octet_string(b: Seq<u8>, p: int, min: usize) -> Result<
    (Seq<u8>, int),
    DecodeError,
> {
    match parse_length(b, p) {
        Err(e) => Err(e),
        Ok((n, q)) => if q + n + min > b.len() {
            Err(cursor::short(b, q, n + min))
        } else {
            Ok((b.subrange(q, q + n + min), q + n + min))
        },
    }
}

pub fn write_octet_string(out: &mut Vec<u8>, bytes: &[u8], min: usize)
    requires
        bytes@.len() >= min,
    ensures
        final(out)@ == old(out)@ + octet_string_bytes(bytes@, min),
{
    let ghost before = out@;
    write_length(out, bytes.len() - min);
    out.write_slice(bytes);
    assert(out@ =~= before + octet_string_bytes(bytes@, min));
}

proof fn lemma_length_bound(b: Seq<u8>, p: int)
    ensures
        parse_length(b, p) matches Ok((n, _)) ==> n <= 0x7FFF,
{
    let v = bytes::u16_be_at(b, p);
    assert(v & 0x7FFF <= 0x7FFF) by (bit_vector);
}

pub fn read_octet_string<'a>(cursor: &mut ReadCursor<'a>, min: usize) -> (r: Result<
    &'a [u8],
    DecodeError,
>)
    requires
        old(cursor).wf(),
        min <= usize::MAX - 0x7FFF,
    ensures
        final(cursor).wf(),
        final(cursor).data() == old(cursor).data(),
        cursor::reads_view(
            r,
            final(cursor).offset(),
            parse_octet_string(old(cursor).data(), old(cursor).offset(), min),
        ),
{
    proof {
        lemma_length_bound(old(cursor).data(), old(cursor).offset());
    }
    let excess: usize = read_length(cursor)?;
    cursor.take_slice(excess + min)
}

/// Bytes are read back as they were written, where at most 0x7FFF of them are
/// past the first `min`.
pub proof fn law_octet_string(b: Seq<u8>, p: int, contents: Seq<u8>, min: usize)
    requires
        min <= contents.len() <= min + 0x7FFF,
        bytes::holds_at(b, p, octet_string_bytes(contents, min)),
    ensures
        parse_octet_string(b, p, min) == Ok::<(Seq<u8>, int), DecodeError>(
            (contents, p + octet_string_bytes(contents, min).len()),
        ),
{
    broadcast use bytes::group_holds;

    law_length(b, p, (contents.len() - min) as usize);
}

pub fn write_padding(out: &mut Vec<u8>, n: usize)
    ensures
        final(out)@ == old(out)@ + bytes::zeros(n as nat),
{
    let ghost before = out@;
    let mut i: usize = 0;
    while i < n
        invariant
            i <= n,
            out@ == before + bytes::zeros(i as nat),
        decreases n - i,
    {
        out.write_u8(0);
        i = i + 1;
        assert(out@ =~= before + bytes::zeros(i as nat));
    }
}

pub open spec fn parse_padding(b: Seq<u8>, p: int, n: int) -> Result<((), int), DecodeError> {
    if p + n > b.len() {
        Err(cursor::short(b, p, n))
    } else {
        Ok(((), p + n))
    }
}

pub fn read_padding(cursor: &mut ReadCursor<'_>, n: usize) -> (r: Result<(), DecodeError>)
    requires
        old(cursor).wf(),
    ensures
        final(cursor).wf(),
        final(cursor).data() == old(cursor).data(),
        cursor::reads(
            r,
            final(cursor).offset(),
            parse_padding(old(cursor).data(), old(cursor).offset(), n as int),
        ),
{
    cursor.skip(n)?;
    Ok(())
}

/// The decimal digit that a byte of text stands for.
pub open spec fn digit(c: u8) -> u8 {
    (((c + 0x100 - 0x30) % 0x100) % 10) as u8
}

/// Two digits to a byte, the first in the high half; an odd one out has 0 for
/// its mate.
pub open spec fn packed_digits(text: Seq<u8>) -> Seq<u8> {
    Seq::new(
        ((text.len() + 1) / 2) as nat,
        |i: int|
            (digit(text[2 * i]) * 0x10 + if 2 * i + 1 < text.len() {
                digit(text[2 * i + 1]) as int
            } else {
                0
            }) as u8,
    )
}

/// A string of digits behind its length, which counts only those past the
/// first `min`.
pub open spec fn numeric_string_bytes(text: Seq<u8>, min: usize) -> Seq<u8> {
    length_bytes((text.len() - min) as usize) + packed_digits(text)
}

/// The characters of `n` packed digits.
pub open spec fn unpacked_digits(packed: Seq<u8>, n: nat) -> Seq<char> {
    Seq::new(
        n,
        |i: int|
            if i % 2 == 0 {
                (0x30 + packed[i / 2] / 0x10) as char
            } else {
                (0x30 + packed[i / 2] % 0x10) as char
            },
    )
}

pub open spec fn parse_numeric_string(b: Seq<u8>, p: int, min: usize) -> Result<
    (Seq<char>, int),
    DecodeError,
> {
    match parse_length(b, p) {
        Err(e) => Err(e),
        Ok((n, q)) => {
            let count = n + min;
            let size = (count + 1) / 2;
            if q + size > b.len() {
                Err(cursor::short(b, q, size))
            } else {
                Ok((unpacked_digits(b.subrange(q, q + size), count as nat), q + size))
            }
        },
    }
}

fn digit_of(c: u8) -> (d: u8)
    ensures
        d == digit(c),
        d < 10,
{
    (((c as u16 + 0x100 - 0x30) % 0x100) % 10) as u8
}

pub fn write_numeric_string(out: &mut Vec<u8>, value: &str, min: usize)
    requires
        value.spec_bytes().len() >= min,
    ensures
        final(out)@ == old(out)@ + numeric_string_bytes(value.spec_bytes(), min),
{
    let ghost before = out@;
    let text: &[u8] = value.as_bytes();
    let n: usize = text.len();
    write_length(out, n - min);
    let ghost prefix = out@;
    let mut i: usize = 0;
    while i < n
        invariant
            n == text@.len(),
            i <= n,
            i % 2 == 0 || i == n,
            out@ == prefix + packed_digits(text@).take(((i + 1) / 2) as int),
        decreases n - i,
    {
        let ghost k = i as int / 2;
        let high: u8 = digit_of(text[i]);
        if n - i > 1 {
            let low: u8 = digit_of(text[i + 1]);
            out.write_u8(high * 0x10 + low);
            i = i + 2;
        } else {
            out.write_u8(high * 0x10);
            i = i + 1;
        }
        proof {
            assert(packed_digits(text@).take(k + 1) =~= packed_digits(text@).take(k).push(
                packed_digits(text@)[k],
            ));
            assert(out@ =~= prefix + packed_digits(text@).take(k + 1));
        }
    }
    assert(packed_digits(text@).take(((n + 1) / 2) as int) =~= packed_digits(text@));
    assert(out@ =~= before + numeric_string_bytes(text@, min));
}

pub fn read_numeric_string(cursor: &mut ReadCursor<'_>, min: usize) -> (r: Result<
    String,
    DecodeError,
>)
    requires
        old(cursor).wf(),
        min <= usize::MAX - 0x8000,
    ensures
        final(cursor).wf(),
        final(cursor).data() == old(cursor).data(),
        cursor::reads_view(
            r,
            final(cursor).offset(),
            parse_numeric_string(old(cursor).data(), old(cursor).offset(), min),
        ),
{
    proof {
        lemma_length_bound(old(cursor).data(), old(cursor).offset());
    }
    let excess: usize = read_length(cursor)?;
    let count: usize = excess + min;
    let packed: &[u8] = cursor.take_slice((count + 1) / 2)?;
    let mut s: String = String::new();
    let mut i: usize = 0;
    assert(unpacked_digits(packed@, count as nat).take(0) =~= Seq::<char>::empty());
    while i < count
        invariant
            i <= count,
            packed@.len() == (count + 1) / 2,
            s@ == unpacked_digits(packed@, count as nat).take(i as int),
        decreases count - i,
    {
        let b: u8 = packed[i / 2];
        let half: u8 = if i % 2 == 0 {
            b / 0x10
        } else {
            b % 0x10
        };
        s.push((0x30 + half) as char);
        proof {
            assert(s@ =~= unpacked_digits(packed@, count as nat).take(i + 1));
        }
        i = i + 1;
    }
    assert(s@ =~= unpacked_digits(packed@, count as nat));
    Ok(s)
}

/// A string of decimal digits is read back as it was written, where at most
/// 0x7FFF of them are past the first `min`.
pub proof fn law_numeric_string(b: Seq<u8>, p: int, text: Seq<u8>, min: usize)
    requires
        min <= text.len() <= min + 0x7FFF,
        forall|i: int| 0 <= i < text.len() ==> 0x30 <= #[trigger] text[i] <= 0x39,
        bytes::holds_at(b, p, numeric_string_bytes(text, min)),
    ensures
        parse_numeric_string(b, p, min) == Ok::<(Seq<char>, int), DecodeError>(
            (
                Seq::new(text.len(), |i: int| text[i] as char),
                p + numeric_string_bytes(text, min).len(),
            ),
        ),
{
    broadcast use bytes::group_holds;

    let n = (text.len() - min) as usize;
    law_length(b, p, n);
    let q = p + length_bytes(n).len();
    let size = (text.len() + 1) / 2;
    let packed = b.subrange(q, q + size);
    assert(packed =~= packed_digits(text));
    let back = unpacked_digits(packed, text.len());
    assert forall|i: int| 0 <= i < text.len() implies back[i] == text[i] as char by {
        let k = i / 2;
        assert(0x30 <= text[2 * k] <= 0x39);
        if 2 * k + 1 < text.len() {
            assert(0x30 <= text[2 * k + 1] <= 0x39);
        }
        assert(packed[k] == packed_digits(text)[k]);
    }
    assert(back =~= Seq::new(text.len(), |i: int| text[i] as char));
}

/// A length below 128 is one byte, and another below 32768 two bytes, high byte
/// first, with 128 added to the first.
pub proof fn law_length_bytes(b: Seq<u8>, p: int, length: usize)
    requires
        0 <= p,
    ensures
        length < 128 ==> length_bytes(length) == seq![length as u8],
        128 <= length < 32768 ==> length_bytes(length) == seq![
            (128 + length / 256) as u8,
            (length % 256) as u8,
        ],
        p < b.len() && b[p] < 128 ==> parse_length(b, p) == Ok::<(usize, int), DecodeError>(
            (b[p] as usize, p + 1),
        ),
        p + 1 < b.len() && b[p] >= 128 ==> parse_length(b, p) == Ok::<(usize, int), DecodeError>(
            ((256 * (b[p] - 128) + b[p + 1]) as usize, p + 2),
        ),
        parse_length(b, p) is Ok ==> p < b.len() && (b[p] >= 128 ==> p + 1 < b.len()),
{
    let v = b[p];
    assert(v & 0x80 == 0 <==> v < 128) by (bit_vector);
    bytes::law_byte_order(b, p);
    let n = bytes::u16_be_at(b, p);
    assert(n & 0x7FFF == (if n < 0x8000 {
        n as int
    } else {
        n - 0x8000
    })) by (bit_vector);
    if 128 <= length < 32768 {
        let m = length as u16;
        assert(m < 0x8000 ==> (m | 0x8000u16) == m + 0x8000) by (bit_vector);
        reveal(bytes::be16);
        assert(length_bytes(length) =~= seq![(128 + length / 256) as u8, (length % 256) as u8]);
    }
}

/// A number is written with its own size, one, two or four bytes, high byte
/// first, and read with whatever size it is given.
pub proof fn law_u32_bytes(value: u32, b: Seq<u8>, p: int)
    requires
        0 <= p,
    ensures
        value < 256 ==> u32_bytes(value) == seq![1u8, value as u8],
        256 <= value < 65536 ==> u32_bytes(value) == seq![
            2u8,
            (value / 256) as u8,
            (value % 256) as u8,
        ],
        65536 <= value ==> u32_bytes(value) == seq![
            4u8,
            (value / 16777216) as u8,
            (value / 65536 % 256) as u8,
            (value / 256 % 256) as u8,
            (value % 256) as u8,
        ],
        p + 1 < b.len() && b[p] == 1 ==> parse_u32(b, p) == Ok::<(u32, int), DecodeError>(
            (b[p + 1] as u32, p + 2),
        ),
        p + 2 < b.len() && b[p] == 2 ==> parse_u32(b, p) == Ok::<(u32, int), DecodeError>(
            ((256 * b[p + 1] + b[p + 2]) as u32, p + 3),
        ),
        p + 4 < b.len() && b[p] == 4 ==> parse_u32(b, p) == Ok::<(u32, int), DecodeError>(
            (
                (16777216 * b[p + 1] + 65536 * b[p + 2] + 256 * b[p + 3] + b[p + 4]) as u32,
                p + 5,
            ),
        ),
{
    law_length_bytes(b, p, 1);
    law_length_bytes(b, p, 2);
    law_length_bytes(b, p, 4);
    reveal(bytes::be16);
    if value < 256 {
        assert(u32_bytes(value) =~= seq![1u8, value as u8]);
    } else if value < 65536 {
        assert(u32_bytes(value) =~= seq![2u8, (value / 256) as u8, (value % 256) as u8]);
    } else {
        assert(u32_bytes(value) =~= seq![
            4u8,
            (value / 16777216) as u8,
            (value / 65536 % 256) as u8,
            (value / 256 % 256) as u8,
            (value % 256) as u8,
        ]);
    }
    reveal_with_fuel(ber::be_value, 5);
}

/// A number above a least one is written as what it is above it, in two bytes,
/// high byte first.
pub proof fn law_u16_bytes(value: u16, min: u16, b: Seq<u8>, p: int)
    requires
        0 <= p,
        p + 2 <= b.len(),
    ensures
        min <= value ==> u16_bytes(value, min) == seq![
            ((value - min) / 256) as u8,
            ((value - min) % 256) as u8,
        ],
        256 * b[p] + b[p + 1] + min <= 65535 ==> parse_u16(b, p, min) == Ok::<
            (u16, int),
            DecodeError,
        >(((256 * b[p] + b[p + 1] + min) as u16, p + 2)),
{
    reveal(bytes::be16);
    bytes::law_byte_order(b, p);
    if min <= value {
        assert(u16_bytes(value, min) =~= seq![
            ((value - min) / 256) as u8,
            ((value - min) % 256) as u8,
        ]);
    }
}

/// An object identifier has its first two elements in one byte, forty times the
/// one and the other, and each of the others in a byte.
pub proof fn law_object_id_bytes(id: Seq<u8>, b: Seq<u8>, p: int)
    requires
        id.len() == 6,
        id[0] * 40 + id[1] <= 255,
        0 <= p,
        p + 6 <= b.len(),
    ensures
        object_id_bytes(id) == seq![5u8, (40 * id[0] + id[1]) as u8, id[2], id[3], id[4], id[5]],
        parse_object_id(b, p) is Ok <==> b[p] == 5,
        parse_object_id(b, p) matches Ok((v, q)) ==> {
            &&& q == p + 6
            &&& v.len() == 6
            &&& 40 * v[0] + v[1] == b[p + 1]
            &&& v[1] < 40
            &&& v.skip(2) == b.subrange(p + 2, p + 6)
        },
{
    assert(object_id_bytes(id) =~= seq![
        5u8,
        (40 * id[0] + id[1]) as u8,
        id[2],
        id[3],
        id[4],
        id[5],
    ]);
    if b[p] == 5 {
        assert(parse_object_id(b, p)->Ok_0.0.skip(2) =~= b.subrange(p + 2, p + 6));
    }
}

/// Digits are packed two to a byte, the first in the high half; the last of an odd number
/// of them stands alone in the high half. Unpacking gives the characters of the digits.
pub proof fn law_digits(text: Seq<u8>, i: int)
    requires
        0 <= i < text.len(),
        forall|k: int| 0 <= k < text.len() ==> 48 <= #[trigger] text[k] <= 57,
    ensures
        packed_digits(text).len() == (text.len() + 1) / 2,
        i % 2 == 0 ==> packed_digits(text)[i / 2] / 16 == text[i] - 48,
        i % 2 == 1 ==> packed_digits(text)[i / 2] % 16 == text[i] - 48,
        i == text.len() - 1 && i % 2 == 0 ==> packed_digits(text)[i / 2] % 16 == 0,
        unpacked_digits(packed_digits(text), text.len()).len() == text.len(),
        unpacked_digits(packed_digits(text), text.len())[i] == text[i] as char,
{
    let k = i / 2;
    assert(i == 2 * k || i == 2 * k + 1);
    assert(48 <= text[2 * k] <= 57);
    if 2 * k + 1 < text.len() {
        assert(48 <= text[2 * k + 1] <= 57);
    }
}

/// A string of bytes, or of digits, comes after the number of those past the least that
/// there may be, and padding is zeros.
pub proof fn law_string_bytes(contents: Seq<u8>, min: usize, out: &mut Vec<u8>, n: usize, i: int)
    requires
        min <= contents.len() < 128 + min,
        contents.len() <= usize::MAX,
        call_ensures(write_padding, (out, n), ()),
        0 <= i < n,
    ensures
        octet_string_bytes(contents, min)[0] == contents.len() - min,
        octet_string_bytes(contents, min).skip(1) == contents,
        numeric_string_bytes(contents, min)[0] == contents.len() - min,
        numeric_string_bytes(contents, min).skip(1) == packed_digits(contents),
        final(out)@.len() == old(out)@.len() + n,
        final(out)@[old(out)@.len() + i] == 0,
{
    law_length_bytes(contents, 0, (contents.len() - min) as usize);
    assert(octet_string_bytes(contents, min).skip(1) =~= contents);
    assert(numeric_string_bytes(contents, min).skip(1) =~= packed_digits(contents));
}

} // verus!
