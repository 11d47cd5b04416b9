//! Planar bitmap compression: each color plane is turned into differences
//! between rows, and each row of differences is run-length encoded.
//!
//! Of the format only one mode is used: run-length encoded planes for red, green
//! and blue, without alpha and without a change of color space.

use vstd::prelude::*;

use crate::bytes;
use crate::cursor;
use crate::cursor::ReadCursor;
use crate::DecodeError;

verus! {

pub const FORMAT_HEADER_RLE_NO_ALPHA_ARGB: u8 = 0x30;

/// `n` times the same byte.
pub open spec fn repeated(byte: u8, n: int) -> Seq<u8> {
    Seq::new(n as nat, |i: int| byte)
}

/// A difference modulo 256 as a number in which small differences of either
/// sign are small: 0, -1, 1, -2, 2 and so on.
pub open spec fn folded(raw_delta: u8) -> u8 {
    if raw_delta < 128 {
        (2 * raw_delta) as u8
    } else {
        (2 * (255 - raw_delta) + 1) as u8
    }
}

/// The difference of which [`folded`] makes `encoded`.
pub open spec fn unfolded(encoded: u8) -> u8 {
    if encoded % 2 == 0 {
        encoded / 2
    } else {
        (255 - encoded / 2) as u8
    }
}

pub fn zigzag_encode(raw_delta: u8) -> (e: u8)
    ensures
        e == folded(raw_delta),
{
    if raw_delta < 128 {
        2 * raw_delta
    } else {
        2 * (255 - raw_delta) + 1
    }
}

pub fn zigzag_decode(encoded: u8) -> (d: u8)
    ensures
        d == unfolded(encoded),
{
    if encoded % 2 == 0 {
        encoded / 2
    } else {
        255 - encoded / 2
    }
}

/// Unfolding undoes folding, for every difference.
pub proof fn law_zigzag(raw: u8)
    ensures
        unfolded(folded(raw)) == raw,
        folded(unfolded(raw)) == raw,
{
}

/// What is sent for the byte at `i` of a plane of rows of `width` bytes: the
/// first row as it is, then the difference to the row above.
pub open spec fn delta_at(plane: Seq<u8>, width: int, i: int) -> u8 {
    if i < width {
        plane[i]
    } else {
        folded(((plane[i] + 256 - plane[i - width]) % 256) as u8)
    }
}

pub open spec fn deltas(plane: Seq<u8>, width: int) -> Seq<u8> {
    Seq::new(plane.len(), |i: int| delta_at(plane, width, i))
}

/// The byte at `i` of the plane of which `delta` holds the differences.
pub open spec fn restored_at(delta: Seq<u8>, width: int, i: int) -> u8
    decreases i,
{
    if i < width || width <= 0 {
        delta[i]
    } else {
        ((restored_at(delta, width, i - width) + unfolded(delta[i])) % 256) as u8
    }
}

pub open spec fn restored(delta: Seq<u8>, width: int) -> Seq<u8> {
    Seq::new(delta.len(), |i: int| restored_at(delta, width, i))
}

proof fn lemma_restored_at(plane: Seq<u8>, width: int, i: int)
    requires
        0 < width,
        0 <= i < plane.len(),
    ensures
        restored_at(deltas(plane, width), width, i) == plane[i],
    decreases i,
{
    if i >= width {
        lemma_restored_at(plane, width, i - width);
        law_zigzag(((plane[i] + 256 - plane[i - width]) % 256) as u8);
    }
}

/// Taking differences loses nothing.
pub proof fn law_deltas(plane: Seq<u8>, width: int)
    requires
        0 < width,
    ensures
        restored(deltas(plane, width), width) == plane,
{
    assert forall|i: int| 0 <= i < plane.len() implies restored(deltas(plane, width), width)[i]
        == plane[i] by {
        lemma_restored_at(plane, width, i);
    }
    assert(restored(deltas(plane, width), width) =~= plane);
}

/// How many bytes from `i` on are the same.
pub open spec fn run_from(line: Seq<u8>, i: int) -> int
    decreases line.len() - i,
{
    if i + 1 < line.len() && line[i + 1] == line[i] {
        1 + run_from(line, i + 1)
    } else {
        1
    }
}

pub proof fn lemma_run_from(line: Seq<u8>, i: int)
    requires
        0 <= i < line.len(),
    ensures
        1 <= run_from(line, i) <= line.len() - i,
        line.subrange(i, i + run_from(line, i)) == repeated(line[i], run_from(line, i)),
    decreases line.len() - i,
{
    if i + 1 < line.len() && line[i + 1] == line[i] {
        lemma_run_from(line, i + 1);
        let n = run_from(line, i);
        let whole = line.subrange(i, i + n);
        let tail = line.subrange(i + 1, i + n);
        assert forall|k: int| 0 <= k < n implies #[trigger] whole[k] == line[i] by {
            if k > 0 {
                assert(whole[k] == tail[k - 1]);
                assert(repeated(line[i + 1], n - 1)[k - 1] == line[i + 1]);
            }
        }
        assert(whole =~= repeated(line[i], n));
    } else {
        assert(line.subrange(i, i + 1) =~= repeated(line[i], 1));
    }
}

/// Bytes as they are, in segments of up to 15: the high half of the control
/// byte counts them.
pub open spec fn literals(s: Seq<u8>) -> Seq<u8>
    decreases s.len(),
{
    if s.len() == 0 {
        seq![]
    } else if s.len() <= 15 {
        seq![(16 * s.len()) as u8] + s
    } else {
        seq![240u8] + s.take(15) + literals(s.skip(15))
    }
}

/// More of the byte that came last: in segments of 3 to 15, which the low half
/// of the control byte counts. One or two bytes cannot be counted so and are
/// sent as they are.
pub open spec fn run_tail(byte: u8, n: int) -> Seq<u8>
    decreases n,
{
    if n <= 0 {
        seq![]
    } else if n < 3 {
        seq![(16 * n) as u8] + repeated(byte, n)
    } else if n <= 15 {
        seq![n as u8]
    } else {
        seq![15u8] + run_tail(byte, n - 15)
    }
}

/// A run of at least four: its byte with up to 15 more, then the rest.
pub open spec fn run_segments(byte: u8, n: int) -> Seq<u8> {
    if n <= 16 {
        seq![(16 + (n - 1)) as u8, byte]
    } else {
        seq![31u8, byte] + run_tail(byte, n - 16)
    }
}

/// The encoding of a row from `i` on, where `pending` are the bytes before `i`
/// that are still to be sent as they are. Runs of fewer than four count as no
/// runs.
pub open spec fn rle_from(line: Seq<u8>, i: int, pending: Seq<u8>) -> Seq<u8>
    decreases line.len() - i,
{
    if i >= line.len() {
        literals(pending)
    } else {
        let n = run_from(line, i);
        proof {
            if 0 <= i {
                lemma_run_from(line, i);
            }
        }
        if i < 0 || n <= 0 {
            seq![]
        } else if n < 4 {
            rle_from(line, i + n, pending + line.subrange(i, i + n))
        } else {
            literals(pending) + run_segments(line[i], n) + rle_from(line, i + n, seq![])
        }
    }
}

/// The encoding of a row.
pub open spec fn line_rle(line: Seq<u8>) -> Seq<u8> {
    rle_from(line, 0, seq![])
}

/// The encoding of the first `n` rows of `width` differences.
pub open spec fn rows_rle(delta: Seq<u8>, width: int, n: int) -> Seq<u8>
    decreases n,
{
    if n <= 0 {
        seq![]
    } else {
        rows_rle(delta, width, n - 1) + line_rle(delta.subrange((n - 1) * width, n * width))
    }
}

/// The encoding of a plane.
pub open spec fn plane_wire(plane: Seq<u8>, width: int, height: int) -> Seq<u8> {
    rows_rle(deltas(plane, width), width, height)
}

/// One byte of each of `n` pixels of four bytes; 0 where there is no such pixel.
pub open spec fn channel(bgrx: Seq<u8>, n: int, c: int) -> Seq<u8> {
    Seq::new(
        n as nat,
        |i: int|
            if 4 * i + 4 <= bgrx.len() {
                bgrx[4 * i + c]
            } else {
                0
            },
    )
}

/// The encoding of a picture: a format byte, and the planes for red, green and
/// blue.
pub open spec fn wire(bgrx: Seq<u8>, width: int, height: int) -> Seq<u8> {
    seq![FORMAT_HEADER_RLE_NO_ALPHA_ARGB] + plane_wire(
        channel(bgrx, width * height, 2),
        width,
        height,
    ) + plane_wire(channel(bgrx, width * height, 1), width, height) + plane_wire(
        channel(bgrx, width * height, 0),
        width,
        height,
    )
}

/// A full segment of pending bytes may be sent at once.
proof fn lemma_flush(line: Seq<u8>, i: int, pending: Seq<u8>)
    requires
        0 <= i <= line.len(),
        pending.len() >= 15,
    ensures
        rle_from(line, i, pending) == seq![240u8] + pending.take(15) + rle_from(
            line,
            i,
            pending.skip(15),
        ),
    decreases line.len() - i,
{
    assert(literals(pending) =~= seq![240u8] + pending.take(15) + literals(pending.skip(15))) by {
        if pending.len() == 15 {
            assert(pending.take(15) =~= pending);
            assert(pending.skip(15) =~= seq![]);
        }
    }
    if i < line.len() {
        let n = run_from(line, i);
        lemma_run_from(line, i);
        if n < 4 {
            let more = line.subrange(i, i + n);
            lemma_flush(line, i + n, pending + more);
            assert((pending + more).take(15) =~= pending.take(15));
            assert((pending + more).skip(15) =~= pending.skip(15) + more);
        } else {
            assert(rle_from(line, i, pending) =~= seq![240u8] + pending.take(15) + rle_from(
                line,
                i,
                pending.skip(15),
            ));
        }
    }
}

/// Sends the pending bytes as they are.
fn flush(pending: &mut Vec<u8>, out: &mut Vec<u8>)
    requires
        old(pending)@.len() <= 15,
    ensures
        final(pending)@ == Seq::<u8>::empty(),
        final(out)@ == old(out)@ + literals(old(pending)@),
{
    let ghost before = out@;
    if pending.len() > 0 {
        out.push(16 * pending.len() as u8);
        out.extend_from_slice(pending.as_slice());
    }
    assert(out@ =~= before + literals(old(pending)@));
    pending.clear();
}

fn emit_run(byte: u8, count: usize, out: &mut Vec<u8>)
    requires
        count >= 4,
    ensures
        final(out)@ == old(out)@ + run_segments(byte, count as int),
{
    let ghost before = out@;
    let first: usize = if count <= 16 {
        count - 1
    } else {
        15
    };
    out.push(16 + first as u8);
    out.push(byte);
    let mut remaining: usize = count - 1 - first;
    assert(run_segments(byte, count as int) =~= out@.skip(before.len() as int) + run_tail(
        byte,
        remaining as int,
    ));
    assert(out@ + run_tail(byte, remaining as int) =~= before + run_segments(byte, count as int));
    while remaining > 0
        invariant
            out@ + run_tail(byte, remaining as int) == before + run_segments(byte, count as int),
        decreases remaining,
    {
        let ghost had = out@;
        let ghost due = remaining as int;
        if remaining >= 3 {
            let chunk: usize = if remaining <= 15 {
                remaining
            } else {
                15
            };
            out.push(chunk as u8);
            remaining = remaining - chunk;
            assert(out@ + run_tail(byte, remaining as int) =~= had + run_tail(byte, due));
        } else {
            out.push(16 * remaining as u8);
            out.push(byte);
            if remaining == 2 {
                out.push(byte);
            }
            remaining = 0;
            assert(out@ + run_tail(byte, remaining as int) =~= had + run_tail(byte, due));
        }
    }
    assert(out@ + run_tail(byte, 0) =~= out@);
}

fn encode_scanline_rle(scanline: &[u8], out: &mut Vec<u8>)
    ensures
        final(out)@ == old(out)@ + line_rle(scanline@),
{
    let ghost line = scanline@;
    let ghost all = out@ + line_rle(line);
    let mut pending: Vec<u8> = Vec::new();
    let n: usize = scanline.len();
    let mut i: usize = 0;
    assert(pending@ =~= seq![]);
    while i < n
        invariant
            i <= n,
            n == line.len(),
            line == scanline@,
            pending@.len() < 15,
            out@ + rle_from(line, i as int, pending@) == all,
        decreases n - i,
    {
        let byte: u8 = scanline[i];
        let mut count: usize = 1;
        while count < n - i && scanline[i + count] == byte
            invariant
                1 <= count <= n - i,
                i < n,
                n == line.len(),
                line == scanline@,
                byte == line[i as int],
                line[i + count - 1] == byte,
                run_from(line, i as int) == count - 1 + run_from(line, i + count - 1),
            decreases n - i - count,
        {
            count = count + 1;
        }
        let ghost had = out@;
        let ghost held = pending@;
        proof {
            lemma_run_from(line, i as int);
            assert(count == run_from(line, i as int));
        }
        if count < 4 {
            let mut k: usize = 0;
            assert(held + repeated(byte, count as int) =~= pending@ + repeated(byte, count - k));
            while k < count
                invariant
                    k <= count < 4,
                    i + count <= n,
                    n == line.len(),
                    pending@.len() < 15,
                    out@ + rle_from(line, i + count, pending@ + repeated(byte, count - k)) == all,
                decreases count - k,
            {
                let ghost rest = repeated(byte, count - k - 1);
                let ghost was = out@;
                let ghost lit = pending@;
                pending.push(byte);
                k = k + 1;
                assert(lit + repeated(byte, count - k + 1) =~= pending@ + rest);
                if pending.len() == 15 {
                    proof {
                        lemma_flush(line, i + count, pending@ + rest);
                        assert((pending@ + rest).take(15) =~= pending@);
                        assert((pending@ + rest).skip(15) =~= rest);
                    }
                    let ghost full = pending@;
                    flush(&mut pending, out);
                    assert(pending@ + rest =~= rest);
                    assert(out@ + rle_from(line, i + count, rest) =~= was + (seq![240u8] + full
                        + rle_from(line, i + count, rest)));
                }
            }
            assert(pending@ + repeated(byte, 0) =~= pending@);
        } else {
            flush(&mut pending, out);
            emit_run(byte, count, out);
            assert(out@ + rle_from(line, i + count, pending@) =~= had + (literals(held)
                + run_segments(byte, count as int) + rle_from(line, i + count, seq![])));
        }
        i = i + count;
    }
    flush(&mut pending, out);
}

/// What follows a control byte: how many bytes as they are, and how often the
/// last byte is repeated after them.
pub open spec fn segment(control: u8) -> (int, int) {
    if control % 16 == 1 {
        (0, 16 + control / 16)
    } else if control % 16 == 2 {
        (0, 32 + control / 16)
    } else {
        ((control / 16) as int, (control % 16) as int)
    }
}

/// A row of `width` bytes read on from offset `p`, where `line` has been read of
/// it and `last` is the byte to be repeated; and the offset after it.
pub open spec fn parse_line(b: Seq<u8>, p: int, line: Seq<u8>, last: u8, width: int) -> Result<
    (Seq<u8>, int),
    DecodeError,
>
    decreases b.len() - p,
{
    if line.len() >= width {
        Ok((line, p))
    } else if p + 1 > b.len() {
        Err(cursor::short(b, p, 1))
    } else if b[p] == 0 {
        Err(cursor::invalid("rdp6.rle.control", "0x00 control byte is invalid"))
    } else {
        let (lits, run) = segment(b[p]);
        let room = width - line.len();
        let left = b.len() - p - 1;
        if lits > room && room <= left {
            Err(cursor::invalid("rdp6.rle.scanline", "segment overruns the scanline"))
        } else if lits > left {
            Err(cursor::short(b, b.len() as int, 1))
        } else if lits + run > room {
            Err(cursor::invalid("rdp6.rle.scanline", "segment overruns the scanline"))
        } else {
            let next = if lits > 0 {
                b[p + lits]
            } else {
                last
            };
            parse_line(
                b,
                p + 1 + lits,
                line + b.subrange(p + 1, p + 1 + lits) + repeated(next, run),
                next,
                width,
            )
        }
    }
}

/// The differences of `n` rows of `width` bytes from offset `p` on, and the
/// offset after them.
pub open spec fn parse_rows(b: Seq<u8>, p: int, width: int, n: int) -> Result<
    (Seq<u8>, int),
    DecodeError,
>
    decreases n,
{
    if n <= 0 {
        Ok((seq![], p))
    } else {
        match parse_rows(b, p, width, n - 1) {
            Err(e) => Err(e),
            Ok((rows, q)) => match parse_line(b, q, seq![], 0, width) {
                Err(e) => Err(e),
                Ok((line, next)) => Ok((rows + line, next)),
            },
        }
    }
}

/// The plane from offset `p` on, and the offset after it.
pub open spec fn parse_plane(b: Seq<u8>, p: int, width: int, height: int) -> Result<
    (Seq<u8>, int),
    DecodeError,
> {
    if width == 0 {
        Ok((seq![], p))
    } else {
        match parse_rows(b, p, width, height) {
            Err(e) => Err(e),
            Ok((delta, q)) => Ok((restored(delta, width), q)),
        }
    }
}

/// Four bytes per pixel: blue, green, red, and 0.
pub open spec fn woven(red: Seq<u8>, green: Seq<u8>, blue: Seq<u8>) -> Seq<u8> {
    Seq::new(
        4 * red.len(),
        |i: int|
            if i % 4 == 0 {
                blue[i / 4]
            } else if i % 4 == 1 {
                green[i / 4]
            } else if i % 4 == 2 {
                red[i / 4]
            } else {
                0
            },
    )
}

pub open spec fn parse(b: Seq<u8>, width: int, height: int) -> Result<Seq<u8>, DecodeError> {
    if b.len() < 1 {
        Err(cursor::short(b, 0, 1))
    } else if b[0] != FORMAT_HEADER_RLE_NO_ALPHA_ARGB {
        Err(
            cursor::invalid(
                "rdp6.format_header",
                "only RLE + no-alpha + ARGB (0x30) is supported",
            ),
        )
    } else {
        match parse_plane(b, 1, width, height) {
            Err(e) => Err(e),
            Ok((red, p)) => match parse_plane(b, p, width, height) {
                Err(e) => Err(e),
                Ok((green, q)) => match parse_plane(b, q, width, height) {
                    Err(e) => Err(e),
                    Ok((blue, _)) => Ok(woven(red, green, blue)),
                },
            },
        }
    }
}

fn decode_scanline_rle(cursor: &mut ReadCursor<'_>, width: usize) -> (r: Result<
    Vec<u8>,
    DecodeError,
>)
    requires
        old(cursor).wf(),
    ensures
        final(cursor).wf(),
        final(cursor).data() == old(cursor).data(),
        cursor::reads_view(
            r,
            final(cursor).offset(),
            parse_line(old(cursor).data(), old(cursor).offset(), seq![], 0, width as int),
        ),
        r is Ok ==> r->Ok_0@.len() == width,
{
    let ghost b = cursor.data();
    let ghost outcome = parse_line(b, cursor.offset(), seq![], 0, width as int);
    let mut line: Vec<u8> = Vec::new();
    let mut last_byte: u8 = 0;
    assert(line@ =~= seq![]);
    while line.len() < width
        invariant
            cursor.wf(),
            cursor.data() == b,
            b == old(cursor).data(),
            outcome == parse_line(
                old(cursor).data(),
                old(cursor).offset(),
                seq![],
                0,
                width as int,
            ),
            line@.len() <= width,
            outcome == parse_line(b, cursor.offset(), line@, last_byte, width as int),
        decreases b.len() - cursor.offset(),
    {
        let ghost p = cursor.offset();
        let ghost had = line@;
        let ghost last = last_byte;
        let control: u8 = cursor.take_u8()?;
        if control == 0 {
            return Err(
                DecodeError::InvalidValue {
                    field: "rdp6.rle.control",
                    reason: "0x00 control byte is invalid",
                },
            );
        }
        let upper: u8 = control / 16;
        let field: u8 = control % 16;
        let literal_count: u8;
        let run_length: u8;
        if field == 1 {
            literal_count = 0;
            run_length = 16 + upper;
        } else if field == 2 {
            literal_count = 0;
            run_length = 32 + upper;
        } else {
            literal_count = upper;
            run_length = field;
        }
        let mut k: u8 = 0;
        assert(line@ =~= had + b.subrange(p + 1, p + 1 + k));
        while k < literal_count
            invariant
                k <= literal_count,
                cursor.wf(),
                cursor.data() == b,
                b == old(cursor).data(),
                outcome == parse_line(
                    old(cursor).data(),
                    old(cursor).offset(),
                    seq![],
                    0,
                    width as int,
                ),
                outcome == parse_line(b, p, had, last, width as int),
                0 <= p < b.len(),
                b[p] != 0,
                segment(b[p]) == (literal_count as int, run_length as int),
                cursor.offset() == p + 1 + k,
                had.len() < width,
                line@.len() == had.len() + k,
                line@.len() <= width,
                line@ == had + b.subrange(p + 1, p + 1 + k),
                last_byte == (if k > 0 {
                    b[p + k]
                } else {
                    last
                }),
            decreases literal_count - k,
        {
            if line.len() >= width {
                return Err(
                    DecodeError::InvalidValue {
                        field: "rdp6.rle.scanline",
                        reason: "segment overruns the scanline",
                    },
                );
            }
            let byte: u8 = cursor.take_u8()?;
            line.push(byte);
            last_byte = byte;
            k = k + 1;
            assert(line@ =~= had + b.subrange(p + 1, p + 1 + k));
        }
        let ghost read = line@;
        let mut j: u8 = 0;
        assert(line@ =~= read + repeated(last_byte, 0));
        while j < run_length
            invariant
                j <= run_length,
                line@.len() <= width,
                line@ == read + repeated(last_byte, j as int),
                outcome == parse_line(
                    old(cursor).data(),
                    old(cursor).offset(),
                    seq![],
                    0,
                    width as int,
                ),
                outcome == parse_line(b, p, had, last, width as int),
                0 <= p < b.len(),
                b[p] != 0,
                segment(b[p]) == (literal_count as int, run_length as int),
                had.len() < width,
                read.len() == had.len() + literal_count,
                read.len() <= width,
                p + 1 + literal_count <= b.len(),
                cursor.wf(),
                cursor.data() == b,
                b == old(cursor).data(),
            decreases run_length - j,
        {
            if line.len() >= width {
                return Err(
                    DecodeError::InvalidValue {
                        field: "rdp6.rle.scanline",
                        reason: "segment overruns the scanline",
                    },
                );
            }
            line.push(last_byte);
            j = j + 1;
            assert(line@ =~= read + repeated(last_byte, j as int));
        }
    }
    Ok(line)
}

/// Row `r` of rows of `width` lies within a plane of `height` of them.
proof fn lemma_row(r: int, width: int, height: int)
    requires
        0 <= r < height,
        0 <= width,
    ensures
        0 <= r * width,
        r * width + width == (r + 1) * width,
        (r + 1) * width <= height * width,
        height * width == width * height,
{
    assert(0 <= r * width) by (nonlinear_arith)
        requires
            0 <= r,
            0 <= width,
    ;
    assert(r * width + width == (r + 1) * width) by (nonlinear_arith);
    assert((r + 1) * width <= height * width) by (nonlinear_arith)
        requires
            r + 1 <= height,
            0 <= width,
    ;
    assert(height * width == width * height) by (nonlinear_arith);
}

proof fn lemma_rows_error_stays(b: Seq<u8>, p: int, width: int, m: int, n: int)
    requires
        0 <= m <= n,
        parse_rows(b, p, width, m) is Err,
    ensures
        parse_rows(b, p, width, n) == parse_rows(b, p, width, m),
    decreases n - m,
{
    if m < n {
        lemma_rows_error_stays(b, p, width, m, n - 1);
    }
}

fn decode_plane(cursor: &mut ReadCursor<'_>, width: usize, height: usize) -> (r: Result<
    Vec<u8>,
    DecodeError,
>)
    requires
        old(cursor).wf(),
        width * height <= usize::MAX,
    ensures
        final(cursor).wf(),
        final(cursor).data() == old(cursor).data(),
        cursor::reads_view(
            r,
            final(cursor).offset(),
            parse_plane(old(cursor).data(), old(cursor).offset(), width as int, height as int),
        ),
        r is Ok ==> r->Ok_0@.len() == width * height,
{
    if width == 0 {
        let none: Vec<u8> = Vec::new();
        assert(none@ =~= seq![]);
        return Ok(none);
    }
    let ghost b = cursor.data();
    let ghost p = cursor.offset();
    let mut delta: Vec<u8> = Vec::new();
    let mut row: usize = 0;
    assert(delta@ =~= seq![]);
    while row < height
        invariant
            row <= height,
            cursor.wf(),
            cursor.data() == b,
            b == old(cursor).data(),
            p == old(cursor).offset(),
            width > 0,
            parse_rows(b, p, width as int, row as int) == Ok::<(Seq<u8>, int), DecodeError>(
                (delta@, cursor.offset()),
            ),
            delta@.len() == row * width,
        decreases height - row,
    {
        proof {
            lemma_row(row as int, width as int, height as int);
        }
        match decode_scanline_rle(cursor, width) {
            Ok(line) => {
                let ghost had = delta@;
                delta.extend_from_slice(line.as_slice());
                assert(delta@ =~= had + line@);
                row = row + 1;
            },
            Err(e) => {
                proof {
                    lemma_rows_error_stays(b, p, width as int, row + 1, height as int);
                }
                return Err(e);
            },
        }
    }
    proof {
        assert(height * width == width * height) by (nonlinear_arith);
    }
    let n: usize = delta.len();
    let mut plane: Vec<u8> = Vec::new();
    let mut i: usize = 0;
    while i < n
        invariant
            i <= n,
            n == delta@.len(),
            width > 0,
            plane@.len() == i,
            forall|j: int|
                0 <= j < i ==> #[trigger] plane@[j] == restored_at(delta@, width as int, j),
        decreases n - i,
    {
        let value: u8 = if i < width {
            delta[i]
        } else {
            ((plane[i - width] as u16 + zigzag_decode(delta[i]) as u16) % 256) as u8
        };
        plane.push(value);
        i = i + 1;
    }
    assert(plane@ =~= restored(delta@, width as int));
    Ok(plane)
}

/// The differences of a plane.
fn delta_plane(plane: &Vec<u8>, width: usize) -> (delta: Vec<u8>)
    ensures
        delta@ == deltas(plane@, width as int),
{
    let n: usize = plane.len();
    let mut delta: Vec<u8> = Vec::new();
    let mut i: usize = 0;
    while i < n
        invariant
            i <= n,
            n == plane@.len(),
            delta@.len() == i,
            forall|j: int| 0 <= j < i ==> delta@[j] == delta_at(plane@, width as int, j),
        decreases n - i,
    {
        let value: u8 = if i < width {
            plane[i]
        } else {
            zigzag_encode(((plane[i] as u16 + 256 - plane[i - width] as u16) % 256) as u8)
        };
        delta.push(value);
        i = i + 1;
    }
    assert(delta@ =~= deltas(plane@, width as int));
    delta
}

fn encode_plane(plane: &Vec<u8>, width: usize, height: usize, out: &mut Vec<u8>)
    requires
        plane@.len() == width * height,
    ensures
        final(out)@ == old(out)@ + plane_wire(plane@, width as int, height as int),
{
    let delta: Vec<u8> = delta_plane(plane, width);
    let n: usize = delta.len();
    let ghost before = out@;
    let ghost w = width as int;
    let mut row: usize = 0;
    let mut start: usize = 0;
    assert(out@ =~= before + rows_rle(delta@, w, 0));
    assert(0 * w == 0) by (nonlinear_arith);
    while row < height
        invariant
            row <= height,
            w == width,
            start == row * w,
            n == delta@.len(),
            n == width * height,
            out@ == before + rows_rle(delta@, w, row as int),
        decreases height - row,
    {
        proof {
            lemma_row(row as int, w, height as int);
        }
        let ghost had = rows_rle(delta@, w, row as int);
        let line: &[u8] = vstd::slice::slice_subrange(delta.as_slice(), start, start + width);
        encode_scanline_rle(line, out);
        assert(out@ =~= before + (had + line_rle(line@)));
        start = start + width;
        row = row + 1;
    }
}

/// One byte of each pixel.
fn plane_of(bgrx: &[u8], n: usize, c: usize) -> (plane: Vec<u8>)
    requires
        c < 4,
        n * 3 <= usize::MAX,
    ensures
        plane@ == channel(bgrx@, n as int, c as int),
{
    assert(bgrx.len() == bgrx@.len());
    let whole: usize = bgrx.len() / 4;
    let mut plane: Vec<u8> = Vec::new();
    let mut i: usize = 0;
    while i < n
        invariant
            i <= n,
            c < 4,
            whole == bgrx@.len() / 4,
            bgrx@.len() <= usize::MAX,
            plane@.len() == i,
            forall|j: int|
                0 <= j < i ==> #[trigger] plane@[j] == channel(bgrx@, n as int, c as int)[j],
        decreases n - i,
    {
        let value: u8 = if i < whole {
            bgrx[4 * i + c]
        } else {
            0
        };
        plane.push(value);
        i = i + 1;
    }
    assert(plane@ =~= channel(bgrx@, n as int, c as int));
    plane
}

/// Encodes a picture of four bytes per pixel (blue, green, red, and one that is
/// not used) in place of what `out` held. The rows are taken in the order in
/// which they come.
pub fn encode_to(bgrx: &[u8], width: usize, height: usize, out: &mut Vec<u8>)
    requires
        width * height * 3 <= usize::MAX,
    ensures
        final(out)@ == wire(bgrx@, width as int, height as int),
{
    proof {
        assert(0 <= width * height) by (nonlinear_arith)
            requires
                0 <= width,
                0 <= height,
        ;
    }
    out.clear();
    let pixel_count: usize = width * height;
    out.push(FORMAT_HEADER_RLE_NO_ALPHA_ARGB);
    let r: Vec<u8> = plane_of(bgrx, pixel_count, 2);
    let g: Vec<u8> = plane_of(bgrx, pixel_count, 1);
    let b: Vec<u8> = plane_of(bgrx, pixel_count, 0);
    encode_plane(&r, width, height, out);
    encode_plane(&g, width, height, out);
    encode_plane(&b, width, height, out);
    assert(out@ =~= wire(bgrx@, width as int, height as int));
}

/// [`encode_to`] into a buffer of its own.
pub fn encode(bgrx: &[u8], width: usize, height: usize) -> (out: Vec<u8>)
    requires
        width * height * 3 <= usize::MAX,
    ensures
        out@ == wire(bgrx@, width as int, height as int),
{
    let mut out: Vec<u8> = Vec::new();
    encode_to(bgrx, width, height, &mut out);
    out
}

/// The picture of an encoding; the fourth byte of every pixel is 0.
pub fn decode(data: &[u8], width: usize, height: usize) -> (r: Result<Vec<u8>, DecodeError>)
    requires
        data@.len() > 0 && data@[0] == FORMAT_HEADER_RLE_NO_ALPHA_ARGB ==> width * height * 4
            <= usize::MAX,
    ensures
        cursor::decodes_view(r, parse(data@, width as int, height as int)),
{
    let mut cursor = ReadCursor::new(data);
    let header: u8 = cursor.take_u8()?;
    if header != FORMAT_HEADER_RLE_NO_ALPHA_ARGB {
        return Err(
            DecodeError::InvalidValue {
                field: "rdp6.format_header",
                reason: "only RLE + no-alpha + ARGB (0x30) is supported",
            },
        );
    }
    proof {
        assert(0 <= width * height) by (nonlinear_arith)
            requires
                0 <= width,
                0 <= height,
        ;
    }
    let r: Vec<u8> = decode_plane(&mut cursor, width, height)?;
    let g: Vec<u8> = decode_plane(&mut cursor, width, height)?;
    let b: Vec<u8> = decode_plane(&mut cursor, width, height)?;
    let n: usize = r.len();
    let mut bgrx: Vec<u8> = Vec::new();
    let mut i: usize = 0;
    while i < n
        invariant
            i <= n,
            n == r@.len(),
            n == g@.len(),
            n == b@.len(),
            bgrx@.len() == 4 * i,
            forall|j: int| 0 <= j < bgrx@.len() ==> #[trigger] bgrx@[j] == woven(r@, g@, b@)[j],
        decreases n - i,
    {
        bgrx.push(b[i]);
        bgrx.push(g[i]);
        bgrx.push(r[i]);
        bgrx.push(0);
        i = i + 1;
    }
    assert(bgrx@ =~= woven(r@, g@, b@));
    Ok(bgrx)
}

/// Reading literals: they are appended, and the last of them is the byte to be
/// repeated.
proof fn lemma_literals(b: Seq<u8>, p: int, line: Seq<u8>, last: u8, width: int, s: Seq<u8>)
    requires
        bytes::holds_at(b, p, literals(s)),
        line.len() + s.len() <= width,
    ensures
        parse_line(b, p, line, last, width) == parse_line(
            b,
            p + literals(s).len(),
            line + s,
            if s.len() == 0 {
                last
            } else {
                s.last()
            },
            width,
        ),
    decreases s.len(),
{
    if s.len() == 0 {
        assert(line + s =~= line);
    } else if s.len() <= 15 {
        let c = (16 * s.len()) as u8;
        bytes::lemma_holds_bounds(b, p, literals(s));
        bytes::lemma_holds_add(b, p, seq![c], s);
        bytes::lemma_holds_u8(b, p, c);
        bytes::lemma_holds_bounds(b, p + 1, s);
        assert(b[p + s.len()] == s[s.len() - 1]) by {
            assert(b.subrange(p + 1, p + 1 + s.len())[s.len() - 1] == s[s.len() - 1]);
        }
        assert(segment(c) == (s.len() as int, 0int));
        assert(line + b.subrange(p + 1, p + 1 + s.len()) + repeated(s.last(), 0) =~= line + s);
    } else {
        let head = s.take(15);
        let tail = s.skip(15);
        bytes::lemma_holds_bounds(b, p, literals(s));
        bytes::lemma_holds_add(b, p, seq![240u8] + head, literals(tail));
        bytes::lemma_holds_add(b, p, seq![240u8], head);
        bytes::lemma_holds_u8(b, p, 240);
        bytes::lemma_holds_bounds(b, p + 1, head);
        assert(b[p + 15] == head[14]) by {
            assert(b.subrange(p + 1, p + 1 + 15)[14] == head[14]);
        }
        assert(segment(240) == (15int, 0int));
        assert(line + b.subrange(p + 1, p + 1 + 15) + repeated(head[14], 0) =~= line + head);
        lemma_literals(b, p + 16, line + head, head[14], width, tail);
        assert(line + head + tail =~= line + s);
        assert(tail.last() == s.last());
    }
}

/// Reading on after the byte of a run.
proof fn lemma_run_tail(b: Seq<u8>, p: int, line: Seq<u8>, byte: u8, width: int, n: int)
    requires
        0 <= n,
        bytes::holds_at(b, p, run_tail(byte, n)),
        line.len() + n <= width,
    ensures
        parse_line(b, p, line, byte, width) == parse_line(
            b,
            p + run_tail(byte, n).len(),
            line + repeated(byte, n),
            byte,
            width,
        ),
    decreases n,
{
    if n == 0 {
        assert(line + repeated(byte, 0) =~= line);
    } else if n < 3 {
        let s = repeated(byte, n);
        assert(literals(s) =~= run_tail(byte, n));
        lemma_literals(b, p, line, byte, width, s);
    } else {
        let k = if n <= 15 {
            n
        } else {
            15
        };
        let rest = if n <= 15 {
            Seq::<u8>::empty()
        } else {
            run_tail(byte, n - 15)
        };
        assert(run_tail(byte, n) =~= seq![k as u8] + rest);
        bytes::lemma_holds_add(b, p, seq![k as u8], rest);
        bytes::lemma_holds_bounds(b, p, seq![k as u8]);
        bytes::lemma_holds_u8(b, p, k as u8);
        assert(segment(k as u8) == (0int, k));
        assert(line + b.subrange(p + 1, p + 1) + repeated(byte, k) =~= line + repeated(byte, k));
        if n > 15 {
            lemma_run_tail(b, p + 1, line + repeated(byte, 15), byte, width, n - 15);
            assert(line + repeated(byte, 15) + repeated(byte, n - 15) =~= line + repeated(
                byte,
                n,
            ));
        }
    }
}

proof fn lemma_run(b: Seq<u8>, p: int, line: Seq<u8>, last: u8, width: int, byte: u8, n: int)
    requires
        4 <= n,
        bytes::holds_at(b, p, run_segments(byte, n)),
        line.len() + n <= width,
    ensures
        parse_line(b, p, line, last, width) == parse_line(
            b,
            p + run_segments(byte, n).len(),
            line + repeated(byte, n),
            byte,
            width,
        ),
{
    let k = if n <= 16 {
        n - 1
    } else {
        15
    };
    let c = (16 + k) as u8;
    let rest = if n <= 16 {
        Seq::<u8>::empty()
    } else {
        run_tail(byte, n - 16)
    };
    assert(run_segments(byte, n) =~= seq![c] + seq![byte] + rest);
    bytes::lemma_holds_add(b, p, seq![c] + seq![byte], rest);
    bytes::lemma_holds_add(b, p, seq![c], seq![byte]);
    bytes::lemma_holds_u8(b, p, c);
    bytes::lemma_holds_u8(b, p + 1, byte);
    bytes::lemma_holds_bounds(b, p + 1, seq![byte]);
    assert(segment(c) == (1int, k));
    assert(line + b.subrange(p + 1, p + 2) + repeated(byte, k) =~= line + repeated(byte, k + 1));
    if n > 16 {
        lemma_run_tail(b, p + 2, line + repeated(byte, 16), byte, width, n - 16);
        assert(line + repeated(byte, 16) + repeated(byte, n - 16) =~= line + repeated(byte, n));
    }
}

proof fn lemma_rle_from(b: Seq<u8>, p: int, line: Seq<u8>, i: int, pending: Seq<u8>, last: u8)
    requires
        0 <= i <= line.len(),
        pending.len() <= i,
        pending == line.subrange(i - pending.len(), i),
        bytes::holds_at(b, p, rle_from(line, i, pending)),
    ensures
        parse_line(b, p, line.take(i - pending.len()), last, line.len() as int) == Ok::<
            (Seq<u8>, int),
            DecodeError,
        >((line, p + rle_from(line, i, pending).len())),
    decreases line.len() - i,
{
    let done = line.take(i - pending.len());
    let width = line.len() as int;
    assert(done + pending =~= line.take(i));
    if i == line.len() {
        lemma_literals(b, p, done, last, width, pending);
        assert(line.take(i) =~= line);
    } else {
        let n = run_from(line, i);
        lemma_run_from(line, i);
        if n < 4 {
            let more = pending + line.subrange(i, i + n);
            assert(more =~= line.subrange(i + n - more.len(), i + n));
            lemma_rle_from(b, p, line, i + n, more, last);
        } else {
            let lits = literals(pending);
            let run = run_segments(line[i], n);
            let rest = rle_from(line, i + n, seq![]);
            bytes::lemma_holds_add(b, p, lits + run, rest);
            bytes::lemma_holds_add(b, p, lits, run);
            lemma_literals(b, p, done, last, width, pending);
            lemma_run(
                b,
                p + lits.len(),
                line.take(i),
                if pending.len() == 0 {
                    last
                } else {
                    pending.last()
                },
                width,
                line[i],
                n,
            );
            assert(line.take(i) + repeated(line[i], n) =~= line.take(i + n)) by {
                assert(line.take(i + n) =~= line.take(i) + line.subrange(i, i + n));
            }
            assert(line.take(i + n - Seq::<u8>::empty().len()) =~= line.take(i + n));
            assert(line.subrange(i + n, i + n) =~= seq![]);
            lemma_rle_from(b, p + (lits + run).len(), line, i + n, seq![], line[i]);
        }
    }
}

/// Every row is read back as it was encoded, whatever comes after it.
pub proof fn law_line_round_trip(b: Seq<u8>, p: int, line: Seq<u8>)
    requires
        bytes::holds_at(b, p, line_rle(line)),
    ensures
        parse_line(b, p, seq![], 0, line.len() as int) == Ok::<(Seq<u8>, int), DecodeError>(
            (line, p + line_rle(line).len()),
        ),
{
    assert(line.subrange(0, 0) =~= seq![]);
    assert(line.take(0) =~= seq![]);
    lemma_rle_from(b, p, line, 0, seq![], 0);
}

proof fn lemma_rows(b: Seq<u8>, p: int, delta: Seq<u8>, width: int, height: int, n: int)
    requires
        0 <= n <= height,
        0 < width,
        delta.len() == width * height,
        bytes::holds_at(b, p, rows_rle(delta, width, n)),
    ensures
        0 <= n * width <= delta.len(),
        parse_rows(b, p, width, n) == Ok::<(Seq<u8>, int), DecodeError>(
            (delta.take(n * width), p + rows_rle(delta, width, n).len()),
        ),
    decreases n,
{
    if n == 0 {
        assert(0 * width == 0) by (nonlinear_arith);
        assert(0 <= width * height) by (nonlinear_arith)
            requires
                0 < width,
                0 <= height,
        ;
        assert(delta.take(0) =~= seq![]);
    } else {
        lemma_row(n - 1, width, height);
        let rows = rows_rle(delta, width, n - 1);
        let line = delta.subrange((n - 1) * width, n * width);
        bytes::lemma_holds_add(b, p, rows, line_rle(line));
        lemma_rows(b, p, delta, width, height, n - 1);
        law_line_round_trip(b, p + rows.len(), line);
        assert(delta.take((n - 1) * width) + line =~= delta.take(n * width));
    }
}

/// Every plane is read back as it was encoded, whatever comes after it.
pub proof fn law_plane_round_trip(b: Seq<u8>, p: int, plane: Seq<u8>, width: int, height: int)
    requires
        0 <= width,
        0 <= height,
        plane.len() == width * height,
        bytes::holds_at(b, p, plane_wire(plane, width, height)),
    ensures
        parse_plane(b, p, width, height) == Ok::<(Seq<u8>, int), DecodeError>(
            (plane, p + plane_wire(plane, width, height).len()),
        ),
{
    if width == 0 {
        assert(0 * height == 0) by (nonlinear_arith);
        assert(plane =~= seq![]);
        lemma_no_columns(deltas(plane, width), height);
    } else {
        let delta = deltas(plane, width);
        lemma_rows(b, p, delta, width, height, height);
        assert(height * width == width * height) by (nonlinear_arith);
        assert(delta.take(height * width) =~= delta);
        law_deltas(plane, width);
    }
}

/// Rows without columns take no bytes.
proof fn lemma_no_columns(delta: Seq<u8>, n: int)
    ensures
        rows_rle(delta, 0, n) == Seq::<u8>::empty(),
    decreases n,
{
    if n > 0 {
        lemma_no_columns(delta, n - 1);
        assert((n - 1) * 0 == 0 && n * 0 == 0) by (nonlinear_arith);
        assert(delta.subrange(0, 0) =~= seq![]);
        assert(rows_rle(delta, 0, n) =~= seq![]);
    }
}

/// A picture with the byte that is not used cleared.
pub open spec fn opaque(bgrx: Seq<u8>) -> Seq<u8> {
    Seq::new(
        bgrx.len(),
        |i: int|
            if i % 4 == 3 {
                0
            } else {
                bgrx[i]
            },
    )
}

/// Decoding gives back every picture that was encoded, with the fourth byte of
/// each pixel cleared, whatever comes after it.
pub proof fn law_round_trip(bgrx: Seq<u8>, width: int, height: int, after: Seq<u8>)
    requires
        0 <= width,
        0 <= height,
        bgrx.len() == 4 * (width * height),
    ensures
        parse(wire(bgrx, width, height) + after, width, height) == Ok::<Seq<u8>, DecodeError>(
            opaque(bgrx),
        ),
{
    let n = width * height;
    let b = wire(bgrx, width, height) + after;
    let red = channel(bgrx, n, 2);
    let green = channel(bgrx, n, 1);
    let blue = channel(bgrx, n, 0);
    let h = seq![FORMAT_HEADER_RLE_NO_ALPHA_ARGB];
    let r = plane_wire(red, width, height);
    let g = plane_wire(green, width, height);
    let l = plane_wire(blue, width, height);
    assert(0 <= n) by (nonlinear_arith)
        requires
            n == width * height,
            0 <= width,
            0 <= height,
    ;
    bytes::lemma_holds_self(b);
    bytes::lemma_holds_add(b, 0, wire(bgrx, width, height), after);
    bytes::lemma_holds_add(b, 0, h + r + g, l);
    bytes::lemma_holds_add(b, 0, h + r, g);
    bytes::lemma_holds_add(b, 0, h, r);
    bytes::lemma_holds_u8(b, 0, FORMAT_HEADER_RLE_NO_ALPHA_ARGB);
    bytes::lemma_holds_bounds(b, 0, h);
    law_plane_round_trip(b, 1, red, width, height);
    law_plane_round_trip(b, (h + r).len() as int, green, width, height);
    law_plane_round_trip(b, (h + r + g).len() as int, blue, width, height);
    assert(woven(red, green, blue) =~= opaque(bgrx));
}

/// A control byte counts, in its high half, bytes that follow as they are and, in its
/// low half, how often the last byte comes again; a low half of 1 or 2 stands for 16 or
/// 32 more of these.
pub proof fn law_control_byte(b: Seq<u8>, p: int, line: Seq<u8>, last: u8, width: int)
    requires
        0 <= p < b.len(),
        line.len() < width,
        b[p] != 0,
    ensures
        ({
            let low = b[p] % 16;
            let high = b[p] / 16;
            let as_is: int = if low == 1 || low == 2 {
                0
            } else {
                high as int
            };
            let again: int = if low == 1 {
                16 + high
            } else if low == 2 {
                32 + high
            } else {
                low as int
            };
            let byte = if as_is > 0 {
                b[p + as_is]
            } else {
                last
            };
            p + as_is < b.len() && line.len() + as_is + again <= width ==> parse_line(
                b,
                p,
                line,
                last,
                width,
            ) == parse_line(
                b,
                p + 1 + as_is,
                line + b.subrange(p + 1, p + 1 + as_is) + Seq::new(again as nat, |i: int| byte),
                byte,
                width,
            )
        }),
{
    let (lits, run) = segment(b[p]);
    let byte = if lits > 0 {
        b[p + lits]
    } else {
        last
    };
    assert(repeated(byte, run) =~= Seq::new(run as nat, |i: int| byte));
}

/// The first row of a plane is as it is sent; every byte of another is the one above it
/// and a difference, modulo 256. Differences are sent twice as large where they are not
/// negative, and else as one less than twice their size.
pub proof fn law_restored(delta: Seq<u8>, width: int, i: int, e: u8, encoded: u8, decoded: u8)
    requires
        0 < width,
        0 <= i < delta.len(),
        call_ensures(zigzag_encode, (e,), encoded),
        call_ensures(zigzag_decode, (e,), decoded),
    ensures
        restored(delta, width).len() == delta.len(),
        i < width ==> restored(delta, width)[i] == delta[i],
        i >= width ==> restored(delta, width)[i] == (restored(delta, width)[i - width] + unfolded(
            delta[i],
        )) % 256,
        decoded == unfolded(e),
        e % 2 == 0 ==> decoded == e / 2,
        e % 2 == 1 ==> decoded == 256 - (e / 2 + 1),
        e < 128 ==> encoded == 2 * e,
        e >= 128 ==> encoded == 2 * (256 - e) - 1,
{
}

/// A picture is the byte 0x30 and the planes of red, green and blue, in that order, of
/// pixels that come as blue, green, red, and a byte that is not used.
pub proof fn law_picture_planes(
    bgrx: &[u8],
    width: usize,
    height: usize,
    out: Vec<u8>,
    i: int,
)
    requires
        call_ensures(encode, (bgrx, width, height), out),
        bgrx@.len() == 4 * (width * height),
        0 <= i < width * height,
    ensures
        out@[0] == 0x30,
        ({
            let w = width as int;
            let h = height as int;
            let red = parse_plane(out@, 1, w, h);
            let green = parse_plane(out@, red->Ok_0.1, w, h);
            let blue = parse_plane(out@, green->Ok_0.1, w, h);
            &&& red is Ok
            &&& green is Ok
            &&& blue is Ok
            &&& blue->Ok_0.1 == out@.len()
            &&& red->Ok_0.0[i] == bgrx@[4 * i + 2]
            &&& green->Ok_0.0[i] == bgrx@[4 * i + 1]
            &&& blue->Ok_0.0[i] == bgrx@[4 * i]
        }),
{
    let w = width as int;
    let h = height as int;
    let n = w * h;
    let b = out@;
    let rp = channel(bgrx@, n, 2);
    let gp = channel(bgrx@, n, 1);
    let bp = channel(bgrx@, n, 0);
    let head = seq![FORMAT_HEADER_RLE_NO_ALPHA_ARGB];
    let r = plane_wire(rp, w, h);
    let g = plane_wire(gp, w, h);
    let bl = plane_wire(bp, w, h);
    bytes::lemma_holds_self(b);
    bytes::lemma_holds_add(b, 0, head + r + g, bl);
    bytes::lemma_holds_add(b, 0, head + r, g);
    bytes::lemma_holds_add(b, 0, head, r);
    assert(n >= 0);
    law_plane_round_trip(b, 1, rp, w, h);
    law_plane_round_trip(b, 1 + r.len() as int, gp, w, h);
    law_plane_round_trip(b, 1 + r.len() as int + g.len() as int, bp, w, h);
}

/// A picture that is read has its planes in the same order, and gives pixels as blue,
/// green, red, and zero.
pub proof fn law_picture_decoded(
    data: &[u8],
    width: usize,
    height: usize,
    r: Result<Vec<u8>, DecodeError>,
    i: int,
)
    requires
        call_ensures(decode, (data, width, height), r),
        r is Ok,
        0 <= 4 * i,
        4 * i + 3 < r->Ok_0@.len(),
    ensures
        data@[0] == 0x30,
        ({
            let w = width as int;
            let h = height as int;
            let red = parse_plane(data@, 1, w, h);
            let green = parse_plane(data@, red->Ok_0.1, w, h);
            let blue = parse_plane(data@, green->Ok_0.1, w, h);
            &&& red is Ok
            &&& green is Ok
            &&& blue is Ok
            &&& r->Ok_0@[4 * i] == blue->Ok_0.0[i]
            &&& r->Ok_0@[4 * i + 1] == green->Ok_0.0[i]
            &&& r->Ok_0@[4 * i + 2] == red->Ok_0.0[i]
            &&& r->Ok_0@[4 * i + 3] == 0
        }),
{
    assert((4 * i) / 4 == i && (4 * i + 1) / 4 == i && (4 * i + 2) / 4 == i);
    assert((4 * i) % 4 == 0 && (4 * i + 1) % 4 == 1 && (4 * i + 2) % 4 == 2 && (4 * i + 3) % 4
        == 3);
}

/// A plane is its rows, one after the other.
pub proof fn law_rows(b: Seq<u8>, p: int, width: int, n: int)
    requires
        0 < n,
        parse_rows(b, p, width, n) is Ok,
    ensures
        parse_rows(b, p, width, n - 1) is Ok,
        ({
            let (before, q) = parse_rows(b, p, width, n - 1)->Ok_0;
            &&& parse_line(b, q, seq![], 0, width) is Ok
            &&& parse_rows(b, p, width, n)->Ok_0.0 == before + parse_line(
                b,
                q,
                seq![],
                0,
                width,
            )->Ok_0.0
            &&& parse_rows(b, p, width, n)->Ok_0.1 == parse_line(b, q, seq![], 0, width)->Ok_0.1
        }),
{
}

} // verus!
