//! What encoders in a graphics card are given and what they give back, as far as
//! it is bytes and numbers: where a picture goes in a buffer whose rows lie
//! further apart than they are long, what an encoder is asked for, and how the
//! pieces it returns make one stream.

use vstd::prelude::*;
use vstd::slice::slice_subrange;
use vstd::string::*;

use crate::bytes;
use crate::cursor::WriteBuf;
use crate::rdpegfx;
use crate::rdpegfx::encoder::{EncodedAu, Picture};
use crate::rdpegfx::error::EncoderError;
use crate::rdpegfx::h264_headers;

verus! {

broadcast use bytes::group_bytes;

/// A buffer with some bytes written over what was there.
pub open spec fn put(d: Seq<u8>, at: int, row: Seq<u8>) -> Seq<u8> {
    d.subrange(0, at) + row + d.subrange(at + row.len(), d.len() as int)
}

/// A buffer with rows written over it, each `pitch` after the one before.
pub open spec fn placed(
    d: Seq<u8>,
    offset: int,
    pitch: int,
    n: nat,
    row_of: spec_fn(int) -> Seq<u8>,
) -> Seq<u8>
    decreases n,
{
    if n == 0 {
        d
    } else {
        put(
            placed(d, offset, pitch, (n - 1) as nat, row_of),
            offset + (n - 1) * pitch,
            row_of(n - 1),
        )
    }
}

/// Writes bytes over what is there.
pub fn put_row(dest: &mut [u8], at: usize, row: &[u8])
    requires
        at + row@.len() <= old(dest)@.len(),
    ensures
        final(dest)@ == put(old(dest)@, at as int, row@),
{
    let ghost before = dest@;
    let room: usize = dest.len();
    let mut i: usize = 0;
    while i < row.len()
        invariant
            i <= row@.len(),
            at + row@.len() <= before.len(),
            room == before.len(),
            dest@ == put(before, at as int, row@.subrange(0, i as int)),
            dest@.len() == before.len(),
        decreases row@.len() - i,
    {
        dest[at + i] = row[i];
        i += 1;
        assert(dest@ =~= put(before, at as int, row@.subrange(0, i as int)));
    }
    assert(row@.subrange(0, i as int) =~= row@);
}

/// Rows that lie at least as far apart as they are long keep out of each other's
/// way, and of everything between them.
pub proof fn law_placed(
    d: Seq<u8>,
    offset: int,
    pitch: int,
    n: nat,
    row_of: spec_fn(int) -> Seq<u8>,
    i: int,
)
    requires
        0 <= offset,
        0 <= pitch,
        offset + n * pitch <= d.len(),
        forall|row: int| 0 <= row < n ==> #[trigger] row_of(row).len() <= pitch,
        0 <= i < d.len(),
    ensures
        placed(d, offset, pitch, n, row_of).len() == d.len(),
        forall|row: int, k: int|
            0 <= row < n && 0 <= k < row_of(row).len() && i == offset + row * pitch + k
                ==> placed(d, offset, pitch, n, row_of)[i] == #[trigger] row_of(row)[k],
        (forall|row: int, k: int|
            0 <= row < n && 0 <= k < row_of(row).len() ==> #[trigger] place(offset, pitch, row, k)
                != i) ==> placed(d, offset, pitch, n, row_of)[i] == d[i],
    decreases n,
{
    if n > 0 {
        let m = (n - 1) as nat;
        let at = offset + m * pitch;
        let row = row_of(m as int);
        assert(n * pitch == m * pitch + pitch && 0 <= m * pitch) by (nonlinear_arith)
            requires
                n == m + 1,
                0 <= pitch,
        ;
        law_placed(d, offset, pitch, m, row_of, i);
        let before = placed(d, offset, pitch, m, row_of);
        let after = placed(d, offset, pitch, n, row_of);
        assert(after == put(before, at, row));
        assert(after.len() == d.len());
        assert forall|r: int, k: int|
            0 <= r < n && 0 <= k < row_of(r).len() && i == offset + r * pitch + k implies after[i]
            == #[trigger] row_of(r)[k] by {
            if r < m {
                assert(row_of(r).len() <= pitch);
                assert(r * pitch + pitch <= m * pitch) by (nonlinear_arith)
                    requires
                        r + 1 <= m,
                        0 <= pitch,
                ;
                assert(i < at);
                assert(before[i] == row_of(r)[k]);
            } else {
                assert(after[i] == row[i - at]);
            }
        }
        if forall|r: int, k: int|
            0 <= r < n && 0 <= k < row_of(r).len() ==> #[trigger] place(offset, pitch, r, k) != i {
            if at <= i < at + row.len() {
                assert(place(offset, pitch, m as int, i - at) == i);
            } else {
                assert(after[i] == before[i]);
            }
        }
    }
}

/// Where a byte of a row goes.
pub open spec fn place(offset: int, pitch: int, row: int, k: int) -> int {
    offset + row * pitch + k
}

/// Where the rows of a plane lie in a buffer.
#[derive(Debug, Clone, Copy, PartialEq, Eq)]
pub struct Plane {
    pub offset: usize,
    pub pitch: usize,
}

impl Plane {
    /// Whether a buffer has room for rows, and for the way to the row after each.
    pub open spec fn fits(self, len: nat, w: int, n: int) -> bool {
        &&& self.offset + n * self.pitch <= len
        &&& n > 0 ==> self.offset + (n - 1) * self.pitch + w <= len
    }
}

/// The rows of a plane that lie one right after the other.
pub open spec fn rows_of(src: Seq<u8>, start: int, w: int) -> spec_fn(int) -> Seq<u8> {
    |row: int| src.subrange(start + row * w, start + row * w + w)
}

proof fn lemma_placed_len(
    d: Seq<u8>,
    offset: int,
    pitch: int,
    n: nat,
    row_of: spec_fn(int) -> Seq<u8>,
)
    requires
        0 <= offset,
        0 <= pitch,
        forall|row: int|
            0 <= row < n ==> offset + row * pitch + (#[trigger] row_of(row)).len() <= d.len(),
    ensures
        placed(d, offset, pitch, n, row_of).len() == d.len(),
    decreases n,
{
    if n > 0 {
        let m = (n - 1) as nat;
        lemma_placed_len(d, offset, pitch, m, row_of);
        assert(0 <= m * pitch) by (nonlinear_arith)
            requires
                0 <= m,
                0 <= pitch,
        ;
        assert(row_of(m as int).len() >= 0);
    }
}

/// Writes `n` rows of `w` bytes, which lie one right after the other from `start`
/// on, where a plane has them.
fn put_plane(dest: &mut [u8], plane: Plane, w: usize, n: usize, src: &[u8], start: usize)
    requires
        plane.fits(old(dest)@.len(), w as int, n as int),
        start + n * w <= src@.len(),
    ensures
        final(dest)@ == placed(
            old(dest)@,
            plane.offset as int,
            plane.pitch as int,
            n as nat,
            rows_of(src@, start as int, w as int),
        ),
        final(dest)@.len() == old(dest)@.len(),
{
    let ghost before = dest@;
    let ghost row_of = rows_of(src@, start as int, w as int);
    let ghost o = plane.offset as int;
    let ghost p = plane.pitch as int;
    let room: usize = dest.len();
    let there: usize = src.len();
    let mut row: usize = 0;
    let mut at: usize = plane.offset;
    let mut from: usize = start;
    while row < n
        invariant
            row <= n,
            o == plane.offset,
            p == plane.pitch,
            room == before.len(),
            there == src@.len(),
            row_of == rows_of(src@, start as int, w as int),
            plane.fits(before.len(), w as int, n as int),
            start + n * w <= src@.len(),
            at == o + row * p,
            from == start + row * w,
            dest@ == placed(before, o, p, row as nat, row_of),
            dest@.len() == before.len(),
        decreases n - row,
    {
        proof {
            lemma_step(row as int, n as int, p);
            lemma_step(row as int, n as int, w as int);
            assert(at + w <= before.len());
        }
        put_row(dest, at, slice_subrange(src, from, from + w));
        assert(src@.subrange(from as int, from + w) == row_of(row as int));
        at += plane.pitch;
        from += w;
        row += 1;
        assert(dest@ == placed(before, o, p, row as nat, row_of));
    }
}

/// Steps of equal length.
proof fn lemma_step(i: int, n: int, step: int)
    by (nonlinear_arith)
    requires
        0 <= i < n,
        0 <= step,
    ensures
        0 <= i * step,
        (i + 1) * step == i * step + step,
        i * step <= (n - 1) * step,
        i * step + step <= n * step,
{
}

/// A picture with its colours in one plane, written into a buffer: the rows of
/// brightness, and the rows of colour, half as many.
pub fn place_nv12(
    dest: &mut [u8],
    luma: Plane,
    colour: Plane,
    w: usize,
    h: usize,
    nv12: &[u8],
)
    requires
        luma.fits(old(dest)@.len(), w as int, h as int),
        colour.fits(old(dest)@.len(), w as int, h as int / 2),
        h * w + (h / 2) * w <= nv12@.len(),
    ensures
        final(dest)@ == placed(
            placed(
                old(dest)@,
                luma.offset as int,
                luma.pitch as int,
                h as nat,
                rows_of(nv12@, 0, w as int),
            ),
            colour.offset as int,
            colour.pitch as int,
            h as nat / 2,
            rows_of(nv12@, h * w, w as int),
        ),
        final(dest)@.len() == old(dest)@.len(),
{
    let there: usize = nv12.len();
    assert(0 <= h * w && 0 <= (h / 2) * w) by (nonlinear_arith)
        requires
            0 <= h,
            0 <= w,
    ;
    put_plane(dest, luma, w, h, nv12, 0);
    put_plane(dest, colour, w, h / 2, nv12, h * w);
}

/// One row of a picture with its colours the other way round, red first, and
/// nothing to be seen through.
pub open spec fn abgr_row(f: Picture, row: int) -> Seq<u8> {
    Seq::new(
        (4 * f.width) as nat,
        |k: int|
            {
                let o = row * f.stride + k / 4 * 4;
                if k % 4 == 3 {
                    0xFFu8
                } else {
                    f.pixels[o + 2 - k % 4]
                }
            },
    )
}

/// The rows of a picture, and rows of zeros below it.
pub open spec fn abgr_rows(f: Picture, coded_w: nat) -> spec_fn(int) -> Seq<u8> {
    |row: int|
        if row < f.height {
            abgr_row(f, row)
        } else {
            Seq::new(4 * coded_w, |k: int| 0u8)
        }
}

proof fn lemma_pixel(f: Picture, row: int, col: int)
    requires
        0 <= row < f.height,
        0 <= col < f.width,
        0 <= f.stride,
    ensures
        0 <= row * f.stride,
        row * f.stride + 4 * col + 4 <= f.needed(),
{
    lemma_step(row, f.height, f.stride);
}

fn write_abgr_row(
    width: u16,
    height: u16,
    stride: usize,
    pixels: &[u8],
    row: u16,
) -> (out: Vec<u8>)
    requires
        row < height,
        rdpegfx::encoder::picture(width, height, stride, pixels@).needed() <= pixels@.len(),
    ensures
        out@ == abgr_row(rdpegfx::encoder::picture(width, height, stride, pixels@), row as int),
{
    let ghost f = rdpegfx::encoder::picture(width, height, stride, pixels@);
    let there: usize = pixels.len();
    let mut out: Vec<u8> = Vec::new();
    let mut col: u16 = 0;
    while col < width
        invariant
            col <= width,
            row < height,
            there == pixels@.len(),
            f == rdpegfx::encoder::picture(width, height, stride, pixels@),
            f.needed() <= pixels@.len(),
            out@ == abgr_row(f, row as int).subrange(0, 4 * col),
        decreases width - col,
    {
        proof {
            lemma_pixel(f, row as int, col as int);
        }
        let o: usize = row as usize * stride + col as usize * 4;
        out.push(pixels[o + 2]);
        out.push(pixels[o + 1]);
        out.push(pixels[o]);
        out.push(0xFF);
        col += 1;
        assert(out@ =~= abgr_row(f, row as int).subrange(0, 4 * col));
    }
    assert(out@ =~= abgr_row(f, row as int));
    out
}

fn zeros(n: usize) -> (out: Vec<u8>)
    ensures
        out@ == Seq::new(n as nat, |k: int| 0u8),
{
    let mut out: Vec<u8> = Vec::new();
    let mut i: usize = 0;
    while i < n
        invariant
            i <= n,
            out@ == Seq::new(i as nat, |k: int| 0u8),
        decreases n - i,
    {
        out.push(0);
        i += 1;
        assert(out@ =~= Seq::new(i as nat, |k: int| 0u8));
    }
    out
}

/// A picture written into a buffer with its colours the other way round, and
/// zeros in the rows below it. What lies to the right of the picture stays as it
/// is.
pub fn place_abgr(
    dest: &mut [u8],
    pitch: usize,
    width: u16,
    height: u16,
    stride: usize,
    pixels: &[u8],
    coded_w: u16,
    coded_h: u16,
)
    requires
        width <= coded_w,
        height <= coded_h,
        rdpegfx::encoder::picture(width, height, stride, pixels@).needed() <= pixels@.len(),
        coded_h > 0 ==> (coded_h - 1) * pitch + 4 * coded_w <= old(dest)@.len(),
    ensures
        final(dest)@ == placed(
            old(dest)@,
            0,
            pitch as int,
            coded_h as nat,
            abgr_rows(rdpegfx::encoder::picture(width, height, stride, pixels@), coded_w as nat),
        ),
        final(dest)@.len() == old(dest)@.len(),
{
    let ghost before = dest@;
    let ghost f = rdpegfx::encoder::picture(width, height, stride, pixels@);
    let ghost row_of = abgr_rows(f, coded_w as nat);
    let room: usize = dest.len();
    let below: Vec<u8> = zeros(coded_w as usize * 4);
    let mut row: u16 = 0;
    while row < coded_h
        invariant
            row <= coded_h,
            width <= coded_w,
            room == before.len(),
            f == rdpegfx::encoder::picture(width, height, stride, pixels@),
            f.needed() <= pixels@.len(),
            row_of == abgr_rows(f, coded_w as nat),
            below@ == Seq::new(4 * coded_w as nat, |k: int| 0u8),
            coded_h > 0 ==> (coded_h - 1) * pitch + 4 * coded_w <= before.len(),
            dest@ == placed(before, 0, pitch as int, row as nat, row_of),
            dest@.len() == before.len(),
        decreases coded_h - row,
    {
        proof {
            lemma_step(row as int, coded_h as int, pitch as int);
        }
        let at: usize = row as usize * pitch;
        if row < height {
            let bytes: Vec<u8> = write_abgr_row(width, height, stride, pixels, row);
            put_row(dest, at, bytes.as_slice());
        } else {
            put_row(dest, at, below.as_slice());
        }
        row += 1;
        assert(dest@ == placed(before, 0, pitch as int, row as nat, row_of));
    }
}

/// Whether a stream begins with a start code, long or short.
pub open spec fn starts(b: Seq<u8>) -> bool {
    ||| b.len() >= 4 && b[0] == 0 && b[1] == 0 && b[2] == 0 && b[3] == 1
    ||| b.len() >= 3 && b[0] == 0 && b[1] == 0 && b[2] == 1
}

/// One piece of a stream: it gets a start code where it has none, and where there
/// is anything in it.
pub open spec fn piece(b: Seq<u8>) -> Seq<u8> {
    if b.len() == 0 {
        seq![]
    } else if starts(b) {
        b
    } else {
        h264_headers::start_code() + b
    }
}

/// The first `n` pieces of a stream.
pub open spec fn pieces(segments: Seq<Vec<u8>>, n: nat) -> Seq<u8>
    decreases n,
{
    if n == 0 {
        seq![]
    } else {
        pieces(segments, (n - 1) as nat) + piece(segments[n - 1]@)
    }
}

pub const EMPTY: &'static str = "VAAPI produced empty bitstream";

/// How coarse the pictures are, as far as is known.
pub const QP: u8 = 22;

/// A stream whose parameter sets come from here, and whose pieces come from an
/// encoder: all of them, each after a start code. With hardly anything in it, it
/// is not a picture.
pub fn join_segments(coded_w: u16, coded_h: u16, segments: &Vec<Vec<u8>>) -> (r: Result<
    EncodedAu,
    EncoderError,
>)
    ensures
        ({
            let b = h264_headers::sps_pps_wire(coded_w, coded_h) + pieces(
                segments@,
                segments@.len(),
            );
            if b.len() <= 16 {
                r is Err && r->Err_0 is EncodeFailed && r->Err_0->EncodeFailed_0@ == EMPTY@
            } else {
                r is Ok && r->Ok_0.annex_b@ == b && r->Ok_0.qp == QP
            }
        }),
{
    let mut out: Vec<u8> = h264_headers::annex_b_sps_pps(coded_w, coded_h);
    let ghost head = out@;
    let code: [u8; 4] = [0, 0, 0, 1];
    assert(code@ =~= h264_headers::start_code());
    assert(out@ =~= head + pieces(segments@, 0));
    let mut i: usize = 0;
    while i < segments.len()
        invariant
            i <= segments@.len(),
            code@ == h264_headers::start_code(),
            out@ == head + pieces(segments@, i as nat),
        decreases segments@.len() - i,
    {
        let ghost before = out@;
        let b: &Vec<u8> = &segments[i];
        if b.len() > 0 {
            let long: bool = b.len() >= 4 && b[0] == 0 && b[1] == 0 && b[2] == 0 && b[3] == 1;
            let short: bool = b.len() >= 3 && b[0] == 0 && b[1] == 0 && b[2] == 1;
            if !long && !short {
                out.write_slice(&code);
            }
            out.write_slice(b.as_slice());
        }
        assert(out@ =~= before + piece(segments@[i as int]@));
        i += 1;
        assert(out@ =~= head + pieces(segments@, i as nat));
    }
    if out.len() <= 16 {
        return Err(EncoderError::EncodeFailed(EMPTY.to_owned()));
    }
    Ok(EncodedAu { annex_b: out, qp: QP })
}

pub const NOTHING_CODED: &'static str = "NVENC produced empty bitstream";

/// A stream that comes whole from an encoder: it has to have bytes.
pub fn take_stream(bytes: Vec<u8>) -> (r: Result<EncodedAu, EncoderError>)
    ensures
        if bytes@.len() == 0 {
            r is Err && r->Err_0 is EncodeFailed && r->Err_0->EncodeFailed_0@ == NOTHING_CODED@
        } else {
            r is Ok && r->Ok_0.annex_b@ == bytes@ && r->Ok_0.qp == QP
        },
{
    if bytes.is_empty() {
        return Err(EncoderError::EncodeFailed(NOTHING_CODED.to_owned()));
    }
    Ok(EncodedAu { annex_b: bytes, qp: QP })
}

pub const NO_ENTRYPOINT: &'static str = "VAAPI: no H.264 EncSlice entrypoint";

/// Which of the ways that a card offers to encode in is taken: the one that takes
/// less power before the other.
pub fn pick_entrypoint(offered: &Vec<u32>, low_power: u32, full: u32) -> (r: Result<u32, String>)
    ensures
        if offered@.contains(low_power) {
            r == Ok::<u32, String>(low_power)
        } else if offered@.contains(full) {
            r == Ok::<u32, String>(full)
        } else {
            r is Err && r->Err_0@ == NO_ENTRYPOINT@
        },
{
    if holds(offered, low_power) {
        Ok(low_power)
    } else if holds(offered, full) {
        Ok(full)
    } else {
        Err(NO_ENTRYPOINT.to_owned())
    }
}

fn holds(all: &Vec<u32>, one: u32) -> (r: bool)
    ensures
        r == all@.contains(one),
{
    let mut i: usize = 0;
    while i < all.len()
        invariant
            i <= all@.len(),
            forall|j: int| 0 <= j < i ==> all@[j] != one,
        decreases all@.len() - i,
    {
        if all[i] == one {
            return true;
        }
        i += 1;
    }
    false
}

pub const NO_FORMAT: &'static str = "VAAPI: YUV420 RT format unsupported";

/// The format to ask for, where it is one of those that a card has.
pub fn wanted_format(offered: u32, format: u32) -> (r: Result<u32, String>)
    ensures
        if offered & format == 0 {
            r is Err && r->Err_0@ == NO_FORMAT@
        } else {
            r == Ok::<u32, String>(format)
        },
{
    if offered & format == 0 {
        Err(NO_FORMAT.to_owned())
    } else {
        Ok(format)
    }
}

proof fn lemma_pixels(coded_w: u16, coded_h: u16)
    ensures
        0 <= coded_w * coded_h <= 0xFFFE_0001,
{
    assert(0 <= coded_w * coded_h <= 0xFFFE_0001) by (nonlinear_arith)
        requires
            0 <= coded_w <= 0xFFFF,
            0 <= coded_h <= 0xFFFF,
    ;
}

/// How many bits a card may use in a second: half as many as there are pixels,
/// and half a million at least.
pub fn bit_rate(coded_w: u16, coded_h: u16) -> (r: u32)
    ensures
        r == (if coded_w * coded_h / 2 < 500_000 {
            500_000int
        } else {
            coded_w * coded_h / 2
        }),
{
    proof {
        lemma_pixels(coded_w, coded_h);
    }
    let half: u32 = coded_w as u32 * coded_h as u32 / 2;
    if half < 500_000 {
        500_000
    } else {
        half
    }
}

/// How much room there is for an encoded picture: a byte for each pixel, and
/// 64 KiB at least.
pub fn coded_buffer_size(coded_w: u16, coded_h: u16) -> (r: usize)
    ensures
        r == (if coded_w * coded_h < 0x1_0000 {
            0x1_0000int
        } else {
            coded_w * coded_h
        }),
{
    proof {
        lemma_pixels(coded_w, coded_h);
    }
    let pixels: u32 = coded_w as u32 * coded_h as u32;
    if pixels < 0x1_0000 {
        0x1_0000
    } else {
        pixels as usize
    }
}

/// How many blocks of sixteen a picture is wide and high, and how many there are
/// in all.
pub fn block_counts(coded_w: u16, coded_h: u16) -> (r: (u32, u32, u32))
    ensures
        r.0 == coded_w / 16,
        r.1 == coded_h / 16,
        r.2 == (coded_w / 16) * (coded_h / 16),
{
    let w: u32 = coded_w as u32 / 16;
    let h: u32 = coded_h as u32 / 16;
    assert(0 <= w * h <= 0xFFF * 0xFFF) by (nonlinear_arith)
        requires
            0 <= w <= 0xFFF,
            0 <= h <= 0xFFF,
    ;
    (w, h, w * h)
}

/// Whether what was made for one size will do for another.
pub fn reusable(have: Option<(u16, u16)>, coded_w: u16, coded_h: u16) -> (r: bool)
    ensures
        r == (have == Some((coded_w, coded_h))),
{
    match have {
        Some((w, h)) => w == coded_w && h == coded_h,
        None => false,
    }
}

proof fn lemma_placed_beyond(
    d: Seq<u8>,
    offset: int,
    pitch: int,
    n: nat,
    row_of: spec_fn(int) -> Seq<u8>,
    i: int,
)
    requires
        0 <= offset,
        0 <= pitch,
        forall|k: int|
            0 <= k < n ==> (#[trigger] row_of(k)).len() <= pitch && offset + k * pitch + row_of(
                k,
            ).len() <= d.len(),
        0 <= i < d.len(),
        i < offset || i >= offset + n * pitch,
    ensures
        placed(d, offset, pitch, n, row_of).len() == d.len(),
        placed(d, offset, pitch, n, row_of)[i] == d[i],
    decreases n,
{
    if n > 0 {
        assert((n - 1) * pitch + pitch == n * pitch) by (nonlinear_arith);
        assert((n - 1) * pitch >= 0) by (nonlinear_arith)
            requires
                n > 0,
                pitch >= 0,
        ;
        lemma_placed_beyond(d, offset, pitch, (n - 1) as nat, row_of, i);
        let before = placed(d, offset, pitch, (n - 1) as nat, row_of);
        let at = offset + (n - 1) * pitch;
        let row = row_of(n - 1);
        assert(row.len() <= pitch && at + row.len() <= d.len());
        assert(put(before, at, row)[i] == before[i]);
    }
}

proof fn lemma_placed_at(
    d: Seq<u8>,
    offset: int,
    pitch: int,
    n: nat,
    row_of: spec_fn(int) -> Seq<u8>,
    r: int,
    j: int,
)
    requires
        0 <= offset,
        forall|k: int|
            0 <= k < n ==> (#[trigger] row_of(k)).len() <= pitch && offset + k * pitch + row_of(
                k,
            ).len() <= d.len(),
        0 <= r < n,
        0 <= j < pitch,
        offset + r * pitch + j < d.len(),
    ensures
        placed(d, offset, pitch, n, row_of).len() == d.len(),
        placed(d, offset, pitch, n, row_of)[offset + r * pitch + j] == (if j < row_of(r).len() {
            row_of(r)[j]
        } else {
            d[offset + r * pitch + j]
        }),
    decreases n,
{
    let i = offset + r * pitch + j;
    assert(r * pitch >= 0) by (nonlinear_arith)
        requires
            r >= 0,
            pitch > 0,
    ;
    let before = placed(d, offset, pitch, (n - 1) as nat, row_of);
    let at = offset + (n - 1) * pitch;
    let row = row_of(n - 1);
    assert(row.len() <= pitch && at + row.len() <= d.len());
    if r == n - 1 {
        lemma_placed_beyond(d, offset, pitch, (n - 1) as nat, row_of, i);
        if j < row.len() {
            assert(put(before, at, row)[i] == row[j]);
        } else {
            assert(put(before, at, row)[i] == before[i]);
        }
    } else {
        lemma_placed_at(d, offset, pitch, (n - 1) as nat, row_of, r, j);
        assert((r + 1) * pitch <= (n - 1) * pitch) by (nonlinear_arith)
            requires
                r + 1 <= n - 1,
                pitch > 0,
        ;
        assert((r + 1) * pitch == r * pitch + pitch) by (nonlinear_arith);
        assert(put(before, at, row)[i] == before[i]);
    }
}

/// A picture in a buffer has, in the same row and column, its red, its green and its blue,
/// and 255; below it there are zeros, and to its right what was there before. The rows of
/// the buffer have to be long enough to stay apart.
pub proof fn law_abgr(
    dest: &mut [u8],
    pitch: usize,
    width: u16,
    height: u16,
    stride: usize,
    pixels: &[u8],
    coded_w: u16,
    coded_h: u16,
    row: int,
    col: int,
    k: int,
)
    requires
        call_ensures(
            place_abgr,
            (dest, pitch, width, height, stride, pixels, coded_w, coded_h),
            (),
        ),
        width <= coded_w,
        height <= coded_h,
        4 * coded_w <= pitch,
        0 <= row < coded_h,
        0 <= col < coded_w,
        0 <= k < 4,
        (coded_h - 1) * pitch + 4 * coded_w <= old(dest)@.len(),
    ensures
        final(dest)@.len() == old(dest)@.len(),
        ({
            let c = final(dest)@[row * pitch + 4 * col + k];
            let o = row * stride + 4 * col;
            if row >= height {
                c == 0
            } else if col >= width {
                c == old(dest)@[row * pitch + 4 * col + k]
            } else if k == 0 {
                c == pixels@[o + 2]
            } else if k == 1 {
                c == pixels@[o + 1]
            } else if k == 2 {
                c == pixels@[o]
            } else {
                c == 255
            }
        }),
{
    let f = rdpegfx::encoder::picture(width, height, stride, pixels@);
    let rows = abgr_rows(f, coded_w as nat);
    let j = 4 * col + k;
    assert forall|r: int| 0 <= r < coded_h implies (#[trigger] rows(r)).len() <= pitch && r * pitch
        + rows(r).len() <= old(dest)@.len() by {
        lemma_row_order(r, coded_h - 1, pitch as int);
    }
    lemma_row_order(row, coded_h - 1, pitch as int);
    lemma_placed_at(old(dest)@, 0, pitch as int, coded_h as nat, rows, row, j);
    assert(j / 4 * 4 == 4 * col && j % 4 == k);
}

/// A picture whose colours are in one plane is written row by row, its brightness where
/// the one plane lies and its colours where the other does. The rows have to stay apart.
pub proof fn law_nv12(
    dest: &mut [u8],
    luma: Plane,
    colour: Plane,
    w: usize,
    h: usize,
    nv12: &[u8],
    row: int,
    j: int,
)
    requires
        call_ensures(place_nv12, (dest, luma, colour, w, h, nv12), ()),
        w <= luma.pitch,
        w <= colour.pitch,
        0 <= j < w,
        luma.offset + h * luma.pitch <= colour.offset,
        colour.offset + (h / 2) * colour.pitch <= old(dest)@.len(),
        h * w + (h / 2) * w <= nv12@.len(),
    ensures
        final(dest)@.len() == old(dest)@.len(),
        0 <= row < h && luma.offset + row * luma.pitch + j < colour.offset ==> final(dest)@[luma.offset + row * luma.pitch + j] == nv12@[row * w + j],
        0 <= row < h / 2 && colour.offset + row * colour.pitch + j < old(dest)@.len() ==> final(dest)@[colour.offset + row * colour.pitch + j] == nv12@[h * w + row * w + j],
{
    let d = old(dest)@;
    let one = rows_of(nv12@, 0, w as int);
    let two = rows_of(nv12@, h * w, w as int);
    let mid = placed(d, luma.offset as int, luma.pitch as int, h as nat, one);
    assert forall|r: int| 0 <= r < h implies (#[trigger] one(r)).len() == w && luma.offset + r
        * luma.pitch + w <= d.len() by {
        lemma_row_within(r, h as int, w as int);
        lemma_row_within(r, h as int, luma.pitch as int);
    }
    assert forall|r: int| 0 <= r < h / 2 implies (#[trigger] two(r)).len() == w && colour.offset + r
        * colour.pitch + w <= d.len() by {
        lemma_row_within(r, h as int / 2, w as int);
        lemma_row_within(r, h as int / 2, colour.pitch as int);
        assert(h * w >= 0) by (nonlinear_arith);
    }
    assert(h * luma.pitch >= 0) by (nonlinear_arith);
    assert(h / 2 * colour.pitch >= 0) by (nonlinear_arith);
    if 0 <= row < h && luma.offset + row * luma.pitch + j < colour.offset {
        let i = luma.offset + row * luma.pitch + j;
        assert(row * luma.pitch >= 0) by (nonlinear_arith)
            requires
                row >= 0,
        ;
        lemma_placed_at(d, luma.offset as int, luma.pitch as int, h as nat, one, row, j);
        lemma_placed_beyond(mid, colour.offset as int, colour.pitch as int, h as nat / 2, two, i);
        lemma_row_within(row, h as int, w as int);
        assert(one(row)[j] == nv12@[row * w + j]);
    }
    if 0 <= row < h / 2 && colour.offset + row * colour.pitch + j < old(dest)@.len() {
        if h > 0 {
            lemma_placed_at(d, luma.offset as int, luma.pitch as int, h as nat, one, 0, j);
        }
        lemma_placed_at(mid, colour.offset as int, colour.pitch as int, h as nat / 2, two, row, j);
        lemma_row_within(row, h as int / 2, w as int);
        assert(h * w >= 0) by (nonlinear_arith);
        assert(two(row)[j] == nv12@[h * w + row * w + j]);
    }
}

proof fn lemma_row_order(r: int, last: int, pitch: int)
    requires
        0 <= r <= last,
        0 <= pitch,
    ensures
        0 <= r * pitch <= last * pitch,
{
    assert(0 <= r * pitch <= last * pitch) by (nonlinear_arith)
        requires
            0 <= r <= last,
            0 <= pitch,
    ;
}

proof fn lemma_row_within(r: int, n: int, w: int)
    requires
        0 <= r < n,
        0 <= w,
    ensures
        0 <= r * w,
        r * w + w <= n * w,
{
    assert(0 <= r * w && r * w + w <= n * w) by (nonlinear_arith)
        requires
            0 <= r < n,
            0 <= w,
    ;
}

/// What a card gives is a stream after the parameter sets: every piece that has bytes and
/// does not begin with a start code gets 0, 0, 0, 1 before it. Sixteen bytes or less are
/// no picture. Pictures are taken to be of the coarseness 22.
pub proof fn law_joined(
    coded_w: u16,
    coded_h: u16,
    segments: &Vec<Vec<u8>>,
    r: Result<EncodedAu, EncoderError>,
    n: nat,
    whole: Vec<u8>,
    taken: Result<EncodedAu, EncoderError>,
)
    requires
        call_ensures(join_segments, (coded_w, coded_h, segments), r),
        call_ensures(take_stream, (whole,), taken),
        n < segments@.len(),
    ensures
        r is Ok ==> {
            &&& r->Ok_0.qp == 22
            &&& r->Ok_0.annex_b@ == h264_headers::sps_pps_wire(coded_w, coded_h) + pieces(
                segments@,
                segments@.len(),
            )
            &&& r->Ok_0.annex_b@.len() > 16
        },
        pieces(segments@, 0) == Seq::<u8>::empty(),
        ({
            let b = segments@[n as int]@;
            let coded = (b.len() >= 4 && b.subrange(0, 4) == seq![0u8, 0, 0, 1]) || (b.len() >= 3
                && b.subrange(0, 3) == seq![0u8, 0, 1]);
            pieces(segments@, n + 1) == pieces(segments@, n) + (if b.len() > 0 && !coded {
                seq![0u8, 0, 0, 1] + b
            } else {
                b
            })
        }),
        taken is Ok <==> whole@.len() > 0,
        taken is Ok ==> taken->Ok_0.annex_b@ == whole@ && taken->Ok_0.qp == 22,
{
    let b = segments@[n as int]@;
    if b.len() >= 4 {
        if starts(b) && b[3] == 1 && b[2] == 0 {
            assert(b.subrange(0, 4) =~= seq![0u8, 0, 0, 1]);
        }
        assert(b.subrange(0, 4)[0] == b[0] && b.subrange(0, 4)[1] == b[1] && b.subrange(0, 4)[2]
            == b[2] && b.subrange(0, 4)[3] == b[3]);
    }
    if b.len() >= 3 {
        if b[0] == 0 && b[1] == 0 && b[2] == 1 {
            assert(b.subrange(0, 3) =~= seq![0u8, 0, 1]);
        }
        assert(b.subrange(0, 3)[0] == b[0] && b.subrange(0, 3)[1] == b[1] && b.subrange(0, 3)[2]
            == b[2]);
    }
    if b.len() == 0 {
        assert(b =~= Seq::<u8>::empty());
    }
}

/// The way to encode that takes less power is taken where a card offers it, the other
/// where it offers only that; a format has to be one of those offered.
pub proof fn law_card_choices(
    offered: &Vec<u32>,
    low_power: u32,
    full: u32,
    r: Result<u32, String>,
    formats: u32,
    format: u32,
    f: Result<u32, String>,
)
    requires
        call_ensures(pick_entrypoint, (offered, low_power, full), r),
        call_ensures(wanted_format, (formats, format), f),
    ensures
        offered@.contains(low_power) ==> r is Ok && r->Ok_0 == low_power,
        !offered@.contains(low_power) && offered@.contains(full) ==> r is Ok && r->Ok_0 == full,
        !offered@.contains(low_power) && !offered@.contains(full) ==> r is Err && r->Err_0@
            == "VAAPI: no H.264 EncSlice entrypoint"@,
        formats & format != 0 ==> f is Ok && f->Ok_0 == format,
        formats & format == 0 ==> f is Err && f->Err_0@ == "VAAPI: YUV420 RT format unsupported"@,
{
}

/// How much a card may use, and how much room it gets: a bit for every second pixel and
/// second, half a million at least; a byte for every pixel, 65536 at least; and the blocks
/// of sixteen pixels across, down, and in all.
pub proof fn law_card_sizes(
    coded_w: u16,
    coded_h: u16,
    bits: u32,
    room: usize,
    blocks: (u32, u32, u32),
    have: Option<(u16, u16)>,
    again: bool,
)
    requires
        call_ensures(bit_rate, (coded_w, coded_h), bits),
        call_ensures(coded_buffer_size, (coded_w, coded_h), room),
        call_ensures(block_counts, (coded_w, coded_h), blocks),
        call_ensures(reusable, (have, coded_w, coded_h), again),
    ensures
        coded_w * coded_h <= 1_000_000 ==> bits == 500_000,
        coded_w * coded_h >= 1_000_000 ==> bits == coded_w * coded_h / 2,
        coded_w * coded_h <= 65536 ==> room == 65536,
        coded_w * coded_h >= 65536 ==> room == coded_w * coded_h,
        blocks.0 == coded_w / 16,
        blocks.1 == coded_h / 16,
        blocks.2 == blocks.0 * blocks.1,
        again <==> have is Some && have->Some_0.0 == coded_w && have->Some_0.1 == coded_h,
{
}

} // verus!
