//! A bitmap encoder that splits a picture into planes for brightness and color
//! differences, and run-length encodes each.

use vstd::prelude::*;
use vstd::slice::slice_subrange;

use crate::bytes;
use crate::cursor::WriteBuf;
use crate::rdp6;

verus! {

broadcast use bytes::group_bytes;

pub const RLE_LONG_ESCAPE: u8 = 0xFF;

/// Two to the power of a color loss level.
pub open spec fn loss(level: int) -> int
    decreases level,
{
    if level <= 0 {
        1
    } else {
        2 * loss(level - 1)
    }
}

pub open spec fn luma(r: u8, g: u8, b: u8) -> u8 {
    (r / 4 + g / 2 + b / 4) as u8
}

/// A color difference, cut down by the color loss, as a two's complement byte.
pub open spec fn chroma(difference: int, level: int) -> u8 {
    (difference / loss(level) % 256) as u8
}

pub open spec fn orange(r: u8, g: u8, b: u8, level: int) -> u8 {
    chroma(r - b, level)
}

pub open spec fn green(r: u8, g: u8, b: u8, level: int) -> u8 {
    chroma(g - r / 2 - b / 2, level)
}

/// Where pixel `i` stands in a picture of rows `stride` bytes apart, when the
/// pixels are counted row by row from the bottom row up.
pub open spec fn pixel_offset(i: int, width: int, height: int, stride: int) -> int {
    (height - 1 - i / width) * stride + i % width * 4
}

/// The four planes of a picture: brightness, the two color differences, and
/// full opacity.
pub open spec fn planes(data: Seq<u8>, width: int, height: int, stride: int, level: int) -> (
    Seq<u8>,
    Seq<u8>,
    Seq<u8>,
    Seq<u8>,
) {
    let n = (width * height) as nat;
    (
        Seq::new(
            n,
            |i: int|
                {
                    let p = pixel_offset(i, width, height, stride);
                    luma(data[p + 2], data[p + 1], data[p])
                },
        ),
        Seq::new(
            n,
            |i: int|
                {
                    let p = pixel_offset(i, width, height, stride);
                    orange(data[p + 2], data[p + 1], data[p], level)
                },
        ),
        Seq::new(
            n,
            |i: int|
                {
                    let p = pixel_offset(i, width, height, stride);
                    green(data[p + 2], data[p + 1], data[p], level)
                },
        ),
        rdp6::repeated(0xFF, n as int),
    )
}

/// A run: one byte as it is, a longer run as two of them and a count.
pub open spec fn run_wire(v: u8, n: int) -> Seq<u8> {
    if n == 1 {
        seq![v]
    } else if n <= 255 {
        seq![v, v, (n - 2) as u8]
    } else {
        seq![v, v, RLE_LONG_ESCAPE] + bytes::le32(n as u32)
    }
}

/// The runs of `body` from `i` on.
pub open spec fn runs_from(body: Seq<u8>, i: int) -> Seq<u8>
    decreases body.len() - i,
{
    if i < 0 || i >= body.len() {
        seq![]
    } else {
        let n = rdp6::run_from(body, i);
        proof {
            rdp6::lemma_run_from(body, i);
        }
        if n <= 0 {
            seq![]
        } else {
            run_wire(body[i], n) + runs_from(body, i + n)
        }
    }
}

/// The encoding of a plane. Its last four bytes are sent as they are.
pub open spec fn plane_rle(plane: Seq<u8>) -> Seq<u8> {
    if plane.len() <= 4 {
        plane
    } else {
        let n = plane.len() - 4;
        runs_from(plane.take(n), 0) + plane.skip(n)
    }
}

/// Reads a plane of `left` bytes: the last four as they are, and before them runs,
/// which begin with one byte twice. A single byte that only the last four follow
/// begins no run.
pub open spec fn read_plane(b: Seq<u8>, left: int) -> Option<Seq<u8>>
    decreases left,
{
    if left <= 4 {
        if left == b.len() {
            Some(b)
        } else {
            None
        }
    } else if b.len() < 1 {
        None
    } else if left == 5 || b.len() < 2 || b[1] != b[0] {
        match read_plane(b.skip(1), left - 1) {
            Some(rest) => Some(seq![b[0]] + rest),
            None => None,
        }
    } else if b.len() < 3 {
        None
    } else {
        let long = b[2] == RLE_LONG_ESCAPE;
        let n: int = if long {
            bytes::u32_le_at(b, 3) as int
        } else {
            b[2] + 2
        };
        let used: int = if long {
            7
        } else {
            3
        };
        if n < 1 || n > left - 4 || b.len() < used {
            None
        } else {
            match read_plane(b.skip(used), left - n) {
                Some(rest) => Some(rdp6::repeated(b[0], n) + rest),
                None => None,
            }
        }
    }
}

/// A plane that was encoded is read back as it was.
pub proof fn law_plane_round_trip(plane: Seq<u8>)
    requires
        plane.len() <= u32::MAX,
    ensures
        read_plane(plane_rle(plane), plane.len() as int) == Some(plane),
{
    if plane.len() > 4 {
        let n = plane.len() - 4;
        lemma_runs_are_read(plane.take(n), 0, plane.skip(n));
        assert(plane.take(n).skip(0) + plane.skip(n) =~= plane);
    }
}

proof fn lemma_runs_are_read(body: Seq<u8>, i: int, tail: Seq<u8>)
    requires
        0 <= i <= body.len() <= u32::MAX,
        tail.len() == 4,
    ensures
        read_plane(runs_from(body, i) + tail, body.len() - i + 4) == Some(body.skip(i) + tail),
    decreases body.len() - i,
{
    let b = runs_from(body, i) + tail;
    let left = body.len() - i + 4;
    if i == body.len() {
        assert(b =~= tail);
        assert(body.skip(i) + tail =~= tail);
    } else {
        let n = rdp6::run_from(body, i);
        rdp6::lemma_run_from(body, i);
        lemma_runs_are_read(body, i + n, tail);
        let rest = runs_from(body, i + n) + tail;
        let wire = run_wire(body[i], n);
        assert(b =~= wire + rest);
        assert(body.skip(i) + tail =~= rdp6::repeated(body[i], n) + (body.skip(i + n) + tail));
        if n == 1 {
            assert(b.skip(1) =~= rest);
            assert(seq![body[i]] =~= rdp6::repeated(body[i], 1));
            if i + 1 < body.len() {
                rdp6::lemma_run_from(body, i + 1);
                assert(rest[0] == body[i + 1]);
                assert(body[i + 1] != body[i]);
            }
        } else if n <= 255 {
            assert(b[0] == body[i] && b[1] == body[i] && b[2] == (n - 2) as u8);
            assert(b.skip(3) =~= rest);
        } else {
            assert(b[0] == body[i] && b[1] == body[i] && b[2] == RLE_LONG_ESCAPE);
            assert(b.skip(7) =~= rest);
            assert(bytes::holds_at(b, 3, bytes::le32(n as u32))) by {
                reveal(bytes::holds_at);
                assert(b.subrange(3, 7) =~= bytes::le32(n as u32));
            }
            bytes::lemma_holds_le32(b, 3, n as u32);
        }
    }
}

/// A length that stops at the largest 32-bit number.
pub open spec fn length32(n: int) -> u32 {
    if n <= u32::MAX {
        n as u32
    } else {
        u32::MAX
    }
}

/// The lengths of the encoded planes, the color loss level, no subsampling, and
/// the planes.
pub open spec fn frame_wire(
    planes: (Seq<u8>, Seq<u8>, Seq<u8>, Seq<u8>),
    color_loss_level: u8,
) -> Seq<u8> {
    let y = plane_rle(planes.0);
    let co = plane_rle(planes.1);
    let cg = plane_rle(planes.2);
    let a = plane_rle(planes.3);
    bytes::le32(length32(y.len() as int)) + bytes::le32(length32(co.len() as int)) + bytes::le32(
        length32(cg.len() as int),
    ) + bytes::le32(length32(a.len() as int)) + seq![color_loss_level] + seq![0u8] + seq![0u8]
        + seq![0u8] + y + co + cg + a
}

/// A color difference of either plane fits a signed byte once a level of color
/// loss is taken from it, so that no clamping is needed.
pub proof fn law_chroma_fits(r: u8, g: u8, b: u8, level: int)
    requires
        1 <= level <= 7,
    ensures
        -128 <= (r - b) / loss(level) <= 127,
        -128 <= (g - r / 2 - b / 2) / loss(level) <= 127,
{
    reveal_with_fuel(loss, 8);
    lemma_quotient(r - b, loss(level));
    lemma_quotient(g - r / 2 - b / 2, loss(level));
}

proof fn lemma_quotient(x: int, d: int)
    requires
        -256 <= x <= 255,
        2 <= d,
    ensures
        -128 <= x / d <= 127,
{
    vstd::arithmetic::div_mod::lemma_fundamental_div_mod(x, d);
    vstd::arithmetic::div_mod::lemma_mod_bound(x, d);
    let q = x / d;
    assert(-128 <= q <= 127) by (nonlinear_arith)
        requires
            -256 <= x <= 255,
            2 <= d,
            x == d * q + x % d,
            0 <= x % d < d,
    ;
}

/// [`loss`] of a level.
fn loss_divisor(level: u8) -> (d: u32)
    requires
        1 <= level <= 7,
    ensures
        d == loss(level as int),
        2 <= d <= 128,
{
    proof {
        reveal_with_fuel(loss, 8);
    }
    match level {
        1 => 2,
        2 => 4,
        3 => 8,
        4 => 16,
        5 => 32,
        6 => 64,
        _ => 128,
    }
}

fn rgb_to_ycocg(r: u8, g: u8, b: u8, color_loss_level: u8) -> (v: (u8, u8, u8))
    requires
        1 <= color_loss_level <= 7,
    ensures
        v == (
            luma(r, g, b),
            orange(r, g, b, color_loss_level as int),
            green(r, g, b, color_loss_level as int),
        ),
{
    let d: u32 = loss_divisor(color_loss_level);
    proof {
        vstd::arithmetic::div_mod::lemma_hoist_over_denominator(r - b, 256, d as nat);
        vstd::arithmetic::div_mod::lemma_hoist_over_denominator(g - r / 2 - b / 2, 256, d as nat);
    }
    let y: u8 = r / 4 + g / 2 + b / 4;
    let co: u8 = ((r as u32 + 256 * d - b as u32) / d % 256) as u8;
    let cg: u8 = ((g as u32 + 256 * d - (r / 2) as u32 - (b / 2) as u32) / d % 256) as u8;
    (y, co, cg)
}

fn rle_encode(plane: &[u8]) -> (out: Vec<u8>)
    requires
        plane@.len() <= u32::MAX,
    ensures
        out@ == plane_rle(plane@),
{
    let n: usize = plane.len();
    let mut out: Vec<u8> = Vec::new();
    if n <= 4 {
        out.extend_from_slice(plane);
        assert(out@ =~= plane@);
        return out;
    }
    let body_end: usize = n - 4;
    let ghost body = plane@.take(body_end as int);
    let mut i: usize = 0;
    assert(out@ + runs_from(body, 0) =~= runs_from(body, 0));
    while i < body_end
        invariant
            i <= body_end,
            n == plane@.len(),
            n <= u32::MAX,
            body_end == n - 4,
            body == plane@.take(body_end as int),
            out@ + runs_from(body, i as int) == runs_from(body, 0),
        decreases body_end - i,
    {
        let v: u8 = plane[i];
        let mut run: usize = 1;
        while run < body_end - i && plane[i + run] == v
            invariant
                1 <= run <= body_end - i,
                i < body_end,
                body_end <= n,
                n == plane@.len(),
                body == plane@.take(body_end as int),
                v == body[i as int],
                body[i + run - 1] == v,
                rdp6::run_from(body, i as int) == run - 1 + rdp6::run_from(body, i + run - 1),
            decreases body_end - i - run,
        {
            assert(body[i + run] == plane@[i + run]);
            run = run + 1;
        }
        proof {
            if run < body_end - i {
                assert(body[i + run] == plane@[i + run]);
            }
            rdp6::lemma_run_from(body, i as int);
            assert(run == rdp6::run_from(body, i as int));
        }
        let ghost had = out@;
        out.push(v);
        if run > 1 {
            out.push(v);
            if run <= 255 {
                out.push((run - 2) as u8);
            } else {
                out.push(RLE_LONG_ESCAPE);
                out.write_u32_le(run as u32);
            }
        }
        assert(out@ =~= had + run_wire(v, run as int));
        assert(out@ + runs_from(body, i + run) =~= had + (run_wire(v, run as int) + runs_from(
            body,
            i + run,
        )));
        i = i + run;
    }
    assert(out@ + runs_from(body, body_end as int) =~= out@);
    out.write_slice(slice_subrange(plane, body_end, n));
    assert(out@ =~= plane_rle(plane@));
    out
}

fn plane_len(n: usize) -> (v: u32)
    ensures
        v == length32(n as int),
{
    if n as u64 <= 0xFFFF_FFFF {
        n as u32
    } else {
        0xFFFF_FFFF
    }
}

/// Encodes a picture of four bytes per pixel (blue, green, red, and one that is
/// not used) whose rows are `stride` bytes apart.
pub fn encode(
    data: &[u8],
    width: u16,
    height: u16,
    stride: usize,
    color_loss_level: u8,
) -> (out: Vec<u8>)
    requires
        1 <= color_loss_level <= 7,
        height > 0 ==> (height - 1) * stride <= usize::MAX,
        height > 0 && width > 0 ==> (height - 1) * stride + (width - 1) * 4 + 3 <= data@.len(),
    ensures
        out@ == frame_wire(
            planes(
                data@,
                width as int,
                height as int,
                stride as int,
                color_loss_level as int,
            ),
            color_loss_level,
        ),
{
    assert(data.len() == data@.len());
    let w: usize = width as usize;
    let h: usize = height as usize;
    let ghost all = planes(
        data@,
        width as int,
        height as int,
        stride as int,
        color_loss_level as int,
    );
    let mut y_plane: Vec<u8> = Vec::new();
    let mut co_plane: Vec<u8> = Vec::new();
    let mut cg_plane: Vec<u8> = Vec::new();
    let mut a_plane: Vec<u8> = Vec::new();
    let mut done: usize = 0;
    proof {
        assert(0 * w == 0) by (nonlinear_arith);
        assert(w * h <= 0xFFFF * 0xFFFF && w * h == h * w) by (nonlinear_arith)
            requires
                w <= 0xFFFF,
                h <= 0xFFFF,
        ;
    }
    while done < h
        invariant
            done <= h,
            w == width,
            h == height,
            1 <= color_loss_level <= 7,
            data@.len() <= usize::MAX,
            height > 0 ==> (height - 1) * stride <= usize::MAX,
            height > 0 && width > 0 ==> (height - 1) * stride + (width - 1) * 4 + 3 <= data@.len(),
            all == planes(
                data@,
                width as int,
                height as int,
                stride as int,
                color_loss_level as int,
            ),
            y_plane@.len() == done * w,
            co_plane@.len() == done * w,
            cg_plane@.len() == done * w,
            a_plane@.len() == done * w,
            w * h == h * w,
            forall|i: int| 0 <= i < done * w ==> #[trigger] y_plane@[i] == all.0[i],
            forall|i: int| 0 <= i < done * w ==> #[trigger] co_plane@[i] == all.1[i],
            forall|i: int| 0 <= i < done * w ==> #[trigger] cg_plane@[i] == all.2[i],
            forall|i: int| 0 <= i < done * w ==> #[trigger] a_plane@[i] == all.3[i],
        decreases h - done,
    {
        let row: usize = h - 1 - done;
        proof {
            assert(row * stride <= (h - 1) * stride && 0 <= row * stride) by (nonlinear_arith)
                requires
                    0 <= row <= h - 1,
                    0 <= stride,
            ;
            assert(done * w + w == (done + 1) * w) by (nonlinear_arith);
            assert((done + 1) * w <= h * w) by (nonlinear_arith)
                requires
                    done + 1 <= h,
                    0 <= w,
            ;
        }
        let row_off: usize = row * stride;
        let mut col: usize = 0;
        while col < w
            invariant
                col <= w,
                done < h,
                w == width,
                h == height,
                row == h - 1 - done,
                row_off == row * stride,
                1 <= color_loss_level <= 7,
                data@.len() <= usize::MAX,
                w > 0 ==> row_off + (w - 1) * 4 + 3 <= data@.len(),
                all == planes(
                    data@,
                    width as int,
                    height as int,
                    stride as int,
                    color_loss_level as int,
                ),
                done * w + w <= w * h,
                y_plane@.len() == done * w + col,
                co_plane@.len() == done * w + col,
                cg_plane@.len() == done * w + col,
                a_plane@.len() == done * w + col,
                forall|i: int| 0 <= i < done * w + col ==> #[trigger] y_plane@[i] == all.0[i],
                forall|i: int| 0 <= i < done * w + col ==> #[trigger] co_plane@[i] == all.1[i],
                forall|i: int| 0 <= i < done * w + col ==> #[trigger] cg_plane@[i] == all.2[i],
                forall|i: int| 0 <= i < done * w + col ==> #[trigger] a_plane@[i] == all.3[i],
            decreases w - col,
        {
            let off: usize = row_off + col * 4;
            let b: u8 = data[off];
            let g: u8 = data[off + 1];
            let r: u8 = data[off + 2];
            proof {
                let k = done * w + col;
                vstd::arithmetic::div_mod::lemma_fundamental_div_mod_converse(
                    k,
                    w as int,
                    done as int,
                    col as int,
                );
                assert(pixel_offset(k, w as int, h as int, stride as int) == off);
            }
            let (y, co, cg) = rgb_to_ycocg(r, g, b, color_loss_level);
            y_plane.push(y);
            co_plane.push(co);
            cg_plane.push(cg);
            a_plane.push(0xFF);
            col = col + 1;
        }
        done = done + 1;
    }
    assert(y_plane@ =~= all.0);
    assert(co_plane@ =~= all.1);
    assert(cg_plane@ =~= all.2);
    assert(a_plane@ =~= all.3);
    let y_rle: Vec<u8> = rle_encode(y_plane.as_slice());
    let co_rle: Vec<u8> = rle_encode(co_plane.as_slice());
    let cg_rle: Vec<u8> = rle_encode(cg_plane.as_slice());
    let a_rle: Vec<u8> = rle_encode(a_plane.as_slice());
    let mut out: Vec<u8> = Vec::new();
    out.write_u32_le(plane_len(y_rle.len()));
    out.write_u32_le(plane_len(co_rle.len()));
    out.write_u32_le(plane_len(cg_rle.len()));
    out.write_u32_le(plane_len(a_rle.len()));
    out.write_u8(color_loss_level);
    out.write_u8(0);  // no subsampling
    out.write_u8(0);
    out.write_u8(0);
    out.write_slice(y_rle.as_slice());
    out.write_slice(co_rle.as_slice());
    out.write_slice(cg_rle.as_slice());
    out.write_slice(a_rle.as_slice());
    assert(out@ =~= frame_wire(all, color_loss_level));
    out
}

/// A reader of a plane takes a byte that differs from the next as it is; two
/// equal bytes and a count stand for that many more of them, or, where the count
/// is 255, for as many in all as the four bytes after it say. The last four bytes
/// stand for themselves.
pub proof fn law_plane_is_read(v: u8, w: u8, count: u8, rest: Seq<u8>, left: int)
    ensures
        rest.len() <= 4 ==> read_plane(rest, rest.len() as int) == Some(rest),
        left > 5 && v != w ==> read_plane(seq![v, w] + rest, left) == (match read_plane(
            seq![w] + rest,
            left - 1,
        ) {
            Some(s) => Some(seq![v] + s),
            None => None,
        }),
        left > 5 && count < 255 && count + 2 <= left - 4 ==> read_plane(
            seq![v, v, count] + rest,
            left,
        ) == (match read_plane(rest, left - count - 2) {
            Some(s) => Some(Seq::new((count + 2) as nat, |i: int| v) + s),
            None => None,
        }),
        left > 5 && rest.len() >= 4 && 1 <= bytes::u32_le_at(rest, 0) <= left - 4 ==> read_plane(
            seq![v, v, 255u8] + rest,
            left,
        ) == (match read_plane(rest.skip(4), left - bytes::u32_le_at(rest, 0)) {
            Some(s) => Some(Seq::new(bytes::u32_le_at(rest, 0) as nat, |i: int| v) + s),
            None => None,
        }),
{
    assert((seq![v, w] + rest).skip(1) =~= seq![w] + rest);
    assert((seq![v, v, count] + rest).skip(3) =~= rest);
    assert(rdp6::repeated(v, count + 2) =~= Seq::new((count + 2) as nat, |i: int| v));
    if rest.len() >= 4 {
        let b = seq![v, v, 255u8] + rest;
        let n = bytes::u32_le_at(rest, 0);
        assert(b[3] == rest[0] && b[4] == rest[1] && b[5] == rest[2] && b[6] == rest[3]);
        assert(b.skip(7) =~= rest.skip(4));
        assert(rdp6::repeated(v, n as int) =~= Seq::new(n as nat, |i: int| v));
    }
}

proof fn lemma_frame_planes(
    planes: (Seq<u8>, Seq<u8>, Seq<u8>, Seq<u8>),
    color_loss_level: u8,
)
    requires
        planes.0.len() <= u32::MAX,
        planes.1.len() <= u32::MAX,
        planes.2.len() <= u32::MAX,
        planes.3.len() <= u32::MAX,
        frame_wire(planes, color_loss_level).len() <= u32::MAX,
    ensures
        ({
            let out = frame_wire(planes, color_loss_level);
            let a = 20 + bytes::u32_le_at(out, 0);
            let b = a + bytes::u32_le_at(out, 4);
            let c = b + bytes::u32_le_at(out, 8);
            let d = c + bytes::u32_le_at(out, 12);
            &&& out.len() == d
            &&& out[16] == color_loss_level
            &&& out[17] == 0
            &&& out[18] == 0
            &&& out[19] == 0
            &&& read_plane(out.subrange(20, a), planes.0.len() as int) == Some(planes.0)
            &&& read_plane(out.subrange(a, b), planes.1.len() as int) == Some(planes.1)
            &&& read_plane(out.subrange(b, c), planes.2.len() as int) == Some(planes.2)
            &&& read_plane(out.subrange(c, d), planes.3.len() as int) == Some(planes.3)
        }),
{
    let out = frame_wire(planes, color_loss_level);
    let y = plane_rle(planes.0);
    let co = plane_rle(planes.1);
    let cg = plane_rle(planes.2);
    let al = plane_rle(planes.3);
    assert(out.len() == 20 + y.len() + co.len() + cg.len() + al.len());
    assert(bytes::u32_le_at(out, 0) == y.len());
    assert(bytes::u32_le_at(out, 4) == co.len());
    assert(bytes::u32_le_at(out, 8) == cg.len());
    assert(bytes::u32_le_at(out, 12) == al.len());
    let a = 20 + y.len();
    let b = a + co.len();
    let c = b + cg.len();
    assert(out.subrange(20, a as int) =~= y);
    assert(out.subrange(a as int, b as int) =~= co);
    assert(out.subrange(b as int, c as int) =~= cg);
    assert(out.subrange(c as int, out.len() as int) =~= al);
    law_plane_round_trip(planes.0);
    law_plane_round_trip(planes.1);
    law_plane_round_trip(planes.2);
    law_plane_round_trip(planes.3);
}

/// The number that a two's complement byte stands for.
spec fn signed(v: u8) -> int {
    if v < 128 {
        v as int
    } else {
        v - 256
    }
}

proof fn lemma_chroma_value(difference: int, level: int)
    requires
        1 <= level <= 7,
        -256 <= difference <= 255,
    ensures
        ({
            let c = signed(chroma(difference, level));
            let d = vstd::arithmetic::power2::pow2(level as nat);
            c * d <= difference < (c + 1) * d
        }),
{
    vstd::arithmetic::power2::lemma2_to64();
    reveal_with_fuel(loss, 8);
    let d = loss(level);
    assert(d == vstd::arithmetic::power2::pow2(level as nat));
    lemma_quotient(difference, d);
    let q = difference / d;
    vstd::arithmetic::div_mod::lemma_fundamental_div_mod(difference, d);
    vstd::arithmetic::div_mod::lemma_mod_bound(difference, d);
    assert(signed(chroma(difference, level)) == q);
    assert(q * d <= difference < (q + 1) * d) by (nonlinear_arith)
        requires
            difference == d * q + difference % d,
            0 <= difference % d < d,
    ;
}

/// A frame begins with the lengths of four planes, the color loss level and
/// three zeros, and the planes follow. They are read back to one byte for each
/// pixel, row by row from the bottom row up: the brightness, a quarter of red, half
/// of green and a quarter of blue; red less blue; green less half of red and half
/// of blue, both as signed bytes, rounded down, with as many bits shifted out as
/// the level says; and full opacity.
#[verifier::rlimit(40)]
pub proof fn law_frame(
    data: &[u8],
    width: u16,
    height: u16,
    stride: usize,
    color_loss_level: u8,
    out: Vec<u8>,
    row: int,
    col: int,
)
    requires
        call_ensures(encode, (data, width, height, stride, color_loss_level), out),
        1 <= color_loss_level <= 7,
        out@.len() <= u32::MAX,
        0 <= row < height,
        0 <= col < width,
    ensures
        ({
            let n = width * height;
            let a = 20 + bytes::u32_le_at(out@, 0);
            let b = a + bytes::u32_le_at(out@, 4);
            let c = b + bytes::u32_le_at(out@, 8);
            let d = c + bytes::u32_le_at(out@, 12);
            let y = read_plane(out@.subrange(20, a), n);
            let co = read_plane(out@.subrange(a, b), n);
            let cg = read_plane(out@.subrange(b, c), n);
            let alpha = read_plane(out@.subrange(c, d), n);
            let p = row * stride + col * 4;
            let i = (height - 1 - row) * width + col;
            let lost = vstd::arithmetic::power2::pow2(color_loss_level as nat);
            &&& out@.len() == d
            &&& out@[16] == color_loss_level
            &&& out@[17] == 0
            &&& out@[18] == 0
            &&& out@[19] == 0
            &&& y is Some && y->Some_0.len() == n
            &&& co is Some && co->Some_0.len() == n
            &&& cg is Some && cg->Some_0.len() == n
            &&& alpha is Some && alpha->Some_0.len() == n
            &&& 0 <= i < n
            &&& y->Some_0[i] == data@[p + 2] / 4 + data@[p + 1] / 2 + data@[p] / 4
            &&& alpha->Some_0[i] == 255
            &&& ({
                let orange = co->Some_0[i];
                let value = if orange < 128 {
                    orange as int
                } else {
                    orange - 256
                };
                value * lost <= data@[p + 2] - data@[p] < (value + 1) * lost
            })
            &&& ({
                let green = cg->Some_0[i];
                let value = if green < 128 {
                    green as int
                } else {
                    green - 256
                };
                value * lost <= data@[p + 1] - data@[p + 2] / 2 - data@[p] / 2 < (value + 1)
                    * lost
            })
        }),
{
    let w = width as int;
    let h = height as int;
    let n = w * h;
    let ps = planes(data@, w, h, stride as int, color_loss_level as int);
    let i = (h - 1 - row) * w + col;
    assert(0 <= i < n && n <= 65535 * 65535) by (nonlinear_arith)
        requires
            0 <= row < h,
            0 <= col < w,
            n == w * h,
            i == (h - 1 - row) * w + col,
            w <= 65535,
            h <= 65535,
    ;
    lemma_frame_planes(ps, color_loss_level);
    vstd::arithmetic::div_mod::lemma_fundamental_div_mod_converse(i, w, h - 1 - row, col);
    let p = row * stride + col * 4;
    assert(pixel_offset(i, w, h, stride as int) == p);
    let r = data@[p + 2];
    let g = data@[p + 1];
    let b = data@[p];
    assert(ps.0[i] == luma(r, g, b));
    lemma_chroma_value(r - b, color_loss_level as int);
    lemma_chroma_value(g - r / 2 - b / 2, color_loss_level as int);
}

} // verus!
