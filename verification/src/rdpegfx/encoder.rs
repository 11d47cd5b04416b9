//! What an H.264 encoder has to do, and the pictures it is given: from the
//! screen they come with four bytes for each pixel (blue, green, red, and one
//! that does not count), and encoders want brightness and colour in planes.

use vstd::prelude::*;
use vstd::string::*;

use crate::bytes;
use crate::cursor::WriteBuf;
use crate::rdpegfx::error::EncoderError;
use crate::render;

verus! {

broadcast use bytes::group_bytes;

/// One picture, encoded: a stream with start codes.
#[derive(Debug, Clone, PartialEq, Eq)]
pub struct EncodedAu {
    pub annex_b: Vec<u8>,
    /// How coarse the picture is, from 0 to 51.
    pub qp: u8,
}

/// Encodes pictures. `width` and `height` are what is to be seen; an encoder
/// may add to them for its own use.
pub trait H264Encoder: Send {
    fn encode_bgrx(
        &mut self,
        width: u16,
        height: u16,
        stride: usize,
        pixels: &[u8],
        force_idr: bool,
    ) -> Result<EncodedAu, EncoderError>;

    /// Forgets whatever depends on the size.
    fn reset(&mut self);
}

/// The next multiple of sixteen, or the last one that there is room for.
pub open spec fn aligned(v: u16) -> u16 {
    if v + 15 > u16::MAX {
        0xFFF0
    } else {
        ((v + 15) / 16 * 16) as u16
    }
}

pub fn align16(v: u16) -> (r: u16)
    ensures
        r == aligned(v),
{
    let up: u16 = if v > u16::MAX - 15 {
        u16::MAX
    } else {
        v + 15
    };
    up / 16 * 16
}

/// How wide or high a picture is for an encoder, which wants whole blocks of
/// sixteen, and one at least.
pub open spec fn padded(v: u16) -> u16 {
    if aligned(v) < 16 {
        16
    } else {
        aligned(v)
    }
}

pub fn coded_length(v: u16) -> (r: u16)
    ensures
        r == padded(v),
        r % 16 == 0,
        16 <= r,
{
    let up: u16 = align16(v);
    if up < 16 {
        16
    } else {
        up
    }
}

/// A picture from the screen: what is to be seen of it, how far one row starts
/// after the other, and the bytes.
#[verifier::ext_equal]
pub struct Picture {
    pub width: int,
    pub height: int,
    pub stride: int,
    pub pixels: Seq<u8>,
}

impl Picture {
    /// How many bytes there have to be: whole rows, and the last one up to where
    /// it is seen.
    pub open spec fn needed(self) -> int {
        (if self.height > 0 {
            self.height - 1
        } else {
            0
        }) * self.stride + self.width * 4
    }

    /// Red, green and blue of a pixel.
    pub open spec fn rgb(self, row: int, col: int) -> (int, int, int) {
        let o = row * self.stride + col * 4;
        (self.pixels[o + 2] as int, self.pixels[o + 1] as int, self.pixels[o] as int)
    }

    /// How bright a pixel is; what lies outside the picture is black.
    #[verifier::opaque]
    pub open spec fn luma(self, row: int, col: int) -> u8 {
        if row < self.height && col < self.width {
            brightness(self.rgb(row, col))
        } else {
            0
        }
    }

    /// Red, green and blue of a block of four pixels. At the edge, the last row
    /// and the last column count twice.
    pub open spec fn block_rgb(self, block_row: int, block_col: int) -> (int, int, int) {
        let row = 2 * block_row;
        let col = 2 * block_col;
        let row2 = if row + 1 < self.height {
            row + 1
        } else {
            row
        };
        let col2 = if col + 1 < self.width {
            col + 1
        } else {
            col
        };
        average(
            self.rgb(row, col),
            self.rgb(row, col2),
            self.rgb(row2, col),
            self.rgb(row2, col2),
        )
    }

    /// The colour of a block; what lies outside the picture is zero.
    #[verifier::opaque]
    pub open spec fn chroma(self, block_row: int, block_col: int) -> (u8, u8) {
        if 2 * block_row < self.height && 2 * block_col < self.width {
            colour(self.block_rgb(block_row, block_col))
        } else {
            (0, 0)
        }
    }

    /// One row of brightness, `out_w` wide.
    pub open spec fn luma_row(self, row: int, out_w: nat) -> Seq<u8> {
        Seq::new(out_w, |col: int| self.luma(row, col))
    }

    /// The first `n` rows of brightness.
    pub open spec fn luma_rows(self, n: nat, out_w: nat) -> Seq<u8>
        decreases n,
    {
        if n == 0 {
            seq![]
        } else {
            self.luma_rows((n - 1) as nat, out_w) + self.luma_row(n - 1, out_w)
        }
    }

    /// One row of the first part of the colour.
    pub open spec fn u_row(self, row: int, uv_w: nat) -> Seq<u8> {
        Seq::new(uv_w, |col: int| self.chroma(row, col).0)
    }

    pub open spec fn u_rows(self, n: nat, uv_w: nat) -> Seq<u8>
        decreases n,
    {
        if n == 0 {
            seq![]
        } else {
            self.u_rows((n - 1) as nat, uv_w) + self.u_row(n - 1, uv_w)
        }
    }

    /// One row of the second part of the colour.
    pub open spec fn v_row(self, row: int, uv_w: nat) -> Seq<u8> {
        Seq::new(uv_w, |col: int| self.chroma(row, col).1)
    }

    pub open spec fn v_rows(self, n: nat, uv_w: nat) -> Seq<u8>
        decreases n,
    {
        if n == 0 {
            seq![]
        } else {
            self.v_rows((n - 1) as nat, uv_w) + self.v_row(n - 1, uv_w)
        }
    }

    /// One row of both parts of the colour, in turn.
    pub open spec fn uv_row(self, row: int, uv_w: nat) -> Seq<u8> {
        Seq::new(
            2 * uv_w,
            |i: int|
                if i % 2 == 0 {
                    self.chroma(row, i / 2).0
                } else {
                    self.chroma(row, i / 2).1
                },
        )
    }

    pub open spec fn uv_rows(self, n: nat, uv_w: nat) -> Seq<u8>
        decreases n,
    {
        if n == 0 {
            seq![]
        } else {
            self.uv_rows((n - 1) as nat, uv_w) + self.uv_row(n - 1, uv_w)
        }
    }

    /// Brightness, and each part of the colour in a plane of its own.
    pub open spec fn i420(self, out_w: nat, out_h: nat) -> Seq<u8> {
        self.luma_rows(out_h, out_w) + self.u_rows(out_h / 2, out_w / 2) + self.v_rows(
            out_h / 2,
            out_w / 2,
        )
    }

    /// Brightness, and both parts of the colour in one plane.
    pub open spec fn nv12(self, out_w: nat, out_h: nat) -> Seq<u8> {
        self.luma_rows(out_h, out_w) + self.uv_rows(out_h / 2, out_w / 2)
    }

    /// What is wrong with a picture that is to fill planes of a size, in words.
    pub open spec fn refusal(self, out_w: int, out_h: int) -> Option<Seq<char>> {
        if out_w % 2 != 0 || out_h % 2 != 0 {
            Some(
                "planar YUV size must be even, got "@ + render::decimal(out_w as nat) + "x"@
                    + render::decimal(out_h as nat),
            )
        } else if self.width > out_w || self.height > out_h {
            Some(
                "visible "@ + render::decimal(self.width as nat) + "x"@ + render::decimal(
                    self.height as nat,
                ) + " larger than padded "@ + render::decimal(out_w as nat) + "x"@
                    + render::decimal(out_h as nat),
            )
        } else if self.pixels.len() < self.needed() {
            Some(
                "pixel buffer too short: have "@ + render::decimal(self.pixels.len())
                    + ", need at least "@ + render::decimal(
                    if self.needed() > usize::MAX {
                        usize::MAX as nat
                    } else {
                        self.needed() as nat
                    },
                ),
            )
        } else {
            None
        }
    }
}

/// How bright a colour is.
pub open spec fn brightness(c: (int, int, int)) -> u8 {
    ((66 * c.0 + 129 * c.1 + 25 * c.2 + 128) / 256 + 16) as u8
}

pub open spec fn average(
    a: (int, int, int),
    b: (int, int, int),
    c: (int, int, int),
    d: (int, int, int),
) -> (int, int, int) {
    ((a.0 + b.0 + c.0 + d.0) / 4, (a.1 + b.1 + c.1 + d.1) / 4, (a.2 + b.2 + c.2 + d.2) / 4)
}

/// A number as a byte, the nearest there is.
pub open spec fn clamped(n: int) -> u8 {
    if n < 0 {
        0
    } else if n > 255 {
        255
    } else {
        n as u8
    }
}

/// What is left of a colour without its brightness.
pub open spec fn colour(c: (int, int, int)) -> (u8, u8) {
    (
        clamped((-38 * c.0 - 74 * c.1 + 112 * c.2 + 128) / 256 + 128),
        clamped((112 * c.0 - 94 * c.1 - 18 * c.2 + 128) / 256 + 128),
    )
}

pub open spec fn picture(width: u16, height: u16, stride: usize, pixels: Seq<u8>) -> Picture {
    Picture { width: width as int, height: height as int, stride: stride as int, pixels }
}

fn size_text(before: &str, w: u16, h: u16) -> (s: String)
    ensures
        s@ == before@ + render::decimal(w as nat) + "x"@ + render::decimal(h as nat),
{
    let mut s: String = render::around(before, w as u64, "x");
    render::push_decimal(&mut s, h as u64);
    s
}

/// Whether a picture can fill planes of a size, and if not, why.
pub fn check_bgrx_geometry(
    width: u16,
    height: u16,
    stride: usize,
    pixels: &[u8],
    out_w: u16,
    out_h: u16,
) -> (r: Result<(), String>)
    ensures
        match picture(width, height, stride, pixels@).refusal(out_w as int, out_h as int) {
            None => r is Ok,
            Some(text) => r is Err && r->Err_0@ == text,
        },
{
    if out_w % 2 != 0 || out_h % 2 != 0 {
        return Err(size_text("planar YUV size must be even, got ", out_w, out_h));
    }
    if width > out_w || height > out_h {
        let mut s: String = size_text("visible ", width, height);
        s.append(" larger than padded ");
        render::push_decimal(&mut s, out_w as u64);
        s.append("x");
        render::push_decimal(&mut s, out_h as u64);
        return Err(s);
    }
    let rows: u128 = if height > 0 {
        height as u128 - 1
    } else {
        0
    };
    assert(0 <= rows * stride <= 0xFFFF * 0xFFFF_FFFF_FFFF_FFFF) by (nonlinear_arith)
        requires
            0 <= rows <= 0xFFFF,
            0 <= stride <= 0xFFFF_FFFF_FFFF_FFFF,
    ;
    let needed: u128 = rows * stride as u128 + width as u128 * 4;
    if (pixels.len() as u128) < needed {
        let mut s: String = render::around(
            "pixel buffer too short: have ",
            pixels.len() as u64,
            ", need at least ",
        );
        let shown: u64 = if needed > usize::MAX as u128 {
            usize::MAX as u64
        } else {
            needed as u64
        };
        render::push_decimal(&mut s, shown);
        return Err(s);
    }
    Ok(())
}

fn bt601_y(c: (u32, u32, u32)) -> (y: u8)
    requires
        c.0 <= 255,
        c.1 <= 255,
        c.2 <= 255,
    ensures
        y == brightness((c.0 as int, c.1 as int, c.2 as int)),
{
    ((66 * c.0 + 129 * c.1 + 25 * c.2 + 128) / 256 + 16) as u8
}

fn clamp_byte(n: i32) -> (r: u8)
    ensures
        r == clamped(n as int),
{
    if n < 0 {
        0
    } else if n > 255 {
        255
    } else {
        n as u8
    }
}

#[verifier::spinoff_prover]
fn bt601_uv(a: (u32, u32, u32), b: (u32, u32, u32), c: (u32, u32, u32), d: (u32, u32, u32)) -> (uv: (
    u8,
    u8,
))
    requires
        a.0 <= 255 && a.1 <= 255 && a.2 <= 255,
        b.0 <= 255 && b.1 <= 255 && b.2 <= 255,
        c.0 <= 255 && c.1 <= 255 && c.2 <= 255,
        d.0 <= 255 && d.1 <= 255 && d.2 <= 255,
    ensures
        uv == colour(
            average(
                (a.0 as int, a.1 as int, a.2 as int),
                (b.0 as int, b.1 as int, b.2 as int),
                (c.0 as int, c.1 as int, c.2 as int),
                (d.0 as int, d.1 as int, d.2 as int),
            ),
        ),
{
    let red: u32 = (a.0 + b.0 + c.0 + d.0) / 4;
    let green: u32 = (a.1 + b.1 + c.1 + d.1) / 4;
    let blue: u32 = (a.2 + b.2 + c.2 + d.2) / 4;
    assert(red <= 255 && green <= 255 && blue <= 255);
    // A multiple of the divisor keeps what is divided above zero.
    let u: u32 = (0x1_0080 + 112 * blue - 38 * red - 74 * green) / 256;
    let v: u32 = (0x1_0080 + 112 * red - 94 * green - 18 * blue) / 256;
    (clamp_byte(u as i32 - 128), clamp_byte(v as i32 - 128))
}

proof fn lemma_pixel_is_there(f: Picture, row: int, col: int)
    requires
        0 <= row < f.height,
        0 <= col < f.width,
        0 <= f.stride,
        f.needed() <= f.pixels.len(),
    ensures
        0 <= row * f.stride,
        0 <= row * f.stride + col * 4,
        row * f.stride + col * 4 + 3 < f.pixels.len(),
{
    assert(0 <= row * f.stride <= (f.height - 1) * f.stride) by (nonlinear_arith)
        requires
            0 <= row <= f.height - 1,
            0 <= f.stride,
    ;
}

fn read_rgb(pixels: &[u8], stride: usize, row: usize, col: usize, Ghost(f): Ghost<Picture>) -> (c: (
    u32,
    u32,
    u32,
))
    requires
        f.pixels == pixels@,
        f.stride == stride,
        0 <= row < f.height,
        0 <= col < f.width,
        f.needed() <= f.pixels.len(),
    ensures
        (c.0 as int, c.1 as int, c.2 as int) == f.rgb(row as int, col as int),
        c.0 <= 255 && c.1 <= 255 && c.2 <= 255,
{
    let len: usize = pixels.len();
    proof {
        lemma_pixel_is_there(f, row as int, col as int);
        assert(row * stride + col * 4 + 3 < len);
    }
    let o: usize = row * stride + col * 4;
    (pixels[o + 2] as u32, pixels[o + 1] as u32, pixels[o] as u32)
}

/// Appends the brightness of a picture, `out_w` wide and `out_h` high.
fn write_luma(
    out: &mut Vec<u8>,
    width: u16,
    height: u16,
    stride: usize,
    pixels: &[u8],
    out_w: u16,
    out_h: u16,
)
    requires
        picture(width, height, stride, pixels@).needed() <= pixels@.len(),
    ensures
        final(out)@ == old(out)@ + picture(width, height, stride, pixels@).luma_rows(
            out_h as nat,
            out_w as nat,
        ),
{
    let ghost f = picture(width, height, stride, pixels@);
    let ghost before = out@;
    let mut row: u16 = 0;
    assert(out@ =~= before + f.luma_rows(0, out_w as nat));
    while row < out_h
        invariant
            row <= out_h,
            f == picture(width, height, stride, pixels@),
            f.needed() <= pixels@.len(),
            out@ == before + f.luma_rows(row as nat, out_w as nat),
        decreases out_h - row,
    {
        let ghost done = out@;
        let mut col: u16 = 0;
        while col < out_w
            invariant
                col <= out_w,
                f == picture(width, height, stride, pixels@),
                f.needed() <= pixels@.len(),
                out@ =~= done + f.luma_row(row as int, col as nat),
            decreases out_w - col,
        {
            proof {
                reveal(Picture::luma);
            }
            if row < height && col < width {
                let c: (u32, u32, u32) = read_rgb(
                    pixels,
                    stride,
                    row as usize,
                    col as usize,
                    Ghost(f),
                );
                out.push(bt601_y(c));
            } else {
                out.push(0);
            }
            col = col + 1;
        }
        row = row + 1;
        assert(out@ =~= before + f.luma_rows(row as nat, out_w as nat));
    }
}

/// The colour of one block.
fn block_colour(
    width: u16,
    height: u16,
    stride: usize,
    pixels: &[u8],
    block_row: u16,
    block_col: u16,
) -> (uv: (u8, u8))
    requires
        picture(width, height, stride, pixels@).needed() <= pixels@.len(),
        block_row < 0x8000,
        block_col < 0x8000,
    ensures
        uv == picture(width, height, stride, pixels@).chroma(block_row as int, block_col as int),
{
    proof {
        reveal(Picture::chroma);
    }
    let ghost f = picture(width, height, stride, pixels@);
    let row: usize = 2 * block_row as usize;
    let col: usize = 2 * block_col as usize;
    if row >= height as usize || col >= width as usize {
        return (0, 0);
    }
    let row2: usize = if row + 1 < height as usize {
        row + 1
    } else {
        row
    };
    let col2: usize = if col + 1 < width as usize {
        col + 1
    } else {
        col
    };
    let a: (u32, u32, u32) = read_rgb(pixels, stride, row, col, Ghost(f));
    let b: (u32, u32, u32) = read_rgb(pixels, stride, row, col2, Ghost(f));
    let c: (u32, u32, u32) = read_rgb(pixels, stride, row2, col, Ghost(f));
    let d: (u32, u32, u32) = read_rgb(pixels, stride, row2, col2, Ghost(f));
    bt601_uv(a, b, c, d)
}

/// Turns a picture into three planes of `out_w` by `out_h`, both even, the
/// second and third with a quarter as many bytes as the first. What lies outside
/// the picture is zero.
pub fn bgrx_to_i420(
    width: u16,
    height: u16,
    stride: usize,
    pixels: &[u8],
    out_w: u16,
    out_h: u16,
) -> (r: Result<Vec<u8>, String>)
    ensures
        match picture(width, height, stride, pixels@).refusal(out_w as int, out_h as int) {
            None => r is Ok && r->Ok_0@ == picture(width, height, stride, pixels@).i420(
                out_w as nat,
                out_h as nat,
            ),
            Some(text) => r is Err && r->Err_0@ == text,
        },
{
    check_bgrx_geometry(width, height, stride, pixels, out_w, out_h)?;
    let ghost f = picture(width, height, stride, pixels@);
    let mut out: Vec<u8> = Vec::new();
    write_luma(&mut out, width, height, stride, pixels, out_w, out_h);
    let ghost luma = f.luma_rows(out_h as nat, out_w as nat);
    assert(out@ =~= luma);
    let uv_w: u16 = out_w / 2;
    let uv_h: u16 = out_h / 2;
    let mut second: Vec<u8> = Vec::new();
    let mut row: u16 = 0;
    assert(out@ =~= luma + f.u_rows(0, uv_w as nat));
    assert(second@ =~= f.v_rows(0, uv_w as nat));
    while row < uv_h
        invariant
            row <= uv_h,
            uv_h < 0x8000,
            uv_w < 0x8000,
            f == picture(width, height, stride, pixels@),
            f.needed() <= pixels@.len(),
            out@ == luma + f.u_rows(row as nat, uv_w as nat),
            second@ == f.v_rows(row as nat, uv_w as nat),
        decreases uv_h - row,
    {
        let ghost had = out@;
        let ghost had_second = second@;
        let mut col: u16 = 0;
        while col < uv_w
            invariant
                col <= uv_w,
                row < uv_h < 0x8000,
                uv_w < 0x8000,
                f == picture(width, height, stride, pixels@),
                f.needed() <= pixels@.len(),
                out@ =~= had + f.u_row(row as int, col as nat),
                second@ =~= had_second + f.v_row(row as int, col as nat),
            decreases uv_w - col,
        {
            let (u, v): (u8, u8) = block_colour(width, height, stride, pixels, row, col);
            out.push(u);
            second.push(v);
            col = col + 1;
        }
        row = row + 1;
        assert(out@ =~= luma + f.u_rows(row as nat, uv_w as nat));
        assert(second@ =~= f.v_rows(row as nat, uv_w as nat));
    }
    out.append(&mut second);
    assert(out@ =~= f.i420(out_w as nat, out_h as nat));
    Ok(out)
}

proof fn lemma_uv_row_grows(f: Picture, row: int, col: nat)
    ensures
        f.uv_row(row, col + 1) == f.uv_row(row, col).push(f.chroma(row, col as int).0).push(
            f.chroma(row, col as int).1,
        ),
{
    let more = f.uv_row(row, col + 1);
    let less = f.uv_row(row, col).push(f.chroma(row, col as int).0).push(
        f.chroma(row, col as int).1,
    );
    assert((2 * col) % 2 == 0 && (2 * col) / 2 == col);
    assert((2 * col + 1) % 2 == 1 && (2 * col + 1) / 2 == col);
    assert forall|i: int| 0 <= i < more.len() implies more[i] == less[i] by {}
    assert(more =~= less);
}

/// Turns a picture into two planes of `out_w` by `out_h`, both even, the second
/// with half as many bytes as the first. What lies outside the picture is zero.
pub fn bgrx_to_nv12(
    width: u16,
    height: u16,
    stride: usize,
    pixels: &[u8],
    out_w: u16,
    out_h: u16,
) -> (r: Result<Vec<u8>, String>)
    ensures
        match picture(width, height, stride, pixels@).refusal(out_w as int, out_h as int) {
            None => r is Ok && r->Ok_0@ == picture(width, height, stride, pixels@).nv12(
                out_w as nat,
                out_h as nat,
            ),
            Some(text) => r is Err && r->Err_0@ == text,
        },
{
    check_bgrx_geometry(width, height, stride, pixels, out_w, out_h)?;
    let ghost f = picture(width, height, stride, pixels@);
    let mut out: Vec<u8> = Vec::new();
    write_luma(&mut out, width, height, stride, pixels, out_w, out_h);
    let ghost luma = f.luma_rows(out_h as nat, out_w as nat);
    assert(out@ =~= luma);
    let uv_w: u16 = out_w / 2;
    let uv_h: u16 = out_h / 2;
    let mut row: u16 = 0;
    assert(out@ =~= luma + f.uv_rows(0, uv_w as nat));
    while row < uv_h
        invariant
            row <= uv_h,
            uv_h < 0x8000,
            uv_w < 0x8000,
            f == picture(width, height, stride, pixels@),
            f.needed() <= pixels@.len(),
            out@ == luma + f.uv_rows(row as nat, uv_w as nat),
        decreases uv_h - row,
    {
        let ghost had = out@;
        let mut col: u16 = 0;
        assert(out@ =~= had + f.uv_row(row as int, 0));
        while col < uv_w
            invariant
                col <= uv_w,
                row < uv_h < 0x8000,
                uv_w < 0x8000,
                f == picture(width, height, stride, pixels@),
                f.needed() <= pixels@.len(),
                out@ == had + f.uv_row(row as int, col as nat),
            decreases uv_w - col,
        {
            let (u, v): (u8, u8) = block_colour(width, height, stride, pixels, row, col);
            proof {
                lemma_uv_row_grows(f, row as int, col as nat);
            }
            out.push(u);
            out.push(v);
            assert(out@ =~= had + f.uv_row(row as int, col as nat).push(u).push(v));
            col = col + 1;
        }
        row = row + 1;
        assert(out@ =~= luma + f.uv_rows(row as nat, uv_w as nat));
    }
    assert(out@ =~= f.nv12(out_w as nat, out_h as nat));
    Ok(out)
}

proof fn lemma_rows_len(f: Picture, n: nat, w: nat)
    ensures
        f.luma_rows(n, w).len() == n * w,
        f.u_rows(n, w).len() == n * w,
        f.v_rows(n, w).len() == n * w,
        f.uv_rows(n, w).len() == n * (2 * w),
    decreases n,
{
    if n == 0 {
        assert(0 * w == 0 && 0 * (2 * w) == 0) by (nonlinear_arith);
    } else {
        lemma_rows_len(f, (n - 1) as nat, w);
        assert(n * w == (n - 1) * w + w) by (nonlinear_arith)
            requires
                n >= 1,
        ;
        assert(n * (2 * w) == (n - 1) * (2 * w) + 2 * w) by (nonlinear_arith)
            requires
                n >= 1,
        ;
    }
}

proof fn lemma_luma_at(f: Picture, n: nat, w: nat, row: int, col: int)
    requires
        0 <= row < n,
        0 <= col < w,
    ensures
        f.luma_rows(n, w)[row * w + col] == f.luma(row, col),
    decreases n,
{
    let m = (n - 1) as nat;
    lemma_rows_len(f, m, w);
    lemma_cell(n, w, row, col);
    let before = f.luma_rows(m, w);
    let last = f.luma_row(m as int, w);
    assert(f.luma_rows(n, w) == before + last);
    if row < m {
        lemma_cell(m, w, row, col);
        lemma_luma_at(f, m, w, row, col);
        assert((before + last)[row * w + col] == before[row * w + col]);
    } else {
        assert((before + last)[row * w + col] == last[col]);
    }
}

proof fn lemma_u_at(f: Picture, n: nat, w: nat, row: int, col: int)
    requires
        0 <= row < n,
        0 <= col < w,
    ensures
        f.u_rows(n, w)[row * w + col] == f.chroma(row, col).0,
    decreases n,
{
    let m = (n - 1) as nat;
    lemma_rows_len(f, m, w);
    lemma_cell(n, w, row, col);
    let before = f.u_rows(m, w);
    let last = f.u_row(m as int, w);
    assert(f.u_rows(n, w) == before + last);
    if row < m {
        lemma_cell(m, w, row, col);
        lemma_u_at(f, m, w, row, col);
        assert((before + last)[row * w + col] == before[row * w + col]);
    } else {
        assert((before + last)[row * w + col] == last[col]);
    }
}

proof fn lemma_v_at(f: Picture, n: nat, w: nat, row: int, col: int)
    requires
        0 <= row < n,
        0 <= col < w,
    ensures
        f.v_rows(n, w)[row * w + col] == f.chroma(row, col).1,
    decreases n,
{
    let m = (n - 1) as nat;
    lemma_rows_len(f, m, w);
    lemma_cell(n, w, row, col);
    let before = f.v_rows(m, w);
    let last = f.v_row(m as int, w);
    assert(f.v_rows(n, w) == before + last);
    if row < m {
        lemma_cell(m, w, row, col);
        lemma_v_at(f, m, w, row, col);
        assert((before + last)[row * w + col] == before[row * w + col]);
    } else {
        assert((before + last)[row * w + col] == last[col]);
    }
}

proof fn lemma_uv_at(f: Picture, n: nat, w: nat, row: int, col: int)
    requires
        0 <= row < n,
        0 <= col < w,
    ensures
        f.uv_rows(n, w)[row * (2 * w) + 2 * col] == f.chroma(row, col).0,
        f.uv_rows(n, w)[row * (2 * w) + 2 * col + 1] == f.chroma(row, col).1,
    decreases n,
{
    let m = (n - 1) as nat;
    let p = row * (2 * w) + 2 * col;
    lemma_rows_len(f, m, w);
    lemma_cell(n, 2 * w, row, 2 * col);
    let before = f.uv_rows(m, w);
    let last = f.uv_row(m as int, w);
    assert(f.uv_rows(n, w) == before + last);
    if row < m {
        lemma_cell(m, 2 * w, row, 2 * col);
        lemma_uv_at(f, m, w, row, col);
        assert((before + last)[p] == before[p]);
        assert((before + last)[p + 1] == before[p + 1]);
    } else {
        assert((before + last)[p] == last[2 * col]);
        assert((before + last)[p + 1] == last[2 * col + 1]);
        assert((2 * col) / 2 == col && (2 * col + 1) / 2 == col);
    }
}

/// A cell of a grid that is stored row by row has its place in it.
proof fn lemma_cell(n: nat, w: nat, row: int, col: int)
    requires
        0 <= row < n,
        0 <= col < w,
    ensures
        0 <= row * w,
        row * w + w <= n * w,
{
    assert(0 <= row * w && row * w + w <= n * w) by (nonlinear_arith)
        requires
            0 <= row < n,
    ;
}

/// How many bytes the planes of a size have, however they are arranged.
pub proof fn law_plane_sizes(f: Picture, out_w: nat, out_h: nat)
    ensures
        f.luma_rows(out_h, out_w).len() == out_h * out_w,
        f.u_rows(out_h / 2, out_w / 2).len() == (out_h / 2) * (out_w / 2),
        f.v_rows(out_h / 2, out_w / 2).len() == (out_h / 2) * (out_w / 2),
        f.i420(out_w, out_h).len() == out_h * out_w + 2 * ((out_h / 2) * (out_w / 2)),
        f.nv12(out_w, out_h).len() == f.i420(out_w, out_h).len(),
{
    lemma_rows_len(f, out_h, out_w);
    lemma_rows_len(f, out_h / 2, out_w / 2);
    assert((out_h / 2) * (2 * (out_w / 2)) == 2 * ((out_h / 2) * (out_w / 2))) by (nonlinear_arith);
}

/// In planes of a size, a pixel stands where its row and column say, and what
/// lies outside the picture is zero.
pub proof fn law_planes(f: Picture, out_w: nat, out_h: nat, row: int, col: int)
    requires
        out_w % 2 == 0,
        out_h % 2 == 0,
        0 <= row < out_h,
        0 <= col < out_w,
    ensures
        0 <= row * out_w + col < f.i420(out_w, out_h).len(),
        f.i420(out_w, out_h)[row * out_w + col] == f.luma(row, col),
        f.nv12(out_w, out_h)[row * out_w + col] == f.luma(row, col),
        row >= f.height || col >= f.width ==> f.i420(out_w, out_h)[row * out_w + col] == 0,
{
    reveal(Picture::luma);
    lemma_rows_len(f, out_h, out_w);
    lemma_cell(out_h, out_w, row, col);
    lemma_luma_at(f, out_h, out_w, row, col);
}

/// Both arrangements of the planes hold the same colours: what one has in two
/// planes the other has in turn.
pub proof fn law_same_colours(f: Picture, out_w: nat, out_h: nat, row: int, col: int)
    requires
        out_w % 2 == 0,
        out_h % 2 == 0,
        0 <= row < out_h / 2,
        0 <= col < out_w / 2,
    ensures
        ({
            let uv_w = out_w / 2;
            let y = out_h * out_w;
            let n = (out_h / 2) * uv_w;
            &&& f.i420(out_w, out_h)[y + row * uv_w + col] == f.nv12(out_w, out_h)[y + row * (2
                * uv_w) + 2 * col]
            &&& f.i420(out_w, out_h)[y + n + row * uv_w + col] == f.nv12(out_w, out_h)[y + row * (2
                * uv_w) + 2 * col + 1]
        }),
{
    lemma_rows_len(f, out_h, out_w);
    lemma_rows_len(f, out_h / 2, out_w / 2);
    lemma_cell(out_h / 2, out_w / 2, row, col);
    lemma_cell(out_h / 2, 2 * (out_w / 2), row, 2 * col);
    lemma_u_at(f, out_h / 2, out_w / 2, row, col);
    lemma_v_at(f, out_h / 2, out_w / 2, row, col);
    lemma_uv_at(f, out_h / 2, out_w / 2, row, col);
}

/// Gives the same few bytes for every picture, with its number: for whoever
/// wants to see what happens to them.
#[derive(Debug, Default)]
pub struct MockH264Encoder {
    pub frames: u32,
}

impl H264Encoder for MockH264Encoder {
    fn encode_bgrx(
        &mut self,
        width: u16,
        height: u16,
        stride: usize,
        pixels: &[u8],
        force_idr: bool,
    ) -> (r: Result<EncodedAu, EncoderError>)
        ensures
            final(self).frames == bytes::low32(old(self).frames + 1),
            r is Ok,
            r->Ok_0.qp == 22,
            r->Ok_0.annex_b@ == seq![
                0u8,
                0,
                0,
                1,
                if force_idr {
                    0x65
                } else {
                    0x41
                },
            ] + bytes::le32(final(self).frames),
    {
        self.frames = self.frames.wrapping_add(1);
        let mut annex_b: Vec<u8> = Vec::new();
        annex_b.push(0);
        annex_b.push(0);
        annex_b.push(0);
        annex_b.push(1);
        annex_b.push(
            if force_idr {
                0x65
            } else {
                0x41
            },
        );
        annex_b.write_u32_le(self.frames);
        assert(annex_b@ =~= seq![
            0u8,
            0,
            0,
            1,
            if force_idr {
                0x65
            } else {
                0x41
            },
        ] + bytes::le32(self.frames));
        Ok(EncodedAu { annex_b, qp: 22 })
    }

    fn reset(&mut self)
        ensures
            *final(self) == *old(self),
    {
    }
}

/// Whether a picture can fill planes of a size depends on three things: the size
/// is even both ways, the picture is not larger, and all its rows are there.
pub proof fn law_geometry(
    width: u16,
    height: u16,
    stride: usize,
    pixels: &[u8],
    out_w: u16,
    out_h: u16,
    r: Result<(), String>,
)
    requires
        call_ensures(check_bgrx_geometry, (width, height, stride, pixels, out_w, out_h), r),
    ensures
        r is Ok <==> out_w % 2 == 0 && out_h % 2 == 0 && width <= out_w && height <= out_h
            && pixels@.len() >= (if height > 0 {
            height - 1
        } else {
            0
        }) * stride + 4 * width,
{
}

/// The brightness of a pixel follows BT.601: 66 parts of red, 129 of green and 25
/// of blue, of 256, with black at 16. In a row the bytes of a pixel are blue, green,
/// red, and one that does not count. Outside the picture there is zero.
pub proof fn law_luma(
    width: u16,
    height: u16,
    stride: usize,
    pixels: &[u8],
    out_w: u16,
    out_h: u16,
    i420: Result<Vec<u8>, String>,
    nv12: Result<Vec<u8>, String>,
    row: int,
    col: int,
)
    requires
        call_ensures(bgrx_to_i420, (width, height, stride, pixels, out_w, out_h), i420),
        call_ensures(bgrx_to_nv12, (width, height, stride, pixels, out_w, out_h), nv12),
        i420 is Ok,
        0 <= row < out_h,
        0 <= col < out_w,
    ensures
        nv12 is Ok,
        i420->Ok_0@.len() == out_w * out_h + 2 * ((out_w / 2) * (out_h / 2)),
        nv12->Ok_0@.len() == i420->Ok_0@.len(),
        ({
            let y = i420->Ok_0@[row * out_w + col];
            let o = row * stride + 4 * col;
            if row < height && col < width {
                y == (66 * pixels@[o + 2] + 129 * pixels@[o + 1] + 25 * pixels@[o] + 128) / 256 + 16
            } else {
                y == 0
            }
        }),
        nv12->Ok_0@[row * out_w + col] == i420->Ok_0@[row * out_w + col],
{
    let f = picture(width, height, stride, pixels@);
    law_plane_sizes(f, out_w as nat, out_h as nat);
    law_planes(f, out_w as nat, out_h as nat, row, col);
    reveal(Picture::luma);
    assert(out_w * out_h + 2 * ((out_w / 2) * (out_h / 2)) == out_h as nat * out_w as nat + 2 * ((
    out_h as nat / 2) * (out_w as nat / 2))) by (nonlinear_arith);
}

/// The colour of a block of two by two pixels follows BT.601 on the means of its
/// red, green and blue, rounded down; at the right and at the bottom edge the last
/// pixel counts for the one that is not there. Blocks stand row by row: first in
/// the one plane and then in the other, or in one plane in turn.
#[verifier::rlimit(40)]
pub proof fn law_chroma(
    width: u16,
    height: u16,
    stride: usize,
    pixels: &[u8],
    out_w: u16,
    out_h: u16,
    i420: Result<Vec<u8>, String>,
    nv12: Result<Vec<u8>, String>,
    row: int,
    col: int,
)
    requires
        call_ensures(bgrx_to_i420, (width, height, stride, pixels, out_w, out_h), i420),
        call_ensures(bgrx_to_nv12, (width, height, stride, pixels, out_w, out_h), nv12),
        i420 is Ok,
        0 <= row < out_h / 2,
        0 <= col < out_w / 2,
    ensures
        nv12 is Ok,
        ({
            let uv_w = out_w / 2;
            let y = out_h * out_w;
            let n = (out_h / 2) * uv_w;
            let u = i420->Ok_0@[y + row * uv_w + col];
            let v = i420->Ok_0@[y + n + row * uv_w + col];
            let right = if 2 * col + 1 < width {
                4int
            } else {
                0
            };
            let down = if 2 * row + 1 < height {
                stride as int
            } else {
                0
            };
            let o = 2 * row * stride + 8 * col;
            let mean = |i: int|
                (pixels@[o + i] + pixels@[o + right + i] + pixels@[o + down + i] + pixels@[o + down
                    + right + i]) / 4;
            let r = mean(2);
            let g = mean(1);
            let b = mean(0);
            let u_exact = (-38 * r - 74 * g + 112 * b + 128) / 256 + 128;
            let v_exact = (112 * r - 94 * g - 18 * b + 128) / 256 + 128;
            &&& if 2 * row < height && 2 * col < width {
                &&& u == u_exact
                &&& v == v_exact
            } else {
                &&& u == 0
                &&& v == 0
            }
            &&& nv12->Ok_0@[y + row * (2 * uv_w) + 2 * col] == u
            &&& nv12->Ok_0@[y + row * (2 * uv_w) + 2 * col + 1] == v
        }),
{
    let f = picture(width, height, stride, pixels@);
    let ow = out_w as nat;
    let oh = out_h as nat;
    law_plane_sizes(f, ow, oh);
    law_same_colours(f, ow, oh, row, col);
    lemma_rows_len(f, oh, ow);
    lemma_rows_len(f, oh / 2, ow / 2);
    lemma_cell(oh / 2, ow / 2, row, col);
    lemma_u_at(f, oh / 2, ow / 2, row, col);
    lemma_v_at(f, oh / 2, ow / 2, row, col);
    reveal(Picture::chroma);
    let right = if 2 * col + 1 < width {
        4int
    } else {
        0
    };
    let down = if 2 * row + 1 < height {
        stride as int
    } else {
        0
    };
    let o = 2 * row * stride + 8 * col;
    assert((2 * row + 1) * stride == 2 * row * stride + stride) by (nonlinear_arith);
    if 2 * row < height && 2 * col < width {
        let c = f.block_rgb(row, col);
        let r = c.0;
        let g = c.1;
        let b = c.2;
        assert(r == (pixels@[o + 2] + pixels@[o + right + 2] + pixels@[o + down + 2] + pixels@[o
            + down + right + 2]) / 4);
        assert(g == (pixels@[o + 1] + pixels@[o + right + 1] + pixels@[o + down + 1] + pixels@[o
            + down + right + 1]) / 4);
        assert(b == (pixels@[o + 0] + pixels@[o + right + 0] + pixels@[o + down + 0] + pixels@[o
            + down + right + 0]) / 4);
        assert(0 <= (-38 * r - 74 * g + 112 * b + 128) / 256 + 128 <= 255);
        assert(0 <= (112 * r - 94 * g - 18 * b + 128) / 256 + 128 <= 255);
    }
}

/// Sizes for an encoder are whole blocks of sixteen, one at least, and no more
/// than needed, as long as there is room.
pub proof fn law_coded_length(v: u16, aligned16: u16, coded: u16)
    requires
        call_ensures(align16, (v,), aligned16),
        call_ensures(coded_length, (v,), coded),
    ensures
        aligned16 % 16 == 0,
        v <= 65520 ==> v <= aligned16 < v + 16,
        v > 65520 ==> aligned16 == 65520,
        coded == (if v == 0 {
            16
        } else {
            aligned16
        }),
{
}

} // verus!
