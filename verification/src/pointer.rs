//! Fast-path pointer updates.

use vstd::prelude::*;

use crate::bytes;
use crate::cursor::WriteBuf;
use crate::fastpath;
use crate::fastpath::{FastPathOutput, FastPathUpdatePdu, FastPathUpdateView, Fragmentation};
use crate::DecodeError;

verus! {

broadcast use bytes::group_bytes;

pub const UPDATE_CODE_PTR_NULL: u8 = 0x5;

pub const UPDATE_CODE_PTR_DEFAULT: u8 = 0x6;

pub const UPDATE_CODE_PTR_POSITION: u8 = 0x8;

pub const UPDATE_CODE_COLOR: u8 = 0x9;

pub const UPDATE_CODE_CACHED: u8 = 0xA;

/// One update in one piece.
pub open spec fn update(update_code: u8, data: Seq<u8>) -> FastPathUpdateView {
    FastPathUpdateView { update_code, fragmentation: Fragmentation::Single, data }
}

/// The message with that update alone.
pub open spec fn update_wire(update_code: u8, data: Seq<u8>) -> Seq<u8> {
    fastpath::output_wire(seq![update(update_code, data)])
}

proof fn lemma_one_update(u: FastPathUpdateView)
    ensures
        fastpath::updates_wire(seq![u]) == u.wire(),
{
    reveal_with_fuel(fastpath::updates_wire, 2);
    assert(seq![u].drop_last() =~= seq![]);
    assert(fastpath::updates_wire(seq![u]) =~= u.wire());
}

fn single_update(update_code: u8, data: Vec<u8>) -> (out: Vec<u8>)
    requires
        data@.len() <= usize::MAX - 6,
    ensures
        out@ == update_wire(update_code, data@),
{
    let ghost u = update(update_code, data@);
    proof {
        lemma_one_update(u);
    }
    let mut updates: Vec<FastPathUpdatePdu> = Vec::new();
    updates.push(FastPathUpdatePdu { update_code, fragmentation: Fragmentation::Single, data });
    let output = FastPathOutput { updates };
    assert(output@ =~= seq![u]);
    output.encode()
}

/// Every update that fits into one message is the one that a reader finds in
/// it.
pub proof fn law_update_round_trip(update_code: u8, data: Seq<u8>)
    requires
        update_code < 16,
        data.len() <= 0x7FF9,
    ensures
        fastpath::parse_output(update_wire(update_code, data)) == Ok::<
            Seq<FastPathUpdateView>,
            DecodeError,
        >(seq![update(update_code, data)]),
{
    let u = update(update_code, data);
    lemma_one_update(u);
    fastpath::law_output_round_trip(seq![u], seq![]);
    assert(update_wire(update_code, data) + Seq::<u8>::empty() =~= update_wire(update_code, data));
}

/// Shows the default pointer.
pub fn encode_ptr_default() -> (out: Vec<u8>)
    ensures
        out@ == update_wire(UPDATE_CODE_PTR_DEFAULT, seq![]),
{
    let data: Vec<u8> = Vec::new();
    assert(data@ =~= seq![]);
    single_update(UPDATE_CODE_PTR_DEFAULT, data)
}

/// Hides the pointer.
pub fn encode_ptr_null() -> (out: Vec<u8>)
    ensures
        out@ == update_wire(UPDATE_CODE_PTR_NULL, seq![]),
{
    let data: Vec<u8> = Vec::new();
    assert(data@ =~= seq![]);
    single_update(UPDATE_CODE_PTR_NULL, data)
}

/// Moves the pointer.
pub fn encode_ptr_position(x: u16, y: u16) -> (out: Vec<u8>)
    ensures
        out@ == update_wire(UPDATE_CODE_PTR_POSITION, bytes::le16(x) + bytes::le16(y)),
{
    let mut data: Vec<u8> = Vec::new();
    data.write_u16_le(x);
    data.write_u16_le(y);
    assert(data@ =~= bytes::le16(x) + bytes::le16(y));
    single_update(UPDATE_CODE_PTR_POSITION, data)
}

/// Shows a pointer that was sent before.
pub fn encode_cached_pointer(cache_index: u16) -> (out: Vec<u8>)
    ensures
        out@ == update_wire(UPDATE_CODE_CACHED, bytes::le16(cache_index)),
{
    let mut data: Vec<u8> = Vec::new();
    data.write_u16_le(cache_index);
    assert(data@ =~= bytes::le16(cache_index));
    single_update(UPDATE_CODE_CACHED, data)
}

pub open spec fn color_pointer(
    cache_index: u16,
    hot_x: u16,
    hot_y: u16,
    width: u16,
    height: u16,
    xor: Seq<u8>,
    and_mask: Seq<u8>,
) -> Seq<u8> {
    bytes::le16(cache_index) + bytes::le16(hot_x) + bytes::le16(hot_y) + bytes::le16(width)
        + bytes::le16(height) + bytes::le16(bytes::low16(and_mask.len() as int)) + bytes::le16(
        bytes::low16(xor.len() as int),
    ) + xor + and_mask
}

/// Shows and caches a pointer of 24 bits per pixel: its colors, from the bottom
/// row up, and one bit per pixel that says where the screen shows through.
pub fn encode_color_pointer(
    cache_index: u16,
    hot_x: u16,
    hot_y: u16,
    width: u16,
    height: u16,
    xor_bgr_bottom_up: &[u8],
    and_mask: &[u8],
) -> (out: Vec<u8>)
    requires
        xor_bgr_bottom_up@.len() + and_mask@.len() <= usize::MAX - 20,
    ensures
        out@ == update_wire(
            UPDATE_CODE_COLOR,
            color_pointer(
                cache_index,
                hot_x,
                hot_y,
                width,
                height,
                xor_bgr_bottom_up@,
                and_mask@,
            ),
        ),
{
    let mut data: Vec<u8> = Vec::new();
    data.write_u16_le(cache_index);
    data.write_u16_le(hot_x);
    data.write_u16_le(hot_y);
    data.write_u16_le(width);
    data.write_u16_le(height);
    data.write_u16_le(bytes::len16(and_mask.len()));
    data.write_u16_le(bytes::len16(xor_bgr_bottom_up.len()));
    data.write_slice(xor_bgr_bottom_up);
    data.write_slice(and_mask);
    assert(data@ =~= color_pointer(
        cache_index,
        hot_x,
        hot_y,
        width,
        height,
        xor_bgr_bottom_up@,
        and_mask@,
    ));
    single_update(UPDATE_CODE_COLOR, data)
}

/// The rows of an arrow from the top down, one bit per pixel, the leftmost pixel
/// in the highest bit.
pub open spec fn arrow_rows() -> Seq<u16> {
    seq![
        0b1000_0000_0000_0000u16,
        0b1100_0000_0000_0000,
        0b1110_0000_0000_0000,
        0b1111_0000_0000_0000,
        0b1111_1000_0000_0000,
        0b1111_1100_0000_0000,
        0b1111_1110_0000_0000,
        0b1111_1111_0000_0000,
        0b1111_1111_1000_0000,
        0b1111_1100_0000_0000,
        0b1101_1000_0000_0000,
        0b1000_1100_0000_0000,
        0b0000_0110_0000_0000,
        0b0000_0110_0000_0000,
        0b0000_0011_0000_0000,
        0b0000_0000_0000_0000,
    ]
}

/// The value of the bit for column `x`.
pub open spec fn column_weight(x: int) -> int
    decreases x,
{
    if x <= 0 {
        0x8000
    } else {
        column_weight(x - 1) / 2
    }
}

/// Whether the pixel in column `x` of row `y` belongs to the arrow.
pub open spec fn in_arrow(x: int, y: int) -> bool {
    arrow_rows()[y] as int / column_weight(x) % 2 == 1
}

/// The colors of the arrow, row by row from the bottom up: black in it, white
/// around it.
pub open spec fn arrow_colors() -> Seq<u8> {
    Seq::new(
        768,
        |i: int|
            if in_arrow(i / 3 % 16, 15 - i / 48) {
                0x00u8
            } else {
                0xFF
            },
    )
}

/// The mask of the arrow, row by row from the bottom up: the bits of the arrow
/// are clear, all others set.
pub open spec fn arrow_mask() -> Seq<u8> {
    Seq::new(
        32,
        |i: int|
            (0xFF - (if i % 2 == 0 {
                arrow_rows()[15 - i / 2] / 0x100
            } else {
                arrow_rows()[15 - i / 2] % 0x100
            })) as u8,
    )
}

proof fn lemma_column_weight(x: int)
    requires
        0 <= x < 16,
    ensures
        column_weight(x) >= 1,
        column_weight(x) <= 0x8000,
{
    reveal_with_fuel(column_weight, 17);
}

/// An arrow of 16 by 16 pixels, with its hot spot at the tip.
pub fn encode_default_arrow_pointer(cache_index: u16) -> (out: Vec<u8>)
    ensures
        out@ == update_wire(
            UPDATE_CODE_COLOR,
            color_pointer(cache_index, 0, 0, 16, 16, arrow_colors(), arrow_mask()),
        ),
{
    let shape: [u16; 16] = [
        0b1000_0000_0000_0000u16,
        0b1100_0000_0000_0000,
        0b1110_0000_0000_0000,
        0b1111_0000_0000_0000,
        0b1111_1000_0000_0000,
        0b1111_1100_0000_0000,
        0b1111_1110_0000_0000,
        0b1111_1111_0000_0000,
        0b1111_1111_1000_0000,
        0b1111_1100_0000_0000,
        0b1101_1000_0000_0000,
        0b1000_1100_0000_0000,
        0b0000_0110_0000_0000,
        0b0000_0110_0000_0000,
        0b0000_0011_0000_0000,
        0b0000_0000_0000_0000,
    ];
    assert(shape@ =~= arrow_rows());
    let mut xor: Vec<u8> = Vec::new();
    let mut and_mask: Vec<u8> = Vec::new();
    let mut row: usize = 0;
    while row < 16
        invariant
            row <= 16,
            shape@ == arrow_rows(),
            xor@.len() == 48 * row,
            and_mask@.len() == 2 * row,
            forall|i: int| 0 <= i < xor@.len() ==> xor@[i] == arrow_colors()[i],
            forall|i: int| 0 <= i < and_mask@.len() ==> and_mask@[i] == arrow_mask()[i],
        decreases 16 - row,
    {
        let bits: u16 = shape[15 - row];
        let mut weight: u16 = 0x8000;
        let mut x: usize = 0;
        while x < 16
            invariant
                x <= 16,
                row < 16,
                bits == arrow_rows()[15 - row],
                weight == column_weight(x as int),
                xor@.len() == 48 * row + 3 * x,
                forall|i: int| 0 <= i < xor@.len() ==> xor@[i] == arrow_colors()[i],
            decreases 16 - x,
        {
            proof {
                lemma_column_weight(x as int);
            }
            let level: u8 = if bits / weight % 2 == 1 {
                0x00
            } else {
                0xFF
            };
            let ghost had = xor@;
            xor.push(level);
            xor.push(level);
            xor.push(level);
            assert forall|i: int| 0 <= i < xor@.len() implies xor@[i] == arrow_colors()[i] by {
                if i >= had.len() {
                    assert(i / 3 % 16 == x && i / 48 == row);
                } else {
                    assert(xor@[i] == had[i]);
                }
            }
            weight = weight / 2;
            x = x + 1;
        }
        let ghost masked = and_mask@;
        and_mask.push((0xFF - bits / 0x100) as u8);
        and_mask.push((0xFF - bits % 0x100) as u8);
        assert forall|i: int| 0 <= i < and_mask@.len() implies and_mask@[i] == arrow_mask()[i] by {
            if i < masked.len() {
                assert(and_mask@[i] == masked[i]);
            }
        }
        row = row + 1;
    }
    assert(xor@ =~= arrow_colors());
    assert(and_mask@ =~= arrow_mask());
    encode_color_pointer(cache_index, 0, 0, 16, 16, xor.as_slice(), and_mask.as_slice())
}

proof fn lemma_update_message(code: u8, data: Seq<u8>)
    requires
        code < 16,
        data.len() < 32000,
    ensures
        ({
            let b = update_wire(code, data);
            let n: int = if data.len() + 5 < 128 {
                2
            } else {
                3
            };
            &&& b.len() == n + 3 + data.len()
            &&& b[0] == 0
            &&& n == 2 ==> b[1] == b.len()
            &&& n == 3 ==> b[1] == 128 + b.len() / 256 && b[2] == b.len() % 256
            &&& b[n] == code
            &&& b[n + 1] + 256 * b[n + 2] == data.len()
            &&& b.skip(n + 3) == data
        }),
{
    let u = update(code, data);
    lemma_one_update(u);
    let b = update_wire(code, data);
    let w = u.wire();
    fastpath::law_update_bytes(u, seq![0u8], 0);
    crate::per::law_length_bytes(b, 1, fastpath::output_length(seq![u]) as usize);
    let n: int = if data.len() + 5 < 128 {
        2
    } else {
        3
    };
    assert(b.skip(n) =~= w);
    assert(forall|i: int| 0 <= i < w.len() ==> b[n + i] == #[trigger] w[i]);
    assert(b[n] == w[0] && b[n + 1] == w[1] && b[n + 2] == w[2]);
    assert(b.skip(n + 3) =~= w.skip(3));
}

/// The short pointer messages, byte for byte: a message of its length with one update of
/// its kind, 6 for the default pointer, 5 for none, 8 for a place, and 10 for a pointer
/// that was sent before.
pub proof fn law_short_updates(
    shown: Vec<u8>,
    hidden: Vec<u8>,
    x: u16,
    y: u16,
    moved: Vec<u8>,
    cache_index: u16,
    cached: Vec<u8>,
)
    requires
        call_ensures(encode_ptr_default, (), shown),
        call_ensures(encode_ptr_null, (), hidden),
        call_ensures(encode_ptr_position, (x, y), moved),
        call_ensures(encode_cached_pointer, (cache_index,), cached),
    ensures
        shown@ == seq![0u8, 5, 6, 0, 0],
        hidden@ == seq![0u8, 5, 5, 0, 0],
        moved@.len() == 9,
        moved@.subrange(0, 5) == seq![0u8, 9, 8, 4, 0],
        moved@[5] + 256 * moved@[6] == x,
        moved@[7] + 256 * moved@[8] == y,
        cached@.len() == 7,
        cached@.subrange(0, 5) == seq![0u8, 7, 10, 2, 0],
        cached@[5] + 256 * cached@[6] == cache_index,
{
    reveal(bytes::le16);
    let place = bytes::le16(x) + bytes::le16(y);
    let known = bytes::le16(cache_index);
    lemma_update_message(6, seq![]);
    lemma_update_message(5, seq![]);
    lemma_update_message(8, place);
    lemma_update_message(10, known);
    assert(shown@ =~= seq![0u8, 5, 6, 0, 0]);
    assert(hidden@ =~= seq![0u8, 5, 5, 0, 0]);
    assert(moved@.subrange(0, 5) =~= seq![0u8, 9, 8, 4, 0]);
    assert(cached@.subrange(0, 5) =~= seq![0u8, 7, 10, 2, 0]);
    assert(forall|i: int| 0 <= i < 4 ==> moved@[5 + i] == #[trigger] place[i]);
    assert(moved@[5] == place[0] && moved@[6] == place[1] && moved@[7] == place[2] && moved@[8]
        == place[3]);
    assert(forall|i: int| 0 <= i < 2 ==> cached@[5 + i] == #[trigger] known[i]);
    assert(cached@[5] == known[0] && cached@[6] == known[1]);
}

proof fn lemma_color_pointer(
    cache_index: u16,
    hot_x: u16,
    hot_y: u16,
    width: u16,
    height: u16,
    xor: Seq<u8>,
    and_mask: Seq<u8>,
)
    requires
        xor.len() + and_mask.len() < 30000,
    ensures
        ({
            let d = color_pointer(cache_index, hot_x, hot_y, width, height, xor, and_mask);
            &&& d.len() == 14 + xor.len() + and_mask.len()
            &&& d[0] + 256 * d[1] == cache_index
            &&& d[2] + 256 * d[3] == hot_x
            &&& d[4] + 256 * d[5] == hot_y
            &&& d[6] + 256 * d[7] == width
            &&& d[8] + 256 * d[9] == height
            &&& d[10] + 256 * d[11] == and_mask.len()
            &&& d[12] + 256 * d[13] == xor.len()
            &&& d.skip(14) == xor + and_mask
        }),
{
    reveal(bytes::le16);
    let d = color_pointer(cache_index, hot_x, hot_y, width, height, xor, and_mask);
    assert(d.skip(14) =~= xor + and_mask);
}

/// A pointer in colors, byte for byte: the kind 9, the place in the cache, the hot spot,
/// the size, the lengths of the mask and of the colors, the colors, and the mask.
pub proof fn law_color_bytes(
    cache_index: u16,
    hot_x: u16,
    hot_y: u16,
    width: u16,
    height: u16,
    xor: &[u8],
    and_mask: &[u8],
    out: Vec<u8>,
)
    requires
        call_ensures(
            encode_color_pointer,
            (cache_index, hot_x, hot_y, width, height, xor, and_mask),
            out,
        ),
        xor@.len() + and_mask@.len() < 30000,
    ensures
        ({
            let n: int = if out@.len() < 128 {
                2
            } else {
                3
            };
            let b = out@.skip(n);
            &&& out@[0] == 0
            &&& b[0] == 9
            &&& b[1] + 256 * b[2] == 14 + xor@.len() + and_mask@.len()
            &&& b[3] + 256 * b[4] == cache_index
            &&& b[5] + 256 * b[6] == hot_x
            &&& b[7] + 256 * b[8] == hot_y
            &&& b[9] + 256 * b[10] == width
            &&& b[11] + 256 * b[12] == height
            &&& b[13] + 256 * b[14] == and_mask@.len()
            &&& b[15] + 256 * b[16] == xor@.len()
            &&& b.skip(17) == xor@ + and_mask@
        }),
{
    let d = color_pointer(cache_index, hot_x, hot_y, width, height, xor@, and_mask@);
    lemma_color_pointer(cache_index, hot_x, hot_y, width, height, xor@, and_mask@);
    lemma_update_message(9, d);
    let n: int = if out@.len() < 128 {
        2
    } else {
        3
    };
    let b = out@.skip(n);
    assert(out@.skip(n + 3) == d);
    assert(forall|i: int| 0 <= i < d.len() ==> b[3 + i] == #[trigger] d[i]);
    assert(b[3] == d[0] && b[4] == d[1] && b[5] == d[2] && b[6] == d[3] && b[7] == d[4] && b[8]
        == d[5] && b[9] == d[6] && b[10] == d[7] && b[11] == d[8] && b[12] == d[9] && b[13] == d[10]
        && b[14] == d[11] && b[15] == d[12] && b[16] == d[13]);
    assert(b.skip(17) =~= d.skip(14));
}

proof fn lemma_weight_is_power(x: int)
    requires
        0 <= x <= 15,
    ensures
        column_weight(x) == vstd::arithmetic::power2::pow2((15 - x) as nat),
    decreases x,
{
    vstd::arithmetic::power2::lemma2_to64();
    if x > 0 {
        lemma_weight_is_power(x - 1);
        vstd::arithmetic::power2::lemma_pow2_unfold((16 - x) as nat);
    }
}

/// The arrow is a pointer of sixteen by sixteen pixels with its hot spot at the top left.
/// Its colors are 768 bytes, and its mask 32.
pub proof fn law_arrow_head(cache_index: u16, out: Vec<u8>)
    requires
        call_ensures(encode_default_arrow_pointer, (cache_index,), out),
    ensures
        out@.len() == 820,
        out@[3] == 9,
        out@[6] + 256 * out@[7] == cache_index,
        out@[8] + 256 * out@[9] == 0,
        out@[10] + 256 * out@[11] == 0,
        out@[12] + 256 * out@[13] == 16,
        out@[14] + 256 * out@[15] == 16,
        out@[16] + 256 * out@[17] == 32,
        out@[18] + 256 * out@[19] == 768,
        out@.skip(20) == arrow_colors() + arrow_mask(),
{
    let colors = arrow_colors();
    let mask = arrow_mask();
    let d = color_pointer(cache_index, 0, 0, 16, 16, colors, mask);
    lemma_color_pointer(cache_index, 0, 0, 16, 16, colors, mask);
    lemma_update_message(9, d);
    assert(out@.skip(6) == d);
    assert(forall|i: int| 0 <= i < d.len() ==> out@[6 + i] == #[trigger] d[i]);
    assert(out@[6] == d[0] && out@[7] == d[1] && out@[8] == d[2] && out@[9] == d[3] && out@[10]
        == d[4] && out@[11] == d[5] && out@[12] == d[6] && out@[13] == d[7] && out@[14] == d[8]
        && out@[15] == d[9] && out@[16] == d[10] && out@[17] == d[11] && out@[18] == d[12] && out@[19]
        == d[13]);
    assert(out@.skip(20) =~= d.skip(14));
}

/// The rows of the arrow come from the bottom up, in its colors as in its mask. A pixel of
/// the arrow is black, and its bit in the mask is clear; every other is white, and its bit
/// is set.
pub proof fn law_arrow_pixel(cache_index: u16, out: Vec<u8>, x: int, y: int, k: int)
    requires
        call_ensures(encode_default_arrow_pointer, (cache_index,), out),
        0 <= x < 16,
        0 <= y < 16,
        0 <= k < 3,
    ensures
        ({
            let row = 65535 - (256 * out@[788 + 2 * (15 - y)] + out@[789 + 2 * (15 - y)]);
            let black = row / (vstd::arithmetic::power2::pow2((15 - x) as nat) as int) % 2 == 1;
            let c = out@[20 + 48 * (15 - y) + 3 * x + k];
            &&& black ==> c == 0
            &&& !black ==> c == 255
            &&& row == seq![
                0x8000int,
                0xC000,
                0xE000,
                0xF000,
                0xF800,
                0xFC00,
                0xFE00,
                0xFF00,
                0xFF80,
                0xFC00,
                0xD800,
                0x8C00,
                0x0600,
                0x0600,
                0x0300,
                0,
            ][y]
        }),
{
    law_arrow_head(cache_index, out);
    let colors = arrow_colors();
    let mask = arrow_mask();
    let both = colors + mask;
    let p = 48 * (15 - y) + 3 * x + k;
    let q = 2 * (15 - y);
    assert(out@.skip(20)[p] == out@[20 + p]);
    assert(out@.skip(20)[768 + q] == out@[788 + q]);
    assert(out@.skip(20)[769 + q] == out@[789 + q]);
    assert(p / 3 % 16 == x && p / 48 == 15 - y);
    assert(both[p] == colors[p] && both[768 + q] == mask[q] && both[769 + q] == mask[q + 1]);
    lemma_arrow_row(y);
    lemma_weight_is_power(x);
}

proof fn lemma_arrow_row(y: int)
    requires
        0 <= y < 16,
    ensures
        ({
            let q = 2 * (15 - y);
            let row = arrow_rows()[y] as int;
            &&& arrow_mask()[q] == 255 - row / 0x100
            &&& arrow_mask()[q + 1] == 255 - row % 0x100
            &&& row == seq![
                0x8000int,
                0xC000,
                0xE000,
                0xF000,
                0xF800,
                0xFC00,
                0xFE00,
                0xFF00,
                0xFF80,
                0xFC00,
                0xD800,
                0x8C00,
                0x0600,
                0x0600,
                0x0300,
                0,
            ][y]
        }),
{
}

} // verus!
