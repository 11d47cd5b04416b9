//! Surface commands: frame markers, and bitmaps put on the surface.

use vstd::prelude::*;

use crate::bytes;
use crate::cursor::WriteBuf;

verus! {

broadcast use bytes::group_bytes;

pub const CMD_SET_SURFACE_BITS: u16 = 0x01;

pub const CMD_FRAME_MARKER: u16 = 0x0004;

pub const FRAME_ACTION_BEGIN: u16 = 0x0000;

pub const FRAME_ACTION_END: u16 = 0x0001;

pub open spec fn frame_marker_wire(frame_action: u16, frame_id: u32) -> Seq<u8> {
    bytes::le16(CMD_FRAME_MARKER) + bytes::le16(frame_action) + bytes::le32(frame_id)
}

/// A frame marker, without the header of the update that carries it.
pub fn encode_frame_marker(frame_action: u16, frame_id: u32) -> (out: Vec<u8>)
    ensures
        out@ == frame_marker_wire(frame_action, frame_id),
{
    let mut out: Vec<u8> = Vec::new();
    out.write_u16_le(CMD_FRAME_MARKER);
    out.write_u16_le(frame_action);
    out.write_u32_le(frame_id);
    assert(out@ =~= frame_marker_wire(frame_action, frame_id));
    out
}

/// A rectangle whose right and bottom edges are one past the last pixel.
#[derive(Debug, Clone, Copy, PartialEq, Eq)]
pub struct ExclusiveRectangle {
    pub left: u16,
    pub top: u16,
    pub right: u16,
    pub bottom: u16,
}

impl ExclusiveRectangle {
    pub open spec fn wire(self) -> Seq<u8> {
        bytes::le16(self.left) + bytes::le16(self.top) + bytes::le16(self.right) + bytes::le16(
            self.bottom,
        )
    }

    fn encode(&self, out: &mut Vec<u8>)
        ensures
            final(out)@ == old(out)@ + self.wire(),
    {
        let ghost before = out@;
        out.write_u16_le(self.left);
        out.write_u16_le(self.top);
        out.write_u16_le(self.right);
        out.write_u16_le(self.bottom);
        assert(out@ =~= before + self.wire());
    }
}

/// The far edge of an extent, which stays within 16 bits.
pub open spec fn far_edge(start: u16, extent: u16) -> u16 {
    if start + extent <= 0xFFFF {
        (start + extent) as u16
    } else {
        0xFFFF
    }
}

fn add_edge(start: u16, extent: u16) -> (edge: u16)
    ensures
        edge == far_edge(start, extent),
{
    if extent <= 0xFFFF - start {
        start + extent
    } else {
        0xFFFF
    }
}

/// A 32-bit bitmap for the rectangle at (`left`, `top`).
pub open spec fn set_surface_bits_wire(
    left: u16,
    top: u16,
    width: u16,
    height: u16,
    codec_id: u8,
    data: Seq<u8>,
) -> Seq<u8> {
    bytes::le16(CMD_SET_SURFACE_BITS) + ExclusiveRectangle {
        left,
        top,
        right: far_edge(left, width),
        bottom: far_edge(top, height),
    }.wire() + seq![32u8] + seq![0u8] + seq![0u8] + seq![codec_id] + bytes::le16(width)
        + bytes::le16(height) + bytes::le32(bytes::low32(data.len() as int)) + data
}

/// A bitmap command, without the header of the update that carries it.
pub fn encode_set_surface_bits(
    left: u16,
    top: u16,
    width: u16,
    height: u16,
    codec_id: u8,
    data: &[u8],
) -> (out: Vec<u8>)
    ensures
        out@ == set_surface_bits_wire(left, top, width, height, codec_id, data@),
{
    let mut out: Vec<u8> = Vec::new();
    out.write_u16_le(CMD_SET_SURFACE_BITS);
    ExclusiveRectangle {
        left,
        top,
        right: add_edge(left, width),
        bottom: add_edge(top, height),
    }.encode(&mut out);
    out.write_u8(32);  // bits per pixel
    out.write_u8(0);  // flags
    out.write_u8(0);  // reserved
    out.write_u8(codec_id);
    out.write_u16_le(width);
    out.write_u16_le(height);
    out.write_u32_le(bytes::len32(data.len()));
    out.write_slice(data);
    assert(out@ =~= set_surface_bits_wire(left, top, width, height, codec_id, data@));
    out
}

/// A frame marker is 4, whether a frame begins, 0, or ends, 1, and its number.
pub proof fn law_frame_marker_bytes(frame_action: u16, frame_id: u32, out: Vec<u8>)
    requires
        call_ensures(encode_frame_marker, (frame_action, frame_id), out),
    ensures
        out@.len() == 8,
        bytes::u16_le_at(out@, 0) == 4,
        bytes::u16_le_at(out@, 2) == frame_action,
        bytes::u32_le_at(out@, 4) == frame_id,
        FRAME_ACTION_BEGIN == 0,
        FRAME_ACTION_END == 1,
{
}

/// A bitmap command is 1, the left, top, right and bottom edges of where it goes,
/// 32 bits for each pixel, the codec, the width and the height, the length of the
/// data, and the data. The far edges are past the last pixel.
pub proof fn law_set_surface_bits_bytes(
    left: u16,
    top: u16,
    width: u16,
    height: u16,
    codec_id: u8,
    data: &[u8],
    out: Vec<u8>,
)
    requires
        call_ensures(encode_set_surface_bits, (left, top, width, height, codec_id, data), out),
    ensures
        out@.len() == 22 + data@.len(),
        bytes::u16_le_at(out@, 0) == 1,
        bytes::u16_le_at(out@, 2) == left,
        bytes::u16_le_at(out@, 4) == top,
        left + width <= 65535 ==> bytes::u16_le_at(out@, 6) == left + width,
        left + width > 65535 ==> bytes::u16_le_at(out@, 6) == 65535,
        top + height <= 65535 ==> bytes::u16_le_at(out@, 8) == top + height,
        top + height > 65535 ==> bytes::u16_le_at(out@, 8) == 65535,
        out@[10] == 32,
        out@[11] == 0,
        out@[12] == 0,
        out@[13] == codec_id,
        bytes::u16_le_at(out@, 14) == width,
        bytes::u16_le_at(out@, 16) == height,
        bytes::u32_le_at(out@, 18) == data@.len() % 4294967296,
        out@.skip(22) == data@,
{
    assert(out@.skip(22) =~= data@);
}

} // verus!
