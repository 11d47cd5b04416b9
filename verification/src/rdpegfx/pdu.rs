//! Messages of the graphics pipeline, as far as whole frames of H.264 need
//! them: a header of eight bytes and a body. What goes to a client is wrapped
//! once more; what comes from it is not.

use vstd::prelude::*;
use vstd::slice::slice_to_vec;

use crate::bytes;
use crate::cursor;
use crate::cursor::{ReadCursor, WriteBuf};
use crate::model;
use crate::DecodeError;

verus! {

broadcast use {bytes::group_bytes, model::lemma_views_push};

pub const CHANNEL_NAME: &'static str = "Microsoft::Windows::RDS::Graphics";

pub const CMD_WIRE_TO_SURFACE_1: u16 = 0x0001;

pub const CMD_CREATE_SURFACE: u16 = 0x0009;

pub const CMD_DELETE_SURFACE: u16 = 0x000a;

pub const CMD_START_FRAME: u16 = 0x000b;

pub const CMD_END_FRAME: u16 = 0x000c;

pub const CMD_FRAME_ACKNOWLEDGE: u16 = 0x000d;

pub const CMD_RESET_GRAPHICS: u16 = 0x000e;

pub const CMD_MAP_SURFACE_TO_OUTPUT: u16 = 0x000f;

pub const CMD_CACHE_IMPORT_OFFER: u16 = 0x0010;

pub const CMD_CAPS_ADVERTISE: u16 = 0x0012;

pub const CMD_CAPS_CONFIRM: u16 = 0x0013;

pub const CODEC_AVC420: u16 = 0x000b;

pub const PIXEL_FORMAT_XRGB: u8 = 0x20;

pub const CAP_VERSION_8: u32 = 0x0008_0004;

pub const CAP_VERSION_81: u32 = 0x0008_0005;

pub const CAP_VERSION_10: u32 = 0x000a_0002;

pub const CAP_VERSION_101: u32 = 0x000a_0003;

pub const CAP_VERSION_102: u32 = 0x000a_0004;

pub const CAP_VERSION_103: u32 = 0x000a_0005;

pub const CAP_VERSION_104: u32 = 0x000a_0006;

pub const CAP_VERSION_105: u32 = 0x000a_0007;

pub const CAP_VERSION_106: u32 = 0x000a_0600;

pub const CAP_VERSION_106_ERR: u32 = 0x000a_0601;

pub const CAP_VERSION_107: u32 = 0x000a_0701;

pub const CAPS_FLAG_SMALL_CACHE: u32 = 0x02;

pub const CAPS_FLAG_AVC420_ENABLED: u32 = 0x10;

pub const CAPS_FLAG_AVC_DISABLED: u32 = 0x20;

pub const SEGMENTED_SINGLE: u8 = 0xe0;

pub const PACKET_COMPR_TYPE_RDP8: u8 = 0x04;

/// How long the message is that resets the graphics, header and all.
pub const RESET_GRAPHICS_TOTAL_SIZE: usize = 340;

pub const GFX_HEADER_SIZE: usize = 8;

/// A rectangle; `right` and `bottom` lie just outside it.
#[derive(Debug, Clone, Copy, PartialEq, Eq)]
pub struct Rect16 {
    pub left: u16,
    pub top: u16,
    pub right: u16,
    pub bottom: u16,
}

impl Rect16 {
    pub open spec fn wire(self) -> Seq<u8> {
        bytes::le16(self.left) + bytes::le16(self.top) + bytes::le16(self.right) + bytes::le16(
            self.bottom,
        )
    }

    pub fn encode(&self, out: &mut Vec<u8>)
        ensures
            final(out)@ == old(out)@ + self.wire(),
    {
        let ghost before = out@;
        out.write_u16_le(self.left);
        out.write_u16_le(self.top);
        out.write_u16_le(self.right);
        out.write_u16_le(self.bottom);
        assert(out@ =~= before + self.wire());
    }
}

/// A monitor; `right` and `bottom` are the last that belong to it.
#[derive(Debug, Clone, Copy, PartialEq, Eq)]
pub struct MonitorDef {
    pub left: i32,
    pub top: i32,
    pub right: i32,
    pub bottom: i32,
    pub primary: bool,
}

impl MonitorDef {
    pub open spec fn wire(self) -> Seq<u8> {
        bytes::le32(self.left as u32) + bytes::le32(self.top as u32) + bytes::le32(
            self.right as u32,
        ) + bytes::le32(self.bottom as u32) + bytes::le32(
            if self.primary {
                1
            } else {
                0
            },
        )
    }

    pub fn encode(&self, out: &mut Vec<u8>)
        ensures
            final(out)@ == old(out)@ + self.wire(),
    {
        let ghost before = out@;
        out.write_i32_le(self.left);
        out.write_i32_le(self.top);
        out.write_i32_le(self.right);
        out.write_i32_le(self.bottom);
        out.write_u32_le(
            if self.primary {
                1
            } else {
                0
            },
        );
        assert(out@ =~= before + self.wire());
    }
}

/// What a client can do, in one version of the protocol.
#[derive(Debug, PartialEq, Eq)]
pub struct RawCapabilitySet {
    pub version: u32,
    pub data: Vec<u8>,
}

#[verifier::ext_equal]
pub struct RawCapabilitySetView {
    pub version: u32,
    pub data: Seq<u8>,
}

impl View for RawCapabilitySet {
    type V = RawCapabilitySetView;

    open spec fn view(&self) -> RawCapabilitySetView {
        RawCapabilitySetView { version: self.version, data: self.data@ }
    }
}

impl Clone for RawCapabilitySet {
    fn clone(&self) -> (r: Self)
        ensures
            r@ == self@,
    {
        Self { version: self.version, data: slice_to_vec(self.data.as_slice()) }
    }
}

impl RawCapabilitySetView {
    pub open spec fn flags(self) -> u32 {
        if self.data.len() >= 4 {
            bytes::u32_le_at(self.data, 0)
        } else {
            0
        }
    }

    /// The version says so by a flag at first, and later unless a flag says
    /// otherwise.
    pub open spec fn supports_avc420(self) -> bool {
        if self.version == CAP_VERSION_81 {
            self.flags() & CAPS_FLAG_AVC420_ENABLED != 0
        } else if is_version_10(self.version) {
            self.flags() & CAPS_FLAG_AVC_DISABLED == 0
        } else {
            false
        }
    }

    pub open spec fn wire(self) -> Seq<u8> {
        bytes::le32(self.version) + bytes::le32(bytes::low32(self.data.len() as int)) + self.data
    }
}

/// Whether a version is one of those from 10 on.
pub open spec fn is_version_10(version: u32) -> bool {
    ||| version == CAP_VERSION_10
    ||| version == CAP_VERSION_101
    ||| version == CAP_VERSION_102
    ||| version == CAP_VERSION_103
    ||| version == CAP_VERSION_104
    ||| version == CAP_VERSION_105
    ||| version == CAP_VERSION_106
    ||| version == CAP_VERSION_106_ERR
    ||| version == CAP_VERSION_107
}

/// The set at offset `p`, and where the next one starts.
pub open spec fn parse_set(b: Seq<u8>, p: int) -> Result<(RawCapabilitySetView, int), DecodeError> {
    if p + 4 > b.len() {
        Err(cursor::short(b, p, 4))
    } else if p + 8 > b.len() {
        Err(cursor::short(b, p + 4, 4))
    } else {
        let n = bytes::u32_le_at(b, p + 4) as int;
        if p + 8 + n > b.len() {
            Err(cursor::short(b, p + 8, n))
        } else {
            Ok(
                (
                    RawCapabilitySetView {
                        version: bytes::u32_le_at(b, p),
                        data: b.subrange(p + 8, p + 8 + n),
                    },
                    p + 8 + n,
                ),
            )
        }
    }
}

impl RawCapabilitySet {
    /// A set of flags and nothing else.
    pub fn flags_only(version: u32, flags: u32) -> (r: Self)
        ensures
            r@ == (RawCapabilitySetView { version, data: bytes::le32(flags) }),
    {
        let mut data: Vec<u8> = Vec::new();
        data.write_u32_le(flags);
        assert(data@ =~= bytes::le32(flags));
        Self { version, data }
    }

    pub fn flags(&self) -> (r: u32)
        ensures
            r == self@.flags(),
    {
        if self.data.len() >= 4 {
            let mut cursor = ReadCursor::new(self.data.as_slice());
            match cursor.read_u32_le() {
                Ok(flags) => flags,
                Err(_) => 0,
            }
        } else {
            0
        }
    }

    pub fn encode_body(&self, out: &mut Vec<u8>)
        ensures
            final(out)@ == old(out)@ + self@.wire(),
    {
        let ghost before = out@;
        out.write_u32_le(self.version);
        out.write_u32_le(bytes::len32(self.data.len()));
        out.write_slice(self.data.as_slice());
        assert(out@ =~= before + self@.wire());
    }

    fn decode(cursor: &mut ReadCursor<'_>) -> (r: Result<Self, DecodeError>)
        requires
            old(cursor).wf(),
        ensures
            final(cursor).wf(),
            final(cursor).data() == old(cursor).data(),
            cursor::reads_view(
                r,
                final(cursor).offset(),
                parse_set(old(cursor).data(), old(cursor).offset()),
            ),
    {
        let version: u32 = cursor.take_u32_le()?;
        let len: u32 = cursor.take_u32_le()?;
        let data: &[u8] = cursor.take_slice(len as usize)?;
        Ok(Self { version, data: slice_to_vec(data) })
    }

    /// Whether H.264 may be sent to a client with this set.
    pub fn supports_avc420(&self) -> (r: bool)
        ensures
            r == self@.supports_avc420(),
    {
        let v: u32 = self.version;
        if v == CAP_VERSION_81 {
            self.flags() & CAPS_FLAG_AVC420_ENABLED != 0
        } else if v == CAP_VERSION_10 || v == CAP_VERSION_101 || v == CAP_VERSION_102 || v
            == CAP_VERSION_103 || v == CAP_VERSION_104 || v == CAP_VERSION_105 || v
            == CAP_VERSION_106 || v == CAP_VERSION_106_ERR || v == CAP_VERSION_107 {
            self.flags() & CAPS_FLAG_AVC_DISABLED == 0
        } else {
            false
        }
    }
}

/// Which version is to be preferred: the one with the higher rank.
pub open spec fn rank(version: u32) -> u8 {
    if version == CAP_VERSION_107 {
        11
    } else if version == CAP_VERSION_106 || version == CAP_VERSION_106_ERR {
        10
    } else if version == CAP_VERSION_105 {
        9
    } else if version == CAP_VERSION_104 {
        8
    } else if version == CAP_VERSION_103 {
        7
    } else if version == CAP_VERSION_102 {
        6
    } else if version == CAP_VERSION_101 {
        5
    } else if version == CAP_VERSION_10 {
        4
    } else if version == CAP_VERSION_81 {
        3
    } else if version == CAP_VERSION_8 {
        1
    } else {
        0
    }
}

fn cap_rank(version: u32) -> (r: u8)
    ensures
        r == rank(version),
{
    match version {
        CAP_VERSION_107 => 11,
        CAP_VERSION_106 => 10,
        CAP_VERSION_106_ERR => 10,
        CAP_VERSION_105 => 9,
        CAP_VERSION_104 => 8,
        CAP_VERSION_103 => 7,
        CAP_VERSION_102 => 6,
        CAP_VERSION_101 => 5,
        CAP_VERSION_10 => 4,
        CAP_VERSION_81 => 3,
        CAP_VERSION_8 => 1,
        _ => 0,
    }
}

/// Whether the `i`th set is the one to choose: it supports H.264, none that
/// does so has a higher rank, and none after it has the same.
pub open spec fn is_best(sets: Seq<RawCapabilitySetView>, i: int) -> bool {
    &&& 0 <= i < sets.len()
    &&& sets[i].supports_avc420()
    &&& forall|j: int|
        0 <= j < sets.len() && (#[trigger] sets[j]).supports_avc420() ==> if j <= i {
            rank(sets[j].version) <= rank(sets[i].version)
        } else {
            rank(sets[j].version) < rank(sets[i].version)
        }
}

/// The set to choose, where there is one.
pub open spec fn selected(sets: Seq<RawCapabilitySetView>) -> Option<RawCapabilitySetView> {
    if exists|i: int| is_best(sets, i) {
        Some(sets[choose|i: int| is_best(sets, i)])
    } else {
        None
    }
}

/// There is one set to choose at most, and one at least wherever a set supports
/// H.264.
pub proof fn law_selected(sets: Seq<RawCapabilitySetView>, i: int)
    ensures
        is_best(sets, i) ==> selected(sets) == Some(sets[i]),
        0 <= i < sets.len() && sets[i].supports_avc420() ==> selected(sets) is Some,
        selected(sets) matches Some(set) ==> set.supports_avc420() && sets.contains(set),
{
    if is_best(sets, i) {
        let k = choose|k: int| is_best(sets, k);
        assert(sets[i].supports_avc420() && sets[k].supports_avc420());
        assert(k == i);
    }
    if 0 <= i < sets.len() && sets[i].supports_avc420() {
        lemma_best_exists(sets, sets.len() as int, i);
    }
}

proof fn lemma_best_exists(sets: Seq<RawCapabilitySetView>, n: int, i: int)
    requires
        0 <= i < n <= sets.len(),
        sets[i].supports_avc420(),
    ensures
        exists|k: int| is_best(sets.take(n), k),
        n == sets.len() ==> exists|k: int| is_best(sets, k),
    decreases n,
{
    let t = sets.take(n);
    let last = n - 1;
    assert(t.len() == n);
    if exists|m: int| 0 <= m < last && (#[trigger] sets[m]).supports_avc420() {
        let m = choose|m: int| 0 <= m < last && (#[trigger] sets[m]).supports_avc420();
        lemma_best_exists(sets, last, m);
        let h = sets.take(last);
        let k = choose|k: int| is_best(h, k);
        assert(h[k] == t[k]);
        if t[last].supports_avc420() && rank(t[last].version) >= rank(t[k].version) {
            assert forall|j: int| 0 <= j < t.len() && (#[trigger] t[j]).supports_avc420() implies
                rank(t[j].version) <= rank(t[last].version) by {
                if j < last {
                    assert(h[j] == t[j]);
                }
            }
            assert(is_best(t, last));
        } else {
            assert forall|j: int| 0 <= j < t.len() && (#[trigger] t[j]).supports_avc420() implies if j
                <= k {
                rank(t[j].version) <= rank(t[k].version)
            } else {
                rank(t[j].version) < rank(t[k].version)
            } by {
                if j < last {
                    assert(h[j] == t[j]);
                }
            }
            assert(is_best(t, k));
        }
    } else {
        assert(i == last);
        assert forall|j: int| 0 <= j < t.len() && (#[trigger] t[j]).supports_avc420() implies j
            == last by {
            assert(sets[j].supports_avc420());
        }
        assert(is_best(t, last));
    }
    if n == sets.len() {
        assert(t =~= sets);
    }
}

/// The best of the sets that support H.264, where there is one.
pub fn select_avc420_capability(sets: &[RawCapabilitySet]) -> (r: Option<RawCapabilitySet>)
    ensures
        model::opt_view(r) == selected(model::views(sets@)),
{
    let ghost all = model::views(sets@);
    let n: usize = sets.len();
    let mut best: Option<usize> = None;
    let mut i: usize = 0;
    while i < n
        invariant
            i <= n,
            n == sets@.len(),
            all == model::views(sets@),
            match best {
                Some(k) => k < i && is_best(all.take(i as int), k as int),
                None => forall|j: int| 0 <= j < i ==> !(#[trigger] all[j]).supports_avc420(),
            },
        decreases n - i,
    {
        let ghost h = all.take(i as int);
        let ghost t = all.take(i + 1);
        assert(forall|j: int| 0 <= j < i ==> h[j] == #[trigger] t[j]);
        if sets[i].supports_avc420() {
            let better: bool = match best {
                Some(k) => cap_rank(sets[i].version) >= cap_rank(sets[k].version),
                None => true,
            };
            if better {
                best = Some(i);
                assert(is_best(t, i as int)) by {
                    assert forall|j: int|
                        0 <= j < t.len() && (#[trigger] t[j]).supports_avc420() implies rank(
                        t[j].version,
                    ) <= rank(t[i as int].version) by {
                        if j < i {
                            assert(h[j] == t[j]);
                            assert(all[j].supports_avc420());
                        }
                    }
                }
            } else {
                let ghost k = best->Some_0 as int;
                assert(is_best(t, k)) by {
                    assert(h[k] == t[k]);
                }
            }
        } else {
            proof {
                if let Some(k) = best {
                    assert(h[k as int] == t[k as int]);
                    assert(is_best(t, k as int));
                }
            }
        }
        i = i + 1;
    }
    assert(all.take(n as int) =~= all);
    match best {
        Some(k) => {
            proof {
                law_selected(all, k as int);
            }
            Some(sets[k].clone())
        },
        None => {
            assert(selected(all) is None);
            None
        },
    }
}

/// A message: what it is, no flags, its length with this header, and its body.
pub open spec fn message(cmd_id: u16, body: Seq<u8>) -> Seq<u8> {
    bytes::le16(cmd_id) + bytes::le16(0) + bytes::le32(bytes::low32(8 + body.len() as int)) + body
}

/// Writes the header of a message with a body of `body_len` bytes.
pub fn write_header(out: &mut Vec<u8>, cmd_id: u16, body_len: usize)
    ensures
        final(out)@ == old(out)@ + bytes::le16(cmd_id) + bytes::le16(0) + bytes::le32(
            bytes::low32(8 + body_len as int),
        ),
{
    out.write_u16_le(cmd_id);
    out.write_u16_le(0);  // flags
    out.write_u32_le(bytes::len32_plus(body_len, 8));
}

fn encode_message(cmd_id: u16, body: Vec<u8>) -> (out: Vec<u8>)
    ensures
        out@ == message(cmd_id, body@),
{
    let mut out: Vec<u8> = Vec::new();
    write_header(&mut out, cmd_id, body.len());
    out.write_slice(body.as_slice());
    assert(out@ =~= message(cmd_id, body@));
    out
}

pub open spec fn segmented(gfx_pdus: Seq<u8>) -> Seq<u8> {
    seq![SEGMENTED_SINGLE] + seq![PACKET_COMPR_TYPE_RDP8] + gfx_pdus
}

/// Wraps messages: one segment, not compressed.
pub fn encode_segmented_single(gfx_pdus: &[u8]) -> (out: Vec<u8>)
    ensures
        out@ == segmented(gfx_pdus@),
{
    let mut out: Vec<u8> = Vec::new();
    out.write_u8(SEGMENTED_SINGLE);
    out.write_u8(PACKET_COMPR_TYPE_RDP8);
    out.write_slice(gfx_pdus);
    assert(out@ =~= segmented(gfx_pdus@));
    out
}

pub open spec fn caps_confirm_wire(cap: RawCapabilitySetView) -> Seq<u8> {
    message(CMD_CAPS_CONFIRM, cap.wire())
}

pub fn encode_caps_confirm(cap: &RawCapabilitySet) -> (out: Vec<u8>)
    ensures
        out@ == caps_confirm_wire(cap@),
{
    let mut body: Vec<u8> = Vec::new();
    cap.encode_body(&mut body);
    assert(body@ =~= cap@.wire());
    encode_message(CMD_CAPS_CONFIRM, body)
}

pub open spec fn monitors_wire(monitors: Seq<MonitorDef>) -> Seq<u8>
    decreases monitors.len(),
{
    if monitors.len() == 0 {
        seq![]
    } else {
        monitors_wire(monitors.drop_last()) + monitors.last().wire()
    }
}

/// Filled up with zero to a length, or cut short to it.
pub open spec fn fitted(b: Seq<u8>, n: nat) -> Seq<u8> {
    if b.len() < n {
        b + bytes::zeros((n - b.len()) as nat)
    } else {
        b.take(n as int)
    }
}

pub open spec fn reset_graphics_wire(
    width: u32,
    height: u32,
    monitors: Seq<MonitorDef>,
) -> Seq<u8> {
    message(
        CMD_RESET_GRAPHICS,
        fitted(
            bytes::le32(width) + bytes::le32(height) + bytes::le32(
                bytes::low32(monitors.len() as int),
            ) + monitors_wire(monitors),
            332,
        ),
    )
}

/// The size of the output and its monitors. The message always has the same
/// length.
pub fn encode_reset_graphics(width: u32, height: u32, monitors: &[MonitorDef]) -> (out: Vec<u8>)
    ensures
        out@ == reset_graphics_wire(width, height, monitors@),
        out@.len() == RESET_GRAPHICS_TOTAL_SIZE,
{
    let target: usize = RESET_GRAPHICS_TOTAL_SIZE - GFX_HEADER_SIZE;
    let mut body: Vec<u8> = Vec::new();
    body.write_u32_le(width);
    body.write_u32_le(height);
    body.write_u32_le(bytes::len32(monitors.len()));
    let ghost head = body@;
    let n: usize = monitors.len();
    let mut i: usize = 0;
    assert(monitors@.take(0) =~= seq![]);
    assert(body@ =~= head + monitors_wire(monitors@.take(0)));
    while i < n
        invariant
            i <= n,
            n == monitors@.len(),
            body@ == head + monitors_wire(monitors@.take(i as int)),
        decreases n - i,
    {
        monitors[i].encode(&mut body);
        assert(monitors@.take(i + 1).drop_last() =~= monitors@.take(i as int));
        assert(body@ =~= head + monitors_wire(monitors@.take(i + 1)));
        i = i + 1;
    }
    assert(monitors@.take(n as int) =~= monitors@);
    let ghost whole = body@;
    assert(body@ =~= whole + bytes::zeros(0));
    while body.len() < target
        invariant
            target == 332,
            body@.len() >= whole.len(),
            body@ =~= whole + bytes::zeros((body@.len() - whole.len()) as nat),
            whole.len() < 332 ==> body@.len() <= 332,
            whole.len() >= 332 ==> body@ == whole,
        decreases target - body@.len(),
    {
        body.push(0);
    }
    body.truncate(target);
    assert(body@ =~= fitted(whole, 332));
    encode_message(CMD_RESET_GRAPHICS, body)
}

pub open spec fn create_surface_wire(surface_id: u16, width: u16, height: u16) -> Seq<u8> {
    message(
        CMD_CREATE_SURFACE,
        bytes::le16(surface_id) + bytes::le16(width) + bytes::le16(height) + seq![
            PIXEL_FORMAT_XRGB,
        ],
    )
}

pub fn encode_create_surface(surface_id: u16, width: u16, height: u16) -> (out: Vec<u8>)
    ensures
        out@ == create_surface_wire(surface_id, width, height),
{
    let mut body: Vec<u8> = Vec::with_capacity(7);
    body.write_u16_le(surface_id);
    body.write_u16_le(width);
    body.write_u16_le(height);
    body.write_u8(PIXEL_FORMAT_XRGB);
    assert(body@ =~= bytes::le16(surface_id) + bytes::le16(width) + bytes::le16(height) + seq![
        PIXEL_FORMAT_XRGB,
    ]);
    encode_message(CMD_CREATE_SURFACE, body)
}

pub open spec fn delete_surface_wire(surface_id: u16) -> Seq<u8> {
    message(CMD_DELETE_SURFACE, bytes::le16(surface_id))
}

pub fn encode_delete_surface(surface_id: u16) -> (out: Vec<u8>)
    ensures
        out@ == delete_surface_wire(surface_id),
{
    let mut body: Vec<u8> = Vec::with_capacity(2);
    body.write_u16_le(surface_id);
    assert(body@ =~= bytes::le16(surface_id));
    encode_message(CMD_DELETE_SURFACE, body)
}

pub open spec fn map_surface_wire(surface_id: u16, x: u32, y: u32) -> Seq<u8> {
    message(
        CMD_MAP_SURFACE_TO_OUTPUT,
        bytes::le16(surface_id) + bytes::le16(0) + bytes::le32(x) + bytes::le32(y),
    )
}

pub fn encode_map_surface_to_output(
    surface_id: u16,
    output_origin_x: u32,
    output_origin_y: u32,
) -> (out: Vec<u8>)
    ensures
        out@ == map_surface_wire(surface_id, output_origin_x, output_origin_y),
{
    let mut body: Vec<u8> = Vec::with_capacity(12);
    body.write_u16_le(surface_id);
    body.write_u16_le(0);  // reserved
    body.write_u32_le(output_origin_x);
    body.write_u32_le(output_origin_y);
    assert(body@ =~= bytes::le16(surface_id) + bytes::le16(0) + bytes::le32(output_origin_x)
        + bytes::le32(output_origin_y));
    encode_message(CMD_MAP_SURFACE_TO_OUTPUT, body)
}

pub open spec fn start_frame_wire(timestamp_ms: u32, frame_id: u32) -> Seq<u8> {
    message(CMD_START_FRAME, bytes::le32(timestamp_ms) + bytes::le32(frame_id))
}

pub fn encode_start_frame(timestamp_ms: u32, frame_id: u32) -> (out: Vec<u8>)
    ensures
        out@ == start_frame_wire(timestamp_ms, frame_id),
{
    let mut body: Vec<u8> = Vec::with_capacity(8);
    body.write_u32_le(timestamp_ms);
    body.write_u32_le(frame_id);
    assert(body@ =~= bytes::le32(timestamp_ms) + bytes::le32(frame_id));
    encode_message(CMD_START_FRAME, body)
}

pub open spec fn end_frame_wire(frame_id: u32) -> Seq<u8> {
    message(CMD_END_FRAME, bytes::le32(frame_id))
}

pub fn encode_end_frame(frame_id: u32) -> (out: Vec<u8>)
    ensures
        out@ == end_frame_wire(frame_id),
{
    let mut body: Vec<u8> = Vec::with_capacity(4);
    body.write_u32_le(frame_id);
    assert(body@ =~= bytes::le32(frame_id));
    encode_message(CMD_END_FRAME, body)
}

/// A rectangle at the origin.
pub open spec fn area(width: u16, height: u16) -> Rect16 {
    Rect16 { left: 0, top: 0, right: width, bottom: height }
}

pub open spec fn avc420_wire(
    visible_width: u16,
    visible_height: u16,
    qp: u8,
    quality: u8,
    h264_bitstream: Seq<u8>,
) -> Seq<u8> {
    bytes::le32(1) + area(visible_width, visible_height).wire() + seq![(qp % 64 + 128) as u8]
        + seq![quality] + h264_bitstream
}

/// One region that covers all of the picture, its quality, and the bit stream
/// as it is. Of `qp` six bits count; with them goes a bit for progressive.
pub fn encode_avc420_bitmap_stream(
    visible_width: u16,
    visible_height: u16,
    qp: u8,
    quality: u8,
    h264_bitstream: &[u8],
) -> (out: Vec<u8>)
    ensures
        out@ == avc420_wire(visible_width, visible_height, qp, quality, h264_bitstream@),
{
    let mut out: Vec<u8> = Vec::new();
    out.write_u32_le(1);  // regions
    Rect16 { left: 0, top: 0, right: visible_width, bottom: visible_height }.encode(&mut out);
    out.write_u8(qp % 64 + 128);
    out.write_u8(quality);
    out.write_slice(h264_bitstream);
    assert(out@ =~= avc420_wire(visible_width, visible_height, qp, quality, h264_bitstream@));
    out
}

pub open spec fn wire_to_surface_wire(
    surface_id: u16,
    dest_width: u16,
    dest_height: u16,
    bitmap_data: Seq<u8>,
) -> Seq<u8> {
    message(
        CMD_WIRE_TO_SURFACE_1,
        bytes::le16(surface_id) + bytes::le16(CODEC_AVC420) + seq![PIXEL_FORMAT_XRGB] + area(
            dest_width,
            dest_height,
        ).wire() + bytes::le32(bytes::low32(bitmap_data.len() as int)) + bitmap_data,
    )
}

/// Draws on a surface.
pub fn encode_wire_to_surface_1_avc420(
    surface_id: u16,
    dest_width: u16,
    dest_height: u16,
    bitmap_data: &[u8],
) -> (out: Vec<u8>)
    ensures
        out@ == wire_to_surface_wire(surface_id, dest_width, dest_height, bitmap_data@),
{
    let mut body: Vec<u8> = Vec::new();
    body.write_u16_le(surface_id);
    body.write_u16_le(CODEC_AVC420);
    body.write_u8(PIXEL_FORMAT_XRGB);
    Rect16 { left: 0, top: 0, right: dest_width, bottom: dest_height }.encode(&mut body);
    body.write_u32_le(bytes::len32(bitmap_data.len()));
    body.write_slice(bitmap_data);
    assert(body@ =~= bytes::le16(surface_id) + bytes::le16(CODEC_AVC420) + seq![PIXEL_FORMAT_XRGB]
        + area(dest_width, dest_height).wire() + bytes::le32(
        bytes::low32(bitmap_data@.len() as int),
    ) + bitmap_data@);
    encode_message(CMD_WIRE_TO_SURFACE_1, body)
}

/// What a client sends.
#[derive(Debug, Clone, PartialEq, Eq)]
pub enum ClientMessage {
    CapsAdvertise { sets: Vec<RawCapabilitySet> },
    FrameAcknowledge { queue_depth: u32, frame_id: u32, total_frames_decoded: u32 },
    CacheImportOffer,
    Other { cmd_id: u16 },
}

#[verifier::ext_equal]
pub enum ClientMessageView {
    CapsAdvertise { sets: Seq<RawCapabilitySetView> },
    FrameAcknowledge { queue_depth: u32, frame_id: u32, total_frames_decoded: u32 },
    CacheImportOffer,
    Other { cmd_id: u16 },
}

impl View for ClientMessage {
    type V = ClientMessageView;

    open spec fn view(&self) -> ClientMessageView {
        match self {
            ClientMessage::CapsAdvertise { sets } => ClientMessageView::CapsAdvertise {
                sets: model::views(sets@),
            },
            ClientMessage::FrameAcknowledge { queue_depth, frame_id, total_frames_decoded } =>
                ClientMessageView::FrameAcknowledge {
                queue_depth: *queue_depth,
                frame_id: *frame_id,
                total_frames_decoded: *total_frames_decoded,
            },
            ClientMessage::CacheImportOffer => ClientMessageView::CacheImportOffer,
            ClientMessage::Other { cmd_id } => ClientMessageView::Other { cmd_id: *cmd_id },
        }
    }
}

/// `n` sets from offset `p` on.
pub open spec fn parse_sets(b: Seq<u8>, p: int, n: int) -> Result<
    (Seq<RawCapabilitySetView>, int),
    DecodeError,
>
    decreases n,
{
    if n <= 0 {
        Ok((seq![], p))
    } else {
        match parse_sets(b, p, n - 1) {
            Err(e) => Err(e),
            Ok((sets, q)) => match parse_set(b, q) {
                Err(e) => Err(e),
                Ok((set, next)) => Ok((sets.push(set), next)),
            },
        }
    }
}

proof fn lemma_sets_error_stays(b: Seq<u8>, p: int, m: int, n: int)
    requires
        0 <= m <= n,
        parse_sets(b, p, m) is Err,
    ensures
        parse_sets(b, p, n) == parse_sets(b, p, m),
    decreases n - m,
{
    if m < n {
        lemma_sets_error_stays(b, p, m, n - 1);
    }
}

/// The sets of a client: how many, and each of them.
pub open spec fn parse_advertise(b: Seq<u8>) -> Result<ClientMessageView, DecodeError> {
    if b.len() < 10 {
        Err(cursor::short(b, 8, 2))
    } else {
        match parse_sets(b, 10, bytes::u16_le_at(b, 8) as int) {
            Err(e) => Err(e),
            Ok((sets, _)) => Ok(ClientMessageView::CapsAdvertise { sets }),
        }
    }
}

/// The length that a message says it has, its header included.
pub open spec fn message_len(b: Seq<u8>) -> int {
    bytes::u32_le_at(b, 4) as int
}

/// The first message in `b`. It has to be there as a whole.
pub open spec fn parse_client_message(b: Seq<u8>) -> Result<ClientMessageView, DecodeError> {
    if b.len() < 4 {
        Err(cursor::short(b, b.len() as int / 2 * 2, 2))
    } else if b.len() < 8 {
        Err(cursor::short(b, 4, 4))
    } else {
        let id = bytes::u16_le_at(b, 0);
        let n = message_len(b);
        if n < 8 {
            Err(cursor::invalid("rdpegfx.pduLength", "smaller than header"))
        } else if n > b.len() {
            Err(cursor::short(b, 8, n - 8))
        } else if id == CMD_CAPS_ADVERTISE {
            parse_advertise(b)
        } else if id == CMD_FRAME_ACKNOWLEDGE {
            if b.len() < 20 {
                Err(cursor::short(b, b.len() as int / 4 * 4, 4))
            } else {
                Ok(
                    ClientMessageView::FrameAcknowledge {
                        queue_depth: bytes::u32_le_at(b, 8),
                        frame_id: bytes::u32_le_at(b, 12),
                        total_frames_decoded: bytes::u32_le_at(b, 16),
                    },
                )
            }
        } else if id == CMD_CACHE_IMPORT_OFFER {
            Ok(ClientMessageView::CacheImportOffer)
        } else {
            Ok(ClientMessageView::Other { cmd_id: id })
        }
    }
}

fn read_advertise(cursor: &mut ReadCursor<'_>) -> (r: Result<ClientMessage, DecodeError>)
    requires
        old(cursor).wf(),
        old(cursor).offset() == 8,
    ensures
        cursor::decodes_view(r, parse_advertise(old(cursor).data())),
{
    let ghost b = cursor.data();
    let count: u16 = cursor.take_u16_le()?;
    let mut sets: Vec<RawCapabilitySet> = Vec::new();
    assert(model::views(sets@) =~= seq![]);
    let mut i: u16 = 0;
    while i < count
        invariant
            i <= count,
            b == old(cursor).data(),
            b.len() >= 10,
            count == bytes::u16_le_at(b, 8),
            cursor.wf(),
            cursor.data() == b,
            parse_sets(b, 10, i as int) == Ok::<(Seq<RawCapabilitySetView>, int), DecodeError>(
                (model::views(sets@), cursor.offset()),
            ),
        decreases count - i,
    {
        match RawCapabilitySet::decode(cursor) {
            Ok(set) => {
                sets.push(set);
                i = i + 1;
            },
            Err(e) => {
                proof {
                    lemma_sets_error_stays(b, 10, i + 1, count as int);
                }
                return Err(e);
            },
        }
    }
    Ok(ClientMessage::CapsAdvertise { sets })
}

pub fn decode_client_message(input: &[u8]) -> (r: Result<ClientMessage, DecodeError>)
    ensures
        cursor::decodes_view(r, parse_client_message(input@)),
{
    let mut cursor = ReadCursor::new(input);
    let cmd_id: u16 = cursor.take_u16_le()?;
    let _flags: u16 = cursor.take_u16_le()?;
    let pdu_length: u32 = cursor.take_u32_le()?;
    if pdu_length < GFX_HEADER_SIZE as u32 {
        return Err(
            DecodeError::InvalidValue {
                field: "rdpegfx.pduLength",
                reason: "smaller than header",
            },
        );
    }
    let body_len: usize = pdu_length as usize - GFX_HEADER_SIZE;
    match cursor.ensure(body_len) {
        Ok(_) => {},
        Err(e) => {
            return Err(DecodeError::NotEnoughBytes(e));
        },
    }
    match cmd_id {
        CMD_CAPS_ADVERTISE => read_advertise(&mut cursor),
        CMD_FRAME_ACKNOWLEDGE => {
            let queue_depth: u32 = cursor.take_u32_le()?;
            let frame_id: u32 = cursor.take_u32_le()?;
            let total_frames_decoded: u32 = cursor.take_u32_le()?;
            Ok(ClientMessage::FrameAcknowledge { queue_depth, frame_id, total_frames_decoded })
        },
        CMD_CACHE_IMPORT_OFFER => Ok(ClientMessage::CacheImportOffer),
        other => Ok(ClientMessage::Other { cmd_id: other }),
    }
}

/// The sets of a client one after the other.
pub open spec fn sets_wire(sets: Seq<RawCapabilitySetView>) -> Seq<u8>
    decreases sets.len(),
{
    if sets.len() == 0 {
        seq![]
    } else {
        sets_wire(sets.drop_last()) + sets.last().wire()
    }
}

proof fn lemma_sets_are_read(b: Seq<u8>, p: int, sets: Seq<RawCapabilitySetView>)
    requires
        forall|i: int| 0 <= i < sets.len() ==> (#[trigger] sets[i]).data.len() <= u32::MAX,
        bytes::holds_at(b, p, sets_wire(sets)),
    ensures
        parse_sets(b, p, sets.len() as int) == Ok::<
            (Seq<RawCapabilitySetView>, int),
            DecodeError,
        >((sets, p + sets_wire(sets).len())),
    decreases sets.len(),
{
    if sets.len() > 0 {
        let head = sets.drop_last();
        let set = sets.last();
        let q = p + sets_wire(head).len();
        bytes::lemma_holds_add(b, p, sets_wire(head), set.wire());
        lemma_sets_are_read(b, p, head);
        bytes::lemma_holds_add(
            b,
            q,
            bytes::le32(set.version) + bytes::le32(bytes::low32(set.data.len() as int)),
            set.data,
        );
        bytes::lemma_holds_add(
            b,
            q,
            bytes::le32(set.version),
            bytes::le32(bytes::low32(set.data.len() as int)),
        );
        bytes::lemma_holds_le32(b, q, set.version);
        bytes::lemma_holds_le32(b, q + 4, bytes::low32(set.data.len() as int));
        bytes::lemma_holds_bounds(b, q + 8, set.data);
        assert(sets[sets.len() - 1].data.len() <= u32::MAX);
        assert(head.push(set) =~= sets);
    } else {
        assert(sets =~= seq![]);
    }
}

/// What a client says it can do is read as it was written.
pub proof fn law_advertise(sets: Seq<RawCapabilitySetView>, after: Seq<u8>)
    requires
        sets.len() <= 0xFFFF,
        10 + sets_wire(sets).len() <= u32::MAX,
        forall|i: int| 0 <= i < sets.len() ==> (#[trigger] sets[i]).data.len() <= u32::MAX,
    ensures
        parse_client_message(
            message(CMD_CAPS_ADVERTISE, bytes::le16(sets.len() as u16) + sets_wire(sets)) + after,
        ) == Ok::<ClientMessageView, DecodeError>(ClientMessageView::CapsAdvertise { sets }),
{
    let count = bytes::le16(sets.len() as u16);
    let body = count + sets_wire(sets);
    let m = message(CMD_CAPS_ADVERTISE, body);
    let b = m + after;
    let head = bytes::le16(CMD_CAPS_ADVERTISE) + bytes::le16(0) + bytes::le32(
        bytes::low32(8 + body.len() as int),
    );
    bytes::lemma_holds_self(b);
    bytes::lemma_holds_add(b, 0, m, after);
    bytes::lemma_holds_add(b, 0, head, body);
    bytes::lemma_holds_add(b, 8, count, sets_wire(sets));
    bytes::lemma_holds_le16(b, 8, sets.len() as u16);
    lemma_sets_are_read(b, 10, sets);
}

/// The answer to what a client can do is the version that was chosen, and its
/// data after its length.
pub proof fn law_caps_confirm_bytes(
    cap: &RawCapabilitySet,
    out: Vec<u8>,
)
    requires
        call_ensures(encode_caps_confirm, (cap,), out),
    ensures
        out@.len() == 16 + cap.data@.len(),
        bytes::u16_le_at(out@, 0) == 19,
        bytes::u16_le_at(out@, 2) == 0,
        bytes::u32_le_at(out@, 4) == (16 + cap.data@.len()) % 4294967296,
        bytes::u32_le_at(out@, 8) == cap.version,
        bytes::u32_le_at(out@, 12) == cap.data@.len() % 4294967296,
        out@.skip(16) == cap.data@,
{
    assert(out@.skip(16) =~= cap.data@);
}

/// A surface is made with a number, a width and a height.
pub proof fn law_create_surface_bytes(
    surface_id: u16,
    width: u16,
    height: u16,
    out: Vec<u8>,
)
    requires
        call_ensures(encode_create_surface, (surface_id, width, height), out),
    ensures
        out@.len() == 15,
        bytes::u16_le_at(out@, 0) == 9,
        bytes::u16_le_at(out@, 2) == 0,
        bytes::u32_le_at(out@, 4) == 15,
        bytes::u16_le_at(out@, 8) == surface_id,
        bytes::u16_le_at(out@, 10) == width,
        bytes::u16_le_at(out@, 12) == height,
        out@[14] == 32,
{
}

/// A surface is taken away by its number.
pub proof fn law_delete_surface_bytes(
    surface_id: u16,
    out: Vec<u8>,
)
    requires
        call_ensures(encode_delete_surface, (surface_id,), out),
    ensures
        out@.len() == 10,
        bytes::u16_le_at(out@, 0) == 10,
        bytes::u16_le_at(out@, 2) == 0,
        bytes::u32_le_at(out@, 4) == 10,
        bytes::u16_le_at(out@, 8) == surface_id,
{
}

/// A surface is shown at a column and a row.
pub proof fn law_map_surface_bytes(
    surface_id: u16,
    output_origin_x: u32,
    output_origin_y: u32,
    out: Vec<u8>,
)
    requires
        call_ensures(encode_map_surface_to_output, (surface_id, output_origin_x, output_origin_y), out),
    ensures
        out@.len() == 20,
        bytes::u16_le_at(out@, 0) == 15,
        bytes::u16_le_at(out@, 2) == 0,
        bytes::u32_le_at(out@, 4) == 20,
        bytes::u16_le_at(out@, 8) == surface_id,
        bytes::u16_le_at(out@, 10) == 0,
        bytes::u32_le_at(out@, 12) == output_origin_x,
        bytes::u32_le_at(out@, 16) == output_origin_y,
{
}

/// A frame starts with a time and its number, and ends with its number.
pub proof fn law_frame_bytes(
    timestamp_ms: u32,
    frame_id: u32,
    start: Vec<u8>,
    end: Vec<u8>,
)
    requires
        call_ensures(encode_start_frame, (timestamp_ms, frame_id), start),
        call_ensures(encode_end_frame, (frame_id,), end),
    ensures
        start@.len() == 16,
        bytes::u16_le_at(start@, 0) == 11,
        bytes::u16_le_at(start@, 2) == 0,
        bytes::u32_le_at(start@, 4) == 16,
        bytes::u32_le_at(start@, 8) == timestamp_ms,
        bytes::u32_le_at(start@, 12) == frame_id,
        end@.len() == 12,
        bytes::u16_le_at(end@, 0) == 12,
        bytes::u16_le_at(end@, 2) == 0,
        bytes::u32_le_at(end@, 4) == 12,
        bytes::u32_le_at(end@, 8) == frame_id,
{
}

/// A picture has one region that covers it from its upper left corner to its
/// width and its height, the quality, and the bit stream.
pub proof fn law_avc420_bytes(
    visible_width: u16,
    visible_height: u16,
    qp: u8,
    quality: u8,
    h264_bitstream: &[u8],
    out: Vec<u8>,
)
    requires
        call_ensures(encode_avc420_bitmap_stream, (visible_width, visible_height, qp, quality, h264_bitstream), out),
    ensures
        out@.len() == 14 + h264_bitstream@.len(),
        bytes::u32_le_at(out@, 0) == 1,
        bytes::u16_le_at(out@, 4) == 0,
        bytes::u16_le_at(out@, 6) == 0,
        bytes::u16_le_at(out@, 8) == visible_width,
        bytes::u16_le_at(out@, 10) == visible_height,
        out@[12] == 128 + qp % 64,
        out@[13] == quality,
        out@.skip(14) == h264_bitstream@,
{
    assert(out@.skip(14) =~= h264_bitstream@);
}

/// A picture is drawn on a surface in the rectangle from its upper left corner
/// to a width and a height, after its length.
pub proof fn law_wire_to_surface_bytes(
    surface_id: u16,
    dest_width: u16,
    dest_height: u16,
    bitmap_data: &[u8],
    out: Vec<u8>,
)
    requires
        call_ensures(encode_wire_to_surface_1_avc420, (surface_id, dest_width, dest_height, bitmap_data), out),
    ensures
        out@.len() == 25 + bitmap_data@.len(),
        bytes::u16_le_at(out@, 0) == 1,
        bytes::u16_le_at(out@, 2) == 0,
        bytes::u32_le_at(out@, 4) == (25 + bitmap_data@.len()) % 4294967296,
        bytes::u16_le_at(out@, 8) == surface_id,
        bytes::u16_le_at(out@, 10) == 11,
        out@[12] == 32,
        bytes::u16_le_at(out@, 13) == 0,
        bytes::u16_le_at(out@, 15) == 0,
        bytes::u16_le_at(out@, 17) == dest_width,
        bytes::u16_le_at(out@, 19) == dest_height,
        bytes::u32_le_at(out@, 21) == bitmap_data@.len() % 4294967296,
        out@.skip(25) == bitmap_data@,
{
    assert(out@.skip(25) =~= bitmap_data@);
}

/// Messages go out as one segment that is not compressed.
pub proof fn law_segmented_bytes(
    gfx_pdus: &[u8],
    out: Vec<u8>,
)
    requires
        call_ensures(encode_segmented_single, (gfx_pdus,), out),
    ensures
        out@.len() == 2 + gfx_pdus@.len(),
        out@[0] == 224,
        out@[1] == 4,
        out@.skip(2) == gfx_pdus@,
{
    assert(out@.skip(2) =~= gfx_pdus@);
}

/// Graphics are reset with a width, a height and the monitors, each with its edges
/// left, top, right and bottom and whether it is the first; zeros fill the message.
pub proof fn law_reset_graphics_bytes(
    width: u32,
    height: u32,
    monitors: &[MonitorDef],
    out: Vec<u8>,
    i: int,
)
    requires
        call_ensures(encode_reset_graphics, (width, height, monitors), out),
        0 <= i < monitors@.len() <= 16,
    ensures
        out@.len() == 340,
        bytes::u16_le_at(out@, 0) == 14,
        bytes::u16_le_at(out@, 2) == 0,
        bytes::u32_le_at(out@, 4) == 340,
        bytes::u32_le_at(out@, 8) == width,
        bytes::u32_le_at(out@, 12) == height,
        bytes::u32_le_at(out@, 16) == monitors@.len(),
        bytes::u32_le_at(out@, 20 + 20 * i) == monitors@[i].left as u32,
        bytes::u32_le_at(out@, 24 + 20 * i) == monitors@[i].top as u32,
        bytes::u32_le_at(out@, 28 + 20 * i) == monitors@[i].right as u32,
        bytes::u32_le_at(out@, 32 + 20 * i) == monitors@[i].bottom as u32,
        bytes::u32_le_at(out@, 36 + 20 * i) == 1 <==> monitors@[i].primary,
        bytes::u32_le_at(out@, 36 + 20 * i) == 0 <==> !monitors@[i].primary,
        forall|j: int| 20 + 20 * monitors@.len() <= j < 340 ==> #[trigger] out@[j] == 0,
{
    let m = monitors@;
    let head = bytes::le32(width) + bytes::le32(height) + bytes::le32(
        bytes::low32(m.len() as int),
    );
    let w = m[i].wire();
    lemma_reset_parts(width, height, m, i);
    lemma_reset_head(width, height, bytes::low32(m.len() as int));
    lemma_monitor_fields(m[i]);
    lemma_copied(out@, 8, head, 0);
    lemma_copied(out@, 8, head, 4);
    lemma_copied(out@, 8, head, 8);
    let p = 20 + 20 * i;
    lemma_copied(out@, p, w, 0);
    lemma_copied(out@, p, w, 4);
    lemma_copied(out@, p, w, 8);
    lemma_copied(out@, p, w, 12);
    lemma_copied(out@, p, w, 16);
}

proof fn lemma_copied(b: Seq<u8>, p: int, w: Seq<u8>, k: int)
    requires
        0 <= p,
        0 <= k,
        k + 4 <= w.len(),
        p + w.len() <= b.len(),
        b.subrange(p, p + w.len()) == w,
    ensures
        bytes::u32_le_at(b, p + k) == bytes::u32_le_at(w, k),
{
    let part = b.subrange(p, p + w.len());
    assert(part[k] == b[p + k] && part[k + 1] == b[p + k + 1] && part[k + 2] == b[p + k + 2]
        && part[k + 3] == b[p + k + 3]);
}

proof fn lemma_reset_head(width: u32, height: u32, n: u32)
    ensures
        ({
            let head = bytes::le32(width) + bytes::le32(height) + bytes::le32(n);
            &&& head.len() == 12
            &&& bytes::u32_le_at(head, 0) == width
            &&& bytes::u32_le_at(head, 4) == height
            &&& bytes::u32_le_at(head, 8) == n
        }),
{
    bytes::lemma_holds_self(bytes::le32(width) + bytes::le32(height) + bytes::le32(n));
}

proof fn lemma_monitor_fields(m: MonitorDef)
    ensures
        m.wire().len() == 20,
        bytes::u32_le_at(m.wire(), 0) == m.left as u32,
        bytes::u32_le_at(m.wire(), 4) == m.top as u32,
        bytes::u32_le_at(m.wire(), 8) == m.right as u32,
        bytes::u32_le_at(m.wire(), 12) == m.bottom as u32,
        bytes::u32_le_at(m.wire(), 16) == (if m.primary {
            1u32
        } else {
            0
        }),
{
    bytes::lemma_holds_self(m.wire());
}

#[verifier::rlimit(40)]
proof fn lemma_reset_parts(width: u32, height: u32, m: Seq<MonitorDef>, i: int)
    requires
        0 <= i < m.len() <= 16,
    ensures
        ({
            let out = reset_graphics_wire(width, height, m);
            let n = m.len() as int;
            let head = bytes::le32(width) + bytes::le32(height) + bytes::le32(bytes::low32(n));
            &&& out.len() == 340
            &&& bytes::u16_le_at(out, 0) == 14
            &&& bytes::u16_le_at(out, 2) == 0
            &&& bytes::u32_le_at(out, 4) == 340
            &&& out.subrange(8, 20) == head
            &&& out.subrange(20 + 20 * i, 40 + 20 * i) == m[i].wire()
            &&& forall|j: int| 20 + 20 * n <= j < 340 ==> #[trigger] out[j] == 0
        }),
{
    let n = m.len() as int;
    let list = monitors_wire(m);
    lemma_monitor_at(m, i);
    let head = bytes::le32(width) + bytes::le32(height) + bytes::le32(bytes::low32(n));
    let body = head + list;
    assert(head.len() == 12);
    assert(body.len() == 12 + 20 * n);
    let out = reset_graphics_wire(width, height, m);
    assert(out.subrange(8, 20) =~= head);
    let w = m[i].wire();
    assert(w == list.subrange(20 * i, 20 * i + 20));
    assert(out.subrange(20 + 20 * i, 40 + 20 * i) =~= list.subrange(20 * i, 20 * i + 20));
}

proof fn lemma_monitor_at(m: Seq<MonitorDef>, i: int)
    requires
        0 <= i < m.len(),
    ensures
        monitors_wire(m).len() == 20 * m.len(),
        monitors_wire(m).subrange(20 * i, 20 * i + 20) == m[i].wire(),
    decreases m.len(),
{
    let head = m.drop_last();
    let n = m.len() as int;
    if n > 1 {
        lemma_monitor_at(
            head,
            if i < n - 1 {
                i
            } else {
                0
            },
        );
    }
    assert(monitors_wire(head).len() == 20 * (n - 1));
    if i < n - 1 {
        assert(monitors_wire(m).subrange(20 * i, 20 * i + 20) =~= monitors_wire(head).subrange(
            20 * i,
            20 * i + 20,
        ));
    } else {
        assert(monitors_wire(m).subrange(20 * i, 20 * i + 20) =~= m[i].wire());
    }
}

/// What a client sends is known by its first two bytes: 18 says what it can do, 13
/// that a frame was shown, and 16 offers a cache.
pub proof fn law_client_message_bytes(input: &[u8], r: Result<ClientMessage, DecodeError>)
    requires
        call_ensures(decode_client_message, (input,), r),
        r is Ok,
    ensures
        8 <= bytes::u32_le_at(input@, 4) <= input@.len(),
        r->Ok_0 is CapsAdvertise <==> bytes::u16_le_at(input@, 0) == 18,
        r->Ok_0 is FrameAcknowledge <==> bytes::u16_le_at(input@, 0) == 13,
        r->Ok_0 is CacheImportOffer <==> bytes::u16_le_at(input@, 0) == 16,
        r->Ok_0 matches ClientMessage::FrameAcknowledge {
            queue_depth,
            frame_id,
            total_frames_decoded,
        } ==> {
            &&& queue_depth == bytes::u32_le_at(input@, 8)
            &&& frame_id == bytes::u32_le_at(input@, 12)
            &&& total_frames_decoded == bytes::u32_le_at(input@, 16)
        },
        r->Ok_0 matches ClientMessage::Other { cmd_id } ==> cmd_id == bytes::u16_le_at(input@, 0),
        r->Ok_0 matches ClientMessage::CapsAdvertise { sets } ==> sets@.len() == bytes::u16_le_at(
            input@,
            8,
        ) && (sets@.len() >= 1 ==> {
            let n = bytes::u32_le_at(input@, 14);
            &&& sets@[0].version == bytes::u32_le_at(input@, 10)
            &&& sets@[0].data@ == input@.subrange(18, 18 + n)
        }),
{
    if let ClientMessage::CapsAdvertise { sets } = r->Ok_0 {
        let n = bytes::u16_le_at(input@, 8) as int;
        lemma_sets_from(input@, 10, n);
        if n >= 1 {
            assert(model::views(sets@)[0] == sets@[0]@);
        }
    }
}

/// Sets that are read one after the other: the first one stands at the start.
proof fn lemma_sets_from(b: Seq<u8>, p: int, n: int)
    requires
        0 <= n,
        parse_sets(b, p, n) is Ok,
    ensures
        parse_sets(b, p, n)->Ok_0.0.len() == n,
        n >= 1 ==> parse_set(b, p) is Ok && parse_sets(b, p, n)->Ok_0.0[0] == parse_set(
            b,
            p,
        )->Ok_0.0,
    decreases n,
{
    if n > 0 {
        lemma_sets_from(b, p, n - 1);
    }
}

/// H.264 may be sent to a client of version 8.1 that has the flag 16 set, and to one
/// of a version from 10 on that has not the flag 32 set. Of the sets that allow it
/// the one with the latest version is chosen; 10.6 and its variant count the same.
pub proof fn law_avc420(
    set: &RawCapabilitySet,
    r: bool,
    sets: &[RawCapabilitySet],
    best: Option<RawCapabilitySet>,
    i: int,
)
    requires
        call_ensures(RawCapabilitySet::supports_avc420, (set,), r),
        call_ensures(select_avc420_capability, (sets,), best),
        0 <= i < sets@.len(),
        sets@[i]@.supports_avc420(),
    ensures
        set.data@.len() < 4 ==> (r <==> set.version >= 0x000A_0002 && is_version_10(set.version)),
        set.data@.len() >= 4 ==> ({
            let flags = bytes::u32_le_at(set.data@, 0);
            r <==> set.version == 0x0008_0005 && flags / 16 % 2 == 1 || is_version_10(set.version)
                && flags / 32 % 2 == 0
        }),
        best is Some,
        best->Some_0@.supports_avc420(),
        best->Some_0.version >= sets@[i].version || best->Some_0.version == 0x000A_0600
            && sets@[i].version == 0x000A_0601,
{
    let flags = set@.flags();
    assert(flags & 0x10 != 0 <==> flags / 16 % 2 == 1) by (bit_vector);
    assert(flags & 0x20 == 0 <==> flags / 32 % 2 == 0) by (bit_vector);
    let views = model::views(sets@);
    assert(views[i] == sets@[i]@);
    law_selected(views, i);
    let k = choose|k: int| is_best(views, k);
    assert(is_best(views, k));
    assert(views[i].supports_avc420());
    assert(rank(views[i].version) <= rank(views[k].version));
}

/// The versions from 10 on are these.
pub proof fn law_versions(version: u32)
    ensures
        is_version_10(version) <==> 0x000A_0002 <= version <= 0x000A_0007 || version == 0x000A_0600
            || version == 0x000A_0601 || version == 0x000A_0701,
{
}

} // verus!
