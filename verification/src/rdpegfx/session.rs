//! The graphics pipeline of one connection: what was agreed on with the client,
//! the surface that it draws on, and the frames on their way.
//!
//! Once it is agreed that H.264 may be sent, the surface is set up at once, with
//! the size that is known, and again whenever the size changes.

use vstd::prelude::*;

use crate::bytes;
use crate::dvc::DvcHandler;
use crate::model;
use crate::model::Held;
use crate::rdpegfx::encoder::{EncodedAu, H264Encoder, MockH264Encoder};
use crate::rdpegfx::error::EncoderError;
use crate::rdpegfx::pdu;
use crate::rdpegfx::pdu::{ClientMessage, ClientMessageView, MonitorDef, RawCapabilitySet};
use crate::trace;
use crate::trace::CallOf;

verus! {

broadcast use model::lemma_views_push;

pub const DEFAULT_SURFACE_ID: u16 = 1;

/// How many frames may be on their way. A client may be slow to say that it has
/// them.
pub const MAX_FRAMES_IN_FLIGHT: u32 = 32;

pub const QUEUE_DEPTH_UNAVAILABLE: u32 = 0xffff_ffff;

/// How often a frame has to stand by itself: one that was lost or spoilt does
/// not spoil the picture for ever.
pub const IDR_INTERVAL_FRAMES: u64 = 30;

/// How many frames may fail one after the other before the pipeline is given up.
pub const ENCODE_FAIL_FALLBACK: u32 = 3;

/// What came of one frame.
#[derive(Debug, Clone, PartialEq, Eq)]
pub enum GfxFrameResult {
    /// Messages to send.
    Frames(Vec<Vec<u8>>),
    /// Nothing this time.
    Skip,
    /// The pipeline is given up. The messages take the surface away, where there
    /// is one.
    Fallback { teardown: Vec<Vec<u8>> },
}

#[verifier::ext_equal]
pub enum FrameView {
    Frames(Seq<Seq<u8>>),
    Skip,
    Fallback { teardown: Seq<Seq<u8>> },
}

impl View for GfxFrameResult {
    type V = FrameView;

    open spec fn view(&self) -> FrameView {
        match self {
            GfxFrameResult::Frames(frames) => FrameView::Frames(model::views(frames@)),
            GfxFrameResult::Skip => FrameView::Skip,
            GfxFrameResult::Fallback { teardown } => FrameView::Fallback {
                teardown: model::views(teardown@),
            },
        }
    }
}

#[derive(Debug, Clone, Copy, PartialEq, Eq, Structural)]
pub enum State {
    WaitCaps,
    Ready,
    Failed,
}

/// What is known of the pipeline.
#[derive(Debug, Clone, Copy, PartialEq, Eq, Structural)]
pub struct GfxState {
    pub state: State,
    /// Whether the client has been told of the surface, with this size.
    pub surface_configured: bool,
    pub surface_id: u16,
    pub width: u16,
    pub height: u16,
    pub next_frame_id: u32,
    pub frames_in_flight: u32,
    pub frames_sent: u64,
    pub force_next_idr: bool,
    pub timestamp_ms: u32,
    pub encode_failures: u32,
}

/// The number after `id`, but never zero.
pub open spec fn next_surface(id: u16) -> u16 {
    if id == u16::MAX {
        1
    } else {
        (id + 1) as u16
    }
}

/// The number after `id`, but never zero.
pub open spec fn next_frame(id: u32) -> u32 {
    if id == u32::MAX {
        1
    } else {
        (id + 1) as u32
    }
}

/// The whole desktop as one monitor.
pub open spec fn desktop(s: GfxState) -> MonitorDef {
    MonitorDef {
        left: 0,
        top: 0,
        right: (s.width - 1) as i32,
        bottom: (s.height - 1) as i32,
        primary: true,
    }
}

/// The messages that set up a surface of the size that is known.
pub open spec fn setup(s: GfxState) -> Seq<Seq<u8>> {
    seq![
        pdu::segmented(
            pdu::reset_graphics_wire(s.width as u32, s.height as u32, seq![desktop(s)]),
        ),
        pdu::segmented(pdu::create_surface_wire(s.surface_id, s.width, s.height)),
        pdu::segmented(pdu::map_surface_wire(s.surface_id, 0, 0)),
    ]
}

/// The message that takes a surface away, where there is one.
pub open spec fn removal(configured: bool, surface_id: u16) -> Seq<Seq<u8>> {
    if configured {
        seq![pdu::segmented(pdu::delete_surface_wire(surface_id))]
    } else {
        seq![]
    }
}

pub open spec fn initial(width: u16, height: u16) -> GfxState {
    GfxState {
        state: State::WaitCaps,
        surface_configured: false,
        surface_id: DEFAULT_SURFACE_ID,
        width,
        height,
        next_frame_id: 1,
        frames_in_flight: 0,
        frames_sent: 0,
        force_next_idr: true,
        timestamp_ms: 0,
        encode_failures: 0,
    }
}

/// What the client says it can do. It may say so again at any time: then the
/// surface is taken away first, and the new one has another number.
pub open spec fn caps_step(s: GfxState, sets: Seq<pdu::RawCapabilitySetView>) -> (
    GfxState,
    Seq<Seq<u8>>,
) {
    match pdu::selected(sets) {
        None => (GfxState { state: State::Failed, ..s }, seq![]),
        Some(set) => {
            let again = s.state == State::Ready && s.surface_configured;
            let sized = s.width > 0 && s.height > 0;
            let after = GfxState {
                state: State::Ready,
                surface_id: if again {
                    next_surface(s.surface_id)
                } else {
                    s.surface_id
                },
                surface_configured: sized,
                force_next_idr: true,
                frames_in_flight: 0,
                frames_sent: 0,
                encode_failures: 0,
                ..s
            };
            (
                after,
                removal(again, s.surface_id) + seq![pdu::segmented(pdu::caps_confirm_wire(set))]
                    + if sized {
                    setup(after)
                } else {
                    seq![]
                },
            )
        },
    }
}

/// The client says how many frames it has not shown yet.
pub open spec fn ack_step(s: GfxState, queue_depth: u32) -> GfxState {
    GfxState {
        frames_in_flight: if queue_depth == QUEUE_DEPTH_UNAVAILABLE {
            0
        } else if queue_depth < MAX_FRAMES_IN_FLIGHT {
            queue_depth
        } else {
            MAX_FRAMES_IN_FLIGHT
        },
        ..s
    }
}

/// Whether a size is another one than the surface has.
pub open spec fn is_new_size(s: GfxState, width: u16, height: u16) -> bool {
    &&& width > 0
    &&& height > 0
    &&& !(s.surface_configured && s.width == width && s.height == height)
}

/// The desktop has another size: the surface is replaced by one of that size,
/// once anything has been agreed on.
pub open spec fn resize_step(s: GfxState, width: u16, height: u16) -> (
    GfxState,
    Option<Seq<Seq<u8>>>,
) {
    if !is_new_size(s, width, height) {
        (s, None)
    } else {
        let after = GfxState {
            width,
            height,
            surface_id: if s.surface_configured {
                next_surface(s.surface_id)
            } else {
                s.surface_id
            },
            force_next_idr: true,
            frames_in_flight: 0,
            surface_configured: s.state == State::Ready,
            ..s
        };
        if s.state != State::Ready {
            (after, None)
        } else {
            (after, Some(removal(s.surface_configured, s.surface_id) + setup(after)))
        }
    }
}

/// Before a frame is encoded: what goes before it, and whether it has to stand
/// by itself. With too many frames on their way, half of them are taken to be
/// lost.
pub open spec fn begin_step(s: GfxState, width: u16, height: u16) -> (
    GfxState,
    Option<(Seq<Seq<u8>>, bool)>,
) {
    if s.state != State::Ready || width == 0 || height == 0 {
        (s, None)
    } else {
        let (sized, messages) = resize_step(s, width, height);
        let crowded = sized.frames_in_flight >= MAX_FRAMES_IN_FLIGHT;
        let after = GfxState {
            frames_in_flight: if crowded {
                MAX_FRAMES_IN_FLIGHT / 2
            } else {
                sized.frames_in_flight
            },
            force_next_idr: crowded || sized.force_next_idr,
            ..sized
        };
        (
            after,
            Some(
                (
                    match messages {
                        Some(m) => m,
                        None => seq![],
                    },
                    after.force_next_idr || after.frames_sent % IDR_INTERVAL_FRAMES == 0,
                ),
            ),
        )
    }
}

/// The pipeline is given up.
pub open spec fn abandon_step(s: GfxState) -> (GfxState, Seq<Seq<u8>>) {
    (
        GfxState { surface_configured: false, state: State::Failed, ..s },
        removal(s.surface_configured, s.surface_id),
    )
}

/// A frame could not be encoded: the next one has to stand by itself, and after
/// some of them the pipeline is given up.
pub open spec fn failure_step(s: GfxState) -> (GfxState, FrameView) {
    let counted = GfxState {
        encode_failures: if s.encode_failures == u32::MAX {
            u32::MAX
        } else {
            (s.encode_failures + 1) as u32
        },
        force_next_idr: true,
        ..s
    };
    if counted.encode_failures >= ENCODE_FAIL_FALLBACK {
        let (after, teardown) = abandon_step(counted);
        (after, FrameView::Fallback { teardown })
    } else {
        (counted, FrameView::Skip)
    }
}

/// A picture, encoded.
#[verifier::ext_equal]
pub struct AuView {
    pub annex_b: Seq<u8>,
    pub qp: u8,
}

impl View for EncodedAu {
    type V = AuView;

    open spec fn view(&self) -> AuView {
        AuView { annex_b: self.annex_b@, qp: self.qp }
    }
}

/// The messages that carry a frame.
pub open spec fn frame_messages(s: GfxState, width: u16, height: u16, au: AuView, frame_id: u32) -> Seq<
    Seq<u8>,
> {
    seq![
        pdu::segmented(pdu::start_frame_wire(s.timestamp_ms, frame_id)),
        pdu::segmented(
            pdu::wire_to_surface_wire(
                s.surface_id,
                width,
                height,
                pdu::avc420_wire(width, height, au.qp, 100, au.annex_b),
            ),
        ),
        pdu::segmented(pdu::end_frame_wire(frame_id)),
    ]
}

/// A frame was encoded.
pub open spec fn finish_step(s: GfxState, width: u16, height: u16, au: AuView) -> (
    GfxState,
    Seq<Seq<u8>>,
) {
    let after = GfxState {
        encode_failures: 0,
        force_next_idr: false,
        next_frame_id: next_frame(s.next_frame_id),
        timestamp_ms: bytes::low32(s.timestamp_ms + 33),
        frames_in_flight: if s.frames_in_flight == u32::MAX {
            u32::MAX
        } else {
            (s.frames_in_flight + 1) as u32
        },
        frames_sent: if s.frames_sent == u64::MAX {
            u64::MAX
        } else {
            (s.frames_sent + 1) as u64
        },
        ..s
    };
    (after, frame_messages(after, width, height, au, s.next_frame_id))
}

/// One frame, from beginning to end. An encoder that gives nothing at first is
/// asked once more, for a frame that stands by itself.
pub open spec fn frame_step(
    s: GfxState,
    width: u16,
    height: u16,
    first: Option<AuView>,
    second: Option<AuView>,
) -> (GfxState, FrameView) {
    match begin_step(s, width, height) {
        (after, None) => (after, FrameView::Skip),
        (after, Some((before, _))) => {
            end_step(
                after,
                width,
                height,
                before,
                if first is Some {
                    first
                } else {
                    second
                },
            )
        },
    }
}

/// What one message of a client does.
pub open spec fn message_step(s: GfxState, message: ClientMessageView) -> (GfxState, Seq<Seq<u8>>) {
    match message {
        ClientMessageView::CapsAdvertise { sets } => caps_step(s, sets),
        ClientMessageView::FrameAcknowledge { queue_depth, .. } => (
            ack_step(s, queue_depth),
            seq![],
        ),
        _ => (s, seq![]),
    }
}

/// What a client sends, one message after the other, up to the first that
/// cannot be read.
pub open spec fn data_step(s: GfxState, b: Seq<u8>) -> (GfxState, Seq<Seq<u8>>)
    decreases b.len(),
{
    if b.len() == 0 {
        (s, seq![])
    } else {
        match pdu::parse_client_message(b) {
            Err(_) => (s, seq![]),
            Ok(message) => {
                let (after, answers) = message_step(s, message);
                let (end, more) = data_step(after, b.skip(pdu::message_len(b)));
                (end, answers + more)
            },
        }
    }
}

/// How often an encoder has to start anew after what a client sends: each time
/// that it is agreed what the client can do.
pub open spec fn data_resets(b: Seq<u8>) -> nat
    decreases b.len(),
{
    if b.len() == 0 {
        0
    } else {
        match pdu::parse_client_message(b) {
            Err(_) => 0,
            Ok(message) => {
                let now: nat = match message {
                    ClientMessageView::CapsAdvertise { sets } => if pdu::selected(sets) is Some {
                        1
                    } else {
                        0
                    },
                    _ => 0,
                };
                now + data_resets(b.skip(pdu::message_len(b)))
            },
        }
    }
}

/// The end of a frame: what goes before it, and what came of it.
pub open spec fn end_step(
    s: GfxState,
    width: u16,
    height: u16,
    before: Seq<Seq<u8>>,
    au: Option<AuView>,
) -> (GfxState, FrameView) {
    match au {
        Some(au) => {
            let (end, messages) = finish_step(s, width, height, au);
            (end, FrameView::Frames(before + messages))
        },
        None => failure_step(s),
    }
}

fn one(message: Vec<u8>) -> (v: Vec<Vec<u8>>)
    ensures
        model::views(v@) == seq![message@],
{
    let mut v: Vec<Vec<u8>> = Vec::new();
    v.push(message);
    assert(model::views(v@) =~= seq![message@]);
    v
}

fn nothing() -> (v: Vec<Vec<u8>>)
    ensures
        model::views(v@) == Seq::<Seq<u8>>::empty(),
{
    let v: Vec<Vec<u8>> = Vec::new();
    assert(model::views(v@) =~= seq![]);
    v
}

fn remove_surface(configured: bool, surface_id: u16) -> (v: Vec<Vec<u8>>)
    ensures
        model::views(v@) == removal(configured, surface_id),
{
    if configured {
        one(pdu::encode_segmented_single(pdu::encode_delete_surface(surface_id).as_slice()))
    } else {
        nothing()
    }
}

fn number_after(id: u16) -> (r: u16)
    ensures
        r == next_surface(id),
{
    if id == u16::MAX {
        1
    } else {
        id + 1
    }
}

impl GfxState {
    pub fn new(width: u16, height: u16) -> (r: Self)
        ensures
            r == initial(width, height),
    {
        Self {
            state: State::WaitCaps,
            surface_configured: false,
            surface_id: DEFAULT_SURFACE_ID,
            width,
            height,
            next_frame_id: 1,
            frames_in_flight: 0,
            frames_sent: 0,
            force_next_idr: true,
            timestamp_ms: 0,
            encode_failures: 0,
        }
    }

    fn setup_pdus(&self) -> (v: Vec<Vec<u8>>)
        ensures
            model::views(v@) == setup(*self),
    {
        let monitors: [MonitorDef; 1] = [
            MonitorDef {
                left: 0,
                top: 0,
                right: self.width as i32 - 1,
                bottom: self.height as i32 - 1,
                primary: true,
            },
        ];
        assert(monitors@ =~= seq![desktop(*self)]);
        let reset: Vec<u8> = pdu::encode_reset_graphics(
            self.width as u32,
            self.height as u32,
            &monitors,
        );
        let create: Vec<u8> = pdu::encode_create_surface(
            self.surface_id,
            self.width,
            self.height,
        );
        let map: Vec<u8> = pdu::encode_map_surface_to_output(self.surface_id, 0, 0);
        let mut v: Vec<Vec<u8>> = Vec::new();
        v.push(pdu::encode_segmented_single(reset.as_slice()));
        v.push(pdu::encode_segmented_single(create.as_slice()));
        v.push(pdu::encode_segmented_single(map.as_slice()));
        assert(model::views(v@) =~= setup(*self));
        v
    }

    /// Takes what the client says it can do. Also says whether an encoder has to
    /// start anew.
    pub fn on_caps(&mut self, sets: &[RawCapabilitySet]) -> (r: (Vec<Vec<u8>>, bool))
        ensures
            (*final(self), model::views(r.0@)) == caps_step(*old(self), model::views(sets@)),
            r.1 == pdu::selected(model::views(sets@)) is Some,
    {
        let selected: RawCapabilitySet = match pdu::select_avc420_capability(sets) {
            Some(selected) => selected,
            None => {
                self.state = State::Failed;
                return (nothing(), false);
            },
        };
        let again: bool = self.state == State::Ready && self.surface_configured;
        let mut out: Vec<Vec<u8>> = remove_surface(again, self.surface_id);
        if again {
            self.surface_id = number_after(self.surface_id);
        }
        self.state = State::Ready;
        self.force_next_idr = true;
        self.frames_in_flight = 0;
        self.frames_sent = 0;
        self.encode_failures = 0;
        let ghost removed = model::views(out@);
        out.push(
            pdu::encode_segmented_single(pdu::encode_caps_confirm(&selected).as_slice()),
        );
        let ghost confirmed = model::views(out@);
        assert(confirmed =~= removed + seq![pdu::segmented(pdu::caps_confirm_wire(selected@))]);
        if self.width > 0 && self.height > 0 {
            self.surface_configured = true;
            let mut setup: Vec<Vec<u8>> = self.setup_pdus();
            proof {
                model::lemma_views_add(out@, setup@);
            }
            out.append(&mut setup);
        } else {
            self.surface_configured = false;
            assert(confirmed + Seq::<Seq<u8>>::empty() =~= confirmed);
        }
        (out, true)
    }

    /// Takes the client's word for how many frames it has not shown yet.
    pub fn on_frame_ack(&mut self, queue_depth: u32)
        ensures
            *final(self) == ack_step(*old(self), queue_depth),
    {
        if queue_depth == QUEUE_DEPTH_UNAVAILABLE {
            self.frames_in_flight = 0;
        } else if queue_depth < MAX_FRAMES_IN_FLIGHT {
            self.frames_in_flight = queue_depth;
        } else {
            self.frames_in_flight = MAX_FRAMES_IN_FLIGHT;
        }
    }

    /// Gives the desktop another size. Also says whether an encoder has to start
    /// anew.
    pub fn resize(&mut self, width: u16, height: u16) -> (r: (Option<Vec<Vec<u8>>>, bool))
        ensures
            *final(self) == resize_step(*old(self), width, height).0,
            match resize_step(*old(self), width, height).1 {
                Some(messages) => r.0 is Some && model::views(r.0->Some_0@) == messages,
                None => r.0 is None,
            },
            r.1 == is_new_size(*old(self), width, height),
    {
        if width == 0 || height == 0 {
            return (None, false);
        }
        if self.surface_configured && self.width == width && self.height == height {
            return (None, false);
        }
        let had_surface: bool = self.surface_configured;
        let old_surface: u16 = self.surface_id;
        self.width = width;
        self.height = height;
        if had_surface {
            self.surface_id = number_after(self.surface_id);
        }
        self.force_next_idr = true;
        self.frames_in_flight = 0;
        self.surface_configured = false;
        if self.state != State::Ready {
            return (None, true);
        }
        self.surface_configured = true;
        let mut out: Vec<Vec<u8>> = remove_surface(had_surface, old_surface);
        let mut setup: Vec<Vec<u8>> = self.setup_pdus();
        proof {
            model::lemma_views_add(out@, setup@);
        }
        out.append(&mut setup);
        (Some(out), true)
    }

    fn abandon(&mut self) -> (out: Vec<Vec<u8>>)
        ensures
            (*final(self), model::views(out@)) == abandon_step(*old(self)),
    {
        let out: Vec<Vec<u8>> = remove_surface(self.surface_configured, self.surface_id);
        self.surface_configured = false;
        self.state = State::Failed;
        out
    }

    /// Takes note of a frame that could not be encoded.
    pub fn record_encode_failure(&mut self) -> (r: GfxFrameResult)
        ensures
            (*final(self), r@) == failure_step(*old(self)),
    {
        if self.encode_failures < u32::MAX {
            self.encode_failures = self.encode_failures + 1;
        }
        self.force_next_idr = true;
        if self.encode_failures >= ENCODE_FAIL_FALLBACK {
            return GfxFrameResult::Fallback { teardown: self.abandon() };
        }
        GfxFrameResult::Skip
    }

    /// Prepares for a frame: what goes before it, and whether it has to stand by
    /// itself. `None` where there is no frame to be sent. Also says whether an
    /// encoder has to start anew.
    pub fn begin_encode(&mut self, width: u16, height: u16) -> (r: (
        Option<(Vec<Vec<u8>>, bool)>,
        bool,
    ))
        ensures
            *final(self) == begin_step(*old(self), width, height).0,
            match begin_step(*old(self), width, height).1 {
                Some((before, idr)) => r.0 is Some && model::views(r.0->Some_0.0@) == before
                    && r.0->Some_0.1 == idr,
                None => r.0 is None,
            },
            r.1 == (old(self).state == State::Ready && is_new_size(*old(self), width, height)),
    {
        if self.state != State::Ready {
            return (None, false);
        }
        if width == 0 || height == 0 {
            return (None, false);
        }
        let (messages, reset) = self.resize(width, height);
        let before: Vec<Vec<u8>> = match messages {
            Some(messages) => messages,
            None => nothing(),
        };
        if self.frames_in_flight >= MAX_FRAMES_IN_FLIGHT {
            self.frames_in_flight = MAX_FRAMES_IN_FLIGHT / 2;
            self.force_next_idr = true;
        }
        let force_idr: bool = self.force_next_idr || self.frames_sent % IDR_INTERVAL_FRAMES == 0;
        (Some((before, force_idr)), reset)
    }

    /// Takes note of a frame that was encoded, and gives its messages.
    pub fn finish_encode(&mut self, width: u16, height: u16, encoded: &EncodedAu) -> (v: Vec<
        Vec<u8>,
    >)
        ensures
            (*final(self), model::views(v@)) == finish_step(*old(self), width, height, encoded@),
    {
        self.encode_failures = 0;
        self.force_next_idr = false;
        let frame_id: u32 = self.next_frame_id;
        self.next_frame_id = if frame_id == u32::MAX {
            1
        } else {
            frame_id + 1
        };
        self.timestamp_ms = self.timestamp_ms.wrapping_add(33);
        if self.frames_in_flight < u32::MAX {
            self.frames_in_flight = self.frames_in_flight + 1;
        }
        if self.frames_sent < u64::MAX {
            self.frames_sent = self.frames_sent + 1;
        }
        let bitmap: Vec<u8> = pdu::encode_avc420_bitmap_stream(
            width,
            height,
            encoded.qp,
            100,
            encoded.annex_b.as_slice(),
        );
        let start: Vec<u8> = pdu::encode_start_frame(self.timestamp_ms, frame_id);
        let draw: Vec<u8> = pdu::encode_wire_to_surface_1_avc420(
            self.surface_id,
            width,
            height,
            bitmap.as_slice(),
        );
        let end: Vec<u8> = pdu::encode_end_frame(frame_id);
        let mut v: Vec<Vec<u8>> = Vec::new();
        v.push(pdu::encode_segmented_single(start.as_slice()));
        v.push(pdu::encode_segmented_single(draw.as_slice()));
        v.push(pdu::encode_segmented_single(end.as_slice()));
        assert(model::views(v@) =~= frame_messages(*self, width, height, encoded@, frame_id));
        v
    }

    /// Takes note of what became of a frame, and gives it with what goes before it.
    pub fn end_encode(
        &mut self,
        width: u16,
        height: u16,
        before: Vec<Vec<u8>>,
        encoded: Option<EncodedAu>,
    ) -> (r: GfxFrameResult)
        ensures
            (*final(self), r@) == end_step(
                *old(self),
                width,
                height,
                model::views(before@),
                model::opt_view(encoded),
            ),
    {
        match encoded {
            Some(au) => {
                let mut frames: Vec<Vec<u8>> = before;
                let mut messages: Vec<Vec<u8>> = self.finish_encode(width, height, &au);
                proof {
                    model::lemma_views_add(frames@, messages@);
                }
                frames.append(&mut messages);
                GfxFrameResult::Frames(frames)
            },
            None => self.record_encode_failure(),
        }
    }

    /// Takes what the client sends, and gives the answers. Also says how often an
    /// encoder has to start anew.
    pub fn on_data(&mut self, data: &[u8]) -> (r: (Vec<Vec<u8>>, usize))
        ensures
            (*final(self), model::views(r.0@)) == data_step(*old(self), data@),
            r.1 == data_resets(data@),
    {
        let ghost start = *self;
        let mut out: Vec<Vec<u8>> = nothing();
        let mut resets: usize = 0;
        let mut pos: usize = 0;
        let n: usize = data.len();
        assert(data@.skip(0) =~= data@);
        assert(data_step(start, data@).1 =~= model::views(out@) + data_step(*self, data@).1);
        while pos < n
            invariant
                pos <= n,
                n == data@.len(),
                resets <= pos,
                data_resets(data@) == resets + data_resets(data@.skip(pos as int)),
                data_step(start, data@).0 == data_step(*self, data@.skip(pos as int)).0,
                data_step(start, data@).1 == model::views(out@) + data_step(
                    *self,
                    data@.skip(pos as int),
                ).1,
            ensures
                (*self, model::views(out@)) == data_step(start, data@),
                resets == data_resets(data@),
            decreases n - pos,
        {
            let ghost s = *self;
            let ghost had = model::views(out@);
            let rest: &[u8] = vstd::slice::slice_subrange(data, pos, n);
            assert(rest@ =~= data@.skip(pos as int));
            let message: ClientMessage = match pdu::decode_client_message(rest) {
                Ok(message) => message,
                Err(_) => {
                    assert(had + Seq::<Seq<u8>>::empty() =~= had);
                    break;
                },
            };
            let ghost m = message@;
            let len: usize = read_len(rest);
            let mut answers: Vec<Vec<u8>> = nothing();
            match message {
                ClientMessage::CapsAdvertise { sets } => {
                    let (messages, reset) = self.on_caps(sets.as_slice());
                    if reset {
                        resets = resets + 1;
                    }
                    answers = messages;
                },
                ClientMessage::FrameAcknowledge { queue_depth, .. } => {
                    self.on_frame_ack(queue_depth);
                },
                ClientMessage::CacheImportOffer => {},
                ClientMessage::Other { .. } => {},
            }
            proof {
                assert((*self, model::views(answers@)) == message_step(s, m));
                assert(rest@.skip(len as int) =~= data@.skip(pos + len));
                model::lemma_views_add(out@, answers@);
                assert(had + data_step(s, rest@).1 =~= (had + model::views(answers@)) + data_step(
                    *self,
                    data@.skip(pos + len),
                ).1);
            }
            out.append(&mut answers);
            pos = pos + len;
            if pos >= n {
                assert(data@.skip(pos as int).len() == 0);
                assert(model::views(out@) + Seq::<Seq<u8>>::empty() =~= model::views(out@));
            }
        }
        (out, resets)
    }
}

/// A picture that can be sent: an encoder that fails, or gives no bytes, has
/// given none.
pub open spec fn usable_of(encoded: Result<EncodedAu, EncoderError>) -> Option<AuView> {
    match encoded {
        Ok(au) => if au.annex_b@.len() > 0 {
            Some(au@)
        } else {
            None
        },
        Err(_) => None,
    }
}

/// A picture that can be sent: an encoder that fails, or gives no bytes, has
/// given none.
pub fn usable(encoded: Result<EncodedAu, EncoderError>) -> (r: Option<EncodedAu>)
    ensures
        model::opt_view(r) == usable_of(encoded),
{
    match encoded {
        Ok(au) => if au.annex_b.len() > 0 {
            Some(au)
        } else {
            None
        },
        Err(_) => None,
    }
}

/// One call of a method of an encoder.
pub enum Asked {
    Reset,
    Picture {
        width: u16,
        height: u16,
        stride: usize,
        pixels: Seq<u8>,
        idr: bool,
        outcome: Result<EncodedAu, EncoderError>,
    },
}

/// An encoder is asked for a picture, and that is what comes of it.
pub open spec fn encoded_by<E: H264Encoder + ?Sized>(
    e: &mut E,
    width: u16,
    height: u16,
    stride: usize,
    pixels: Seq<u8>,
    idr: bool,
    outcome: Result<EncodedAu, EncoderError>,
) -> bool {
    exists|data: &[u8]|
        data@ == pixels && #[trigger] call_ensures(
            E::encode_bgrx,
            (e, width, height, stride, data, idr),
            outcome,
        )
}

impl<E: H264Encoder + ?Sized> CallOf<E> for Asked {
    open spec fn made_of(self, e: &mut E) -> bool {
        match self {
            Asked::Reset => call_ensures(E::reset, (e,), ()),
            Asked::Picture { width, height, stride, pixels, idr, outcome } => encoded_by(
                e,
                width,
                height,
                stride,
                pixels,
                idr,
                outcome,
            ),
        }
    }
}

/// The calls by which an encoder is asked for a picture: as it has to be and,
/// where none comes that can be sent, once more, for one that stands by itself.
pub open spec fn asked_twice(
    calls: Seq<Asked>,
    width: u16,
    height: u16,
    stride: usize,
    pixels: Seq<u8>,
    idr: bool,
    first: Option<AuView>,
    second: Option<AuView>,
) -> bool {
    &&& calls.len() == if first is Some {
        1int
    } else {
        2
    }
    &&& exists|outcome: Result<EncodedAu, EncoderError>|
        first == #[trigger] usable_of(outcome) && calls[0] == (Asked::Picture {
            width,
            height,
            stride,
            pixels,
            idr,
            outcome,
        })
    &&& first is None ==> exists|outcome: Result<EncodedAu, EncoderError>|
        second == #[trigger] usable_of(outcome) && calls[1] == (Asked::Picture {
            width,
            height,
            stride,
            pixels,
            idr: true,
            outcome,
        })
}

/// The calls that one frame makes of an encoder: it starts anew where the size is
/// another, and is asked for a picture where one is due.
pub open spec fn frame_calls(
    s: GfxState,
    width: u16,
    height: u16,
    stride: usize,
    pixels: Seq<u8>,
    first: Option<AuView>,
    second: Option<AuView>,
    anew: Seq<Asked>,
    calls: Seq<Asked>,
) -> bool {
    &&& anew == (if s.state == State::Ready && is_new_size(s, width, height) {
        seq![Asked::Reset]
    } else {
        seq![]
    })
    &&& match begin_step(s, width, height).1 {
        None => calls.len() == 0,
        Some((_, idr)) => asked_twice(calls, width, height, stride, pixels, idr, first, second),
    }
}

fn start_anew<E: H264Encoder + ?Sized>(encoder: &mut E)
    ensures
        exists|e: &mut E|
            &*e == &*old(encoder) && &*final(e) == &*final(encoder)
                && #[trigger] Asked::Reset.made_of(e),
{
    encoder.reset();
    assert(forall|e: &mut E| #[trigger]
        call_ensures(E::reset, (e,), ()) ==> Asked::Reset.made_of(e));
}

fn ask<E: H264Encoder + ?Sized>(
    encoder: &mut E,
    width: u16,
    height: u16,
    stride: usize,
    pixels: &[u8],
    idr: bool,
) -> (outcome: Result<EncodedAu, EncoderError>)
    ensures
        ({
            let call = Asked::Picture { width, height, stride, pixels: pixels@, idr, outcome };
            exists|e: &mut E|
                &*e == &*old(encoder) && &*final(e) == &*final(encoder)
                    && #[trigger] call.made_of(e)
        }),
{
    let outcome: Result<EncodedAu, EncoderError> = encoder.encode_bgrx(
        width,
        height,
        stride,
        pixels,
        idr,
    );
    proof {
        let call = Asked::Picture { width, height, stride, pixels: pixels@, idr, outcome };
        assert forall|e: &mut E| #[trigger]
            call_ensures(
                E::encode_bgrx,
                (e, width, height, stride, pixels, idr),
                outcome,
            ) implies call.made_of(e) by {
            assert(encoded_by(e, width, height, stride, pixels@, idr, outcome));
        }
    }
    outcome
}

/// Asks an encoder for a picture and, where none comes that can be sent, once
/// more, for one that stands by itself. Gives the calls too.
fn ask_twice<E: H264Encoder + ?Sized>(
    encoder: &mut Box<E>,
    width: u16,
    height: u16,
    stride: usize,
    pixels: &[u8],
    idr: bool,
) -> (r: (Option<EncodedAu>, Ghost<(Option<AuView>, Option<AuView>, Seq<Asked>)>))
    ensures
        ({
            let (first, second, calls) = r.1@;
            &&& asked_twice(calls, width, height, stride, pixels@, idr, first, second)
            &&& model::opt_view(r.0) == (if first is Some {
                first
            } else {
                second
            })
        }),
        exists|es: Seq<&mut E>| #[trigger]
            trace::ran(&*old(encoder), es, r.1@.2, &*final(encoder)) && forall|i: int|
                0 <= i < es.len() ==> &*final(#[trigger] es[i]) == trace::at(
                    es,
                    i + 1,
                    &*final(encoder),
                ),
{
    let outcome: Result<EncodedAu, EncoderError> = ask(
        &mut **encoder,
        width,
        height,
        stride,
        pixels,
        idr,
    );
    let ghost one = Asked::Picture { width, height, stride, pixels: pixels@, idr, outcome };
    let ghost mid = &*encoder;
    let ghost first = usable_of(outcome);
    proof {
        trace::lemma_ran_one(&*old(encoder), one, mid);
    }
    let tried: Option<EncodedAu> = usable(outcome);
    if tried.is_some() {
        let ghost calls = seq![one];
        let r: (Option<EncodedAu>, Ghost<(Option<AuView>, Option<AuView>, Seq<Asked>)>) = (
            tried,
            Ghost((first, None, calls)),
        );
        assert(r.1@.2 == calls);
        return r;
    }
    let again: Result<EncodedAu, EncoderError> = ask(
        &mut **encoder,
        width,
        height,
        stride,
        pixels,
        true,
    );
    let ghost two = Asked::Picture {
        width,
        height,
        stride,
        pixels: pixels@,
        idr: true,
        outcome: again,
    };
    let ghost second = usable_of(again);
    let ghost calls = seq![one] + seq![two];
    proof {
        trace::lemma_ran_one(mid, two, &*encoder);
        trace::lemma_ran_add(&*old(encoder), seq![one], mid, seq![two], &*encoder);
        assert(calls[0] == one);
        assert(calls[1] == two);
    }
    let r: (Option<EncodedAu>, Ghost<(Option<AuView>, Option<AuView>, Seq<Asked>)>) = (
        usable(again),
        Ghost((first, second, calls)),
    );
    assert(r.1@.2 == calls);
    r
}

/// Asks an encoder for a picture and, where none comes that can be sent, once
/// more, for one that stands by itself.
pub fn encode_twice<E: H264Encoder + ?Sized>(
    encoder: &mut Box<E>,
    width: u16,
    height: u16,
    stride: usize,
    pixels: &[u8],
    idr: bool,
) -> (r: Option<EncodedAu>)
    ensures
        exists|
            first: Option<AuView>,
            second: Option<AuView>,
            calls: Seq<Asked>,
            es: Seq<&mut E>,
        |
            #[trigger] asked_twice(
                calls,
                width,
                height,
                stride,
                pixels@,
                idr,
                first,
                second,
            ) && model::opt_view(r) == (if first is Some {
                first
            } else {
                second
            }) && #[trigger] trace::ran(&*old(encoder), es, calls, &*final(encoder)) && forall|
                i: int,
            |
                0 <= i < es.len() ==> &*final(#[trigger] es[i]) == trace::at(
                    es,
                    i + 1,
                    &*final(encoder),
                ),
{
    let (r, Ghost(told)) = ask_twice(encoder, width, height, stride, pixels, idr);
    assert(asked_twice(told.2, width, height, stride, pixels@, idr, told.0, told.1));
    r
}

/// The encoder whose pictures are no pictures, held as one of the encoders.
pub open spec fn held_mock(e: Box<MockH264Encoder>) -> Held<Box<dyn H264Encoder>> {
    Held { value: e }
}

fn hold_mock(e: Box<MockH264Encoder>) -> (r: Held<Box<dyn H264Encoder>>)
    ensures
        r == held_mock(e),
{
    Held { value: e }
}

/// The graphics pipeline of one connection, with its encoder.
pub struct GfxSession {
    inner: GfxState,
    encoder: Held<Box<dyn H264Encoder>>,
}

impl View for GfxSession {
    type V = GfxState;

    closed spec fn view(&self) -> GfxState {
        self.inner
    }
}

impl GfxSession {
    pub fn new(encoder: Box<dyn H264Encoder>, width: u16, height: u16) -> (r: Self)
        ensures
            r@ == initial(width, height),
            r.encoder() == &encoder,
    {
        let held = Held { value: encoder };
        Self { inner: GfxState::new(width, height), encoder: held }
    }

    /// The encoder of the session, as it is.
    pub closed spec fn encoder(&self) -> &Box<dyn H264Encoder> {
        &self.encoder.value
    }

    /// A session whose pictures are no pictures.
    pub fn mock(width: u16, height: u16) -> (r: Self)
        ensures
            r@ == initial(width, height),
            *r.encoder() == held_mock(Box::new(MockH264Encoder { frames: 0 })).value,
    {
        let held = hold_mock(Box::new(MockH264Encoder { frames: 0 }));
        Self { inner: GfxState::new(width, height), encoder: held }
    }

    pub fn is_ready(&self) -> (r: bool)
        ensures
            r == (self@.state == State::Ready),
    {
        self.inner.state == State::Ready
    }

    pub fn failed(&self) -> (r: bool)
        ensures
            r == (self@.state == State::Failed),
    {
        self.inner.state == State::Failed
    }

    /// Lets the encoder start anew, where it has to.
    fn reset_encoder(&mut self, reset: bool) -> (calls: Ghost<Seq<Asked>>)
        ensures
            final(self)@ == old(self)@,
            calls@ == (if reset {
                seq![Asked::Reset]
            } else {
                seq![]
            }),
            exists|es: Seq<&mut dyn H264Encoder>| #[trigger]
                trace::ran(old(self).encoder(), es, calls@, final(self).encoder()) && forall|i: int|
                    0 <= i < es.len() ==> &*final(#[trigger] es[i]) == trace::at(
                        es,
                        i + 1,
                        final(self).encoder(),
                    ),
    {
        let ghost mut calls: Seq<Asked> = seq![];
        if reset {
            start_anew(&mut *self.encoder.value);
            proof {
                calls = seq![Asked::Reset];
                trace::lemma_ran_one(old(self).encoder(), Asked::Reset, self.encoder());
            }
        } else {
            proof {
                trace::lemma_ran_none::<dyn H264Encoder, Asked>(self.encoder());
            }
        }
        Ghost(calls)
    }

    /// Encodes one picture and gives what comes of it. An encoder that gives
    /// nothing is asked once more, for a frame that stands by itself.
    pub fn encode_frame(&mut self, width: u16, height: u16, stride: usize, pixels: &[u8]) -> (r:
        GfxFrameResult)
        ensures
            exists|
                first: Option<AuView>,
                second: Option<AuView>,
                anew: Seq<Asked>,
                calls: Seq<Asked>,
            |
                (final(self)@, r@) == frame_step(old(self)@, width, height, first, second)
                    && #[trigger] frame_calls(
                    old(self)@,
                    width,
                    height,
                    stride,
                    pixels@,
                    first,
                    second,
                    anew,
                    calls,
                ) && exists|es: Seq<&mut dyn H264Encoder>| #[trigger]
                        trace::ran(
                            old(self).encoder(),
                            es,
                            anew + calls,
                            final(self).encoder(),
                        ) && forall|i: int|
                            0 <= i < es.len() ==> &*final(#[trigger] es[i]) == trace::at(
                                es,
                                i + 1,
                                final(self).encoder(),
                            ),
    {
        let ghost s = self@;
        let (begun, reset) = self.inner.begin_encode(width, height);
        let Ghost(anew) = self.reset_encoder(reset);
        let ghost mid = self.encoder();
        let (before, force_idr) = match begun {
            Some(begun) => begun,
            None => {
                proof {
                    assert((self@, FrameView::Skip) == frame_step(s, width, height, None, None));
                    assert(anew + Seq::<Asked>::empty() =~= anew);
                    assert(frame_calls(
                        s,
                        width,
                        height,
                        stride,
                        pixels@,
                        None,
                        None,
                        anew,
                        seq![],
                    ));
                }
                return GfxFrameResult::Skip;
            },
        };
        let (encoded, Ghost(told)) = ask_twice(
            &mut self.encoder.value,
            width,
            height,
            stride,
            pixels,
            force_idr,
        );
        proof {
            trace::lemma_ran_add(old(self).encoder(), anew, mid, told.2, self.encoder());
        }
        let ghost end = self.encoder();
        let r = self.inner.end_encode(width, height, before, encoded);
        proof {
            assert(self.encoder() == end);
            assert((self@, r@) == frame_step(s, width, height, told.0, told.1));
            assert(frame_calls(
                s,
                width,
                height,
                stride,
                pixels@,
                told.0,
                told.1,
                anew,
                told.2,
            ));
        }
        r
    }

    /// Gives the desktop another size, and gives the messages that say so. The
    /// encoder starts anew where the size is another.
    pub fn resize(&mut self, width: u16, height: u16) -> (r: Option<Vec<Vec<u8>>>)
        ensures
            final(self)@ == resize_step(old(self)@, width, height).0,
            match resize_step(old(self)@, width, height).1 {
                Some(messages) => r is Some && model::views(r->Some_0@) == messages,
                None => r is None,
            },
            if is_new_size(old(self)@, width, height) {
                exists|es: Seq<&mut dyn H264Encoder>| #[trigger]
                    trace::ran(
                        old(self).encoder(),
                        es,
                        seq![Asked::Reset],
                        final(self).encoder(),
                    ) && forall|i: int|
                        0 <= i < es.len() ==> &*final(#[trigger] es[i]) == trace::at(
                            es,
                            i + 1,
                            final(self).encoder(),
                        )
            } else {
                final(self).encoder() == old(self).encoder()
            },
    {
        let (messages, reset) = self.inner.resize(width, height);
        assert(self.encoder() == old(self).encoder());
        if reset {
            self.reset_encoder(true);
        }
        messages
    }

    /// Takes what the client sends, and gives the answers. The encoder starts anew
    /// each time that it is agreed what the client can do.
    pub fn on_data(&mut self, data: &[u8]) -> (out: Vec<Vec<u8>>)
        ensures
            (final(self)@, model::views(out@)) == data_step(old(self)@, data@),
            ({
                let calls = Seq::new(data_resets(data@), |i: int| Asked::Reset);
                exists|es: Seq<&mut dyn H264Encoder>| #[trigger]
                    trace::ran(
                        old(self).encoder(),
                        es,
                        calls,
                        final(self).encoder(),
                    ) && forall|i: int|
                        0 <= i < es.len() ==> &*final(#[trigger] es[i]) == trace::at(
                            es,
                            i + 1,
                            final(self).encoder(),
                        )
            }),
    {
        let (out, resets) = self.inner.on_data(data);
        assert(self.encoder() == old(self).encoder());
        let mut i: usize = 0;
        let ghost mut calls: Seq<Asked> = seq![];
        proof {
            trace::lemma_ran_none::<dyn H264Encoder, Asked>(self.encoder());
        }
        while i < resets
            invariant
                i <= resets,
                self@ == data_step(old(self)@, data@).0,
                calls == Seq::new(i as nat, |k: int| Asked::Reset),
                exists|es: Seq<&mut dyn H264Encoder>| #[trigger]
                    trace::ran(old(self).encoder(), es, calls, self.encoder()) && forall|i: int|
                        0 <= i < es.len() ==> &*final(#[trigger] es[i]) == trace::at(
                            es,
                            i + 1,
                            self.encoder(),
                        ),
            decreases resets - i,
        {
            let ghost mid = self.encoder();
            let ghost so_far = calls;
            let Ghost(more) = self.reset_encoder(true);
            proof {
                trace::lemma_ran_add(old(self).encoder(), so_far, mid, more, self.encoder());
                calls = so_far + more;
                assert(calls =~= Seq::new((i + 1) as nat, |k: int| Asked::Reset));
            }
            i += 1;
        }
        assert(calls =~= Seq::new(data_resets(data@), |i: int| Asked::Reset));
        out
    }

    /// The session as the handler of its channel.
    pub fn dvc_handler(&mut self) -> (h: GfxDvcHandler<'_>)
        ensures
            *h.session == *old(self),
            *final(self) == *final(h.session),
    {
        GfxDvcHandler { session: self }
    }
}

/// How long the first message says it is.
fn read_len(b: &[u8]) -> (n: usize)
    requires
        pdu::parse_client_message(b@) is Ok,
    ensures
        n == pdu::message_len(b@),
        8 <= n <= b@.len(),
{
    let mut cursor = crate::cursor::ReadCursor::new(b);
    cursor.advance(4);
    match cursor.read_u32_le() {
        Ok(n) => n as usize,
        Err(_) => {
            assert(false);
            8
        },
    }
}

/// A session as the handler of its channel.
pub struct GfxDvcHandler<'a> {
    pub session: &'a mut GfxSession,
}

impl<'a> DvcHandler for GfxDvcHandler<'a> {
    fn channel_name(&self) -> (name: &str)
        ensures
            name@ == pdu::CHANNEL_NAME@,
    {
        pdu::CHANNEL_NAME
    }

    fn on_open(&mut self) -> (out: Vec<Vec<u8>>)
        ensures
            out@.len() == 0,
            final(self).session@ == old(self).session@,
            final(self).session.encoder() == old(self).session.encoder(),
    {
        Vec::new()
    }

    fn on_data(&mut self, data: &[u8]) -> (out: Vec<Vec<u8>>)
        ensures
            (final(self).session@, model::views(out@)) == data_step(old(self).session@, data@),
            ({
                let calls = Seq::new(data_resets(data@), |i: int| Asked::Reset);
                exists|es: Seq<&mut dyn H264Encoder>| #[trigger]
                    trace::ran(
                        old(self).session.encoder(),
                        es,
                        calls,
                        final(self).session.encoder(),
                    ) && forall|i: int|
                        0 <= i < es.len() ==> &*final(#[trigger] es[i]) == trace::at(
                            es,
                            i + 1,
                            final(self).session.encoder(),
                        )
            }),
    {
        self.session.on_data(data)
    }
}

/// No surface and no frame ever has the number zero.
pub open spec fn numbered(s: GfxState) -> bool {
    s.surface_id > 0 && s.next_frame_id > 0
}

/// Whatever happens, no surface and no frame ever has the number zero.
pub proof fn law_numbered(
    s: GfxState,
    message: ClientMessageView,
    width: u16,
    height: u16,
    first: Option<AuView>,
    second: Option<AuView>,
)
    requires
        numbered(s),
    ensures
        numbered(initial(width, height)),
        numbered(message_step(s, message).0),
        numbered(resize_step(s, width, height).0),
        numbered(frame_step(s, width, height, first, second).0),
{
}

/// A client that says again what it can do gets another surface: the old one is
/// taken away first, and their numbers differ.
pub proof fn law_agreed_again(s: GfxState, sets: Seq<pdu::RawCapabilitySetView>)
    requires
        s.state == State::Ready,
        s.surface_configured,
        pdu::selected(sets) is Some,
    ensures
        caps_step(s, sets).0.surface_id != s.surface_id,
        caps_step(s, sets).1.len() >= 1,
        caps_step(s, sets).1[0] == pdu::segmented(pdu::delete_surface_wire(s.surface_id)),
{
}

/// A desktop of another size gets another surface: the old one is taken away
/// first, their numbers differ, and the next frame stands by itself.
pub proof fn law_resized(s: GfxState, width: u16, height: u16)
    requires
        s.state == State::Ready,
        s.surface_configured,
        is_new_size(s, width, height),
    ensures
        resize_step(s, width, height).0.surface_id != s.surface_id,
        resize_step(s, width, height).0.width == width,
        resize_step(s, width, height).0.height == height,
        resize_step(s, width, height).0.force_next_idr,
        resize_step(s, width, height).1 is Some,
        resize_step(s, width, height).1->Some_0.len() == 4,
        resize_step(s, width, height).1->Some_0[0] == pdu::segmented(
            pdu::delete_surface_wire(s.surface_id),
        ),
{
}

/// However many frames are on their way, and however slow a client is to say
/// that it has them, there is always a next frame.
pub proof fn law_never_stuck(s: GfxState, width: u16, height: u16, au: AuView)
    requires
        s.state == State::Ready,
        width > 0,
        height > 0,
    ensures
        frame_step(s, width, height, Some(au), None).1 is Frames,
        frame_step(s, width, height, None, Some(au)).1 is Frames,
        frame_step(s, width, height, Some(au), None).0.surface_configured,
{
}

/// Before anything has been agreed on, and for a desktop without a size, there
/// are no frames, and nothing changes.
pub proof fn law_skipped(
    s: GfxState,
    width: u16,
    height: u16,
    first: Option<AuView>,
    second: Option<AuView>,
)
    requires
        s.state != State::Ready || width == 0 || height == 0,
    ensures
        frame_step(s, width, height, first, second) == (s, FrameView::Skip),
{
}

/// Three frames that fail one after the other are the end of the pipeline, and
/// the surface is taken away; two are not.
pub proof fn law_given_up(s: GfxState)
    requires
        s.state == State::Ready,
        s.surface_configured,
        s.encode_failures == 0,
    ensures
        ({
            let (one, first) = failure_step(s);
            let (two, second) = failure_step(one);
            let (three, third) = failure_step(two);
            &&& first == FrameView::Skip
            &&& second == FrameView::Skip
            &&& two.state == State::Ready
            &&& third == (FrameView::Fallback {
                teardown: seq![pdu::segmented(pdu::delete_surface_wire(s.surface_id))],
            })
            &&& three.state == State::Failed
            &&& !three.surface_configured
        }),
{
}

/// A frame that was sent makes up for those that failed before it.
pub proof fn law_made_up(s: GfxState, width: u16, height: u16, au: AuView)
    ensures
        finish_step(s, width, height, au).0.encode_failures == 0,
        finish_step(s, width, height, au).1.len() == 3,
{
}

/// The first frame stands by itself, and so does one in thirty after it.
pub proof fn law_stands_by_itself(s: GfxState, width: u16, height: u16)
    requires
        s.state == State::Ready,
        width > 0,
        height > 0,
        s.frames_sent % IDR_INTERVAL_FRAMES == 0 || s.force_next_idr,
    ensures
        begin_step(s, width, height).1 is Some,
        begin_step(s, width, height).1->Some_0.1,
{
}

/// A pipeline starts with nothing agreed on, the surface 1 not set up, the frame 1 next,
/// and that one to stand by itself.
pub proof fn law_start(width: u16, height: u16, s: GfxState)
    requires
        call_ensures(GfxState::new, (width, height), s),
    ensures
        s.state == State::WaitCaps,
        !s.surface_configured,
        s.surface_id == 1,
        s.width == width,
        s.height == height,
        s.next_frame_id == 1,
        s.frames_in_flight == 0,
        s.frames_sent == 0,
        s.force_next_idr,
        s.timestamp_ms == 0,
        s.encode_failures == 0,
{
}

/// Where a set of capabilities can be agreed on, the messages are, in this order: the old
/// surface is taken away, where there is one; the set is confirmed; and the graphics are
/// reset to the size of the desktop, a surface of that size is made and put at the top
/// left, where the desktop has a size. Where none can, the pipeline has failed.
pub proof fn law_agreed(a: &mut GfxState, sets: &[RawCapabilitySet], r: (Vec<Vec<u8>>, bool))
    requires
        call_ensures(GfxState::on_caps, (a, sets), r),
    ensures
        r.1 <==> pdu::selected(model::views(sets@)) is Some,
        !r.1 ==> r.0@.len() == 0 && *final(a) == (GfxState { state: State::Failed, ..*old(a) }),
        r.1 ==> ({
            let again: int = if old(a).state == State::Ready && old(a).surface_configured {
                1
            } else {
                0
            };
            let sized = old(a).width > 0 && old(a).height > 0;
            let out = model::views(r.0@);
            let s = *final(a);
            &&& s.state == State::Ready
            &&& s.force_next_idr
            &&& s.frames_in_flight == 0
            &&& s.frames_sent == 0
            &&& s.encode_failures == 0
            &&& s.width == old(a).width
            &&& s.height == old(a).height
            &&& s.next_frame_id == old(a).next_frame_id
            &&& s.timestamp_ms == old(a).timestamp_ms
            &&& s.surface_configured == sized
            &&& again == 0 ==> s.surface_id == old(a).surface_id
            &&& again == 1 && old(a).surface_id < 65535 ==> s.surface_id == old(a).surface_id + 1
            &&& again == 1 && old(a).surface_id == 65535 ==> s.surface_id == 1
            &&& again == 1 ==> out[0] == pdu::segmented(pdu::delete_surface_wire(old(a).surface_id))
            &&& out[again] == pdu::segmented(
                pdu::caps_confirm_wire(pdu::selected(model::views(sets@))->Some_0),
            )
            &&& !sized ==> out.len() == again + 1
            &&& sized ==> {
                &&& out.len() == again + 4
                &&& out[again + 1] == pdu::segmented(
                    pdu::reset_graphics_wire(
                        s.width as u32,
                        s.height as u32,
                        seq![
                            MonitorDef {
                                left: 0,
                                top: 0,
                                right: (s.width - 1) as i32,
                                bottom: (s.height - 1) as i32,
                                primary: true,
                            },
                        ],
                    ),
                )
                &&& out[again + 2] == pdu::segmented(
                    pdu::create_surface_wire(s.surface_id, s.width, s.height),
                )
                &&& out[again + 3] == pdu::segmented(pdu::map_surface_wire(s.surface_id, 0, 0))
            }
        }),
{
    assert(model::views(r.0@).len() == r.0@.len());
}

/// A client that has not shown so many frames has so many on their way, but for what it
/// does not know, which counts as none, and for more than 32, which count as 32.
pub proof fn law_acknowledged(a: &mut GfxState, queue_depth: u32)
    requires
        call_ensures(GfxState::on_frame_ack, (a, queue_depth), ()),
    ensures
        final(a).frames_in_flight == (if queue_depth == 0xffff_ffff {
            0
        } else if queue_depth <= 32 {
            queue_depth
        } else {
            32
        }),
        *final(a) == (GfxState { frames_in_flight: final(a).frames_in_flight, ..*old(a) }),
{
}

/// A desktop of another size: the old surface is taken away, and the graphics are reset
/// to the new size, which a surface then has. Nothing is said of it before anything has
/// been agreed on.
pub proof fn law_new_size(
    a: &mut GfxState,
    width: u16,
    height: u16,
    r: (Option<Vec<Vec<u8>>>, bool),
)
    requires
        call_ensures(GfxState::resize, (a, width, height), r),
    ensures
        r.1 <==> width > 0 && height > 0 && (!old(a).surface_configured || old(a).width != width
            || old(a).height != height),
        !r.1 ==> r.0 is None && *final(a) == *old(a),
        r.1 ==> ({
            let s = *final(a);
            let gone: int = if old(a).surface_configured {
                1
            } else {
                0
            };
            &&& s.width == width
            &&& s.height == height
            &&& s.state == old(a).state
            &&& s.force_next_idr
            &&& s.frames_in_flight == 0
            &&& s.next_frame_id == old(a).next_frame_id
            &&& s.frames_sent == old(a).frames_sent
            &&& s.surface_configured <==> old(a).state == State::Ready
            &&& gone == 0 ==> s.surface_id == old(a).surface_id
            &&& gone == 1 && old(a).surface_id < 65535 ==> s.surface_id == old(a).surface_id + 1
            &&& gone == 1 && old(a).surface_id == 65535 ==> s.surface_id == 1
            &&& r.0 is Some <==> old(a).state == State::Ready
            &&& r.0 is Some ==> {
                let out = model::views(r.0->Some_0@);
                &&& out.len() == gone + 3
                &&& gone == 1 ==> out[0] == pdu::segmented(
                    pdu::delete_surface_wire(old(a).surface_id),
                )
                &&& out[gone] == pdu::segmented(
                    pdu::reset_graphics_wire(
                        width as u32,
                        height as u32,
                        seq![
                            MonitorDef {
                                left: 0,
                                top: 0,
                                right: (width - 1) as i32,
                                bottom: (height - 1) as i32,
                                primary: true,
                            },
                        ],
                    ),
                )
                &&& out[gone + 1] == pdu::segmented(
                    pdu::create_surface_wire(s.surface_id, width, height),
                )
                &&& out[gone + 2] == pdu::segmented(pdu::map_surface_wire(s.surface_id, 0, 0))
            }
        }),
{
}

/// A frame is due where the pipeline is ready and the picture has a size. It has to stand
/// by itself where that was asked for, where the surface is new, where 32 frames or more
/// are on their way, and else for one frame in thirty.
pub proof fn law_frame_due(
    a: &mut GfxState,
    width: u16,
    height: u16,
    r: (Option<(Vec<Vec<u8>>, bool)>, bool),
)
    requires
        call_ensures(GfxState::begin_encode, (a, width, height), r),
    ensures
        r.0 is Some <==> old(a).state == State::Ready && width > 0 && height > 0,
        r.0 is None ==> *final(a) == *old(a) && !r.1,
        r.0 is Some ==> ({
            let same = old(a).surface_configured && old(a).width == width && old(a).height
                == height;
            let crowded = same && old(a).frames_in_flight >= 32;
            let s = *final(a);
            &&& r.1 == !same
            &&& same ==> r.0->Some_0.0@.len() == 0
            &&& r.0->Some_0.1 <==> old(a).force_next_idr || !same || crowded || old(a).frames_sent
                % 30 == 0
            &&& s.width == width
            &&& s.height == height
            &&& s.frames_sent == old(a).frames_sent
            &&& !same ==> s.frames_in_flight == 0
            &&& crowded ==> s.frames_in_flight == 16
            &&& same && !crowded ==> s.frames_in_flight == old(a).frames_in_flight
        }),
{
    if r.0 is Some {
        assert(model::views(r.0->Some_0.0@).len() == r.0->Some_0.0@.len());
    }
}

/// A frame that was encoded is three messages: one that starts it with its number and its
/// time, 33 ms after the one before, one that draws the picture on the surface, and one
/// that ends it.
pub proof fn law_frame_sent(
    a: &mut GfxState,
    width: u16,
    height: u16,
    encoded: &EncodedAu,
    v: Vec<Vec<u8>>,
)
    requires
        call_ensures(GfxState::finish_encode, (a, width, height, encoded), v),
    ensures
        ({
            let s = *final(a);
            let n = old(a).next_frame_id;
            let out = model::views(v@);
            &&& out.len() == 3
            &&& out[0] == pdu::segmented(pdu::start_frame_wire(s.timestamp_ms, n))
            &&& out[1] == pdu::segmented(
                pdu::wire_to_surface_wire(
                    old(a).surface_id,
                    width,
                    height,
                    pdu::avc420_wire(width, height, encoded.qp, 100, encoded.annex_b@),
                ),
            )
            &&& out[2] == pdu::segmented(pdu::end_frame_wire(n))
            &&& s.timestamp_ms == (old(a).timestamp_ms + 33) % 0x1_0000_0000
            &&& n < u32::MAX ==> s.next_frame_id == n + 1
            &&& n == u32::MAX ==> s.next_frame_id == 1
            &&& !s.force_next_idr
            &&& s.encode_failures == 0
            &&& old(a).frames_in_flight < u32::MAX ==> s.frames_in_flight
                == old(a).frames_in_flight + 1
            &&& old(a).frames_sent < u64::MAX ==> s.frames_sent == old(a).frames_sent + 1
            &&& s.surface_id == old(a).surface_id
            &&& s.width == old(a).width
            &&& s.height == old(a).height
            &&& s.state == old(a).state
        }),
{
}

/// The third frame in a row that fails is the end: the surface is taken away. One before
/// that is passed over, and the next frame has to stand by itself.
pub proof fn law_frame_failed(a: &mut GfxState, r: GfxFrameResult)
    requires
        call_ensures(GfxState::record_encode_failure, (a,), r),
        old(a).encode_failures < u32::MAX,
    ensures
        final(a).encode_failures == old(a).encode_failures + 1,
        final(a).force_next_idr,
        final(a).surface_id == old(a).surface_id,
        old(a).encode_failures < 2 ==> r is Skip && final(a).state == old(a).state
            && final(a).surface_configured == old(a).surface_configured,
        old(a).encode_failures >= 2 ==> {
            &&& r is Fallback
            &&& final(a).state == State::Failed
            &&& !final(a).surface_configured
            &&& model::views(r->teardown@) == (if old(a).surface_configured {
                seq![pdu::segmented(pdu::delete_surface_wire(old(a).surface_id))]
            } else {
                seq![]
            })
        },
{
}

/// What an encoder gives can be sent where it has not failed and there are bytes.
pub proof fn law_usable(encoded: Result<EncodedAu, EncoderError>, r: Option<EncodedAu>)
    requires
        call_ensures(usable, (encoded,), r),
    ensures
        r is Some <==> encoded is Ok && encoded->Ok_0.annex_b@.len() > 0,
        r is Some ==> r->Some_0.annex_b@ == encoded->Ok_0.annex_b@ && r->Some_0.qp
            == encoded->Ok_0.qp,
{
}

/// What goes before a frame is sent before it, and all of it; a frame for which there is
/// no picture is one that failed, and then nothing of it is sent.
pub proof fn law_frame_ended(
    a: &mut GfxState,
    width: u16,
    height: u16,
    before: Vec<Vec<u8>>,
    encoded: Option<EncodedAu>,
    r: GfxFrameResult,
)
    requires
        call_ensures(GfxState::end_encode, (a, width, height, before, encoded), r),
    ensures
        r is Frames <==> encoded is Some,
        encoded matches Some(au) ==> ({
            let out = model::views(r->Frames_0@);
            let n = before@.len() as int;
            &&& out.len() == n + 3
            &&& out.take(n) == model::views(before@)
            &&& out[n] == pdu::segmented(
                pdu::start_frame_wire(final(a).timestamp_ms, old(a).next_frame_id),
            )
            &&& out[n + 1] == pdu::segmented(
                pdu::wire_to_surface_wire(
                    old(a).surface_id,
                    width,
                    height,
                    pdu::avc420_wire(width, height, au.qp, 100, au.annex_b@),
                ),
            )
            &&& out[n + 2] == pdu::segmented(pdu::end_frame_wire(old(a).next_frame_id))
        }),
        encoded is None ==> final(a).force_next_idr && final(a).frames_sent == old(a).frames_sent
            && final(a).next_frame_id == old(a).next_frame_id,
{
    assert(model::views(before@).len() == before@.len());
    if let Some(au) = encoded {
        assert(model::opt_view(encoded) == Some(au@));
        assert(model::views(r->Frames_0@).take(before@.len() as int) =~= model::views(before@));
    }
}

/// The first picture that can be sent is the one that is sent. Where an encoder gives one
/// at once, it is not asked again; where it gives none, it is asked once more, for the
/// same picture, which then has to stand by itself.
pub proof fn law_second_try(
    s: GfxState,
    width: u16,
    height: u16,
    stride: usize,
    pixels: Seq<u8>,
    idr: bool,
    au: AuView,
    x: Option<AuView>,
    y: Option<AuView>,
    calls: Seq<Asked>,
)
    ensures
        frame_step(s, width, height, Some(au), x) == frame_step(s, width, height, Some(au), y),
        frame_step(s, width, height, None, Some(au)) == frame_step(
            s,
            width,
            height,
            Some(au),
            None,
        ),
        asked_twice(calls, width, height, stride, pixels, idr, x, y) ==> {
            &&& calls.len() == 1 <==> x is Some
            &&& calls.len() == 2 <==> x is None
            &&& calls[0] is Picture
            &&& calls[0]->idr == idr
            &&& calls[0]->width == width
            &&& calls[0]->height == height
            &&& calls[0]->stride == stride
            &&& calls[0]->pixels == pixels
            &&& x is None ==> {
                &&& calls[1] is Picture
                &&& calls[1]->idr
                &&& calls[1]->width == width
                &&& calls[1]->height == height
                &&& calls[1]->stride == stride
                &&& calls[1]->pixels == pixels
            }
        },
{
}

/// What a client sends is answered in the order in which it came.
pub proof fn law_answers_in_order(s: GfxState, b: Seq<u8>)
    requires
        b.len() > 0,
        pdu::parse_client_message(b) is Ok,
    ensures
        ({
            let (after, first) = message_step(s, pdu::parse_client_message(b)->Ok_0);
            let n = first.len() as int;
            let rest = b.skip(pdu::message_len(b));
            &&& data_step(s, b).1.take(n) == first
            &&& data_step(s, b).1.skip(n) == data_step(after, rest).1
            &&& data_step(s, b).0 == data_step(after, rest).0
        }),
{
    let (after, first) = message_step(s, pdu::parse_client_message(b)->Ok_0);
    let n = first.len() as int;
    let rest = b.skip(pdu::message_len(b));
    let more = data_step(after, rest).1;
    assert((first + more).take(n) =~= first);
    assert((first + more).skip(n) =~= more);
}

/// A message that says what a client can do, and one that says how much it has shown, do
/// what the pipeline does on either; every other does nothing.
pub proof fn law_message_kinds(s: GfxState, message: ClientMessageView)
    ensures
        message matches ClientMessageView::FrameAcknowledge { queue_depth, .. } ==> message_step(
            s,
            message,
        ).1.len() == 0 && message_step(s, message).0.frames_in_flight == (
        if queue_depth == 0xffff_ffff {
            0
        } else if queue_depth <= 32 {
            queue_depth
        } else {
            32
        }),
        !(message is FrameAcknowledge) && !(message is CapsAdvertise) ==> message_step(s, message)
            == (s, Seq::<Seq<u8>>::empty()),
{
}

} // verus!
