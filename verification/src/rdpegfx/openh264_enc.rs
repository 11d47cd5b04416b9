//! Pictures encoded in software, by OpenH264.

use openh264::encoder::{
    BitRate, Encoder, EncoderConfig, FrameRate, FrameType, IntraFramePeriod, Profile,
    RateControlMode, UsageType,
};
use openh264::formats::YUVSlices;
use openh264::{OpenH264API, Timestamp};
use vstd::prelude::*;
use vstd::slice::slice_subrange;
use vstd::string::*;

use crate::rdpegfx;
use crate::rdpegfx::encoder::{bgrx_to_i420, coded_length, EncodedAu, H264Encoder};
use crate::rdpegfx::error::EncoderError;

verus! {

/// OpenH264's encoder. It remembers pictures, and nothing is known of them here.
#[verifier::external_type_specification]
#[verifier::external_body]
pub struct ExEncoder(openh264::encoder::Encoder);

/// Why OpenH264 did not do something.
#[verifier::external_type_specification]
#[verifier::external_body]
pub struct ExError(openh264::Error);

/// `Encoder::force_intra_frame`: the next picture is to stand by itself. Nothing
/// is said of what becomes of the encoder.
pub assume_specification[ openh264::encoder::Encoder::force_intra_frame ](
    e: &mut openh264::encoder::Encoder,
);

/// How coarse the pictures are, as far as is known.
pub const QP: u8 = 22;

/// What the pictures are taken to show, while it happens.
#[derive(Debug, Clone, Copy, PartialEq, Eq, Structural)]
pub enum Usage {
    Camera,
    Screen,
}

/// The profile that the pictures keep to.
#[derive(Debug, Clone, Copy, PartialEq, Eq, Structural)]
pub enum CodingProfile {
    Baseline,
    Main,
}

/// What gives way where bits are short.
#[derive(Debug, Clone, Copy, PartialEq, Eq, Structural)]
pub enum RateControl {
    Quality,
    Bitrate,
}

/// What an encoder is to keep to.
#[derive(Debug, Clone, Copy, PartialEq, Eq)]
pub struct Settings {
    pub usage: Usage,
    pub profile: CodingProfile,
    pub rate_control: RateControl,
    pub bits_per_second: u32,
    pub frames_per_second: u8,
    /// How many pictures there are from one that stands by itself to the next.
    pub frames_per_key: u32,
    /// Whether a picture may be left out.
    pub skip_frames: bool,
}

/// The settings for pictures of a size: about one bit for each pixel in each
/// second, and two million at least.
pub open spec fn settings_of(coded_w: u16, coded_h: u16) -> Settings {
    Settings {
        usage: Usage::Camera,
        profile: CodingProfile::Baseline,
        rate_control: RateControl::Quality,
        bits_per_second: if coded_w * coded_h < 2_000_000 {
            2_000_000
        } else {
            (coded_w * coded_h) as u32
        },
        frames_per_second: 30,
        frames_per_key: 30,
        skip_frames: false,
    }
}

pub fn settings(coded_w: u16, coded_h: u16) -> (s: Settings)
    ensures
        s == settings_of(coded_w, coded_h),
{
    assert(0 <= coded_w * coded_h <= 0xFFFF * 0xFFFF) by (nonlinear_arith)
        requires
            0 <= coded_w <= 0xFFFF,
            0 <= coded_h <= 0xFFFF,
    ;
    let pixels: u32 = coded_w as u32 * coded_h as u32;
    Settings {
        usage: Usage::Camera,
        profile: CodingProfile::Baseline,
        rate_control: RateControl::Quality,
        bits_per_second: if pixels < 2_000_000 {
            2_000_000
        } else {
            pixels
        },
        frames_per_second: 30,
        frames_per_key: 30,
        skip_frames: false,
    }
}

/// An encoder of OpenH264, and what it was told to keep to.
pub struct Running {
    encoder: Encoder,
    settings: Settings,
}

impl Running {
    pub closed spec fn kept(&self) -> Settings {
        self.settings
    }
}

/// `Encoder::with_api_config`, with the OpenH264 that is compiled in and an
/// `EncoderConfig` that holds the settings, and the settings beside it. Nothing is
/// said of what the encoder remembers, nor of when there is none.
#[verifier::external_body]
fn open_encoder(s: &Settings) -> (r: Result<Running, openh264::Error>)
    ensures
        r is Ok ==> r->Ok_0.kept() == *s,
{
    let usage = match s.usage { Usage::Camera => UsageType::CameraVideoRealTime, Usage::Screen => UsageType::ScreenContentRealTime };
    let profile = match s.profile { CodingProfile::Baseline => Profile::Baseline, CodingProfile::Main => Profile::Main };
    let mode = match s.rate_control { RateControl::Quality => RateControlMode::Quality, RateControl::Bitrate => RateControlMode::Bitrate };
    let config = EncoderConfig::new()
        .max_frame_rate(FrameRate::from_hz(s.frames_per_second.into()))
        .bitrate(BitRate::from_bps(s.bits_per_second))
        .usage_type(usage)
        .profile(profile)
        .rate_control_mode(mode)
        .skip_frames(s.skip_frames)
        .intra_frame_period(IntraFramePeriod::from_num_frames(s.frames_per_key));
    let encoder = Encoder::with_api_config(OpenH264API::from_source(), config)?;
    Ok(Running { encoder, settings: *s })
}

/// The text of an error of OpenH264. Nothing is said of it: it can name the place
/// in OpenH264 where the error comes from.
#[verifier::external_body]
fn error_text(e: &openh264::Error) -> String {
    e.to_string()
}

/// What OpenH264 says a picture has become.
#[derive(Debug, Clone, Copy, PartialEq, Eq, Structural)]
pub enum FrameKind {
    Invalid,
    Idr,
    I,
    P,
    Skip,
    IpMixed,
}

/// One picture as OpenH264 gave it back.
#[derive(Debug, Clone, PartialEq, Eq)]
pub struct Coded {
    pub kind: FrameKind,
    pub bytes: Vec<u8>,
}

/// Whether OpenH264 takes pictures of a size at all.
pub open spec fn too_large(w: int, h: int) -> bool {
    w > 3840 || h > 3840 || (w > 2160 && h > 2160)
}

/// `Encoder::encode_at`, and what `frame_type` and `to_vec` say of its result.
/// It refuses whatever is too large. What it makes of other pictures depends on
/// those before, and on the machine, and nothing is said of it.
#[verifier::external_body]
fn encode_planes(
    encoder: &mut Encoder,
    planes: (&[u8], &[u8], &[u8]),
    size: (usize, usize),
    strides: (usize, usize, usize),
    ts_ms: u64,
) -> (r: Result<Coded, openh264::Error>)
    requires
        size.0 <= 0xFFFF,
        size.1 <= 0xFFFF,
        size.0 <= strides.0 <= 0xFFFF,
        size.0 / 2 <= strides.1 <= 0xFFFF,
        size.0 / 2 <= strides.2 <= 0xFFFF,
        planes.0@.len() == size.1 * strides.0,
        planes.1@.len() == (size.1 / 2) * strides.1,
        planes.2@.len() == (size.1 / 2) * strides.2,
        ts_ms <= i64::MAX,
    ensures
        too_large(size.0 as int, size.1 as int) ==> r is Err,
{
    let source = YUVSlices::new(planes, size, strides);
    let stream = encoder.encode_at(&source, Timestamp::from_millis(ts_ms))?;
    let kind = match stream.frame_type() {
        FrameType::Invalid => FrameKind::Invalid,
        FrameType::IDR => FrameKind::Idr,
        FrameType::I => FrameKind::I,
        FrameType::P => FrameKind::P,
        FrameType::Skip => FrameKind::Skip,
        FrameType::IPMixed => FrameKind::IpMixed,
    };
    Ok(Coded { kind, bytes: stream.to_vec() })
}

pub const INIT: &'static str = "openh264 init: ";

pub const ENCODE: &'static str = "openh264 encode: ";

pub const SKIPPED: &'static str = "openh264 skipped frame";

pub const EMPTY: &'static str = "openh264 returned empty bitstream";

pub const EMPTY_FRAME: &'static str = "empty frame";

/// This is how OpenH264 words an error.
pub closed spec fn worded(e: &openh264::Error, text: String) -> bool {
    call_ensures(error_text, (e,), text)
}

/// An encoder that was opened for the settings, as it is at first.
pub closed spec fn fresh(s: Settings, e: Encoder) -> bool {
    exists|kept: &Settings, r: Result<Running, openh264::Error>|
        *kept == s && r is Ok && r->Ok_0.encoder == e && #[trigger] call_ensures(
            open_encoder,
            (kept,),
            r,
        )
}

/// There is no encoder for the settings, and the error says why.
pub closed spec fn not_opened(s: Settings, e: &openh264::Error) -> bool {
    exists|kept: &Settings, r: Result<Running, openh264::Error>|
        *kept == s && r is Err && &r->Err_0 == e && #[trigger] call_ensures(
            open_encoder,
            (kept,),
            r,
        )
}

fn after(before: &str, e: &openh264::Error) -> (s: String)
    ensures
        exists|text: String| #[trigger] worded(e, text) && s@ == before@ + text@,
{
    let mut s: String = before.to_owned();
    let text: String = error_text(e);
    s.append(text.as_str());
    assert(worded(e, text));
    s
}

/// What is to be made of a picture that came back: it has to be there, and it has
/// to have bytes.
pub open spec fn taken(c: Coded) -> Result<Seq<u8>, Seq<char>> {
    if c.kind == FrameKind::Skip {
        Err(SKIPPED@)
    } else if c.bytes@.len() == 0 {
        Err(EMPTY@)
    } else {
        Ok(c.bytes@)
    }
}

pub fn take_picture(c: Coded) -> (r: Result<EncodedAu, EncoderError>)
    ensures
        match taken(c) {
            Ok(b) => r is Ok && r->Ok_0.annex_b@ == b && r->Ok_0.qp == QP,
            Err(text) => r is Err && r->Err_0 is EncodeFailed && r->Err_0->EncodeFailed_0@ == text,
        },
{
    if c.kind == FrameKind::Skip {
        return Err(EncoderError::EncodeFailed(SKIPPED.to_owned()));
    }
    if c.bytes.is_empty() {
        return Err(EncoderError::EncodeFailed(EMPTY.to_owned()));
    }
    Ok(EncodedAu { annex_b: c.bytes, qp: QP })
}

/// The planes that a picture is handed over in: brightness, and both parts of the
/// colour, in whole blocks. There are none of an empty picture, nor of one that
/// does not fit.
pub fn planes(width: u16, height: u16, stride: usize, pixels: &[u8]) -> (r: Result<
    Vec<u8>,
    EncoderError,
>)
    ensures
        ({
            let f = rdpegfx::encoder::picture(width, height, stride, pixels@);
            let w = rdpegfx::encoder::padded(width);
            let h = rdpegfx::encoder::padded(height);
            if width == 0 || height == 0 {
                r is Err && r->Err_0 is EncodeFailed && r->Err_0->EncodeFailed_0@ == EMPTY_FRAME@
            } else {
                match f.refusal(w as int, h as int) {
                    Some(text) => r is Err && r->Err_0 is InvalidGeometry
                        && r->Err_0->InvalidGeometry_0@ == text,
                    None => r is Ok && r->Ok_0@ == f.i420(w as nat, h as nat),
                }
            }
        }),
{
    if width == 0 || height == 0 {
        return Err(EncoderError::EncodeFailed(EMPTY_FRAME.to_owned()));
    }
    let w: u16 = coded_length(width);
    let h: u16 = coded_length(height);
    match bgrx_to_i420(width, height, stride, pixels, w, h) {
        Ok(i420) => Ok(i420),
        Err(text) => Err(EncoderError::InvalidGeometry(text)),
    }
}

/// One picture as OpenH264 is given it: the planes of brightness and of the two
/// parts of the colour, the size, how long a row of each plane is, the time, and
/// whether the picture is to stand by itself.
pub struct Job<'a> {
    pub planes: (&'a [u8], &'a [u8], &'a [u8]),
    pub size: (usize, usize),
    pub strides: (usize, usize, usize),
    pub ts_ms: u64,
    pub force: bool,
}

#[verifier::ext_equal]
pub struct JobView {
    pub planes: (Seq<u8>, Seq<u8>, Seq<u8>),
    pub size: (usize, usize),
    pub strides: (usize, usize, usize),
    pub ts_ms: u64,
    pub force: bool,
}

impl<'a> View for Job<'a> {
    type V = JobView;

    open spec fn view(&self) -> JobView {
        JobView {
            planes: (self.planes.0@, self.planes.1@, self.planes.2@),
            size: self.size,
            strides: self.strides,
            ts_ms: self.ts_ms,
            force: self.force,
        }
    }
}

/// The time that OpenH264 can be told.
pub open spec fn told_time(next_ts_ms: u64) -> u64 {
    if next_ts_ms > i64::MAX {
        i64::MAX as u64
    } else {
        next_ts_ms
    }
}

/// What OpenH264 is given of a picture of a size, whose planes stand one after the
/// other.
pub open spec fn job_of(
    i420: Seq<u8>,
    w: u16,
    h: u16,
    next_ts_ms: u64,
    force_idr: bool,
) -> JobView {
    let y = h * w;
    let c = (h / 2) * (w / 2);
    JobView {
        planes: (
            i420.subrange(0, y),
            i420.subrange(y, y + c),
            i420.subrange(y + c, y + 2 * c),
        ),
        size: (w as usize, h as usize),
        strides: (w as usize, (w / 2) as usize, (w / 2) as usize),
        ts_ms: told_time(next_ts_ms),
        force: force_idr,
    }
}

/// What OpenH264 is given of a picture of a size, whose planes stand one after the
/// other.
pub fn job<'a>(i420: &'a [u8], w: u16, h: u16, next_ts_ms: u64, force_idr: bool) -> (r: Job<'a>)
    requires
        i420@.len() == h * w + 2 * ((h / 2) * (w / 2)),
    ensures
        r@ == job_of(i420@, w, h, next_ts_ms, force_idr),
{
    let half: usize = w as usize / 2;
    proof {
        lemma_room(w as int, h as int);
    }
    let y_size: usize = h as usize * w as usize;
    let uv_size: usize = (h as usize / 2) * half;
    assert(i420.len() == y_size + 2 * uv_size);
    Job {
        planes: (
            slice_subrange(i420, 0, y_size),
            slice_subrange(i420, y_size, y_size + uv_size),
            slice_subrange(i420, y_size + uv_size, y_size + 2 * uv_size),
        ),
        size: (w as usize, h as usize),
        strides: (w as usize, half, half),
        ts_ms: if next_ts_ms > i64::MAX as u64 {
            i64::MAX as u64
        } else {
            next_ts_ms
        },
        force: force_idr,
    }
}

/// OpenH264 is told that the next picture is to stand by itself.
pub open spec fn forced(e: &mut Encoder) -> bool {
    call_ensures(Encoder::force_intra_frame, (e,), ())
}

/// OpenH264 is given a picture to encode, and that is what comes back.
pub closed spec fn given(
    e: &mut Encoder,
    job: JobView,
    coded: Result<Coded, openh264::Error>,
) -> bool {
    exists|planes: (&[u8], &[u8], &[u8])|
        planes.0@ == job.planes.0 && planes.1@ == job.planes.1 && planes.2@ == job.planes.2
            && #[trigger] call_ensures(
            encode_planes,
            (e, planes, job.size, job.strides, job.ts_ms),
            coded,
        )
}

/// What is to be made of what came back.
pub open spec fn made_of(
    coded: Result<Coded, openh264::Error>,
    r: Result<EncodedAu, EncoderError>,
) -> bool {
    match coded {
        Ok(c) => match taken(c) {
            Ok(b) => r is Ok && r->Ok_0.annex_b@ == b && r->Ok_0.qp == QP,
            Err(text) => r is Err && r->Err_0 is EncodeFailed && r->Err_0->EncodeFailed_0@ == text,
        },
        Err(e) => r is Err && r->Err_0 is EncodeFailed && exists|text: String| #[trigger]
            worded(&e, text) && r->Err_0->EncodeFailed_0@ == ENCODE@ + text@,
    }
}

fn force(encoder: &mut Encoder)
    ensures
        exists|e: &mut Encoder|
            *e == *old(encoder) && *final(e) == *final(encoder) && #[trigger] forced(e),
{
    encoder.force_intra_frame();
    assert(forall|e: &mut Encoder| #[trigger]
        call_ensures(Encoder::force_intra_frame, (e,), ()) ==> forced(e));
}

/// Gives OpenH264 a picture, and takes what comes back.
fn run(encoder: &mut Encoder, job: &Job) -> (r: (
    Result<EncodedAu, EncoderError>,
    Ghost<Result<Coded, openh264::Error>>,
))
    requires
        job.size.0 <= 0xFFFF,
        job.size.1 <= 0xFFFF,
        job.size.0 <= job.strides.0 <= 0xFFFF,
        job.size.0 / 2 <= job.strides.1 <= 0xFFFF,
        job.size.0 / 2 <= job.strides.2 <= 0xFFFF,
        job.planes.0@.len() == job.size.1 * job.strides.0,
        job.planes.1@.len() == (job.size.1 / 2) * job.strides.1,
        job.planes.2@.len() == (job.size.1 / 2) * job.strides.2,
        job.ts_ms <= i64::MAX,
    ensures
        made_of(r.1@, r.0),
        too_large(job.size.0 as int, job.size.1 as int) ==> r.1@ is Err,
        exists|e: &mut Encoder|
            *e == *old(encoder) && *final(e) == *final(encoder) && #[trigger] given(e, job@, r.1@),
{
    let coded: Result<Coded, openh264::Error> = encode_planes(
        encoder,
        job.planes,
        job.size,
        job.strides,
        job.ts_ms,
    );
    let ghost back = coded;
    proof {
        let planes = job.planes;
        let size = job.size;
        let strides = job.strides;
        let ts_ms = job.ts_ms;
        assert(forall|e: &mut Encoder| #[trigger]
            call_ensures(encode_planes, (e, planes, size, strides, ts_ms), back) ==> given(
                e,
                job@,
                back,
            ));
    }
    let r: Result<EncodedAu, EncoderError> = match coded {
        Ok(coded) => take_picture(coded),
        Err(e) => Err(EncoderError::EncodeFailed(after(ENCODE, &e))),
    };
    (r, Ghost(back))
}

/// How far an encoder has come: the size and the settings of the encoder that is
/// open, where one is, and the time of the next picture.
#[verifier::ext_equal]
pub struct SoftwareView {
    pub open: Option<Settings>,
    pub coded_w: u16,
    pub coded_h: u16,
    pub next_ts_ms: u64,
}

impl SoftwareView {
    pub open spec fn new() -> Self {
        SoftwareView { open: None, coded_w: 0, coded_h: 0, next_ts_ms: 0 }
    }

    /// Whether the encoder that is open is for pictures of a size.
    pub open spec fn serves(self, w: u16, h: u16) -> bool {
        self.open is Some && self.coded_w == w && self.coded_h == h
    }

    /// With an encoder for pictures of a size: the one there is, or a new one,
    /// whose time starts at zero.
    pub open spec fn opened(self, w: u16, h: u16) -> Self {
        if self.serves(w, h) {
            self
        } else {
            SoftwareView {
                open: Some(settings_of(w, h)),
                coded_w: w,
                coded_h: h,
                next_ts_ms: 0,
            }
        }
    }

    /// The time of a picture that is encoded now.
    pub open spec fn time(self) -> u64 {
        told_time(self.next_ts_ms)
    }

    /// After a picture of a size, which takes a thirtieth of a second.
    pub open spec fn stepped(self, w: u16, h: u16) -> Self {
        let v = self.opened(w, h);
        SoftwareView {
            next_ts_ms: if v.next_ts_ms + 33 > u64::MAX {
                u64::MAX
            } else {
                (v.next_ts_ms + 33) as u64
            },
            ..v
        }
    }
}

/// The time goes on with every picture that one encoder is given, from zero,
/// until it can go no further.
pub proof fn law_time_goes_on(v: SoftwareView, w: u16, h: u16)
    ensures
        v.stepped(w, h).serves(w, h),
        v.stepped(w, h).opened(w, h) == v.stepped(w, h),
        !v.serves(w, h) ==> v.opened(w, h).time() == 0,
        v.opened(w, h).time() <= v.stepped(w, h).opened(w, h).time(),
        v.opened(w, h).time() < i64::MAX ==> v.opened(w, h).time() < v.stepped(w, h).opened(
            w,
            h,
        ).time(),
{
}

/// Encodes with OpenH264.
pub struct OpenH264Encoder {
    inner: Option<Running>,
    coded_w: u16,
    coded_h: u16,
    next_ts_ms: u64,
}

impl View for OpenH264Encoder {
    type V = SoftwareView;

    closed spec fn view(&self) -> SoftwareView {
        SoftwareView {
            open: match self.inner {
                Some(r) => Some(r.settings),
                None => None,
            },
            coded_w: self.coded_w,
            coded_h: self.coded_h,
            next_ts_ms: self.next_ts_ms,
        }
    }
}

impl OpenH264Encoder {
    /// The encoder of OpenH264 that is open, as it is.
    pub closed spec fn engine(&self) -> Option<Encoder> {
        match self.inner {
            Some(r) => Some(r.encoder),
            None => None,
        }
    }

    /// What a picture of a size is encoded with: the encoder that is open, where it
    /// is for the size, and otherwise a new one.
    pub open spec fn starts(&self, e: Encoder, w: u16, h: u16) -> bool {
        if self@.serves(w, h) {
            self.engine() == Some(e)
        } else {
            fresh(settings_of(w, h), e)
        }
    }

    /// An encoder for which OpenH264 has not been opened yet.
    pub closed spec fn unopened() -> Self {
        OpenH264Encoder { inner: None, coded_w: 0, coded_h: 0, next_ts_ms: 0 }
    }

    pub fn new() -> (r: Result<Self, String>)
        ensures
            r is Ok,
            r->Ok_0 == Self::unopened(),
            r->Ok_0@ == SoftwareView::new(),
    {
        Ok(OpenH264Encoder { inner: None, coded_w: 0, coded_h: 0, next_ts_ms: 0 })
    }

    /// Sees to it that the encoder that is open is for pictures of a size. Where
    /// a new one cannot be opened, everything stays as it was.
    fn ensure_encoder(&mut self, coded_w: u16, coded_h: u16) -> (r: Result<(), EncoderError>)
        ensures
            match r {
                Ok(_) => {
                    &&& final(self)@ == old(self)@.opened(coded_w, coded_h)
                    &&& final(self)@.open is Some
                    &&& final(self).engine() is Some
                    &&& old(self).starts(final(self).engine()->Some_0, coded_w, coded_h)
                },
                Err(e) => {
                    &&& final(self)@ == old(self)@
                    &&& final(self).engine() == old(self).engine()
                    &&& !old(self)@.serves(coded_w, coded_h)
                    &&& e is InitFailed
                    &&& exists|why: openh264::Error, text: String|
                        #[trigger] not_opened(settings_of(coded_w, coded_h), &why)
                            && #[trigger] worded(&why, text) && e->InitFailed_0@ == INIT@ + text@
                },
            },
    {
        if self.inner.is_none() || self.coded_w != coded_w || self.coded_h != coded_h {
            let wanted: Settings = settings(coded_w, coded_h);
            let opened: Result<Running, openh264::Error> = open_encoder(&wanted);
            let ghost tried = opened;
            match opened {
                Ok(running) => {
                    assert(call_ensures(open_encoder, (&wanted,), tried));
                    assert(fresh(settings_of(coded_w, coded_h), running.encoder));
                    self.inner = Some(running);
                    self.coded_w = coded_w;
                    self.coded_h = coded_h;
                    self.next_ts_ms = 0;
                },
                Err(e) => {
                    assert(call_ensures(open_encoder, (&wanted,), tried));
                    assert(not_opened(settings_of(coded_w, coded_h), &e));
                    return Err(EncoderError::InitFailed(after(INIT, &e)));
                },
            }
        }
        Ok(())
    }
}

/// An encoder starts with nothing: the first picture opens OpenH264, at time zero.
pub proof fn law_unopened()
    ensures
        OpenH264Encoder::unopened()@ == SoftwareView::new(),
        OpenH264Encoder::unopened().engine() is None,
        forall|w: u16, h: u16|
            (#[trigger] OpenH264Encoder::unopened()@.opened(w, h)) == (SoftwareView {
                open: Some(settings_of(w, h)),
                coded_w: w,
                coded_h: h,
                next_ts_ms: 0,
            }),
{
}

impl Default for OpenH264Encoder {
    fn default() -> (r: Self)
        ensures
            r == Self::unopened(),
            r@ == SoftwareView::new(),
    {
        OpenH264Encoder { inner: None, coded_w: 0, coded_h: 0, next_ts_ms: 0 }
    }
}

impl H264Encoder for OpenH264Encoder {
    /// What is refused is refused before anything changes. Otherwise an encoder
    /// for the size is opened where there is none, is told where the picture is to
    /// stand by itself, and gets the planes of the picture at its time; the picture
    /// that comes back is taken, or it is said why there is none.
    fn encode_bgrx(
        &mut self,
        width: u16,
        height: u16,
        stride: usize,
        pixels: &[u8],
        force_idr: bool,
    ) -> (r: Result<EncodedAu, EncoderError>)
        ensures
            ({
                let f = rdpegfx::encoder::picture(width, height, stride, pixels@);
                let w = rdpegfx::encoder::padded(width);
                let h = rdpegfx::encoder::padded(height);
                let job = job_of(
                    f.i420(w as nat, h as nat),
                    w,
                    h,
                    old(self)@.opened(w, h).next_ts_ms,
                    force_idr,
                );
                if width == 0 || height == 0 {
                    &&& final(self)@ == old(self)@
                    &&& final(self).engine() == old(self).engine()
                    &&& r is Err && r->Err_0 is EncodeFailed
                    &&& r->Err_0->EncodeFailed_0@ == EMPTY_FRAME@
                } else if f.refusal(w as int, h as int) is Some {
                    &&& final(self)@ == old(self)@
                    &&& final(self).engine() == old(self).engine()
                    &&& r is Err && r->Err_0 is InvalidGeometry
                    &&& r->Err_0->InvalidGeometry_0@ == f.refusal(w as int, h as int)->Some_0
                } else if r is Err && r->Err_0 is InitFailed {
                    &&& final(self)@ == old(self)@
                    &&& final(self).engine() == old(self).engine()
                    &&& !old(self)@.serves(w, h)
                    &&& exists|why: openh264::Error, text: String|
                        #[trigger] not_opened(settings_of(w, h), &why) && #[trigger] worded(
                            &why,
                            text,
                        ) && r->Err_0->InitFailed_0@ == INIT@ + text@
                } else {
                    &&& final(self)@ == old(self)@.stepped(w, h)
                    &&& too_large(w as int, h as int) ==> r is Err
                    &&& if force_idr {
                        exists|
                            k: &mut Encoder,
                            e: &mut Encoder,
                            picture: JobView,
                            coded: Result<Coded, openh264::Error>,
                        |
                            #[trigger] forced(k) && #[trigger] given(e, picture, coded) && picture
                                == job && made_of(coded, r) && old(self).starts(*k, w, h)
                                && *final(k) == *e && final(self).engine() == Some(*final(e))
                    } else {
                        exists|
                            e: &mut Encoder,
                            picture: JobView,
                            coded: Result<Coded, openh264::Error>,
                        | #[trigger]
                            given(e, picture, coded) && picture == job && made_of(coded, r)
                                && old(self).starts(*e, w, h) && final(self).engine() == Some(
                                *final(e),
                            )
                    }
                }
            }),
    {
        let i420: Vec<u8> = planes(width, height, stride, pixels)?;
        let w: u16 = coded_length(width);
        let h: u16 = coded_length(height);
        self.ensure_encoder(w, h)?;
        proof {
            let f = rdpegfx::encoder::picture(width, height, stride, pixels@);
            rdpegfx::encoder::law_plane_sizes(f, w as nat, h as nat);
            lemma_room(w as int, h as int);
        }
        let job: Job = job(i420.as_slice(), w, h, self.next_ts_ms, force_idr);
        self.next_ts_ms = self.next_ts_ms.saturating_add(33);
        match &mut self.inner {
            Some(running) => {
                if job.force {
                    force(&mut running.encoder);
                }
                let (r, Ghost(_coded)) = run(&mut running.encoder, &job);
                r
            },
            None => Err(EncoderError::EncodeFailed(ENCODE.to_owned())),
        }
    }

    fn reset(&mut self)
        ensures
            final(self)@ == SoftwareView::new(),
            final(self).engine() is None,
    {
        self.inner = None;
        self.coded_w = 0;
        self.coded_h = 0;
        self.next_ts_ms = 0;
    }
}

proof fn lemma_room(w: int, h: int)
    by (nonlinear_arith)
    requires
        0 <= w <= 0xFFFF,
        0 <= h <= 0xFFFF,
    ensures
        0 <= h * w <= 0xFFFE_0001,
        0 <= (h / 2) * (w / 2) <= 0x3FFF_0001,
{
}

/// An encoder keeps to one bit for each pixel and second, and to two million at least, and
/// every thirtieth picture stands by itself. It may leave none out.
pub proof fn law_settings(coded_w: u16, coded_h: u16, s: Settings)
    requires
        call_ensures(settings, (coded_w, coded_h), s),
    ensures
        s.usage is Camera,
        s.profile is Baseline,
        s.rate_control is Quality,
        coded_w * coded_h <= 2_000_000 ==> s.bits_per_second == 2_000_000,
        coded_w * coded_h >= 2_000_000 ==> s.bits_per_second == coded_w * coded_h,
        s.frames_per_second == 30,
        s.frames_per_key == 30,
        !s.skip_frames,
{
    assert(0 <= coded_w * coded_h <= 65535 * 65535) by (nonlinear_arith)
        requires
            coded_w <= 65535,
            coded_h <= 65535,
    ;
}

/// OpenH264 is given the brightness, then the one part of the colour, then the other, each
/// with rows of its width and none between them, and a time that it can be told.
pub proof fn law_job(i420: &[u8], w: u16, h: u16, next_ts_ms: u64, force_idr: bool, r: Job<'_>)
    requires
        call_ensures(job, (i420, w, h, next_ts_ms, force_idr), r),
        i420@.len() == h * w + 2 * ((h / 2) * (w / 2)),
    ensures
        r.planes.0@ + r.planes.1@ + r.planes.2@ == i420@,
        r.planes.0@.len() == h * w,
        r.planes.1@.len() == (h / 2) * (w / 2),
        r.planes.2@.len() == (h / 2) * (w / 2),
        r.size == (w as usize, h as usize),
        r.strides == (w as usize, (w / 2) as usize, (w / 2) as usize),
        next_ts_ms <= 0x7FFF_FFFF_FFFF_FFFF ==> r.ts_ms == next_ts_ms,
        next_ts_ms > 0x7FFF_FFFF_FFFF_FFFF ==> r.ts_ms == 0x7FFF_FFFF_FFFF_FFFF,
        r.force == force_idr,
{
    assert(h * w >= 0 && (h / 2) * (w / 2) >= 0) by (nonlinear_arith);
    let v = r@;
    assert(r.planes.0@ == v.planes.0 && r.planes.1@ == v.planes.1 && r.planes.2@ == v.planes.2);
    assert(r.planes.0@ + r.planes.1@ + r.planes.2@ =~= i420@);
}

/// A picture that comes back is taken where it was not skipped and has bytes. It is taken
/// to be of the coarseness 22.
pub proof fn law_taken(c: Coded, r: Result<EncodedAu, EncoderError>)
    requires
        call_ensures(take_picture, (c,), r),
    ensures
        r is Ok <==> !(c.kind is Skip) && c.bytes@.len() > 0,
        r is Ok ==> r->Ok_0.annex_b@ == c.bytes@ && r->Ok_0.qp == 22,
        c.kind is Skip ==> r->Err_0->EncodeFailed_0@ == "openh264 skipped frame"@,
        !(c.kind is Skip) && c.bytes@.len() == 0 ==> r->Err_0->EncodeFailed_0@
            == "openh264 returned empty bitstream"@,
{
}

/// Every picture takes 33 ms, and the time of a new encoder starts at zero.
pub proof fn law_clock(v: SoftwareView, w: u16, h: u16)
    requires
        v.next_ts_ms <= 0x7FFF_FFFF_FFFF_FFFF,
    ensures
        v.open is Some && v.coded_w == w && v.coded_h == h ==> v.stepped(w, h).next_ts_ms
            == v.next_ts_ms + 33 && v.stepped(w, h).open == v.open,
        !(v.open is Some && v.coded_w == w && v.coded_h == h) ==> v.stepped(w, h).next_ts_ms == 33
            && v.stepped(w, h).open == Some(settings_of(w, h)),
        v.stepped(w, h).coded_w == w,
        v.stepped(w, h).coded_h == h,
{
}

} // verus!
