//! Which encoder to use: one in the graphics card before one in software.

use vstd::prelude::*;

use crate::rdpegfx::encoder::H264Encoder;
use crate::rdpegfx::openh264_enc::OpenH264Encoder;

verus! {

pub const NVENC: &'static str = "nvenc";

pub const VAAPI: &'static str = "vaapi";

pub const OPENH264: &'static str = "openh264";

pub const NO_BACKEND: &'static str =
    "no H.264 encoder backends compiled in (enable openh264/vaapi/nvenc)";

/// An encoder, and a name for it.
#[derive(Debug, Clone, PartialEq, Eq)]
pub struct Selected<E> {
    pub encoder: E,
    pub name: &'static str,
}

pub type SelectedEncoder = Selected<Box<dyn H264Encoder>>;

/// The first of three that there is, and its name. The last may be missing, or
/// have failed.
pub fn first_available<T>(
    nvenc: Option<T>,
    vaapi: Option<T>,
    openh264: Option<Result<T, String>>,
) -> (r: Result<Selected<T>, String>)
    ensures
        match (nvenc, vaapi, openh264) {
            (Some(e), _, _) => r is Ok && r->Ok_0.encoder == e && r->Ok_0.name@ == NVENC@,
            (None, Some(e), _) => r is Ok && r->Ok_0.encoder == e && r->Ok_0.name@ == VAAPI@,
            (None, None, Some(Ok(e))) => r is Ok && r->Ok_0.encoder == e && r->Ok_0.name@
                == OPENH264@,
            (None, None, Some(Err(e))) => r is Err && r->Err_0@ == e@,
            (None, None, None) => r is Err && r->Err_0@ == NO_BACKEND@,
        },
{
    if let Some(encoder) = nvenc {
        return Ok(Selected { encoder, name: NVENC });
    }
    if let Some(encoder) = vaapi {
        return Ok(Selected { encoder, name: VAAPI });
    }
    match openh264 {
        Some(Ok(encoder)) => Ok(Selected { encoder, name: OPENH264 }),
        Some(Err(e)) => Err(e),
        None => Err(NO_BACKEND.to_owned()),
    }
}

/// The encoder in software as the one that is selected, under its name.
pub open spec fn software(e: Box<OpenH264Encoder>) -> SelectedEncoder {
    Selected { encoder: e, name: OPENH264 }
}

fn select_software(e: Box<OpenH264Encoder>) -> (r: SelectedEncoder)
    ensures
        r == software(e),
{
    Selected { encoder: e, name: OPENH264 }
}

/// The first encoder that there is: those in the graphics card where they were
/// found, and otherwise the one in software, which has not been opened yet.
pub fn select_h264_encoder(
    nvenc: Option<Box<dyn H264Encoder>>,
    vaapi: Option<Box<dyn H264Encoder>>,
) -> (r: Result<SelectedEncoder, String>)
    ensures
        r is Ok,
        match (nvenc, vaapi) {
            (Some(e), _) => r->Ok_0.name@ == NVENC@ && r->Ok_0.encoder == e,
            (None, Some(e)) => r->Ok_0.name@ == VAAPI@ && r->Ok_0.encoder == e,
            (None, None) => r->Ok_0.name@ == OPENH264@,
        },
        nvenc is None && vaapi is None ==> r->Ok_0 == software(
            Box::new(OpenH264Encoder::unopened()),
        ),
{
    if nvenc.is_some() || vaapi.is_some() {
        return first_available(nvenc, vaapi, None);
    }
    let encoder: OpenH264Encoder = OpenH264Encoder::new()?;
    Ok(select_software(Box::new(encoder)))
}

/// An encoder in a graphics card goes before one in software, and one of NVIDIA's before
/// another. Each has its name.
pub proof fn law_first<T>(
    nvenc: Option<T>,
    vaapi: Option<T>,
    openh264: Option<Result<T, String>>,
    r: Result<Selected<T>, String>,
)
    requires
        call_ensures(first_available::<T>, (nvenc, vaapi, openh264), r),
    ensures
        nvenc matches Some(e) ==> r is Ok && r->Ok_0.encoder == e && r->Ok_0.name@ == "nvenc"@,
        nvenc is None && vaapi is Some ==> r is Ok && r->Ok_0.encoder == vaapi->Some_0
            && r->Ok_0.name@ == "vaapi"@,
        nvenc is None && vaapi is None && openh264 is Some ==> (r is Ok
            <==> openh264->Some_0 is Ok),
        nvenc is None && vaapi is None && r is Ok ==> openh264 is Some && r->Ok_0.encoder
            == openh264->Some_0->Ok_0 && r->Ok_0.name@ == "openh264"@,
        nvenc is None && vaapi is None && openh264 is None ==> r is Err,
{
}

} // verus!
