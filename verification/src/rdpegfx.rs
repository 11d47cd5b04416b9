//! The graphics pipeline: whole frames of H.264 on a dynamic channel. Its
//! messages, what an encoder has to do, and the pipeline of one connection.

pub mod encoder;
pub mod error;
pub mod h264_headers;
pub mod hardware;
pub mod openh264_enc;
pub mod pdu;
pub mod select;
pub mod session;

pub use crate::rdpegfx::encoder::{EncodedAu, H264Encoder, MockH264Encoder};
pub use crate::rdpegfx::error::EncoderError;
pub use crate::rdpegfx::openh264_enc::OpenH264Encoder;
pub use crate::rdpegfx::pdu::CHANNEL_NAME;
pub use crate::rdpegfx::select::{select_h264_encoder, SelectedEncoder};
pub use crate::rdpegfx::session::{GfxDvcHandler, GfxSession};
