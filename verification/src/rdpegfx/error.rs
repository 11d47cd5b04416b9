//! Why there is no picture to send.

use vstd::prelude::*;
use vstd::string::*;

verus! {

#[derive(Debug, Clone, PartialEq, Eq)]
pub enum EncoderError {
    /// A size, or the length of a buffer, is not what it has to be.
    InvalidGeometry(String),
    /// An encoder could not be started.
    InitFailed(String),
    /// A picture could not be encoded.
    EncodeFailed(String),
    /// There is no encoder.
    NoBackendAvailable,
}

impl EncoderError {
    pub open spec fn text(&self) -> Seq<char> {
        match self {
            EncoderError::InvalidGeometry(m) => "invalid frame geometry: "@ + m@,
            EncoderError::InitFailed(m) => "encoder initialization failed: "@ + m@,
            EncoderError::EncodeFailed(m) => "frame encoding failed: "@ + m@,
            EncoderError::NoBackendAvailable =>
                "no supported H.264 encoder backends available (enable openh264/vaapi/nvenc)"@,
        }
    }

    /// What is wrong, in words.
    pub fn message(&self) -> (s: String)
        ensures
            s@ == self.text(),
    {
        match self {
            EncoderError::InvalidGeometry(m) => {
                let mut s: String = "invalid frame geometry: ".to_owned();
                s.append(m.as_str());
                s
            },
            EncoderError::InitFailed(m) => {
                let mut s: String = "encoder initialization failed: ".to_owned();
                s.append(m.as_str());
                s
            },
            EncoderError::EncodeFailed(m) => {
                let mut s: String = "frame encoding failed: ".to_owned();
                s.append(m.as_str());
                s
            },
            EncoderError::NoBackendAvailable =>
                "no supported H.264 encoder backends available (enable openh264/vaapi/nvenc)".to_owned(),
        }
    }
}

/// An error says what failed, and then why.
pub proof fn law_message(e: &EncoderError, s: String)
    requires
        call_ensures(EncoderError::message, (e,), s),
    ensures
        *e matches EncoderError::InvalidGeometry(m) ==> s@ == "invalid frame geometry: "@ + m@,
        *e matches EncoderError::InitFailed(m) ==> s@ == "encoder initialization failed: "@ + m@,
        *e matches EncoderError::EncodeFailed(m) ==> s@ == "frame encoding failed: "@ + m@,
        e is NoBackendAvailable ==> s@
            == "no supported H.264 encoder backends available (enable openh264/vaapi/nvenc)"@,
{
}

} // verus!
