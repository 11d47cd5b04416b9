//! Remote Desktop Protocol, server side: wire-format codecs, the connection
//! sequence, and the state machines of the virtual channels.
//!
//! Nothing here performs I/O. Every codec is a function between byte
//! sequences and values whose contract states the exact layout, and every
//! channel is a state machine that takes received bytes and hands back the
//! frames to send.

pub mod ber;
pub mod bytes;
pub mod capability_sets;
pub mod client_info;
pub mod cliprdr;
pub mod connector;
pub mod cursor;
pub mod dvc;
pub mod fastpath;
pub mod finalization;
pub mod gcc;
pub mod headers;
pub mod licensing;
pub mod mcs;
pub mod model;
pub mod nscodec;
pub mod per;
pub mod pointer;
pub mod rdp6;
pub mod rdpdr;
pub mod rdpeai;
pub mod rdpegfx;
pub mod rdpsnd;
pub mod render;
pub mod surface_commands;
pub mod svc;
pub mod text;
pub mod tpdu;
pub mod tpkt;
pub mod trace;
pub mod utf16;
pub mod x224;

use vstd::prelude::*;
use vstd::string::*;

use crate::cursor::NotEnoughBytes;

verus! {

/// Why a byte sequence is not the message it was read as.
#[derive(Debug, Clone, Copy, PartialEq, Eq)]
pub enum DecodeError {
    NotEnoughBytes(NotEnoughBytes),
    InvalidValue { field: &'static str, reason: &'static str },
}

impl DecodeError {
    pub open spec fn text(self) -> Seq<char> {
        match self {
            DecodeError::NotEnoughBytes(e) => "not enough bytes: "@ + e.text(),
            DecodeError::InvalidValue { field, reason } => "invalid value for "@ + field@ + ": "@
                + reason@,
        }
    }

    /// What is wrong, in words.
    pub fn message(&self) -> (s: String)
        ensures
            s@ == self.text(),
    {
        match self {
            DecodeError::NotEnoughBytes(e) => {
                let mut s: String = "not enough bytes: ".to_owned();
                s.append(e.message().as_str());
                s
            },
            DecodeError::InvalidValue { field, reason } => {
                let mut s: String = "invalid value for ".to_owned();
                s.append(field);
                s.append(": ");
                s.append(reason);
                s
            },
        }
    }
}

impl From<NotEnoughBytes> for DecodeError {
    fn from(e: NotEnoughBytes) -> (r: Self) {
        DecodeError::NotEnoughBytes(e)
    }
}

impl vstd::std_specs::convert::FromSpecImpl<NotEnoughBytes> for DecodeError {
    open spec fn obeys_from_spec() -> bool {
        true
    }

    open spec fn from_spec(e: NotEnoughBytes) -> Self {
        DecodeError::NotEnoughBytes(e)
    }
}

/// An error says how many bytes were needed and how many there were, in this order, or
/// which value was wrong and why.
pub proof fn law_message(e: &DecodeError, s: String)
    requires
        call_ensures(DecodeError::message, (e,), s),
    ensures
        *e matches DecodeError::NotEnoughBytes(n) ==> s@ == "not enough bytes: "@ + ("needed "@
            + render::decimal(n.needed as nat) + " bytes, only "@ + render::decimal(
            n.remaining as nat,
        ) + " remaining"@),
        *e matches DecodeError::InvalidValue { field, reason } ==> s@ == "invalid value for "@
            + field@ + ": "@ + reason@,
{
}

} // verus!
