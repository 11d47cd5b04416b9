//! Flags of a key event.

use vstd::prelude::*;

verus! {

pub const RELEASE: u8 = 0x01;

pub const EXTENDED: u8 = 0x02;

pub const EXTENDED1: u8 = 0x04;

} // verus!
