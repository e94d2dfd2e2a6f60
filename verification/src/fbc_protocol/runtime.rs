//! Runtime commands.

use vstd::prelude::*;

verus! {

pub const START: u8 = 0x40;
pub const STOP: u8 = 0x41;
pub const RESET: u8 = 0x42;
pub const HEARTBEAT: u8 = 0x50;
pub const ERROR: u8 = 0xE0;
pub const STATUS_REQ: u8 = 0xF0;
pub const STATUS_RSP: u8 = 0xF1;
pub const MIN_MAX_REQ: u8 = 0xF2;
pub const MIN_MAX_RSP: u8 = 0xF3;

} // verus!
