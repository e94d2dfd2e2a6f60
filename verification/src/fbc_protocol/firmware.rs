//! Firmware update commands.

use vstd::prelude::*;

verus! {

pub const INFO_REQ: u8 = 0xE1;
pub const INFO_RSP: u8 = 0xE2;
pub const BEGIN: u8 = 0xE3;
pub const BEGIN_ACK: u8 = 0xE4;
pub const CHUNK: u8 = 0xE5;
pub const CHUNK_ACK: u8 = 0xE6;
pub const COMMIT: u8 = 0xE7;
pub const COMMIT_ACK: u8 = 0xE8;
pub const ABORT: u8 = 0xE9;

} // verus!
