//! Flight recorder commands.

use vstd::prelude::*;

verus! {

pub const LOG_READ_REQ: u8 = 0x60;
pub const LOG_READ_RSP: u8 = 0x61;
pub const LOG_INFO_REQ: u8 = 0x62;
pub const LOG_INFO_RSP: u8 = 0x63;
pub const SD_FORMAT: u8 = 0x64;
pub const SD_FORMAT_ACK: u8 = 0x65;
pub const SD_REPAIR: u8 = 0x66;
pub const SD_REPAIR_ACK: u8 = 0x67;

} // verus!
