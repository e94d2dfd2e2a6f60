//! EEPROM commands.

use vstd::prelude::*;

verus! {

pub const READ_REQ: u8 = 0xA0;
pub const READ_RSP: u8 = 0xA1;
pub const WRITE: u8 = 0xA2;
pub const WRITE_ACK: u8 = 0xA3;

} // verus!
