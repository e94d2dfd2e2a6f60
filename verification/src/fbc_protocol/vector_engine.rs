//! Vector engine commands.

use vstd::prelude::*;

verus! {

pub const STATUS_REQ: u8 = 0xB0;
pub const STATUS_RSP: u8 = 0xB1;
pub const LOAD: u8 = 0xB2;
pub const LOAD_ACK: u8 = 0xB3;
pub const START: u8 = 0xB4;
pub const PAUSE: u8 = 0xB5;
pub const RESUME: u8 = 0xB6;
pub const STOP: u8 = 0xB7;

} // verus!
