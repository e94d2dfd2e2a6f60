//! Fast pin commands (gpio[128:159]).

use vstd::prelude::*;

verus! {

pub const READ_REQ: u8 = 0xD0;
pub const READ_RSP: u8 = 0xD1;
pub const WRITE: u8 = 0xD2;

} // verus!
