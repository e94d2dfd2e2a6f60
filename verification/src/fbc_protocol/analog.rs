//! Analog monitoring commands.

use vstd::prelude::*;

verus! {

pub const READ_ALL_REQ: u8 = 0x70;
pub const READ_ALL_RSP: u8 = 0x71;

} // verus!
