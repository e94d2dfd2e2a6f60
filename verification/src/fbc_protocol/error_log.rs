//! Error log commands.

use vstd::prelude::*;

verus! {

pub const ERROR_LOG_REQ: u8 = 0x4A;
pub const ERROR_LOG_RSP: u8 = 0x4B;

} // verus!
