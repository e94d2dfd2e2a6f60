//! DDR slot commands.

use vstd::prelude::*;

verus! {

pub const UPLOAD_TO_SLOT: u8 = 0x22;
pub const SLOT_STATUS_REQ: u8 = 0x23;
pub const SLOT_STATUS_RSP: u8 = 0x24;
pub const INVALIDATE: u8 = 0x25;

} // verus!
