//! Setup phase commands.

use vstd::prelude::*;

verus! {

pub const ANNOUNCE: u8 = 0x01;
pub const BIM_STATUS_REQ: u8 = 0x10;
pub const BIM_STATUS_RSP: u8 = 0x11;
pub const WRITE_BIM: u8 = 0x20;
pub const UPLOAD_VECTORS: u8 = 0x21;
pub const CONFIGURE: u8 = 0x30;

} // verus!
