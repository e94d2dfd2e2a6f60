//! Test plan commands.

use vstd::prelude::*;

verus! {

pub const SET_PLAN: u8 = 0x26;
pub const SET_PLAN_ACK: u8 = 0x27;
pub const RUN_PLAN: u8 = 0x28;
pub const RUN_PLAN_ACK: u8 = 0x29;
pub const PLAN_STATUS_REQ: u8 = 0x2A;
pub const PLAN_STATUS_RSP: u8 = 0x2B;
pub const STEP_RESULT: u8 = 0x2C;

} // verus!
