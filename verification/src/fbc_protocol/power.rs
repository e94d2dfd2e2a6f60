//! Power control commands (VICOR and PMBus).

use vstd::prelude::*;

verus! {

pub const VICOR_STATUS_REQ: u8 = 0x80;
pub const VICOR_STATUS_RSP: u8 = 0x81;
pub const VICOR_ENABLE: u8 = 0x82;
pub const VICOR_SET_VOLTAGE: u8 = 0x83;
pub const PMBUS_STATUS_REQ: u8 = 0x84;
pub const PMBUS_STATUS_RSP: u8 = 0x85;
pub const PMBUS_ENABLE: u8 = 0x86;
pub const PMBUS_SET_VOLTAGE: u8 = 0x87;
pub const EMERGENCY_STOP: u8 = 0x8F;
pub const POWER_SEQUENCE_ON: u8 = 0x90;
pub const POWER_SEQUENCE_OFF: u8 = 0x91;
pub const IO_BANK_SET: u8 = 0x35;
pub const IO_BANK_SET_ACK: u8 = 0x36;

} // verus!
