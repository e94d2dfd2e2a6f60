//! Board types seen by the desktop front end: board info, controller and
//! vector-engine states, fast pins, slot positions, VICOR core states, the
//! EEPROM layout, error logs, and MAC address text.

use vstd::prelude::*;
use crate::types::{mac_of_text, mac_text};
use crate::text::{chars_of, contains_str, has_infix, str_to_lowercase, to_lowercase_string};

pub use crate::fbc_protocol::FbcHeader;

verus! {

/// Errors of the board connection.
#[derive(Debug)]
pub enum FbcError {
    InterfaceNotFound(String),
    OpenFailed(String),
    SendFailed(String),
    ReceiveFailed(String),
    Timeout,
    NotConnected,
    InvalidMac(String),
}

/// Controller state as the front end shows it.
#[derive(Debug, Clone, Copy, PartialEq, Eq, Structural)]
pub enum ControllerState {
    Idle,
    Running,
    Done,
    Error,
    Unknown,
}

impl ControllerState {
    /// The state a status byte reports; unknown codes read as `Unknown`.
    pub open spec fn of_code(v: u8) -> ControllerState {
        if v == 0 {
            ControllerState::Idle
        } else if v == 1 {
            ControllerState::Running
        } else if v == 2 {
            ControllerState::Done
        } else if v == 3 {
            ControllerState::Error
        } else {
            ControllerState::Unknown
        }
    }
}

impl From<u8> for ControllerState {
    fn from(val: u8) -> (r: ControllerState) {
        match val {
            0 => ControllerState::Idle,
            1 => ControllerState::Running,
            2 => ControllerState::Done,
            3 => ControllerState::Error,
            _ => ControllerState::Unknown,
        }
    }
}

impl vstd::std_specs::convert::FromSpecImpl<u8> for ControllerState {
    open spec fn obeys_from_spec() -> bool {
        true
    }

    open spec fn from_spec(v: u8) -> ControllerState {
        ControllerState::of_code(v)
    }
}

/// Front or back tray.
#[derive(Debug, Clone, Copy, PartialEq, Eq, Structural)]
pub enum TrayPos {
    Front,
    Back,
}

/// A slot in the rack.
#[derive(Debug, Clone, Copy, PartialEq, Eq, Structural)]
pub struct SlotPosition {
    /// 1-11.
    pub shelf: u8,
    pub tray: TrayPos,
    /// Position on the tray (1-4).
    pub slot: u8,
}

/// A discovered board.
#[derive(Debug)]
pub struct BoardInfo {
    pub mac: String,
    pub serial: u32,
    pub hw_revision: u8,
    pub fw_version: String,
    pub has_bim: bool,
    pub bim_type: u8,
    pub state: ControllerState,
    pub slot: Option<SlotPosition>,
}

/// Fast pin state.
#[derive(Debug, Clone, Copy, PartialEq, Eq, Structural)]
pub struct FastPinState {
    pub dout: u32,
    pub oen: u32,
    pub din: u32,
}

/// VICOR core state.
/// A board's status as it reports it. The temperature comes in tenths of a
/// degree, as the board sends it; the front end shows it in degrees.
#[derive(Debug, Clone, Copy)]
pub struct BoardStatus {
    pub state: ControllerState,
    pub cycles: u32,
    pub errors: u32,
    /// Temperature in tenths of a degree Celsius.
    pub temp_decidegrees: i16,
    /// Rail voltages in mV: core 1 to 6, VDD_IO, VDD_3V3.
    pub rail_voltage_mv: [u16; 8],
    /// Rail currents in mA: core 1 to 6, then two zeros.
    pub rail_current_ma: [u16; 8],
    pub fpga_vccint_mv: u16,
    pub fpga_vccaux_mv: u16,
}

/// One VICOR core as the board reports it (its temperature is not in the
/// report).
#[derive(Debug, Clone, Copy)]
pub struct VicorCore {
    pub id: u8,
    pub enabled: bool,
    pub voltage_mv: u16,
    pub current_ma: u16,
    pub status: VicorCoreStatus,
}

/// The six VICOR cores.
#[derive(Debug, Clone, Copy)]
pub struct VicorStatus {
    pub cores: [VicorCore; 6],
}

/// One PMBus rail as the board reports it (its temperature is not in the
/// report).
#[derive(Debug, Clone)]
pub struct PmBusRail {
    pub address: u8,
    pub name: String,
    pub enabled: bool,
    pub voltage_mv: u16,
    pub current_ma: u16,
    pub power_mw: u32,
    pub status_word: u16,
}

/// The PMBus rails.
#[derive(Debug, Clone)]
pub struct PmBusStatus {
    pub rails: Vec<PmBusRail>,
}

#[derive(Debug, Clone, Copy, PartialEq, Eq, Structural)]
pub enum VicorCoreStatus {
    Off,
    On,
    Fault,
    OverTemp,
    OverCurrent,
}

impl VicorCoreStatus {
    /// The state a status byte reports; unknown codes read as `Fault`.
    pub open spec fn of_code(v: u8) -> VicorCoreStatus {
        if v == 0 {
            VicorCoreStatus::Off
        } else if v == 1 {
            VicorCoreStatus::On
        } else if v == 3 {
            VicorCoreStatus::OverTemp
        } else if v == 4 {
            VicorCoreStatus::OverCurrent
        } else {
            VicorCoreStatus::Fault
        }
    }
}

impl Default for VicorCoreStatus {
    fn default() -> (r: Self)
        ensures
            r == VicorCoreStatus::Off,
    {
        VicorCoreStatus::Off
    }
}

impl From<u8> for VicorCoreStatus {
    fn from(val: u8) -> (r: VicorCoreStatus) {
        match val {
            0 => VicorCoreStatus::Off,
            1 => VicorCoreStatus::On,
            2 => VicorCoreStatus::Fault,
            3 => VicorCoreStatus::OverTemp,
            4 => VicorCoreStatus::OverCurrent,
            _ => VicorCoreStatus::Fault,
        }
    }
}

impl vstd::std_specs::convert::FromSpecImpl<u8> for VicorCoreStatus {
    open spec fn obeys_from_spec() -> bool {
        true
    }

    open spec fn from_spec(v: u8) -> VicorCoreStatus {
        VicorCoreStatus::of_code(v)
    }
}

/// EEPROM header (bytes 0-15).
#[derive(Debug, Clone, Copy, PartialEq, Eq, Structural)]
pub struct EepromHeader {
    pub magic: u16,
    pub version: u8,
    pub board_serial: u32,
    pub hw_revision: u8,
    pub mfg_date: u32,
    pub config_crc: u16,
}

impl Default for EepromHeader {
    fn default() -> (r: Self)
        ensures
            r == (EepromHeader { magic: 0, version: 0, board_serial: 0, hw_revision: 0, mfg_date: 0, config_crc: 0 }),
    {
        EepromHeader { magic: 0, version: 0, board_serial: 0, hw_revision: 0, mfg_date: 0, config_crc: 0 }
    }
}

/// One rail's configuration (16 bytes).
#[derive(Debug, Clone, Copy, PartialEq, Eq)]
pub struct RailConfig {
    pub rail_id: u8,
    pub name: [u8; 8],
    pub nominal_mv: u16,
    pub max_mv: u16,
    pub max_ma: u16,
    pub enabled_by_default: bool,
}

impl Default for RailConfig {
    fn default() -> (r: Self)
        ensures
            r.rail_id == 0 && r.name@ == seq![0u8; 8] && r.nominal_mv == 0 && r.max_mv == 0
                && r.max_ma == 0 && !r.enabled_by_default,
    {
        let r = RailConfig {
            rail_id: 0,
            name: [0u8; 8],
            nominal_mv: 0,
            max_mv: 0,
            max_ma: 0,
            enabled_by_default: false,
        };
        assert(r.name@ =~= seq![0u8; 8]);
        r
    }
}

/// DUT metadata (bytes 112-159).
#[derive(Debug)]
pub struct DutMetadata {
    pub part_number: String,
    pub lot_id: String,
    pub wafer_id: u8,
    pub die_x: u8,
    pub die_y: u8,
    pub test_count: u32,
    pub last_test_time: u64,
}

/// Calibration data (bytes 160-255).
#[derive(Debug, Clone, Copy, PartialEq, Eq)]
pub struct CalibrationData {
    pub adc_offset: [i16; 16],
    pub adc_gain: [u16; 16],
    pub dac_offset: [i16; 10],
    pub dac_gain: [u16; 10],
    pub temp_offset: i16,
}

/// EEPROM contents.
#[derive(Debug)]
pub struct EepromData {
    /// The raw 256 bytes.
    pub raw: Vec<u8>,
    pub header: EepromHeader,
    pub rails: Vec<RailConfig>,
    pub dut: DutMetadata,
    pub calibration: CalibrationData,
}

/// Vector engine state as the front end shows it.
#[derive(Debug, Clone, Copy, PartialEq, Eq, Structural)]
pub enum VectorState {
    Idle,
    Loading,
    Ready,
    Running,
    Paused,
    Done,
    Error,
}

impl VectorState {
    /// The state a status byte reports; unknown codes read as `Error`.
    pub open spec fn of_code(v: u8) -> VectorState {
        if v == 0 {
            VectorState::Idle
        } else if v == 1 {
            VectorState::Loading
        } else if v == 2 {
            VectorState::Ready
        } else if v == 3 {
            VectorState::Running
        } else if v == 4 {
            VectorState::Paused
        } else if v == 5 {
            VectorState::Done
        } else {
            VectorState::Error
        }
    }
}

impl Default for VectorState {
    fn default() -> (r: Self)
        ensures
            r == VectorState::Idle,
    {
        VectorState::Idle
    }
}

impl From<u8> for VectorState {
    fn from(val: u8) -> (r: VectorState) {
        match val {
            0 => VectorState::Idle,
            1 => VectorState::Loading,
            2 => VectorState::Ready,
            3 => VectorState::Running,
            4 => VectorState::Paused,
            5 => VectorState::Done,
            6 => VectorState::Error,
            _ => VectorState::Error,
        }
    }
}

impl vstd::std_specs::convert::FromSpecImpl<u8> for VectorState {
    open spec fn obeys_from_spec() -> bool {
        true
    }

    open spec fn from_spec(v: u8) -> VectorState {
        VectorState::of_code(v)
    }
}

/// Vector engine status.
#[derive(Debug, Clone, Copy, PartialEq, Eq, Structural)]
pub struct VectorEngineStatus {
    pub state: VectorState,
    pub current_address: u32,
    pub total_vectors: u32,
    pub loop_count: u32,
    pub target_loops: u32,
    pub error_count: u32,
    pub first_fail_addr: u32,
    pub run_time_ms: u64,
}

/// One error log entry from the error BRAM.
#[derive(Debug, Clone, Copy, PartialEq, Eq)]
pub struct ErrorLogEntry {
    /// 128-bit pattern (4 × 32-bit words).
    pub pattern: [u32; 4],
    /// Vector number when the error occurred.
    pub vector: u32,
    pub cycle_lo: u32,
    pub cycle_hi: u32,
}

/// Error log response.
#[derive(Debug)]
pub struct ErrorLogResponse {
    pub total_errors: u32,
    /// Entries the board reported in this response.
    pub num_entries: u32,
    pub entries: Vec<ErrorLogEntry>,
}

/// Whether an interface is one to connect to on start-up: its name,
/// lower-cased, names no Wi-Fi, wireless, virtual or loopback adapter.
pub open spec fn auto_connect_candidate(name: Seq<char>) -> bool {
    let l = str_to_lowercase(name);
    &&& !has_infix(l, "wi-fi"@)
    &&& !has_infix(l, "wifi"@)
    &&& !has_infix(l, "wireless"@)
    &&& !has_infix(l, "virtual"@)
    &&& !has_infix(l, "loopback"@)
}

/// Whether to try connecting to an interface on start-up (a wired
/// Ethernet adapter, as its name shows).
pub fn is_auto_connect_candidate(name: &str) -> (r: bool)
    ensures
        r == auto_connect_candidate(name@),
{
    let l = to_lowercase_string(name);
    let lv = chars_of(l.as_str());
    !(contains_str(lv.as_slice(), "wi-fi") || contains_str(lv.as_slice(), "wifi") || contains_str(
        lv.as_slice(),
        "wireless",
    ) || contains_str(lv.as_slice(), "virtual") || contains_str(lv.as_slice(), "loopback"))
}

/// Parse a MAC address from `AA:BB:CC:DD:EE:FF` text.
pub fn parse_mac(s: &str) -> (r: Option<[u8; 6]>)
    ensures
        match mac_of_text(s@) {
            Some(m) => r matches Some(a) && a@ == m,
            None => r is None,
        },
{
    crate::types::parse_mac(s)
}

/// Format a MAC address as `AA:BB:CC:DD:EE:FF`.
pub fn format_mac(mac: &[u8; 6]) -> (r: String)
    ensures
        r@ == mac_text(mac@),
{
    crate::types::format_mac(mac)
}

} // verus!
