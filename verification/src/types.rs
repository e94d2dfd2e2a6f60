//! Tester system types: system profiles and their limits, controller and
//! vector-engine states, the records read back from a board, and MAC
//! address text.

use vstd::prelude::*;
use crate::text::{
    chars_of, dec_chars, hex2_upper, hex_digit_upper, hex_join, hex_joined, hex_val, hex_value, lemma_split_join,
    lemma_split_single, parse_hex, parse_hex_max, push_decimal, push_str, split, split_chars, string_from_chars,
    unsigned_digits,
};

verus! {

/// Tester system type: determines transport, profile and pattern format.
#[derive(Debug, Clone, Copy, PartialEq, Eq, Structural)]
pub enum SystemType {
    /// Aehr HX: 4-axis, INSPIRE transport.
    Hx,
    /// Sonoma: 1-axis, SSH and ELF binaries (Linux).
    Sonoma,
    /// XP-160: 8-axis, INSPIRE transport.
    Xp160,
    /// MCC: 1-axis, Modbus TCP.
    Mcc,
    /// Shasta: 8-axis, INSPIRE transport (newer XP-160).
    Shasta,
    /// FBC: 1-axis, raw Ethernet 0x88B5 (bare metal).
    Fbc,
}

/// Transport protocol used to talk to a board.
#[derive(Debug, Clone, Copy, PartialEq, Eq, Structural)]
pub enum Transport {
    RawEthernet,
    Ssh,
    Inspire,
    ModbusTcp,
}

/// Pattern file format for vector data.
#[derive(Debug, Clone, Copy, PartialEq, Eq, Structural)]
pub enum PatternFormat {
    /// `.fbc`: compressed opcodes.
    Fbc,
    /// `.hex`: 40 bytes per vector, uncompressed.
    Hex,
}

/// Voltage limits for safety validation (mV).
#[derive(Debug, Clone, Copy, PartialEq, Eq, Structural)]
pub struct VoltageLimits {
    pub vicor_min_mv: u16,
    pub vicor_max_mv: u16,
    pub pmbus_min_mv: u16,
    pub pmbus_max_mv: u16,
}

/// Everything that differs between system types.
#[derive(Debug, Clone, Copy, PartialEq, Eq, Structural)]
pub struct SystemProfile {
    pub system_type: SystemType,
    /// Total pin channels (BIM and fast).
    pub total_channels: u16,
    /// BIM channels (through the interposer).
    pub bim_channels: u16,
    /// Fast channels (direct FPGA I/O).
    pub fast_channels: u16,
    /// Number of VICOR core supplies.
    pub vicor_cores: u8,
    pub pattern_format: PatternFormat,
    pub transport: Transport,
    pub voltage_limits: VoltageLimits,
}

/// The voltage limits shared by every system.
pub open spec fn standard_limits() -> VoltageLimits {
    VoltageLimits { vicor_min_mv: 500, vicor_max_mv: 5000, pmbus_min_mv: 800, pmbus_max_mv: 3600 }
}

impl SystemType {
    /// The wire code of the system type.
    pub open spec fn code(self) -> u8 {
        match self {
            SystemType::Hx => 0,
            SystemType::Sonoma => 1,
            SystemType::Xp160 => 2,
            SystemType::Mcc => 3,
            SystemType::Shasta => 4,
            SystemType::Fbc => 5,
        }
    }

    /// The system type with wire code `v`, if any.
    pub open spec fn of_code(v: u8) -> Option<SystemType> {
        if v == 0 {
            Some(SystemType::Hx)
        } else if v == 1 {
            Some(SystemType::Sonoma)
        } else if v == 2 {
            Some(SystemType::Xp160)
        } else if v == 3 {
            Some(SystemType::Mcc)
        } else if v == 4 {
            Some(SystemType::Shasta)
        } else if v == 5 {
            Some(SystemType::Fbc)
        } else {
            None
        }
    }

    /// Profile name used by the pattern converter.
    pub open spec fn name_spec(self) -> Seq<char> {
        match self {
            SystemType::Hx => "hx"@,
            SystemType::Sonoma => "sonoma"@,
            SystemType::Xp160 => "xp160"@,
            SystemType::Shasta => "xp160"@,
            SystemType::Mcc => "mcc"@,
            SystemType::Fbc => "fbc"@,
        }
    }

    /// The profile of each system.
    pub open spec fn profile_spec(self) -> SystemProfile {
        match self {
            SystemType::Fbc => SystemProfile {
                system_type: self,
                total_channels: 160,
                bim_channels: 128,
                fast_channels: 32,
                vicor_cores: 6,
                pattern_format: PatternFormat::Fbc,
                transport: Transport::RawEthernet,
                voltage_limits: standard_limits(),
            },
            SystemType::Sonoma => SystemProfile {
                system_type: self,
                total_channels: 128,
                bim_channels: 128,
                fast_channels: 0,
                vicor_cores: 6,
                pattern_format: PatternFormat::Hex,
                transport: Transport::Ssh,
                voltage_limits: standard_limits(),
            },
            SystemType::Mcc => SystemProfile {
                system_type: self,
                total_channels: 128,
                bim_channels: 128,
                fast_channels: 0,
                vicor_cores: 6,
                pattern_format: PatternFormat::Hex,
                transport: Transport::ModbusTcp,
                voltage_limits: standard_limits(),
            },
            _ => SystemProfile {
                system_type: self,
                total_channels: 160,
                bim_channels: 160,
                fast_channels: 0,
                vicor_cores: 6,
                pattern_format: PatternFormat::Hex,
                transport: Transport::Inspire,
                voltage_limits: standard_limits(),
            },
        }
    }

    pub fn from_u8(v: u8) -> (r: Option<Self>)
        ensures
            r == SystemType::of_code(v),
    {
        match v {
            0 => Some(SystemType::Hx),
            1 => Some(SystemType::Sonoma),
            2 => Some(SystemType::Xp160),
            3 => Some(SystemType::Mcc),
            4 => Some(SystemType::Shasta),
            5 => Some(SystemType::Fbc),
            _ => None,
        }
    }

    /// Profile name used by the pattern converter.
    pub fn profile_name(&self) -> (r: &'static str)
        ensures
            r@ == self.name_spec(),
    {
        match self {
            SystemType::Hx => "hx",
            SystemType::Sonoma => "sonoma",
            SystemType::Xp160 => "xp160",
            SystemType::Shasta => "xp160",
            SystemType::Mcc => "mcc",
            SystemType::Fbc => "fbc",
        }
    }

    /// Total pin channels for this system.
    pub fn total_channels(&self) -> (r: u16)
        ensures
            r == self.profile_spec().total_channels,
    {
        self.profile().total_channels
    }

    /// The full system profile for this type.
    pub fn profile(&self) -> (r: SystemProfile)
        ensures
            r == self.profile_spec(),
    {
        let limits = VoltageLimits {
            vicor_min_mv: 500,
            vicor_max_mv: 5000,
            pmbus_min_mv: 800,
            pmbus_max_mv: 3600,
        };
        match self {
            SystemType::Fbc => SystemProfile {
                system_type: *self,
                total_channels: 160,
                bim_channels: 128,
                fast_channels: 32,
                vicor_cores: 6,
                pattern_format: PatternFormat::Fbc,
                transport: Transport::RawEthernet,
                voltage_limits: limits,
            },
            SystemType::Sonoma => SystemProfile {
                system_type: *self,
                total_channels: 128,
                bim_channels: 128,
                fast_channels: 0,
                vicor_cores: 6,
                pattern_format: PatternFormat::Hex,
                transport: Transport::Ssh,
                voltage_limits: limits,
            },
            SystemType::Mcc => SystemProfile {
                system_type: *self,
                total_channels: 128,
                bim_channels: 128,
                fast_channels: 0,
                vicor_cores: 6,
                pattern_format: PatternFormat::Hex,
                transport: Transport::ModbusTcp,
                voltage_limits: limits,
            },
            _ => SystemProfile {
                system_type: *self,
                total_channels: 160,
                bim_channels: 160,
                fast_channels: 0,
                vicor_cores: 6,
                pattern_format: PatternFormat::Hex,
                transport: Transport::Inspire,
                voltage_limits: limits,
            },
        }
    }

    /// Every system type is found again from its wire code, and no other
    /// code names a system.
    pub proof fn lemma_code_roundtrip(t: SystemType, v: u8)
        ensures
            SystemType::of_code(t.code()) == Some(t),
            SystemType::of_code(v) matches Some(u) ==> u.code() == v,
    {
    }

    /// Every profile's channels add up, and its fast channels follow its
    /// BIM channels within the channel count.
    pub proof fn lemma_profile_channels(t: SystemType)
        ensures
            t.profile_spec().bim_channels + t.profile_spec().fast_channels == t.profile_spec().total_channels,
            t.profile_spec().system_type == t,
    {
    }
}

/// The message for a voltage outside `[min, max]`.
pub open spec fn range_message(kind: Seq<char>, mv: u16, min: u16, max: u16) -> Seq<char> {
    kind + " voltage "@ + dec_chars(mv as nat) + "mV out of range ("@ + dec_chars(min as nat) + "-"@
        + dec_chars(max as nat) + "mV)"@
}

/// Whether a voltage setting is accepted: 0 (disable) or within the limits.
pub open spec fn voltage_ok(mv: u16, min: u16, max: u16) -> bool {
    mv == 0 || (min <= mv && mv <= max)
}

fn range_error(kind: &str, mv: u16, min: u16, max: u16) -> (r: String)
    ensures
        r@ == range_message(kind@, mv, min, max),
{
    let mut out: Vec<char> = Vec::new();
    push_str(&mut out, kind);
    push_str(&mut out, " voltage ");
    push_decimal(&mut out, mv as u64);
    push_str(&mut out, "mV out of range (");
    push_decimal(&mut out, min as u64);
    push_str(&mut out, "-");
    push_decimal(&mut out, max as u64);
    push_str(&mut out, "mV)");
    string_from_chars(out.as_slice())
}

impl VoltageLimits {
    /// Validate a VICOR voltage setting (0 disables the core).
    pub fn validate_vicor(&self, mv: u16) -> (r: Result<(), String>)
        ensures
            r is Ok <==> voltage_ok(mv, self.vicor_min_mv, self.vicor_max_mv),
            r matches Err(m) ==> m@ == range_message("VICOR"@, mv, self.vicor_min_mv, self.vicor_max_mv),
    {
        if mv == 0 {
            return Ok(());
        }
        if mv < self.vicor_min_mv || mv > self.vicor_max_mv {
            Err(range_error("VICOR", mv, self.vicor_min_mv, self.vicor_max_mv))
        } else {
            Ok(())
        }
    }

    /// Validate a PMBus voltage setting (0 disables the rail).
    pub fn validate_pmbus(&self, mv: u16) -> (r: Result<(), String>)
        ensures
            r is Ok <==> voltage_ok(mv, self.pmbus_min_mv, self.pmbus_max_mv),
            r matches Err(m) ==> m@ == range_message("PMBus"@, mv, self.pmbus_min_mv, self.pmbus_max_mv),
    {
        if mv == 0 {
            return Ok(());
        }
        if mv < self.pmbus_min_mv || mv > self.pmbus_max_mv {
            Err(range_error("PMBus", mv, self.pmbus_min_mv, self.pmbus_max_mv))
        } else {
            Ok(())
        }
    }
}

impl SystemProfile {
    /// Pin range of the BIM channels.
    pub fn bim_range(&self) -> (r: core::ops::Range<u16>)
        ensures
            r.start == 0,
            r.end == self.bim_channels,
    {
        0..self.bim_channels
    }

    /// Pin range of the fast channels (empty when there are none).
    pub fn fast_range(&self) -> (r: core::ops::Range<u16>)
        requires
            self.bim_channels + self.fast_channels <= u16::MAX,
        ensures
            r.start == self.bim_channels,
            r.end == self.bim_channels + self.fast_channels,
    {
        self.bim_channels..(self.bim_channels + self.fast_channels)
    }
}

/// Controller execution state.
#[derive(Debug, Clone, Copy, PartialEq, Eq, Structural)]
pub enum ControllerState {
    Idle,
    Running,
    Done,
    Error,
}

impl ControllerState {
    /// The state a status byte reports; unknown codes read as `Error`.
    pub open spec fn of_code(v: u8) -> ControllerState {
        if v == 0 {
            ControllerState::Idle
        } else if v == 1 {
            ControllerState::Running
        } else if v == 2 {
            ControllerState::Done
        } else {
            ControllerState::Error
        }
    }

    pub fn from_u8(v: u8) -> (r: Self)
        ensures
            r == ControllerState::of_code(v),
    {
        match v {
            0 => ControllerState::Idle,
            1 => ControllerState::Running,
            2 => ControllerState::Done,
            3 => ControllerState::Error,
            _ => ControllerState::Error,
        }
    }
}

/// Vector engine execution state.
#[derive(Debug, Clone, Copy, PartialEq, Eq, Structural)]
pub enum VectorState {
    Idle,
    Loading,
    Running,
    Paused,
    Done,
    Error,
}

impl VectorState {
    /// The state a status byte reports; unknown codes read as `Error`.
    pub open spec fn of_code(v: u8) -> VectorState {
        if v == 0 {
            VectorState::Idle
        } else if v == 1 {
            VectorState::Loading
        } else if v == 2 {
            VectorState::Running
        } else if v == 3 {
            VectorState::Paused
        } else if v == 4 {
            VectorState::Done
        } else {
            VectorState::Error
        }
    }

    pub fn from_u8(v: u8) -> (r: Self)
        ensures
            r == VectorState::of_code(v),
    {
        match v {
            0 => VectorState::Idle,
            1 => VectorState::Loading,
            2 => VectorState::Running,
            3 => VectorState::Paused,
            4 => VectorState::Done,
            5 => VectorState::Error,
            _ => VectorState::Error,
        }
    }
}

/// Board info from discovery (from an ANNOUNCE payload).
#[derive(Debug, Clone, Copy, PartialEq, Eq)]
pub struct BoardInfo {
    pub system_type: SystemType,
    pub mac: [u8; 6],
    pub serial: u32,
    pub fw_version: u16,
    pub hw_revision: u8,
    pub bim_type: u8,
    pub has_bim: bool,
    pub bim_programmed: bool,
}

/// Fast pin state (gpio[128:159]).
#[derive(Debug, Clone, Copy, PartialEq, Eq, Structural)]
pub struct FastPinState {
    /// Input readback.
    pub din: u32,
    /// Output drive.
    pub dout: u32,
    /// Output enable.
    pub oen: u32,
}

/// One VICOR core's status (5 bytes on the wire).
#[derive(Debug, Clone, Copy, PartialEq, Eq, Structural)]
pub struct VicorCore {
    pub id: u8,
    pub enabled: bool,
    pub voltage_mv: u16,
    pub current_ma: u16,
}

/// All six VICOR core supplies.
#[derive(Debug, Clone)]
pub struct VicorStatus {
    pub cores: Vec<VicorCore>,
}

/// One PMBus rail's status.
#[derive(Debug, Clone, Copy, PartialEq, Eq, Structural)]
pub struct PmBusRail {
    pub address: u8,
    pub enabled: bool,
    pub voltage_mv: u16,
    pub current_ma: u16,
}

/// PMBus status response.
#[derive(Debug, Clone)]
pub struct PmBusStatus {
    pub rails: Vec<PmBusRail>,
}

/// Vector engine status.
#[derive(Debug, Clone, Copy, PartialEq, Eq, Structural)]
pub struct VectorEngineStatus {
    pub state: VectorState,
    pub current_address: u32,
    pub total_vectors: u32,
    pub loop_count: u32,
    pub target_loops: u32,
    pub error_count: u32,
    pub first_fail_addr: u32,
    pub run_time_ms: u64,
}

/// One error log entry (28 bytes from the error BRAM).
#[derive(Debug, Clone, Copy, PartialEq, Eq)]
pub struct ErrorLogEntry {
    /// 128-bit error pattern.
    pub pattern: [u32; 4],
    /// Vector number when the error occurred.
    pub vector: u32,
    /// Cycle count when the error occurred.
    pub cycle: u64,
}

/// Error log response.
#[derive(Debug, Clone)]
pub struct ErrorLogResponse {
    pub total_errors: u32,
    pub entries: Vec<ErrorLogEntry>,
}

/// Raw EEPROM data.
#[derive(Debug, Clone)]
pub struct EepromData {
    pub offset: u8,
    pub data: Vec<u8>,
}

/// Flight recorder log info.
#[derive(Debug, Clone, Copy, PartialEq, Eq, Structural)]
pub struct LogInfo {
    pub sd_present: bool,
    pub boot_sector: u32,
    pub log_start: u32,
    pub log_end: u32,
    pub current_index: u32,
    pub total_entries: u32,
}

/// Flight recorder sector data.
#[derive(Debug, Clone)]
pub struct LogSector {
    pub sector: u32,
    pub status: u8,
    pub data: Vec<u8>,
}

/// Firmware info response.
#[derive(Debug, Clone)]
pub struct FirmwareInfo {
    pub version_major: u8,
    pub version_minor: u8,
    pub version_patch: u8,
    pub build_date: String,
    pub serial: u32,
    pub hw_revision: u8,
    pub bootloader_version: u8,
    pub update_in_progress: bool,
    pub sd_present: bool,
}

/// Firmware update begin acknowledgment.
#[derive(Debug, Clone, Copy, PartialEq, Eq, Structural)]
pub struct FwBeginAck {
    /// 0 ready, 1 no SD, 2 SD error, 3 in progress.
    pub status: u8,
    pub max_chunk_size: u16,
}

/// Firmware chunk acknowledgment.
#[derive(Debug, Clone, Copy, PartialEq, Eq, Structural)]
pub struct FwChunkAck {
    pub offset: u32,
    /// 0 OK, 1 write error, 2 offset mismatch.
    pub status: u8,
}

/// Firmware commit acknowledgment.
#[derive(Debug, Clone, Copy, PartialEq, Eq, Structural)]
pub struct FwCommitAck {
    /// 0 success, 1 checksum mismatch, 2 incomplete.
    pub status: u8,
    pub received_size: u32,
    pub computed_checksum: u32,
}

/// `AA:BB:CC:DD:EE:FF`: the six bytes as upper-case hex pairs.
pub open spec fn mac_text(mac: Seq<u8>) -> Seq<char> {
    hex_joined(mac, ':')
}

/// The MAC address a text names: six `:`-separated fields, each what
/// `u8::from_str_radix(field, 16)` accepts.
pub open spec fn mac_of_text(s: Seq<char>) -> Option<Seq<u8>> {
    let parts = split(s, ':');
    if parts.len() == 6 && (forall|i: int| 0 <= i < 6 ==> (#[trigger] parse_hex(parts[i], 255)) is Some) {
        Some(Seq::new(6, |i: int| parse_hex(parts[i], 255)->0 as u8))
    } else {
        None
    }
}

/// An upper-case hex digit is no `:` and reads back as its value.
proof fn lemma_hex_digit_upper(n: int)
    requires
        0 <= n < 16,
    ensures
        hex_digit_upper(n) != ':',
        crate::text::is_hex_digit(hex_digit_upper(n)),
        hex_val(hex_digit_upper(n)) == n,
{
}

/// Two upper-case hex digits of a byte hold no `:` and parse back to it.
proof fn lemma_hex2_upper(b: u8)
    ensures
        !hex2_upper(b).contains(':'),
        parse_hex(hex2_upper(b), 255) == Some(b as int),
{
    let s = hex2_upper(b);
    lemma_hex_digit_upper(b as int / 16);
    lemma_hex_digit_upper(b as int % 16);
    assert(!s.contains(':')) by {
        if s.contains(':') {
            let k = choose|k: int| 0 <= k < s.len() && s[k] == ':';
            assert(k == 0 || k == 1);
        }
    }
    assert(unsigned_digits(s) == s);
    assert(s.drop_last() =~= seq![s[0]]);
    assert(seq![s[0]].drop_last() =~= Seq::<char>::empty());
    assert(hex_value(seq![s[0]]) == hex_value(Seq::<char>::empty()) * 16 + hex_val(s[0]));
    assert(hex_value(s) == hex_value(s.drop_last()) * 16 + hex_val(s.last()));
    assert((b as int / 16) * 16 + b as int % 16 == b as int);
}

/// The `:`-separated fields of hex-joined bytes are the bytes' hex pairs.
proof fn lemma_split_hex_joined(bytes: Seq<u8>)
    requires
        bytes.len() > 0,
    ensures
        split(hex_joined(bytes, ':'), ':') == Seq::new(bytes.len(), |i: int| hex2_upper(bytes[i])),
    decreases bytes.len(),
{
    lemma_hex2_upper(bytes.last());
    if bytes.len() == 1 {
        lemma_split_single(hex2_upper(bytes[0]), ':');
        assert(seq![hex2_upper(bytes[0])] =~= Seq::new(1, |i: int| hex2_upper(bytes[i])));
    } else {
        let front = bytes.drop_last();
        lemma_split_hex_joined(front);
        lemma_split_join(hex_joined(front, ':'), hex2_upper(bytes.last()), ':');
        assert(Seq::new(front.len(), |i: int| hex2_upper(front[i])).push(hex2_upper(bytes.last())) =~= Seq::new(
            bytes.len(),
            |i: int| hex2_upper(bytes[i]),
        ));
    }
}

/// Parsing the text of a MAC address gives the address back.
pub proof fn lemma_mac_text_roundtrip(mac: Seq<u8>)
    requires
        mac.len() == 6,
    ensures
        mac_of_text(mac_text(mac)) == Some(mac),
{
    lemma_split_hex_joined(mac);
    let parts = split(mac_text(mac), ':');
    assert forall|i: int| 0 <= i < 6 implies (#[trigger] parse_hex(parts[i], 255)) == Some(mac[i] as int) by {
        lemma_hex2_upper(mac[i]);
    }
    assert(Seq::new(6, |i: int| parse_hex(parts[i], 255)->0 as u8) =~= mac);
}

/// Format a MAC address as `AA:BB:CC:DD:EE:FF`.
pub fn format_mac(mac: &[u8; 6]) -> (r: String)
    ensures
        r@ == mac_text(mac@),
{
    let v = hex_join(mac.as_slice(), ':');
    string_from_chars(v.as_slice())
}

/// Parse a MAC address from `AA:BB:CC:DD:EE:FF` text.
pub fn parse_mac(s: &str) -> (r: Option<[u8; 6]>)
    ensures
        match mac_of_text(s@) {
            Some(m) => r matches Some(a) && a@ == m,
            None => r is None,
        },
{
    parse_mac_chars(&chars_of(s))
}

/// Parse a MAC address from the characters of `AA:BB:CC:DD:EE:FF` text.
pub fn parse_mac_chars(v: &[char]) -> (r: Option<[u8; 6]>)
    ensures
        match mac_of_text(v@) {
            Some(m) => r matches Some(a) && a@ == m,
            None => r is None,
        },
{
    let parts = split_chars(v, ':');
    let ghost ps = split(v@, ':');
    if parts.len() != 6 {
        return None;
    }
    let mut mac = [0u8; 6];
    let mut i: usize = 0;
    while i < 6
        invariant
            parts@.len() == 6,
            ps.len() == 6,
            forall|k: int| 0 <= k < 6 ==> (#[trigger] parts@[k])@ == ps[k],
            ps == split(v@, ':'),
            i <= 6,
            forall|k: int| 0 <= k < i ==> (#[trigger] parse_hex(ps[k], 255)) is Some,
            forall|k: int| 0 <= k < i ==> mac@[k] == parse_hex(ps[k], 255)->0 as u8,
        decreases 6 - i,
    {
        match parse_hex_max(parts[i].as_slice(), 255) {
            Some(b) => {
                mac[i] = b as u8;
            },
            None => {
                assert(parse_hex(ps[i as int], 255) is None);
                return None;
            },
        }
        i = i + 1;
    }
    assert(mac@ =~= Seq::new(6, |k: int| parse_hex(ps[k], 255)->0 as u8));
    Some(mac)
}

impl SystemType {
    /// The system's display name.
    pub fn to_string(&self) -> (r: String)
        ensures
            r@ == match *self {
                SystemType::Hx => "HX"@,
                SystemType::Sonoma => "Sonoma"@,
                SystemType::Xp160 => "XP-160"@,
                SystemType::Mcc => "MCC"@,
                SystemType::Shasta => "Shasta"@,
                SystemType::Fbc => "FBC"@,
            },
    {
        match *self {
            SystemType::Hx => "HX".to_owned(),
            SystemType::Sonoma => "Sonoma".to_owned(),
            SystemType::Xp160 => "XP-160".to_owned(),
            SystemType::Mcc => "MCC".to_owned(),
            SystemType::Shasta => "Shasta".to_owned(),
            SystemType::Fbc => "FBC".to_owned(),
        }
    }
}

impl ControllerState {
    /// The state's display name.
    pub fn to_string(&self) -> (r: String)
        ensures
            r@ == match *self {
                ControllerState::Idle => "Idle"@,
                ControllerState::Running => "Running"@,
                ControllerState::Done => "Done"@,
                ControllerState::Error => "Error"@,
            },
    {
        match *self {
            ControllerState::Idle => "Idle".to_owned(),
            ControllerState::Running => "Running".to_owned(),
            ControllerState::Done => "Done".to_owned(),
            ControllerState::Error => "Error".to_owned(),
        }
    }
}

impl VectorState {
    /// The state's display name.
    pub fn to_string(&self) -> (r: String)
        ensures
            r@ == match *self {
                VectorState::Idle => "Idle"@,
                VectorState::Loading => "Loading"@,
                VectorState::Running => "Running"@,
                VectorState::Paused => "Paused"@,
                VectorState::Done => "Done"@,
                VectorState::Error => "Error"@,
            },
    {
        match *self {
            VectorState::Idle => "Idle".to_owned(),
            VectorState::Loading => "Loading".to_owned(),
            VectorState::Running => "Running".to_owned(),
            VectorState::Paused => "Paused".to_owned(),
            VectorState::Done => "Done".to_owned(),
            VectorState::Error => "Error".to_owned(),
        }
    }
}

} // verus!
