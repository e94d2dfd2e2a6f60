//! Decoding of the payloads boards answer with: ANNOUNCE, status, fast
//! pins, VICOR and PMBus power, the EEPROM image, vector-engine status and
//! the error log.

use vstd::prelude::*;
use crate::codec::{be16, be32, be64, read_i16_be, read_u16_be, read_u32_be, read_u64_be, signed16};
use crate::gui::fbc::{
    BoardInfo, BoardStatus, CalibrationData, ControllerState, DutMetadata, EepromData, EepromHeader,
    ErrorLogEntry, ErrorLogResponse, FastPinState, PmBusRail, PmBusStatus, RailConfig, VectorEngineStatus,
    VectorState, VicorCore, VicorCoreStatus, VicorStatus,
};
use crate::text::{dec_chars, nul_padded_text, push_decimal, string_from_chars, trim_end_nul, utf8_lossy_text};
use crate::types::mac_text;

verus! {

broadcast use vstd::array::group_array_axioms;

/// The big-endian u32 at `at`.
pub open spec fn u32_at(p: Seq<u8>, at: int) -> u32 {
    be32(p.subrange(at, at + 4)) as u32
}

/// The big-endian u16 at `at`.
pub open spec fn u16_at(p: Seq<u8>, at: int) -> u16 {
    be16(p.subrange(at, at + 2)) as u16
}

/// The board an ANNOUNCE payload describes: MAC text, serial (bytes 7-10),
/// hardware revision (11), firmware `major.minor` (12, 13), BIM present
/// (14) and BIM type (6); a new board is idle and has no slot.
pub fn parse_announce(mac: &[u8; 6], payload: &[u8]) -> (r: BoardInfo)
    requires
        payload@.len() >= 15,
    ensures
        r.mac@ == mac_text(mac@),
        r.serial == u32_at(payload@, 7),
        r.hw_revision == payload@[11],
        r.fw_version@ == dec_chars(payload@[12] as nat) + seq!['.'] + dec_chars(payload@[13] as nat),
        r.has_bim == (payload@[14] != 0),
        r.bim_type == payload@[6],
        r.state == ControllerState::Idle,
        r.slot is None,
{
    let mut fw: Vec<char> = Vec::new();
    push_decimal(&mut fw, payload[12] as u64);
    fw.push('.');
    push_decimal(&mut fw, payload[13] as u64);
    assert(fw@ =~= dec_chars(payload@[12] as nat) + seq!['.'] + dec_chars(payload@[13] as nat));
    BoardInfo {
        mac: crate::gui::fbc::format_mac(mac),
        serial: read_u32_be(payload, 7),
        hw_revision: payload[11],
        fw_version: string_from_chars(fw.as_slice()),
        has_bim: payload[14] != 0,
        bim_type: payload[6],
        state: ControllerState::Idle,
        slot: None,
    }
}

/// Fast pins as the firmware sends them: din, dout, oen (big-endian).
pub fn parse_fast_pins(payload: &[u8]) -> (r: FastPinState)
    requires
        payload@.len() >= 12,
    ensures
        r.din == u32_at(payload@, 0),
        r.dout == u32_at(payload@, 4),
        r.oen == u32_at(payload@, 8),
{
    FastPinState {
        din: read_u32_be(payload, 0),
        dout: read_u32_be(payload, 4),
        oen: read_u32_be(payload, 8),
    }
}

/// Vector engine status: state byte, then big-endian address, vector
/// count, loop count, target loops, error count, first failing address and
/// run time.
pub fn parse_vector_status(payload: &[u8]) -> (r: VectorEngineStatus)
    requires
        payload@.len() >= 33,
    ensures
        r.state == VectorState::of_code(payload@[0]),
        r.current_address == u32_at(payload@, 1),
        r.total_vectors == u32_at(payload@, 5),
        r.loop_count == u32_at(payload@, 9),
        r.target_loops == u32_at(payload@, 13),
        r.error_count == u32_at(payload@, 17),
        r.first_fail_addr == u32_at(payload@, 21),
        r.run_time_ms == be64(payload@.subrange(25, 33)),
{
    VectorEngineStatus {
        state: VectorState::from(payload[0]),
        current_address: read_u32_be(payload, 1),
        total_vectors: read_u32_be(payload, 5),
        loop_count: read_u32_be(payload, 9),
        target_loops: read_u32_be(payload, 13),
        error_count: read_u32_be(payload, 17),
        first_fail_addr: read_u32_be(payload, 21),
        run_time_ms: read_u64_be(payload, 25),
    }
}

/// The error log entry at `offset`.
pub open spec fn entry_at(p: Seq<u8>, offset: int) -> (Seq<u32>, u32, u32, u32) {
    (
        seq![u32_at(p, offset), u32_at(p, offset + 4), u32_at(p, offset + 8), u32_at(p, offset + 12)],
        u32_at(p, offset + 16),
        u32_at(p, offset + 20),
        u32_at(p, offset + 24),
    )
}

/// How many entries an error log payload carries: as many whole 28-byte
/// entries as follow the 8-byte head, at most the count it announces.
pub open spec fn entry_count(p: Seq<u8>) -> int {
    let room = (p.len() - 8) / 28;
    let n = u32_at(p, 4) as int;
    if room < n { room } else { n }
}

/// Error log response: totals, then 28-byte entries; a payload shorter
/// than 8 bytes reads as an empty log.
pub fn parse_error_log_response(payload: &[u8]) -> (r: ErrorLogResponse)
    ensures
        payload@.len() < 8 ==> r.total_errors == 0 && r.num_entries == 0 && r.entries@.len() == 0,
        payload@.len() >= 8 ==> r.total_errors == u32_at(payload@, 0) && r.num_entries == u32_at(payload@, 4)
            && r.entries@.len() == entry_count(payload@) && forall|i: int|
            0 <= i < r.entries@.len() ==> (#[trigger] r.entries@[i]).pattern@ == entry_at(payload@, 8 + 28 * i).0
                && r.entries@[i].vector == entry_at(payload@, 8 + 28 * i).1
                && r.entries@[i].cycle_lo == entry_at(payload@, 8 + 28 * i).2
                && r.entries@[i].cycle_hi == entry_at(payload@, 8 + 28 * i).3,
{
    if payload.len() < 8 {
        return ErrorLogResponse { total_errors: 0, num_entries: 0, entries: Vec::new() };
    }
    let total_errors = read_u32_be(payload, 0);
    let num_entries = read_u32_be(payload, 4);
    let room = (payload.len() - 8) / 28;
    let max_entries: usize = if room < num_entries as usize { room } else { num_entries as usize };
    let mut entries: Vec<ErrorLogEntry> = Vec::new();
    let n = payload.len();
    let mut i: usize = 0;
    while i < max_entries
        invariant
            n == payload@.len(),
            max_entries == entry_count(payload@),
            max_entries <= (payload@.len() - 8) / 28,
            num_entries == u32_at(payload@, 4),
            i <= max_entries,
            entries@.len() == i,
            forall|k: int|
                0 <= k < i ==> (#[trigger] entries@[k]).pattern@ == entry_at(payload@, 8 + 28 * k).0
                    && entries@[k].vector == entry_at(payload@, 8 + 28 * k).1
                    && entries@[k].cycle_lo == entry_at(payload@, 8 + 28 * k).2
                    && entries@[k].cycle_hi == entry_at(payload@, 8 + 28 * k).3,
        decreases max_entries - i,
    {
        assert(8 + i * 28 + 28 <= payload@.len()) by (nonlinear_arith)
            requires i < max_entries, max_entries <= (payload@.len() - 8) / 28, payload@.len() >= 8;
        let offset = 8 + i * 28;
        let pattern: [u32; 4] = [
            read_u32_be(payload, offset),
            read_u32_be(payload, offset + 4),
            read_u32_be(payload, offset + 8),
            read_u32_be(payload, offset + 12),
        ];
        let vector = read_u32_be(payload, offset + 16);
        let cycle_lo = read_u32_be(payload, offset + 20);
        let cycle_hi = read_u32_be(payload, offset + 24);
        assert(pattern@ =~= entry_at(payload@, 8 + 28 * i).0);
        entries.push(ErrorLogEntry { pattern, vector, cycle_lo, cycle_hi });
        i = i + 1;
    }
    ErrorLogResponse { total_errors, num_entries, entries }
}

/// The rail configuration at `offset` of an EEPROM image.
pub open spec fn rail_read(p: Seq<u8>, offset: int, r: RailConfig) -> bool {
    &&& r.rail_id == p[offset]
    &&& r.name@ == p.subrange(offset + 1, offset + 9)
    &&& r.nominal_mv == u16_at(p, offset + 9)
    &&& r.max_mv == u16_at(p, offset + 11)
    &&& r.max_ma == u16_at(p, offset + 13)
    &&& r.enabled_by_default == (p[offset + 15] != 0)
}

fn parse_rail(payload: &[u8], offset: usize) -> (r: RailConfig)
    requires
        offset + 16 <= payload@.len(),
    ensures
        rail_read(payload@, offset as int, r),
{
    let _n = payload.len();
    let name: [u8; 8] = [
        payload[offset + 1],
        payload[offset + 2],
        payload[offset + 3],
        payload[offset + 4],
        payload[offset + 5],
        payload[offset + 6],
        payload[offset + 7],
        payload[offset + 8],
    ];
    assert(name@ =~= payload@.subrange(offset + 1, offset + 9));
    RailConfig {
        rail_id: payload[offset],
        name,
        nominal_mv: read_u16_be(payload, offset + 9),
        max_mv: read_u16_be(payload, offset + 11),
        max_ma: read_u16_be(payload, offset + 13),
        enabled_by_default: payload[offset + 15] != 0,
    }
}

fn copy_bytes(b: &[u8], a: usize, e: usize) -> (r: Vec<u8>)
    requires
        a <= e <= b@.len(),
    ensures
        r@ == b@.subrange(a as int, e as int),
{
    crate::codec::copy_range(b, a, e)
}

/// The EEPROM image: the raw 256 bytes; the header (magic, version,
/// serial, revision, manufacturing date, config CRC); six 16-byte rail
/// configurations from byte 16; the DUT part number and lot id (NUL-padded
/// text at 112 and 128), wafer, die position, test count and time; and the
/// calibration tables from byte 160 (the temperature offset is not stored
/// and reads as 0). The DAC gain table ends at byte 264, so the payload
/// holds at least 264 bytes.
pub fn parse_eeprom(payload: &[u8]) -> (r: EepromData)
    requires
        payload@.len() >= 264,
    ensures
        r.raw@ == payload@.subrange(0, 256),
        r.header == (EepromHeader {
            magic: u16_at(payload@, 0),
            version: payload@[2],
            board_serial: u32_at(payload@, 3),
            hw_revision: payload@[7],
            mfg_date: u32_at(payload@, 8),
            config_crc: u16_at(payload@, 12),
        }),
        r.rails@.len() == 6,
        forall|i: int| 0 <= i < 6 ==> rail_read(payload@, 16 + 16 * i, #[trigger] r.rails@[i]),
        r.dut.part_number@ == trim_end_nul(utf8_lossy_text(payload@.subrange(112, 128))),
        r.dut.lot_id@ == trim_end_nul(utf8_lossy_text(payload@.subrange(128, 144))),
        r.dut.wafer_id == payload@[144],
        r.dut.die_x == payload@[145],
        r.dut.die_y == payload@[146],
        r.dut.test_count == u32_at(payload@, 147),
        r.dut.last_test_time == be64(payload@.subrange(151, 159)),
        forall|i: int| 0 <= i < 16 ==> #[trigger] r.calibration.adc_offset@[i] == signed16(be16(payload@.subrange(160 + 2 * i, 162 + 2 * i))),
        forall|i: int| 0 <= i < 16 ==> #[trigger] r.calibration.adc_gain@[i] == u16_at(payload@, 192 + 2 * i),
        forall|i: int| 0 <= i < 10 ==> #[trigger] r.calibration.dac_offset@[i] == signed16(be16(payload@.subrange(224 + 2 * i, 226 + 2 * i))),
        forall|i: int| 0 <= i < 10 ==> #[trigger] r.calibration.dac_gain@[i] == u16_at(payload@, 244 + 2 * i),
        r.calibration.temp_offset == 0,
{
    let raw = copy_bytes(payload, 0, 256);
    let header = EepromHeader {
        magic: read_u16_be(payload, 0),
        version: payload[2],
        board_serial: read_u32_be(payload, 3),
        hw_revision: payload[7],
        mfg_date: read_u32_be(payload, 8),
        config_crc: read_u16_be(payload, 12),
    };
    let mut rails: Vec<RailConfig> = Vec::new();
    let mut i: usize = 0;
    while i < 6
        invariant
            payload@.len() >= 264,
            i <= 6,
            rails@.len() == i,
            forall|k: int| 0 <= k < i ==> rail_read(payload@, 16 + 16 * k, #[trigger] rails@[k]),
        decreases 6 - i,
    {
        let rail = parse_rail(payload, 16 + i * 16);
        rails.push(rail);
        i = i + 1;
    }
    let part = copy_bytes(payload, 112, 128);
    let lot = copy_bytes(payload, 128, 144);
    let dut = DutMetadata {
        part_number: nul_padded_text(part.as_slice()),
        lot_id: nul_padded_text(lot.as_slice()),
        wafer_id: payload[144],
        die_x: payload[145],
        die_y: payload[146],
        test_count: read_u32_be(payload, 147),
        last_test_time: read_u64_be(payload, 151),
    };
    let mut adc_offset = [0i16; 16];
    let mut adc_gain = [0u16; 16];
    let mut k: usize = 0;
    while k < 16
        invariant
            payload@.len() >= 264,
            k <= 16,
            forall|j: int| 0 <= j < k ==> #[trigger] adc_offset@[j] == signed16(be16(payload@.subrange(160 + 2 * j, 162 + 2 * j))),
            forall|j: int| 0 <= j < k ==> #[trigger] adc_gain@[j] == u16_at(payload@, 192 + 2 * j),
        decreases 16 - k,
    {
        adc_offset[k] = read_i16_be(payload, 160 + k * 2);
        adc_gain[k] = read_u16_be(payload, 192 + k * 2);
        k = k + 1;
    }
    let mut dac_offset = [0i16; 10];
    let mut dac_gain = [0u16; 10];
    let mut m: usize = 0;
    while m < 10
        invariant
            payload@.len() >= 264,
            m <= 10,
            forall|j: int| 0 <= j < m ==> #[trigger] dac_offset@[j] == signed16(be16(payload@.subrange(224 + 2 * j, 226 + 2 * j))),
            forall|j: int| 0 <= j < m ==> #[trigger] dac_gain@[j] == u16_at(payload@, 244 + 2 * j),
        decreases 10 - m,
    {
        dac_offset[m] = read_i16_be(payload, 224 + m * 2);
        dac_gain[m] = read_u16_be(payload, 244 + m * 2);
        m = m + 1;
    }
    let calibration = CalibrationData { adc_offset, adc_gain, dac_offset, dac_gain, temp_offset: 0 };
    EepromData { raw, header, rails, dut, calibration }
}

/// A status payload: cycles and errors (big-endian), the temperature in
/// tenths of a degree (bytes 8-9, signed), the state (10); the eight rail
/// voltages and currents when the payload holds all 47 bytes (zeros
/// otherwise), the FPGA VCCINT from 45 bytes and VCCAUX from 47 (0
/// otherwise).
pub fn parse_status(payload: &[u8]) -> (r: BoardStatus)
    requires
        payload@.len() >= 11,
    ensures
        r.cycles == u32_at(payload@, 0),
        r.errors == u32_at(payload@, 4),
        r.temp_decidegrees == signed16(be16(payload@.subrange(8, 10))),
        r.state == ControllerState::of_code(payload@[10]),
        forall|i: int|
            0 <= i < 8 ==> #[trigger] r.rail_voltage_mv[i] == (if payload@.len() >= 47 {
                u16_at(payload@, 11 + 2 * i)
            } else {
                0
            }),
        forall|i: int|
            0 <= i < 8 ==> #[trigger] r.rail_current_ma[i] == (if payload@.len() >= 47 {
                u16_at(payload@, 27 + 2 * i)
            } else {
                0
            }),
        r.fpga_vccint_mv == (if payload@.len() >= 45 { u16_at(payload@, 43) } else { 0 }),
        r.fpga_vccaux_mv == (if payload@.len() >= 47 { u16_at(payload@, 45) } else { 0 }),
{
    let mut rail_voltage_mv = [0u16; 8];
    let mut rail_current_ma = [0u16; 8];
    if payload.len() >= 47 {
        let mut i: usize = 0;
        while i < 8
            invariant
                payload@.len() >= 47,
                i <= 8,
                forall|k: int| 0 <= k < i ==> #[trigger] rail_voltage_mv[k] == u16_at(payload@, 11 + 2 * k),
                forall|k: int| 0 <= k < i ==> #[trigger] rail_current_ma[k] == u16_at(payload@, 27 + 2 * k),
            decreases 8 - i,
        {
            rail_voltage_mv.set(i, read_u16_be(payload, 11 + i * 2));
            rail_current_ma.set(i, read_u16_be(payload, 27 + i * 2));
            i = i + 1;
        }
    }
    BoardStatus {
        cycles: read_u32_be(payload, 0),
        errors: read_u32_be(payload, 4),
        temp_decidegrees: read_i16_be(payload, 8),
        state: ControllerState::from(payload[10]),
        rail_voltage_mv,
        rail_current_ma,
        fpga_vccint_mv: if payload.len() >= 45 { read_u16_be(payload, 43) } else { 0 },
        fpga_vccaux_mv: if payload.len() >= 47 { read_u16_be(payload, 45) } else { 0 },
    }
}

/// A VICOR status payload: five bytes per core (enabled, then big-endian
/// voltage and current); a core is on when enabled and off otherwise.
pub fn parse_vicor_status(payload: &[u8]) -> (r: VicorStatus)
    requires
        payload@.len() >= 30,
    ensures
        forall|i: int|
            0 <= i < 6 ==> {
                let c = #[trigger] r.cores[i];
                &&& c.id == i
                &&& c.enabled == (payload@[5 * i] != 0)
                &&& c.voltage_mv == u16_at(payload@, 5 * i + 1)
                &&& c.current_ma == u16_at(payload@, 5 * i + 3)
                &&& c.status == (if payload@[5 * i] != 0 { VicorCoreStatus::On } else { VicorCoreStatus::Off })
            },
{
    let blank = VicorCore { id: 0, enabled: false, voltage_mv: 0, current_ma: 0, status: VicorCoreStatus::Off };
    let mut cores = [blank; 6];
    let mut i: usize = 0;
    while i < 6
        invariant
            payload@.len() >= 30,
            i <= 6,
            forall|k: int|
                0 <= k < i ==> {
                    let c = #[trigger] cores[k];
                    &&& c.id == k
                    &&& c.enabled == (payload@[5 * k] != 0)
                    &&& c.voltage_mv == u16_at(payload@, 5 * k + 1)
                    &&& c.current_ma == u16_at(payload@, 5 * k + 3)
                    &&& c.status == (if payload@[5 * k] != 0 { VicorCoreStatus::On } else { VicorCoreStatus::Off })
                },
        decreases 6 - i,
    {
        let offset = i * 5;
        let enabled = payload[offset] != 0;
        let core = VicorCore {
            id: i as u8,
            enabled,
            voltage_mv: read_u16_be(payload, offset + 1),
            current_ma: read_u16_be(payload, offset + 3),
            status: if enabled { VicorCoreStatus::On } else { VicorCoreStatus::Off },
        };
        cores.set(i, core);
        i = i + 1;
    }
    VicorStatus { cores }
}

/// How many PMBus rails a payload carries: as many whole 16-byte records
/// as follow the count byte, at most the count.
pub open spec fn rail_count(p: Seq<u8>) -> int {
    let room = (p.len() - 1) / 16;
    if room < p[0] as int { room } else { p[0] as int }
}

/// A PMBus status payload: a rail count, then 16 bytes per rail (address,
/// NUL-padded name, enabled, big-endian voltage, current and status word);
/// rails that do not fit are left out. Power is not reported and reads 0.
pub fn parse_pmbus_status(payload: &[u8]) -> (r: PmBusStatus)
    requires
        payload@.len() >= 1,
    ensures
        r.rails@.len() == rail_count(payload@),
        forall|i: int|
            0 <= i < r.rails@.len() ==> {
                let o = 1 + 16 * i;
                let rail = #[trigger] r.rails@[i];
                &&& rail.address == payload@[o]
                &&& rail.name@ == trim_end_nul(utf8_lossy_text(payload@.subrange(o + 1, o + 9)))
                &&& rail.enabled == (payload@[o + 9] != 0)
                &&& rail.voltage_mv == u16_at(payload@, o + 10)
                &&& rail.current_ma == u16_at(payload@, o + 12)
                &&& rail.power_mw == 0
                &&& rail.status_word == u16_at(payload@, o + 14)
            },
{
    let count = payload[0] as usize;
    let mut rails: Vec<PmBusRail> = Vec::new();
    let mut i: usize = 0;
    while i < count
        invariant
            count == payload@[0],
            payload@.len() >= 1,
            i <= count,
            rails@.len() == i,
            i <= rail_count(payload@),
            forall|k: int|
                0 <= k < i ==> {
                    let o = 1 + 16 * k;
                    let rail = #[trigger] rails@[k];
                    &&& rail.address == payload@[o]
                    &&& rail.name@ == trim_end_nul(utf8_lossy_text(payload@.subrange(o + 1, o + 9)))
                    &&& rail.enabled == (payload@[o + 9] != 0)
                    &&& rail.voltage_mv == u16_at(payload@, o + 10)
                    &&& rail.current_ma == u16_at(payload@, o + 12)
                    &&& rail.power_mw == 0
                    &&& rail.status_word == u16_at(payload@, o + 14)
                },
        ensures
            rails@.len() == rail_count(payload@),
            forall|k: int|
                0 <= k < rails@.len() ==> {
                    let o = 1 + 16 * k;
                    let rail = #[trigger] rails@[k];
                    &&& rail.address == payload@[o]
                    &&& rail.name@ == trim_end_nul(utf8_lossy_text(payload@.subrange(o + 1, o + 9)))
                    &&& rail.enabled == (payload@[o + 9] != 0)
                    &&& rail.voltage_mv == u16_at(payload@, o + 10)
                    &&& rail.current_ma == u16_at(payload@, o + 12)
                    &&& rail.power_mw == 0
                    &&& rail.status_word == u16_at(payload@, o + 14)
                },
        decreases count - i,
    {
        let offset = 1 + i * 16;
        if offset + 16 > payload.len() {
            assert(rail_count(payload@) == i) by (nonlinear_arith)
                requires
                    offset == 1 + i * 16,
                    offset + 16 > payload@.len(),
                    i <= rail_count(payload@),
                    rail_count(payload@) == (if (payload@.len() - 1) / 16 < count { (payload@.len() - 1) / 16 } else { count as int }),
                    payload@.len() >= 1,
            ;
            break;
        }
        let name_bytes = crate::codec::copy_range(payload, offset + 1, offset + 9);
        let name = nul_padded_text(name_bytes.as_slice());
        rails.push(PmBusRail {
            address: payload[offset],
            name,
            enabled: payload[offset + 9] != 0,
            voltage_mv: read_u16_be(payload, offset + 10),
            current_ma: read_u16_be(payload, offset + 12),
            power_mw: 0,
            status_word: read_u16_be(payload, offset + 14),
        });
        proof {
            assert(i + 1 <= rail_count(payload@)) by (nonlinear_arith)
                requires
                    offset == 1 + i * 16,
                    offset + 16 <= payload@.len(),
                    i < count,
                    rail_count(payload@) == (if (payload@.len() - 1) / 16 < count { (payload@.len() - 1) / 16 } else { count as int }),
            ;
        }
        i = i + 1;
    }
    PmBusStatus { rails }
}

} // verus!
