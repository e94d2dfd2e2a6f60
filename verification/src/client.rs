//! The request payloads a host sends to FBC boards and the decoding of
//! their answers. Sending and waiting is the caller's: these functions
//! hold what each exchange puts on the wire and reads back.

use vstd::prelude::*;
use crate::codec::{be16, be16_bytes, be32, be32_bytes, be64, copy_range, push_all, push_u16_be, push_u32_be, read_u16_be, read_u32_be, read_u64_be};
use crate::fbc_protocol::{announce_read, AnnouncePayload};
use crate::text::{dec_chars, nul_padded_text, push_decimal, push_str, string_from_chars, trim_end_nul, utf8_lossy_text};
use crate::types::{
    BoardInfo, ControllerState, EepromData, ErrorLogEntry, ErrorLogResponse, FastPinState, FirmwareInfo, FwCommitAck,
    LogInfo, LogSector, PmBusRail, PmBusStatus, SystemType, VectorEngineStatus, VectorState, VicorCore, VicorStatus,
};

verus! {

broadcast use vstd::array::group_array_axioms;

/// What can go wrong talking to a board.
#[derive(Debug)]
pub enum FbcError {
    /// The network interface could not be used.
    Interface(String),
    Send(String),
    Receive(String),
    /// The board answered with an error or a malformed reply.
    Board(String),
    Timeout,
    NoBoards,
    BoardNotFound(String),
}

impl From<crate::fbc_protocol::FbcError> for FbcError {
    fn from(e: crate::fbc_protocol::FbcError) -> (r: FbcError) {
        match e {
            crate::fbc_protocol::FbcError::Interface(s) => FbcError::Interface(s),
            crate::fbc_protocol::FbcError::Send(s) => FbcError::Send(s),
            crate::fbc_protocol::FbcError::Receive(s) => FbcError::Receive(s),
            crate::fbc_protocol::FbcError::Timeout => FbcError::Timeout,
            crate::fbc_protocol::FbcError::InvalidPacket(s) => FbcError::Board(s),
        }
    }
}

impl vstd::std_specs::convert::FromSpecImpl<crate::fbc_protocol::FbcError> for FbcError {
    open spec fn obeys_from_spec() -> bool {
        true
    }

    open spec fn from_spec(e: crate::fbc_protocol::FbcError) -> FbcError {
        match e {
            crate::fbc_protocol::FbcError::Interface(s) => FbcError::Interface(s),
            crate::fbc_protocol::FbcError::Send(s) => FbcError::Send(s),
            crate::fbc_protocol::FbcError::Receive(s) => FbcError::Receive(s),
            crate::fbc_protocol::FbcError::Timeout => FbcError::Timeout,
            crate::fbc_protocol::FbcError::InvalidPacket(s) => FbcError::Board(s),
        }
    }
}

/// Whether `r` is the board error with message `m`.
pub open spec fn board_error<T>(r: Result<T, FbcError>, m: Seq<char>) -> bool {
    r matches Err(FbcError::Board(s)) && s@ == m
}

/// The big-endian u16 at `at`.
pub open spec fn u16_at(p: Seq<u8>, at: int) -> u16 {
    be16(p.subrange(at, at + 2)) as u16
}

/// The big-endian u32 at `at`.
pub open spec fn u32_at(p: Seq<u8>, at: int) -> u32 {
    be32(p.subrange(at, at + 4)) as u32
}

fn board_err<T>(m: &str) -> (r: Result<T, FbcError>)
    ensures
        board_error(r, m@),
{
    Err(FbcError::Board(m.to_owned()))
}

// -----------------------------------------------------------------------------
// Discovery
// -----------------------------------------------------------------------------

/// The board an ANNOUNCE answer describes, if the packet is one: the
/// ANNOUNCE command and a payload of 16 bytes or more. The MAC is the
/// sender's.
pub fn board_from_announce(src_mac: [u8; 6], cmd: u8, payload: &[u8]) -> (r: Option<BoardInfo>)
    ensures
        !(cmd == crate::fbc_protocol::setup::ANNOUNCE && payload@.len() >= 16) ==> r is None,
        cmd == crate::fbc_protocol::setup::ANNOUNCE && payload@.len() >= 16 ==> (r matches Some(b) && exists|
            a: AnnouncePayload,
        |
            announce_read(payload@, a) && b == (BoardInfo {
                system_type: SystemType::Fbc,
                mac: src_mac,
                serial: a.serial,
                fw_version: a.fw_version,
                hw_revision: a.hw_revision,
                bim_type: a.bim_type,
                has_bim: a.has_bim,
                bim_programmed: a.bim_programmed,
            })),
{
    if cmd != crate::fbc_protocol::setup::ANNOUNCE || payload.len() < 16 {
        return None;
    }
    match AnnouncePayload::from_bytes(payload) {
        Some(a) => Some(
            BoardInfo {
                system_type: SystemType::Fbc,
                mac: src_mac,
                serial: a.serial,
                fw_version: a.fw_version,
                hw_revision: a.hw_revision,
                bim_type: a.bim_type,
                has_bim: a.has_bim,
                bim_programmed: a.bim_programmed,
            },
        ),
        None => None,
    }
}

// -----------------------------------------------------------------------------
// Control
// -----------------------------------------------------------------------------

/// The bytes of vectors an upload chunk at `offset` carries: up to 1400.
pub open spec fn chunk_len(total: int, offset: int, size: int) -> int {
    if total - offset < size { total - offset } else { size }
}

/// The UPLOAD_VECTORS payload for the chunk at `offset`: offset, total
/// size, chunk length (big-endian), then the chunk.
pub open spec fn upload_chunk(data: Seq<u8>, offset: int) -> Seq<u8> {
    let n = chunk_len(data.len() as int, offset, 1400);
    be32_bytes(offset as u32) + be32_bytes(data.len() as u32) + be16_bytes(n as u16) + data.subrange(
        offset,
        offset + n,
    )
}

/// The UPLOAD_VECTORS payload for the chunk at `offset`.
fn upload_chunk_payload(data: &[u8], offset: usize) -> (r: Vec<u8>)
    requires
        offset <= data@.len() <= u32::MAX,
    ensures
        r@ == upload_chunk(data@, offset as int),
{
    let total = data.len();
    let n: usize = if total - offset < 1400 { total - offset } else { 1400 };
    let mut p: Vec<u8> = Vec::new();
    push_u32_be(&mut p, offset as u32);
    push_u32_be(&mut p, total as u32);
    push_u16_be(&mut p, n as u16);
    let chunk = copy_range(data, offset, offset + n);
    push_all(&mut p, chunk.as_slice());
    assert(p@ =~= upload_chunk(data@, offset as int));
    p
}

/// How many 1400-byte chunks `total` bytes take.
pub open spec fn chunk_count(total: int) -> int {
    total / 1400 + if total % 1400 != 0 { 1int } else { 0int }
}

/// The image bytes the first `k` upload chunks carry, in order (each
/// chunk's data follows its 10 header bytes).
pub open spec fn carried(data: Seq<u8>, k: nat) -> Seq<u8>
    decreases k,
{
    if k == 0 {
        seq![]
    } else {
        carried(data, (k - 1) as nat) + upload_chunk(data, 1400 * (k - 1)).skip(10)
    }
}

proof fn lemma_carried_prefix(data: Seq<u8>, k: nat)
    requires
        data.len() <= u32::MAX,
        k <= chunk_count(data.len() as int),
    ensures
        carried(data, k) == data.take(if 1400 * (k as int) < data.len() { 1400 * (k as int) } else { data.len() as int }),
    decreases k,
{
    let n = data.len() as int;
    if k == 0 {
        assert(data.take(0) =~= Seq::<u8>::empty());
    } else {
        let j = (k - 1) as nat;
        lemma_carried_prefix(data, j);
        assert(1400 * j < n) by (nonlinear_arith)
            requires
                k <= n / 1400 + if n % 1400 != 0 { 1int } else { 0int },
                j == k - 1,
                k >= 1,
                n >= 0,
        {
            assert(n == 1400 * (n / 1400) + n % 1400);
        }
        let o = 1400 * (j as int);
        let len = chunk_len(n, o, 1400);
        let p = upload_chunk(data, o);
        assert(be32_bytes(o as u32).len() == 4);
        assert(be32_bytes(n as u32).len() == 4);
        assert(be16_bytes(len as u16).len() == 2);
        assert(p.skip(10) =~= data.subrange(o, o + len));
        assert(data.take(o) + data.subrange(o, o + len) =~= data.take(o + len));
        assert(o + len == if 1400 * (k as int) < n { 1400 * (k as int) } else { n });
    }
}

/// The upload chunks carry the whole image, in order: their data, one
/// after another, is the image.
pub proof fn lemma_upload_chunks_carry_image(data: Seq<u8>)
    requires
        data.len() <= u32::MAX,
    ensures
        carried(data, chunk_count(data.len() as int) as nat) == data,
{
    let n = data.len() as int;
    let c = chunk_count(n);
    assert(c >= 0);
    lemma_carried_prefix(data, c as nat);
    assert(1400 * c >= n) by (nonlinear_arith)
        requires
            c == n / 1400 + if n % 1400 != 0 { 1int } else { 0int },
            n >= 0,
    {
        assert(n == 1400 * (n / 1400) + n % 1400);
    }
    assert(data.take(n) =~= data);
}

/// The payloads of a vector upload, in order: one chunk of 1400 bytes (the
/// last one shorter) per message.
pub fn upload_chunks(data: &[u8]) -> (r: Vec<Vec<u8>>)
    requires
        data@.len() <= u32::MAX,
    ensures
        r@.len() == chunk_count(data@.len() as int),
        forall|k: int| 0 <= k < r@.len() ==> (#[trigger] r@[k])@ == upload_chunk(data@, 1400 * k),
{
    let total = data.len();
    let count: usize = total / 1400 + if total % 1400 != 0 { 1 } else { 0 };
    let mut out: Vec<Vec<u8>> = Vec::new();
    let mut k: usize = 0;
    while k < count
        invariant
            total == data@.len() <= u32::MAX,
            count == chunk_count(total as int),
            k <= count,
            out@.len() == k,
            forall|j: int| 0 <= j < k ==> (#[trigger] out@[j])@ == upload_chunk(data@, 1400 * j),
        decreases count - k,
    {
        assert(1400 * k < total) by (nonlinear_arith)
            requires
                k < count,
                count == total / 1400 + if total % 1400 != 0 { 1int } else { 0int },
        ;
        let p = upload_chunk_payload(data, 1400 * k);
        out.push(p);
        k = k + 1;
    }
    out
}

/// The CONFIGURE payload: the clock divider, the six core voltages
/// (big-endian mV), then five zero bytes.
pub fn configure_payload(clock_div: u8, voltages: [u16; 6]) -> (r: Vec<u8>)
    ensures
        r@ == seq![clock_div] + be16_bytes(voltages[0]) + be16_bytes(voltages[1]) + be16_bytes(voltages[2])
            + be16_bytes(voltages[3]) + be16_bytes(voltages[4]) + be16_bytes(voltages[5]) + seq![0u8, 0, 0, 0, 0],
{
    let mut p: Vec<u8> = Vec::new();
    p.push(clock_div);
    push_u16_be(&mut p, voltages[0]);
    push_u16_be(&mut p, voltages[1]);
    push_u16_be(&mut p, voltages[2]);
    push_u16_be(&mut p, voltages[3]);
    push_u16_be(&mut p, voltages[4]);
    push_u16_be(&mut p, voltages[5]);
    p.push(0);
    p.push(0);
    p.push(0);
    p.push(0);
    p.push(0);
    assert(p@ =~= seq![clock_div] + be16_bytes(voltages[0]) + be16_bytes(voltages[1]) + be16_bytes(voltages[2])
        + be16_bytes(voltages[3]) + be16_bytes(voltages[4]) + be16_bytes(voltages[5]) + seq![0u8, 0, 0, 0, 0]);
    p
}

/// What waiting for a run does after a status: stop on done or error,
/// fail on an idle board, else poll again.
#[derive(Debug, Clone, Copy, PartialEq, Eq, Structural)]
pub enum WaitStep {
    Finished,
    Idle,
    Poll,
}

/// The next step of waiting for a run to finish, given the board's state.
pub fn wait_step(state: ControllerState) -> (r: WaitStep)
    ensures
        r == match state {
            ControllerState::Done | ControllerState::Error => WaitStep::Finished,
            ControllerState::Idle => WaitStep::Idle,
            _ => WaitStep::Poll,
        },
{
    match state {
        ControllerState::Done | ControllerState::Error => WaitStep::Finished,
        ControllerState::Idle => WaitStep::Idle,
        _ => WaitStep::Poll,
    }
}

// -----------------------------------------------------------------------------
// Fast pins, analog, power
// -----------------------------------------------------------------------------

/// Fast pins from a READ_RSP payload: din, dout, oen (big-endian).
pub fn decode_fast_pins(p: &[u8]) -> (r: Result<FastPinState, FbcError>)
    ensures
        p@.len() < 12 ==> board_error(r, "FastPins response too short"@),
        p@.len() >= 12 ==> r == Ok::<FastPinState, FbcError>(
            FastPinState { din: u32_at(p@, 0), dout: u32_at(p@, 4), oen: u32_at(p@, 8) },
        ),
{
    if p.len() < 12 {
        return board_err("FastPins response too short");
    }
    Ok(FastPinState { din: read_u32_be(p, 0), dout: read_u32_be(p, 4), oen: read_u32_be(p, 8) })
}

/// The fast pin WRITE payload: dout, oen (big-endian).
pub fn fast_pins_payload(dout: u32, oen: u32) -> (r: Vec<u8>)
    ensures
        r@ == be32_bytes(dout) + be32_bytes(oen),
{
    let mut p: Vec<u8> = Vec::new();
    push_u32_be(&mut p, dout);
    push_u32_be(&mut p, oen);
    p
}

/// One analog channel as the board sends it: the raw ADC value and the
/// reading in thousandths of a millivolt.
#[derive(Debug, Clone, Copy, PartialEq, Eq, Structural)]
pub struct AnalogSample {
    pub channel: u8,
    pub raw: u16,
    pub scaled_uv: i32,
}

/// The signed big-endian i32 at `at`.
pub open spec fn i32_at(p: Seq<u8>, at: int) -> i32 {
    u32_at(p, at) as i32
}

/// The analog channels of a READ_ALL_RSP payload: 16 on-chip then 16
/// external, six bytes each (raw u16, scaled i32). A payload under 192
/// bytes is refused.
pub fn decode_analog(p: &[u8]) -> (r: Result<(Vec<AnalogSample>, Vec<AnalogSample>), FbcError>)
    ensures
        p@.len() < 192 ==> board_error(
            r,
            "Analog response too short: "@ + dec_chars(p@.len()) + " bytes (need 192)"@,
        ),
        p@.len() >= 192 ==> (r matches Ok((x, e)) && x@.len() == 16 && e@.len() == 16 && forall|i: int|
            0 <= i < 16 ==> (#[trigger] x@[i]) == (AnalogSample {
                channel: i as u8,
                raw: u16_at(p@, 6 * i),
                scaled_uv: i32_at(p@, 6 * i + 2),
            }) && e@[i] == (AnalogSample {
                channel: (16 + i) as u8,
                raw: u16_at(p@, 96 + 6 * i),
                scaled_uv: i32_at(p@, 96 + 6 * i + 2),
            })),
{
    if p.len() < 192 {
        let mut m: Vec<char> = Vec::new();
        push_str(&mut m, "Analog response too short: ");
        push_decimal(&mut m, p.len() as u64);
        push_str(&mut m, " bytes (need 192)");
        return Err(FbcError::Board(string_from_chars(m.as_slice())));
    }
    let mut xadc: Vec<AnalogSample> = Vec::new();
    let mut external: Vec<AnalogSample> = Vec::new();
    let mut i: usize = 0;
    while i < 16
        invariant
            p@.len() >= 192,
            i <= 16,
            xadc@.len() == i && external@.len() == i,
            forall|k: int|
                0 <= k < i ==> (#[trigger] xadc@[k]) == (AnalogSample {
                    channel: k as u8,
                    raw: u16_at(p@, 6 * k),
                    scaled_uv: i32_at(p@, 6 * k + 2),
                }) && external@[k] == (AnalogSample {
                    channel: (16 + k) as u8,
                    raw: u16_at(p@, 96 + 6 * k),
                    scaled_uv: i32_at(p@, 96 + 6 * k + 2),
                }),
        decreases 16 - i,
    {
        let o = i * 6;
        let s = read_u32_be(p, o + 2);
        xadc.push(AnalogSample { channel: i as u8, raw: read_u16_be(p, o), scaled_uv: s as i32 });
        let q = 96 + i * 6;
        let t = read_u32_be(p, q + 2);
        external.push(AnalogSample { channel: (16 + i) as u8, raw: read_u16_be(p, q), scaled_uv: t as i32 });
        i = i + 1;
    }
    Ok((xadc, external))
}

/// VICOR status from a 30-byte payload: per core (numbered 1 to 6) the
/// enable byte, then big-endian voltage and current.
pub fn decode_vicor_status(p: &[u8]) -> (r: Result<VicorStatus, FbcError>)
    ensures
        p@.len() < 30 ==> board_error(r, "VICOR response too short"@),
        p@.len() >= 30 ==> (r matches Ok(s) && s.cores@.len() == 6 && forall|i: int|
            0 <= i < 6 ==> (#[trigger] s.cores@[i]) == (VicorCore {
                id: (i + 1) as u8,
                enabled: p@[5 * i] != 0,
                voltage_mv: u16_at(p@, 5 * i + 1),
                current_ma: u16_at(p@, 5 * i + 3),
            })),
{
    if p.len() < 30 {
        return board_err("VICOR response too short");
    }
    let mut cores: Vec<VicorCore> = Vec::new();
    let mut i: usize = 0;
    while i < 6
        invariant
            p@.len() >= 30,
            i <= 6,
            cores@.len() == i,
            forall|k: int|
                0 <= k < i ==> (#[trigger] cores@[k]) == (VicorCore {
                    id: (k + 1) as u8,
                    enabled: p@[5 * k] != 0,
                    voltage_mv: u16_at(p@, 5 * k + 1),
                    current_ma: u16_at(p@, 5 * k + 3),
                }),
        decreases 6 - i,
    {
        let o = i * 5;
        cores.push(
            VicorCore {
                id: (i + 1) as u8,
                enabled: p[o] != 0,
                voltage_mv: read_u16_be(p, o + 1),
                current_ma: read_u16_be(p, o + 3),
            },
        );
        i = i + 1;
    }
    Ok(VicorStatus { cores })
}

/// The VICOR_ENABLE payload: the core mask.
pub fn vicor_enable_payload(core_mask: u8) -> (r: Vec<u8>)
    ensures
        r@ == seq![core_mask],
{
    vec![core_mask]
}

/// The VICOR_SET_VOLTAGE payload: core, then the voltage (big-endian mV).
pub fn vicor_voltage_payload(core: u8, voltage_mv: u16) -> (r: Vec<u8>)
    ensures
        r@ == seq![core] + be16_bytes(voltage_mv),
{
    let mut p: Vec<u8> = vec![core];
    push_u16_be(&mut p, voltage_mv);
    p
}

/// How many 7-byte PMBus records a payload carries.
pub open spec fn pmbus_count(p: Seq<u8>) -> int {
    if p.len() < 2 {
        0
    } else {
        let room = (p.len() - 1) / 7;
        if room < p[0] as int { room } else { p[0] as int }
    }
}

/// PMBus status: from a payload of two bytes or more, a count then 7-byte
/// records (address, enabled, big-endian voltage and current, one more
/// byte), as many as fit.
pub fn decode_pmbus_status(p: &[u8]) -> (r: PmBusStatus)
    ensures
        r.rails@.len() == pmbus_count(p@),
        forall|i: int|
            0 <= i < r.rails@.len() ==> (#[trigger] r.rails@[i]) == (PmBusRail {
                address: p@[1 + 7 * i],
                enabled: p@[1 + 7 * i + 1] != 0,
                voltage_mv: u16_at(p@, 1 + 7 * i + 2),
                current_ma: u16_at(p@, 1 + 7 * i + 4),
            }),
{
    let mut rails: Vec<PmBusRail> = Vec::new();
    if p.len() < 2 {
        return PmBusStatus { rails };
    }
    let count = p[0] as usize;
    let mut i: usize = 0;
    while i < count
        invariant
            p@.len() >= 2,
            count == p@[0],
            i <= count,
            rails@.len() == i,
            i <= pmbus_count(p@),
            forall|k: int|
                0 <= k < i ==> (#[trigger] rails@[k]) == (PmBusRail {
                    address: p@[1 + 7 * k],
                    enabled: p@[1 + 7 * k + 1] != 0,
                    voltage_mv: u16_at(p@, 1 + 7 * k + 2),
                    current_ma: u16_at(p@, 1 + 7 * k + 4),
                }),
        ensures
            rails@.len() == pmbus_count(p@),
            forall|k: int|
                0 <= k < rails@.len() ==> (#[trigger] rails@[k]) == (PmBusRail {
                    address: p@[1 + 7 * k],
                    enabled: p@[1 + 7 * k + 1] != 0,
                    voltage_mv: u16_at(p@, 1 + 7 * k + 2),
                    current_ma: u16_at(p@, 1 + 7 * k + 4),
                }),
        decreases count - i,
    {
        let o = 1 + i * 7;
        if o + 7 > p.len() {
            assert(pmbus_count(p@) == i) by (nonlinear_arith)
                requires
                    o == 1 + i * 7,
                    o + 7 > p@.len(),
                    i <= pmbus_count(p@),
                    pmbus_count(p@) == (if (p@.len() - 1) / 7 < count { (p@.len() - 1) / 7 } else { count as int }),
                    p@.len() >= 2,
            ;
            break;
        }
        rails.push(
            PmBusRail {
                address: p[o],
                enabled: p[o + 1] != 0,
                voltage_mv: read_u16_be(p, o + 2),
                current_ma: read_u16_be(p, o + 4),
            },
        );
        assert(i + 1 <= pmbus_count(p@)) by (nonlinear_arith)
            requires
                o == 1 + i * 7,
                o + 7 <= p@.len(),
                i < count,
                pmbus_count(p@) == (if (p@.len() - 1) / 7 < count { (p@.len() - 1) / 7 } else { count as int }),
        ;
        i = i + 1;
    }
    PmBusStatus { rails }
}

/// The PMBUS_ENABLE payload: address, then 1 to enable or 0.
pub fn pmbus_enable_payload(addr: u8, enable: bool) -> (r: Vec<u8>)
    ensures
        r@ == seq![addr, if enable { 1u8 } else { 0u8 }],
{
    vec![addr, if enable { 1u8 } else { 0u8 }]
}

/// The POWER_SEQUENCE_ON payload: the six core voltages (big-endian mV).
pub fn power_on_payload(voltages: [u16; 6]) -> (r: Vec<u8>)
    ensures
        r@ == be16_bytes(voltages[0]) + be16_bytes(voltages[1]) + be16_bytes(voltages[2]) + be16_bytes(voltages[3])
            + be16_bytes(voltages[4]) + be16_bytes(voltages[5]),
{
    let mut p: Vec<u8> = Vec::new();
    push_u16_be(&mut p, voltages[0]);
    push_u16_be(&mut p, voltages[1]);
    push_u16_be(&mut p, voltages[2]);
    push_u16_be(&mut p, voltages[3]);
    push_u16_be(&mut p, voltages[4]);
    push_u16_be(&mut p, voltages[5]);
    assert(p@ =~= be16_bytes(voltages[0]) + be16_bytes(voltages[1]) + be16_bytes(voltages[2]) + be16_bytes(voltages[3])
        + be16_bytes(voltages[4]) + be16_bytes(voltages[5]));
    p
}

// -----------------------------------------------------------------------------
// EEPROM, vector engine, error log
// -----------------------------------------------------------------------------

/// EEPROM data from a READ_RSP payload: its offset byte, then (after one
/// more byte) the data.
pub fn decode_eeprom(p: &[u8]) -> (r: Result<EepromData, FbcError>)
    ensures
        p@.len() < 2 ==> board_error(r, "EEPROM response too short"@),
        p@.len() >= 2 ==> (r matches Ok(e) && e.offset == p@[0] && e.data@ == p@.subrange(2, p@.len() as int)),
{
    if p.len() < 2 {
        return board_err("EEPROM response too short");
    }
    Ok(EepromData { offset: p[0], data: copy_range(p, 2, p.len()) })
}

/// The EEPROM WRITE payload: offset, length (its low byte), data.
pub fn eeprom_write_payload(offset: u8, data: &[u8]) -> (r: Vec<u8>)
    ensures
        r@ == seq![offset, data@.len() as u8] + data@,
{
    let mut p: Vec<u8> = Vec::new();
    p.push(offset);
    p.push(#[verifier::truncate] (data.len() as u8));
    push_all(&mut p, data);
    p
}

/// Vector engine status from a 33-byte payload.
pub fn decode_vector_status(p: &[u8]) -> (r: Result<VectorEngineStatus, FbcError>)
    ensures
        p@.len() < 33 ==> board_error(r, "Vector status response too short"@),
        p@.len() >= 33 ==> r == Ok::<VectorEngineStatus, FbcError>(
            VectorEngineStatus {
                state: VectorState::of_code(p@[0]),
                current_address: u32_at(p@, 1),
                total_vectors: u32_at(p@, 5),
                loop_count: u32_at(p@, 9),
                target_loops: u32_at(p@, 13),
                error_count: u32_at(p@, 17),
                first_fail_addr: u32_at(p@, 21),
                run_time_ms: be64(p@.subrange(25, 33)) as u64,
            },
        ),
{
    if p.len() < 33 {
        return board_err("Vector status response too short");
    }
    Ok(
        VectorEngineStatus {
            state: VectorState::from_u8(p[0]),
            current_address: read_u32_be(p, 1),
            total_vectors: read_u32_be(p, 5),
            loop_count: read_u32_be(p, 9),
            target_loops: read_u32_be(p, 13),
            error_count: read_u32_be(p, 17),
            first_fail_addr: read_u32_be(p, 21),
            run_time_ms: read_u64_be(p, 25),
        },
    )
}

/// The vector engine START payload: the loop count (big-endian).
pub fn start_vectors_payload(loops: u32) -> (r: Vec<u8>)
    ensures
        r@ == be32_bytes(loops),
{
    let mut p: Vec<u8> = Vec::new();
    push_u32_be(&mut p, loops);
    p
}

/// The ERROR_LOG_REQ payload: first index, count (big-endian).
pub fn error_log_request(start_index: u32, count: u32) -> (r: Vec<u8>)
    ensures
        r@ == be32_bytes(start_index) + be32_bytes(count),
{
    let mut p: Vec<u8> = Vec::new();
    push_u32_be(&mut p, start_index);
    push_u32_be(&mut p, count);
    p
}

/// How many 28-byte error entries a payload carries.
pub open spec fn error_entry_count(p: Seq<u8>) -> int {
    let room = (p.len() - 8) / 28;
    let n = u32_at(p, 4) as int;
    if room < n { room } else { n }
}

/// The error entry at `o`: pattern words, vector, and the cycle from its
/// low and high words.
pub open spec fn error_entry_at(p: Seq<u8>, o: int) -> ErrorLogEntry {
    ErrorLogEntry {
        pattern: [u32_at(p, o), u32_at(p, o + 4), u32_at(p, o + 8), u32_at(p, o + 12)],
        vector: u32_at(p, o + 16),
        cycle: (u32_at(p, o + 24) as int * 0x1_0000_0000 + u32_at(p, o + 20) as int) as u64,
    }
}

/// The error log from an ERROR_LOG_RSP payload: totals, then as many
/// whole entries as announced and present.
pub fn decode_error_log(p: &[u8]) -> (r: Result<ErrorLogResponse, FbcError>)
    ensures
        p@.len() < 8 ==> board_error(r, "Error log response too short"@),
        p@.len() >= 8 ==> (r matches Ok(e) && e.total_errors == u32_at(p@, 0) && e.entries@.len()
            == error_entry_count(p@) && forall|i: int|
            0 <= i < e.entries@.len() ==> (#[trigger] e.entries@[i]).pattern@ == error_entry_at(p@, 8 + 28 * i).pattern@
                && e.entries@[i].vector == error_entry_at(p@, 8 + 28 * i).vector && e.entries@[i].cycle
                == error_entry_at(p@, 8 + 28 * i).cycle),
{
    if p.len() < 8 {
        return board_err("Error log response too short");
    }
    let total_errors = read_u32_be(p, 0);
    let num_entries = read_u32_be(p, 4);
    let room = (p.len() - 8) / 28;
    let count: usize = if room < num_entries as usize { room } else { num_entries as usize };
    let mut entries: Vec<ErrorLogEntry> = Vec::new();
    let n = p.len();
    let mut i: usize = 0;
    while i < count
        invariant
            n == p@.len(),
            p@.len() >= 8,
            count == error_entry_count(p@),
            count <= (p@.len() - 8) / 28,
            i <= count,
            entries@.len() == i,
            forall|k: int|
                0 <= k < i ==> (#[trigger] entries@[k]).pattern@ == error_entry_at(p@, 8 + 28 * k).pattern@
                    && entries@[k].vector == error_entry_at(p@, 8 + 28 * k).vector && entries@[k].cycle
                    == error_entry_at(p@, 8 + 28 * k).cycle,
        decreases count - i,
    {
        assert(8 + i * 28 + 28 <= p@.len()) by (nonlinear_arith)
            requires
                i < count,
                count <= (p@.len() - 8) / 28,
                p@.len() >= 8,
        ;
        let o = 8 + i * 28;
        let pattern: [u32; 4] = [read_u32_be(p, o), read_u32_be(p, o + 4), read_u32_be(p, o + 8), read_u32_be(p, o + 12)];
        let lo = read_u32_be(p, o + 20);
        let hi = read_u32_be(p, o + 24);
        let cycle: u64 = ((hi as u64) << 32) | (lo as u64);
        assert(cycle == hi as int * 0x1_0000_0000 + lo as int) by (bit_vector)
            requires
                cycle == ((hi as u64) << 32) | (lo as u64),
        ;
        assert(pattern@ =~= error_entry_at(p@, 8 + 28 * i).pattern@);
        entries.push(ErrorLogEntry { pattern, vector: read_u32_be(p, o + 16), cycle });
        i = i + 1;
    }
    Ok(ErrorLogResponse { total_errors, entries })
}

// -----------------------------------------------------------------------------
// Flight recorder and firmware
// -----------------------------------------------------------------------------

/// Flight recorder info from a 21-byte payload.
pub fn decode_log_info(p: &[u8]) -> (r: Result<LogInfo, FbcError>)
    ensures
        p@.len() < 21 ==> board_error(r, "Log info response too short"@),
        p@.len() >= 21 ==> r == Ok::<LogInfo, FbcError>(
            LogInfo {
                sd_present: p@[0] != 0,
                boot_sector: u32_at(p@, 1),
                log_start: u32_at(p@, 5),
                log_end: u32_at(p@, 9),
                current_index: u32_at(p@, 13),
                total_entries: u32_at(p@, 17),
            },
        ),
{
    if p.len() < 21 {
        return board_err("Log info response too short");
    }
    Ok(
        LogInfo {
            sd_present: p[0] != 0,
            boot_sector: read_u32_be(p, 1),
            log_start: read_u32_be(p, 5),
            log_end: read_u32_be(p, 9),
            current_index: read_u32_be(p, 13),
            total_entries: read_u32_be(p, 17),
        },
    )
}

/// The LOG_READ_REQ payload: the sector (big-endian).
pub fn log_read_request(sector: u32) -> (r: Vec<u8>)
    ensures
        r@ == be32_bytes(sector),
{
    let mut p: Vec<u8> = Vec::new();
    push_u32_be(&mut p, sector);
    p
}

/// A flight recorder sector: sector number, status, data.
pub fn decode_log_sector(p: &[u8]) -> (r: Result<LogSector, FbcError>)
    ensures
        p@.len() < 5 ==> board_error(r, "Log read response too short"@),
        p@.len() >= 5 ==> (r matches Ok(s) && s.sector == u32_at(p@, 0) && s.status == p@[4] && s.data@
            == p@.subrange(5, p@.len() as int)),
{
    if p.len() < 5 {
        return board_err("Log read response too short");
    }
    Ok(LogSector { sector: read_u32_be(p, 0), status: p[4], data: copy_range(p, 5, p.len()) })
}

/// Firmware info from a 20-byte payload: version, NUL-padded build date,
/// serial, revisions and the flag byte (bit 0 update in progress, bit 1 SD
/// card present).
pub fn decode_firmware_info(p: &[u8]) -> (r: Result<FirmwareInfo, FbcError>)
    ensures
        p@.len() < 20 ==> board_error(r, "Firmware info response too short"@),
        p@.len() >= 20 ==> (r matches Ok(f) && f.version_major == p@[0] && f.version_minor == p@[1]
            && f.version_patch == p@[2] && f.build_date@ == trim_end_nul(utf8_lossy_text(p@.subrange(3, 13)))
            && f.serial == u32_at(p@, 13) && f.hw_revision == p@[17] && f.bootloader_version == p@[18]
            && f.update_in_progress == (p@[19] & 1 != 0) && f.sd_present == (p@[19] & 2 != 0)),
{
    if p.len() < 20 {
        return board_err("Firmware info response too short");
    }
    let date = copy_range(p, 3, 13);
    Ok(
        FirmwareInfo {
            version_major: p[0],
            version_minor: p[1],
            version_patch: p[2],
            build_date: nul_padded_text(date.as_slice()),
            serial: read_u32_be(p, 13),
            hw_revision: p[17],
            bootloader_version: p[18],
            update_in_progress: (p[19] & 0x01) != 0,
            sd_present: (p[19] & 0x02) != 0,
        },
    )
}

/// The firmware BEGIN payload: image size (its low 32 bits) and checksum
/// (big-endian).
pub fn fw_begin_payload(size: usize, checksum: u32) -> (r: Vec<u8>)
    ensures
        r@ == be32_bytes(size as u32) + be32_bytes(checksum),
{
    let mut p: Vec<u8> = Vec::new();
    push_u32_be(&mut p, #[verifier::truncate] (size as u32));
    push_u32_be(&mut p, checksum);
    p
}

/// The status a BEGIN_ACK reports (255 when it is empty).
pub open spec fn begin_status(p: Seq<u8>) -> u8 {
    if p.len() > 0 { p[0] } else { 255 }
}

/// The chunk size a BEGIN_ACK allows: what the board announces, at most
/// 1024; or the error when it refused (status not 0) or the ACK is short.
pub fn decode_fw_begin(p: &[u8]) -> (r: Result<usize, FbcError>)
    ensures
        (p@.len() < 3 || p@[0] != 0) ==> board_error(
            r,
            "Firmware begin failed: status="@ + dec_chars(begin_status(p@) as nat),
        ),
        !(p@.len() < 3 || p@[0] != 0) ==> r == Ok::<usize, FbcError>(
            if u16_at(p@, 1) < 1024 { u16_at(p@, 1) as usize } else { 1024 },
        ),
{
    if p.len() < 3 || p[0] != 0 {
        let status: u8 = if p.len() > 0 { p[0] } else { 0xFF };
        let mut m: Vec<char> = Vec::new();
        push_str(&mut m, "Firmware begin failed: status=");
        push_decimal(&mut m, status as u64);
        return Err(FbcError::Board(string_from_chars(m.as_slice())));
    }
    let max_chunk = read_u16_be(p, 1) as usize;
    Ok(if max_chunk < 1024 { max_chunk } else { 1024 })
}

/// The CHUNK payload for the chunk at `offset`: offset, chunk length
/// (big-endian), then the chunk.
pub open spec fn fw_chunk(data: Seq<u8>, offset: int, size: int) -> Seq<u8> {
    let n = chunk_len(data.len() as int, offset, size);
    be32_bytes(offset as u32) + be16_bytes(n as u16) + data.subrange(offset, offset + n)
}

/// The firmware CHUNK payload at `offset`, with chunks of `size` bytes.
pub fn fw_chunk_payload(data: &[u8], offset: usize, size: usize) -> (r: Vec<u8>)
    requires
        offset <= data@.len(),
    ensures
        r@ == fw_chunk(data@, offset as int, size as int),
{
    let n: usize = if data.len() - offset < size { data.len() - offset } else { size };
    let mut p: Vec<u8> = Vec::new();
    push_u32_be(&mut p, #[verifier::truncate] (offset as u32));
    push_u16_be(&mut p, #[verifier::truncate] (n as u16));
    let chunk = copy_range(data, offset, offset + n);
    push_all(&mut p, chunk.as_slice());
    assert(p@ =~= fw_chunk(data@, offset as int, size as int));
    p
}

/// Whether a CHUNK_ACK reports a failure (status byte 4 not 0), and the
/// error then.
pub fn check_fw_chunk_ack(p: &[u8], offset: u32) -> (r: Result<(), FbcError>)
    ensures
        (p@.len() >= 5 && p@[4] != 0) ==> board_error(
            r,
            "Firmware chunk failed at offset "@ + dec_chars(offset as nat) + ": status="@ + dec_chars(p@[4] as nat),
        ),
        !(p@.len() >= 5 && p@[4] != 0) ==> r is Ok,
{
    if p.len() >= 5 && p[4] != 0 {
        let mut m: Vec<char> = Vec::new();
        push_str(&mut m, "Firmware chunk failed at offset ");
        push_decimal(&mut m, offset as u64);
        push_str(&mut m, ": status=");
        push_decimal(&mut m, p[4] as u64);
        return Err(FbcError::Board(string_from_chars(m.as_slice())));
    }
    Ok(())
}

/// What a firmware upload does next.
pub enum FwUploadAction {
    /// Send this CHUNK payload and wait for its ACK.
    SendChunk(Vec<u8>),
    /// Every byte was sent: send COMMIT.
    Commit,
}

/// The next action of a firmware upload whose next chunk starts at
/// `offset`: the CHUNK payload while bytes remain, then COMMIT.
pub fn fw_upload_action(data: &[u8], offset: usize, chunk_size: usize) -> (r: FwUploadAction)
    requires
        offset <= data@.len(),
    ensures
        offset < data@.len() ==> (r matches FwUploadAction::SendChunk(p) && p@ == fw_chunk(
            data@,
            offset as int,
            chunk_size as int,
        ) && p@.skip(6) == data@.subrange(
            offset as int,
            offset + chunk_len(data@.len() as int, offset as int, chunk_size as int),
        )),
        offset == data@.len() ==> r is Commit,
{
    if offset < data.len() {
        let p = fw_chunk_payload(data, offset, chunk_size);
        proof {
            let n = chunk_len(data@.len() as int, offset as int, chunk_size as int);
            assert(be32_bytes(offset as u32).len() == 4);
            assert(be16_bytes(n as u16).len() == 2);
            assert(p@.skip(6) =~= data@.subrange(offset as int, offset + n));
        }
        FwUploadAction::SendChunk(p)
    } else {
        FwUploadAction::Commit
    }
}

/// After the board answered the chunk at `offset` of a `len`-byte image:
/// the offset of the next chunk, which is further on and at most `len`, or
/// the error the ACK reports.
pub fn fw_upload_acked(ack: &[u8], len: usize, offset: usize, chunk_size: usize) -> (r: Result<usize, FbcError>)
    requires
        offset < len <= u32::MAX,
        chunk_size > 0,
    ensures
        (ack@.len() >= 5 && ack@[4] != 0) ==> board_error(
            r,
            "Firmware chunk failed at offset "@ + dec_chars(offset as nat) + ": status="@ + dec_chars(ack@[4] as nat),
        ),
        !(ack@.len() >= 5 && ack@[4] != 0) ==> r == Ok::<usize, FbcError>(
            (offset + chunk_len(len as int, offset as int, chunk_size as int)) as usize,
        ),
        r matches Ok(o) ==> offset < o <= len,
{
    match check_fw_chunk_ack(ack, offset as u32) {
        Err(e) => Err(e),
        Ok(()) => {
            let n: usize = if len - offset < chunk_size { len - offset } else { chunk_size };
            Ok(offset + n)
        },
    }
}

/// The COMMIT_ACK: status, received size and computed checksum.
pub fn decode_fw_commit(p: &[u8]) -> (r: Result<FwCommitAck, FbcError>)
    ensures
        p@.len() < 9 ==> board_error(r, "Firmware commit response too short"@),
        p@.len() >= 9 ==> r == Ok::<FwCommitAck, FbcError>(
            FwCommitAck { status: p@[0], received_size: u32_at(p@, 1), computed_checksum: u32_at(p@, 5) },
        ),
{
    if p.len() < 9 {
        return board_err("Firmware commit response too short");
    }
    Ok(FwCommitAck { status: p[0], received_size: read_u32_be(p, 1), computed_checksum: read_u32_be(p, 5) })
}

} // verus!
