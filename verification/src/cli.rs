//! Helpers of the host command-line tool: command names, numeric
//! arguments and the boards a command targets.

use vstd::prelude::*;
use crate::fbc_protocol::{
    analog, eeprom, error_log, fastpins, firmware, flight_recorder, power, runtime, setup, slot,
    testplan, vector_engine,
};
use crate::text::{
    chars_of, contains_char, eq_lower, lower_seq, parse_uint_radix, push_str, slice_range, split, split_chars,
    string_from_chars, trim, trimmed, uint_parse, IntErrorKind,
};
use crate::types::{mac_of_text, parse_mac_chars};

verus! {

/// The display name of a protocol command code.
pub open spec fn cmd_name(cmd: u8) -> Seq<char> {
    match cmd {
        setup::ANNOUNCE => "ANNOUNCE"@,
        setup::BIM_STATUS_REQ => "BIM_STATUS_REQ"@,
        setup::BIM_STATUS_RSP => "BIM_STATUS_RSP"@,
        setup::WRITE_BIM => "WRITE_BIM"@,
        setup::UPLOAD_VECTORS => "UPLOAD_VECTORS"@,
        setup::CONFIGURE => "CONFIGURE"@,
        runtime::START => "START"@,
        runtime::STOP => "STOP"@,
        runtime::RESET => "RESET"@,
        runtime::HEARTBEAT => "HEARTBEAT"@,
        runtime::ERROR => "ERROR"@,
        runtime::STATUS_REQ => "STATUS_REQ"@,
        runtime::STATUS_RSP => "STATUS_RSP"@,
        error_log::ERROR_LOG_REQ => "ERROR_LOG_REQ"@,
        error_log::ERROR_LOG_RSP => "ERROR_LOG_RSP"@,
        flight_recorder::LOG_READ_REQ => "LOG_READ_REQ"@,
        flight_recorder::LOG_READ_RSP => "LOG_READ_RSP"@,
        flight_recorder::LOG_INFO_REQ => "LOG_INFO_REQ"@,
        flight_recorder::LOG_INFO_RSP => "LOG_INFO_RSP"@,
        analog::READ_ALL_REQ => "ANALOG_REQ"@,
        analog::READ_ALL_RSP => "ANALOG_RSP"@,
        power::VICOR_STATUS_REQ => "VICOR_STATUS_REQ"@,
        power::VICOR_STATUS_RSP => "VICOR_STATUS_RSP"@,
        power::VICOR_ENABLE => "VICOR_ENABLE"@,
        power::VICOR_SET_VOLTAGE => "VICOR_SET_VOLTAGE"@,
        power::EMERGENCY_STOP => "EMERGENCY_STOP"@,
        power::POWER_SEQUENCE_ON => "POWER_SEQ_ON"@,
        power::POWER_SEQUENCE_OFF => "POWER_SEQ_OFF"@,
        eeprom::READ_REQ => "EEPROM_READ"@,
        eeprom::READ_RSP => "EEPROM_RSP"@,
        eeprom::WRITE => "EEPROM_WRITE"@,
        eeprom::WRITE_ACK => "EEPROM_ACK"@,
        vector_engine::STATUS_REQ => "VEC_STATUS_REQ"@,
        vector_engine::STATUS_RSP => "VEC_STATUS_RSP"@,
        vector_engine::LOAD => "VEC_LOAD"@,
        vector_engine::LOAD_ACK => "VEC_LOAD_ACK"@,
        vector_engine::START => "VEC_START"@,
        vector_engine::PAUSE => "VEC_PAUSE"@,
        vector_engine::RESUME => "VEC_RESUME"@,
        vector_engine::STOP => "VEC_STOP"@,
        slot::UPLOAD_TO_SLOT => "SLOT_UPLOAD"@,
        slot::SLOT_STATUS_REQ => "SLOT_STATUS_REQ"@,
        slot::SLOT_STATUS_RSP => "SLOT_STATUS_RSP"@,
        slot::INVALIDATE => "SLOT_INVALIDATE"@,
        testplan::SET_PLAN => "SET_PLAN"@,
        testplan::SET_PLAN_ACK => "SET_PLAN_ACK"@,
        testplan::RUN_PLAN => "RUN_PLAN"@,
        testplan::RUN_PLAN_ACK => "RUN_PLAN_ACK"@,
        testplan::PLAN_STATUS_REQ => "PLAN_STATUS_REQ"@,
        testplan::PLAN_STATUS_RSP => "PLAN_STATUS_RSP"@,
        testplan::STEP_RESULT => "STEP_RESULT"@,
        fastpins::READ_REQ => "FASTPINS_READ"@,
        fastpins::READ_RSP => "FASTPINS_RSP"@,
        fastpins::WRITE => "FASTPINS_WRITE"@,
        firmware::INFO_REQ => "FW_INFO_REQ"@,
        firmware::INFO_RSP => "FW_INFO_RSP"@,
        firmware::BEGIN => "FW_BEGIN"@,
        firmware::CHUNK => "FW_CHUNK"@,
        firmware::COMMIT => "FW_COMMIT"@,
        _ => "UNKNOWN"@,
    }
}

/// The display name of a protocol command code (`UNKNOWN` for codes the
/// protocol does not define).
pub fn fbc_cmd_name(cmd: u8) -> (r: &'static str)
    ensures
        r@ == cmd_name(cmd),
{
    match cmd {
        setup::ANNOUNCE => "ANNOUNCE",
        setup::BIM_STATUS_REQ => "BIM_STATUS_REQ",
        setup::BIM_STATUS_RSP => "BIM_STATUS_RSP",
        setup::WRITE_BIM => "WRITE_BIM",
        setup::UPLOAD_VECTORS => "UPLOAD_VECTORS",
        setup::CONFIGURE => "CONFIGURE",
        runtime::START => "START",
        runtime::STOP => "STOP",
        runtime::RESET => "RESET",
        runtime::HEARTBEAT => "HEARTBEAT",
        runtime::ERROR => "ERROR",
        runtime::STATUS_REQ => "STATUS_REQ",
        runtime::STATUS_RSP => "STATUS_RSP",
        error_log::ERROR_LOG_REQ => "ERROR_LOG_REQ",
        error_log::ERROR_LOG_RSP => "ERROR_LOG_RSP",
        flight_recorder::LOG_READ_REQ => "LOG_READ_REQ",
        flight_recorder::LOG_READ_RSP => "LOG_READ_RSP",
        flight_recorder::LOG_INFO_REQ => "LOG_INFO_REQ",
        flight_recorder::LOG_INFO_RSP => "LOG_INFO_RSP",
        analog::READ_ALL_REQ => "ANALOG_REQ",
        analog::READ_ALL_RSP => "ANALOG_RSP",
        power::VICOR_STATUS_REQ => "VICOR_STATUS_REQ",
        power::VICOR_STATUS_RSP => "VICOR_STATUS_RSP",
        power::VICOR_ENABLE => "VICOR_ENABLE",
        power::VICOR_SET_VOLTAGE => "VICOR_SET_VOLTAGE",
        power::EMERGENCY_STOP => "EMERGENCY_STOP",
        power::POWER_SEQUENCE_ON => "POWER_SEQ_ON",
        power::POWER_SEQUENCE_OFF => "POWER_SEQ_OFF",
        eeprom::READ_REQ => "EEPROM_READ",
        eeprom::READ_RSP => "EEPROM_RSP",
        eeprom::WRITE => "EEPROM_WRITE",
        eeprom::WRITE_ACK => "EEPROM_ACK",
        vector_engine::STATUS_REQ => "VEC_STATUS_REQ",
        vector_engine::STATUS_RSP => "VEC_STATUS_RSP",
        vector_engine::LOAD => "VEC_LOAD",
        vector_engine::LOAD_ACK => "VEC_LOAD_ACK",
        vector_engine::START => "VEC_START",
        vector_engine::PAUSE => "VEC_PAUSE",
        vector_engine::RESUME => "VEC_RESUME",
        vector_engine::STOP => "VEC_STOP",
        slot::UPLOAD_TO_SLOT => "SLOT_UPLOAD",
        slot::SLOT_STATUS_REQ => "SLOT_STATUS_REQ",
        slot::SLOT_STATUS_RSP => "SLOT_STATUS_RSP",
        slot::INVALIDATE => "SLOT_INVALIDATE",
        testplan::SET_PLAN => "SET_PLAN",
        testplan::SET_PLAN_ACK => "SET_PLAN_ACK",
        testplan::RUN_PLAN => "RUN_PLAN",
        testplan::RUN_PLAN_ACK => "RUN_PLAN_ACK",
        testplan::PLAN_STATUS_REQ => "PLAN_STATUS_REQ",
        testplan::PLAN_STATUS_RSP => "PLAN_STATUS_RSP",
        testplan::STEP_RESULT => "STEP_RESULT",
        fastpins::READ_REQ => "FASTPINS_READ",
        fastpins::READ_RSP => "FASTPINS_RSP",
        fastpins::WRITE => "FASTPINS_WRITE",
        firmware::INFO_REQ => "FW_INFO_REQ",
        firmware::INFO_RSP => "FW_INFO_RSP",
        firmware::BEGIN => "FW_BEGIN",
        firmware::CHUNK => "FW_CHUNK",
        firmware::COMMIT => "FW_COMMIT",
        _ => "UNKNOWN",
    }
}

/// What a numeric argument denotes: after trimming, `0x` or `0X` then hex
/// digits, or else a decimal number, as `u32::from_str_radix` and
/// `str::parse` read them (an error says why not).
pub open spec fn hex_arg_value(s: Seq<char>) -> Result<int, IntErrorKind> {
    let t = trim(s);
    if t.len() >= 2 && t[0] == '0' && (t[1] == 'x' || t[1] == 'X') {
        uint_parse(t.skip(2), 16, u32::MAX as int)
    } else {
        uint_parse(t, 10, u32::MAX as int)
    }
}

/// A numeric argument's value fits in `u32`.
pub(crate) proof fn lemma_hex_arg_bound(s: Seq<char>)
    ensures
        hex_arg_value(s) matches Ok(v) ==> 0 <= v <= u32::MAX,
{
    let t = trim(s);
    crate::text::lemma_scan_bound(t.skip(2), 16, u32::MAX as int);
    crate::text::lemma_scan_bound(t.skip(2).drop_first(), 16, u32::MAX as int);
    crate::text::lemma_scan_bound(t, 10, u32::MAX as int);
    crate::text::lemma_scan_bound(t.drop_first(), 10, u32::MAX as int);
}

/// Parse a numeric argument: `0x`-prefixed hex or decimal; the error is
/// why it is neither, or does not fit in `u32`.
pub fn parse_hex_arg(s: &str) -> (r: Result<u32, IntErrorKind>)
    ensures
        match hex_arg_value(s@) {
            Ok(x) => r == Ok::<u32, IntErrorKind>(x as u32),
            Err(e) => r == Err::<u32, IntErrorKind>(e),
        },
{
    let t = trimmed(chars_of(s).as_slice());
    let n = t.len();
    if n >= 2 && t[0] == '0' && (t[1] == 'x' || t[1] == 'X') {
        let digits = slice_range(t.as_slice(), 2, n);
        assert(digits@ =~= t@.skip(2));
        match parse_uint_radix(digits.as_slice(), 16, 0xffff_ffff) {
            Ok(x) => Ok(x as u32),
            Err(e) => Err(e),
        }
    } else {
        match parse_uint_radix(t.as_slice(), 10, 0xffff_ffff) {
            Ok(x) => Ok(x as u32),
            Err(e) => Err(e),
        }
    }
}

/// The boards a command is for.
#[derive(Debug)]
pub enum Targets {
    /// Every board that answers discovery.
    All,
    /// The boards with these MAC addresses.
    Macs(Vec<[u8; 6]>),
}

/// The MAC addresses of comma-separated pieces (each trimmed), or the
/// error for the first piece that is none.
pub open spec fn macs_of(ps: Seq<Seq<char>>) -> Result<Seq<Seq<u8>>, Seq<char>>
    decreases ps.len(),
{
    if ps.len() == 0 {
        Ok(seq![])
    } else {
        match macs_of(ps.drop_last()) {
            Err(e) => Err(e),
            Ok(v) => match mac_of_text(trim(ps.last())) {
                Some(m) => Ok(v.push(m)),
                None => Err("Invalid MAC address: "@ + ps.last()),
            },
        }
    }
}

/// What a target argument names: `all` (any case); a comma-separated
/// list of MAC addresses when it has commas and colons; else one MAC
/// address.
pub open spec fn targets_of(s: Seq<char>) -> Result<Option<Seq<Seq<u8>>>, Seq<char>> {
    if lower_seq(s) == "all"@ {
        Ok(None)
    } else if s.contains(',') && s.contains(':') {
        match macs_of(split(s, ',')) {
            Ok(v) => Ok(Some(v)),
            Err(e) => Err(e),
        }
    } else {
        match mac_of_text(s) {
            Some(m) => Ok(Some(seq![m])),
            None => Err("Invalid MAC address: "@ + s),
        }
    }
}

pub open spec fn macs_view(v: Seq<[u8; 6]>) -> Seq<Seq<u8>> {
    v.map_values(|m: [u8; 6]| m@)
}

proof fn lemma_macs_of_err_prefix(ps: Seq<Seq<char>>, j: int)
    requires
        0 <= j <= ps.len(),
        macs_of(ps.take(j)) is Err,
    ensures
        macs_of(ps) == macs_of(ps.take(j)),
    decreases ps.len(),
{
    if j < ps.len() {
        assert(ps.drop_last().take(j) =~= ps.take(j));
        lemma_macs_of_err_prefix(ps.drop_last(), j);
    } else {
        assert(ps.take(j) =~= ps);
    }
}

fn invalid_mac(piece: &[char]) -> (r: String)
    ensures
        r@ == "Invalid MAC address: "@ + piece@,
{
    let mut m: Vec<char> = Vec::new();
    push_str(&mut m, "Invalid MAC address: ");
    let ghost head = m@;
    let mut k: usize = 0;
    while k < piece.len()
        invariant
            k <= piece@.len(),
            m@ == head + piece@.take(k as int),
        decreases piece.len() - k,
    {
        m.push(piece[k]);
        assert(piece@.take(k + 1) =~= piece@.take(k as int).push(piece@[k as int]));
        k = k + 1;
    }
    assert(piece@.take(piece@.len() as int) =~= piece@);
    string_from_chars(m.as_slice())
}

/// The boards a target argument names (`resolve_targets`; discovering
/// the boards for `all` is the caller's).
pub fn parse_targets(targets: &str) -> (r: Result<Targets, String>)
    ensures
        match targets_of(targets@) {
            Ok(None) => r matches Ok(Targets::All),
            Ok(Some(v)) => r matches Ok(Targets::Macs(m)) && macs_view(m@) == v,
            Err(e) => r matches Err(x) && x@ == e,
        },
{
    let v = chars_of(targets);
    if eq_lower(v.as_slice(), "all") {
        return Ok(Targets::All);
    }
    if contains_char(v.as_slice(), ',') && contains_char(v.as_slice(), ':') {
        let pieces = split_chars(v.as_slice(), ',');
        let ghost ps = split(targets@, ',');
        let mut macs: Vec<[u8; 6]> = Vec::new();
        let mut k: usize = 0;
        assert(ps.take(0) =~= seq![]);
        assert(macs_view(macs@) =~= seq![]);
        while k < pieces.len()
            invariant
                ps == split(targets@, ','),
                lower_seq(targets@) != "all"@,
                targets@.contains(',') && targets@.contains(':'),
                pieces@.len() == ps.len(),
                forall|i: int| 0 <= i < pieces@.len() ==> #[trigger] pieces@[i]@ == ps[i],
                k <= pieces@.len(),
                macs_of(ps.take(k as int)) == Ok::<Seq<Seq<u8>>, Seq<char>>(macs_view(macs@)),
            decreases pieces.len() - k,
        {
            assert(ps.take(k + 1).drop_last() =~= ps.take(k as int));
            assert(ps.take(k + 1).last() == pieces@[k as int]@);
            let t = trimmed(pieces[k].as_slice());
            match parse_mac_chars(t.as_slice()) {
                Some(m) => {
                    let ghost before = macs@;
                    macs.push(m);
                    assert(macs_view(macs@) =~= macs_view(before).push(m@));
                },
                None => {
                    proof {
                        let pre = ps.take(k + 1);
                        assert(pre.drop_last() =~= ps.take(k as int));
                        assert(pre.last() == ps[k as int]);
                        assert(mac_of_text(trim(ps[k as int])) is None);
                        assert(macs_of(pre) == Err::<Seq<Seq<u8>>, Seq<char>>("Invalid MAC address: "@ + ps[k as int]));
                        lemma_macs_of_err_prefix(ps, k as int + 1);
                    }
                    return Err(invalid_mac(pieces[k].as_slice()));
                },
            }
            k = k + 1;
        }
        assert(ps.take(pieces@.len() as int) =~= ps);
        return Ok(Targets::Macs(macs));
    }
    match parse_mac_chars(v.as_slice()) {
        Some(m) => {
            let macs: Vec<[u8; 6]> = vec![m];
            assert(macs_view(macs@) =~= seq![m@]);
            Ok(Targets::Macs(macs))
        },
        None => Err(invalid_mac(v.as_slice())),
    }
}

} // verus!
