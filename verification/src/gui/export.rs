//! Export of test results: the options the user picks, the statistics of an
//! export, and the records of an STDF (Standard Test Data Format) file.

use vstd::prelude::*;
use crate::codec::{le16_bytes, le32_bytes, push_all, push_u16_le, push_u32_le};
use crate::text::{chars_of, dec_chars, eq_str, push_decimal, push_str, string_from_chars};
use vstd::string::StringSliceAdditionalSpecFns;

verus! {

/// Export options from the user interface.
#[derive(Debug)]
pub struct ExportOptions {
    /// `csv`, `json` or `stdf`.
    pub format: String,
    pub include_raw_data: bool,
    pub include_waveforms: bool,
    /// `all`, `last-hour` or `custom`.
    pub time_range: String,
    pub custom_start: Option<i64>,
    pub custom_end: Option<i64>,
}

/// Statistics of an export.
#[derive(Debug, Clone, Copy, PartialEq, Eq, Structural)]
pub struct ExportStats {
    pub rows_exported: u32,
    pub file_size_bytes: u64,
    pub duration_ms: u64,
}

/// An STDF string field: a length byte, then the bytes.
pub open spec fn stdf_string(s: Seq<u8>) -> Seq<u8> {
    seq![(s.len() % 256) as u8] + s
}

/// An STDF record: length (LE u16), type, sub-type, then the fields.
pub open spec fn stdf_record(rec_type: u8, rec_sub: u8, data: Seq<u8>) -> Seq<u8> {
    le16_bytes((data.len() % 65536) as u16) + seq![rec_type, rec_sub] + data
}

/// Append an STDF string field.
pub fn add_stdf_string(data: &mut Vec<u8>, s: &[u8])
    ensures
        final(data)@ == old(data)@ + stdf_string(s@),
{
    data.push((s.len() % 256) as u8);
    push_all(data, s);
    assert(final(data)@ =~= old(data)@ + stdf_string(s@));
}

fn record(rec_type: u8, rec_sub: u8, data: &Vec<u8>) -> (r: Vec<u8>)
    ensures
        r@ == stdf_record(rec_type, rec_sub, data@),
{
    let mut out: Vec<u8> = Vec::new();
    push_u16_le(&mut out, (data.len() % 65536) as u16);
    out.push(rec_type);
    out.push(rec_sub);
    push_all(&mut out, data.as_slice());
    assert(out@ =~= stdf_record(rec_type, rec_sub, data@));
    out
}

/// The fields of the master information record (MIR).
pub open spec fn mir_fields(setup_time: u32) -> Seq<u8> {
    le32_bytes(setup_time) + le32_bytes(setup_time) + seq![1u8, 0x20u8, 0x20u8, 0x20u8] + le16_bytes(0)
        + stdf_string("C".spec_bytes()) + stdf_string("FBC-001".spec_bytes()) + stdf_string(
        "BURN-IN".spec_bytes(),
    ) + stdf_string("FBC System".spec_bytes()) + stdf_string("FBC".spec_bytes()) + stdf_string(
        "FBC System v2.0".spec_bytes(),
    ) + stdf_string(seq![]) + stdf_string(seq![]) + stdf_string("ISE Labs".spec_bytes())
        + stdf_string(seq![]) + stdf_string(seq![]) + stdf_string(seq![]) + stdf_string(seq![])
        + stdf_string(seq![]) + stdf_string(seq![]) + stdf_string(seq![]) + stdf_string(
        "FBC Burn-in".spec_bytes(),
    ) + stdf_string(seq![]) + stdf_string("ISE Labs".spec_bytes()) + stdf_string(seq![])
        + stdf_string("FBC".spec_bytes()) + stdf_string(seq![]) + stdf_string(seq![]) + stdf_string(
        seq![],
    ) + stdf_string(seq![]) + stdf_string(seq![]) + stdf_string(seq![]) + stdf_string(seq![])
        + stdf_string(seq![]) + stdf_string(seq![]) + stdf_string(seq![])
}

/// The master information record: setup and start time, station 1, and
/// the fixed lot, part, node, tester and job names of the system.
pub fn build_mir_record(setup_time: u32) -> (r: Vec<u8>)
    ensures
        r@ == stdf_record(1, 10, mir_fields(setup_time)),
{
    let mut data: Vec<u8> = Vec::new();
    push_u32_le(&mut data, setup_time);
    push_u32_le(&mut data, setup_time);
    data.push(1);
    data.push(0x20);
    data.push(0x20);
    data.push(0x20);
    push_u16_le(&mut data, 0);
    add_stdf_string(&mut data, "C".as_bytes());
    add_stdf_string(&mut data, "FBC-001".as_bytes());
    add_stdf_string(&mut data, "BURN-IN".as_bytes());
    add_stdf_string(&mut data, "FBC System".as_bytes());
    add_stdf_string(&mut data, "FBC".as_bytes());
    add_stdf_string(&mut data, "FBC System v2.0".as_bytes());
    add_stdf_string(&mut data, &[]);
    add_stdf_string(&mut data, &[]);
    add_stdf_string(&mut data, "ISE Labs".as_bytes());
    add_stdf_string(&mut data, &[]);
    add_stdf_string(&mut data, &[]);
    add_stdf_string(&mut data, &[]);
    add_stdf_string(&mut data, &[]);
    add_stdf_string(&mut data, &[]);
    add_stdf_string(&mut data, &[]);
    add_stdf_string(&mut data, &[]);
    add_stdf_string(&mut data, "FBC Burn-in".as_bytes());
    add_stdf_string(&mut data, &[]);
    add_stdf_string(&mut data, "ISE Labs".as_bytes());
    add_stdf_string(&mut data, &[]);
    add_stdf_string(&mut data, "FBC".as_bytes());
    add_stdf_string(&mut data, &[]);
    add_stdf_string(&mut data, &[]);
    add_stdf_string(&mut data, &[]);
    add_stdf_string(&mut data, &[]);
    add_stdf_string(&mut data, &[]);
    add_stdf_string(&mut data, &[]);
    add_stdf_string(&mut data, &[]);
    add_stdf_string(&mut data, &[]);
    add_stdf_string(&mut data, &[]);
    add_stdf_string(&mut data, &[]);
    assert(data@ =~= mir_fields(setup_time));
    record(1, 10, &data)
}

/// The part information record (PIR): head 1, site `part_idx % 255`.
pub fn build_pir_record(part_idx: u16) -> (r: Vec<u8>)
    ensures
        r@ == le16_bytes(2) + seq![5u8, 10u8, 1u8, (part_idx % 255) as u8],
{
    let mut out: Vec<u8> = Vec::new();
    push_u16_le(&mut out, 2);
    out.push(5);
    out.push(10);
    out.push(1);
    out.push((part_idx % 255) as u8);
    assert(out@ =~= le16_bytes(2) + seq![5u8, 10u8, 1u8, (part_idx % 255) as u8]);
    out
}

/// The decimal digits of `n` as ASCII bytes.
pub open spec fn dec_bytes(n: nat) -> Seq<u8> {
    Seq::new(dec_chars(n).len(), |i: int| dec_chars(n)[i] as u8)
}

/// The fields of a part results record (PRR).
pub open spec fn prr_fields(part_idx: u16, errors: u32, duration_ms: u64, serial: u32) -> Seq<u8> {
    seq![1u8, (part_idx % 255) as u8, if errors > 0 { 8u8 } else { 0u8 }] + le16_bytes(0) + le16_bytes(0)
        + le16_bytes(0) + le16_bytes(0) + le16_bytes(0) + le32_bytes(duration_ms as u32) + stdf_string(
        dec_bytes(serial as nat),
    ) + stdf_string(seq![]) + seq![0u8]
}

/// The part flag of a part results record (byte 6: after the length,
/// type, subtype, head and site bytes) has the fail bit 8 set exactly when
/// the part counted errors, and is 0 for a part without errors.
pub proof fn lemma_prr_fail_flag(part_idx: u16, errors: u32, duration_ms: u64, serial: u32)
    ensures
        ({
            let r = stdf_record(5, 20, prr_fields(part_idx, errors, duration_ms, serial));
            &&& r.len() > 6
            &&& (r[6] & 8u8 == 8u8) == (errors > 0)
            &&& errors == 0 ==> r[6] == 0u8
        }),
{
    let f = prr_fields(part_idx, errors, duration_ms, serial);
    let r = stdf_record(5, 20, f);
    let flag: u8 = if errors > 0 { 8u8 } else { 0u8 };
    assert(f[2] == flag);
    assert(r[6] == f[2]);
    assert(8u8 & 8u8 == 8u8) by (bit_vector);
    assert(0u8 & 8u8 == 0u8) by (bit_vector);
}

/// The part results record of one board: head 1, site `part_idx % 255`,
/// the fail flag when it counted errors, the test time (ms, truncated to
/// 32 bits) and the serial number as the part id.
pub fn build_prr_record(part_idx: u16, errors: u32, duration_ms: u64, serial: u32) -> (r: Vec<u8>)
    ensures
        r@ == stdf_record(5, 20, prr_fields(part_idx, errors, duration_ms, serial)),
{
    let mut data: Vec<u8> = Vec::new();
    data.push(1);
    data.push((part_idx % 255) as u8);
    data.push(if errors > 0 { 8 } else { 0 });
    push_u16_le(&mut data, 0);
    push_u16_le(&mut data, 0);
    push_u16_le(&mut data, 0);
    push_u16_le(&mut data, 0);
    push_u16_le(&mut data, 0);
    push_u32_le(&mut data, duration_ms as u32);
    let mut digits: Vec<char> = Vec::new();
    push_decimal(&mut digits, serial as u64);
    assert(digits@ =~= dec_chars(serial as nat));
    let mut id: Vec<u8> = Vec::new();
    let mut i: usize = 0;
    while i < digits.len()
        invariant
            digits@ == dec_chars(serial as nat),
            i <= digits@.len(),
            id@ =~= Seq::new(i as nat, |k: int| digits@[k] as u8),
        decreases digits.len() - i,
    {
        id.push(digits[i] as u8);
        i = i + 1;
    }
    add_stdf_string(&mut data, id.as_slice());
    add_stdf_string(&mut data, &[]);
    data.push(0);
    assert(data@ =~= prr_fields(part_idx, errors, duration_ms, serial));
    record(5, 20, &data)
}

/// The master results record (MRR): finish time and empty descriptions.
pub fn build_mrr_record(finish_time: u32) -> (r: Vec<u8>)
    ensures
        r@ == stdf_record(1, 20, le32_bytes(finish_time) + seq![0x20u8] + stdf_string(seq![]) + stdf_string(seq![])),
{
    let mut data: Vec<u8> = Vec::new();
    push_u32_le(&mut data, finish_time);
    data.push(0x20);
    add_stdf_string(&mut data, &[]);
    add_stdf_string(&mut data, &[]);
    assert(data@ =~= le32_bytes(finish_time) + seq![0x20u8] + stdf_string(seq![]) + stdf_string(seq![]));
    record(1, 20, &data)
}

/// Whether a result stamped `ts` is in the time range the options pick at
/// time `now`: the last hour, a custom window (from 0 and up to now when
/// an end is missing), or everything.
pub open spec fn in_time_range(range: Seq<char>, start: Option<i64>, end: Option<i64>, now: i64, ts: i64) -> bool {
    if range == "last-hour"@ {
        ts >= now - 3600 * 1000
    } else if range == "custom"@ {
        let a = match start {
            Some(x) => x as int,
            None => 0,
        };
        let b = match end {
            Some(x) => x as int,
            None => now as int,
        };
        a <= ts && ts <= b
    } else {
        true
    }
}

/// The positions, in order, of the results kept.
pub open spec fn kept_rows(ts: Seq<i64>, range: Seq<char>, start: Option<i64>, end: Option<i64>, now: i64) -> Seq<usize>
    decreases ts.len(),
{
    if ts.len() == 0 {
        seq![]
    } else {
        let prev = kept_rows(ts.drop_last(), range, start, end, now);
        if in_time_range(range, start, end, now, ts.last()) {
            prev.push((ts.len() - 1) as usize)
        } else {
            prev
        }
    }
}

/// The positions of the results (by their time stamps) that the options'
/// time range keeps at time `now_ms`.
pub fn filter_by_time_range(timestamps: &[i64], options: &ExportOptions, now_ms: i64) -> (r: Vec<usize>)
    ensures
        r@ == kept_rows(timestamps@, options.time_range@, options.custom_start, options.custom_end, now_ms),
{
    let rv = chars_of(options.time_range.as_str());
    let last_hour = eq_str(rv.as_slice(), "last-hour");
    let custom = eq_str(rv.as_slice(), "custom");
    let start: i64 = match options.custom_start {
        Some(x) => x,
        None => 0,
    };
    let end: i64 = match options.custom_end {
        Some(x) => x,
        None => now_ms,
    };
    let mut out: Vec<usize> = Vec::new();
    let mut i: usize = 0;
    while i < timestamps.len()
        invariant
            i <= timestamps@.len(),
            last_hour == (options.time_range@ == "last-hour"@),
            custom == (options.time_range@ == "custom"@),
            start as int == (match options.custom_start { Some(x) => x as int, None => 0 }),
            end as int == (match options.custom_end { Some(x) => x as int, None => now_ms as int }),
            out@ == kept_rows(timestamps@.take(i as int), options.time_range@, options.custom_start, options.custom_end, now_ms),
        decreases timestamps.len() - i,
    {
        assert(timestamps@.take(i + 1).drop_last() =~= timestamps@.take(i as int));
        assert(timestamps@.take(i + 1).last() == timestamps@[i as int]);
        let ts = timestamps[i];
        let keep = if last_hour {
            (ts as i128) >= (now_ms as i128) - 3_600_000
        } else if custom {
            start <= ts && ts <= end
        } else {
            true
        };
        if keep {
            out.push(i);
        }
        i = i + 1;
    }
    assert(timestamps@.take(timestamps@.len() as int) =~= timestamps@);
    out
}

/// The header record of an STDF file (FAR): PC CPU type, STDF version 4.
pub open spec fn far_record() -> Seq<u8> {
    seq![0x02u8, 0x00, 0x00, 0x0A, 0x02, 0x04]
}

/// What an STDF file holds of one tested part.
#[derive(Debug, Clone, Copy)]
pub struct PartSummary {
    pub errors: u32,
    pub duration_ms: u64,
    pub serial: u32,
}

/// The part records of an STDF file: for each part, its information
/// record (PIR) then its results record (PRR), numbered by position.
pub open spec fn part_records(parts: Seq<PartSummary>) -> Seq<u8>
    decreases parts.len(),
{
    if parts.len() == 0 {
        seq![]
    } else {
        let k = (parts.len() - 1) as u16;
        let p = parts.last();
        part_records(parts.drop_last()) + le16_bytes(2) + seq![5u8, 10u8, 1u8, (k % 255) as u8] + stdf_record(
            5,
            20,
            prr_fields(k, p.errors, p.duration_ms, p.serial),
        )
    }
}

/// The bytes of an STDF file: FAR, MIR with the setup time, the part
/// records, and MRR with the finish time.
pub fn stdf_file(setup_time: u32, parts: &[PartSummary], finish_time: u32) -> (r: Vec<u8>)
    ensures
        r@ == far_record() + stdf_record(1, 10, mir_fields(setup_time)) + part_records(parts@) + stdf_record(
            1,
            20,
            le32_bytes(finish_time) + seq![0x20u8] + stdf_string(seq![]) + stdf_string(seq![]),
        ),
{
    let mut out: Vec<u8> = vec![0x02, 0x00, 0x00, 0x0A, 0x02, 0x04];
    assert(out@ =~= far_record());
    let mir = build_mir_record(setup_time);
    push_all(&mut out, mir.as_slice());
    let ghost head = out@;
    let mut i: usize = 0;
    assert(parts@.take(0) =~= seq![]);
    assert(head + part_records(parts@.take(0)) =~= head);
    while i < parts.len()
        invariant
            i <= parts@.len(),
            out@ == head + part_records(parts@.take(i as int)),
        decreases parts.len() - i,
    {
        assert(parts@.take(i + 1).drop_last() =~= parts@.take(i as int));
        assert(parts@.take(i + 1).last() == parts@[i as int]);
        let idx: u16 = #[verifier::truncate] (i as u16);
        let pir = build_pir_record(idx);
        push_all(&mut out, pir.as_slice());
        let p = parts[i];
        let prr = build_prr_record(idx, p.errors, p.duration_ms, p.serial);
        push_all(&mut out, prr.as_slice());
        proof {
            assert(((parts@.take(i + 1).len() - 1) as u16) == idx);
        }
        assert(out@ =~= head + part_records(parts@.take(i + 1)));
        i = i + 1;
    }
    assert(parts@.take(parts@.len() as int) =~= parts@);
    let mrr = build_mrr_record(finish_time);
    push_all(&mut out, mrr.as_slice());
    out
}

/// The formats results can be exported in.
#[derive(Debug, Clone, Copy, PartialEq, Eq, Structural)]
pub enum ExportFormat {
    Csv,
    Json,
    Stdf,
}

/// The format a name stands for.
pub open spec fn format_named(f: Seq<char>) -> Option<ExportFormat> {
    if f == "csv"@ {
        Some(ExportFormat::Csv)
    } else if f == "json"@ {
        Some(ExportFormat::Json)
    } else if f == "stdf"@ {
        Some(ExportFormat::Stdf)
    } else {
        None
    }
}

/// The export format the options name, or the error for an unknown one.
pub fn export_format(options: &ExportOptions) -> (r: Result<ExportFormat, String>)
    ensures
        match format_named(options.format@) {
            Some(f) => r == Ok::<ExportFormat, String>(f),
            None => r matches Err(m) && m@ == "Unknown export format: "@ + options.format@,
        },
{
    let fv = chars_of(options.format.as_str());
    if eq_str(fv.as_slice(), "csv") {
        Ok(ExportFormat::Csv)
    } else if eq_str(fv.as_slice(), "json") {
        Ok(ExportFormat::Json)
    } else if eq_str(fv.as_slice(), "stdf") {
        Ok(ExportFormat::Stdf)
    } else {
        let mut m: Vec<char> = Vec::new();
        push_str(&mut m, "Unknown export format: ");
        push_str(&mut m, options.format.as_str());
        Err(string_from_chars(m.as_slice()))
    }
}

} // verus!
