//! Binary datalog: raw protocol packets captured during a test, each with
//! a millisecond offset, between a 32-byte header and a 12-byte footer that
//! holds the record count and the CRC-32 of the body.
//!
//! The writer produces the bytes of the header, of each record and of the
//! footer for the caller to store; the reader works on the bytes of a whole
//! file.

use vstd::prelude::*;
use crate::codec::{le32, le32_bytes, le64, le64_bytes, lemma_roundtrip_32, lemma_roundtrip_64, push_all, push_u32_le, push_u64_le, read_u32_le, read_u64_le};
use crate::crc::{crc32, crc32_continue, lemma_crc32_continue_concat};
use crate::fbc_protocol::{header_bytes, header_of, packet_bytes, FbcHeader, FbcPacket, FBC_MAGIC};

pub use crate::crc::crc32_update;

verus! {

broadcast use vstd::array::group_array_axioms;

/// Header size in bytes.
pub const HEADER_SIZE: usize = 32;

/// Footer size in bytes.
pub const FOOTER_SIZE: usize = 12;

/// `FBD\x01`, the file magic.
pub open spec fn magic_bytes() -> Seq<u8> {
    seq![0x46u8, 0x42u8, 0x44u8, 0x01u8]
}

/// `FBD\xFF`, the footer's end magic.
pub open spec fn end_magic_bytes() -> Seq<u8> {
    seq![0x46u8, 0x42u8, 0x44u8, 0xFFu8]
}

/// The 32 header bytes: magic, version 1, board MAC, start time (LE u64
/// seconds), plan hash (LE u32), 9 reserved zero bytes.
pub open spec fn file_header_bytes(mac: Seq<u8>, epoch: u64, plan_hash: u32) -> Seq<u8> {
    magic_bytes() + seq![1u8] + mac + le64_bytes(epoch) + le32_bytes(plan_hash) + Seq::new(
        9,
        |i: int| 0u8,
    )
}

/// One record: offset (LE u32 ms), then the packet's header and payload.
pub open spec fn record_bytes(r: (u32, FbcHeader, Seq<u8>)) -> Seq<u8> {
    le32_bytes(r.0) + packet_bytes(r.1, r.2)
}

/// The records, one after the other.
pub open spec fn records_bytes(recs: Seq<(u32, FbcHeader, Seq<u8>)>) -> Seq<u8>
    decreases recs.len(),
{
    if recs.len() == 0 {
        seq![]
    } else {
        record_bytes(recs[0]) + records_bytes(recs.drop_first())
    }
}

/// The 12 footer bytes: record count, body CRC, end magic.
pub open spec fn footer_bytes(count: u32, crc: u32) -> Seq<u8> {
    le32_bytes(count) + le32_bytes(crc) + end_magic_bytes()
}

/// Header of a datalog file.
#[derive(Debug, Clone, Copy, PartialEq, Eq)]
pub struct DatalogHeader {
    pub version: u8,
    pub board_mac: [u8; 6],
    pub test_start_epoch: u64,
    pub plan_hash: u32,
}

/// One record: milliseconds since the test started, and the packet.
#[derive(Debug, Clone)]
pub struct DatalogRecord {
    pub offset_ms: u32,
    pub packet: FbcPacket,
}

/// Why a datalog could not be read.
#[derive(Debug, Clone, Copy, PartialEq, Eq, Structural)]
pub enum DatalogError {
    /// The file ended inside the header or inside a record.
    UnexpectedEof,
    /// The file does not start with the datalog magic.
    NotDatalog,
    /// The last 12 bytes do not end with the end magic.
    MissingFooter,
    /// A record's packet header lacks the protocol magic.
    InvalidRecordHeader,
}

/// What opening the bytes of a file finds: the header fields, record count
/// and body CRC, or the error.
pub open spec fn open_result(data: Seq<u8>) -> Result<(u8, Seq<u8>, u64, u32, u32, u32), DatalogError> {
    if data.len() < 32 {
        Err(DatalogError::UnexpectedEof)
    } else if data.subrange(0, 4) != magic_bytes() {
        Err(DatalogError::NotDatalog)
    } else {
        let n = data.len() as int;
        if data.subrange(n - 4, n) != end_magic_bytes() {
            Err(DatalogError::MissingFooter)
        } else {
            Ok(
                (
                    data[4],
                    data.subrange(5, 11),
                    le64(data.subrange(11, 19)) as u64,
                    le32(data.subrange(19, 23)) as u32,
                    le32(data.subrange(n - 12, n - 8)) as u32,
                    le32(data.subrange(n - 8, n - 4)) as u32,
                ),
            )
        }
    }
}

/// The record at `pos`, and where the next one starts.
pub open spec fn record_at(data: Seq<u8>, pos: int) -> Result<((u32, FbcHeader, Seq<u8>), int), DatalogError> {
    if pos + 12 > data.len() {
        Err(DatalogError::UnexpectedEof)
    } else {
        match header_of(data.subrange(pos + 4, pos + 12)) {
            None => Err(DatalogError::InvalidRecordHeader),
            Some(h) => if pos + 12 + h.length > data.len() {
                Err(DatalogError::UnexpectedEof)
            } else {
                Ok(
                    (
                        (
                            le32(data.subrange(pos, pos + 4)) as u32,
                            h,
                            data.subrange(pos + 12, pos + 12 + h.length),
                        ),
                        pos + 12 + h.length,
                    ),
                )
            },
        }
    }
}

/// The `n` records read one after the other from `pos` (stopping at the
/// first that cannot be read).
pub open spec fn records_from(data: Seq<u8>, pos: int, n: nat) -> Result<Seq<(u32, FbcHeader, Seq<u8>)>, DatalogError>
    decreases n,
{
    if n == 0 {
        Ok(seq![])
    } else {
        match record_at(data, pos) {
            Err(e) => Err(e),
            Ok((r, next)) => match records_from(data, next, (n - 1) as nat) {
                Err(e) => Err(e),
                Ok(rest) => Ok(seq![r] + rest),
            },
        }
    }
}

proof fn lemma_records_bytes_push(recs: Seq<(u32, FbcHeader, Seq<u8>)>, x: (u32, FbcHeader, Seq<u8>))
    ensures
        records_bytes(recs.push(x)) == records_bytes(recs) + record_bytes(x),
    decreases recs.len(),
{
    if recs.len() == 0 {
        assert(recs.push(x).drop_first() =~= Seq::<(u32, FbcHeader, Seq<u8>)>::empty());
        assert(recs.push(x)[0] == x);
        assert(records_bytes(Seq::<(u32, FbcHeader, Seq<u8>)>::empty()) =~= Seq::<u8>::empty());
        assert(records_bytes(recs) =~= Seq::<u8>::empty());
        assert(records_bytes(recs.push(x)) =~= records_bytes(recs) + record_bytes(x));
    } else {
        lemma_records_bytes_push(recs.drop_first(), x);
        assert(recs.push(x).drop_first() =~= recs.drop_first().push(x));
        assert(recs.push(x)[0] == recs[0]);
        assert(records_bytes(recs.push(x)) == record_bytes(recs[0]) + (records_bytes(recs.drop_first()) + record_bytes(x)));
        assert(records_bytes(recs.push(x)) =~= records_bytes(recs) + record_bytes(x));
    }
}

/// Captures packets as datalog records; keeps the record count and the
/// running CRC of the body.
pub struct DatalogWriter {
    record_count: u32,
    body_crc: u32,
    records: Ghost<Seq<(u32, FbcHeader, Seq<u8>)>>,
    start: Ghost<(Seq<u8>, u64, u32)>,
    written: Ghost<Seq<u8>>,
}

impl DatalogWriter {
    /// The records written so far.
    pub closed spec fn records_view(&self) -> Seq<(u32, FbcHeader, Seq<u8>)> {
        self.records@
    }

    /// The board MAC, start time and plan hash the datalog was created with.
    pub closed spec fn start_view(&self) -> (Seq<u8>, u64, u32) {
        self.start@
    }

    /// Every byte handed out so far: the header, then each record's bytes.
    pub closed spec fn written_view(&self) -> Seq<u8> {
        self.written@
    }

    /// The count and CRC match the records written, and the bytes handed
    /// out are the header followed by the records.
    pub closed spec fn wf(&self) -> bool {
        &&& self.record_count == self.records@.len()
        &&& self.body_crc == crc32(records_bytes(self.records@))
        &&& self.start@.0.len() == 6
        &&& self.written@ == file_header_bytes(self.start@.0, self.start@.1, self.start@.2) + records_bytes(
            self.records@,
        )
    }

    /// Start a datalog: the writer and the header bytes that begin the file.
    pub fn create(board_mac: &[u8; 6], epoch_secs: u64, plan_hash: u32) -> (r: (Self, Vec<u8>))
        ensures
            r.0.wf(),
            r.0.records_view() == Seq::<(u32, FbcHeader, Seq<u8>)>::empty(),
            r.0.start_view() == (board_mac@, epoch_secs, plan_hash),
            r.0.written_view() == r.1@,
            r.1@ == file_header_bytes(board_mac@, epoch_secs, plan_hash),
    {
        let mut header: Vec<u8> = Vec::new();
        header.push(0x46);
        header.push(0x42);
        header.push(0x44);
        header.push(0x01);
        header.push(1);
        push_all(&mut header, board_mac.as_slice());
        push_u64_le(&mut header, epoch_secs);
        push_u32_le(&mut header, plan_hash);
        let mut i: usize = 0;
        while i < 9
            invariant
                i <= 9,
                header@ == magic_bytes() + seq![1u8] + board_mac@ + le64_bytes(epoch_secs) + le32_bytes(plan_hash) + Seq::new(i as nat, |k: int| 0u8),
            decreases 9 - i,
        {
            header.push(0);
            i = i + 1;
            assert(header@ =~= magic_bytes() + seq![1u8] + board_mac@ + le64_bytes(epoch_secs) + le32_bytes(plan_hash) + Seq::new(i as nat, |k: int| 0u8));
        }
        let w = DatalogWriter {
            record_count: 0,
            body_crc: 0,
            records: Ghost(Seq::empty()),
            start: Ghost((board_mac@, epoch_secs, plan_hash)),
            written: Ghost(header@),
        };
        assert(records_bytes(Seq::<(u32, FbcHeader, Seq<u8>)>::empty()) =~= Seq::<u8>::empty());
        assert(header@ + Seq::<u8>::empty() =~= header@);
        assert(crc32(Seq::<u8>::empty()) == 0) by {
            assert(!(!0u32) == 0u32) by (bit_vector);
        }
        (w, header)
    }

    /// Record a packet received `offset_ms` after the test started; returns
    /// the record's bytes.
    pub fn write_packet(&mut self, packet: &FbcPacket, offset_ms: u32) -> (r: Vec<u8>)
        requires
            old(self).wf(),
            old(self).records_view().len() < u32::MAX,
        ensures
            final(self).wf(),
            final(self).records_view() == old(self).records_view().push(
                (offset_ms, packet.header, packet.payload@),
            ),
            final(self).start_view() == old(self).start_view(),
            final(self).written_view() == old(self).written_view() + r@,
            r@ == record_bytes((offset_ms, packet.header, packet.payload@)),
    {
        let raw = packet.serialize();
        let mut rec: Vec<u8> = Vec::new();
        push_u32_le(&mut rec, offset_ms);
        let ghost offset_bytes = rec@;
        push_all(&mut rec, raw.as_slice());
        let c1 = crc32_update(self.body_crc, offset_bytes_vec(offset_ms).as_slice());
        let c2 = crc32_update(c1, raw.as_slice());
        proof {
            let x = (offset_ms, packet.header, packet.payload@);
            lemma_records_bytes_push(self.records@, x);
            lemma_crc32_continue_concat(self.body_crc, le32_bytes(offset_ms), raw@);
            lemma_crc32_continue_concat(0, records_bytes(self.records@), record_bytes(x));
            assert(le32_bytes(offset_ms) + raw@ == record_bytes(x));
        }
        self.body_crc = c2;
        self.record_count = self.record_count + 1;
        let ghost st = self.start@;
        let ghost w0 = self.written@;
        let ghost recs0 = self.records@;
        self.records = Ghost(self.records@.push((offset_ms, packet.header, packet.payload@)));
        self.written = Ghost(w0 + rec@);
        proof {
            let x = (offset_ms, packet.header, packet.payload@);
            assert(rec@ == record_bytes(x));
            assert(w0 + rec@ =~= file_header_bytes(st.0, st.1, st.2) + records_bytes(recs0.push(x)));
        }
        rec
    }

    /// Current record count.
    pub fn record_count(&self) -> (r: u32)
        ensures
            self.wf() ==> r == self.records_view().len(),
    {
        self.record_count
    }

    /// Finish the datalog: the record count and the footer bytes that end
    /// the file. The bytes `create` and each `write_packet` handed out,
    /// followed by this footer, are the whole file: the header, every
    /// record in the order written, then the count, the CRC of the records
    /// and the end magic.
    pub fn finalize(self) -> (r: (u32, Vec<u8>))
        requires
            self.wf(),
        ensures
            r.0 == self.records_view().len(),
            r.1@ == footer_bytes(r.0, crc32(records_bytes(self.records_view()))),
            self.written_view() + r.1@ == file_header_bytes(
                self.start_view().0,
                self.start_view().1,
                self.start_view().2,
            ) + records_bytes(self.records_view()) + footer_bytes(r.0, crc32(records_bytes(self.records_view()))),
    {
        let mut footer: Vec<u8> = Vec::new();
        push_u32_le(&mut footer, self.record_count);
        push_u32_le(&mut footer, self.body_crc);
        footer.push(0x46);
        footer.push(0x42);
        footer.push(0x44);
        footer.push(0xFF);
        assert(footer@ =~= footer_bytes(self.record_count, self.body_crc));
        (self.record_count, footer)
    }
}

fn offset_bytes_vec(offset_ms: u32) -> (r: Vec<u8>)
    ensures
        r@ == le32_bytes(offset_ms),
{
    let mut v: Vec<u8> = Vec::new();
    push_u32_le(&mut v, offset_ms);
    v
}

/// Reads a datalog from the bytes of a whole file.
pub struct DatalogReader {
    header: DatalogHeader,
    record_count: u32,
    body_crc: u32,
    data: Vec<u8>,
}

impl DatalogReader {
    pub closed spec fn data_view(&self) -> Seq<u8> {
        self.data@
    }

    pub closed spec fn header_view(&self) -> DatalogHeader {
        self.header
    }

    pub closed spec fn count_view(&self) -> u32 {
        self.record_count
    }

    pub closed spec fn crc_view(&self) -> u32 {
        self.body_crc
    }

    /// Open a datalog: check the header magic and the footer's end magic,
    /// read the header fields, the record count and the body CRC.
    pub fn open(data: Vec<u8>) -> (r: Result<Self, DatalogError>)
        ensures
            match open_result(data@) {
                Ok((version, mac, epoch, hash, count, crc)) => r matches Ok(rd) && rd.data_view()
                    == data@ && rd.header_view().version == version && rd.header_view().board_mac@
                    == mac && rd.header_view().test_start_epoch == epoch
                    && rd.header_view().plan_hash == hash && rd.count_view() == count
                    && rd.crc_view() == crc,
                Err(e) => r == Err::<Self, DatalogError>(e),
            },
    {
        let n = data.len();
        if n < HEADER_SIZE {
            return Err(DatalogError::UnexpectedEof);
        }
        if !(data[0] == 0x46 && data[1] == 0x42 && data[2] == 0x44 && data[3] == 0x01) {
            assert(data@.subrange(0, 4) != magic_bytes()) by {
                if data@.subrange(0, 4) == magic_bytes() {
                    assert(data@.subrange(0, 4)[0] == data@[0]);
                    assert(data@.subrange(0, 4)[1] == data@[1]);
                    assert(data@.subrange(0, 4)[2] == data@[2]);
                    assert(data@.subrange(0, 4)[3] == data@[3]);
                }
            }
            return Err(DatalogError::NotDatalog);
        }
        assert(data@.subrange(0, 4) =~= magic_bytes());
        if !(data[n - 4] == 0x46 && data[n - 3] == 0x42 && data[n - 2] == 0x44 && data[n - 1] == 0xFF) {
            assert(data@.subrange(n - 4, n as int) != end_magic_bytes()) by {
                if data@.subrange(n - 4, n as int) == end_magic_bytes() {
                    assert(data@.subrange(n - 4, n as int)[0] == data@[n - 4]);
                    assert(data@.subrange(n - 4, n as int)[1] == data@[n - 3]);
                    assert(data@.subrange(n - 4, n as int)[2] == data@[n - 2]);
                    assert(data@.subrange(n - 4, n as int)[3] == data@[n - 1]);
                }
            }
            return Err(DatalogError::MissingFooter);
        }
        assert(data@.subrange(n - 4, n as int) =~= end_magic_bytes());
        let board_mac: [u8; 6] = [data[5], data[6], data[7], data[8], data[9], data[10]];
        assert(board_mac@ =~= data@.subrange(5, 11));
        let header = DatalogHeader {
            version: data[4],
            board_mac,
            test_start_epoch: read_u64_le(data.as_slice(), 11),
            plan_hash: read_u32_le(data.as_slice(), 19),
        };
        let record_count = read_u32_le(data.as_slice(), n - 12);
        let body_crc = read_u32_le(data.as_slice(), n - 8);
        Ok(DatalogReader { header, record_count, body_crc, data })
    }

    pub fn header(&self) -> (r: &DatalogHeader)
        ensures
            *r == self.header_view(),
    {
        &self.header
    }

    pub fn record_count(&self) -> (r: u32)
        ensures
            r == self.count_view(),
    {
        self.record_count
    }

    /// All records (as many as the footer counts, read from just after the
    /// header), or the first error.
    pub fn records(&self) -> (r: Result<Vec<DatalogRecord>, DatalogError>)
        ensures
            match records_from(self.data_view(), HEADER_SIZE as int, self.count_view() as nat) {
                Ok(recs) => r matches Ok(v) && v@.len() == recs.len() && forall|i: int|
                    0 <= i < recs.len() ==> (#[trigger] v@[i]).offset_ms == recs[i].0
                        && v@[i].packet.header == recs[i].1 && v@[i].packet.payload@ == recs[i].2,
                Err(e) => r == Err::<Vec<DatalogRecord>, DatalogError>(e),
            },
    {
        let ghost total = records_from(self.data@, HEADER_SIZE as int, self.record_count as nat);
        let mut out: Vec<DatalogRecord> = Vec::new();
        let mut pos: usize = HEADER_SIZE;
        let mut remaining: u32 = self.record_count;
        let n = self.data.len();
        while remaining > 0
            invariant
                n == self.data@.len(),
                remaining <= self.record_count,
                total == records_from(self.data@, HEADER_SIZE as int, self.record_count as nat),
                match records_from(self.data@, pos as int, remaining as nat) {
                    Ok(rest) => total matches Ok(all) && all.len() == out@.len() + rest.len()
                        && (forall|i: int|
                        0 <= i < out@.len() ==> (#[trigger] out@[i]).offset_ms == all[i].0
                            && out@[i].packet.header == all[i].1 && out@[i].packet.payload@
                            == all[i].2) && (forall|i: int| 0 <= i < rest.len() ==> all[out@.len() + i] == #[trigger] rest[i]),
                    Err(e) => total == Err::<Seq<(u32, FbcHeader, Seq<u8>)>, DatalogError>(e),
                },
            decreases remaining,
        {
            if n < 12 || pos > n - 12 {
                return Err(DatalogError::UnexpectedEof);
            }
            let offset_ms = read_u32_le(self.data.as_slice(), pos);
            let hdr = copy_bytes(self.data.as_slice(), pos + 4, pos + 12);
            let header = match FbcHeader::from_bytes(hdr.as_slice()) {
                Some(h) => h,
                None => {
                    return Err(DatalogError::InvalidRecordHeader);
                },
            };
            let len = header.length as usize;
            if len > n - (pos + 12) {
                return Err(DatalogError::UnexpectedEof);
            }
            let payload = copy_bytes(self.data.as_slice(), pos + 12, pos + 12 + len);
            let ghost before = out@;
            out.push(DatalogRecord { offset_ms, packet: FbcPacket { header, payload } });
            proof {
                let r = (offset_ms, header, payload@);
                assert(record_at(self.data@, pos as int) == Ok::<((u32, FbcHeader, Seq<u8>), int), DatalogError>((r, pos + 12 + len)));
                match records_from(self.data@, pos + 12 + len, (remaining - 1) as nat) {
                    Ok(rest2) => {
                        let all = total->Ok_0;
                        assert(records_from(self.data@, pos as int, remaining as nat) == Ok::<Seq<(u32, FbcHeader, Seq<u8>)>, DatalogError>(seq![r] + rest2));
                        assert((seq![r] + rest2)[0] == r);
                        assert(all[before.len() as int] == r);
                        assert forall|i: int| 0 <= i < rest2.len() implies #[trigger] all[out@.len() + i] == rest2[i] by {
                            assert(all[before.len() + (i + 1)] == (seq![r] + rest2)[i + 1]);
                        }
                    },
                    Err(e) => {},
                }
            }
            pos = pos + 12 + len;
            remaining = remaining - 1;
        }
        proof {
            let all = total->Ok_0;
            assert(records_from(self.data@, pos as int, 0) == Ok::<Seq<(u32, FbcHeader, Seq<u8>)>, DatalogError>(seq![]));
        }
        Ok(out)
    }

    /// Whether the body CRC in the footer matches the records (or the first
    /// error reading them).
    pub fn verify_crc(&self) -> (r: Result<bool, DatalogError>)
        ensures
            match records_from(self.data_view(), HEADER_SIZE as int, self.count_view() as nat) {
                Ok(recs) => r == Ok::<bool, DatalogError>(crc32(records_bytes(recs)) == self.crc_view()),
                Err(e) => r == Err::<bool, DatalogError>(e),
            },
    {
        let recs = match self.records() {
            Ok(v) => v,
            Err(e) => return Err(e),
        };
        let ghost all = records_from(self.data@, HEADER_SIZE as int, self.record_count as nat)->Ok_0;
        let mut crc: u32 = 0;
        let mut i: usize = 0;
        proof {
            assert(all.take(0) =~= Seq::<(u32, FbcHeader, Seq<u8>)>::empty());
            assert(records_bytes(all.take(0)) =~= Seq::<u8>::empty());
            assert(!(!0u32) == 0u32) by (bit_vector);
        }
        while i < recs.len()
            invariant
                recs@.len() == all.len(),
                forall|k: int| 0 <= k < all.len() ==> (#[trigger] recs@[k]).offset_ms == all[k].0
                    && recs@[k].packet.header == all[k].1 && recs@[k].packet.payload@ == all[k].2,
                i <= recs@.len(),
                crc == crc32(records_bytes(all.take(i as int))),
            decreases recs.len() - i,
        {
            let rec = &recs[i];
            let offset_bytes = offset_bytes_vec(rec.offset_ms);
            let raw = rec.packet.serialize();
            let c1 = crc32_update(crc, offset_bytes.as_slice());
            let c2 = crc32_update(c1, raw.as_slice());
            proof {
                let x = all[i as int];
                assert(all.take(i + 1) =~= all.take(i as int).push(x));
                lemma_records_bytes_push(all.take(i as int), x);
                lemma_crc32_continue_concat(crc, offset_bytes@, raw@);
                lemma_crc32_continue_concat(0, records_bytes(all.take(i as int)), record_bytes(x));
                assert(offset_bytes@ + raw@ == record_bytes(x));
            }
            crc = c2;
            i = i + 1;
        }
        assert(all.take(all.len() as int) =~= all);
        Ok(crc == self.body_crc)
    }
}

/// The bytes `b[a..e]`.
fn copy_bytes(b: &[u8], a: usize, e: usize) -> (r: Vec<u8>)
    requires
        a <= e <= b@.len(),
    ensures
        r@ == b@.subrange(a as int, e as int),
{
    crate::codec::copy_range(b, a, e)
}

/// Reading records back from bytes that hold them, in order, at `pos`.
proof fn lemma_records_from_bytes(
    data: Seq<u8>,
    pos: int,
    recs: Seq<(u32, FbcHeader, Seq<u8>)>,
)
    requires
        0 <= pos,
        pos + records_bytes(recs).len() <= data.len(),
        data.subrange(pos, pos + records_bytes(recs).len()) == records_bytes(recs),
        forall|i: int|
            0 <= i < recs.len() ==> (#[trigger] recs[i]).1.magic == FBC_MAGIC && recs[i].1.length
                == recs[i].2.len(),
    ensures
        records_from(data, pos, recs.len()) == Ok::<Seq<(u32, FbcHeader, Seq<u8>)>, DatalogError>(recs),
    decreases recs.len(),
{
    if recs.len() == 0 {
        assert(recs =~= Seq::<(u32, FbcHeader, Seq<u8>)>::empty());
    } else {
        let r = recs[0];
        let rb = record_bytes(r);
        let all = records_bytes(recs);
        assert(all == rb + records_bytes(recs.drop_first()));
        lemma_roundtrip_32(r.0);
        FbcHeader::lemma_header_roundtrip(r.1);
        let len = r.1.length as int;
        assert(rb.len() == 12 + len);
        assert(data.subrange(pos, pos + 4) =~= le32_bytes(r.0)) by {
            assert(data.subrange(pos, pos + 4) =~= all.subrange(0, 4));
        }
        assert(data.subrange(pos + 4, pos + 12) =~= header_bytes(r.1)) by {
            assert(data.subrange(pos + 4, pos + 12) =~= all.subrange(4, 12));
        }
        assert(data.subrange(pos + 12, pos + 12 + len) =~= r.2) by {
            assert(data.subrange(pos + 12, pos + 12 + len) =~= all.subrange(12, 12 + len));
        }
        let rest = recs.drop_first();
        assert(data.subrange(pos + rb.len(), pos + rb.len() + records_bytes(rest).len()) =~= records_bytes(rest)) by {
            assert(data.subrange(pos + rb.len(), pos + rb.len() + records_bytes(rest).len())
                =~= all.subrange(rb.len() as int, all.len() as int));
        }
        assert forall|i: int| 0 <= i < rest.len() implies (#[trigger] rest[i]).1.magic == FBC_MAGIC
            && rest[i].1.length == rest[i].2.len() by {
            assert(rest[i] == recs[i + 1]);
        }
        lemma_records_from_bytes(data, pos + rb.len(), rest);
        assert(header_of(data.subrange(pos + 4, pos + 12)) == Some(r.1));
        assert(le32(data.subrange(pos, pos + 4)) == r.0);
        assert(record_at(data, pos) == Ok::<((u32, FbcHeader, Seq<u8>), int), DatalogError>(((r.0, r.1, r.2), pos + rb.len())));
        assert(((recs.len() - 1) as nat) == rest.len());
        assert(records_from(data, pos + rb.len(), rest.len()) == Ok::<Seq<(u32, FbcHeader, Seq<u8>)>, DatalogError>(rest));
        assert(records_from(data, pos, recs.len()) == Ok::<Seq<(u32, FbcHeader, Seq<u8>)>, DatalogError>(seq![r] + rest));
        assert(seq![r] + rest =~= recs);
    }
}

/// Reading a written datalog gives back what was written: the header
/// fields, the number of records, every record (offset, packet header and
/// payload) in order, and a body CRC that verifies. Holds for packets whose
/// header carries the protocol magic and announces their payload length, as
/// packets made with a payload of at most `MAX_PAYLOAD` bytes do.
#[verifier::spinoff_prover]
#[verifier::rlimit(50)]
pub proof fn lemma_datalog_roundtrip(
    mac: Seq<u8>,
    epoch: u64,
    plan_hash: u32,
    recs: Seq<(u32, FbcHeader, Seq<u8>)>,
)
    requires
        mac.len() == 6,
        recs.len() <= u32::MAX,
        forall|i: int|
            0 <= i < recs.len() ==> (#[trigger] recs[i]).1.magic == FBC_MAGIC && recs[i].1.length
                == recs[i].2.len(),
    ensures
        ({
            let body = records_bytes(recs);
            let file = file_header_bytes(mac, epoch, plan_hash) + body + footer_bytes(
                recs.len() as u32,
                crc32(body),
            );
            &&& open_result(file) == Ok::<(u8, Seq<u8>, u64, u32, u32, u32), DatalogError>(
                (1u8, mac, epoch, plan_hash, recs.len() as u32, crc32(body)),
            )
            &&& records_from(file, HEADER_SIZE as int, recs.len()) == Ok::<Seq<(u32, FbcHeader, Seq<u8>)>, DatalogError>(recs)
        }),
{
    let body = records_bytes(recs);
    let h = file_header_bytes(mac, epoch, plan_hash);
    let f = footer_bytes(recs.len() as u32, crc32(body));
    let file = h + body + f;
    let n = file.len() as int;
    lemma_roundtrip_64(epoch);
    lemma_roundtrip_32(plan_hash);
    lemma_roundtrip_32(recs.len() as u32);
    lemma_roundtrip_32(crc32(body));
    assert(h.len() == 32);
    assert(file.subrange(0, 4) =~= magic_bytes());
    assert(file.subrange(n - 4, n) =~= end_magic_bytes());
    assert(file.subrange(5, 11) =~= mac);
    assert(file.subrange(11, 19) =~= le64_bytes(epoch));
    assert(file.subrange(19, 23) =~= le32_bytes(plan_hash));
    assert(file.subrange(n - 12, n - 8) =~= le32_bytes(recs.len() as u32));
    assert(file.subrange(n - 8, n - 4) =~= le32_bytes(crc32(body)));
    assert(file.subrange(32, 32 + body.len() as int) =~= body);
    lemma_records_from_bytes(file, 32, recs);
}

/// The file a writer's bytes make, once its footer is added, reads back as
/// what was written: the MAC, start time and plan hash it was created
/// with, the number of records and a body CRC that verifies, then every
/// record in order. Holds for packets whose header carries the protocol
/// magic and announces their payload length.
pub proof fn lemma_written_datalog_reads_back(w: DatalogWriter)
    requires
        w.wf(),
        forall|i: int|
            0 <= i < w.records_view().len() ==> (#[trigger] w.records_view()[i]).1.magic == FBC_MAGIC
                && w.records_view()[i].1.length == w.records_view()[i].2.len(),
    ensures
        ({
            let recs = w.records_view();
            let (mac, epoch, plan_hash) = w.start_view();
            let crc = crc32(records_bytes(recs));
            let file = w.written_view() + footer_bytes(recs.len() as u32, crc);
            &&& open_result(file) == Ok::<(u8, Seq<u8>, u64, u32, u32, u32), DatalogError>(
                (1u8, mac, epoch, plan_hash, recs.len() as u32, crc),
            )
            &&& records_from(file, HEADER_SIZE as int, recs.len()) == Ok::<Seq<(u32, FbcHeader, Seq<u8>)>, DatalogError>(recs)
        }),
{
    let recs = w.records_view();
    let (mac, epoch, plan_hash) = w.start_view();
    lemma_datalog_roundtrip(mac, epoch, plan_hash, recs);
}

} // verus!
