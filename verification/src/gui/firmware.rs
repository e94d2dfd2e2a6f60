//! Updating a bare-metal board's firmware from the front end: the image
//! checksum, what each acknowledgment of the update says, and the update
//! as a step from stage and arrived packet to next stage and action.
//! Sending the messages and waiting for the answers is the caller's.

use vstd::prelude::*;
use crate::codec::{be16, be32, read_u16_be, read_u32_be};
use crate::gui::commands::FbcFirmwareInfo;
use crate::sonoma::{hex8_upper, push_hex8_upper};
use crate::text::{dec_chars, push_decimal, push_str, string_from_chars, utf8_lossy, utf8_lossy_text};

verus! {

/// The XOR of all bytes of the image.
pub open spec fn xor_fold(s: Seq<u8>) -> u32
    decreases s.len(),
{
    if s.len() == 0 {
        0
    } else {
        xor_fold(s.drop_last()) ^ (s.last() as u32)
    }
}

/// The update checksum: the XOR of all bytes of the image.
pub fn xor_checksum(data: &[u8]) -> (r: u32)
    ensures
        r == xor_fold(data@),
{
    let mut acc: u32 = 0;
    let mut i: usize = 0;
    assert(data@.take(0) =~= Seq::<u8>::empty());
    while i < data.len()
        invariant
            i <= data@.len(),
            acc == xor_fold(data@.take(i as int)),
        decreases data.len() - i,
    {
        assert(data@.take(i + 1).drop_last() =~= data@.take(i as int));
        acc = acc ^ (data[i] as u32);
        i = i + 1;
    }
    assert(data@.take(data@.len() as int) =~= data@);
    acc
}

/// What a BEGIN_ACK of three bytes or more says: the chunk size to send
/// (the board's limit, at most 1024), or why the board refused the
/// update. `None` for a shorter payload, which is no answer.
pub open spec fn begin_ack_of(p: Seq<u8>) -> Option<Result<int, Seq<char>>> {
    if p.len() < 3 {
        None
    } else if p[0] == 0 {
        let m = be16(p.subrange(1, 3));
        Some(Ok(if m < 1024 { m } else { 1024 }))
    } else if p[0] == 1 {
        Some(Err("No SD card present"@))
    } else if p[0] == 2 {
        Some(Err("SD write error"@))
    } else if p[0] == 3 {
        Some(Err("Update already in progress"@))
    } else {
        Some(Err("BEGIN failed with status "@ + dec_chars(p[0] as nat)))
    }
}

fn text(s: &str) -> (r: String)
    ensures
        r@ == s@,
{
    let mut m: Vec<char> = Vec::new();
    push_str(&mut m, s);
    string_from_chars(m.as_slice())
}

/// Read a BEGIN_ACK payload.
pub fn begin_ack(p: &[u8]) -> (r: Option<Result<usize, String>>)
    ensures
        match begin_ack_of(p@) {
            None => r is None,
            Some(Ok(n)) => r == Some(Ok::<usize, String>(n as usize)),
            Some(Err(m)) => r matches Some(Err(e)) && e@ == m,
        },
{
    if p.len() < 3 {
        return None;
    }
    let status = p[0];
    if status == 0 {
        let m = read_u16_be(p, 1) as usize;
        return Some(Ok(if m < 1024 { m } else { 1024 }));
    }
    if status == 1 {
        Some(Err(text("No SD card present")))
    } else if status == 2 {
        Some(Err(text("SD write error")))
    } else if status == 3 {
        Some(Err(text("Update already in progress")))
    } else {
        let mut m: Vec<char> = Vec::new();
        push_str(&mut m, "BEGIN failed with status ");
        push_decimal(&mut m, status as u64);
        Some(Err(string_from_chars(m.as_slice())))
    }
}

/// What a CHUNK_ACK of five bytes or more says: accepted when its status
/// (byte 4) is 0, else the offset it reports and the status. `None` for a
/// shorter payload.
pub open spec fn chunk_ack_of(p: Seq<u8>) -> Option<Result<(), Seq<char>>> {
    if p.len() < 5 {
        None
    } else if p[4] == 0 {
        Some(Ok(()))
    } else {
        Some(
            Err(
                "Chunk write failed at offset "@ + dec_chars(be32(p.subrange(0, 4)) as nat) + ": status "@
                    + dec_chars(p[4] as nat),
            ),
        )
    }
}

/// Read a CHUNK_ACK payload.
pub fn chunk_ack(p: &[u8]) -> (r: Option<Result<(), String>>)
    ensures
        match chunk_ack_of(p@) {
            None => r is None,
            Some(Ok(())) => r == Some(Ok::<(), String>(())),
            Some(Err(m)) => r matches Some(Err(e)) && e@ == m,
        },
{
    if p.len() < 5 {
        return None;
    }
    if p[4] == 0 {
        return Some(Ok(()));
    }
    let offset = read_u32_be(p, 0);
    let mut m: Vec<char> = Vec::new();
    push_str(&mut m, "Chunk write failed at offset ");
    push_decimal(&mut m, offset as u64);
    push_str(&mut m, ": status ");
    push_decimal(&mut m, p[4] as u64);
    Some(Err(string_from_chars(m.as_slice())))
}

/// What a COMMIT_ACK of nine bytes or more says, for an image of
/// `total_size` bytes with checksum `checksum`: success with the bytes the
/// board wrote, or the failure (status 1 a checksum mismatch, 2 an
/// incomplete image). `None` for a shorter payload.
pub open spec fn commit_ack_of(p: Seq<u8>, checksum: u32, total_size: u32) -> Option<Result<Seq<char>, Seq<char>>> {
    if p.len() < 9 {
        None
    } else {
        let received = be32(p.subrange(1, 5));
        let computed = be32(p.subrange(5, 9)) as u32;
        if p[0] == 0 {
            Some(
                Ok(
                    "Firmware updated successfully! "@ + dec_chars(received as nat)
                        + " bytes written. Board is rebooting."@,
                ),
            )
        } else if p[0] == 1 {
            Some(Err("Checksum mismatch: expected "@ + hex8_upper(checksum) + ", got "@ + hex8_upper(computed)))
        } else if p[0] == 2 {
            Some(
                Err(
                    "Incomplete: received "@ + dec_chars(received as nat) + " of "@ + dec_chars(total_size as nat)
                        + " bytes"@,
                ),
            )
        } else {
            Some(Err("COMMIT failed with status "@ + dec_chars(p[0] as nat)))
        }
    }
}

/// Read a COMMIT_ACK payload.
pub fn commit_ack(p: &[u8], checksum: u32, total_size: u32) -> (r: Option<Result<String, String>>)
    ensures
        match commit_ack_of(p@, checksum, total_size) {
            None => r is None,
            Some(Ok(m)) => r matches Some(Ok(s)) && s@ == m,
            Some(Err(m)) => r matches Some(Err(e)) && e@ == m,
        },
{
    if p.len() < 9 {
        return None;
    }
    let status = p[0];
    let received = read_u32_be(p, 1);
    let computed = read_u32_be(p, 5);
    let mut m: Vec<char> = Vec::new();
    if status == 0 {
        push_str(&mut m, "Firmware updated successfully! ");
        push_decimal(&mut m, received as u64);
        push_str(&mut m, " bytes written. Board is rebooting.");
        return Some(Ok(string_from_chars(m.as_slice())));
    }
    if status == 1 {
        push_str(&mut m, "Checksum mismatch: expected ");
        push_hex8_upper(&mut m, checksum);
        push_str(&mut m, ", got ");
        push_hex8_upper(&mut m, computed);
    } else if status == 2 {
        push_str(&mut m, "Incomplete: received ");
        push_decimal(&mut m, received as u64);
        push_str(&mut m, " of ");
        push_decimal(&mut m, total_size as u64);
        push_str(&mut m, " bytes");
    } else {
        push_str(&mut m, "COMMIT failed with status ");
        push_decimal(&mut m, status as u64);
    }
    Some(Err(string_from_chars(m.as_slice())))
}

/// The `a.b.c` version text of three bytes.
pub open spec fn version_text(a: u8, b: u8, c: u8) -> Seq<char> {
    dec_chars(a as nat) + "."@ + dec_chars(b as nat) + "."@ + dec_chars(c as nat)
}

/// Firmware info from an INFO_RSP of 20 bytes or more: version bytes
/// 0-2, build date (3-12, decoded as UTF-8 with replacement), serial
/// (13-16), hardware revision (17) and flags (19: bit 1 SD card present,
/// bit 0 update in progress).
pub fn fbc_firmware_info(p: &[u8]) -> (r: Option<FbcFirmwareInfo>)
    ensures
        p@.len() < 20 ==> r is None,
        p@.len() >= 20 ==> (r matches Some(info) && info.version@ == version_text(p@[0], p@[1], p@[2])
            && info.build_date@ == utf8_lossy_text(p@.subrange(3, 13)) && info.board_serial == be32(
            p@.subrange(13, 17),
        ) && info.hw_revision == p@[17] && info.sd_present == (p@[19] & 0x02 != 0) && info.update_in_progress
            == (p@[19] & 0x01 != 0)),
{
    if p.len() < 20 {
        return None;
    }
    let mut v: Vec<char> = Vec::new();
    push_decimal(&mut v, p[0] as u64);
    push_str(&mut v, ".");
    push_decimal(&mut v, p[1] as u64);
    push_str(&mut v, ".");
    push_decimal(&mut v, p[2] as u64);
    let date_bytes = crate::codec::copy_range(p, 3, 13);
    Some(
        FbcFirmwareInfo {
            version: string_from_chars(v.as_slice()),
            build_date: utf8_lossy(date_bytes.as_slice()),
            board_serial: read_u32_be(p, 13),
            hw_revision: p[17],
            sd_present: (p[19] & 0x02) != 0,
            update_in_progress: (p[19] & 0x01) != 0,
        },
    )
}

// -----------------------------------------------------------------------------
// The update, message by message
// -----------------------------------------------------------------------------

/// Where a firmware update stands between messages.
#[derive(Debug, Clone, Copy, PartialEq, Eq, Structural)]
pub enum FwUpdateStage {
    /// BEGIN was sent; its ACK is awaited.
    AwaitBegin,
    /// The chunk at `offset` was sent, chunks being `chunk_size` bytes; its
    /// ACK is awaited.
    AwaitChunk { offset: usize, chunk_size: usize },
    /// COMMIT was sent; its ACK is awaited.
    AwaitCommit,
}

/// What to do after a packet arrived.
#[derive(Debug)]
pub enum FwUpdateAction {
    /// The packet answers nothing awaited: keep waiting.
    Wait,
    /// Send a CHUNK with this payload.
    SendChunk(Vec<u8>),
    /// Send COMMIT.
    SendCommit,
    /// The update failed, with this message.
    Fail(String),
    /// The update is complete, with this message.
    Done(String),
}

/// `FwUpdateAction` as values.
pub enum FwStep {
    Wait,
    SendChunk(Seq<u8>),
    SendCommit,
    Fail(Seq<char>),
    Done(Seq<char>),
}

impl View for FwUpdateAction {
    type V = FwStep;

    open spec fn view(&self) -> FwStep {
        match self {
            FwUpdateAction::Wait => FwStep::Wait,
            FwUpdateAction::SendChunk(p) => FwStep::SendChunk(p@),
            FwUpdateAction::SendCommit => FwStep::SendCommit,
            FwUpdateAction::Fail(m) => FwStep::Fail(m@),
            FwUpdateAction::Done(m) => FwStep::Done(m@),
        }
    }
}

/// A stage that can stand for an image of `len` bytes: a chunk awaited
/// starts inside the image.
pub open spec fn stage_ok(st: FwUpdateStage, len: int) -> bool {
    match st {
        FwUpdateStage::AwaitChunk { offset, chunk_size } => offset < len,
        _ => true,
    }
}

/// Send what comes at `offset`: the chunk there while bytes remain, else
/// COMMIT.
pub open spec fn send_from(data: Seq<u8>, offset: int, chunk_size: int) -> (FwUpdateStage, FwStep) {
    if offset < data.len() {
        (
            FwUpdateStage::AwaitChunk { offset: offset as usize, chunk_size: chunk_size as usize },
            FwStep::SendChunk(crate::client::fw_chunk(data, offset, chunk_size)),
        )
    } else {
        (FwUpdateStage::AwaitCommit, FwStep::SendCommit)
    }
}

/// The next stage and action of an update of `data` (with checksum
/// `checksum`) when a packet with command `cmd` and `payload` arrives,
/// `from_board` telling whether the board being updated sent it.
pub open spec fn fw_update_next(
    st: FwUpdateStage,
    data: Seq<u8>,
    checksum: u32,
    from_board: bool,
    cmd: u8,
    payload: Seq<u8>,
) -> (FwUpdateStage, FwStep) {
    if !from_board {
        (st, FwStep::Wait)
    } else {
        match st {
            FwUpdateStage::AwaitBegin => if cmd != crate::fbc_protocol::firmware::BEGIN_ACK {
                (st, FwStep::Wait)
            } else {
                match begin_ack_of(payload) {
                    None => (st, FwStep::Wait),
                    Some(Err(m)) => (st, FwStep::Fail(m)),
                    Some(Ok(cs)) => send_from(data, 0, cs),
                }
            },
            FwUpdateStage::AwaitChunk { offset, chunk_size } => if cmd
                != crate::fbc_protocol::firmware::CHUNK_ACK {
                (st, FwStep::Wait)
            } else {
                match chunk_ack_of(payload) {
                    None => (st, FwStep::Wait),
                    Some(Err(m)) => (st, FwStep::Fail(m)),
                    Some(Ok(_)) => send_from(
                        data,
                        offset + crate::client::chunk_len(data.len() as int, offset as int, chunk_size as int),
                        chunk_size as int,
                    ),
                }
            },
            FwUpdateStage::AwaitCommit => if cmd != crate::fbc_protocol::firmware::COMMIT_ACK {
                (st, FwStep::Wait)
            } else {
                match commit_ack_of(payload, checksum, data.len() as u32) {
                    None => (st, FwStep::Wait),
                    Some(Err(m)) => (st, FwStep::Fail(m)),
                    Some(Ok(m)) => (st, FwStep::Done(m)),
                }
            },
        }
    }
}

/// Start an update of `data`: the first stage and the BEGIN payload (image
/// size and XOR checksum, big-endian).
pub fn fw_update_begin(data: &[u8]) -> (r: (FwUpdateStage, Vec<u8>))
    ensures
        r.0 == FwUpdateStage::AwaitBegin,
        r.1@ == crate::codec::be32_bytes(data@.len() as u32) + crate::codec::be32_bytes(xor_fold(data@)),
{
    let checksum = xor_checksum(data);
    (FwUpdateStage::AwaitBegin, crate::client::fw_begin_payload(data.len(), checksum))
}

fn send_from_exec(data: &[u8], offset: usize, chunk_size: usize) -> (r: (FwUpdateStage, FwUpdateAction))
    requires
        offset <= data@.len(),
    ensures
        (r.0, r.1@) == send_from(data@, offset as int, chunk_size as int),
        stage_ok(r.0, data@.len() as int),
{
    if offset < data.len() {
        let p = crate::client::fw_chunk_payload(data, offset, chunk_size);
        (FwUpdateStage::AwaitChunk { offset, chunk_size }, FwUpdateAction::SendChunk(p))
    } else {
        (FwUpdateStage::AwaitCommit, FwUpdateAction::SendCommit)
    }
}

/// Take one packet of a firmware update: the next stage and what to do.
/// A packet from another board, with another command, or too short to be
/// an answer leaves the stage as it is and is waited past.
pub fn fw_update_step(
    st: FwUpdateStage,
    data: &[u8],
    checksum: u32,
    from_board: bool,
    cmd: u8,
    payload: &[u8],
) -> (r: (FwUpdateStage, FwUpdateAction))
    requires
        data@.len() <= u32::MAX,
        stage_ok(st, data@.len() as int),
    ensures
        (r.0, r.1@) == fw_update_next(st, data@, checksum, from_board, cmd, payload@),
        stage_ok(r.0, data@.len() as int),
{
    if !from_board {
        return (st, FwUpdateAction::Wait);
    }
    match st {
        FwUpdateStage::AwaitBegin => {
            if cmd != crate::fbc_protocol::firmware::BEGIN_ACK {
                return (st, FwUpdateAction::Wait);
            }
            match begin_ack(payload) {
                None => (st, FwUpdateAction::Wait),
                Some(Err(m)) => (st, FwUpdateAction::Fail(m)),
                Some(Ok(cs)) => send_from_exec(data, 0, cs),
            }
        },
        FwUpdateStage::AwaitChunk { offset, chunk_size } => {
            if cmd != crate::fbc_protocol::firmware::CHUNK_ACK {
                return (st, FwUpdateAction::Wait);
            }
            match chunk_ack(payload) {
                None => (st, FwUpdateAction::Wait),
                Some(Err(m)) => (st, FwUpdateAction::Fail(m)),
                Some(Ok(())) => {
                    let n: usize = if data.len() - offset < chunk_size { data.len() - offset } else { chunk_size };
                    send_from_exec(data, offset + n, chunk_size)
                },
            }
        },
        FwUpdateStage::AwaitCommit => {
            if cmd != crate::fbc_protocol::firmware::COMMIT_ACK {
                return (st, FwUpdateAction::Wait);
            }
            match commit_ack(payload, checksum, data.len() as u32) {
                None => (st, FwUpdateAction::Wait),
                Some(Err(m)) => (st, FwUpdateAction::Fail(m)),
                Some(Ok(m)) => (st, FwUpdateAction::Done(m)),
            }
        },
    }
}

/// The message when the answer awaited at a stage did not come in time.
pub open spec fn fw_timeout_text(st: FwUpdateStage) -> Seq<char> {
    match st {
        FwUpdateStage::AwaitBegin => "Timeout waiting for BEGIN_ACK"@,
        FwUpdateStage::AwaitChunk { offset, chunk_size } => "Timeout waiting for CHUNK_ACK at offset "@ + dec_chars(
            offset as nat,
        ),
        FwUpdateStage::AwaitCommit => "Timeout waiting for COMMIT_ACK"@,
    }
}

/// The message when the answer awaited at a stage did not come in time.
pub fn fw_timeout_message(st: FwUpdateStage) -> (r: String)
    ensures
        r@ == fw_timeout_text(st),
{
    let mut m: Vec<char> = Vec::new();
    match st {
        FwUpdateStage::AwaitBegin => push_str(&mut m, "Timeout waiting for BEGIN_ACK"),
        FwUpdateStage::AwaitChunk { offset, chunk_size } => {
            push_str(&mut m, "Timeout waiting for CHUNK_ACK at offset ");
            push_decimal(&mut m, offset as u64);
        },
        FwUpdateStage::AwaitCommit => push_str(&mut m, "Timeout waiting for COMMIT_ACK"),
    }
    string_from_chars(m.as_slice())
}

} // verus!
