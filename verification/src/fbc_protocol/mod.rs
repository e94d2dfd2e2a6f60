//! Packet framing of the raw-Ethernet board protocol (EtherType 0x88B5):
//! the 8-byte big-endian header, packets, the Ethernet frames that carry
//! them, the ANNOUNCE payload, the command codes and their names.

pub mod analog;
pub mod eeprom;
pub mod error_log;
pub mod fastpins;
pub mod firmware;
pub mod flight_recorder;
pub mod power;
pub mod runtime;
pub mod setup;
pub mod slot;
pub mod testplan;
pub mod vector_engine;

use vstd::prelude::*;
use crate::codec::{be16, be16_bytes, be32, be32_bytes, lemma_roundtrip_16, lemma_roundtrip_32, push_all, push_u16_be, push_u32_be, read_i16_be, read_u16_be, read_u32_be, signed16};
use crate::text::{dec_chars, hex2_upper, hex_joined, push_decimal, push_hex2_upper, push_str, string_from_chars};
use crate::types::mac_of_text;
use crate::types::mac_text;
use crate::types::ControllerState;

verus! {

broadcast use vstd::array::group_array_axioms;

/// FBC EtherType.
pub const ETHERTYPE_FBC: u16 = 0x88B5;

/// Protocol magic at the start of every header.
pub const FBC_MAGIC: u16 = 0xFBC0;

/// Largest payload a header can announce.
pub const MAX_PAYLOAD: usize = 1478;

/// The 8-byte packet header.
#[derive(Debug, Clone, Copy, PartialEq, Eq, Structural)]
pub struct FbcHeader {
    pub magic: u16,
    pub seq: u16,
    pub cmd: u8,
    pub flags: u8,
    pub length: u16,
}

/// The header of a new packet.
pub open spec fn new_header(cmd: u8, seq: u16, length: u16) -> FbcHeader {
    FbcHeader { magic: FBC_MAGIC, seq, cmd, flags: 0, length }
}

/// The wire bytes of a header: magic, sequence, command, flags and
/// payload length, big-endian.
pub open spec fn header_bytes(h: FbcHeader) -> Seq<u8> {
    be16_bytes(h.magic) + be16_bytes(h.seq) + seq![h.cmd, h.flags] + be16_bytes(h.length)
}

/// The header at the start of `data`: at least 8 bytes starting with the
/// magic.
pub open spec fn header_of(data: Seq<u8>) -> Option<FbcHeader> {
    if data.len() < 8 || be16(data.subrange(0, 2)) != FBC_MAGIC {
        None
    } else {
        Some(
            FbcHeader {
                magic: FBC_MAGIC,
                seq: be16(data.subrange(2, 4)) as u16,
                cmd: data[4],
                flags: data[5],
                length: be16(data.subrange(6, 8)) as u16,
            },
        )
    }
}

fn be16_pair(x: u16) -> (r: (u8, u8))
    ensures
        seq![r.0, r.1] == be16_bytes(x),
{
    let hi = (x >> 8) as u8;
    let lo = (x & 0xff) as u8;
    assert(lo == (x % 0x100) as u8 && hi == (x / 0x100) as u8) by (bit_vector)
        requires lo == (x & 0xff) as u8, hi == (x >> 8) as u8;
    (hi, lo)
}

impl FbcHeader {
    pub fn new(cmd: u8, seq: u16, payload_len: u16) -> (r: Self)
        ensures
            r == new_header(cmd, seq, payload_len),
    {
        FbcHeader { magic: FBC_MAGIC, seq, cmd, flags: 0, length: payload_len }
    }

    pub fn to_bytes(&self) -> (r: [u8; 8])
        ensures
            r@ == header_bytes(*self),
    {
        let (m0, m1) = be16_pair(self.magic);
        let (s0, s1) = be16_pair(self.seq);
        let (l0, l1) = be16_pair(self.length);
        let buf: [u8; 8] = [m0, m1, s0, s1, self.cmd, self.flags, l0, l1];
        assert(buf@ =~= header_bytes(*self));
        buf
    }

    pub fn from_bytes(data: &[u8]) -> (r: Option<Self>)
        ensures
            r == header_of(data@),
    {
        if data.len() < 8 {
            return None;
        }
        let magic = read_u16_be(data, 0);
        if magic != FBC_MAGIC {
            return None;
        }
        Some(
            FbcHeader {
                magic,
                seq: read_u16_be(data, 2),
                cmd: data[4],
                flags: data[5],
                length: read_u16_be(data, 6),
            },
        )
    }

    /// Reading back a written header gives it back, when it carries the
    /// magic; without the magic nothing is read.
    pub proof fn lemma_header_roundtrip(h: FbcHeader)
        ensures
            header_bytes(h).len() == 8,
            h.magic == FBC_MAGIC ==> header_of(header_bytes(h)) == Some(h),
            h.magic != FBC_MAGIC ==> header_of(header_bytes(h)) is None,
    {
        let b = header_bytes(h);
        lemma_roundtrip_16(h.magic);
        lemma_roundtrip_16(h.seq);
        lemma_roundtrip_16(h.length);
        assert(b.subrange(0, 2) =~= be16_bytes(h.magic));
        assert(b.subrange(2, 4) =~= be16_bytes(h.seq));
        assert(b.subrange(6, 8) =~= be16_bytes(h.length));
    }
}

/// The ANNOUNCE payload a board sends when discovered.
#[derive(Debug, Clone, Copy, PartialEq, Eq)]
pub struct AnnouncePayload {
    pub mac: [u8; 6],
    pub bim_type: u8,
    pub serial: u32,
    pub hw_revision: u8,
    pub fw_version: u16,
    pub has_bim: bool,
    pub bim_programmed: bool,
}

/// The 16 wire bytes of an ANNOUNCE payload.
pub open spec fn announce_bytes(a: AnnouncePayload) -> Seq<u8> {
    a.mac@ + seq![a.bim_type] + be32_bytes(a.serial) + seq![a.hw_revision] + be16_bytes(a.fw_version)
        + seq![if a.has_bim { 1u8 } else { 0u8 }, if a.bim_programmed { 1u8 } else { 0u8 }]
}

/// Whether `a` is the ANNOUNCE payload read from `data`.
pub open spec fn announce_read(data: Seq<u8>, a: AnnouncePayload) -> bool {
    &&& a.mac@ == data.subrange(0, 6)
    &&& a.bim_type == data[6]
    &&& a.serial == be32(data.subrange(7, 11))
    &&& a.hw_revision == data[11]
    &&& a.fw_version == be16(data.subrange(12, 14))
    &&& a.has_bim == (data[14] != 0)
    &&& a.bim_programmed == (data[15] != 0)
}

impl AnnouncePayload {
    /// Read an ANNOUNCE payload (`None` when shorter than 16 bytes).
    pub fn from_bytes(data: &[u8]) -> (r: Option<Self>)
        ensures
            data@.len() < 16 ==> r is None,
            data@.len() >= 16 ==> (r matches Some(a) && announce_read(data@, a)),
    {
        if data.len() < 16 {
            return None;
        }
        let mac: [u8; 6] = [data[0], data[1], data[2], data[3], data[4], data[5]];
        assert(mac@ =~= data@.subrange(0, 6));
        Some(
            AnnouncePayload {
                mac,
                bim_type: data[6],
                serial: read_u32_be(data, 7),
                hw_revision: data[11],
                fw_version: read_u16_be(data, 12),
                has_bim: data[14] != 0,
                bim_programmed: data[15] != 0,
            },
        )
    }

    pub fn to_bytes(&self) -> (r: Vec<u8>)
        ensures
            r@ == announce_bytes(*self),
    {
        let mut buf: Vec<u8> = Vec::new();
        push_all(&mut buf, self.mac.as_slice());
        buf.push(self.bim_type);
        push_u32_be(&mut buf, self.serial);
        buf.push(self.hw_revision);
        push_u16_be(&mut buf, self.fw_version);
        buf.push(if self.has_bim { 1u8 } else { 0u8 });
        buf.push(if self.bim_programmed { 1u8 } else { 0u8 });
        assert(buf@ =~= announce_bytes(*self));
        buf
    }

    /// Reading back a written ANNOUNCE payload gives it back.
    pub proof fn lemma_announce_roundtrip(a: AnnouncePayload, b: AnnouncePayload)
        requires
            announce_read(announce_bytes(a), b),
        ensures
            announce_bytes(a).len() == 16,
            b == a,
    {
        let d = announce_bytes(a);
        lemma_roundtrip_32(a.serial);
        lemma_roundtrip_16(a.fw_version);
        assert(d.subrange(0, 6) =~= a.mac@);
        assert(d.subrange(7, 11) =~= be32_bytes(a.serial));
        assert(d.subrange(12, 14) =~= be16_bytes(a.fw_version));
        assert(b.mac@ =~= a.mac@);
        assert(b.mac == a.mac);
        assert(d[6] == a.bim_type && d[11] == a.hw_revision);
        assert(d[14] == (if a.has_bim { 1u8 } else { 0u8 }));
        assert(d[15] == (if a.bim_programmed { 1u8 } else { 0u8 }));
    }
}

/// A packet: header and payload.
#[derive(Debug, Clone)]
pub struct FbcPacket {
    pub header: FbcHeader,
    pub payload: Vec<u8>,
}

/// The wire bytes of a packet: its header, then its whole payload.
pub open spec fn packet_bytes(h: FbcHeader, payload: Seq<u8>) -> Seq<u8> {
    header_bytes(h) + payload
}

/// The packet at the start of `data`: a header, then the number of payload
/// bytes it announces.
pub open spec fn packet_of(data: Seq<u8>) -> Option<(FbcHeader, Seq<u8>)> {
    match header_of(data) {
        Some(h) => if data.len() < 8 + h.length {
            None
        } else {
            Some((h, data.subrange(8, 8 + h.length)))
        },
        None => None,
    }
}

/// The length a header announces for a payload of `n` bytes.
pub open spec fn announced_length(n: int) -> u16 {
    (if n < MAX_PAYLOAD { n } else { MAX_PAYLOAD as int }) as u16
}

impl FbcPacket {
    /// A packet without payload.
    pub fn new(cmd: u8, seq: u16) -> (r: Self)
        ensures
            r.header == new_header(cmd, seq, 0),
            r.payload@ == Seq::<u8>::empty(),
    {
        FbcPacket { header: FbcHeader::new(cmd, seq, 0), payload: Vec::new() }
    }

    /// A packet with a payload; the header announces at most `MAX_PAYLOAD`
    /// bytes, the payload is kept whole.
    pub fn with_payload(cmd: u8, seq: u16, payload: Vec<u8>) -> (r: Self)
        ensures
            r.header == new_header(cmd, seq, announced_length(payload@.len() as int)),
            r.payload@ == payload@,
    {
        let n = payload.len();
        let len: u16 = if n < MAX_PAYLOAD { n as u16 } else { MAX_PAYLOAD as u16 };
        FbcPacket { header: FbcHeader::new(cmd, seq, len), payload }
    }

    pub fn serialize(&self) -> (r: Vec<u8>)
        ensures
            r@ == packet_bytes(self.header, self.payload@),
    {
        let mut buf: Vec<u8> = Vec::new();
        let h = self.header.to_bytes();
        push_all(&mut buf, h.as_slice());
        push_all(&mut buf, self.payload.as_slice());
        buf
    }

    pub fn parse(data: &[u8]) -> (r: Option<Self>)
        ensures
            match packet_of(data@) {
                Some((h, p)) => r matches Some(pk) && pk.header == h && pk.payload@ == p,
                None => r is None,
            },
    {
        if data.len() < 8 {
            return None;
        }
        let header = match FbcHeader::from_bytes(data) {
            Some(h) => h,
            None => return None,
        };
        let payload_len = header.length as usize;
        if data.len() < 8 + payload_len {
            return None;
        }
        let end = 8 + payload_len;
        let mut payload: Vec<u8> = Vec::new();
        let mut i: usize = 8;
        while i < end
            invariant
                end == 8 + payload_len,
                8 <= i <= end <= data@.len(),
                payload@ == data@.subrange(8, i as int),
            decreases end - i,
        {
            payload.push(data[i]);
            i = i + 1;
        }
        Some(FbcPacket { header, payload })
    }

    /// Parsing a serialized packet gives back its header and the payload
    /// bytes the header announces, when the header carries the magic and
    /// the payload holds at least that many bytes.
    pub proof fn lemma_packet_roundtrip(h: FbcHeader, payload: Seq<u8>)
        requires
            h.magic == FBC_MAGIC,
            h.length <= payload.len(),
        ensures
            packet_of(packet_bytes(h, payload)) == Some((h, payload.take(h.length as int))),
    {
        let d = packet_bytes(h, payload);
        FbcHeader::lemma_header_roundtrip(h);
        assert(d.subrange(0, 8) =~= header_bytes(h));
        assert(header_of(d) == header_of(header_bytes(h))) by {
            assert(d.subrange(0, 2) =~= header_bytes(h).subrange(0, 2));
            assert(d.subrange(2, 4) =~= header_bytes(h).subrange(2, 4));
            assert(d.subrange(6, 8) =~= header_bytes(h).subrange(6, 8));
        }
        assert(d.subrange(8, 8 + h.length) =~= payload.take(h.length as int));
    }

    /// A packet made with a payload of at most `MAX_PAYLOAD` bytes parses
    /// back to the same command, sequence number and payload.
    pub proof fn lemma_with_payload_roundtrip(cmd: u8, seq: u16, payload: Seq<u8>)
        requires
            payload.len() <= MAX_PAYLOAD,
        ensures
            packet_of(packet_bytes(new_header(cmd, seq, announced_length(payload.len() as int)), payload))
                == Some((new_header(cmd, seq, payload.len() as u16), payload)),
    {
        let h = new_header(cmd, seq, announced_length(payload.len() as int));
        assert(h.length == payload.len());
        FbcPacket::lemma_packet_roundtrip(h, payload);
        assert(payload.take(h.length as int) =~= payload);
    }
}

/// The STATUS response: cycles and errors (big-endian), the temperature
/// in tenths of a degree, the run state, eight rail voltages and currents
/// and the FPGA supply voltages.
#[derive(Debug, Clone)]
pub struct StatusPayload {
    pub cycles: u32,
    pub errors: u32,
    /// Tenths of a degree Celsius.
    pub temp_decidegrees: i16,
    pub state: ControllerState,
    /// mV.
    pub rail_voltage: [u16; 8],
    /// mA.
    pub rail_current: [u16; 8],
    pub fpga_vccint: u16,
    pub fpga_vccaux: u16,
}

/// The big-endian u16 at `at`.
pub open spec fn u16_field(p: Seq<u8>, at: int) -> u16 {
    be16(p.subrange(at, at + 2)) as u16
}

impl StatusPayload {
    /// Decode a STATUS response: `None` when shorter than 47 bytes, else
    /// cycles (0-3), errors (4-7), temperature (8-9, signed), state (10),
    /// rail voltages (11-26), rail currents (27-42), VCCINT (43-44) and
    /// VCCAUX (45-46).
    pub fn from_bytes(data: &[u8]) -> (r: Option<Self>)
        ensures
            data@.len() < 47 ==> r is None,
            data@.len() >= 47 ==> (r matches Some(s) && s.cycles == be32(data@.subrange(0, 4))
                && s.errors == be32(data@.subrange(4, 8))
                && s.temp_decidegrees == signed16(be16(data@.subrange(8, 10)))
                && s.state == ControllerState::of_code(data@[10])
                && (forall|i: int| 0 <= i < 8 ==> #[trigger] s.rail_voltage[i] == u16_field(data@, 11 + 2 * i))
                && (forall|i: int| 0 <= i < 8 ==> #[trigger] s.rail_current[i] == u16_field(data@, 27 + 2 * i))
                && s.fpga_vccint == u16_field(data@, 43)
                && s.fpga_vccaux == u16_field(data@, 45)),
    {
        if data.len() < 47 {
            return None;
        }
        let mut rail_voltage = [0u16; 8];
        let mut rail_current = [0u16; 8];
        let mut i: usize = 0;
        while i < 8
            invariant
                data@.len() >= 47,
                i <= 8,
                forall|k: int| 0 <= k < i ==> #[trigger] rail_voltage[k] == u16_field(data@, 11 + 2 * k),
                forall|k: int| 0 <= k < i ==> #[trigger] rail_current[k] == u16_field(data@, 27 + 2 * k),
            decreases 8 - i,
        {
            rail_voltage.set(i, read_u16_be(data, 11 + i * 2));
            rail_current.set(i, read_u16_be(data, 27 + i * 2));
            i = i + 1;
        }
        Some(StatusPayload {
            cycles: read_u32_be(data, 0),
            errors: read_u32_be(data, 4),
            temp_decidegrees: read_i16_be(data, 8),
            state: ControllerState::from_u8(data[10]),
            rail_voltage,
            rail_current,
            fpga_vccint: read_u16_be(data, 43),
            fpga_vccaux: read_u16_be(data, 45),
        })
    }
}

/// Errors of the raw-Ethernet transport.
#[derive(Debug)]
pub enum FbcError {
    Interface(String),
    Send(String),
    Receive(String),
    Timeout,
    InvalidPacket(String),
}

/// Format a MAC address as `AA:BB:CC:DD:EE:FF`.
pub fn format_mac(mac: &[u8; 6]) -> (r: String)
    ensures
        r@ == mac_text(mac@),
{
    crate::types::format_mac(mac)
}

/// Parse a MAC address from `AA:BB:CC:DD:EE:FF` text.
pub fn parse_mac(s: &str) -> (r: Option<[u8; 6]>)
    ensures
        match mac_of_text(s@) {
            Some(m) => r matches Some(a) && a@ == m,
            None => r is None,
        },
{
    crate::types::parse_mac(s)
}

/// Broadcast MAC address.
pub open spec fn broadcast_mac() -> [u8; 6] {
    [0xFFu8, 0xFF, 0xFF, 0xFF, 0xFF, 0xFF]
}

/// The broadcast MAC address.
pub fn broadcast() -> (r: [u8; 6])
    ensures
        r == broadcast_mac(),
{
    [0xFF, 0xFF, 0xFF, 0xFF, 0xFF, 0xFF]
}

/// The Ethernet frame that carries packet bytes `data` from `src` to
/// `dst`: destination, source, EtherType, the bytes, then zeros up to the
/// 60-byte minimum frame.
pub open spec fn frame_bytes(dst: Seq<u8>, src: Seq<u8>, data: Seq<u8>) -> Seq<u8> {
    let n = 14 + data.len();
    let total = if n < 60 { 60 } else { n };
    dst + src + be16_bytes(ETHERTYPE_FBC) + data + Seq::new((total - n) as nat, |i: int| 0u8)
}

/// The sender and packet an Ethernet frame carries: 14 header bytes or
/// more, the board EtherType, and a packet in what follows.
pub open spec fn frame_of(frame: Seq<u8>) -> Option<(Seq<u8>, FbcHeader, Seq<u8>)> {
    if frame.len() < 14 || be16(frame.subrange(12, 14)) != ETHERTYPE_FBC {
        None
    } else {
        let rest = frame.skip(14);
        if rest.len() < 8 {
            None
        } else {
            match packet_of(rest) {
                Some((h, p)) => Some((frame.subrange(6, 12), h, p)),
                None => None,
            }
        }
    }
}

/// The Ethernet frame that sends `packet` from `src` to `dst`.
pub fn ethernet_frame(dst: [u8; 6], src: [u8; 6], packet: &FbcPacket) -> (r: Vec<u8>)
    ensures
        r@ == frame_bytes(dst@, src@, packet_bytes(packet.header, packet.payload@)),
{
    let data = packet.serialize();
    let mut out: Vec<u8> = Vec::new();
    push_all(&mut out, dst.as_slice());
    push_all(&mut out, src.as_slice());
    push_u16_be(&mut out, ETHERTYPE_FBC);
    push_all(&mut out, data.as_slice());
    let ghost head = out@;
    assert(head =~= dst@ + src@ + be16_bytes(ETHERTYPE_FBC) + data@);
    let mut k: usize = out.len();
    while k < 60
        invariant
            head.len() <= k <= 60 || k == head.len(),
            out@.len() == k,
            out@ == head + Seq::new((k - head.len()) as nat, |i: int| 0u8),
        decreases 60 - k,
    {
        let ghost before = out@;
        out.push(0);
        assert(out@ =~= head + Seq::new((k + 1 - head.len()) as nat, |i: int| 0u8));
        k = k + 1;
    }
    assert(out@ =~= frame_bytes(dst@, src@, data@));
    out
}

/// The sender and packet of a received Ethernet frame, if it carries one.
pub fn frame_packet(frame: &[u8]) -> (r: Option<([u8; 6], FbcPacket)>)
    ensures
        match frame_of(frame@) {
            Some((m, h, p)) => r matches Some((a, pk)) && a@ == m && pk.header == h && pk.payload@ == p,
            None => r is None,
        },
{
    if frame.len() < 14 || read_u16_be(frame, 12) != ETHERTYPE_FBC {
        return None;
    }
    let rest = crate::codec::copy_range(frame, 14, frame.len());
    assert(rest@ =~= frame@.skip(14));
    if rest.len() < 8 {
        return None;
    }
    match FbcPacket::parse(rest.as_slice()) {
        Some(pk) => {
            let src: [u8; 6] = [frame[6], frame[7], frame[8], frame[9], frame[10], frame[11]];
            assert(src@ =~= frame@.subrange(6, 12));
            Some((src, pk))
        },
        None => None,
    }
}

/// A packet sent in an Ethernet frame is received as the same packet,
/// from its sender (the padding of short frames is ignored).
pub proof fn lemma_frame_roundtrip(dst: [u8; 6], src: [u8; 6], h: FbcHeader, payload: Seq<u8>)
    requires
        h.magic == FBC_MAGIC,
        h.length == payload.len(),
    ensures
        frame_of(frame_bytes(dst@, src@, packet_bytes(h, payload))) == Some((src@, h, payload)),
{
    let data = packet_bytes(h, payload);
    let f = frame_bytes(dst@, src@, data);
    let n = 14 + data.len();
    let total = if n < 60 { 60 } else { n };
    let pad = Seq::new((total - n) as nat, |i: int| 0u8);
    assert(f.subrange(12, 14) =~= be16_bytes(ETHERTYPE_FBC));
    lemma_roundtrip_16(ETHERTYPE_FBC);
    assert(f.subrange(6, 12) =~= src@);
    let rest = f.skip(14);
    assert(rest =~= packet_bytes(h, payload + pad));
    FbcPacket::lemma_packet_roundtrip(h, payload + pad);
    assert((payload + pad).take(h.length as int) =~= payload);
}

impl FbcPacket {
    /// `FBC [seq=…, cmd=0x…, len=…]`, as a packet is shown.
    pub fn to_string(&self) -> (r: String)
        ensures
            r@ == "FBC [seq="@ + dec_chars(self.header.seq as nat) + ", cmd=0x"@ + hex2_upper(self.header.cmd) + ", len="@
                + dec_chars(self.header.length as nat) + "]"@,
    {
        let mut m: Vec<char> = Vec::new();
        push_str(&mut m, "FBC [seq=");
        push_decimal(&mut m, self.header.seq as u64);
        push_str(&mut m, ", cmd=0x");
        push_hex2_upper(&mut m, self.header.cmd);
        push_str(&mut m, ", len=");
        push_decimal(&mut m, self.header.length as u64);
        push_str(&mut m, "]");
        string_from_chars(m.as_slice())
    }
}

impl AnnouncePayload {
    /// `MAC: …, BIM: programmed|blank, S/N: …, FW: major.minor`, as an
    /// announcement is shown.
    pub fn to_string(&self) -> (r: String)
        ensures
            r@ == "MAC: "@ + hex_joined(self.mac@, ':') + ", BIM: "@ + (if self.bim_programmed {
                "programmed"@
            } else {
                "blank"@
            }) + ", S/N: "@ + dec_chars(self.serial as nat) + ", FW: "@ + dec_chars((self.fw_version / 256) as nat)
                + "."@ + dec_chars((self.fw_version % 256) as nat),
    {
        let mut m: Vec<char> = Vec::new();
        push_str(&mut m, "MAC: ");
        let mac = crate::text::hex_join(self.mac.as_slice(), ':');
        crate::text::push_chars(&mut m, mac.as_slice());
        push_str(&mut m, ", BIM: ");
        if self.bim_programmed {
            push_str(&mut m, "programmed");
        } else {
            push_str(&mut m, "blank");
        }
        push_str(&mut m, ", S/N: ");
        push_decimal(&mut m, self.serial as u64);
        push_str(&mut m, ", FW: ");
        let fw = self.fw_version;
        push_decimal(&mut m, (fw >> 8) as u64);
        push_str(&mut m, ".");
        assert((fw >> 8) == fw / 256) by (bit_vector);
        assert((fw & 0xFF) == fw % 256) by (bit_vector);
        push_decimal(&mut m, (fw & 0xFF) as u64);
        proof {
            if self.bim_programmed {
                assert(m@ =~= "MAC: "@ + hex_joined(self.mac@, ':') + ", BIM: "@ + "programmed"@ + ", S/N: "@ + dec_chars(
                    self.serial as nat,
                ) + ", FW: "@ + dec_chars((self.fw_version / 256) as nat) + "."@ + dec_chars(
                    (self.fw_version % 256) as nat,
                ));
            } else {
                assert(m@ =~= "MAC: "@ + hex_joined(self.mac@, ':') + ", BIM: "@ + "blank"@ + ", S/N: "@ + dec_chars(
                    self.serial as nat,
                ) + ", FW: "@ + dec_chars((self.fw_version / 256) as nat) + "."@ + dec_chars(
                    (self.fw_version % 256) as nat,
                ));
            }
        }
        string_from_chars(m.as_slice())
    }
}

} // verus!
