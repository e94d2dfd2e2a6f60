use fbc_host::fbc_protocol::{broadcast, ethernet_frame, frame_packet, StatusPayload};
use fbc_host::types::ControllerState;
use fbc_host::cli::{fbc_cmd_name, parse_hex_arg};
use fbc_host::text::IntErrorKind;
use fbc_host::fbc_protocol::{
    format_mac, parse_mac, setup, AnnouncePayload, FbcHeader, FbcPacket, FBC_MAGIC, MAX_PAYLOAD,
};

#[test]
fn header_bytes_are_big_endian() {
    let h = FbcHeader::new(0x50, 0x1234, 11);
    assert_eq!(h.to_bytes(), [0xFB, 0xC0, 0x12, 0x34, 0x50, 0x00, 0x00, 0x0B]);
    let back = FbcHeader::from_bytes(&h.to_bytes()).unwrap();
    assert_eq!(back, h);
    assert!(FbcHeader::from_bytes(&[0u8; 8]).is_none());
    assert!(FbcHeader::from_bytes(&[0xFB, 0xC0, 0, 0]).is_none());
}

#[test]
fn packet_roundtrip() {
    let p = FbcPacket::with_payload(0x21, 7, vec![1, 2, 3]);
    assert_eq!(p.header.length, 3);
    assert_eq!(p.header.magic, FBC_MAGIC);
    let bytes = p.serialize();
    assert_eq!(bytes.len(), 11);
    let q = FbcPacket::parse(&bytes).unwrap();
    assert_eq!(q.header, p.header);
    assert_eq!(q.payload, vec![1, 2, 3]);
    assert!(FbcPacket::parse(&bytes[..10]).is_none());
    let e = FbcPacket::new(0x10, 1);
    assert_eq!(e.serialize().len(), 8);
}

#[test]
fn oversized_payload_is_announced_at_the_limit() {
    let p = FbcPacket::with_payload(0x21, 0, vec![0u8; MAX_PAYLOAD + 5]);
    assert_eq!(p.header.length as usize, MAX_PAYLOAD);
    assert_eq!(p.payload.len(), MAX_PAYLOAD + 5);
    let q = FbcPacket::parse(&p.serialize()).unwrap();
    assert_eq!(q.payload.len(), MAX_PAYLOAD);
}

#[test]
fn announce_roundtrip() {
    let a = AnnouncePayload {
        mac: [0, 0x0A, 0x35, 1, 2, 3],
        bim_type: 4,
        serial: 0xDEADBEEF,
        hw_revision: 2,
        fw_version: 0x0103,
        has_bim: true,
        bim_programmed: false,
    };
    let bytes = a.to_bytes();
    assert_eq!(bytes.len(), 16);
    assert_eq!(&bytes[7..11], &[0xDE, 0xAD, 0xBE, 0xEF]);
    assert_eq!(AnnouncePayload::from_bytes(&bytes), Some(a));
    assert!(AnnouncePayload::from_bytes(&bytes[..15]).is_none());
}

#[test]
fn mac_text_roundtrip() {
    let mac = [0x00, 0x0A, 0x35, 0xC6, 0xB4, 0x2A];
    assert_eq!(format_mac(&mac), "00:0A:35:C6:B4:2A");
    assert_eq!(parse_mac("00:0a:35:c6:b4:2a"), Some(mac));
    assert_eq!(parse_mac("00:0A:35:C6:B4"), None);
    assert_eq!(parse_mac("00:0A:35:C6:B4:2G"), None);
    assert_eq!(parse_mac("00:0A:35:C6:B4:+2A"), Some(mac));
    assert_eq!(parse_mac("100:0A:35:C6:B4:2A"), None);
    assert_eq!(parse_mac("00:0A:35:C6:B4:2A"), Some(mac));
    assert_eq!(parse_mac("00:0A:35:C6:B4:2A:FF"), None);
    assert_eq!(parse_mac("00:0A:35:C6:B4:100"), None);
    assert_eq!(parse_mac("00-0A-35-C6-B4-2A"), None);
    for m in [[0u8; 6], [0xFF; 6], [1, 2, 3, 4, 5, 6], mac] {
        assert_eq!(parse_mac(&format_mac(&m)), Some(m));
    }
}

#[test]
fn command_names() {
    assert_eq!(fbc_cmd_name(setup::ANNOUNCE), "ANNOUNCE");
    assert_eq!(fbc_cmd_name(0x70), "ANALOG_REQ");
    assert_eq!(fbc_cmd_name(0xE7), "FW_COMMIT");
    assert_eq!(fbc_cmd_name(0xE8), "UNKNOWN");
}

#[test]
fn numeric_arguments() {
    assert_eq!(parse_hex_arg(" 0x40040000 "), Ok(0x4004_0000));
    assert_eq!(parse_hex_arg("0XfF"), Ok(255));
    assert_eq!(parse_hex_arg("1234"), Ok(1234));
    assert_eq!(parse_hex_arg("0x1_0000_0000"), Err(IntErrorKind::InvalidDigit));
    assert_eq!(parse_hex_arg("4294967296"), Err(IntErrorKind::PosOverflow));
    assert_eq!(parse_hex_arg("abc"), Err(IntErrorKind::InvalidDigit));
    assert_eq!(parse_hex_arg("0x"), Err(IntErrorKind::Empty));
    assert_eq!(parse_hex_arg("  "), Err(IntErrorKind::Empty));
}

#[test]
fn ethernet_frames_carry_packets() {
    let p = FbcPacket::with_payload(0x21, 7, vec![1, 2, 3]);
    let f = ethernet_frame(broadcast(), [1, 2, 3, 4, 5, 6], &p);
    assert_eq!(f.len(), 60);
    assert_eq!(&f[0..6], &[0xFF; 6]);
    assert_eq!(&f[6..12], &[1, 2, 3, 4, 5, 6]);
    assert_eq!(&f[12..14], &[0x88, 0xB5]);
    assert!(f[25..].iter().all(|b| *b == 0));
    let (src, q) = frame_packet(&f).unwrap();
    assert_eq!(src, [1, 2, 3, 4, 5, 6]);
    assert_eq!(q.header.cmd, 0x21);
    assert_eq!(q.header.seq, 7);
    assert_eq!(q.payload, vec![1, 2, 3]);
    let big = FbcPacket::with_payload(0x21, 1, vec![9u8; 100]);
    assert_eq!(ethernet_frame([0; 6], [0; 6], &big).len(), 14 + 8 + 100);
    let mut wrong = f.clone();
    wrong[12] = 0x08;
    assert!(frame_packet(&wrong).is_none());
    assert!(frame_packet(&f[..20]).is_none());
}

#[test]
fn status_payload_fields() {
    let mut p = vec![0u8; 47];
    p[0..4].copy_from_slice(&1000u32.to_be_bytes());
    p[4..8].copy_from_slice(&3u32.to_be_bytes());
    p[8..10].copy_from_slice(&(-125i16).to_be_bytes());
    p[10] = 1;
    p[11..13].copy_from_slice(&3300u16.to_be_bytes());
    p[27..29].copy_from_slice(&250u16.to_be_bytes());
    p[43..45].copy_from_slice(&1000u16.to_be_bytes());
    p[45..47].copy_from_slice(&1800u16.to_be_bytes());
    let s = StatusPayload::from_bytes(&p).unwrap();
    assert_eq!(s.cycles, 1000);
    assert_eq!(s.errors, 3);
    assert_eq!(s.temp_decidegrees, -125);
    assert_eq!(s.state, ControllerState::Running);
    assert_eq!(s.rail_voltage[0], 3300);
    assert_eq!(s.rail_current[0], 250);
    assert_eq!(s.fpga_vccint, 1000);
    assert_eq!(s.fpga_vccaux, 1800);
    assert!(StatusPayload::from_bytes(&p[..46]).is_none());
}
