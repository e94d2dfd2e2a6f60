use fbc_host::datalog::{crc32_update, DatalogError, DatalogReader, DatalogWriter};
use fbc_host::fbc_protocol::{runtime, FbcPacket};

#[test]
fn test_crc32() {
    let crc = crc32_update(0, b"hello");
    assert_eq!(crc, 0x3610A686);
}

fn write_log(mac: &[u8; 6]) -> Vec<u8> {
    let (mut writer, header) = DatalogWriter::create(mac, 1_700_000_000, 0x12345678);
    let mut file = header;
    for i in 0..3u16 {
        let mut payload = vec![0u8; 11];
        payload[0..4].copy_from_slice(&(i as u32 * 1000).to_be_bytes());
        payload[8..10].copy_from_slice(&452i16.to_be_bytes());
        payload[10] = 1;
        let pkt = FbcPacket::with_payload(runtime::HEARTBEAT, i, payload);
        file.extend(writer.write_packet(&pkt, 10 * i as u32));
    }
    let (count, footer) = writer.finalize();
    assert_eq!(count, 3);
    file.extend(footer);
    file
}

#[test]
fn datalog_read_after_write() {
    let mac = [0x00, 0x0A, 0x35, 0xC6, 0xB4, 0x2A];
    let file = write_log(&mac);
    let reader = DatalogReader::open(file).unwrap();
    assert_eq!(reader.header().version, 1);
    assert_eq!(reader.header().board_mac, mac);
    assert_eq!(reader.header().plan_hash, 0x12345678);
    assert_eq!(reader.header().test_start_epoch, 1_700_000_000);
    assert_eq!(reader.record_count(), 3);
    let records = reader.records().unwrap();
    assert_eq!(records.len(), 3);
    assert_eq!(records[0].packet.header.cmd, runtime::HEARTBEAT);
    assert_eq!(records[0].packet.payload.len(), 11);
    assert_eq!(records[2].offset_ms, 20);
    assert!(records[1].offset_ms >= records[0].offset_ms);
    assert_eq!(reader.verify_crc(), Ok(true));
}

#[test]
fn datalog_detects_damage() {
    let mac = [1, 2, 3, 4, 5, 6];
    let mut file = write_log(&mac);
    file[40] ^= 0xFF;
    let reader = DatalogReader::open(file.clone()).unwrap();
    assert_eq!(reader.verify_crc(), Ok(false));
    let mut bad = file.clone();
    bad[0] = b'X';
    assert!(matches!(DatalogReader::open(bad), Err(DatalogError::NotDatalog)));
    let mut nofooter = file.clone();
    let n = nofooter.len();
    nofooter[n - 1] = 0;
    assert!(matches!(DatalogReader::open(nofooter), Err(DatalogError::MissingFooter)));
    assert!(matches!(DatalogReader::open(vec![0u8; 10]), Err(DatalogError::UnexpectedEof)));
    let mut badrec = write_log(&mac);
    badrec[32 + 4] = 0;
    let reader = DatalogReader::open(badrec).unwrap();
    assert!(matches!(reader.records(), Err(DatalogError::InvalidRecordHeader)));
}
