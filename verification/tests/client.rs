use fbc_host::cli::{parse_targets, Targets};
use fbc_host::client::{fw_upload_acked, fw_upload_action, FwUploadAction};
use fbc_host::client::{
    board_from_announce, check_fw_chunk_ack, configure_payload, decode_analog, decode_eeprom, decode_error_log,
    decode_fast_pins, decode_firmware_info, decode_fw_begin, decode_fw_commit, decode_log_info, decode_log_sector,
    decode_pmbus_status, decode_vector_status, decode_vicor_status, eeprom_write_payload, error_log_request,
    fast_pins_payload, fw_begin_payload, fw_chunk_payload, log_read_request, pmbus_enable_payload, power_on_payload,
    start_vectors_payload, upload_chunks, vicor_enable_payload, vicor_voltage_payload, wait_step, FbcError, WaitStep,
};
use fbc_host::types::{ControllerState, SystemType, VectorState};

fn board_msg<T: std::fmt::Debug>(r: Result<T, FbcError>) -> String {
    match r {
        Err(FbcError::Board(m)) => m,
        other => panic!("expected a board error, got {:?}", other),
    }
}

#[test]
fn announce_answers_become_boards() {
    let mut p = vec![0u8; 16];
    p[6] = 4;
    p[7..11].copy_from_slice(&[0, 0, 1, 0]);
    p[11] = 2;
    p[12] = 1;
    p[13] = 3;
    p[14] = 1;
    let mac = [1, 2, 3, 4, 5, 6];
    let b = board_from_announce(mac, 0x01, &p).unwrap();
    assert_eq!(b.system_type, SystemType::Fbc);
    assert_eq!(b.mac, mac);
    assert_eq!(b.serial, 256);
    assert_eq!(b.fw_version, 0x0103);
    assert_eq!(b.bim_type, 4);
    assert!(b.has_bim);
    assert!(!b.bim_programmed);
    assert!(board_from_announce(mac, 0x02, &p).is_none());
    assert!(board_from_announce(mac, 0x01, &p[..15]).is_none());
}

#[test]
fn upload_is_split_in_1400_byte_chunks() {
    let data: Vec<u8> = (0..3000u32).map(|i| (i % 251) as u8).collect();
    let chunks = upload_chunks(&data);
    assert_eq!(chunks.len(), 3);
    assert_eq!(&chunks[0][0..10], &[0, 0, 0, 0, 0, 0, 0x0B, 0xB8, 0x05, 0x78]);
    assert_eq!(&chunks[0][10..], &data[0..1400]);
    assert_eq!(&chunks[1][0..4], &[0, 0, 0x05, 0x78]);
    assert_eq!(&chunks[2][8..10], &[0, 200]);
    assert_eq!(&chunks[2][10..], &data[2800..]);
    assert!(upload_chunks(&[]).is_empty());
    assert_eq!(upload_chunks(&[0u8; 1400]).len(), 1);
}

#[test]
fn request_payloads() {
    assert_eq!(
        configure_payload(3, [1000, 2, 3, 4, 5, 0xFFFF]),
        vec![3, 0x03, 0xE8, 0, 2, 0, 3, 0, 4, 0, 5, 0xFF, 0xFF, 0, 0, 0, 0, 0]
    );
    assert_eq!(fast_pins_payload(0x01020304, 0xA0B0C0D0), vec![1, 2, 3, 4, 0xA0, 0xB0, 0xC0, 0xD0]);
    assert_eq!(vicor_enable_payload(0x3F), vec![0x3F]);
    assert_eq!(vicor_voltage_payload(2, 900), vec![2, 0x03, 0x84]);
    assert_eq!(pmbus_enable_payload(0x40, true), vec![0x40, 1]);
    assert_eq!(pmbus_enable_payload(0x40, false), vec![0x40, 0]);
    assert_eq!(power_on_payload([1, 2, 3, 4, 5, 6]), vec![0, 1, 0, 2, 0, 3, 0, 4, 0, 5, 0, 6]);
    assert_eq!(eeprom_write_payload(8, &[9, 9]), vec![8, 2, 9, 9]);
    assert_eq!(start_vectors_payload(258), vec![0, 0, 1, 2]);
    assert_eq!(error_log_request(1, 2), vec![0, 0, 0, 1, 0, 0, 0, 2]);
    assert_eq!(log_read_request(7), vec![0, 0, 0, 7]);
    assert_eq!(fw_begin_payload(300, 5), vec![0, 0, 1, 44, 0, 0, 0, 5]);
    assert_eq!(fw_chunk_payload(&[1, 2, 3, 4, 5], 3, 4), vec![0, 0, 0, 3, 0, 2, 4, 5]);
}

#[test]
fn waiting_for_a_run() {
    assert_eq!(wait_step(ControllerState::Done), WaitStep::Finished);
    assert_eq!(wait_step(ControllerState::Error), WaitStep::Finished);
    assert_eq!(wait_step(ControllerState::Idle), WaitStep::Idle);
    assert_eq!(wait_step(ControllerState::Running), WaitStep::Poll);
}

#[test]
fn short_answers_are_board_errors() {
    assert_eq!(board_msg(decode_fast_pins(&[0; 11])), "FastPins response too short");
    assert_eq!(board_msg(decode_analog(&[0; 10])), "Analog response too short: 10 bytes (need 192)");
    assert_eq!(board_msg(decode_vicor_status(&[0; 29])), "VICOR response too short");
    assert_eq!(board_msg(decode_eeprom(&[0])), "EEPROM response too short");
    assert_eq!(board_msg(decode_vector_status(&[0; 32])), "Vector status response too short");
    assert_eq!(board_msg(decode_error_log(&[0; 7])), "Error log response too short");
    assert_eq!(board_msg(decode_log_info(&[0; 20])), "Log info response too short");
    assert_eq!(board_msg(decode_log_sector(&[0; 4])), "Log read response too short");
    assert_eq!(board_msg(decode_firmware_info(&[0; 19])), "Firmware info response too short");
    assert_eq!(board_msg(decode_fw_commit(&[0; 8])), "Firmware commit response too short");
    assert_eq!(board_msg(decode_fw_begin(&[])), "Firmware begin failed: status=255");
    assert_eq!(board_msg(decode_fw_begin(&[2, 4, 0])), "Firmware begin failed: status=2");
    assert_eq!(board_msg(check_fw_chunk_ack(&[0, 0, 0, 9, 1], 9)), "Firmware chunk failed at offset 9: status=1");
}

#[test]
fn decoded_answers() {
    let f = decode_fast_pins(&[0, 0, 0, 1, 0, 0, 0, 2, 0, 0, 0, 3]).unwrap();
    assert_eq!((f.din, f.dout, f.oen), (1, 2, 3));

    let mut a = vec![0u8; 192];
    a[6] = 0x01;
    a[8..12].copy_from_slice(&(-1500i32).to_be_bytes());
    a[96 + 1] = 7;
    let (x, e) = decode_analog(&a).unwrap();
    assert_eq!(x.len(), 16);
    assert_eq!(x[1].channel, 1);
    assert_eq!(x[1].raw, 0x100);
    assert_eq!(x[1].scaled_uv, -1500);
    assert_eq!(e[0].channel, 16);
    assert_eq!(e[0].raw, 7);

    let mut v = vec![0u8; 30];
    v[0] = 1;
    v[1] = 0x03;
    v[2] = 0x20;
    let vs = decode_vicor_status(&v).unwrap();
    assert_eq!(vs.cores.len(), 6);
    assert_eq!(vs.cores[0].id, 1);
    assert!(vs.cores[0].enabled);
    assert_eq!(vs.cores[0].voltage_mv, 800);
    assert_eq!(vs.cores[5].id, 6);

    let pm = decode_pmbus_status(&[2, 0x40, 1, 0x04, 0xB0, 0, 5, 0, 0x41, 0, 0, 1]);
    assert_eq!(pm.rails.len(), 1);
    assert_eq!(pm.rails[0].address, 0x40);
    assert!(pm.rails[0].enabled);
    assert_eq!(pm.rails[0].voltage_mv, 1200);
    assert_eq!(pm.rails[0].current_ma, 5);
    assert!(decode_pmbus_status(&[5]).rails.is_empty());

    let ee = decode_eeprom(&[4, 2, 7, 8]).unwrap();
    assert_eq!(ee.offset, 4);
    assert_eq!(ee.data, vec![7, 8]);

    let mut vsp = vec![0u8; 33];
    vsp[0] = 2;
    vsp[4] = 5;
    vsp[32] = 1;
    let st = decode_vector_status(&vsp).unwrap();
    assert_eq!(st.state, VectorState::from_u8(2));
    assert_eq!(st.current_address, 5);
    assert_eq!(st.run_time_ms, 1);

    let mut el = vec![0u8; 8 + 28 + 3];
    el[3] = 4;
    el[7] = 3;
    el[8 + 19] = 6;
    el[8 + 23] = 1;
    el[8 + 27] = 2;
    let log = decode_error_log(&el).unwrap();
    assert_eq!(log.total_errors, 4);
    assert_eq!(log.entries.len(), 1);
    assert_eq!(log.entries[0].vector, 6);
    assert_eq!(log.entries[0].cycle, (2u64 << 32) | 1);

    let mut li = vec![0u8; 21];
    li[0] = 1;
    li[20] = 9;
    let info = decode_log_info(&li).unwrap();
    assert!(info.sd_present);
    assert_eq!(info.total_entries, 9);

    let sec = decode_log_sector(&[0, 0, 0, 3, 0, 0xAA]).unwrap();
    assert_eq!(sec.sector, 3);
    assert_eq!(sec.status, 0);
    assert_eq!(sec.data, vec![0xAA]);

    let mut fw = vec![0u8; 20];
    fw[0] = 1;
    fw[1] = 2;
    fw[2] = 3;
    fw[3..13].copy_from_slice(b"2024-01-02");
    fw[16] = 7;
    fw[19] = 0x02;
    let fi = decode_firmware_info(&fw).unwrap();
    assert_eq!((fi.version_major, fi.version_minor, fi.version_patch), (1, 2, 3));
    assert_eq!(fi.build_date, "2024-01-02");
    assert_eq!(fi.serial, 7);
    assert!(!fi.update_in_progress);
    assert!(fi.sd_present);

    assert_eq!(decode_fw_begin(&[0, 0x08, 0]).unwrap(), 1024);
    assert_eq!(decode_fw_begin(&[0, 0x01, 0]).unwrap(), 256);
    assert!(check_fw_chunk_ack(&[0, 0, 0, 0, 0], 0).is_ok());
    assert!(check_fw_chunk_ack(&[0, 0, 0, 0], 0).is_ok());
    let c = decode_fw_commit(&[0, 0, 0, 1, 0, 0, 0, 0, 9]).unwrap();
    assert_eq!((c.status, c.received_size, c.computed_checksum), (0, 256, 9));
}

#[test]
fn target_arguments() {
    assert!(matches!(parse_targets("ALL"), Ok(Targets::All)));
    match parse_targets("00:0A:35:00:00:01, 00:0A:35:00:00:02") {
        Ok(Targets::Macs(m)) => assert_eq!(m, vec![[0, 0x0A, 0x35, 0, 0, 1], [0, 0x0A, 0x35, 0, 0, 2]]),
        _ => panic!("expected two MAC addresses"),
    }
    match parse_targets("00:0A:35:00:00:01") {
        Ok(Targets::Macs(m)) => assert_eq!(m.len(), 1),
        _ => panic!("expected one MAC address"),
    }
    assert_eq!(parse_targets("00:0A:35:00:00:01, bad").unwrap_err(), "Invalid MAC address:  bad");
    assert_eq!(parse_targets("nope").unwrap_err(), "Invalid MAC address: nope");
}

#[test]
fn upload_chunks_carry_the_image() {
    let data: Vec<u8> = (0..3001u32).map(|i| (i * 7 % 256) as u8).collect();
    let chunks = upload_chunks(&data);
    assert_eq!(chunks.len(), 3);
    let mut joined = Vec::new();
    for c in &chunks {
        joined.extend_from_slice(&c[10..]);
    }
    assert_eq!(joined, data);
}

#[test]
fn firmware_upload_steps_through_the_image() {
    let data: Vec<u8> = (0u8..10).collect();
    let mut offset = 0usize;
    let mut sent: Vec<u8> = Vec::new();
    let mut chunks = 0;
    while let FwUploadAction::SendChunk(p) = fw_upload_action(&data, offset, 4) {
        assert_eq!(&p[0..4], &(offset as u32).to_be_bytes());
        sent.extend_from_slice(&p[6..]);
        chunks += 1;
        offset = fw_upload_acked(&[0, 0, 0, 0, 0], data.len(), offset, 4).unwrap();
    }
    assert_eq!(chunks, 3);
    assert_eq!(offset, 10);
    assert_eq!(sent, data);
    assert!(matches!(fw_upload_action(&data, 10, 4), FwUploadAction::Commit));
    match fw_upload_acked(&[0, 0, 0, 0, 7], 10, 8, 4) {
        Err(FbcError::Board(m)) => assert_eq!(m, "Firmware chunk failed at offset 8: status=7"),
        other => panic!("unexpected {:?}", other.is_ok()),
    }
    assert_eq!(fw_upload_acked(&[], 10, 8, 4).unwrap(), 10);
}
