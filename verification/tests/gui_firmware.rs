use fbc_host::gui::firmware::{fw_timeout_message, fw_update_begin, fw_update_step, FwUpdateAction, FwUpdateStage};
use fbc_host::gui::firmware::{begin_ack, chunk_ack, commit_ack, fbc_firmware_info, xor_checksum};

#[test]
fn xor_checksum_folds_bytes() {
    assert_eq!(xor_checksum(&[]), 0);
    assert_eq!(xor_checksum(&[0x0F, 0xF0, 0x01]), 0xFE);
    assert_eq!(xor_checksum(&[0xAA, 0xAA]), 0);
}

#[test]
fn begin_ack_answers() {
    assert_eq!(begin_ack(&[0, 0x01]), None);
    assert_eq!(begin_ack(&[0, 0x02, 0x00]), Some(Ok(512)));
    assert_eq!(begin_ack(&[0, 0x10, 0x00]), Some(Ok(1024)));
    assert_eq!(begin_ack(&[1, 0, 0]), Some(Err("No SD card present".to_string())));
    assert_eq!(begin_ack(&[2, 0, 0]), Some(Err("SD write error".to_string())));
    assert_eq!(begin_ack(&[3, 0, 0]), Some(Err("Update already in progress".to_string())));
    assert_eq!(begin_ack(&[9, 0, 0]), Some(Err("BEGIN failed with status 9".to_string())));
}

#[test]
fn chunk_ack_answers() {
    assert_eq!(chunk_ack(&[0, 0, 4, 0]), None);
    assert_eq!(chunk_ack(&[0, 0, 4, 0, 0]), Some(Ok(())));
    assert_eq!(
        chunk_ack(&[0, 0, 4, 0, 2]),
        Some(Err("Chunk write failed at offset 1024: status 2".to_string()))
    );
}

#[test]
fn commit_ack_answers() {
    let ok = [0, 0, 0, 0x10, 0, 0, 0, 0, 0];
    assert_eq!(
        commit_ack(&ok, 0xAB, 4096),
        Some(Ok("Firmware updated successfully! 4096 bytes written. Board is rebooting.".to_string()))
    );
    let bad_sum = [1, 0, 0, 0x10, 0, 0xDE, 0xAD, 0xBE, 0xEF];
    assert_eq!(
        commit_ack(&bad_sum, 0xAB, 4096),
        Some(Err("Checksum mismatch: expected 000000AB, got DEADBEEF".to_string()))
    );
    let short = [2, 0, 0, 0x08, 0, 0, 0, 0, 0];
    assert_eq!(commit_ack(&short, 0, 4096), Some(Err("Incomplete: received 2048 of 4096 bytes".to_string())));
    assert_eq!(commit_ack(&[7, 0, 0, 0, 0, 0, 0, 0, 0], 0, 0), Some(Err("COMMIT failed with status 7".to_string())));
    assert_eq!(commit_ack(&[0; 8], 0, 0), None);
}

#[test]
fn firmware_info_fields() {
    let mut p = vec![1u8, 2, 3];
    p.extend_from_slice(b"2024-01-15");
    p.extend_from_slice(&[0x12, 0x34, 0x56, 0x78, 4, 0, 0x03]);
    let info = fbc_firmware_info(&p).unwrap();
    assert_eq!(info.version, "1.2.3");
    assert_eq!(info.build_date, "2024-01-15");
    assert_eq!(info.board_serial, 0x12345678);
    assert_eq!(info.hw_revision, 4);
    assert!(info.sd_present);
    assert!(info.update_in_progress);
    assert!(fbc_firmware_info(&p[..19]).is_none());
}

#[test]
fn firmware_update_runs_message_by_message() {
    let data: Vec<u8> = (1u8..=5).collect();
    let (st, begin) = fw_update_begin(&data);
    assert_eq!(st, FwUpdateStage::AwaitBegin);
    assert_eq!(begin, vec![0, 0, 0, 5, 0, 0, 0, 1 ^ 2 ^ 3 ^ 4 ^ 5]);
    let checksum = xor_checksum(&data);
    // Another board's answer is waited past.
    let (st, a) = fw_update_step(st, &data, checksum, false, 0xE4, &[0, 0, 2]);
    assert!(matches!(a, FwUpdateAction::Wait));
    let (st, a) = fw_update_step(st, &data, checksum, true, 0xE4, &[0, 0, 2]);
    assert_eq!(st, FwUpdateStage::AwaitChunk { offset: 0, chunk_size: 2 });
    match a {
        FwUpdateAction::SendChunk(p) => assert_eq!(p, vec![0, 0, 0, 0, 0, 2, 1, 2]),
        other => panic!("unexpected {:?}", other),
    }
    let (st, _) = fw_update_step(st, &data, checksum, true, 0xE6, &[0, 0, 0, 0, 0]);
    let (st, a) = fw_update_step(st, &data, checksum, true, 0xE6, &[0, 0, 0, 2, 0]);
    assert_eq!(st, FwUpdateStage::AwaitChunk { offset: 4, chunk_size: 2 });
    match a {
        FwUpdateAction::SendChunk(p) => assert_eq!(p, vec![0, 0, 0, 4, 0, 1, 5]),
        other => panic!("unexpected {:?}", other),
    }
    assert_eq!(fw_timeout_message(st), "Timeout waiting for CHUNK_ACK at offset 4");
    let (st, a) = fw_update_step(st, &data, checksum, true, 0xE6, &[0, 0, 0, 4, 0]);
    assert_eq!(st, FwUpdateStage::AwaitCommit);
    assert!(matches!(a, FwUpdateAction::SendCommit));
    let (_, a) = fw_update_step(st, &data, checksum, true, 0xE8, &[0, 0, 0, 0, 5, 0, 0, 0, 1]);
    match a {
        FwUpdateAction::Done(m) => assert_eq!(m, "Firmware updated successfully! 5 bytes written. Board is rebooting."),
        other => panic!("unexpected {:?}", other),
    }
    let (_, a) = fw_update_step(FwUpdateStage::AwaitBegin, &data, checksum, true, 0xE4, &[1, 0, 0]);
    match a {
        FwUpdateAction::Fail(m) => assert_eq!(m, "No SD card present"),
        other => panic!("unexpected {:?}", other),
    }
    assert_eq!(fw_timeout_message(FwUpdateStage::AwaitBegin), "Timeout waiting for BEGIN_ACK");
}
