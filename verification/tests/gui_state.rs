use fbc_host::gui::fbc::{format_mac, parse_mac, ControllerState, TrayPos, VectorState, VicorCoreStatus};
use fbc_host::gui::sonoma::{expand_ip_range, vicor_map};
use fbc_host::gui::state::{
    parse_announce, parse_eeprom, parse_error_log_response, parse_fast_pins, parse_pmbus_status, parse_status,
    parse_vector_status, parse_vicor_status,
};

#[test]
fn announce_payload_fields() {
    let mac = [0x00, 0x0A, 0x35, 0x01, 0x02, 0xFF];
    let mut p = vec![0u8; 15];
    p[6] = 7;
    p[7..11].copy_from_slice(&[0x12, 0x34, 0x56, 0x78]);
    p[11] = 3;
    p[12] = 2;
    p[13] = 15;
    p[14] = 1;
    let b = parse_announce(&mac, &p);
    assert_eq!(b.mac, "00:0A:35:01:02:FF");
    assert_eq!(b.serial, 0x12345678);
    assert_eq!(b.hw_revision, 3);
    assert_eq!(b.fw_version, "2.15");
    assert!(b.has_bim);
    assert_eq!(b.bim_type, 7);
    assert_eq!(b.state, ControllerState::Idle);
    assert!(b.slot.is_none());
}

#[test]
fn fast_pins_order_din_dout_oen() {
    let p = [0, 0, 0, 1, 0, 0, 0, 2, 0xFF, 0, 0, 3];
    let f = parse_fast_pins(&p);
    assert_eq!(f.din, 1);
    assert_eq!(f.dout, 2);
    assert_eq!(f.oen, 0xFF000003);
}

#[test]
fn vector_status_fields() {
    let mut p = vec![0u8; 33];
    p[0] = 2;
    p[4] = 9;
    p[8] = 100;
    p[24] = 5;
    p[32] = 0x10;
    p[25] = 1;
    let s = parse_vector_status(&p);
    assert_eq!(s.state, VectorState::from(2u8));
    assert_eq!(s.current_address, 9);
    assert_eq!(s.total_vectors, 100);
    assert_eq!(s.first_fail_addr, 5);
    assert_eq!(s.run_time_ms, 0x0100_0000_0000_0010);
}

#[test]
fn error_log_entries_bounded_by_payload_and_count() {
    let short = parse_error_log_response(&[1, 2, 3]);
    assert_eq!(short.total_errors, 0);
    assert_eq!(short.num_entries, 0);
    assert!(short.entries.is_empty());

    let mut p = vec![0u8; 8 + 28 * 2 + 5];
    p[3] = 9; // total errors
    p[7] = 5; // entries announced
    p[8 + 3] = 0xAA;
    p[8 + 19] = 42; // vector of entry 0
    p[8 + 28 + 23] = 7; // cycle_lo of entry 1
    let r = parse_error_log_response(&p);
    assert_eq!(r.total_errors, 9);
    assert_eq!(r.num_entries, 5);
    assert_eq!(r.entries.len(), 2);
    assert_eq!(r.entries[0].pattern, [0xAA, 0, 0, 0]);
    assert_eq!(r.entries[0].vector, 42);
    assert_eq!(r.entries[1].cycle_lo, 7);

    p[7] = 1;
    assert_eq!(parse_error_log_response(&p).entries.len(), 1);
}

#[test]
fn eeprom_image_layout() {
    let mut p = vec![0u8; 264];
    p[0] = 0xFB;
    p[1] = 0xC0;
    p[2] = 1;
    p[6] = 99;
    p[16] = 4;
    p[17..21].copy_from_slice(b"VDD\0");
    p[16 + 9] = 0x03;
    p[16 + 10] = 0x20;
    p[16 + 15] = 1;
    p[112..116].copy_from_slice(b"PART");
    p[128..131].copy_from_slice(b"LOT");
    p[144] = 3;
    p[160] = 0xFF;
    p[161] = 0xFE;
    p[262] = 0x12;
    p[263] = 0x34;
    let e = parse_eeprom(&p);
    assert_eq!(e.raw.len(), 256);
    assert_eq!(e.header.magic, 0xFBC0);
    assert_eq!(e.header.version, 1);
    assert_eq!(e.header.board_serial, 99);
    assert_eq!(e.rails.len(), 6);
    assert_eq!(e.rails[0].rail_id, 4);
    assert_eq!(&e.rails[0].name[0..3], b"VDD");
    assert_eq!(e.rails[0].nominal_mv, 800);
    assert!(e.rails[0].enabled_by_default);
    assert!(!e.rails[1].enabled_by_default);
    assert_eq!(e.dut.part_number, "PART");
    assert_eq!(e.dut.lot_id, "LOT");
    assert_eq!(e.dut.wafer_id, 3);
    assert_eq!(e.calibration.adc_offset[0], -2);
    assert_eq!(e.calibration.dac_gain[9], 0x1234);
    assert_eq!(e.calibration.temp_offset, 0);
}

#[test]
fn mac_text_both_ways() {
    assert_eq!(parse_mac("00:0a:35:01:02:ff"), Some([0, 0x0A, 0x35, 1, 2, 0xFF]));
    assert_eq!(parse_mac("00:0A:35:01:02"), None);
    assert_eq!(parse_mac("00:0A:35:01:02:GG"), None);
    assert_eq!(format_mac(&[1, 2, 3, 0xAB, 0xCD, 0xEF]), "01:02:03:AB:CD:EF");
}

#[test]
fn state_codes() {
    assert_eq!(ControllerState::from(0u8), ControllerState::Idle);
    assert_eq!(VicorCoreStatus::from(1u8), VicorCoreStatus::On);
    assert_eq!(VicorCoreStatus::from(2u8), VicorCoreStatus::Fault);
    assert_eq!(VicorCoreStatus::from(77u8), VicorCoreStatus::Fault);
    assert_eq!(VicorCoreStatus::default(), VicorCoreStatus::Off);
    assert!(TrayPos::Front != TrayPos::Back);
}

#[test]
fn sonoma_vicor_wiring_and_ip_range() {
    assert_eq!(vicor_map(1), Ok((9, 0)));
    assert_eq!(vicor_map(6), Ok((2, 37)));
    assert_eq!(vicor_map(0), Err("Invalid VICOR core 0, must be 1-6".to_string()));
    assert_eq!(vicor_map(7), Err("Invalid VICOR core 7, must be 1-6".to_string()));
    assert_eq!(expand_ip_range(3, 5), Ok(vec!["172.16.0.3".to_string(), "172.16.0.4".to_string(), "172.16.0.5".to_string()]));
    assert_eq!(expand_ip_range(5, 3), Err("Start 5 > end 3 in range".to_string()));
}

#[test]
fn status_payload_short_and_full() {
    let mut p = vec![0u8; 11];
    p[3] = 7;
    p[7] = 2;
    p[8] = 0xFF;
    p[9] = 0x9C; // -100 tenths
    p[10] = 1;
    let s = parse_status(&p);
    assert_eq!(s.cycles, 7);
    assert_eq!(s.errors, 2);
    assert_eq!(s.temp_decidegrees, -100);
    assert_eq!(s.state, ControllerState::Running);
    assert_eq!(s.rail_voltage_mv, [0; 8]);
    assert_eq!(s.fpga_vccint_mv, 0);

    let mut q = vec![0u8; 47];
    q[11] = 0x03;
    q[12] = 0xE8; // 1000 mV on rail 0
    q[27 + 14] = 0x01; // rail 7 current high byte
    q[43] = 0x04;
    q[44] = 0x00;
    q[46] = 9;
    let t = parse_status(&q);
    assert_eq!(t.rail_voltage_mv[0], 1000);
    assert_eq!(t.rail_current_ma[7], 0x100);
    assert_eq!(t.fpga_vccint_mv, 0x400);
    assert_eq!(t.fpga_vccaux_mv, 9);

    let mut m = vec![0u8; 45];
    m[43] = 1;
    let u = parse_status(&m);
    assert_eq!(u.fpga_vccint_mv, 0x100);
    assert_eq!(u.fpga_vccaux_mv, 0);
    assert_eq!(u.rail_voltage_mv, [0; 8]);
}

#[test]
fn vicor_cores() {
    let mut p = vec![0u8; 30];
    p[5] = 1;
    p[6] = 0x03;
    p[7] = 0x20;
    p[9] = 5;
    let v = parse_vicor_status(&p);
    assert_eq!(v.cores[0].id, 0);
    assert!(!v.cores[0].enabled);
    assert_eq!(v.cores[0].status, VicorCoreStatus::Off);
    assert_eq!(v.cores[1].id, 1);
    assert!(v.cores[1].enabled);
    assert_eq!(v.cores[1].voltage_mv, 800);
    assert_eq!(v.cores[1].current_ma, 5);
    assert_eq!(v.cores[1].status, VicorCoreStatus::On);
    assert_eq!(v.cores[5].id, 5);
}

#[test]
fn pmbus_rails_bounded_by_payload() {
    let mut p = vec![0u8; 1 + 16 + 10];
    p[0] = 3;
    p[1] = 0x40;
    p[2..6].copy_from_slice(b"VDDQ");
    p[10] = 1;
    p[11] = 0x04;
    p[12] = 0xB0;
    p[13] = 0;
    p[14] = 10;
    p[15] = 0x80;
    p[16] = 0x01;
    let s = parse_pmbus_status(&p);
    assert_eq!(s.rails.len(), 1);
    let r = &s.rails[0];
    assert_eq!(r.address, 0x40);
    assert_eq!(r.name, "VDDQ");
    assert!(r.enabled);
    assert_eq!(r.voltage_mv, 1200);
    assert_eq!(r.current_ma, 10);
    assert_eq!(r.power_mw, 0);
    assert_eq!(r.status_word, 0x8001);
    assert_eq!(parse_pmbus_status(&[0]).rails.len(), 0);
}
