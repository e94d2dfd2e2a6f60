use fbc_host::gui::fbc::is_auto_connect_candidate;
use fbc_host::gui::config::{SlotPosition, TrayPosition};
use fbc_host::fbc_protocol::{AnnouncePayload, FbcPacket};
use fbc_host::types::{ControllerState, SystemType, VectorState};
use fbc_host::vector::fvec::FvecError;
use fbc_host::gui::export::{
    add_stdf_string, build_mir_record, build_mrr_record, build_pir_record, build_prr_record, export_format,
    filter_by_time_range, stdf_file, ExportFormat, ExportOptions, PartSummary,
};
use fbc_host::gui::position::PositionIdentifier;

#[test]
fn position_text_roundtrip() {
    let p = PositionIdentifier::new(1, 2, 3, 4, "FRONT", "A");
    assert_eq!(p.to_string(), "S1-C2-T3-FRONTA");
    let q = PositionIdentifier::from_string("S1-C2-T3-FRONTA").unwrap();
    assert_eq!((q.shelf, q.chamber, q.tray, q.slot), (1, 2, 3, 0));
    assert_eq!(q.position_label, "FRONT");
    assert_eq!(q.slot_label, "A");
    let r = PositionIdentifier::from_string("S10-C1-T2-REAR").unwrap();
    assert_eq!(r.position_label, "REAR");
    assert_eq!(r.slot_label, "");
    assert!(PositionIdentifier::from_string("S1-C1-FRONTA").is_none());
    assert!(PositionIdentifier::from_string("X1-C1-T1-FRONTA").is_none());
    assert!(PositionIdentifier::from_string("S1-Cx-T1-FRONTA").is_none());
}

#[test]
fn stdf_records() {
    let mut d = Vec::new();
    add_stdf_string(&mut d, b"abc");
    assert_eq!(d, vec![3, b'a', b'b', b'c']);
    assert_eq!(build_pir_record(300), vec![2, 0, 5, 10, 1, 45]);
    let mrr = build_mrr_record(0x01020304);
    assert_eq!(mrr, vec![7, 0, 1, 20, 4, 3, 2, 1, b' ', 0, 0]);
    let prr = build_prr_record(1, 3, 500, 42);
    assert_eq!(&prr[0..4], &[22, 0, 5, 20]);
    assert_eq!(prr[6], 8);
    assert_eq!(&prr[4 + 17..4 + 20], &[2, b'4', b'2']);
    let mir = build_mir_record(10);
    assert_eq!(mir[2], 1);
    assert_eq!(mir[3], 10);
    let len = u16::from_le_bytes([mir[0], mir[1]]) as usize;
    assert_eq!(len + 4, mir.len());
    assert_eq!(&mir[4..8], &10u32.to_le_bytes());
}

fn options(format: &str, range: &str, start: Option<i64>, end: Option<i64>) -> ExportOptions {
    ExportOptions {
        format: format.to_string(),
        include_raw_data: false,
        include_waveforms: false,
        time_range: range.to_string(),
        custom_start: start,
        custom_end: end,
    }
}

#[test]
fn time_ranges() {
    let ts = [0i64, 5_000_000, 9_000_000, 10_000_000];
    let now = 10_000_000;
    assert_eq!(filter_by_time_range(&ts, &options("csv", "all", None, None), now), vec![0, 1, 2, 3]);
    assert_eq!(filter_by_time_range(&ts, &options("csv", "last-hour", None, None), now), vec![2, 3]);
    assert_eq!(filter_by_time_range(&ts, &options("csv", "custom", Some(1), Some(9_000_000)), now), vec![1, 2]);
    assert_eq!(filter_by_time_range(&ts, &options("csv", "custom", None, None), now), vec![0, 1, 2, 3]);
    assert_eq!(filter_by_time_range(&ts, &options("csv", "custom", Some(6_000_000), None), now), vec![2, 3]);
    assert_eq!(filter_by_time_range(&ts, &options("csv", "weird", None, None), now), vec![0, 1, 2, 3]);
}

#[test]
fn export_formats() {
    assert_eq!(export_format(&options("csv", "all", None, None)), Ok(ExportFormat::Csv));
    assert_eq!(export_format(&options("json", "all", None, None)), Ok(ExportFormat::Json));
    assert_eq!(export_format(&options("stdf", "all", None, None)), Ok(ExportFormat::Stdf));
    assert_eq!(export_format(&options("xml", "all", None, None)), Err("Unknown export format: xml".to_string()));
}

#[test]
fn stdf_file_layout() {
    let parts = [PartSummary { errors: 0, duration_ms: 10, serial: 7 }, PartSummary { errors: 2, duration_ms: 20, serial: 8 }];
    let f = stdf_file(100, &parts, 200);
    assert_eq!(&f[0..6], &[0x02, 0x00, 0x00, 0x0A, 0x02, 0x04]);
    let mir = build_mir_record(100);
    assert_eq!(&f[6..6 + mir.len()], mir.as_slice());
    let mut at = 6 + mir.len();
    for (i, p) in parts.iter().enumerate() {
        let pir = build_pir_record(i as u16);
        assert_eq!(&f[at..at + pir.len()], pir.as_slice());
        at += pir.len();
        let prr = build_prr_record(i as u16, p.errors, p.duration_ms, p.serial);
        assert_eq!(&f[at..at + prr.len()], prr.as_slice());
        at += prr.len();
    }
    assert_eq!(&f[at..], build_mrr_record(200).as_slice());
}

#[test]
fn position_text_reads_back() {
    for (pos, slot) in [("FRONT", "A"), ("REAR", "B"), ("REAR", ""), ("FRONT", "")] {
        let p = PositionIdentifier::new(3, 0, 12, 5, pos, slot);
        let q = PositionIdentifier::from_string(&p.to_string()).unwrap();
        assert_eq!((q.shelf, q.chamber, q.tray, q.slot), (3, 0, 12, 0));
        assert_eq!(q.position_label, pos);
        assert_eq!(q.slot_label, slot);
    }
}

#[test]
fn display_texts() {
    assert_eq!(SlotPosition { shelf: 3, tray: TrayPosition::Back, slot: 2 }.to_string(), "3-B2");
    assert_eq!(SlotPosition { shelf: 11, tray: TrayPosition::Front, slot: 1 }.to_string(), "11-F1");
    let p = FbcPacket::with_payload(0x0A, 300, vec![1, 2]);
    assert_eq!(p.to_string(), "FBC [seq=300, cmd=0x0A, len=2]");
    let a = AnnouncePayload {
        mac: [0, 0x0A, 0x35, 1, 2, 3],
        bim_type: 1,
        serial: 42,
        hw_revision: 1,
        fw_version: 0x0203,
        has_bim: true,
        bim_programmed: false,
    };
    assert_eq!(a.to_string(), "MAC: 00:0A:35:01:02:03, BIM: blank, S/N: 42, FW: 2.3");
    assert_eq!(SystemType::Xp160.to_string(), "XP-160");
    assert_eq!(SystemType::Fbc.to_string(), "FBC");
    assert_eq!(ControllerState::Running.to_string(), "Running");
    assert_eq!(VectorState::Paused.to_string(), "Paused");
    assert_eq!(FvecError::Parse { line: 4, msg: "bad".to_string() }.to_string(), "Parse error at line 4: bad");
}

#[test]
fn auto_connect_skips_wireless_and_virtual_adapters() {
    assert!(is_auto_connect_candidate("eth0"));
    assert!(is_auto_connect_candidate("Ethernet 2 (Intel(R) I210 Gigabit)"));
    assert!(!is_auto_connect_candidate("Wi-Fi (Intel AX201)"));
    assert!(!is_auto_connect_candidate("WiFi"));
    assert!(!is_auto_connect_candidate("Wireless LAN"));
    assert!(!is_auto_connect_candidate("VirtualBox Host-Only"));
    assert!(!is_auto_connect_candidate("Loopback Pseudo-Interface 1"));
}
