use fbc_host::gui::realtime::{BoardEvent, HeartbeatPacket, RealtimeMonitor};
use fbc_host::gui::switch::RackPosition;

#[test]
fn test_heartbeat_parse() {
    let mut packet = vec![0u8; 28];

    packet[0..6].copy_from_slice(&[0xFF, 0xFF, 0xFF, 0xFF, 0xFF, 0xFF]);
    packet[6..12].copy_from_slice(&[0x00, 0x50, 0x56, 0x45, 0x00, 0x01]);
    packet[12] = 0x88;
    packet[13] = 0xB5;
    packet[14] = 0x02;
    packet[15..19].copy_from_slice(&1000u32.to_le_bytes());
    packet[19..23].copy_from_slice(&0u32.to_le_bytes());
    packet[23..25].copy_from_slice(&32768u16.to_le_bytes());
    packet[25] = 1;

    let heartbeat = HeartbeatPacket::parse(&packet).unwrap();
    assert_eq!(heartbeat.mac_string(), "00:50:56:45:00:01");
    assert_eq!(heartbeat.cycles, 1000);
    assert_eq!(heartbeat.errors, 0);
    assert_eq!(heartbeat.state_string(), "running");
}

fn protocol_frame(cmd: u8) -> Vec<u8> {
    let mut f = vec![0u8; 33];
    f[6..12].copy_from_slice(&[1, 2, 3, 4, 5, 6]);
    f[12] = 0x88;
    f[13] = 0xB5;
    f[14] = 0xFB;
    f[15] = 0xC0;
    f[18] = cmd;
    f[22..26].copy_from_slice(&7u32.to_be_bytes());
    f[26..30].copy_from_slice(&2u32.to_be_bytes());
    f[30..32].copy_from_slice(&452i16.to_be_bytes());
    f[32] = 3;
    f
}

#[test]
fn heartbeat_protocol_frames() {
    let h = HeartbeatPacket::parse(&protocol_frame(0x50)).unwrap();
    assert_eq!(h.src_mac, [1, 2, 3, 4, 5, 6]);
    assert_eq!((h.cycles, h.errors, h.temp_c, h.state), (7, 2, 452, 3));
    assert_eq!(h.state_string(), "error");
    let a = HeartbeatPacket::parse(&protocol_frame(0x01)).unwrap();
    assert_eq!((a.cycles, a.errors, a.temp_c, a.state), (0, 0, 0, 0));
    assert_eq!(a.state_string(), "idle");
    assert!(HeartbeatPacket::parse(&protocol_frame(0x40)).is_none());
    let mut wrong = protocol_frame(0x50);
    wrong[12] = 0x08;
    assert!(HeartbeatPacket::parse(&wrong).is_none());
    assert!(HeartbeatPacket::parse(&[0u8; 10]).is_none());
}

fn beat(mac_last: u8, state: u8, cycles: u32) -> HeartbeatPacket {
    HeartbeatPacket { src_mac: [0, 0x0A, 0x35, 0, 0, mac_last], cycles, errors: 1, temp_c: 452, state }
}

#[test]
fn monitor_tracks_heartbeats() {
    let mut m = RealtimeMonitor::new();
    assert!(m.get_all_boards().is_empty());
    let ev = m.process_heartbeat_at(&beat(1, 0, 5), 1000);
    assert_eq!(ev.len(), 2);
    match &ev[0] {
        BoardEvent::Connected { mac, position } => {
            assert_eq!(mac, "00:0A:35:00:00:01");
            assert!(position.is_none());
        },
        other => panic!("unexpected {:?}", other),
    }
    match &ev[1] {
        BoardEvent::Heartbeat { state, .. } => {
            assert_eq!(state.state, "idle");
            assert_eq!(state.first_seen, 1000);
            assert_eq!(state.uptime_ms, 0);
        },
        other => panic!("unexpected {:?}", other),
    }
    let ev = m.process_heartbeat_at(&beat(1, 1, 9), 1600);
    assert_eq!(ev.len(), 2);
    match &ev[0] {
        BoardEvent::StateChanged { old_state, new_state, .. } => {
            assert_eq!(old_state, "idle");
            assert_eq!(new_state, "running");
        },
        other => panic!("unexpected {:?}", other),
    }
    let b = m.get_board("00:0A:35:00:00:01").unwrap();
    assert!(b.online);
    assert_eq!(b.last_seen, 1600);
    assert_eq!(b.cycles, 9);
    assert_eq!(b.errors, 1);
    assert_eq!(b.temp_decidegrees, 452);
    assert_eq!(b.uptime_ms, 600);
    assert_eq!(b.run_time_ms, 600);
    let ev = m.process_heartbeat_at(&beat(1, 1, 10), 1700);
    assert_eq!(ev.len(), 1);
    assert!(m.get_board("00:0A:35:00:00:02").is_none());
}

#[test]
fn monitor_times_out_silent_boards() {
    let mut m = RealtimeMonitor::new();
    m.process_heartbeat_at(&beat(1, 1, 1), 1000);
    m.process_heartbeat_at(&beat(2, 1, 1), 1400);
    let ev = m.check_timeouts_at(1500);
    assert!(ev.is_empty());
    let ev = m.check_timeouts_at(1501);
    assert_eq!(ev.len(), 1);
    match &ev[0] {
        BoardEvent::Disconnected { mac } => assert_eq!(mac, "00:0A:35:00:00:01"),
        other => panic!("unexpected {:?}", other),
    }
    assert!(!m.get_board("00:0A:35:00:00:01").unwrap().online);
    assert!(m.get_board("00:0A:35:00:00:02").unwrap().online);
    assert!(m.check_timeouts_at(1600).is_empty());
    let ev = m.check_timeouts_at(2000);
    assert_eq!(ev.len(), 1);
    let all = m.get_all_boards();
    assert_eq!(all.len(), 2);
    assert_eq!(all[0].mac, "00:0A:35:00:00:01");
    m.process_heartbeat_at(&beat(1, 2, 3), 2100);
    assert!(m.get_board("00:0A:35:00:00:01").unwrap().online);
}

#[test]
fn monitor_positions() {
    let mut m = RealtimeMonitor::new();
    m.process_heartbeat_at(&beat(7, 0, 0), 5);
    m.set_board_position("00:0A:35:00:00:07", RackPosition { shelf: 3, tray: "front".to_string(), slot: 2 });
    m.set_board_position("00:0A:35:00:00:08", RackPosition { shelf: 4, tray: "back".to_string(), slot: 1 });
    let b = m.get_board("00:0A:35:00:00:07").unwrap();
    let p = b.position.unwrap();
    assert_eq!((p.shelf, p.tray.as_str(), p.slot), (3, "front", 2));
    assert_eq!(m.get_all_boards().len(), 1);
}
