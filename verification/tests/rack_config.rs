use fbc_host::gui::config::{RackConfig, SlotPosition, TrayPosition};

#[test]
fn test_default_capacity() {
    let config = RackConfig::default();
    assert_eq!(config.capacity(), 88);
}

#[test]
fn test_auto_assign() {
    let mut config = RackConfig::default();
    let macs: Vec<String> = (0..10).map(|i| format!("00:0A:35:00:00:{:02X}", i)).collect();

    config.auto_assign(&macs);

    assert_eq!(config.assignments.len(), 10);
}

#[test]
fn assign_then_get_position() {
    let mut config = RackConfig::default();
    let pos = SlotPosition { shelf: 3, tray: TrayPosition::Back, slot: 2 };
    config.assign("AA".to_string(), pos);
    assert_eq!(config.get_position("AA"), Some(pos));
    assert_eq!(config.get_position("BB"), None);
    // Reassigning the same slot to another board drops the first board.
    config.assign("BB".to_string(), pos);
    assert_eq!(config.get_position("AA"), None);
    assert_eq!(config.get_position("BB"), Some(pos));
    assert_eq!(config.assignments.len(), 1);
}

#[test]
fn auto_assign_fills_slots_in_order_and_skips_known_boards() {
    let mut config = RackConfig::default();
    config.assign("X".to_string(), SlotPosition { shelf: 1, tray: TrayPosition::Front, slot: 1 });
    let macs = vec!["X".to_string(), "A".to_string(), "B".to_string()];
    config.auto_assign(&macs);
    assert_eq!(config.get_position("X"), Some(SlotPosition { shelf: 1, tray: TrayPosition::Front, slot: 1 }));
    assert_eq!(config.get_position("A"), Some(SlotPosition { shelf: 1, tray: TrayPosition::Front, slot: 2 }));
    assert_eq!(config.get_position("B"), Some(SlotPosition { shelf: 1, tray: TrayPosition::Front, slot: 3 }));
}

#[test]
fn auto_assign_stops_when_rack_is_full() {
    let mut config = RackConfig { shelves: 1, boards_per_tray: 1, dual_tray: false, assignments: Vec::new() };
    assert_eq!(config.capacity(), 1);
    config.auto_assign(&["A".to_string(), "B".to_string()]);
    assert_eq!(config.assignments.len(), 1);
    assert_eq!(config.get_position("B"), None);
}

#[test]
fn assign_leaves_board_and_slot_once() {
    let mut config = RackConfig::default();
    let p1 = SlotPosition { shelf: 1, tray: TrayPosition::Front, slot: 1 };
    let p2 = SlotPosition { shelf: 2, tray: TrayPosition::Back, slot: 4 };
    config.assign("A".to_string(), p1);
    config.assign("B".to_string(), p2);
    config.assign("C".to_string(), p1);
    config.assign("B".to_string(), p1);
    assert_eq!(config.assignments.len(), 1);
    let last = config.assignments.last().unwrap();
    assert_eq!(last.mac, "B");
    assert_eq!(last.position, p1);
    config.assign("D".to_string(), p2);
    assert_eq!(config.assignments.len(), 2);
    assert_eq!(config.assignments.iter().filter(|a| a.mac == "D").count(), 1);
    assert_eq!(config.assignments.iter().filter(|a| a.position == p2).count(), 1);
}
